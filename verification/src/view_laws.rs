//! What the mathematical value of each type shows: every field, as it is.
#[allow(unused_imports)]
use crate::culprit::{culprit_models, Culprit};
#[allow(unused_imports)]
use crate::diagnostics::{
    atom_models, byte_strings, records, sizes, Atom, AtomStats, PatternDiagnostics,
};
#[allow(unused_imports)]
use crate::hir::{lemma_node_model, node_models, HirNode, HirShape, ShapeModel};
#[allow(unused_imports)]
use crate::profiling::{duration_nanos, entries, FileTime};
#[allow(unused_imports)]
use crate::report::{indices, labels_models, source_models, CompiledSource, Labels};
use vstd::prelude::*;

verus! {

/// The value of a culprit is of its kind and has its fields.
pub proof fn law_value_of_a_culprit(culprit: Culprit)
    ensures
        match culprit {
            Culprit::UnboundedRepetitionAtEdge { leading, expr } => {
                &&& culprit@ is UnboundedRepetitionAtEdge
                &&& culprit@->leading == leading
                &&& culprit@->UnboundedRepetitionAtEdge_expr == expr@
            },
            Culprit::LargeClassRepetition { class_size, min_rep, expr } => {
                &&& culprit@ is LargeClassRepetition
                &&& culprit@->class_size == class_size
                &&& culprit@->min_rep == min_rep
                &&& culprit@->LargeClassRepetition_expr == expr@
            },
            Culprit::ShortAlternationBranch { min_branch_len, expr } => {
                &&& culprit@ is ShortAlternationBranch
                &&& culprit@->min_branch_len == min_branch_len
                &&& culprit@->ShortAlternationBranch_expr == expr@
            },
            Culprit::NestedUnboundedRepetition { expr } => {
                &&& culprit@ is NestedUnboundedRepetition
                &&& culprit@->NestedUnboundedRepetition_expr == expr@
            },
            Culprit::ShortFixedRegion { len } => {
                &&& culprit@ is ShortFixedRegion
                &&& culprit@->len == len
            },
        },
{
}

/// The value of an expression tree has the text, the length and the shape of
/// each node.
pub proof fn law_value_of_a_tree(node: HirNode)
    ensures
        node@.text == node.text@,
        node@.minimum_len == node.minimum_len,
        match node.shape {
            HirShape::Empty => node@.shape is Empty,
            HirShape::Literal(bytes) => node@.shape == ShapeModel::Literal(bytes@),
            HirShape::Class(ranges) => node@.shape == ShapeModel::Class(ranges@),
            HirShape::Look => node@.shape is Look,
            HirShape::Repetition { min, max, sub } => {
                &&& node@.shape is Repetition
                &&& node@.shape->min == min
                &&& node@.shape->max == max
                &&& *node@.shape->sub == sub@
            },
            HirShape::Capture(sub) => node@.shape is Capture && *node@.shape->Capture_0 == sub@,
            HirShape::Concat(subs) => {
                &&& node@.shape is Concat
                &&& node@.shape->Concat_0.len() == subs@.len()
                &&& forall|i: int|
                    0 <= i < subs@.len() ==> #[trigger] node@.shape->Concat_0[i] == subs@[i]@
            },
            HirShape::Alternation(subs) => {
                &&& node@.shape is Alternation
                &&& node@.shape->Alternation_0.len() == subs@.len()
                &&& forall|i: int|
                    0 <= i < subs@.len() ==> #[trigger] node@.shape->Alternation_0[i] == subs@[i]@
            },
        },
{
    lemma_node_model(node);
}

/// The values of an atom and of the statistics about atoms.
pub proof fn law_value_of_atoms(atom: Atom, stats: AtomStats)
    ensures
        atom@.bytes == atom.bytes@,
        atom@.exact == atom.exact,
        stats@.count == stats.count,
        stats@.min_len == stats.min_len,
        stats@.max_len == stats.max_len,
        stats@.exact_count == stats.exact_count,
        stats@.samples.len() == stats.samples@.len(),
        forall|i: int|
            0 <= i < stats.samples@.len() ==> #[trigger] stats@.samples[i] == stats.samples@[i]@,
{
}

/// The value of a record has every field of the record.
pub proof fn law_value_of_a_record(d: PatternDiagnostics)
    ensures
        d@.rule_name == d.rule_name@,
        d@.pattern_ident == d.pattern_ident@,
        d@.start == d.span.first(),
        d@.end == d.span.past(),
        d@.slow_reason == d.slow_reason,
        d@.atom_stats is Some <==> d.atom_stats is Some,
        d.atom_stats is Some ==> d@.atom_stats->0 == d.atom_stats->0@,
        d@.culprits.len() == d.culprits@.len(),
        forall|i: int|
            0 <= i < d.culprits@.len() ==> #[trigger] d@.culprits[i] == d.culprits@[i]@,
{
}

/// The values of a source, of labels and of an entry of an offender list.
pub proof fn law_value_of_sources_and_labels(
    source: CompiledSource,
    labels: Labels,
    file: FileTime,
)
    ensures
        source@.path == source.path@,
        source@.content == source.content@,
        source@.diags_so_far == source.diags_so_far,
        labels@.rule == labels.rule@,
        labels@.ident == labels.ident@,
        labels@.status == labels.status@,
        file@.time == duration_nanos(file.time),
        file@.label == file.label@,
{
}

/// The value of a list has the value of each element, in order, and no other.
pub proof fn law_values_of_lists(
    culprits: Seq<Culprit>,
    diags: Seq<PatternDiagnostics>,
    atoms: Seq<Atom>,
    sources: Seq<CompiledSource>,
    labels: Seq<Labels>,
    files: Seq<FileTime>,
    strings: Seq<Vec<u8>>,
    numbers: Seq<usize>,
    nodes: Seq<HirNode>,
)
    ensures
        culprit_models(culprits).len() == culprits.len(),
        forall|i: int|
            0 <= i < culprits.len() ==> #[trigger] culprit_models(culprits)[i] == culprits[i]@,
        records(diags).len() == diags.len(),
        forall|i: int| 0 <= i < diags.len() ==> #[trigger] records(diags)[i] == diags[i]@,
        atom_models(atoms).len() == atoms.len(),
        forall|i: int| 0 <= i < atoms.len() ==> #[trigger] atom_models(atoms)[i] == atoms[i]@,
        source_models(sources).len() == sources.len(),
        forall|i: int|
            0 <= i < sources.len() ==> #[trigger] source_models(sources)[i] == sources[i]@,
        labels_models(labels).len() == labels.len(),
        forall|i: int| 0 <= i < labels.len() ==> #[trigger] labels_models(labels)[i] == labels[i]@,
        entries(files).len() == files.len(),
        forall|i: int| 0 <= i < files.len() ==> #[trigger] entries(files)[i] == files[i]@,
        byte_strings(strings).len() == strings.len(),
        forall|i: int| 0 <= i < strings.len() ==> #[trigger] byte_strings(strings)[i] == strings[i]@,
        indices(numbers).len() == numbers.len(),
        forall|i: int| 0 <= i < numbers.len() ==> #[trigger] indices(numbers)[i] == numbers[i],
        sizes(numbers).len() == numbers.len(),
        forall|i: int| 0 <= i < numbers.len() ==> #[trigger] sizes(numbers)[i] == numbers[i],
        node_models(nodes).len() == nodes.len(),
        forall|i: int| 0 <= i < nodes.len() ==> #[trigger] node_models(nodes)[i] == nodes[i]@,
{
}

} // verus!
