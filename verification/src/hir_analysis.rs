//! Walks a pattern's expression tree looking for sub-expressions that are
//! known to hurt atom extraction. Produces [`Culprit`] findings, facts only;
//! the fix suggestions live in the report.

use regex_syntax::hir::Hir;
use vstd::prelude::*;

use crate::culprit::Culprit;
use crate::hir::{read_hir, ClassRange, HirNode, HirShape};
#[allow(unused_imports)]
use crate::culprit::{culprit_models, CulpritModel};
#[allow(unused_imports)]
use crate::hir::{
    canonical, hir_model, lemma_node_model, node_models, well_formed, NodeModel, ShapeModel,
    MAX_CODE_POINT,
};

verus! {

/// The length, in bytes, that an atom should have.
pub const DESIRED_ATOM_SIZE: usize = 4;

/// Classes with at least this many elements are considered "large" when
/// repeated: atom extraction must enumerate every combination of class
/// elements, and the atom count grows exponentially.
pub const LARGE_CLASS_SIZE: usize = 16;

/// Classes that match (almost) any byte, like `.` or the implicit class of a
/// hex jump `[1-10]`, are treated as gaps rather than content.
pub const ANY_BYTE_CLASS_SIZE: usize = 250;

/// Number of elements in the ranges of a class.
pub open spec fn class_total(ranges: Seq<ClassRange>) -> nat
    decreases ranges.len(),
{
    if ranges.len() == 0 {
        0
    } else {
        class_total(ranges.drop_last()) + (ranges.last().end - ranges.last().start + 1) as nat
    }
}

/// The node is a repetition without an upper bound.
pub open spec fn unbounded(node: NodeModel) -> bool {
    node.shape matches ShapeModel::Repetition { max, .. } && max is None
}

/// The node is an unbounded repetition, or one occurs below it.
pub open spec fn unbounded_inside(node: NodeModel) -> bool
    decreases node,
{
    match node.shape {
        ShapeModel::Repetition { max, sub, .. } => max is None || unbounded_inside(*sub),
        ShapeModel::Capture(sub) => unbounded_inside(*sub),
        ShapeModel::Concat(subs) => exists|i: int|
            0 <= i < subs.len() && unbounded_inside(#[trigger] subs[i]),
        ShapeModel::Alternation(subs) => exists|i: int|
            0 <= i < subs.len() && unbounded_inside(#[trigger] subs[i]),
        _ => false,
    }
}

/// The finding for an unbounded repetition at an edge of the pattern; nothing
/// for any other expression.
pub open spec fn edge_finding(node: NodeModel, leading: bool) -> Seq<CulpritModel> {
    if unbounded(node) {
        seq![CulpritModel::UnboundedRepetitionAtEdge { leading, expr: node.text }]
    } else {
        Seq::empty()
    }
}

/// The findings about the edges of the pattern: its first and its last
/// sub-expression if it is a concatenation, else the pattern itself.
pub open spec fn edge_findings(node: NodeModel) -> Seq<CulpritModel> {
    match node.shape {
        ShapeModel::Concat(subs) => if subs.len() == 0 {
            Seq::empty()
        } else {
            edge_finding(subs.first(), true) + edge_finding(subs.last(), false)
        },
        _ => edge_finding(node, true),
    }
}

/// The finding for a repetition of a large class.
pub open spec fn large_class_finding(node: NodeModel) -> Seq<CulpritModel> {
    match node.shape {
        ShapeModel::Repetition { min, sub, .. } => match sub.shape {
            ShapeModel::Class(ranges) => if LARGE_CLASS_SIZE <= class_total(ranges)
                < ANY_BYTE_CLASS_SIZE {
                seq![
                    CulpritModel::LargeClassRepetition {
                        class_size: class_total(ranges),
                        min_rep: min as nat,
                        expr: node.text,
                    },
                ]
            } else {
                Seq::empty()
            },
            _ => Seq::empty(),
        },
        _ => Seq::empty(),
    }
}

/// The finding for an unbounded repetition with another one below it.
pub open spec fn nested_finding(node: NodeModel) -> Seq<CulpritModel> {
    match node.shape {
        ShapeModel::Repetition { max, sub, .. } => if max is None && unbounded_inside(*sub) {
            seq![CulpritModel::NestedUnboundedRepetition { expr: node.text }]
        } else {
            Seq::empty()
        },
        _ => Seq::empty(),
    }
}

/// The smaller of two lengths, where `None` is no length at all.
pub open spec fn shorter(a: Option<usize>, b: Option<usize>) -> Option<usize> {
    match (a, b) {
        (Some(x), Some(y)) => if y < x {
            Some(y)
        } else {
            Some(x)
        },
        (Some(x), None) => Some(x),
        (None, _) => b,
    }
}

/// The least minimum length among the branches that have one.
pub open spec fn shortest_branch(branches: Seq<NodeModel>) -> Option<usize>
    decreases branches.len(),
{
    if branches.len() == 0 {
        None
    } else {
        shorter(shortest_branch(branches.drop_last()), branches.last().minimum_len)
    }
}

/// The finding for an alternation with a branch shorter than an atom should be.
pub open spec fn short_branch_finding(node: NodeModel) -> Seq<CulpritModel> {
    match node.shape {
        ShapeModel::Alternation(branches) => match shortest_branch(branches) {
            Some(len) => if len < DESIRED_ATOM_SIZE {
                seq![
                    CulpritModel::ShortAlternationBranch {
                        min_branch_len: len as nat,
                        expr: node.text,
                    },
                ]
            } else {
                Seq::empty()
            },
            None => Seq::empty(),
        },
        _ => Seq::empty(),
    }
}

/// The repetition and alternation findings of the whole tree, each expression
/// before its sub-expressions and these from left to right.
pub open spec fn tree_findings(node: NodeModel) -> Seq<CulpritModel>
    decreases node,
{
    match node.shape {
        ShapeModel::Repetition { sub, .. } => large_class_finding(node) + nested_finding(node)
            + tree_findings(*sub),
        ShapeModel::Alternation(subs) => short_branch_finding(node) + list_findings(subs),
        ShapeModel::Concat(subs) => list_findings(subs),
        ShapeModel::Capture(sub) => tree_findings(*sub),
        _ => Seq::empty(),
    }
}

/// The repetition and alternation findings of a list of trees, in order.
pub open spec fn list_findings(nodes: Seq<NodeModel>) -> Seq<CulpritModel>
    decreases nodes,
{
    if nodes.len() == 0 {
        Seq::empty()
    } else {
        list_findings(nodes.drop_last()) + tree_findings(nodes.last())
    }
}

/// The node is a repetition of a class that matches (almost) any byte.
pub open spec fn gap(node: NodeModel) -> bool {
    node.shape matches ShapeModel::Repetition { sub, .. } && (sub.shape matches ShapeModel::Class(
        ranges,
    ) && class_total(ranges) >= ANY_BYTE_CLASS_SIZE)
}

/// The finding for the sub-expression at `i` of a concatenation, if it is a
/// literal shorter than an atom should be with a gap right before or after it.
pub open spec fn fixed_region_finding(subs: Seq<NodeModel>, i: int) -> Seq<CulpritModel> {
    match subs[i].shape {
        ShapeModel::Literal(bytes) => if bytes.len() < DESIRED_ATOM_SIZE && ((i > 0 && gap(
            subs[i - 1],
        )) || (i + 1 < subs.len() && gap(subs[i + 1]))) {
            seq![CulpritModel::ShortFixedRegion { len: bytes.len() }]
        } else {
            Seq::empty()
        },
        _ => Seq::empty(),
    }
}

/// The fixed-region findings of the first `n` sub-expressions.
pub open spec fn fixed_region_findings(subs: Seq<NodeModel>, n: nat) -> Seq<CulpritModel>
    decreases n,
{
    if n == 0 {
        Seq::empty()
    } else {
        fixed_region_findings(subs, (n - 1) as nat) + fixed_region_finding(subs, n - 1)
    }
}

/// The fixed-region findings of a pattern. Only a concatenation has any.
pub open spec fn region_findings(node: NodeModel) -> Seq<CulpritModel> {
    match node.shape {
        ShapeModel::Concat(subs) => fixed_region_findings(subs, subs.len()),
        _ => Seq::empty(),
    }
}

/// All the findings about a pattern.
pub open spec fn all_findings(node: NodeModel) -> Seq<CulpritModel> {
    edge_findings(node) + tree_findings(node) + region_findings(node)
}

/// Returns the culprit findings for the given pattern. Best-effort: an empty
/// result does not mean the pattern is fast.
pub fn find_culprits(hir: &Hir) -> (culprits: Vec<Culprit>)
    ensures
        culprit_models(culprits@) == all_findings(hir_model(*hir)),
{
    find_culprits_in(&read_hir(hir))
}

/// Returns the culprit findings for a pattern given as a [`HirNode`].
pub fn find_culprits_in(node: &HirNode) -> (culprits: Vec<Culprit>)
    requires
        well_formed(node@),
    ensures
        culprit_models(culprits@) == all_findings(node@),
{
    let mut culprits: Vec<Culprit> = Vec::new();
    assert(culprit_models(culprits@) =~= Seq::empty());
    edge_repetitions(node, &mut culprits);
    visit(node, &mut culprits);
    short_fixed_regions(node, &mut culprits);
    assert(culprit_models(culprits@) =~= all_findings(node@));
    culprits
}

/// The parts of a well-formed tree are well-formed.
proof fn lemma_parts_well_formed(node: HirNode)
    requires
        well_formed(node@),
    ensures
        match node.shape {
            HirShape::Class(ranges) => canonical(ranges@),
            HirShape::Repetition { sub, .. } => well_formed(sub@),
            HirShape::Capture(sub) => well_formed(sub@),
            HirShape::Concat(subs) => forall|i: int|
                0 <= i < subs@.len() ==> well_formed(#[trigger] node_models(subs@)[i]),
            HirShape::Alternation(subs) => forall|i: int|
                0 <= i < subs@.len() ==> well_formed(#[trigger] node_models(subs@)[i]),
            _ => true,
        },
{
    lemma_node_model(node);
    match node.shape {
        HirShape::Concat(subs) => {
            assert(node@.shape->Concat_0 == node_models(subs@));
        },
        HirShape::Alternation(subs) => {
            assert(node@.shape->Alternation_0 == node_models(subs@));
        },
        _ => {},
    }
}

/// Where an unbounded repetition can occur, in terms of a node's parts.
proof fn lemma_unbounded_inside(node: HirNode)
    ensures
        unbounded_inside(node@) == (match node.shape {
            HirShape::Repetition { max, sub, .. } => max is None || unbounded_inside(sub@),
            HirShape::Capture(sub) => unbounded_inside(sub@),
            HirShape::Concat(subs) => exists|i: int|
                0 <= i < subs@.len() && unbounded_inside(#[trigger] node_models(subs@)[i]),
            HirShape::Alternation(subs) => exists|i: int|
                0 <= i < subs@.len() && unbounded_inside(#[trigger] node_models(subs@)[i]),
            _ => false,
        }),
{
    lemma_node_model(node);
    match node.shape {
        HirShape::Concat(subs) => {
            let models = node@.shape->Concat_0;
            assert(models == node_models(subs@));
            assert(unbounded_inside(node@) == exists|i: int|
                0 <= i < models.len() && unbounded_inside(#[trigger] models[i]));
        },
        HirShape::Alternation(subs) => {
            let models = node@.shape->Alternation_0;
            assert(models == node_models(subs@));
            assert(unbounded_inside(node@) == exists|i: int|
                0 <= i < models.len() && unbounded_inside(#[trigger] models[i]));
        },
        _ => {},
    }
}

/// The elements of a canonical class are not more than the code points up to
/// its last one.
proof fn lemma_class_total_bound(ranges: Seq<ClassRange>)
    requires
        canonical(ranges),
    ensures
        ranges.len() > 0 ==> class_total(ranges) <= ranges.last().end + 1,
        class_total(ranges) <= MAX_CODE_POINT + 1,
    decreases ranges.len(),
{
    if ranges.len() > 0 {
        lemma_class_total_bound(ranges.drop_last());
        if ranges.len() > 1 {
            assert(ranges[ranges.len() - 2].end < ranges[ranges.len() - 1].start);
        }
    }
}

/// Number of elements the class matches.
pub fn class_size(ranges: &Vec<ClassRange>) -> (size: usize)
    requires
        canonical(ranges@),
    ensures
        size == class_total(ranges@),
{
    let mut size: usize = 0;
    let mut i: usize = 0;
    assert(ranges@.take(0) =~= Seq::empty());
    while i < ranges.len()
        invariant
            canonical(ranges@),
            i <= ranges.len(),
            size == class_total(ranges@.take(i as int)),
        decreases ranges.len() - i,
    {
        proof {
            let upto = ranges@.take(i + 1);
            assert(upto.drop_last() =~= ranges@.take(i as int));
            assert(canonical(upto)) by {
                assert forall|j: int| 0 <= j < upto.len() implies (#[trigger] upto[j]).start
                    <= upto[j].end <= MAX_CODE_POINT by {
                    assert(upto[j] == ranges@[j]);
                }
                assert forall|j: int, k: int| 0 <= j < k < upto.len() implies (#[trigger] upto[j]).end
                    < (#[trigger] upto[k]).start by {
                    assert(upto[j] == ranges@[j] && upto[k] == ranges@[k]);
                }
            }
            lemma_class_total_bound(upto);
            assert(upto.last() == ranges@[i as int]);
        }
        size += (ranges[i].end - ranges[i].start) as usize + 1;
        i += 1;
    }
    assert(ranges@.take(ranges@.len() as int) =~= ranges@);
    size
}

/// Whether the node is a repetition without an upper bound.
pub fn is_unbounded_rep(node: &HirNode) -> (yes: bool)
    ensures
        yes == unbounded(node@),
{
    match &node.shape {
        HirShape::Repetition { max, .. } => max.is_none(),
        _ => false,
    }
}

/// Appends a finding.
fn report(culprits: &mut Vec<Culprit>, culprit: Culprit)
    ensures
        culprit_models(final(culprits)@) == culprit_models(old(culprits)@) + seq![culprit@],
{
    culprits.push(culprit);
    assert(culprit_models(culprits@) =~= culprit_models(old(culprits)@) + seq![culprit@]);
}

/// Flags unbounded repetitions at the very start or end of the pattern.
/// YARA patterns are unanchored, so a leading `.*` adds nothing and a
/// trailing one only extends matches; both prevent atom anchoring.
pub fn edge_repetitions(node: &HirNode, culprits: &mut Vec<Culprit>)
    ensures
        culprit_models(final(culprits)@) == culprit_models(old(culprits)@) + edge_findings(node@),
{
    proof {
        lemma_node_model(*node);
    }
    match &node.shape {
        HirShape::Repetition { max, .. } => {
            if max.is_none() {
                report(
                    culprits,
                    Culprit::UnboundedRepetitionAtEdge { leading: true, expr: node.text.clone() },
                );
            }
        },
        HirShape::Concat(subs) => {
            if subs.len() > 0 {
                let first = &subs[0];
                if is_unbounded_rep(first) {
                    report(
                        culprits,
                        Culprit::UnboundedRepetitionAtEdge {
                            leading: true,
                            expr: first.text.clone(),
                        },
                    );
                }
                let last = &subs[subs.len() - 1];
                if is_unbounded_rep(last) {
                    report(
                        culprits,
                        Culprit::UnboundedRepetitionAtEdge {
                            leading: false,
                            expr: last.text.clone(),
                        },
                    );
                }
            }
        },
        _ => {},
    }
    assert(culprit_models(culprits@) =~= culprit_models(old(culprits)@) + edge_findings(node@));
}

/// Visitor for repetition and alternation culprits.
pub fn visit(node: &HirNode, culprits: &mut Vec<Culprit>)
    requires
        well_formed(node@),
    ensures
        culprit_models(final(culprits)@) == culprit_models(old(culprits)@) + tree_findings(node@),
    decreases node,
{
    proof {
        lemma_node_model(*node);
        lemma_parts_well_formed(*node);
    }
    match &node.shape {
        HirShape::Repetition { min, max, sub } => {
            proof {
                lemma_node_model(**sub);
                lemma_parts_well_formed(**sub);
            }
            if let HirShape::Class(ranges) = &sub.shape {
                let size = class_size(ranges);
                if LARGE_CLASS_SIZE <= size && size < ANY_BYTE_CLASS_SIZE {
                    report(
                        culprits,
                        Culprit::LargeClassRepetition {
                            class_size: size,
                            min_rep: *min,
                            expr: node.text.clone(),
                        },
                    );
                }
            }
            if max.is_none() && contains_unbounded_rep(sub) {
                report(
                    culprits,
                    Culprit::NestedUnboundedRepetition { expr: node.text.clone() },
                );
            }
            visit(sub, culprits);
        },
        HirShape::Alternation(branches) => {
            if let Some(min) = shortest_branch_len(branches) {
                if min < DESIRED_ATOM_SIZE {
                    report(
                        culprits,
                        Culprit::ShortAlternationBranch {
                            min_branch_len: min,
                            expr: node.text.clone(),
                        },
                    );
                }
            }
            visit_all(branches, culprits);
        },
        HirShape::Concat(subs) => visit_all(subs, culprits),
        HirShape::Capture(sub) => visit(sub, culprits),
        _ => {},
    }
    assert(culprit_models(culprits@) =~= culprit_models(old(culprits)@) + tree_findings(node@));
}

/// Visits each of the nodes, in order.
fn visit_all(nodes: &Vec<HirNode>, culprits: &mut Vec<Culprit>)
    requires
        forall|i: int| 0 <= i < nodes@.len() ==> well_formed(#[trigger] node_models(nodes@)[i]),
    ensures
        culprit_models(final(culprits)@) == culprit_models(old(culprits)@) + list_findings(
            node_models(nodes@),
        ),
    decreases nodes,
{
    let ghost models = node_models(nodes@);
    let mut i: usize = 0;
    assert(models.take(0) =~= Seq::empty());
    assert(culprit_models(culprits@) =~= culprit_models(old(culprits)@) + list_findings(
        models.take(0),
    ));
    while i < nodes.len()
        invariant
            i <= nodes.len(),
            models == node_models(nodes@),
            forall|j: int| 0 <= j < nodes@.len() ==> well_formed(#[trigger] models[j]),
            culprit_models(culprits@) == culprit_models(old(culprits)@) + list_findings(
                models.take(i as int),
            ),
        decreases nodes.len() - i,
    {
        assert(well_formed(models[i as int]));
        visit(&nodes[i], culprits);
        proof {
            let upto = models.take(i + 1);
            assert(upto.drop_last() =~= models.take(i as int));
            assert(upto.last() == nodes@[i as int]@);
            assert(culprit_models(culprits@) =~= culprit_models(old(culprits)@) + list_findings(
                upto,
            ));
        }
        i += 1;
    }
    assert(models.take(models.len() as int) =~= models);
}

/// The least minimum length among the branches that have one.
fn shortest_branch_len(branches: &Vec<HirNode>) -> (shortest: Option<usize>)
    ensures
        shortest == shortest_branch(node_models(branches@)),
{
    let ghost models = node_models(branches@);
    let mut shortest: Option<usize> = None;
    let mut i: usize = 0;
    assert(models.take(0) =~= Seq::empty());
    while i < branches.len()
        invariant
            i <= branches.len(),
            models == node_models(branches@),
            shortest == shortest_branch(models.take(i as int)),
        decreases branches.len() - i,
    {
        proof {
            let upto = models.take(i + 1);
            assert(upto.drop_last() =~= models.take(i as int));
            assert(upto.last() == branches@[i as int]@);
        }
        if let Some(len) = branches[i].minimum_len {
            match shortest {
                Some(min) => {
                    if len < min {
                        shortest = Some(len);
                    }
                },
                None => {
                    shortest = Some(len);
                },
            }
        }
        i += 1;
    }
    assert(models.take(models.len() as int) =~= models);
    shortest
}

/// Whether the node is an unbounded repetition, or one occurs below it.
pub fn contains_unbounded_rep(node: &HirNode) -> (yes: bool)
    ensures
        yes == unbounded_inside(node@),
    decreases node,
{
    proof {
        lemma_unbounded_inside(*node);
    }
    match &node.shape {
        HirShape::Repetition { max, sub, .. } => max.is_none() || contains_unbounded_rep(sub),
        HirShape::Concat(subs) => any_contains_unbounded_rep(subs),
        HirShape::Alternation(subs) => any_contains_unbounded_rep(subs),
        HirShape::Capture(sub) => contains_unbounded_rep(sub),
        _ => false,
    }
}

/// Whether any of the nodes is or holds an unbounded repetition.
fn any_contains_unbounded_rep(nodes: &Vec<HirNode>) -> (yes: bool)
    ensures
        yes == exists|i: int|
            0 <= i < nodes@.len() && unbounded_inside(#[trigger] node_models(nodes@)[i]),
    decreases nodes,
{
    let ghost models = node_models(nodes@);
    let mut i: usize = 0;
    while i < nodes.len()
        invariant
            i <= nodes.len(),
            models == node_models(nodes@),
            forall|j: int| 0 <= j < i ==> !unbounded_inside(#[trigger] models[j]),
        decreases nodes.len() - i,
    {
        if contains_unbounded_rep(&nodes[i]) {
            assert(unbounded_inside(models[i as int]));
            return true;
        }
        i += 1;
    }
    false
}

/// Whether the node is a repetition of a class that matches (almost) any byte.
fn is_gap(node: &HirNode) -> (yes: bool)
    requires
        well_formed(node@),
    ensures
        yes == gap(node@),
{
    proof {
        lemma_node_model(*node);
        lemma_parts_well_formed(*node);
    }
    match &node.shape {
        HirShape::Repetition { sub, .. } => {
            proof {
                lemma_node_model(**sub);
                lemma_parts_well_formed(**sub);
            }
            match &sub.shape {
                HirShape::Class(ranges) => class_size(ranges) >= ANY_BYTE_CLASS_SIZE,
                _ => false,
            }
        },
        _ => false,
    }
}

/// Flags literal regions shorter than [`DESIRED_ATOM_SIZE`] that sit right
/// next to an any-byte gap, typical of hex patterns like `{ 00 [1-10] 01 }`.
pub fn short_fixed_regions(node: &HirNode, culprits: &mut Vec<Culprit>)
    requires
        well_formed(node@),
    ensures
        culprit_models(final(culprits)@) == culprit_models(old(culprits)@) + region_findings(node@),
{
    proof {
        lemma_node_model(*node);
        lemma_parts_well_formed(*node);
    }
    assert(culprit_models(culprits@) =~= culprit_models(old(culprits)@) + Seq::empty());
    if let HirShape::Concat(subs) = &node.shape {
        let ghost models = node_models(subs@);
        let mut i: usize = 0;
        while i < subs.len()
            invariant
                i <= subs.len(),
                models == node_models(subs@),
                forall|j: int| 0 <= j < models.len() ==> well_formed(#[trigger] models[j]),
                culprit_models(culprits@) == culprit_models(old(culprits)@)
                    + fixed_region_findings(models, i as nat),
            decreases subs.len() - i,
        {
            let ghost before = culprit_models(culprits@);
            if let HirShape::Literal(lit) = &subs[i].shape {
                let len = lit.len();
                assert(i > 0 ==> well_formed(models[i - 1]));
                assert(i + 1 < models.len() ==> well_formed(models[i + 1]));
                let prev_gap = i > 0 && is_gap(&subs[i - 1]);
                let next_gap = i + 1 < subs.len() && is_gap(&subs[i + 1]);
                if len < DESIRED_ATOM_SIZE && (prev_gap || next_gap) {
                    report(culprits, Culprit::ShortFixedRegion { len });
                }
            }
            proof {
                assert(models[i as int] == subs@[i as int]@);
                assert(culprit_models(culprits@) =~= before + fixed_region_finding(
                    models,
                    i as int,
                ));
                assert(culprit_models(culprits@) =~= culprit_models(old(culprits)@)
                    + fixed_region_findings(models, (i + 1) as nat));
            }
            i += 1;
        }
    }
}

} // verus!
