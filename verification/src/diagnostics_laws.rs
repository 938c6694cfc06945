//! What holds of the slow-pattern verdict and of the records.
#[allow(unused_imports)]
use crate::culprit::CulpritModel;
#[allow(unused_imports)]
use crate::diagnostics::{
    all_short, atom_models, atom_sizes, atom_stats, common_byte_record, lemma_extremes, max_size,
    min_size, pattern_record, sizes, slow_reason, Atom, AtomModel, PatternDiagnostics, SlowReason,
    Span, MAX_SAMPLE_ATOMS, MAX_SHORT_ATOMS, MIN_ATOM_LEN,
};
use vstd::prelude::*;

verus! {

/// A pattern is not slow exactly if it has atoms, none is shorter than
/// [`MIN_ATOM_LEN`], and there are at most [`MAX_SHORT_ATOMS`] of them unless
/// one is longer than that.
pub proof fn law_good_atoms_are_not_slow(sizes: Seq<nat>)
    requires
        forall|i: int| 0 <= i < sizes.len() ==> #[trigger] sizes[i] <= usize::MAX,
    ensures
        slow_reason(sizes) is None <==> {
            &&& sizes.len() > 0
            &&& forall|i: int| 0 <= i < sizes.len() ==> #[trigger] sizes[i] >= MIN_ATOM_LEN
            &&& sizes.len() <= MAX_SHORT_ATOMS || exists|i: int|
                0 <= i < sizes.len() && #[trigger] sizes[i] > MIN_ATOM_LEN
        },
{
    if sizes.len() > 0 {
        lemma_extremes(sizes);
        let min = min_size(sizes);
        let at = sizes.index_of(min);
        assert(sizes[at] == min);
        if min >= MIN_ATOM_LEN && !all_short(sizes) {
            let i = choose|i: int| 0 <= i < sizes.len() && #[trigger] sizes[i] != MIN_ATOM_LEN;
            assert(sizes[i] > MIN_ATOM_LEN);
        }
    }
}

/// The order of the atoms plays no part in the verdict.
pub proof fn law_order_does_not_matter(a: Seq<nat>, b: Seq<nat>)
    requires
        a.to_multiset() == b.to_multiset(),
    ensures
        slow_reason(a) == slow_reason(b),
{
    broadcast use vstd::seq_lib::group_to_multiset_ensures;

    vstd::seq_lib::to_multiset_len(a);
    vstd::seq_lib::to_multiset_len(b);
    assert forall|size: nat| a.contains(size) == b.contains(size) by {
        assert(a.contains(size) == (a.to_multiset().count(size) > 0));
        assert(b.contains(size) == (b.to_multiset().count(size) > 0));
    }
    if a.len() > 0 {
        lemma_extremes(a);
        let min = min_size(a);
        assert forall|i: int| 0 <= i < b.len() implies min <= #[trigger] b[i] by {
            assert(b.contains(b[i]));
            let j = a.index_of(b[i]);
            assert(a.contains(b[i]));
            assert(a[j] == b[i]);
        }
        assert(a.contains(min));
        assert(b.contains(min));
        lemma_extremes(b);
        assert(a.contains(min_size(b)));
        assert(a[a.index_of(min_size(b))] == min_size(b));
        assert(all_short(a) ==> all_short(b)) by {
            if all_short(a) {
                assert forall|i: int| 0 <= i < b.len() implies #[trigger] b[i] == MIN_ATOM_LEN by {
                    assert(b.contains(b[i]));
                    assert(a.contains(b[i]));
                    assert(a[a.index_of(b[i])] == b[i]);
                }
            }
        }
        assert(all_short(b) ==> all_short(a)) by {
            if all_short(b) {
                assert forall|i: int| 0 <= i < a.len() implies #[trigger] a[i] == MIN_ATOM_LEN by {
                    assert(a.contains(a[i]));
                    assert(b.contains(a[i]));
                    assert(b[b.index_of(a[i])] == a[i]);
                }
            }
        }
    }
}

/// Atoms alone never make a pattern a repetition of a common byte.
pub proof fn law_atoms_do_not_show_common_bytes(sizes: Seq<nat>)
    ensures
        slow_reason(sizes) != Some(SlowReason::CommonByteRepetition),
{
}

/// The reason and the statistics in a record agree: the numbers that the
/// reason names are those of the statistics.
pub proof fn law_record_agrees_with_itself(
    rule_name: Seq<char>,
    pattern_ident: Seq<char>,
    span: Span,
    atoms: Seq<AtomModel>,
    culprits: Seq<CulpritModel>,
)
    requires
        atoms.len() <= usize::MAX,
        forall|i: int| 0 <= i < atoms.len() ==> (#[trigger] atoms[i]).bytes.len() <= usize::MAX,
    ensures
        ({
            let record = pattern_record(rule_name, pattern_ident, span, atoms, culprits);
            let stats = record.atom_stats->0;
            match record.slow_reason {
                None => stats.count > 0 && stats.min_len >= MIN_ATOM_LEN,
                Some(SlowReason::NoAtoms) => stats.count == 0,
                Some(SlowReason::ZeroLengthAtom) => stats.count == 1 && stats.max_len == 0,
                Some(SlowReason::SingleShortAtom { len }) => stats.count == 1 && stats.min_len
                    == len && stats.max_len == len && len == 1,
                Some(SlowReason::MinAtomTooShort { min, count }) => stats.count == count && count
                    > 1 && stats.min_len == min && min < MIN_ATOM_LEN,
                Some(SlowReason::TooManyShortAtoms { count }) => stats.count == count && count
                    > MAX_SHORT_ATOMS && stats.min_len == MIN_ATOM_LEN && stats.max_len
                    == MIN_ATOM_LEN,
                Some(SlowReason::CommonByteRepetition) => false,
            }
        }),
{
    let sizes = atom_sizes(atoms);
    if sizes.len() > 0 {
        lemma_extremes(sizes);
        let i = sizes.index_of(min_size(sizes));
        let j = sizes.index_of(max_size(sizes));
        assert(sizes[i] == min_size(sizes) == atoms[i].bytes.len());
        assert(sizes[j] == max_size(sizes) == atoms[j].bytes.len());
    }
}

/// The samples are the first atoms, all of them if there are no more than
/// [`MAX_SAMPLE_ATOMS`]; no atom is longer than the longest or shorter than
/// the shortest, and no more atoms are exact than there are.
pub proof fn law_statistics_bound_the_atoms(atoms: Seq<AtomModel>)
    ensures
        atom_stats(atoms).samples.len() <= MAX_SAMPLE_ATOMS,
        atom_stats(atoms).samples.len() < MAX_SAMPLE_ATOMS ==> atom_stats(atoms).samples.len()
            == atoms.len(),
        forall|i: int|
            0 <= i < atom_stats(atoms).samples.len() ==> #[trigger] atom_stats(atoms).samples[i]
                == atoms[i].bytes,
        forall|i: int|
            0 <= i < atoms.len() ==> atom_stats(atoms).min_len <= (#[trigger] atoms[i]).bytes.len()
                <= atom_stats(atoms).max_len,
        atom_stats(atoms).exact_count <= atom_stats(atoms).count,
{
    atoms.lemma_filter_len(|a: AtomModel| a.exact);
    let sizes = atom_sizes(atoms);
    if sizes.len() > 0 {
        lemma_extremes(sizes);
        assert forall|i: int| 0 <= i < atoms.len() implies atom_stats(atoms).min_len <= (
        #[trigger] atoms[i]).bytes.len() <= atom_stats(atoms).max_len by {
            assert(sizes[i] == atoms[i].bytes.len());
        }
    }
}

/// Which reason makes a pattern slow, said of the lengths of its atoms: none at
/// all; one that is empty; one of a single byte; several with one below two
/// bytes, where the reason names the shortest; or more than 2700 of exactly two
/// bytes each. Other patterns are not slow.
pub proof fn law_which_reason_applies(lens: Seq<usize>, min: usize)
    requires
        lens.len() <= usize::MAX,
    ensures
        lens.len() == 0 ==> slow_reason(sizes(lens)) == Some(SlowReason::NoAtoms),
        lens.len() == 1 && lens[0] == 0 ==> slow_reason(sizes(lens)) == Some(
            SlowReason::ZeroLengthAtom,
        ),
        lens.len() == 1 && lens[0] == 1 ==> slow_reason(sizes(lens)) == Some(
            SlowReason::SingleShortAtom { len: 1 },
        ),
        lens.len() > 1 && min < 2 && lens.contains(min) && (forall|i: int|
            0 <= i < lens.len() ==> min <= #[trigger] lens[i]) ==> slow_reason(sizes(lens)) == Some(
            SlowReason::MinAtomTooShort { min, count: lens.len() as usize },
        ),
        lens.len() > 2700 && (forall|i: int| 0 <= i < lens.len() ==> #[trigger] lens[i] == 2)
            ==> slow_reason(sizes(lens)) == Some(
            SlowReason::TooManyShortAtoms { count: lens.len() as usize },
        ),
        lens.len() > 0 && (forall|i: int| 0 <= i < lens.len() ==> #[trigger] lens[i] >= 2) && (
        lens.len() <= 2700 || exists|i: int| 0 <= i < lens.len() && #[trigger] lens[i] > 2)
            ==> slow_reason(sizes(lens)) is None,
{
    let all = sizes(lens);
    if lens.len() > 0 {
        lemma_extremes(all);
        let m = min_size(all);
        let at = all.index_of(m);
        assert(all[at] == m && lens[at] == m);
        if lens.contains(min) && (forall|i: int| 0 <= i < lens.len() ==> min <= #[trigger] lens[i]) {
            let i = lens.index_of(min);
            assert(all[i] == min);
            assert(min <= lens[at]);
        }
        if forall|i: int| 0 <= i < lens.len() ==> #[trigger] lens[i] == 2 {
            assert forall|i: int| 0 <= i < all.len() implies #[trigger] all[i] == MIN_ATOM_LEN by {
                assert(lens[i] == 2);
            }
        }
        if exists|i: int| 0 <= i < lens.len() && #[trigger] lens[i] > 2 {
            let i = choose|i: int| 0 <= i < lens.len() && #[trigger] lens[i] > 2;
            assert(all[i] > 2);
        }
    }
}

/// The places of the exact atoms.
pub open spec fn exact_places(atoms: Seq<AtomModel>) -> Set<int> {
    Set::new(|i: int| 0 <= i < atoms.len() && atoms[i].exact)
}

proof fn lemma_exact_count(atoms: Seq<AtomModel>)
    ensures
        exact_places(atoms).finite(),
        exact_places(atoms).len() == atoms.filter(|a: AtomModel| a.exact).len(),
    decreases atoms.len(),
{
    let exact = |a: AtomModel| a.exact;
    if atoms.len() == 0 {
        assert(exact_places(atoms) =~= Set::empty());
        assert(atoms.filter(exact) =~= Seq::empty());
    } else {
        let init = atoms.drop_last();
        let n = init.len() as int;
        lemma_exact_count(init);
        assert(atoms =~= init.push(atoms.last()));
        init.lemma_filter_push(atoms.last(), exact);
        assert forall|i: int| 0 <= i < n implies atoms[i] == init[i] by {}
        if atoms.last().exact {
            assert(exact_places(atoms) =~= exact_places(init).insert(n));
            assert(!exact_places(init).contains(n));
        } else {
            assert(exact_places(atoms) =~= exact_places(init));
        }
    }
}

/// The statistics count the atoms and the exact ones among them, and name
/// lengths that atoms have and none exceeds. Without atoms all are zero.
pub proof fn law_what_statistics_count(atoms: Seq<AtomModel>)
    ensures
        atom_stats(atoms).count == atoms.len(),
        exact_places(atoms).finite(),
        atom_stats(atoms).exact_count == exact_places(atoms).len(),
        atoms.len() == 0 ==> atom_stats(atoms).min_len == 0 && atom_stats(atoms).max_len == 0,
        atoms.len() > 0 ==> exists|i: int|
            0 <= i < atoms.len() && (#[trigger] atoms[i]).bytes.len() == atom_stats(atoms).min_len,
        atoms.len() > 0 ==> exists|i: int|
            0 <= i < atoms.len() && (#[trigger] atoms[i]).bytes.len() == atom_stats(atoms).max_len,
        forall|i: int|
            0 <= i < atoms.len() ==> atom_stats(atoms).min_len <= (#[trigger] atoms[i]).bytes.len()
                <= atom_stats(atoms).max_len,
        atom_stats(atoms).samples.len() == if atoms.len() < 8 {
            atoms.len()
        } else {
            8
        },
        forall|i: int|
            0 <= i < atom_stats(atoms).samples.len() ==> #[trigger] atom_stats(atoms).samples[i]
                == atoms[i].bytes,
{
    lemma_exact_count(atoms);
    law_statistics_bound_the_atoms(atoms);
    let all = atom_sizes(atoms);
    if all.len() > 0 {
        lemma_extremes(all);
        let i = all.index_of(min_size(all));
        let j = all.index_of(max_size(all));
        assert(all[i] == min_size(all) && atoms[i].bytes.len() == all[i]);
        assert(all[j] == max_size(all) && atoms[j].bytes.len() == all[j]);
    }
}

/// Whatever the verdict, the record of a pattern holds what it was made from:
/// the names, the span, the culprits, the statistics of the atoms, and the
/// reason that their lengths give.
pub proof fn law_records_hold_what_was_given(
    rule_name: Seq<char>,
    pattern_ident: Seq<char>,
    span: Span,
    atoms: Seq<AtomModel>,
    culprits: Seq<CulpritModel>,
    lens: Seq<usize>,
)
    requires
        lens.len() == atoms.len(),
        forall|i: int| 0 <= i < atoms.len() ==> (#[trigger] atoms[i]).bytes.len() == lens[i],
    ensures
        pattern_record(rule_name, pattern_ident, span, atoms, culprits).rule_name == rule_name,
        pattern_record(rule_name, pattern_ident, span, atoms, culprits).pattern_ident
            == pattern_ident,
        pattern_record(rule_name, pattern_ident, span, atoms, culprits).start == span.first(),
        pattern_record(rule_name, pattern_ident, span, atoms, culprits).end == span.past(),
        pattern_record(rule_name, pattern_ident, span, atoms, culprits).culprits == culprits,
        pattern_record(rule_name, pattern_ident, span, atoms, culprits).atom_stats == Some(
            atom_stats(atoms),
        ),
        pattern_record(rule_name, pattern_ident, span, atoms, culprits).slow_reason == slow_reason(
            sizes(lens),
        ),
{
    assert forall|i: int| 0 <= i < atoms.len() implies atom_sizes(atoms)[i] == sizes(lens)[i] by {
        assert(atoms[i].bytes.len() == lens[i]);
    }
    assert(atom_sizes(atoms) =~= sizes(lens));
}

/// The record that is made for a pattern has, field by field, what was passed
/// in: the names, the span, and each culprit in its place.
pub proof fn law_fields_of_a_pattern_record(
    record: PatternDiagnostics,
    rule_name: Seq<char>,
    pattern_ident: Seq<char>,
    span: Span,
    atoms: Seq<Atom>,
    culprits: Seq<CulpritModel>,
)
    requires
        record@ == pattern_record(rule_name, pattern_ident, span, atom_models(atoms), culprits),
    ensures
        record.rule_name@ == rule_name,
        record.pattern_ident@ == pattern_ident,
        record.span.first() == span.first(),
        record.span.past() == span.past(),
        record.culprits@.len() == culprits.len(),
        forall|i: int| 0 <= i < culprits.len() ==> (#[trigger] record.culprits@[i])@ == culprits[i],
        record.atom_stats is Some,
        record.atom_stats->0.count == atoms.len(),
        forall|i: int|
            0 <= i < atoms.len() ==> record.atom_stats->0.min_len <= (
            #[trigger] atoms[i]).bytes@.len() <= record.atom_stats->0.max_len,
        record.atom_stats->0.samples@.len() == if atoms.len() < 8 {
            atoms.len()
        } else {
            8
        },
        forall|i: int|
            0 <= i < record.atom_stats->0.samples@.len()
                ==> (#[trigger] record.atom_stats->0.samples@[i])@ == atoms[i].bytes@,
{
    let models = atom_models(atoms);
    law_what_statistics_count(models);
    let stats = record.atom_stats->0;
    assert(record@.culprits == culprits);
    assert forall|i: int| 0 <= i < culprits.len() implies (#[trigger] record.culprits@[i])@
        == culprits[i] by {
        assert(record@.culprits[i] == record.culprits@[i]@);
    }
    assert(stats@ == atom_stats(models));
    assert forall|i: int| 0 <= i < atoms.len() implies stats.min_len <= (
    #[trigger] atoms[i]).bytes@.len() <= stats.max_len by {
        assert(models[i].bytes == atoms[i].bytes@);
    }
    assert forall|i: int| 0 <= i < stats.samples@.len() implies (#[trigger] stats.samples@[i])@
        == atoms[i].bytes@ by {
        assert(stats@.samples[i] == stats.samples@[i]@);
        assert(models[i].bytes == atoms[i].bytes@);
    }
}

/// The record of a pattern that repeats a very common byte has the names and
/// the span that were passed in, that reason, no statistics and no culprits.
pub proof fn law_fields_of_a_common_byte_record(
    record: PatternDiagnostics,
    rule_name: Seq<char>,
    pattern_ident: Seq<char>,
    span: Span,
)
    requires
        record@ == common_byte_record(rule_name, pattern_ident, span),
    ensures
        record.rule_name@ == rule_name,
        record.pattern_ident@ == pattern_ident,
        record.span.first() == span.first(),
        record.span.past() == span.past(),
        record.slow_reason == Some(SlowReason::CommonByteRepetition),
        record.atom_stats is None,
        record.culprits@.len() == 0,
{
    assert(record@.culprits.len() == record.culprits@.len());
}

} // verus!
