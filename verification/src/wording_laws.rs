//! The words of the reports.
#[allow(unused_imports)]
use crate::culprit::CulpritModel;
#[allow(unused_imports)]
use crate::diagnostics::{SlowReason, StatsModel};
#[allow(unused_imports)]
use crate::report::{
    atoms_text, culprit_detail, culprit_fix, reason_fix, sample_list, verdict_text,
};
#[allow(unused_imports)]
use crate::text::{decimal, escaped};
#[allow(unused_imports)]
use crate::text_laws::law_numbers_are_written_in_decimal;
use vstd::prelude::*;

verus! {

/// The verdict on a pattern, for every reason and all numbers in it.
pub proof fn law_words_of_a_verdict(len: usize, min: usize, count: usize)
    ensures
        verdict_text(Some(SlowReason::NoAtoms))
            == "no atoms could be extracted; the pattern must be verified at every byte of the scanned data"@,
        verdict_text(Some(SlowReason::ZeroLengthAtom))
            == "a zero-length atom was extracted; this is an exceptionally extreme case that may severely degrade scanning throughput"@,
        verdict_text(Some(SlowReason::SingleShortAtom { len }))
            == "the only extracted atom is just "@ + decimal(len as nat) + " byte(s) long"@,
        verdict_text(Some(SlowReason::MinAtomTooShort { min, count })) == decimal(count as nat)
            + " atoms extracted, the shortest is only "@ + decimal(min as nat) + " byte(s) long"@,
        verdict_text(Some(SlowReason::TooManyShortAtoms { count })) == decimal(count as nat)
            + " atoms extracted, all only 2 bytes long"@,
        verdict_text(Some(SlowReason::CommonByteRepetition))
            == "the pattern is a repetition of a very common byte, which appears in huge runs in many files"@,
        verdict_text(None) == "no slowness detected"@,
{
}

/// The verdict says that no slowness was detected exactly if there is no reason
/// for slowness.
pub proof fn law_only_healthy_patterns_are_called_healthy(reason: Option<SlowReason>)
    ensures
        verdict_text(reason) == "no slowness detected"@ <==> reason is None,
{
    let healthy = "no slowness detected"@;
    reveal_strlit("no slowness detected");
    assert(healthy[0] == 'n' && healthy[3] == 's');
    if let Some(reason) = reason {
        match reason {
            SlowReason::NoAtoms => {
                reveal_strlit(
                    "no atoms could be extracted; the pattern must be verified at every byte of the scanned data",
                );
                assert(verdict_text(Some(reason))[3] == 'a');
            },
            SlowReason::ZeroLengthAtom => {
                reveal_strlit(
                    "a zero-length atom was extracted; this is an exceptionally extreme case that may severely degrade scanning throughput",
                );
                assert(verdict_text(Some(reason))[0] == 'a');
            },
            SlowReason::SingleShortAtom { len } => {
                reveal_strlit("the only extracted atom is just ");
                assert(verdict_text(Some(reason))[0] == 't');
            },
            SlowReason::MinAtomTooShort { min, count } => {
                law_numbers_are_written_in_decimal(count as nat);
                assert(verdict_text(Some(reason))[0] == decimal(count as nat)[0]);
            },
            SlowReason::TooManyShortAtoms { count } => {
                law_numbers_are_written_in_decimal(count as nat);
                assert(verdict_text(Some(reason))[0] == decimal(count as nat)[0]);
            },
            SlowReason::CommonByteRepetition => {
                reveal_strlit(
                    "the pattern is a repetition of a very common byte, which appears in huge runs in many files",
                );
                assert(verdict_text(Some(reason))[0] == 't');
            },
        }
    }
}

/// What is said about a culprit, for every kind and all numbers and texts in it.
pub proof fn law_words_about_a_culprit(expr: Seq<char>, a: nat, b: nat)
    ensures
        culprit_detail(CulpritModel::UnboundedRepetitionAtEdge { leading: true, expr }) == "`"@
            + expr
            + "` — unbounded repetition at the "@ + "start"@
            + " of the pattern prevents atom anchoring"@,
        culprit_detail(CulpritModel::UnboundedRepetitionAtEdge { leading: false, expr }) == "`"@
            + expr
            + "` — unbounded repetition at the "@ + "end"@
            + " of the pattern prevents atom anchoring"@,
        culprit_detail(
            CulpritModel::LargeClassRepetition { class_size: a, min_rep: b, expr },
        ) == "`"@ + expr + "` — repetition (min "@ + decimal(b) + ") of a "@ + decimal(a)
            + "-element class forces every combination to become an atom"@,
        culprit_detail(CulpritModel::ShortAlternationBranch { min_branch_len: a, expr }) == "`"@
            + expr + "` — the shortest alternation branch is only "@ + decimal(a)
            + " byte(s), capping the atom length"@,
        culprit_detail(CulpritModel::NestedUnboundedRepetition { expr }) == "`"@ + expr
            + "` — nested unbounded repetitions produce no usable atoms"@,
        culprit_detail(CulpritModel::ShortFixedRegion { len: a }) == "a fixed region of only "@
            + decimal(a) + " byte(s) sits next to an arbitrary gap"@,
{
}

/// How to fix a culprit depends on its kind, and for a repetition at an edge on
/// which edge it is, but on no number or text in it.
pub proof fn law_words_to_fix_a_culprit(expr: Seq<char>, a: nat, b: nat)
    ensures
        culprit_fix(CulpritModel::UnboundedRepetitionAtEdge { leading: true, expr })
            == "remove the leading repetition; YARA patterns are unanchored, so a leading `.*` adds nothing and hurts atom extraction"@,
        culprit_fix(CulpritModel::UnboundedRepetitionAtEdge { leading: false, expr })
            == "remove the trailing repetition or bound it (e.g. `{0,N}`)"@,
        culprit_fix(CulpritModel::LargeClassRepetition { class_size: a, min_rep: b, expr })
            == "add at least 4 fixed bytes next to the class repetition, or narrow the character class"@,
        culprit_fix(CulpritModel::ShortAlternationBranch { min_branch_len: a, expr })
            == "make every alternation branch at least 4 bytes long, or move the alternation away from the only fixed part of the pattern"@,
        culprit_fix(CulpritModel::NestedUnboundedRepetition { expr })
            == "flatten nested repetitions (e.g. replace `(\\w+)*` with `\\w*`)"@,
        culprit_fix(CulpritModel::ShortFixedRegion { len: a })
            == "extend the fixed bytes around the gap to at least 4 bytes, or split the pattern in two and combine them in the condition"@,
{
}

/// How to fix a slow pattern: a common byte and too many short atoms have a way
/// of their own, all other reasons share one.
pub proof fn law_words_to_fix_a_pattern(reason: SlowReason)
    ensures
        reason is CommonByteRepetition ==> reason_fix(reason)
            == "anchor the pattern to nearby distinctive bytes, use a fixed offset (e.g. `$a at 0`), or add xor/fullword/base64 modifiers if applicable"@,
        reason is TooManyShortAtoms ==> reason_fix(reason)
            == "raise the minimum repetition count or add a fixed prefix/suffix so longer atoms can be extracted"@,
        !(reason is CommonByteRepetition) && !(reason is TooManyShortAtoms) ==> reason_fix(reason)
            == "add at least 4 consecutive fixed bytes (outside any class, alternation or repetition) anywhere in the pattern"@,
{
}

/// Samples are shown escaped, each in quotes, with a space between any two.
pub proof fn law_how_samples_are_listed(samples: Seq<Seq<u8>>, more: Seq<Seq<u8>>, one: Seq<u8>)
    ensures
        sample_list(Seq::<Seq<u8>>::empty()).len() == 0,
        sample_list(seq![one]) == "\""@ + escaped(one) + "\""@,
        samples.len() > 0 && more.len() > 0 ==> sample_list(samples + more) == sample_list(samples)
            + " "@ + sample_list(more),
    decreases more.len(),
{
    reveal_strlit("");
    assert(sample_list(seq![one]) =~= "\""@ + escaped(one) + "\""@);
    if samples.len() > 0 && more.len() > 0 {
        let all = samples + more;
        assert(all.drop_last() =~= samples + more.drop_last());
        assert(all.last() == more.last());
        if more.len() == 1 {
            assert(all.drop_last() =~= samples);
            assert(sample_list(all) =~= sample_list(samples) + " "@ + sample_list(more));
        } else {
            law_how_samples_are_listed(samples, more.drop_last(), one);
            assert(sample_list(all) =~= sample_list(samples) + " "@ + sample_list(more));
        }
    }
}

/// The line about the atoms: how many there are, the shortest and the longest
/// length, how many are exact, and the samples, with an ellipsis exactly if
/// there are atoms that are not shown.
pub proof fn law_words_about_the_atoms(stats: StatsModel)
    ensures
        stats.count > stats.samples.len() ==> atoms_text(stats) == "count="@ + decimal(stats.count)
            + ", len min="@ + decimal(stats.min_len) + " max="@ + decimal(stats.max_len)
            + ", exact="@ + decimal(stats.exact_count) + "   sample: "@ + sample_list(stats.samples)
            + " …"@,
        stats.count <= stats.samples.len() ==> atoms_text(stats) == "count="@ + decimal(stats.count)
            + ", len min="@ + decimal(stats.min_len) + " max="@ + decimal(stats.max_len)
            + ", exact="@ + decimal(stats.exact_count) + "   sample: "@ + sample_list(
            stats.samples,
        ),
{
    reveal_strlit("");
    let text = "count="@ + decimal(stats.count) + ", len min="@ + decimal(stats.min_len)
        + " max="@ + decimal(stats.max_len) + ", exact="@ + decimal(stats.exact_count)
        + "   sample: "@ + sample_list(stats.samples);
    assert(text + ""@ =~= text);
}

} // verus!
