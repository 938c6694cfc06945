//! Structured diagnostics about pattern slowness.
//!
//! While collection is enabled, a [`DiagnosticsRecorder`] keeps one
//! [`PatternDiagnostics`] entry per compiled regexp or hex pattern segment,
//! built from the same extracted atoms that the scanner uses.
use crate::culprit::{Culprit, CulpritModel};
#[allow(unused_imports)]
use crate::culprit::culprit_models;
#[allow(unused_imports)]
use crate::hir::hir_model;
#[allow(unused_imports)]
use crate::hir_analysis::all_findings;
use crate::hir_analysis::find_culprits;
use regex_syntax::hir::Hir;
use vstd::prelude::*;
use vstd::slice::slice_to_vec;

verus! {

/// Maximum number of sample atoms stored in [`AtomStats::samples`].
pub const MAX_SAMPLE_ATOMS: usize = 8;

/// The shortest atom length that is not by itself too short.
pub const MIN_ATOM_LEN: usize = 2;

/// The largest number of atoms of [`MIN_ATOM_LEN`] bytes that is acceptable if
/// there are no longer ones.
///
/// The larger the number of atoms, the higher the odds of finding one of them
/// in the data, which slows down the scan. The regexp `[A-Za-z]{N,}` with `N`
/// of 2 or more has 52 * 52 = 2704 atoms, just over this limit.
pub const MAX_SHORT_ATOMS: usize = 2700;

/// A range of byte offsets in a source file.
#[derive(Clone, Copy, Debug, PartialEq, Eq, Structural)]
pub struct Span {
    start: u32,
    end: u32,
}

impl Span {
    pub closed spec fn first(self) -> nat {
        self.start as nat
    }

    pub closed spec fn past(self) -> nat {
        self.end as nat
    }

    /// The span of the bytes from `start` up to, but not including, `end`.
    pub fn new(start: u32, end: u32) -> (span: Self)
        ensures
            span.first() == start,
            span.past() == end,
    {
        Span { start, end }
    }

    /// Offset of the first byte.
    pub fn start(&self) -> (offset: usize)
        ensures
            offset == self.first(),
    {
        self.start as usize
    }

    /// Offset of the byte after the last.
    pub fn end(&self) -> (offset: usize)
        ensures
            offset == self.past(),
    {
        self.end as usize
    }
}

/// Diagnostic record for a single compiled pattern (or pattern segment).
///
/// Hex patterns with large gaps (e.g. `{ 01 02 03 [0-2000] 04 05 06 }`) are
/// split into chained segments before compilation; each segment produces its
/// own record with the same `rule_name`/`pattern_ident`/`span`.
#[derive(Clone, Debug)]
pub struct PatternDiagnostics {
    /// Name of the rule the pattern belongs to. Patterns are deduplicated
    /// across rules; a shared pattern is attributed to the first rule that
    /// declared it.
    pub rule_name: String,
    /// Pattern identifier, e.g. `$a`.
    pub pattern_ident: String,
    /// Span of the pattern declaration in the source file.
    pub span: Span,
    /// Why the pattern is slow. `None` means the pattern is not slow.
    pub slow_reason: Option<SlowReason>,
    /// Statistics about the atoms extracted from the pattern. `None` for
    /// records produced by the common-byte-repetition check, which runs
    /// before atom extraction.
    pub atom_stats: Option<AtomStats>,
    /// Sub-expressions identified as the likely cause of slowness.
    /// Best-effort: may be empty even for slow patterns.
    pub culprits: Vec<Culprit>,
}

/// Statistics about the atoms extracted from a pattern.
#[derive(Clone, Debug)]
pub struct AtomStats {
    /// Total number of atoms extracted from the pattern.
    pub count: usize,
    /// Length of the shortest atom. 0 when `count` is 0.
    pub min_len: usize,
    /// Length of the longest atom. 0 when `count` is 0.
    pub max_len: usize,
    /// Number of atoms that match the pattern exactly (no verification
    /// against the regexp VM needed).
    pub exact_count: usize,
    /// Up to [`MAX_SAMPLE_ATOMS`] sample atoms.
    pub samples: Vec<Vec<u8>>,
}

/// The heuristic that classified a pattern as slow.
///
/// All variants except `CommonByteRepetition` are decided by
/// [`SlowReason::from_atom_sizes`]; `CommonByteRepetition` is the outcome of
/// the check for repetitions of very common bytes, which looks at the pattern
/// itself.
#[derive(Clone, Debug, PartialEq, Eq, Structural)]
pub enum SlowReason {
    /// No atoms could be extracted; the pattern must be verified at every
    /// byte of the scanned data.
    NoAtoms,
    /// A single zero-length atom was extracted. Extreme case.
    ZeroLengthAtom,
    /// The only extracted atom is shorter than 2 bytes.
    SingleShortAtom {
        /// Length of the sole extracted atom.
        len: usize,
    },
    /// Multiple atoms, the shortest is below 2 bytes.
    MinAtomTooShort {
        /// Length of the shortest atom.
        min: usize,
        /// Total number of atoms extracted.
        count: usize,
    },
    /// More than 2700 atoms, all exactly 2 bytes long.
    TooManyShortAtoms {
        /// Total number of atoms extracted.
        count: usize,
    },
    /// The pattern is a repetition of a very common byte (e.g. `00`, `90`,
    /// `FF`) and is neither anchored nor modified by xor/fullword/base64.
    CommonByteRepetition,
}

/// An atom extracted from a pattern.
#[derive(Clone, Debug, PartialEq, Eq)]
pub struct Atom {
    /// The bytes to look for.
    pub bytes: Vec<u8>,
    /// Whether finding the atom is finding a match of the whole pattern.
    pub exact: bool,
}

/// The mathematical value of an [`AtomStats`].
pub struct StatsModel {
    pub count: nat,
    pub min_len: nat,
    pub max_len: nat,
    pub exact_count: nat,
    pub samples: Seq<Seq<u8>>,
}

/// The mathematical value of a [`PatternDiagnostics`].
pub struct RecordModel {
    pub rule_name: Seq<char>,
    pub pattern_ident: Seq<char>,
    pub start: nat,
    pub end: nat,
    pub slow_reason: Option<SlowReason>,
    pub atom_stats: Option<StatsModel>,
    pub culprits: Seq<CulpritModel>,
}

/// The mathematical value of an [`Atom`].
pub struct AtomModel {
    pub bytes: Seq<u8>,
    pub exact: bool,
}

pub open spec fn byte_strings(strings: Seq<Vec<u8>>) -> Seq<Seq<u8>> {
    strings.map_values(|s: Vec<u8>| s@)
}

impl View for AtomStats {
    type V = StatsModel;

    open spec fn view(&self) -> StatsModel {
        StatsModel {
            count: self.count as nat,
            min_len: self.min_len as nat,
            max_len: self.max_len as nat,
            exact_count: self.exact_count as nat,
            samples: byte_strings(self.samples@),
        }
    }
}

impl View for PatternDiagnostics {
    type V = RecordModel;

    open spec fn view(&self) -> RecordModel {
        RecordModel {
            rule_name: self.rule_name@,
            pattern_ident: self.pattern_ident@,
            start: self.span.first(),
            end: self.span.past(),
            slow_reason: self.slow_reason,
            atom_stats: match self.atom_stats {
                Some(stats) => Some(stats@),
                None => None,
            },
            culprits: culprit_models(self.culprits@),
        }
    }
}

impl View for Atom {
    type V = AtomModel;

    open spec fn view(&self) -> AtomModel {
        AtomModel { bytes: self.bytes@, exact: self.exact }
    }
}

pub open spec fn records(list: Seq<PatternDiagnostics>) -> Seq<RecordModel> {
    list.map_values(|d: PatternDiagnostics| d@)
}

pub open spec fn atom_models(atoms: Seq<Atom>) -> Seq<AtomModel> {
    atoms.map_values(|a: Atom| a@)
}

/// The smallest of the sizes, or 0 if there are none.
pub open spec fn min_size(sizes: Seq<nat>) -> nat
    decreases sizes.len(),
{
    if sizes.len() == 0 {
        0
    } else if sizes.len() == 1 || sizes.last() < min_size(sizes.drop_last()) {
        sizes.last()
    } else {
        min_size(sizes.drop_last())
    }
}

/// The largest of the sizes, or 0 if there are none.
pub open spec fn max_size(sizes: Seq<nat>) -> nat
    decreases sizes.len(),
{
    if sizes.len() == 0 {
        0
    } else if sizes.last() > max_size(sizes.drop_last()) {
        sizes.last()
    } else {
        max_size(sizes.drop_last())
    }
}

/// All sizes are the shortest that is not by itself too short.
pub open spec fn all_short(sizes: Seq<nat>) -> bool {
    forall|i: int| 0 <= i < sizes.len() ==> #[trigger] sizes[i] == MIN_ATOM_LEN
}

/// Why a pattern whose atoms have these sizes is slow, if it is.
pub open spec fn slow_reason(sizes: Seq<nat>) -> Option<SlowReason> {
    let count = sizes.len() as usize;
    let min = min_size(sizes) as usize;
    if sizes.len() == 0 {
        Some(SlowReason::NoAtoms)
    } else if min < MIN_ATOM_LEN {
        if sizes.len() > 1 {
            Some(SlowReason::MinAtomTooShort { min, count })
        } else if min == 0 {
            Some(SlowReason::ZeroLengthAtom)
        } else {
            Some(SlowReason::SingleShortAtom { len: min })
        }
    } else if sizes.len() > MAX_SHORT_ATOMS && all_short(sizes) {
        Some(SlowReason::TooManyShortAtoms { count })
    } else {
        None
    }
}

pub open spec fn sizes(lens: Seq<usize>) -> Seq<nat> {
    lens.map_values(|n: usize| n as nat)
}

pub open spec fn atom_sizes(atoms: Seq<AtomModel>) -> Seq<nat> {
    atoms.map_values(|a: AtomModel| a.bytes.len())
}

/// The statistics of a list of atoms. The samples are the first atoms.
pub open spec fn atom_stats(atoms: Seq<AtomModel>) -> StatsModel {
    StatsModel {
        count: atoms.len(),
        min_len: min_size(atom_sizes(atoms)),
        max_len: max_size(atom_sizes(atoms)),
        exact_count: atoms.filter(|a: AtomModel| a.exact).len(),
        samples: atoms.take(
            if atoms.len() < MAX_SAMPLE_ATOMS {
                atoms.len() as int
            } else {
                MAX_SAMPLE_ATOMS as int
            },
        ).map_values(|a: AtomModel| a.bytes),
    }
}

/// The smallest and the largest of the sizes are among them and bound them.
pub(crate) proof fn lemma_extremes(sizes: Seq<nat>)
    requires
        sizes.len() > 0,
    ensures
        sizes.contains(min_size(sizes)),
        sizes.contains(max_size(sizes)),
        forall|i: int|
            0 <= i < sizes.len() ==> min_size(sizes) <= #[trigger] sizes[i] <= max_size(sizes),
    decreases sizes.len(),
{
    let last = sizes.last();
    assert(sizes[sizes.len() - 1] == last);
    if sizes.len() > 1 {
        let init = sizes.drop_last();
        lemma_extremes(init);
        let i = init.index_of(min_size(init));
        let j = init.index_of(max_size(init));
        assert(sizes[i] == min_size(init));
        assert(sizes[j] == max_size(init));
        assert forall|k: int| 0 <= k < sizes.len() implies min_size(sizes) <= #[trigger] sizes[k]
            <= max_size(sizes) by {
            if k < init.len() {
                assert(sizes[k] == init[k]);
            }
        }
    } else {
        assert(max_size(sizes.drop_last()) == 0);
    }
}

impl SlowReason {
    /// Applies the slow-pattern heuristics to a sequence of atom lengths.
    /// Returns `None` if the atoms are good enough.
    pub fn from_atom_sizes(lens: &[usize]) -> (reason: Option<SlowReason>)
        ensures
            reason == slow_reason(sizes(lens@)),
    {
        let count = lens.len();
        if count == 0 {
            return Some(SlowReason::NoAtoms);
        }
        let mut min: usize = lens[0];
        let mut max: usize = lens[0];
        let mut i: usize = 1;
        proof {
            assert(max_size(sizes(lens@.take(1)).drop_last()) == 0);
        }
        while i < count
            invariant
                1 <= i <= count == lens@.len(),
                min == min_size(sizes(lens@.take(i as int))),
                max == max_size(sizes(lens@.take(i as int))),
            decreases count - i,
        {
            let len: usize = lens[i];
            proof {
                let before = sizes(lens@.take(i as int));
                let after = sizes(lens@.take(i + 1));
                assert(after.drop_last() =~= before);
                assert(after.last() == len);
            }
            if len < min {
                min = len;
            }
            if len > max {
                max = len;
            }
            i += 1;
        }
        proof {
            assert(lens@.take(count as int) =~= lens@);
            lemma_extremes(sizes(lens@));
            assert(sizes(lens@)[sizes(lens@).index_of(min as nat)] == min);
            assert(sizes(lens@)[sizes(lens@).index_of(max as nat)] == max);
        }
        if min < MIN_ATOM_LEN {
            if count > 1 {
                Some(SlowReason::MinAtomTooShort { min, count })
            } else if min == 0 {
                Some(SlowReason::ZeroLengthAtom)
            } else {
                Some(SlowReason::SingleShortAtom { len: min })
            }
        } else if min == MIN_ATOM_LEN && max == MIN_ATOM_LEN && count > MAX_SHORT_ATOMS {
            Some(SlowReason::TooManyShortAtoms { count })
        } else {
            None
        }
    }
}

impl AtomStats {
    /// Computes the statistics of the atoms extracted from a pattern.
    pub fn from_atoms(atoms: &[Atom]) -> (stats: AtomStats)
        ensures
            stats@ == atom_stats(atom_models(atoms@)),
    {
        let ghost models = atom_models(atoms@);
        let mut min_len: usize = 0;
        let mut max_len: usize = 0;
        let mut exact_count: usize = 0;
        let mut samples: Vec<Vec<u8>> = Vec::new();
        let mut i: usize = 0;
        assert(models.take(0).filter(|a: AtomModel| a.exact) =~= Seq::empty());
        while i < atoms.len()
            invariant
                i <= atoms@.len(),
                models == atom_models(atoms@),
                min_len == min_size(atom_sizes(models.take(i as int))),
                max_len == max_size(atom_sizes(models.take(i as int))),
                exact_count <= i,
                exact_count == models.take(i as int).filter(|a: AtomModel| a.exact).len(),
                samples@.len() == if i < MAX_SAMPLE_ATOMS {
                    i
                } else {
                    MAX_SAMPLE_ATOMS
                },
                forall|j: int| 0 <= j < samples@.len() ==> (#[trigger] samples@[j])@ == models[j].bytes,
            decreases atoms@.len() - i,
        {
            let atom = &atoms[i];
            let len: usize = atom.bytes.len();
            let ghost before = models.take(i as int);
            let ghost after = models.take(i + 1);
            proof {
                assert(after =~= before.push(atom@));
                before.lemma_filter_push(atom@, |a: AtomModel| a.exact);
                assert(atom_sizes(after).drop_last() =~= atom_sizes(before));
                assert(atom_sizes(after).last() == len);
            }
            if i == 0 || len < min_len {
                min_len = len;
            }
            if len > max_len {
                max_len = len;
            }
            if atom.exact {
                exact_count += 1;
            }
            if samples.len() < MAX_SAMPLE_ATOMS {
                samples.push(slice_to_vec(atom.bytes.as_slice()));
            }
            i += 1;
        }
        proof {
            assert(models.take(models.len() as int) =~= models);
            assert(byte_strings(samples@) =~= atom_stats(models).samples);
        }
        AtomStats { count: atoms.len(), min_len, max_len, exact_count, samples }
    }
}

/// The lengths of the atoms, in order.
fn lens_of(atoms: &[Atom]) -> (lens: Vec<usize>)
    ensures
        sizes(lens@) == atom_sizes(atom_models(atoms@)),
{
    let mut lens: Vec<usize> = Vec::new();
    let mut i: usize = 0;
    while i < atoms.len()
        invariant
            i <= atoms@.len(),
            lens@.len() == i,
            forall|j: int| 0 <= j < i ==> #[trigger] lens@[j] == atoms@[j].bytes@.len(),
        decreases atoms@.len() - i,
    {
        lens.push(atoms[i].bytes.len());
        i += 1;
    }
    assert(sizes(lens@) =~= atom_sizes(atom_models(atoms@)));
    lens
}

/// The record of a pattern that went through atom extraction.
pub open spec fn pattern_record(
    rule_name: Seq<char>,
    pattern_ident: Seq<char>,
    span: Span,
    atoms: Seq<AtomModel>,
    culprits: Seq<CulpritModel>,
) -> RecordModel {
    RecordModel {
        rule_name,
        pattern_ident,
        start: span.first(),
        end: span.past(),
        slow_reason: slow_reason(atom_sizes(atoms)),
        atom_stats: Some(atom_stats(atoms)),
        culprits,
    }
}

/// The record of a pattern that repeats a very common byte.
pub open spec fn common_byte_record(
    rule_name: Seq<char>,
    pattern_ident: Seq<char>,
    span: Span,
) -> RecordModel {
    RecordModel {
        rule_name,
        pattern_ident,
        start: span.first(),
        end: span.past(),
        slow_reason: Some(SlowReason::CommonByteRepetition),
        atom_stats: None,
        culprits: Seq::empty(),
    }
}

impl PatternDiagnostics {
    /// Returns the record for a compiled pattern (or pattern segment), given
    /// the atoms extracted from it and the culprits found in it.
    pub fn for_pattern(
        rule_name: &str,
        pattern_ident: &str,
        span: Span,
        atoms: &[Atom],
        culprits: Vec<Culprit>,
    ) -> (record: PatternDiagnostics)
        ensures
            record@ == pattern_record(
                rule_name@,
                pattern_ident@,
                span,
                atom_models(atoms@),
                culprit_models(culprits@),
            ),
            record.rule_name@ == rule_name@,
            record.pattern_ident@ == pattern_ident@,
            record.span == span,
            record.culprits == culprits,
    {
        let lens = lens_of(atoms);
        PatternDiagnostics {
            rule_name: rule_name.to_owned(),
            pattern_ident: pattern_ident.to_owned(),
            span,
            slow_reason: SlowReason::from_atom_sizes(lens.as_slice()),
            atom_stats: Some(AtomStats::from_atoms(atoms)),
            culprits,
        }
    }

    /// Returns the record for a pattern that repeats a very common byte.
    pub fn for_common_byte_repetition(
        rule_name: &str,
        pattern_ident: &str,
        span: Span,
    ) -> (record: PatternDiagnostics)
        ensures
            record@ == common_byte_record(rule_name@, pattern_ident@, span),
    {
        let record = PatternDiagnostics {
            rule_name: rule_name.to_owned(),
            pattern_ident: pattern_ident.to_owned(),
            span,
            slow_reason: Some(SlowReason::CommonByteRepetition),
            atom_stats: None,
            culprits: Vec::new(),
        };
        assert(culprit_models(record.culprits@) =~= Seq::empty());
        record
    }
}

/// Collects diagnostics while rules are compiled. Collection is disabled
/// until it is asked for.
#[derive(Clone, Debug)]
pub struct DiagnosticsRecorder {
    enabled: bool,
    diagnostics: Vec<PatternDiagnostics>,
}

impl DiagnosticsRecorder {
    pub closed spec fn enabled(&self) -> bool {
        self.enabled
    }

    /// The records kept so far, in the order in which they were made.
    pub closed spec fn recorded(&self) -> Seq<RecordModel> {
        records(self.diagnostics@)
    }

    pub fn new() -> (recorder: Self)
        ensures
            !recorder.enabled(),
            recorder.recorded() == Seq::<RecordModel>::empty(),
    {
        let recorder = DiagnosticsRecorder { enabled: false, diagnostics: Vec::new() };
        assert(recorder.recorded() =~= Seq::empty());
        recorder
    }

    /// When enabled, every compiled regexp and hex pattern is recorded: which
    /// slow-pattern heuristic fired (if any), statistics about the extracted
    /// atoms, and the sub-expressions that hurt atom extraction.
    pub fn collect_pattern_diagnostics(&mut self, yes: bool)
        ensures
            final(self).enabled() == yes,
            final(self).recorded() == old(self).recorded(),
    {
        self.enabled = yes;
    }

    /// Returns the diagnostics recorded so far. Empty unless collection was
    /// enabled before the patterns were compiled.
    pub fn pattern_diagnostics(&self) -> (list: &[PatternDiagnostics])
        ensures
            records(list@) == self.recorded(),
    {
        self.diagnostics.as_slice()
    }

    fn keep(&mut self, record: PatternDiagnostics)
        ensures
            final(self).enabled() == old(self).enabled(),
            final(self).recorded() == old(self).recorded().push(record@),
    {
        self.diagnostics.push(record);
        assert(self.recorded() =~= old(self).recorded().push(record@));
    }

    /// Records a compiled pattern (or pattern segment) if collection is
    /// enabled. The culprits are those of the pattern's HIR.
    pub fn record_pattern_diagnostics(
        &mut self,
        rule_name: &str,
        pattern_ident: &str,
        span: Span,
        atoms: &[Atom],
        hir: &Hir,
    )
        ensures
            final(self).enabled() == old(self).enabled(),
            final(self).recorded() == if old(self).enabled() {
                old(self).recorded().push(
                    pattern_record(
                        rule_name@,
                        pattern_ident@,
                        span,
                        atom_models(atoms@),
                        all_findings(hir_model(*hir)),
                    ),
                )
            } else {
                old(self).recorded()
            },
    {
        if self.enabled {
            let culprits = find_culprits(hir);
            self.keep(
                PatternDiagnostics::for_pattern(rule_name, pattern_ident, span, atoms, culprits),
            );
        }
    }

    /// Records a pattern that repeats a very common byte if collection is
    /// enabled.
    pub fn record_common_byte_repetition(
        &mut self,
        rule_name: &str,
        pattern_ident: &str,
        span: Span,
    )
        ensures
            final(self).enabled() == old(self).enabled(),
            final(self).recorded() == if old(self).enabled() {
                old(self).recorded().push(common_byte_record(rule_name@, pattern_ident@, span))
            } else {
                old(self).recorded()
            },
    {
        if self.enabled {
            self.keep(
                PatternDiagnostics::for_common_byte_repetition(rule_name, pattern_ident, span),
            );
        }
    }
}

} // verus!
