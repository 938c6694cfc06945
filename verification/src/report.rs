//! The report about slow patterns: what it says about a pattern and how the
//! text form of it is laid out.
use crate::culprit::{Culprit, CulpritModel};
#[allow(unused_imports)]
use crate::culprit::culprit_models;
use crate::diagnostics::{AtomStats, PatternDiagnostics, RecordModel, SlowReason, StatsModel};
#[allow(unused_imports)]
use crate::diagnostics::{byte_strings, records};
use crate::paint::{bold, cyan, red_bold};
#[allow(unused_imports)]
use crate::paint::{is_bold, is_cyan, is_red_bold};
use crate::text::{cut, line_col, push_decimal, push_escaped};
#[allow(unused_imports)]
use crate::text::{
    bytes_before, clamped, column_after, cuts_at, decimal, escaped, line_after, slice_of, utf8,
};
use vstd::prelude::*;

verus! {

pub const VERDICT_NO_ATOMS: &'static str =
    "no atoms could be extracted; the pattern must be verified at every byte of the scanned data";

pub const VERDICT_ZERO_LENGTH: &'static str =
    "a zero-length atom was extracted; this is an exceptionally extreme case that may severely degrade scanning throughput";

pub const VERDICT_COMMON_BYTE: &'static str =
    "the pattern is a repetition of a very common byte, which appears in huge runs in many files";

pub const VERDICT_NOT_SLOW: &'static str = "no slowness detected";

pub const SUGGEST_LEADING: &'static str =
    "remove the leading repetition; YARA patterns are unanchored, so a leading `.*` adds nothing and hurts atom extraction";

pub const SUGGEST_TRAILING: &'static str =
    "remove the trailing repetition or bound it (e.g. `{0,N}`)";

pub const SUGGEST_CLASS: &'static str =
    "add at least 4 fixed bytes next to the class repetition, or narrow the character class";

pub const SUGGEST_BRANCH: &'static str =
    "make every alternation branch at least 4 bytes long, or move the alternation away from the only fixed part of the pattern";

pub const SUGGEST_NESTED: &'static str =
    "flatten nested repetitions (e.g. replace `(\\w+)*` with `\\w*`)";

pub const SUGGEST_REGION: &'static str =
    "extend the fixed bytes around the gap to at least 4 bytes, or split the pattern in two and combine them in the condition";

pub const SUGGEST_COMMON_BYTE: &'static str =
    "anchor the pattern to nearby distinctive bytes, use a fixed offset (e.g. `$a at 0`), or add xor/fullword/base64 modifiers if applicable";

pub const SUGGEST_MORE_REPETITIONS: &'static str =
    "raise the minimum repetition count or add a fixed prefix/suffix so longer atoms can be extracted";

pub const SUGGEST_FIXED_BYTES: &'static str =
    "add at least 4 consecutive fixed bytes (outside any class, alternation or repetition) anywhere in the pattern";

/// What a report says about the slowness of a pattern.
pub open spec fn verdict_text(reason: Option<SlowReason>) -> Seq<char> {
    match reason {
        Some(SlowReason::NoAtoms) => VERDICT_NO_ATOMS@,
        Some(SlowReason::ZeroLengthAtom) => VERDICT_ZERO_LENGTH@,
        Some(SlowReason::SingleShortAtom { len }) => "the only extracted atom is just "@ + decimal(
            len as nat,
        ) + " byte(s) long"@,
        Some(SlowReason::MinAtomTooShort { min, count }) => decimal(count as nat)
            + " atoms extracted, the shortest is only "@ + decimal(min as nat) + " byte(s) long"@,
        Some(SlowReason::TooManyShortAtoms { count }) => decimal(count as nat)
            + " atoms extracted, all only 2 bytes long"@,
        Some(SlowReason::CommonByteRepetition) => VERDICT_COMMON_BYTE@,
        None => VERDICT_NOT_SLOW@,
    }
}

/// What a report says about a culprit.
pub open spec fn culprit_detail(culprit: CulpritModel) -> Seq<char> {
    match culprit {
        CulpritModel::UnboundedRepetitionAtEdge { leading, expr } => "`"@ + expr
            + "` — unbounded repetition at the "@ + (if leading {
            "start"@
        } else {
            "end"@
        }) + " of the pattern prevents atom anchoring"@,
        CulpritModel::LargeClassRepetition { class_size, min_rep, expr } => "`"@ + expr
            + "` — repetition (min "@ + decimal(min_rep) + ") of a "@ + decimal(class_size)
            + "-element class forces every combination to become an atom"@,
        CulpritModel::ShortAlternationBranch { min_branch_len, expr } => "`"@ + expr
            + "` — the shortest alternation branch is only "@ + decimal(min_branch_len)
            + " byte(s), capping the atom length"@,
        CulpritModel::NestedUnboundedRepetition { expr } => "`"@ + expr
            + "` — nested unbounded repetitions produce no usable atoms"@,
        CulpritModel::ShortFixedRegion { len } => "a fixed region of only "@ + decimal(len)
            + " byte(s) sits next to an arbitrary gap"@,
    }
}

/// How a culprit can be fixed.
pub open spec fn culprit_fix(culprit: CulpritModel) -> Seq<char> {
    match culprit {
        CulpritModel::UnboundedRepetitionAtEdge { leading, .. } => if leading {
            SUGGEST_LEADING@
        } else {
            SUGGEST_TRAILING@
        },
        CulpritModel::LargeClassRepetition { .. } => SUGGEST_CLASS@,
        CulpritModel::ShortAlternationBranch { .. } => SUGGEST_BRANCH@,
        CulpritModel::NestedUnboundedRepetition { .. } => SUGGEST_NESTED@,
        CulpritModel::ShortFixedRegion { .. } => SUGGEST_REGION@,
    }
}

/// How a pattern that is slow for this reason can be fixed.
pub open spec fn reason_fix(reason: SlowReason) -> Seq<char> {
    match reason {
        SlowReason::CommonByteRepetition => SUGGEST_COMMON_BYTE@,
        SlowReason::TooManyShortAtoms { .. } => SUGGEST_MORE_REPETITIONS@,
        _ => SUGGEST_FIXED_BYTES@,
    }
}

/// The sample atoms, escaped, each in quotes, separated by spaces.
pub open spec fn sample_list(samples: Seq<Seq<u8>>) -> Seq<char>
    decreases samples.len(),
{
    if samples.len() == 0 {
        ""@
    } else {
        let quoted = "\""@ + escaped(samples.last()) + "\""@;
        if samples.len() == 1 {
            quoted
        } else {
            sample_list(samples.drop_last()) + " "@ + quoted
        }
    }
}

/// What a report says about the atoms of a pattern.
pub open spec fn atoms_text(stats: StatsModel) -> Seq<char> {
    "count="@ + decimal(stats.count) + ", len min="@ + decimal(stats.min_len) + " max="@ + decimal(
        stats.max_len,
    ) + ", exact="@ + decimal(stats.exact_count) + "   sample: "@ + sample_list(stats.samples) + (
    if stats.count > stats.samples.len() {
        " …"@
    } else {
        ""@
    })
}

/// Returns what a report says about the slowness of the pattern.
pub fn verdict(d: &PatternDiagnostics) -> (text: String)
    ensures
        text@ == verdict_text(d.slow_reason),
{
    match &d.slow_reason {
        Some(SlowReason::NoAtoms) => VERDICT_NO_ATOMS.to_owned(),
        Some(SlowReason::ZeroLengthAtom) => VERDICT_ZERO_LENGTH.to_owned(),
        Some(SlowReason::SingleShortAtom { len }) => {
            let mut text = "the only extracted atom is just ".to_owned();
            push_decimal(&mut text, *len);
            text.append(" byte(s) long");
            text
        },
        Some(SlowReason::MinAtomTooShort { min, count }) => {
            let mut text = decimal_string(*count);
            text.append(" atoms extracted, the shortest is only ");
            push_decimal(&mut text, *min);
            text.append(" byte(s) long");
            text
        },
        Some(SlowReason::TooManyShortAtoms { count }) => {
            let mut text = decimal_string(*count);
            text.append(" atoms extracted, all only 2 bytes long");
            text
        },
        Some(SlowReason::CommonByteRepetition) => VERDICT_COMMON_BYTE.to_owned(),
        None => VERDICT_NOT_SLOW.to_owned(),
    }
}

/// Returns a number in decimal.
fn decimal_string(n: usize) -> (text: String)
    ensures
        text@ == decimal(n as nat),
{
    let mut text = String::new();
    push_decimal(&mut text, n);
    assert(text@ =~= decimal(n as nat));
    text
}

/// Returns what a report says about the culprit.
pub fn culprit_text(c: &Culprit) -> (text: String)
    ensures
        text@ == culprit_detail(c@),
{
    let mut text = "`".to_owned();
    match c {
        Culprit::UnboundedRepetitionAtEdge { leading, expr } => {
            text.append(expr.as_str());
            text.append("` — unbounded repetition at the ");
            text.append(
                if *leading {
                    "start"
                } else {
                    "end"
                },
            );
            text.append(" of the pattern prevents atom anchoring");
        },
        Culprit::LargeClassRepetition { class_size, min_rep, expr } => {
            text.append(expr.as_str());
            text.append("` — repetition (min ");
            push_decimal(&mut text, *min_rep as usize);
            text.append(") of a ");
            push_decimal(&mut text, *class_size);
            text.append("-element class forces every combination to become an atom");
        },
        Culprit::ShortAlternationBranch { min_branch_len, expr } => {
            text.append(expr.as_str());
            text.append("` — the shortest alternation branch is only ");
            push_decimal(&mut text, *min_branch_len);
            text.append(" byte(s), capping the atom length");
        },
        Culprit::NestedUnboundedRepetition { expr } => {
            text.append(expr.as_str());
            text.append("` — nested unbounded repetitions produce no usable atoms");
        },
        Culprit::ShortFixedRegion { len } => {
            text = "a fixed region of only ".to_owned();
            push_decimal(&mut text, *len);
            text.append(" byte(s) sits next to an arbitrary gap");
        },
    }
    text
}

/// Returns how the culprit can be fixed.
pub fn culprit_suggestion(c: &Culprit) -> (text: &'static str)
    ensures
        text@ == culprit_fix(c@),
{
    match c {
        Culprit::UnboundedRepetitionAtEdge { leading, .. } => {
            if *leading {
                SUGGEST_LEADING
            } else {
                SUGGEST_TRAILING
            }
        },
        Culprit::LargeClassRepetition { .. } => SUGGEST_CLASS,
        Culprit::ShortAlternationBranch { .. } => SUGGEST_BRANCH,
        Culprit::NestedUnboundedRepetition { .. } => SUGGEST_NESTED,
        Culprit::ShortFixedRegion { .. } => SUGGEST_REGION,
    }
}

/// Returns how a pattern that is slow for this reason can be fixed.
pub fn reason_suggestion(r: &SlowReason) -> (text: &'static str)
    ensures
        text@ == reason_fix(*r),
{
    match r {
        SlowReason::CommonByteRepetition => SUGGEST_COMMON_BYTE,
        SlowReason::TooManyShortAtoms { .. } => SUGGEST_MORE_REPETITIONS,
        _ => SUGGEST_FIXED_BYTES,
    }
}

/// Appends the sample atoms.
fn push_samples(out: &mut String, samples: &Vec<Vec<u8>>)
    ensures
        final(out)@ == old(out)@ + sample_list(byte_strings(samples@)),
{
    let ghost start = out@;
    let ghost models = byte_strings(samples@);
    let mut i: usize = 0;
    proof {
        reveal_strlit("");
        assert(out@ =~= start + sample_list(models.take(0)));
    }
    while i < samples.len()
        invariant
            i <= samples@.len(),
            models == byte_strings(samples@),
            out@ == start + sample_list(models.take(i as int)),
        decreases samples@.len() - i,
    {
        let ghost before = out@;
        if i > 0 {
            out.append(" ");
        }
        out.append("\"");
        push_escaped(out, samples[i].as_slice());
        out.append("\"");
        proof {
            reveal_strlit("");
            let next = models.take(i + 1);
            assert(next.drop_last() =~= models.take(i as int));
            assert(next.last() == samples@[i as int]@);
            assert(out@ =~= start + sample_list(next));
        }
        i += 1;
    }
    assert(models.take(models.len() as int) =~= models);
}

/// Returns what a report says about the atoms of a pattern.
pub fn atoms_line(stats: &AtomStats) -> (text: String)
    ensures
        text@ == atoms_text(stats@),
{
    let mut text = "count=".to_owned();
    push_decimal(&mut text, stats.count);
    text.append(", len min=");
    push_decimal(&mut text, stats.min_len);
    text.append(" max=");
    push_decimal(&mut text, stats.max_len);
    text.append(", exact=");
    push_decimal(&mut text, stats.exact_count);
    text.append("   sample: ");
    push_samples(&mut text, &stats.samples);
    text.append(
        if stats.count > stats.samples.len() {
            " …"
        } else {
            ""
        },
    );
    text
}

/// A source file that was fed to the compiler, paired with the cumulative
/// number of diagnostics records that existed right after compiling it. Maps
/// the index of a record back to the file it came from.
#[derive(Clone, Debug)]
pub struct CompiledSource {
    /// Path of the file, as it is shown.
    pub path: String,
    /// The whole source.
    pub content: String,
    /// Number of records that this file and those before it gave.
    pub diags_so_far: usize,
}

/// The mathematical value of a [`CompiledSource`].
pub struct SourceModel {
    pub path: Seq<char>,
    pub content: Seq<char>,
    pub diags_so_far: nat,
}

impl View for CompiledSource {
    type V = SourceModel;

    open spec fn view(&self) -> SourceModel {
        SourceModel {
            path: self.path@,
            content: self.content@,
            diags_so_far: self.diags_so_far as nat,
        }
    }
}

pub open spec fn source_models(list: Seq<CompiledSource>) -> Seq<SourceModel> {
    list.map_values(|s: CompiledSource| s@)
}

/// The source at `i` is the first one after which the record existed.
pub open spec fn first_after(sources: Seq<SourceModel>, record: nat, i: int) -> bool {
    &&& 0 <= i < sources.len()
    &&& record < sources[i].diags_so_far
    &&& forall|j: int| 0 <= j < i ==> (#[trigger] sources[j]).diags_so_far <= record
}

/// Some source gave the record.
pub open spec fn has_source(sources: Seq<SourceModel>, record: nat) -> bool {
    exists|i: int| first_after(sources, record, i)
}

/// The source that gave the record.
pub open spec fn source_of(sources: Seq<SourceModel>, record: nat) -> SourceModel {
    sources[choose|i: int| first_after(sources, record, i)]
}

/// Where the source text of a pattern ends.
pub open spec fn shown_end(record: RecordModel, source: SourceModel) -> nat {
    clamped(utf8(source.content), record.end)
}

/// The source text of a pattern.
pub open spec fn shown_source(record: RecordModel, source: SourceModel) -> Seq<char> {
    slice_of(source.content, record.start, shown_end(record, source))
}

/// The span of the record is a part of the source.
pub open spec fn span_fits(record: RecordModel, source: SourceModel) -> bool {
    &&& record.start <= shown_end(record, source) < usize::MAX
    &&& cuts_at(source.content, record.start)
    &&& cuts_at(source.content, shown_end(record, source))
}

/// Everything that a report shows of the record at `i` can be found.
pub open spec fn reportable(
    records: Seq<RecordModel>,
    sources: Seq<SourceModel>,
    i: int,
) -> bool {
    &&& has_source(sources, i as nat)
    &&& span_fits(records[i], source_of(sources, i as nat))
}

/// Whether a report about all patterns, or about the slow ones only, shows the
/// record.
pub open spec fn is_selected(record: RecordModel, all_patterns: bool) -> bool {
    all_patterns || record.slow_reason is Some
}

/// The indices of the records that a report shows, in order.
pub open spec fn selected(records: Seq<RecordModel>, all_patterns: bool) -> Seq<int> {
    Seq::new(records.len(), |i: int| i).filter(|i: int| is_selected(records[i], all_patterns))
}

/// Number of slow patterns.
pub open spec fn slow_count(records: Seq<RecordModel>) -> nat {
    records.filter(|r: RecordModel| r.slow_reason is Some).len()
}

/// Everything that the report shows can be found.
pub open spec fn all_reportable(
    records: Seq<RecordModel>,
    sources: Seq<SourceModel>,
    shown: Seq<int>,
) -> bool {
    forall|k: int|
        0 <= k < shown.len() ==> 0 <= #[trigger] shown[k] < records.len() && reportable(
            records,
            sources,
            shown[k],
        )
}

/// The painted parts of the first line about a pattern.
#[derive(Clone, Debug, PartialEq, Eq)]
pub struct Labels {
    /// Name of the rule.
    pub rule: String,
    /// Identifier of the pattern.
    pub ident: String,
    /// Whether the pattern is slow.
    pub status: String,
}

/// The mathematical value of a [`Labels`].
pub struct LabelsModel {
    pub rule: Seq<char>,
    pub ident: Seq<char>,
    pub status: Seq<char>,
}

impl View for Labels {
    type V = LabelsModel;

    open spec fn view(&self) -> LabelsModel {
        LabelsModel { rule: self.rule@, ident: self.ident@, status: self.status@ }
    }
}

pub open spec fn labels_models(list: Seq<Labels>) -> Seq<LabelsModel> {
    list.map_values(|l: Labels| l@)
}

/// The labels are those of the record: the names in bold, and the status in
/// bold red if the pattern is slow and in cyan if not.
pub open spec fn labels_of(record: RecordModel, labels: LabelsModel) -> bool {
    &&& is_bold(record.rule_name, labels.rule)
    &&& is_bold(record.pattern_ident, labels.ident)
    &&& if record.slow_reason is Some {
        is_red_bold("SLOW"@, labels.status)
    } else {
        is_cyan("OK"@, labels.status)
    }
}

/// The first lines about a pattern: what and where it is, how it is written
/// and whether it is slow.
pub open spec fn heading(record: RecordModel, source: SourceModel, labels: LabelsModel) -> Seq<
    char,
> {
    let before = bytes_before(source.content, record.start);
    "rule "@ + labels.rule + " — "@ + labels.ident + " is "@ + labels.status + "    "@ + source.path
        + ":"@ + decimal(line_after(before)) + ":"@ + decimal(column_after(before)) + "\n"@
        + "  pattern : "@ + shown_source(record, source) + "\n"@ + "  verdict : "@ + verdict_text(
        record.slow_reason,
    ) + "\n"@
}

/// The line about the atoms, if there are statistics.
pub open spec fn atoms_part(stats: Option<StatsModel>) -> Seq<char> {
    match stats {
        Some(stats) => "  atoms   : "@ + atoms_text(stats) + "\n"@,
        None => ""@,
    }
}

/// The lines about the culprits.
pub open spec fn culprits_part(culprits: Seq<CulpritModel>) -> Seq<char>
    decreases culprits.len(),
{
    if culprits.len() == 0 {
        ""@
    } else {
        culprits_part(culprits.drop_last()) + "  culprit : "@ + culprit_detail(culprits.last())
            + "\n"@ + "  suggest : "@ + culprit_fix(culprits.last()) + "\n"@
    }
}

/// The suggestion for a slow pattern without culprits.
pub open spec fn reason_part(record: RecordModel) -> Seq<char> {
    match record.slow_reason {
        Some(reason) => if record.culprits.len() == 0 {
            "  suggest : "@ + reason_fix(reason) + "\n"@
        } else {
            ""@
        },
        None => ""@,
    }
}

/// All lines about a pattern, with an empty one after them.
pub open spec fn block(record: RecordModel, source: SourceModel, labels: LabelsModel) -> Seq<char> {
    heading(record, source, labels) + atoms_part(record.atom_stats) + culprits_part(record.culprits)
        + reason_part(record) + "\n"@
}

/// The lines about the shown records, in order.
pub open spec fn blocks(
    records: Seq<RecordModel>,
    sources: Seq<SourceModel>,
    shown: Seq<int>,
    labels: Seq<LabelsModel>,
) -> Seq<char>
    decreases shown.len(),
{
    if shown.len() == 0 {
        ""@
    } else {
        let i = shown.last();
        blocks(records, sources, shown.drop_last(), labels) + block(
            records[i],
            source_of(sources, i as nat),
            labels[shown.len() - 1],
        )
    }
}

/// The last line of a report.
pub open spec fn summary_text(records: Seq<RecordModel>) -> Seq<char> {
    decimal(slow_count(records)) + " slow pattern(s) found, "@ + decimal(records.len())
        + " pattern(s) analyzed"@
}

pub(crate) proof fn lemma_first_after_is_unique(sources: Seq<SourceModel>, record: nat, i: int)
    requires
        first_after(sources, record, i),
    ensures
        has_source(sources, record),
        source_of(sources, record) == sources[i],
{
    let j = choose|j: int| first_after(sources, record, j);
    assert(first_after(sources, record, j));
    if i < j {
        assert(sources[i].diags_so_far <= record);
    } else if j < i {
        assert(sources[j].diags_so_far <= record);
    }
}

/// Returns the source that gave the record with the given index, if any did.
pub fn file_for(sources: &[CompiledSource], record: usize) -> (source: Option<&CompiledSource>)
    ensures
        source is Some <==> has_source(source_models(sources@), record as nat),
        source matches Some(found) ==> found@ == source_of(source_models(sources@), record as nat),
{
    let ghost models = source_models(sources@);
    let mut i: usize = 0;
    while i < sources.len()
        invariant
            i <= sources@.len(),
            models == source_models(sources@),
            forall|j: int| 0 <= j < i ==> (#[trigger] models[j]).diags_so_far <= record,
        decreases sources@.len() - i,
    {
        if record < sources[i].diags_so_far {
            proof {
                assert(models[i as int] == sources@[i as int]@);
                assert(first_after(models, record as nat, i as int));
                lemma_first_after_is_unique(models, record as nat, i as int);
            }
            return Some(&sources[i]);
        }
        assert(models[i as int] == sources@[i as int]@);
        i += 1;
    }
    None
}

/// Returns the indices of the records that a report shows: all of them, or the
/// slow ones only.
pub fn select(diags: &[PatternDiagnostics], all_patterns: bool) -> (shown: Vec<usize>)
    ensures
        indices(shown@) == selected(records(diags@), all_patterns),
{
    let ghost models = records(diags@);
    let ghost all = Seq::new(models.len(), |i: int| i);
    let ghost keep = |i: int| is_selected(models[i], all_patterns);
    let mut shown: Vec<usize> = Vec::new();
    let mut i: usize = 0;
    assert(indices(shown@) =~= all.take(0).filter(keep));
    while i < diags.len()
        invariant
            i <= diags@.len(),
            models == records(diags@),
            all == Seq::new(models.len(), |i: int| i),
            keep == |i: int| is_selected(models[i], all_patterns),
            indices(shown@) == all.take(i as int).filter(keep),
        decreases diags@.len() - i,
    {
        let ghost before = shown@;
        proof {
            assert(all.take(i + 1) =~= all.take(i as int).push(i as int));
            all.take(i as int).lemma_filter_push(i as int, keep);
            assert(models[i as int] == diags@[i as int]@);
        }
        if all_patterns || diags[i].slow_reason.is_some() {
            shown.push(i);
            assert(indices(shown@) =~= indices(before).push(i as int));
        }
        i += 1;
    }
    assert(all.take(all.len() as int) =~= all);
    shown
}

pub open spec fn indices(list: Seq<usize>) -> Seq<int> {
    list.map_values(|i: usize| i as int)
}

/// Returns the number of slow patterns.
pub fn count_slow(diags: &[PatternDiagnostics]) -> (count: usize)
    ensures
        count == slow_count(records(diags@)),
{
    let ghost models = records(diags@);
    let ghost slow = |r: RecordModel| r.slow_reason is Some;
    let mut count: usize = 0;
    let mut i: usize = 0;
    assert(models.take(0).filter(slow).len() == 0);
    while i < diags.len()
        invariant
            count <= i <= diags@.len(),
            models == records(diags@),
            slow == |r: RecordModel| r.slow_reason is Some,
            count == models.take(i as int).filter(slow).len(),
        decreases diags@.len() - i,
    {
        proof {
            assert(models.take(i + 1) =~= models.take(i as int).push(diags@[i as int]@));
            models.take(i as int).lemma_filter_push(diags@[i as int]@, slow);
        }
        if diags[i].slow_reason.is_some() {
            count += 1;
        }
        i += 1;
    }
    assert(models.take(models.len() as int) =~= models);
    count
}

/// Returns the last line of a report.
pub fn summary(diags: &[PatternDiagnostics]) -> (text: String)
    ensures
        text@ == summary_text(records(diags@)),
{
    let mut text = decimal_string(count_slow(diags));
    text.append(" slow pattern(s) found, ");
    push_decimal(&mut text, diags.len());
    text.append(" pattern(s) analyzed");
    text
}

/// Appends the first lines about a pattern.
fn push_heading(out: &mut String, d: &PatternDiagnostics, source: &CompiledSource, labels: &Labels)
    requires
        span_fits(d@, source@),
    ensures
        final(out)@ == old(out)@ + heading(d@, source@, labels@),
{
    let content = source.content.as_str();
    let start = d.span.start();
    let end = shown_end_of(d, source);
    let (line, column) = line_col(content, start);
    let mut text = "rule ".to_owned();
    text.append(labels.rule.as_str());
    text.append(" — ");
    text.append(labels.ident.as_str());
    text.append(" is ");
    text.append(labels.status.as_str());
    text.append("    ");
    text.append(source.path.as_str());
    text.append(":");
    push_decimal(&mut text, line);
    text.append(":");
    push_decimal(&mut text, column);
    text.append("\n");
    text.append("  pattern : ");
    text.append(cut(content, start, end));
    text.append("\n");
    text.append("  verdict : ");
    text.append(verdict(d).as_str());
    text.append("\n");
    out.append(text.as_str());
}

/// Returns where the source text of a pattern ends.
pub(crate) fn shown_end_of(d: &PatternDiagnostics, source: &CompiledSource) -> (end: usize)
    ensures
        end == shown_end(d@, source@),
{
    let end = d.span.end();
    let len = source.content.as_str().as_bytes().len();
    if end < len {
        end
    } else {
        len
    }
}

/// Appends the lines about the culprits.
fn push_culprits(out: &mut String, culprits: &Vec<Culprit>)
    ensures
        final(out)@ == old(out)@ + culprits_part(culprit_models(culprits@)),
{
    let ghost start = out@;
    let ghost models = culprit_models(culprits@);
    let mut i: usize = 0;
    proof {
        reveal_strlit("");
        assert(out@ =~= start + culprits_part(models.take(0)));
    }
    while i < culprits.len()
        invariant
            i <= culprits@.len(),
            models == culprit_models(culprits@),
            out@ == start + culprits_part(models.take(i as int)),
        decreases culprits@.len() - i,
    {
        let c = &culprits[i];
        out.append("  culprit : ");
        out.append(culprit_text(c).as_str());
        out.append("\n");
        out.append("  suggest : ");
        out.append(culprit_suggestion(c));
        out.append("\n");
        proof {
            let next = models.take(i + 1);
            assert(next.drop_last() =~= models.take(i as int));
            assert(next.last() == c@);
            assert(out@ =~= start + culprits_part(next));
        }
        i += 1;
    }
    assert(models.take(models.len() as int) =~= models);
}

/// Appends all lines about a pattern.
pub fn push_block(
    out: &mut String,
    d: &PatternDiagnostics,
    source: &CompiledSource,
    labels: &Labels,
)
    requires
        span_fits(d@, source@),
    ensures
        final(out)@ == old(out)@ + block(d@, source@, labels@),
{
    let ghost start = out@;
    push_heading(out, d, source, labels);
    if let Some(stats) = &d.atom_stats {
        out.append("  atoms   : ");
        out.append(atoms_line(stats).as_str());
        out.append("\n");
    }
    proof {
        reveal_strlit("");
        assert(out@ =~= start + heading(d@, source@, labels@) + atoms_part(d@.atom_stats));
    }
    push_culprits(out, &d.culprits);
    if d.culprits.len() == 0 {
        if let Some(reason) = &d.slow_reason {
            out.append("  suggest : ");
            out.append(reason_suggestion(reason));
            out.append("\n");
        }
    }
    proof {
        assert(out@ =~= start + heading(d@, source@, labels@) + atoms_part(d@.atom_stats)
            + culprits_part(d@.culprits) + reason_part(d@));
    }
    out.append("\n");
    assert(out@ =~= start + block(d@, source@, labels@));
}

/// Returns the painted labels of the record.
pub fn paint_labels(d: &PatternDiagnostics) -> (labels: Labels)
    ensures
        labels_of(d@, labels@),
{
    Labels {
        rule: bold(d.rule_name.as_str()),
        ident: bold(d.pattern_ident.as_str()),
        status: if d.slow_reason.is_some() {
            red_bold("SLOW")
        } else {
            cyan("OK")
        },
    }
}

/// Returns the lines about the shown records, given their labels.
pub fn text_blocks(
    diags: &[PatternDiagnostics],
    sources: &[CompiledSource],
    shown: &[usize],
    labels: &[Labels],
) -> (text: String)
    requires
        all_reportable(records(diags@), source_models(sources@), indices(shown@)),
        labels@.len() == shown@.len(),
    ensures
        text@ == blocks(
            records(diags@),
            source_models(sources@),
            indices(shown@),
            labels_models(labels@),
        ),
{
    let ghost all = records(diags@);
    let ghost files = source_models(sources@);
    let ghost list = indices(shown@);
    let ghost painted = labels_models(labels@);
    let mut text = String::new();
    let mut k: usize = 0;
    proof {
        reveal_strlit("");
        assert(text@ =~= blocks(all, files, list.take(0), painted));
    }
    while k < shown.len()
        invariant
            k <= shown@.len() == labels@.len(),
            all == records(diags@),
            files == source_models(sources@),
            list == indices(shown@),
            painted == labels_models(labels@),
            all_reportable(all, files, list),
            text@ == blocks(all, files, list.take(k as int), painted),
        decreases shown@.len() - k,
    {
        let i: usize = shown[k];
        proof {
            assert(list[k as int] == i);
            assert(reportable(all, files, i as int));
            assert(all[i as int] == diags@[i as int]@);
            assert(painted[k as int] == labels@[k as int]@);
            assert(list.take(k + 1).drop_last() =~= list.take(k as int));
        }
        if let Some(source) = file_for(sources, i) {
            push_block(&mut text, &diags[i], source, &labels[k]);
        }
        k += 1;
    }
    assert(list.take(list.len() as int) =~= list);
    text
}

/// The labels of the shown records, in order.
pub open spec fn all_labels_of(
    records: Seq<RecordModel>,
    shown: Seq<int>,
    labels: Seq<LabelsModel>,
) -> bool {
    &&& labels.len() == shown.len()
    &&& forall|k: int|
        0 <= k < shown.len() ==> labels_of(records[shown[k]], #[trigger] labels[k])
}

/// Returns the painted labels of the shown records.
pub fn paint_all_labels(diags: &[PatternDiagnostics], shown: &[usize]) -> (labels: Vec<Labels>)
    requires
        forall|k: int| 0 <= k < shown@.len() ==> #[trigger] shown@[k] < diags@.len(),
    ensures
        all_labels_of(records(diags@), indices(shown@), labels_models(labels@)),
{
    let mut labels: Vec<Labels> = Vec::new();
    let mut k: usize = 0;
    while k < shown.len()
        invariant
            k <= shown@.len(),
            labels@.len() == k,
            forall|j: int| 0 <= j < shown@.len() ==> #[trigger] shown@[j] < diags@.len(),
            forall|j: int|
                0 <= j < k ==> labels_of(diags@[shown@[j] as int]@, (#[trigger] labels@[j])@),
        decreases shown@.len() - k,
    {
        labels.push(paint_labels(&diags[shown[k]]));
        k += 1;
    }
    proof {
        let all = records(diags@);
        assert forall|k: int| 0 <= k < shown@.len() implies labels_of(
            all[indices(shown@)[k]],
            #[trigger] labels_models(labels@)[k],
        ) by {
            assert(labels_models(labels@)[k] == labels@[k]@);
            assert(shown@[k] < diags@.len());
        }
    }
    labels
}

/// The text form of a report, with the lines about the shown records and the
/// last line.
pub open spec fn text_output(
    records: Seq<RecordModel>,
    sources: Seq<SourceModel>,
    all_patterns: bool,
    labels: Seq<LabelsModel>,
) -> Seq<char> {
    blocks(records, sources, selected(records, all_patterns), labels) + summary_text(records)
        + "\n"@
}

/// `text` is the text form of a report, whichever of its labels are painted.
pub open spec fn is_text_report(
    records: Seq<RecordModel>,
    sources: Seq<SourceModel>,
    all_patterns: bool,
    text: Seq<char>,
) -> bool {
    exists|labels: Seq<LabelsModel>|
        {
            &&& #[trigger] all_labels_of(records, selected(records, all_patterns), labels)
            &&& text == text_output(records, sources, all_patterns, labels)
        }
}

/// Returns the text form of a report about all patterns, or about the slow
/// ones only. The labels in it are painted or not, as the terminal wants it.
pub fn text_report(
    diags: &[PatternDiagnostics],
    sources: &[CompiledSource],
    all_patterns: bool,
) -> (text: String)
    requires
        all_reportable(
            records(diags@),
            source_models(sources@),
            selected(records(diags@), all_patterns),
        ),
    ensures
        is_text_report(records(diags@), source_models(sources@), all_patterns, text@),
{
    let shown = select(diags, all_patterns);
    proof {
        assert forall|k: int| 0 <= k < shown@.len() implies #[trigger] shown@[k] < diags@.len() by {
            assert(indices(shown@)[k] == shown@[k]);
        }
    }
    let labels = paint_all_labels(diags, shown.as_slice());
    let mut text = text_blocks(diags, sources, shown.as_slice(), labels.as_slice());
    text.append(summary(diags).as_str());
    text.append("\n");
    proof {
        let painted = labels_models(labels@);
        assert(all_labels_of(records(diags@), selected(records(diags@), all_patterns), painted));
    }
    text
}

/// Returns whether everything that a report shows can be found: a source for
/// each shown record, and the record's span in it.
pub fn can_report(
    diags: &[PatternDiagnostics],
    sources: &[CompiledSource],
    all_patterns: bool,
) -> (yes: bool)
    ensures
        yes == all_reportable(
            records(diags@),
            source_models(sources@),
            selected(records(diags@), all_patterns),
        ),
{
    let ghost all = records(diags@);
    let ghost files = source_models(sources@);
    let shown = select(diags, all_patterns);
    let ghost list = indices(shown@);
    let mut k: usize = 0;
    proof {
        law_selection(all, all_patterns);
    }
    while k < shown.len()
        invariant
            k <= shown@.len(),
            all == records(diags@),
            files == source_models(sources@),
            list == indices(shown@),
            list == selected(all, all_patterns),
            forall|j: int| 0 <= j < list.len() ==> 0 <= #[trigger] list[j] < all.len(),
            forall|j: int| 0 <= j < k ==> reportable(all, files, #[trigger] list[j]),
        decreases shown@.len() - k,
    {
        let i: usize = shown[k];
        assert(list[k as int] == i);
        assert(all[i as int] == diags@[i as int]@);
        match file_for(sources, i) {
            Some(source) => {
                if !fits(&diags[i], source) {
                    assert(!reportable(all, files, list[k as int]));
                    return false;
                }
            },
            None => {
                assert(!reportable(all, files, list[k as int]));
                return false;
            },
        }
        k += 1;
    }
    true
}

/// The first `n` indices that pass the test: all of them, in ascending order.
proof fn lemma_filtered_indices(len: nat, n: nat, keep: spec_fn(int) -> bool)
    requires
        n <= len,
    ensures
        ({
            let kept = Seq::new(len, |i: int| i).take(n as int).filter(keep);
            &&& forall|k: int| 0 <= k < kept.len() ==> 0 <= #[trigger] kept[k] < n && keep(kept[k])
            &&& forall|j: int, k: int| 0 <= j < k < kept.len() ==> #[trigger] kept[j] < #[trigger] kept[k]
            &&& forall|i: int| 0 <= i < n && #[trigger] keep(i) ==> kept.contains(i)
        }),
    decreases n,
{
    let all = Seq::new(len, |i: int| i);
    if n == 0 {
        assert(all.take(0).filter(keep) =~= Seq::empty());
    } else {
        let m = (n - 1) as nat;
        lemma_filtered_indices(len, m, keep);
        assert(all.take(n as int) =~= all.take(m as int).push(m as int));
        all.take(m as int).lemma_filter_push(m as int, keep);
        let before = all.take(m as int).filter(keep);
        let kept = all.take(n as int).filter(keep);
        assert forall|i: int| 0 <= i < n && #[trigger] keep(i) implies kept.contains(i) by {
            if i < m {
                assert(before.contains(i));
                let k = before.index_of(i);
                assert(kept[k] == i);
            } else {
                assert(kept[kept.len() - 1] == i);
            }
        }
    }
}

/// A report about all patterns shows every record, and one about the slow
/// ones shows every record of a slow pattern and no other; always in order and
/// each once.
pub proof fn law_selection(records: Seq<RecordModel>, all_patterns: bool)
    ensures
        forall|k: int|
            0 <= k < selected(records, all_patterns).len() ==> 0 <= #[trigger] selected(
                records,
                all_patterns,
            )[k] < records.len() && is_selected(
                records[selected(records, all_patterns)[k]],
                all_patterns,
            ),
        forall|j: int, k: int|
            0 <= j < k < selected(records, all_patterns).len() ==> #[trigger] selected(
                records,
                all_patterns,
            )[j] < #[trigger] selected(records, all_patterns)[k],
        forall|i: int|
            0 <= i < records.len() && is_selected(#[trigger] records[i], all_patterns) ==> selected(
                records,
                all_patterns,
            ).contains(i),
{
    let keep = |i: int| is_selected(records[i], all_patterns);
    lemma_filtered_indices(records.len(), records.len(), keep);
    let all = Seq::new(records.len(), |i: int| i);
    assert(all.take(records.len() as int) =~= all);
    assert forall|i: int|
        0 <= i < records.len() && is_selected(#[trigger] records[i], all_patterns) implies selected(
        records,
        all_patterns,
    ).contains(i) by {
        assert(keep(i));
    }
}

/// Returns whether the span of the record is a part of the source.
fn fits(d: &PatternDiagnostics, source: &CompiledSource) -> (yes: bool)
    ensures
        yes == span_fits(d@, source@),
{
    let start = d.span.start();
    let end = shown_end_of(d, source);
    let content = source.content.as_str();
    start <= end && end < usize::MAX && content.is_char_boundary(start)
        && content.is_char_boundary(end)
}

} // verus!
