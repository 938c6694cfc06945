//! What holds of positions, sources and reports as a whole.
#[allow(unused_imports)]
use crate::culprit::CulpritModel;
#[allow(unused_imports)]
use crate::diagnostics::{RecordModel, StatsModel};
#[allow(unused_imports)]
use crate::json::JsonModel;
#[allow(unused_imports)]
use crate::json_report::{culprit_json, entry_json, report_json, stats_json};
#[allow(unused_imports)]
use crate::report::{
    atoms_part, block, blocks, culprit_detail, culprit_fix, culprits_part, first_after, has_source,
    heading, is_selected, law_selection, lemma_first_after_is_unique, reason_fix, reason_part,
    selected, shown_source, slow_count, source_of, summary_text, text_output, verdict_text,
    LabelsModel, SourceModel,
};
#[allow(unused_imports)]
use crate::text::{bytes_before, column_after, decimal, escaped, escaped_byte, line_after, utf8};
use vstd::prelude::*;

verus! {

/// Where the last line of `before` starts.
pub open spec fn line_start(before: Seq<u8>) -> int {
    before.len() - (column_after(before) - 1)
}

/// The line number is one more than the number of newlines before the
/// position, and the column is one more than the number of bytes since the
/// last of them.
pub proof fn law_positions_count_newlines(before: Seq<u8>)
    ensures
        line_after(before) == before.filter(|b: u8| b == '\n' as u8).len() + 1,
        column_after(before) >= 1,
        0 <= line_start(before) <= before.len(),
        line_start(before) == 0 || before[line_start(before) - 1] == '\n' as u8,
        forall|i: int| line_start(before) <= i < before.len() ==> #[trigger] before[i] != '\n' as u8,
    decreases before.len(),
{
    let newline = |b: u8| b == '\n' as u8;
    if before.len() == 0 {
        assert(before.filter(newline) =~= Seq::empty());
    } else {
        let init = before.drop_last();
        law_positions_count_newlines(init);
        assert(before =~= init.push(before.last()));
        init.lemma_filter_push(before.last(), newline);
        assert forall|i: int| line_start(before) <= i < before.len() implies #[trigger] before[i]
            != '\n' as u8 by {
            if i < init.len() {
                assert(before[i] == init[i]);
            }
        }
    }
}

/// Positions grow with the offset: of two offsets the later one has a larger
/// line number, or the same one and a larger column. So no two offsets share a
/// position.
pub proof fn law_positions_grow(content: Seq<char>, a: nat, b: nat)
    requires
        a < b <= utf8(content).len(),
    ensures
        ({
            let at_a = bytes_before(content, a);
            let at_b = bytes_before(content, b);
            line_after(at_a) < line_after(at_b) || (line_after(at_a) == line_after(at_b)
                && column_after(at_a) < column_after(at_b))
        }),
    decreases b,
{
    let at_b = bytes_before(content, b);
    let c = (b - 1) as nat;
    assert(at_b.drop_last() =~= bytes_before(content, c));
    law_positions_count_newlines(at_b.drop_last());
    if a < c {
        law_positions_grow(content, a, c);
    }
}

/// The first byte is on line 1 in column 1, and offsets beyond the end have the
/// position of the end.
pub proof fn law_first_and_last_position(content: Seq<char>, offset: nat)
    ensures
        line_after(bytes_before(content, 0)) == 1,
        column_after(bytes_before(content, 0)) == 1,
        offset >= utf8(content).len() ==> bytes_before(content, offset) == bytes_before(
            content,
            utf8(content).len(),
        ),
{
}

/// Number of records that existed before the source at `i` was compiled.
pub open spec fn records_before(sources: Seq<SourceModel>, i: int) -> nat {
    if i == 0 {
        0
    } else {
        sources[i - 1].diags_so_far
    }
}

/// Sources that were compiled one after the other, each adding records to
/// those that existed before.
pub open spec fn compiled_in_order(sources: Seq<SourceModel>) -> bool {
    forall|i: int, j: int|
        0 <= i <= j < sources.len() ==> (#[trigger] sources[i]).diags_so_far <= (
        #[trigger] sources[j]).diags_so_far
}

/// A record is shown with the file that it came from: the one whose
/// compilation added it.
pub proof fn law_records_belong_to_their_file(sources: Seq<SourceModel>, i: int, record: nat)
    requires
        compiled_in_order(sources),
        0 <= i < sources.len(),
        records_before(sources, i) <= record < sources[i].diags_so_far,
    ensures
        has_source(sources, record),
        source_of(sources, record) == sources[i],
{
    assert forall|j: int| 0 <= j < i implies (#[trigger] sources[j]).diags_so_far <= record by {
        assert(sources[j].diags_so_far <= sources[i - 1].diags_so_far);
    }
    assert(first_after(sources, record, i));
    lemma_first_after_is_unique(sources, record, i);
}

/// Every record that existed after the last source has a file, and no later
/// one does.
pub proof fn law_every_record_has_a_file(sources: Seq<SourceModel>, record: nat)
    requires
        compiled_in_order(sources),
        sources.len() > 0,
    ensures
        has_source(sources, record) <==> record < sources.last().diags_so_far,
{
    if has_source(sources, record) {
        let i = choose|i: int| first_after(sources, record, i);
        assert(sources[i].diags_so_far <= sources[sources.len() - 1].diags_so_far);
    }
    if record < sources.last().diags_so_far {
        lemma_some_source(sources, record, sources.len() - 1);
    }
}

proof fn lemma_some_source(sources: Seq<SourceModel>, record: nat, i: int)
    requires
        compiled_in_order(sources),
        0 <= i < sources.len(),
        record < sources[i].diags_so_far,
    ensures
        has_source(sources, record),
    decreases i,
{
    if records_before(sources, i) <= record {
        law_records_belong_to_their_file(sources, i, record);
    } else {
        lemma_some_source(sources, record, i - 1);
    }
}

/// A report about all patterns shows each record once.
pub proof fn law_all_patterns_shows_everything(records: Seq<RecordModel>)
    ensures
        selected(records, true) == Seq::new(records.len(), |i: int| i),
{
    let all = Seq::new(records.len(), |i: int| i);
    let keep = |i: int| is_selected(records[i], true);
    lemma_filter_keeps_all(all, keep);
}

proof fn lemma_filter_keeps_all(list: Seq<int>, keep: spec_fn(int) -> bool)
    requires
        forall|k: int| 0 <= k < list.len() ==> keep(#[trigger] list[k]),
    ensures
        list.filter(keep) == list,
    decreases list.len(),
{
    if list.len() > 0 {
        let init = list.drop_last();
        assert forall|k: int| 0 <= k < init.len() implies keep(#[trigger] init[k]) by {
            assert(init[k] == list[k]);
        }
        lemma_filter_keeps_all(init, keep);
        assert(keep(list[list.len() - 1]));
        assert(list =~= init.push(list.last()));
        init.lemma_filter_push(list.last(), keep);
    } else {
        assert(list.filter(keep) =~= list);
    }
}

/// The number of slow patterns in the last line is the number of records that
/// a report about slow patterns shows.
pub proof fn law_slow_patterns_are_counted(records: Seq<RecordModel>)
    ensures
        slow_count(records) == selected(records, false).len(),
{
    lemma_slow_count(records, records.len());
    assert(records.take(records.len() as int) =~= records);
    let all = Seq::new(records.len(), |i: int| i);
    assert(all.take(records.len() as int) =~= all);
}

proof fn lemma_slow_count(records: Seq<RecordModel>, n: nat)
    requires
        n <= records.len(),
    ensures
        records.take(n as int).filter(|r: RecordModel| r.slow_reason is Some).len() == Seq::new(
            records.len(),
            |i: int| i,
        ).take(n as int).filter(|i: int| is_selected(records[i], false)).len(),
    decreases n,
{
    let all = Seq::new(records.len(), |i: int| i);
    let slow = |r: RecordModel| r.slow_reason is Some;
    let keep = |i: int| is_selected(records[i], false);
    if n == 0 {
        assert(records.take(0).filter(slow) =~= Seq::empty());
        assert(all.take(0).filter(keep) =~= Seq::empty());
    } else {
        let m = (n - 1) as nat;
        lemma_slow_count(records, m);
        assert(records.take(n as int) =~= records.take(m as int).push(records[m as int]));
        assert(all.take(n as int) =~= all.take(m as int).push(m as int));
        records.take(m as int).lemma_filter_push(records[m as int], slow);
        all.take(m as int).lemma_filter_push(m as int, keep);
    }
}

/// A report about slow patterns is quiet where there are none: it consists of
/// the last line.
pub proof fn law_quiet_on_healthy_rules(
    records: Seq<RecordModel>,
    sources: Seq<SourceModel>,
    labels: Seq<LabelsModel>,
)
    requires
        forall|i: int| 0 <= i < records.len() ==> (#[trigger] records[i]).slow_reason is None,
    ensures
        text_output(records, sources, false, labels) == "0 slow pattern(s) found, "@ + decimal(
            records.len(),
        ) + " pattern(s) analyzed"@ + "\n"@,
        report_json(records, sources, false) == JsonModel::List(Seq::empty()),
{
    law_selection(records, false);
    let shown = selected(records, false);
    if shown.len() > 0 {
        assert(is_selected(records[shown[0]], false));
    }
    law_slow_patterns_are_counted(records);
    assert(report_json(records, sources, false)->List_0 =~= Seq::empty());
    reveal_strlit("");
    reveal_strlit("0 slow pattern(s) found, ");
    reveal_strlit(" slow pattern(s) found, ");
    assert(decimal(0) + " slow pattern(s) found, "@ =~= "0 slow pattern(s) found, "@);
    assert(text_output(records, sources, false, labels) =~= "0 slow pattern(s) found, "@ + decimal(
        records.len(),
    ) + " pattern(s) analyzed"@ + "\n"@);
}

/// `part` stands somewhere in `text`.
pub open spec fn has_part(text: Seq<char>, part: Seq<char>) -> bool {
    exists|before: Seq<char>, after: Seq<char>| text == #[trigger] (before + part + after)
}

/// The two lines about a culprit.
pub open spec fn culprit_lines(culprit: CulpritModel) -> Seq<char> {
    "  culprit : "@ + culprit_detail(culprit) + "\n"@ + "  suggest : "@ + culprit_fix(culprit)
        + "\n"@
}

proof fn lemma_part_of_concat(a: Seq<char>, b: Seq<char>, part: Seq<char>)
    requires
        has_part(a, part) || has_part(b, part),
    ensures
        has_part(a + b, part),
{
    if has_part(a, part) {
        let (before, after) = choose|before: Seq<char>, after: Seq<char>|
            a == #[trigger] (before + part + after);
        assert(a + b =~= before + part + (after + b));
    } else {
        let (before, after) = choose|before: Seq<char>, after: Seq<char>|
            b == #[trigger] (before + part + after);
        assert(a + b =~= (a + before) + part + after);
    }
}

proof fn lemma_part_of_itself(part: Seq<char>)
    ensures
        has_part(part, part),
{
    assert(part =~= Seq::empty() + part + Seq::empty());
}

proof fn lemma_culprit_has_lines(culprits: Seq<CulpritModel>, i: int)
    requires
        0 <= i < culprits.len(),
    ensures
        has_part(culprits_part(culprits), culprit_lines(culprits[i])),
    decreases culprits.len(),
{
    let init = culprits.drop_last();
    let last = culprit_lines(culprits.last());
    assert(culprits_part(culprits) =~= culprits_part(init) + last);
    if i < init.len() {
        lemma_culprit_has_lines(init, i);
        assert(init[i] == culprits[i]);
    } else {
        lemma_part_of_itself(last);
    }
    lemma_part_of_concat(culprits_part(init), last, culprit_lines(culprits[i]));
}

/// The lines about a slow pattern always hold its verdict and a way to fix it:
/// that of each culprit, or that of the reason if there are no culprits.
pub proof fn law_slow_patterns_get_suggestions(
    record: RecordModel,
    source: SourceModel,
    labels: LabelsModel,
)
    requires
        record.slow_reason is Some,
    ensures
        has_part(
            block(record, source, labels),
            "  verdict : "@ + verdict_text(record.slow_reason) + "\n"@,
        ),
        forall|i: int|
            0 <= i < record.culprits.len() ==> has_part(
                block(record, source, labels),
                culprit_lines(#[trigger] record.culprits[i]),
            ),
        record.culprits.len() == 0 ==> has_part(
            block(record, source, labels),
            "  suggest : "@ + reason_fix(record.slow_reason->0) + "\n"@,
        ),
{
    let head = heading(record, source, labels);
    let atoms = atoms_part(record.atom_stats);
    let culprits = culprits_part(record.culprits);
    let reason = reason_part(record);
    let verdict = "  verdict : "@ + verdict_text(record.slow_reason) + "\n"@;
    let rest = head.take(head.len() - verdict.len());
    assert(head =~= rest + verdict);
    lemma_part_of_itself(verdict);
    lemma_part_of_concat(rest, verdict, verdict);
    lemma_part_of_concat(head, atoms, verdict);
    lemma_part_of_concat(head + atoms, culprits, verdict);
    lemma_part_of_concat(head + atoms + culprits, reason, verdict);
    lemma_part_of_concat(head + atoms + culprits + reason, "\n"@, verdict);
    assert forall|i: int| 0 <= i < record.culprits.len() implies has_part(
        block(record, source, labels),
        culprit_lines(#[trigger] record.culprits[i]),
    ) by {
        let lines = culprit_lines(record.culprits[i]);
        lemma_culprit_has_lines(record.culprits, i);
        lemma_part_of_concat(head + atoms, culprits, lines);
        lemma_part_of_concat(head + atoms + culprits, reason, lines);
        lemma_part_of_concat(head + atoms + culprits + reason, "\n"@, lines);
    }
    if record.culprits.len() == 0 {
        lemma_part_of_itself(reason);
        lemma_part_of_concat(head + atoms + culprits, reason, reason);
        lemma_part_of_concat(head + atoms + culprits + reason, "\n"@, reason);
    }
}

/// A report has all lines about each record that it shows.
pub proof fn law_reports_show_every_selected_record(
    records: Seq<RecordModel>,
    sources: Seq<SourceModel>,
    all_patterns: bool,
    labels: Seq<LabelsModel>,
    k: int,
)
    requires
        0 <= k < selected(records, all_patterns).len(),
    ensures
        has_part(
            text_output(records, sources, all_patterns, labels),
            block(
                records[selected(records, all_patterns)[k]],
                source_of(sources, selected(records, all_patterns)[k] as nat),
                labels[k],
            ),
        ),
{
    let shown = selected(records, all_patterns);
    let part = block(records[shown[k]], source_of(sources, shown[k] as nat), labels[k]);
    let all = blocks(records, sources, shown, labels);
    lemma_blocks_have_each(records, sources, shown, labels, k);
    lemma_part_of_concat(all, summary_text(records), part);
    lemma_part_of_concat(all + summary_text(records), "\n"@, part);
}

proof fn lemma_blocks_have_each(
    records: Seq<RecordModel>,
    sources: Seq<SourceModel>,
    shown: Seq<int>,
    labels: Seq<LabelsModel>,
    k: int,
)
    requires
        0 <= k < shown.len(),
    ensures
        has_part(
            blocks(records, sources, shown, labels),
            block(records[shown[k]], source_of(sources, shown[k] as nat), labels[k]),
        ),
    decreases shown.len(),
{
    let init = shown.drop_last();
    let part = block(records[shown[k]], source_of(sources, shown[k] as nat), labels[k]);
    let last = block(
        records[shown.last()],
        source_of(sources, shown.last() as nat),
        labels[shown.len() - 1],
    );
    if k < init.len() {
        lemma_blocks_have_each(records, sources, init, labels, k);
        assert(init[k] == shown[k]);
    } else {
        lemma_part_of_itself(last);
    }
    lemma_part_of_concat(blocks(records, sources, init, labels), last, part);
}

/// The fields of an object.
pub open spec fn fields_of(json: JsonModel) -> Map<Seq<char>, JsonModel> {
    json->Object_0
}

/// Every field of a JSON entry can be read back under its name.
pub proof fn law_json_entries_have_all_fields(record: RecordModel, source: SourceModel)
    ensures
        ({
            let fields = fields_of(entry_json(record, source));
            let before = bytes_before(source.content, record.start);
            &&& fields["rule"@] == JsonModel::Text(record.rule_name)
            &&& fields["pattern"@] == JsonModel::Text(record.pattern_ident)
            &&& fields["file"@] == JsonModel::Text(source.path)
            &&& fields["line"@] == JsonModel::Number(line_after(before))
            &&& fields["column"@] == JsonModel::Number(column_after(before))
            &&& fields["source"@] == JsonModel::Text(shown_source(record, source))
            &&& fields["slow"@] == JsonModel::Bool(record.slow_reason is Some)
            &&& fields["verdict"@] == JsonModel::Text(verdict_text(record.slow_reason))
            &&& fields["atoms"@] == stats_json(record.atom_stats)
            &&& fields["culprits"@] == JsonModel::List(
                record.culprits.map_values(|culprit: CulpritModel| culprit_json(culprit)),
            )
            &&& fields["suggestion"@] == match record.slow_reason {
                Some(reason) => JsonModel::Text(reason_fix(reason)),
                None => JsonModel::Null,
            }
            &&& fields.dom() == set![
                "rule"@,
                "pattern"@,
                "file"@,
                "line"@,
                "column"@,
                "source"@,
                "slow"@,
                "verdict"@,
                "atoms"@,
                "culprits"@,
                "suggestion"@,
            ]
        }),
{
    reveal_strlit("rule");
    reveal_strlit("pattern");
    reveal_strlit("file");
    reveal_strlit("line");
    reveal_strlit("column");
    reveal_strlit("source");
    reveal_strlit("slow");
    reveal_strlit("verdict");
    reveal_strlit("atoms");
    reveal_strlit("culprits");
    reveal_strlit("suggestion");
    assert("rule"@.len() == 4 && "file"@.len() == 4 && "line"@.len() == 4 && "slow"@.len() == 4);
    assert("atoms"@.len() == 5 && "column"@.len() == 6 && "source"@.len() == 6);
    assert("pattern"@.len() == 7 && "verdict"@.len() == 7);
    assert("culprits"@.len() == 8 && "suggestion"@.len() == 10);
    // Names of one length differ in their first letter.
    assert("rule"@[0] == 'r' && "file"@[0] == 'f' && "line"@[0] == 'l' && "slow"@[0] == 's');
    assert("column"@[0] == 'c' && "source"@[0] == 's');
    assert("pattern"@[0] == 'p' && "verdict"@[0] == 'v');
}

/// The statistics in a JSON entry can be read back under their names.
pub proof fn law_json_statistics_have_all_fields(stats: StatsModel)
    ensures
        ({
            let fields = fields_of(stats_json(Some(stats)));
            &&& fields["count"@] == JsonModel::Number(stats.count)
            &&& fields["min_len"@] == JsonModel::Number(stats.min_len)
            &&& fields["max_len"@] == JsonModel::Number(stats.max_len)
            &&& fields["exact"@] == JsonModel::Number(stats.exact_count)
            &&& fields["samples"@] is List
            &&& fields["samples"@]->List_0.len() == stats.samples.len()
            &&& forall|i: int|
                0 <= i < stats.samples.len() ==> #[trigger] fields["samples"@]->List_0[i]
                    == JsonModel::Text(escaped(stats.samples[i]))
        }),
{
    reveal_strlit("count");
    reveal_strlit("min_len");
    reveal_strlit("max_len");
    reveal_strlit("exact");
    reveal_strlit("samples");
    // Names of one length differ in their first or second letter.
    assert("count"@[0] == 'c' && "exact"@[0] == 'e');
    assert("min_len"@[0] == 'm' && "max_len"@[0] == 'm' && "samples"@[0] == 's');
    assert("min_len"@[1] == 'i' && "max_len"@[1] == 'a');
}

/// The JSON form of a report has one entry per shown record.
pub proof fn law_json_has_one_entry_per_record(
    records: Seq<RecordModel>,
    sources: Seq<SourceModel>,
    all_patterns: bool,
    k: int,
)
    requires
        0 <= k < selected(records, all_patterns).len(),
    ensures
        report_json(records, sources, all_patterns)->List_0.len() == selected(
            records,
            all_patterns,
        ).len(),
        report_json(records, sources, all_patterns)->List_0[k] == entry_json(
            records[selected(records, all_patterns)[k]],
            source_of(sources, selected(records, all_patterns)[k] as nat),
        ),
{
}

/// Escaped bytes are printable ASCII, whatever the bytes are.
pub proof fn law_escaped_bytes_are_printable(bytes: Seq<u8>)
    ensures
        forall|i: int|
            0 <= i < escaped(bytes).len() ==> ' ' <= #[trigger] escaped(bytes)[i] <= '~',
    decreases bytes.len(),
{
    if bytes.len() > 0 {
        law_escaped_bytes_are_printable(bytes.drop_last());
        let init = escaped(bytes.drop_last());
        let last = escaped_byte(bytes.last());
        assert forall|i: int| 0 <= i < escaped(bytes).len() implies ' ' <= #[trigger] escaped(
            bytes,
        )[i] <= '~' by {
            if i < init.len() {
                assert(escaped(bytes)[i] == init[i]);
            } else {
                assert(escaped(bytes)[i] == last[i - init.len()]);
            }
        }
    }
}

} // verus!
