//! How the text report is laid out, and what it shows.
#[allow(unused_imports)]
use crate::culprit::CulpritModel;
#[allow(unused_imports)]
use crate::diagnostics::{RecordModel, StatsModel};
#[allow(unused_imports)]
use crate::json::JsonModel;
#[allow(unused_imports)]
use crate::json_report::{culprit_json, entry_json, report_json, stats_json};
#[allow(unused_imports)]
use crate::report::{
    all_labels_of, all_reportable, atoms_text, block, blocks, culprit_detail, culprit_fix,
    culprits_part, first_after, has_source, is_selected, is_text_report, labels_of, law_selection,
    lemma_first_after_is_unique, reason_fix, reportable, selected, shown_end, slow_count, source_of,
    summary_text, text_output, verdict_text, LabelsModel, SourceModel,
};
#[allow(unused_imports)]
use crate::report_laws::{
    fields_of, law_json_entries_have_all_fields, law_slow_patterns_are_counted,
};
#[allow(unused_imports)]
use crate::text::{decimal, utf8};
#[allow(unused_imports)]
use crate::text_laws::{
    law_line_and_column_of_an_offset, law_text_between_offsets, part_before, stands_at,
};
use vstd::prelude::*;
#[allow(unused_imports)]
use vstd::utf8::{encode_utf8, is_char_boundary};

verus! {

/// Where the pattern's text ends: at the end of its span or of the source,
/// whichever comes first.
pub open spec fn text_end(record: RecordModel, source: SourceModel) -> nat {
    if record.end <= encode_utf8(source.content).len() {
        record.end
    } else {
        encode_utf8(source.content).len()
    }
}

/// All lines about a pattern. The first names the rule, the pattern and its
/// status, and the file, line and column where it stands. Then come the text
/// of the pattern, the verdict, the atoms if they are known, the culprits, a
/// suggestion if the pattern is slow and has no culprits, and an empty line.
pub proof fn law_lines_about_a_pattern(
    record: RecordModel,
    source: SourceModel,
    labels: LabelsModel,
    line: nat,
    column: nat,
    text: Seq<char>,
)
    requires
        record.start <= text_end(record, source),
        stands_at(part_before(source.content, record.start), line, column),
        encode_utf8(text) == encode_utf8(source.content).subrange(
            record.start as int,
            text_end(record, source) as int,
        ),
    ensures
        block(record, source, labels) == "rule "@ + labels.rule + " — "@ + labels.ident + " is "@
            + labels.status + "    "@ + source.path + ":"@ + decimal(line) + ":"@ + decimal(column)
            + "\n"@ + "  pattern : "@ + text + "\n"@ + "  verdict : "@ + verdict_text(
            record.slow_reason,
        ) + "\n"@ + (match record.atom_stats {
            Some(stats) => "  atoms   : "@ + atoms_text(stats) + "\n"@,
            None => Seq::empty(),
        }) + culprits_part(record.culprits) + (if record.slow_reason is Some
            && record.culprits.len() == 0 {
            "  suggest : "@ + reason_fix(record.slow_reason->0) + "\n"@
        } else {
            Seq::empty()
        }) + "\n"@,
{
    reveal_strlit("");
    assert(""@ =~= Seq::<char>::empty());
    law_line_and_column_of_an_offset(source.content, record.start, line, column);
    law_text_between_offsets(source.content, record.start, text_end(record, source), text);
    assert(shown_end(record, source) == text_end(record, source));
}

/// The culprits are told one after the other, each with a line that says what
/// it is and one that says how to fix it.
pub proof fn law_lines_about_culprits(
    a: Seq<CulpritModel>,
    b: Seq<CulpritModel>,
    one: CulpritModel,
)
    ensures
        culprits_part(a + b) == culprits_part(a) + culprits_part(b),
        culprits_part(seq![one]) == "  culprit : "@ + culprit_detail(one) + "\n"@
            + "  suggest : "@ + culprit_fix(one) + "\n"@,
        culprits_part(Seq::<CulpritModel>::empty()).len() == 0,
    decreases b.len(),
{
    reveal_strlit("");
    assert(culprits_part(Seq::<CulpritModel>::empty()) =~= Seq::empty());
    assert(seq![one].drop_last() =~= Seq::empty());
    assert(culprits_part(seq![one]) =~= "  culprit : "@ + culprit_detail(one) + "\n"@
        + "  suggest : "@ + culprit_fix(one) + "\n"@);
    if b.len() == 0 {
        assert(a + b =~= a);
        assert(culprits_part(a) + culprits_part(b) =~= culprits_part(a));
    } else {
        law_lines_about_culprits(a, b.drop_last(), one);
        assert((a + b).drop_last() =~= a + b.drop_last());
        assert((a + b).last() == b.last());
        assert(culprits_part(a + b) =~= culprits_part(a) + culprits_part(b));
    }
}

/// The JSON form names the same line, column and text of a pattern as the text
/// form.
pub proof fn law_both_forms_show_the_same_place(
    record: RecordModel,
    source: SourceModel,
    line: nat,
    column: nat,
    text: Seq<char>,
)
    requires
        record.start <= text_end(record, source),
        stands_at(part_before(source.content, record.start), line, column),
        encode_utf8(text) == encode_utf8(source.content).subrange(
            record.start as int,
            text_end(record, source) as int,
        ),
    ensures
        fields_of(entry_json(record, source))["line"@] == JsonModel::Number(line),
        fields_of(entry_json(record, source))["column"@] == JsonModel::Number(column),
        fields_of(entry_json(record, source))["source"@] == JsonModel::Text(text),
{
    law_line_and_column_of_an_offset(source.content, record.start, line, column);
    law_text_between_offsets(source.content, record.start, text_end(record, source), text);
    assert(shown_end(record, source) == text_end(record, source));
    law_json_entries_have_all_fields(record, source);
}

/// A culprit in JSON has what is said about it and how to fix it, and nothing
/// else.
pub proof fn law_json_culprits_have_all_fields(culprit: CulpritModel)
    ensures
        culprit_json(culprit) is Object,
        fields_of(culprit_json(culprit))["detail"@] == JsonModel::Text(culprit_detail(culprit)),
        fields_of(culprit_json(culprit))["suggestion"@] == JsonModel::Text(culprit_fix(culprit)),
        fields_of(culprit_json(culprit)).dom() == set!["detail"@, "suggestion"@],
{
    reveal_strlit("detail");
    reveal_strlit("suggestion");
    assert("detail"@.len() == 6 && "suggestion"@.len() == 10);
}

/// Statistics in JSON are an object with five fields, and null if there are
/// none.
pub proof fn law_json_statistics_are_an_object_or_null(stats: StatsModel)
    ensures
        stats_json(None) is Null,
        stats_json(Some(stats)) is Object,
        fields_of(stats_json(Some(stats))).dom() == set![
            "count"@,
            "min_len"@,
            "max_len"@,
            "exact"@,
            "samples"@,
        ],
{
}

/// Each culprit of a JSON entry stands in its place, and so does each entry of
/// the report.
pub proof fn law_json_lists_keep_their_order(
    record: RecordModel,
    source: SourceModel,
    records: Seq<RecordModel>,
    sources: Seq<SourceModel>,
    all_patterns: bool,
)
    ensures
        ({
            let culprits = fields_of(entry_json(record, source))["culprits"@];
            &&& culprits is List
            &&& culprits->List_0.len() == record.culprits.len()
            &&& forall|i: int|
                0 <= i < record.culprits.len() ==> #[trigger] culprits->List_0[i] == culprit_json(
                    record.culprits[i],
                )
        }),
        entry_json(record, source) is Object,
        report_json(records, sources, all_patterns) is List,
        report_json(records, sources, all_patterns)->List_0.len() == selected(
            records,
            all_patterns,
        ).len(),
        forall|k: int|
            0 <= k < selected(records, all_patterns).len() ==> #[trigger] report_json(
                records,
                sources,
                all_patterns,
            )->List_0[k] == entry_json(
                records[selected(records, all_patterns)[k]],
                source_of(sources, selected(records, all_patterns)[k] as nat),
            ),
{
    law_json_entries_have_all_fields(record, source);
}

/// The records that a report shows: with `all_patterns` every one, else those
/// with a reason for slowness, in order and each once.
pub proof fn law_which_records_are_shown(records: Seq<RecordModel>, all_patterns: bool)
    ensures
        forall|i: int| #[trigger]
            selected(records, all_patterns).contains(i) <==> 0 <= i < records.len() && (all_patterns
                || records[i].slow_reason is Some),
        forall|j: int, k: int|
            0 <= j < k < selected(records, all_patterns).len() ==> #[trigger] selected(
                records,
                all_patterns,
            )[j] < #[trigger] selected(records, all_patterns)[k],
{
    law_selection(records, all_patterns);
    let shown = selected(records, all_patterns);
    assert forall|i: int| #[trigger] shown.contains(i) implies 0 <= i < records.len() && (
    all_patterns || records[i].slow_reason is Some) by {
        let k = shown.index_of(i);
        assert(shown[k] == i);
    }
    assert forall|i: int|
        0 <= i < records.len() && (all_patterns || records[i].slow_reason
            is Some) implies #[trigger] shown.contains(i) by {
        assert(is_selected(records[i], all_patterns));
    }
}

/// The places of the records with a reason for slowness.
pub open spec fn slow_places(records: Seq<RecordModel>) -> Set<int> {
    Set::new(|i: int| 0 <= i < records.len() && records[i].slow_reason is Some)
}

/// The last line counts the records with a reason for slowness, and all
/// records, whichever of them are shown.
pub proof fn law_words_of_the_summary(records: Seq<RecordModel>)
    ensures
        slow_places(records).finite(),
        slow_count(records) == slow_places(records).len(),
        summary_text(records) == decimal(slow_places(records).len()) + " slow pattern(s) found, "@
            + decimal(records.len()) + " pattern(s) analyzed"@,
{
    let shown = selected(records, false);
    law_which_records_are_shown(records, false);
    law_slow_patterns_are_counted(records);
    assert(shown.no_duplicates()) by {
        assert forall|j: int, k: int|
            0 <= j < shown.len() && 0 <= k < shown.len() && j != k implies shown[j] != shown[k] by {
            if j < k {
                assert(shown[j] < shown[k]);
            } else {
                assert(shown[k] < shown[j]);
            }
        }
    }
    shown.unique_seq_to_set();
    assert(shown.to_set() =~= slow_places(records)) by {
        assert forall|i: int| shown.to_set().contains(i) == slow_places(records).contains(i) by {
            assert(shown.to_set().contains(i) == shown.contains(i));
        }
    }
}

/// A text report is the lines about the shown records, and then the last line.
pub proof fn law_parts_of_a_text_report(
    records: Seq<RecordModel>,
    sources: Seq<SourceModel>,
    all_patterns: bool,
    labels: Seq<LabelsModel>,
)
    ensures
        text_output(records, sources, all_patterns, labels) == blocks(
            records,
            sources,
            selected(records, all_patterns),
            labels,
        ) + decimal(slow_places(records).len()) + " slow pattern(s) found, "@ + decimal(
            records.len(),
        ) + " pattern(s) analyzed"@ + "\n"@,
{
    law_words_of_the_summary(records);
    let shown = blocks(records, sources, selected(records, all_patterns), labels);
    assert(shown + summary_text(records) + "\n"@ =~= shown + decimal(slow_places(records).len())
        + " slow pattern(s) found, "@ + decimal(records.len()) + " pattern(s) analyzed"@ + "\n"@);
}

proof fn lemma_blocks_use_their_labels(
    records: Seq<RecordModel>,
    sources: Seq<SourceModel>,
    shown: Seq<int>,
    a: Seq<LabelsModel>,
    b: Seq<LabelsModel>,
)
    requires
        forall|k: int| 0 <= k < shown.len() ==> #[trigger] a[k] == b[k],
    ensures
        blocks(records, sources, shown, a) == blocks(records, sources, shown, b),
    decreases shown.len(),
{
    if shown.len() > 0 {
        lemma_blocks_use_their_labels(records, sources, shown.drop_last(), a, b);
        assert(a[shown.len() - 1] == b[shown.len() - 1]);
    }
}

/// Showing one record more appends the lines about it, with the file that it
/// came from and its own labels.
pub proof fn law_records_are_shown_one_after_the_other(
    records: Seq<RecordModel>,
    sources: Seq<SourceModel>,
    shown: Seq<int>,
    labels: Seq<LabelsModel>,
    i: int,
    own: LabelsModel,
)
    requires
        labels.len() == shown.len(),
    ensures
        blocks(records, sources, shown.push(i), labels.push(own)) == blocks(
            records,
            sources,
            shown,
            labels,
        ) + block(records[i], source_of(sources, i as nat), own),
        blocks(records, sources, Seq::empty(), labels).len() == 0,
{
    reveal_strlit("");
    assert(shown.push(i).drop_last() =~= shown);
    assert forall|k: int| 0 <= k < shown.len() implies #[trigger] labels.push(own)[k] == labels[k] by {}
    lemma_blocks_use_their_labels(records, sources, shown, labels.push(own), labels);
}

/// The labels are the names, plain or in bold, and SLOW, plain or in bold red,
/// for a slow pattern, and OK, plain or in cyan, for any other.
pub proof fn law_words_of_the_labels(record: RecordModel, labels: LabelsModel)
    ensures
        labels_of(record, labels) <==> {
            &&& labels.rule == record.rule_name || labels.rule == "\x1B[1m"@ + record.rule_name
                + "\x1B[0m"@
            &&& labels.ident == record.pattern_ident || labels.ident == "\x1B[1m"@
                + record.pattern_ident + "\x1B[0m"@
            &&& record.slow_reason is Some ==> labels.status == "SLOW"@ || labels.status
                == "\x1B[1;31m"@ + "SLOW"@ + "\x1B[0m"@
            &&& record.slow_reason is None ==> labels.status == "OK"@ || labels.status
                == "\x1B[36m"@ + "OK"@ + "\x1B[0m"@
        },
{
}

/// A text is a report exactly if it is laid out as one with the labels of the
/// shown records, one for each.
pub proof fn law_what_a_text_report_is(
    records: Seq<RecordModel>,
    sources: Seq<SourceModel>,
    all_patterns: bool,
    text: Seq<char>,
)
    ensures
        is_text_report(records, sources, all_patterns, text) <==> exists|
            labels: Seq<LabelsModel>,
        |
            {
                &&& labels.len() == selected(records, all_patterns).len()
                &&& forall|k: int|
                    0 <= k < labels.len() ==> labels_of(
                        records[selected(records, all_patterns)[k]],
                        #[trigger] labels[k],
                    )
                &&& text == #[trigger] text_output(records, sources, all_patterns, labels)
            },
{
    let shown = selected(records, all_patterns);
    if is_text_report(records, sources, all_patterns, text) {
        let labels = choose|labels: Seq<LabelsModel>|
            {
                &&& #[trigger] all_labels_of(records, shown, labels)
                &&& text == text_output(records, sources, all_patterns, labels)
            };
        assert(text == text_output(records, sources, all_patterns, labels));
    }
    assert forall|labels: Seq<LabelsModel>|
        {
            &&& labels.len() == shown.len()
            &&& forall|k: int|
                0 <= k < labels.len() ==> labels_of(records[shown[k]], #[trigger] labels[k])
            &&& text == #[trigger] text_output(records, sources, all_patterns, labels)
        } implies is_text_report(records, sources, all_patterns, text) by {
        assert(all_labels_of(records, shown, labels));
    }
}

/// A record comes from the first source after which it existed, and from none
/// if it existed after no source.
pub proof fn law_source_of_a_record(sources: Seq<SourceModel>, record: nat, i: int)
    ensures
        has_source(sources, record) <==> exists|j: int|
            0 <= j < sources.len() && record < (#[trigger] sources[j]).diags_so_far,
        0 <= i < sources.len() && record < sources[i].diags_so_far && (forall|j: int|
            0 <= j < i ==> (#[trigger] sources[j]).diags_so_far <= record) ==> source_of(
            sources,
            record,
        ) == sources[i],
{
    if exists|j: int| 0 <= j < sources.len() && record < (#[trigger] sources[j]).diags_so_far {
        let j = choose|j: int|
            0 <= j < sources.len() && record < (#[trigger] sources[j]).diags_so_far;
        lemma_first_source(sources, record, j);
    }
    if 0 <= i < sources.len() && record < sources[i].diags_so_far && (forall|j: int|
        0 <= j < i ==> (#[trigger] sources[j]).diags_so_far <= record) {
        assert(first_after(sources, record, i));
        lemma_first_after_is_unique(sources, record, i);
    }
}

proof fn lemma_first_source(sources: Seq<SourceModel>, record: nat, j: int)
    requires
        0 <= j < sources.len(),
        record < sources[j].diags_so_far,
    ensures
        has_source(sources, record),
    decreases j,
{
    if forall|i: int| 0 <= i < j ==> (#[trigger] sources[i]).diags_so_far <= record {
        assert(first_after(sources, record, j));
    } else {
        let i = choose|i: int| 0 <= i < j && (#[trigger] sources[i]).diags_so_far > record;
        lemma_first_source(sources, record, i);
    }
}

/// A record can be shown exactly if a source gave it and its span, cut off at
/// the end of that source, is a part of the source that begins and ends
/// between characters.
pub proof fn law_what_can_be_shown(
    records: Seq<RecordModel>,
    sources: Seq<SourceModel>,
    shown: Seq<int>,
    i: int,
)
    requires
        0 <= i,
    ensures
        reportable(records, sources, i) <==> has_source(sources, i as nat) && ({
            let source = source_of(sources, i as nat);
            let bytes = encode_utf8(source.content);
            let end = text_end(records[i], source);
            &&& records[i].start <= end < usize::MAX
            &&& is_char_boundary(bytes, records[i].start as int)
            &&& is_char_boundary(bytes, end as int)
        }),
        all_reportable(records, sources, shown) <==> forall|k: int|
            0 <= k < shown.len() ==> 0 <= #[trigger] shown[k] < records.len() && reportable(
                records,
                sources,
                shown[k],
            ),
{
    let source = source_of(sources, i as nat);
    assert(shown_end(records[i], source) == text_end(records[i], source));
}

} // verus!
