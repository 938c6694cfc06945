//! The JSON form of the report about slow patterns, and the choice between the
//! two forms.
use crate::culprit::{Culprit, CulpritModel};
#[allow(unused_imports)]
use crate::culprit::culprit_models;
use crate::diagnostics::{AtomStats, PatternDiagnostics, RecordModel, StatsModel};
#[allow(unused_imports)]
use crate::diagnostics::{byte_strings, records};
use crate::json::{
    json_bool, json_list, json_null, json_number, json_object, json_text, no_fields, set_field,
    to_pretty_string, JsonModel,
};
#[allow(unused_imports)]
use crate::json::{json_model, json_models, pretty_text, without_fields};
use crate::report::{
    culprit_suggestion, culprit_text, file_for, reason_suggestion, select, shown_end_of,
    text_report, verdict, CompiledSource, SourceModel,
};
#[allow(unused_imports)]
use crate::report::{
    all_reportable, culprit_detail, culprit_fix, indices, reason_fix, reportable,
    is_text_report, selected, shown_source, source_models, source_of, span_fits, verdict_text,
};
use crate::text::{cut, line_col, push_decimal, push_escaped};
#[allow(unused_imports)]
use crate::text::{bytes_before, column_after, decimal, escaped, line_after};
use serde_json::Value;
use vstd::prelude::*;

verus! {

/// A sample atom in JSON: its bytes, escaped.
pub open spec fn sample_json(sample: Seq<u8>) -> JsonModel {
    JsonModel::Text(escaped(sample))
}

/// The statistics of a record in JSON.
pub open spec fn stats_json(stats: Option<StatsModel>) -> JsonModel {
    match stats {
        Some(stats) => JsonModel::Object(
            without_fields().insert("count"@, JsonModel::Number(stats.count)).insert(
                "min_len"@,
                JsonModel::Number(stats.min_len),
            ).insert("max_len"@, JsonModel::Number(stats.max_len)).insert(
                "exact"@,
                JsonModel::Number(stats.exact_count),
            ).insert(
                "samples"@,
                JsonModel::List(stats.samples.map_values(|sample: Seq<u8>| sample_json(sample))),
            ),
        ),
        None => JsonModel::Null,
    }
}

/// A culprit in JSON.
pub open spec fn culprit_json(culprit: CulpritModel) -> JsonModel {
    JsonModel::Object(
        without_fields().insert("detail"@, JsonModel::Text(culprit_detail(culprit))).insert(
            "suggestion"@,
            JsonModel::Text(culprit_fix(culprit)),
        ),
    )
}

/// A record in JSON.
pub open spec fn entry_json(record: RecordModel, source: SourceModel) -> JsonModel {
    let before = bytes_before(source.content, record.start);
    JsonModel::Object(
        without_fields().insert("rule"@, JsonModel::Text(record.rule_name)).insert(
            "pattern"@,
            JsonModel::Text(record.pattern_ident),
        ).insert("file"@, JsonModel::Text(source.path)).insert(
            "line"@,
            JsonModel::Number(line_after(before)),
        ).insert("column"@, JsonModel::Number(column_after(before))).insert(
            "source"@,
            JsonModel::Text(shown_source(record, source)),
        ).insert("slow"@, JsonModel::Bool(record.slow_reason is Some)).insert(
            "verdict"@,
            JsonModel::Text(verdict_text(record.slow_reason)),
        ).insert("atoms"@, stats_json(record.atom_stats)).insert(
            "culprits"@,
            JsonModel::List(
                record.culprits.map_values(|culprit: CulpritModel| culprit_json(culprit)),
            ),
        ).insert(
            "suggestion"@,
            match record.slow_reason {
                Some(reason) => JsonModel::Text(reason_fix(reason)),
                None => JsonModel::Null,
            },
        ),
    )
}

/// The JSON form of a report: the shown records, in order.
pub open spec fn report_json(
    records: Seq<RecordModel>,
    sources: Seq<SourceModel>,
    all_patterns: bool,
) -> JsonModel {
    JsonModel::List(
        selected(records, all_patterns).map_values(
            |i: int| entry_json(records[i], source_of(sources, i as nat)),
        ),
    )
}

/// Returns the sample atoms in JSON.
fn samples_value(samples: &Vec<Vec<u8>>) -> (value: Value)
    ensures
        json_model(value) == JsonModel::List(
            byte_strings(samples@).map_values(|sample: Seq<u8>| sample_json(sample)),
        ),
{
    let mut values: Vec<Value> = Vec::new();
    let mut i: usize = 0;
    while i < samples.len()
        invariant
            i <= samples@.len(),
            values@.len() == i,
            forall|j: int|
                0 <= j < i ==> json_model(#[trigger] values@[j]) == sample_json(samples@[j]@),
        decreases samples@.len() - i,
    {
        let mut text = String::new();
        push_escaped(&mut text, samples[i].as_slice());
        assert(text@ =~= escaped(samples@[i as int]@));
        values.push(json_text(text.as_str()));
        i += 1;
    }
    assert(json_models(values@) =~= byte_strings(samples@).map_values(
        |sample: Seq<u8>| sample_json(sample),
    ));
    json_list(values)
}

/// Returns the statistics of a record in JSON.
pub fn stats_value(stats: &Option<AtomStats>) -> (value: Value)
    ensures
        json_model(value) == stats_json(
            match *stats {
                Some(stats) => Some(stats@),
                None => None,
            },
        ),
{
    match stats {
        Some(stats) => {
            let mut fields = no_fields();
            set_field(&mut fields, "count", json_number(stats.count));
            set_field(&mut fields, "min_len", json_number(stats.min_len));
            set_field(&mut fields, "max_len", json_number(stats.max_len));
            set_field(&mut fields, "exact", json_number(stats.exact_count));
            set_field(&mut fields, "samples", samples_value(&stats.samples));
            json_object(fields)
        },
        None => json_null(),
    }
}

/// Returns the culprits of a record in JSON.
pub fn culprits_value(culprits: &Vec<Culprit>) -> (value: Value)
    ensures
        json_model(value) == JsonModel::List(
            culprit_models(culprits@).map_values(|culprit: CulpritModel| culprit_json(culprit)),
        ),
{
    let mut values: Vec<Value> = Vec::new();
    let mut i: usize = 0;
    while i < culprits.len()
        invariant
            i <= culprits@.len(),
            values@.len() == i,
            forall|j: int|
                0 <= j < i ==> json_model(#[trigger] values@[j]) == culprit_json(culprits@[j]@),
        decreases culprits@.len() - i,
    {
        let c = &culprits[i];
        let mut fields = no_fields();
        set_field(&mut fields, "detail", json_text(culprit_text(c).as_str()));
        set_field(&mut fields, "suggestion", json_text(culprit_suggestion(c)));
        values.push(json_object(fields));
        i += 1;
    }
    assert(json_models(values@) =~= culprit_models(culprits@).map_values(
        |culprit: CulpritModel| culprit_json(culprit),
    ));
    json_list(values)
}

/// Returns a record in JSON.
pub fn entry_value(d: &PatternDiagnostics, source: &CompiledSource) -> (value: Value)
    requires
        span_fits(d@, source@),
    ensures
        json_model(value) == entry_json(d@, source@),
{
    let content = source.content.as_str();
    let start = d.span.start();
    let end = shown_end_of(d, source);
    let (line, column) = line_col(content, start);
    let mut fields = no_fields();
    set_field(&mut fields, "rule", json_text(d.rule_name.as_str()));
    set_field(&mut fields, "pattern", json_text(d.pattern_ident.as_str()));
    set_field(&mut fields, "file", json_text(source.path.as_str()));
    set_field(&mut fields, "line", json_number(line));
    set_field(&mut fields, "column", json_number(column));
    set_field(&mut fields, "source", json_text(cut(content, start, end)));
    set_field(&mut fields, "slow", json_bool(d.slow_reason.is_some()));
    set_field(&mut fields, "verdict", json_text(verdict(d).as_str()));
    set_field(&mut fields, "atoms", stats_value(&d.atom_stats));
    set_field(&mut fields, "culprits", culprits_value(&d.culprits));
    set_field(
        &mut fields,
        "suggestion",
        match &d.slow_reason {
            Some(reason) => json_text(reason_suggestion(reason)),
            None => json_null(),
        },
    );
    json_object(fields)
}

/// Returns the report about all patterns, or about the slow ones only, as a
/// JSON value.
pub fn report_value(
    diags: &[PatternDiagnostics],
    sources: &[CompiledSource],
    all_patterns: bool,
) -> (value: Value)
    requires
        all_reportable(
            records(diags@),
            source_models(sources@),
            selected(records(diags@), all_patterns),
        ),
    ensures
        json_model(value) == report_json(records(diags@), source_models(sources@), all_patterns),
{
    let ghost all = records(diags@);
    let ghost files = source_models(sources@);
    let shown = select(diags, all_patterns);
    let ghost list = indices(shown@);
    let mut values: Vec<Value> = Vec::new();
    let mut k: usize = 0;
    while k < shown.len()
        invariant
            k <= shown@.len(),
            all == records(diags@),
            files == source_models(sources@),
            list == indices(shown@),
            all_reportable(all, files, list),
            values@.len() == k,
            forall|j: int|
                0 <= j < k ==> json_model(#[trigger] values@[j]) == entry_json(
                    all[list[j]],
                    source_of(files, list[j] as nat),
                ),
        decreases shown@.len() - k,
    {
        let i: usize = shown[k];
        proof {
            assert(list[k as int] == i);
            assert(reportable(all, files, i as int));
            assert(all[i as int] == diags@[i as int]@);
        }
        if let Some(source) = file_for(sources, i) {
            values.push(entry_value(&diags[i], source));
        }
        k += 1;
    }
    assert(json_models(values@) =~= list.map_values(
        |i: int| entry_json(all[i], source_of(files, i as nat)),
    ));
    json_list(values)
}

/// Returns the JSON form of a report about all patterns, or about the slow
/// ones only.
pub fn json_report(
    diags: &[PatternDiagnostics],
    sources: &[CompiledSource],
    all_patterns: bool,
) -> (text: String)
    requires
        all_reportable(
            records(diags@),
            source_models(sources@),
            selected(records(diags@), all_patterns),
        ),
    ensures
        text@ == pretty_text(
            report_json(records(diags@), source_models(sources@), all_patterns),
        ) + "\n"@,
{
    let mut text = to_pretty_string(&report_value(diags, sources, all_patterns));
    text.append("\n");
    text
}

/// Decides what diagnosing the rules prints, given the number of errors that
/// compiling them gave. With errors there is no report, only the message that
/// says how many there were.
pub fn diagnose_output(
    errors: usize,
    diags: &[PatternDiagnostics],
    sources: &[CompiledSource],
    all_patterns: bool,
    json_output: bool,
) -> (output: Result<String, String>)
    requires
        errors == 0 ==> all_reportable(
            records(diags@),
            source_models(sources@),
            selected(records(diags@), all_patterns),
        ),
    ensures
        output is Ok <==> errors == 0,
        output matches Err(message) ==> message@ == decimal(errors as nat) + " error(s) found"@,
        output matches Ok(text) ==> if json_output {
            text@ == pretty_text(
                report_json(records(diags@), source_models(sources@), all_patterns),
            ) + "\n"@
        } else {
            is_text_report(records(diags@), source_models(sources@), all_patterns, text@)
        },
{
    if errors > 0 {
        let mut message = String::new();
        push_decimal(&mut message, errors);
        message.append(" error(s) found");
        assert(message@ =~= decimal(errors as nat) + " error(s) found"@);
        return Err(message);
    }
    if json_output {
        Ok(json_report(diags, sources, all_patterns))
    } else {
        Ok(text_report(diags, sources, all_patterns))
    }
}

} // verus!
