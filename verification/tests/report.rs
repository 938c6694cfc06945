use regex_syntax::hir::Hir;
use serde_json::Value;
use yara_diagnostics::culprit::Culprit;
use yara_diagnostics::diagnostics::{
    Atom, AtomStats, DiagnosticsRecorder, PatternDiagnostics, SlowReason, Span,
};
use yara_diagnostics::json_report::{
    culprits_value, diagnose_output, entry_value, json_report, report_value, stats_value,
};
use yara_diagnostics::report::{
    atoms_line, can_report, count_slow, culprit_suggestion, culprit_text, file_for, push_block,
    reason_suggestion, select, summary, text_blocks, text_report, verdict, CompiledSource, Labels,
};
use yara_diagnostics::text::{cut, line_col, push_decimal, push_escaped};

fn hir(pattern: &str) -> Hir {
    regex_syntax::ParserBuilder::new()
        .utf8(false)
        .unicode(false)
        .build()
        .parse(pattern)
        .unwrap()
}

/// The text without ANSI codes.
fn plain(text: &str) -> String {
    let mut out = String::new();
    let mut code = false;
    for c in text.chars() {
        match c {
            '\x1B' => code = true,
            'm' if code => code = false,
            _ if code => {}
            _ => out.push(c),
        }
    }
    out
}

/// What compiling `rule slow_rule` records.
fn slow_rule() -> (Vec<PatternDiagnostics>, Vec<CompiledSource>) {
    let content = r#"rule slow_rule { strings: $a = /[A-Za-z]{2,}/ condition: $a }"#;
    let letters: Vec<u8> = (b'A'..=b'Z').chain(b'a'..=b'z').collect();
    let mut atoms = vec![];
    for a in &letters {
        for b in &letters {
            atoms.push(Atom { bytes: vec![*a, *b], exact: false });
        }
    }
    compiled("slow_rule", content, "/[A-Za-z]{2,}/", &atoms, "[A-Za-z]{2,}")
}

/// What compiling `rule ok_rule` records.
fn ok_rule() -> (Vec<PatternDiagnostics>, Vec<CompiledSource>) {
    let content = r#"rule ok_rule { strings: $a = /abcd[0-9]efgh/ condition: $a }"#;
    let atoms = [Atom { bytes: b"abcd".to_vec(), exact: false }];
    compiled("ok_rule", content, "/abcd[0-9]efgh/", &atoms, "abcd[0-9]efgh")
}

fn compiled(
    rule: &str,
    content: &str,
    pattern: &str,
    atoms: &[Atom],
    regexp: &str,
) -> (Vec<PatternDiagnostics>, Vec<CompiledSource>) {
    let start = content.find(pattern).unwrap();
    let mut recorder = DiagnosticsRecorder::new();
    recorder.collect_pattern_diagnostics(true);
    recorder.record_pattern_diagnostics(
        rule,
        "$a",
        Span::new(start as u32, (start + pattern.len()) as u32),
        atoms,
        &hir(regexp),
    );
    let diags = recorder.pattern_diagnostics().to_vec();
    let sources = vec![CompiledSource {
        path: "rules.yar".into(),
        content: content.into(),
        diags_so_far: diags.len(),
    }];
    (diags, sources)
}

#[test]
fn diagnose_reports_slow_pattern() {
    let (diags, sources) = slow_rule();
    assert!(can_report(&diags, &sources, false));
    let out = diagnose_output(0, &diags, &sources, false, false).unwrap();
    assert!(out.contains("slow_rule"));
    assert!(out.contains("$a"));
    assert!(out.contains("SLOW"));
    assert!(out.contains("2704 atoms"));
    assert!(out.contains("suggest"));
}

#[test]
fn diagnose_quiet_on_healthy_rules() {
    let (diags, sources) = ok_rule();
    assert!(can_report(&diags, &sources, false));
    let out = diagnose_output(0, &diags, &sources, false, false).unwrap();
    assert!(!out.contains("SLOW"));
    assert!(out.contains("0 slow pattern(s)"));
    assert_eq!(out, "0 slow pattern(s) found, 1 pattern(s) analyzed\n");
}

#[test]
fn diagnose_all_patterns_includes_healthy() {
    let (diags, sources) = ok_rule();
    assert!(can_report(&diags, &sources, true));
    let out = diagnose_output(0, &diags, &sources, true, false).unwrap();
    assert!(out.contains("ok_rule"));
    assert!(out.contains("$a"));
}

#[test]
fn diagnose_fails_on_compile_error() {
    // Compiling `rule broken {` gives one error and no records.
    let sources = vec![CompiledSource {
        path: "rules.yar".into(),
        content: "rule broken {".into(),
        diags_so_far: 0,
    }];
    assert_eq!(
        diagnose_output(1, &[], &sources, false, false),
        Err("1 error(s) found".to_string())
    );
    assert_eq!(
        diagnose_output(12, &[], &sources, true, true),
        Err("12 error(s) found".to_string())
    );
}

#[test]
fn diagnose_json_output() {
    let (diags, sources) = slow_rule();
    assert!(can_report(&diags, &sources, false));
    let output = diagnose_output(0, &diags, &sources, false, true).unwrap();
    let parsed: Value = serde_json::from_str(&output).expect("output is valid JSON");
    let entries = parsed.as_array().unwrap();
    assert_eq!(entries.len(), 1);
    assert_eq!(entries[0]["rule"], "slow_rule");
    assert_eq!(entries[0]["pattern"], "$a");
    assert_eq!(entries[0]["slow"], true);
    assert_eq!(entries[0]["atoms"]["count"], 2704);
}

#[test]
fn text_of_a_slow_pattern() {
    let (diags, sources) = slow_rule();
    assert_eq!(
        plain(&text_report(&diags, &sources, false)),
        "rule slow_rule — $a is SLOW    rules.yar:1:32\n\
         \x20 pattern : /[A-Za-z]{2,}/\n\
         \x20 verdict : 2704 atoms extracted, all only 2 bytes long\n\
         \x20 atoms   : count=2704, len min=2 max=2, exact=0   sample: \"AA\" \"AB\" \"AC\" \
         \"AD\" \"AE\" \"AF\" \"AG\" \"AH\" …\n\
         \x20 culprit : `(?-u:[A-Za-z]){2,}` — unbounded repetition at the start of the pattern \
         prevents atom anchoring\n\
         \x20 suggest : remove the leading repetition; YARA patterns are unanchored, so a \
         leading `.*` adds nothing and hurts atom extraction\n\
         \x20 culprit : `(?-u:[A-Za-z]){2,}` — repetition (min 2) of a 52-element class forces \
         every combination to become an atom\n\
         \x20 suggest : add at least 4 fixed bytes next to the class repetition, or narrow \
         the character class\n\
         \n\
         1 slow pattern(s) found, 1 pattern(s) analyzed\n"
    );
}

#[test]
fn text_of_a_healthy_pattern() {
    let (diags, sources) = ok_rule();
    assert_eq!(
        plain(&text_report(&diags, &sources, true)),
        "rule ok_rule — $a is OK    rules.yar:1:30\n\
         \x20 pattern : /abcd[0-9]efgh/\n\
         \x20 verdict : no slowness detected\n\
         \x20 atoms   : count=1, len min=4 max=4, exact=0   sample: \"abcd\"\n\
         \n\
         0 slow pattern(s) found, 1 pattern(s) analyzed\n"
    );
}

#[test]
fn json_of_a_slow_pattern() {
    let (diags, sources) = slow_rule();
    let entry = entry_value(&diags[0], &sources[0]);
    let fields = entry.as_object().unwrap();
    let names: Vec<&String> = fields.keys().collect();
    assert_eq!(
        names,
        vec![
            "atoms", "column", "culprits", "file", "line", "pattern", "rule", "slow", "source",
            "suggestion", "verdict"
        ]
    );
    assert_eq!(entry["file"], "rules.yar");
    assert_eq!(entry["line"], 1);
    assert_eq!(entry["column"], 32);
    assert_eq!(entry["source"], "/[A-Za-z]{2,}/");
    assert_eq!(entry["verdict"], "2704 atoms extracted, all only 2 bytes long");
    assert_eq!(entry["atoms"]["min_len"], 2);
    assert_eq!(entry["atoms"]["max_len"], 2);
    assert_eq!(entry["atoms"]["exact"], 0);
    assert_eq!(entry["atoms"]["samples"][7], "AH");
    assert_eq!(entry["atoms"]["samples"].as_array().unwrap().len(), 8);
    assert_eq!(entry["culprits"].as_array().unwrap().len(), 2);
    assert_eq!(
        entry["culprits"][1]["detail"],
        "`(?-u:[A-Za-z]){2,}` — repetition (min 2) of a 52-element class forces every combination to \
         become an atom"
    );
    assert_eq!(
        entry["culprits"][1]["suggestion"],
        "add at least 4 fixed bytes next to the class repetition, or narrow the character class"
    );
    assert_eq!(
        entry["suggestion"],
        "raise the minimum repetition count or add a fixed prefix/suffix so longer atoms can be \
         extracted"
    );
}

#[test]
fn json_of_healthy_and_common_byte_patterns() {
    let (diags, sources) = ok_rule();
    assert_eq!(report_value(&diags, &sources, false), Value::Array(vec![]));
    assert_eq!(json_report(&diags, &sources, false), "[]\n");
    let entry = entry_value(&diags[0], &sources[0]);
    assert_eq!(entry["slow"], false);
    assert_eq!(entry["suggestion"], Value::Null);
    assert_eq!(entry["culprits"], Value::Array(vec![]));

    let common = PatternDiagnostics::for_common_byte_repetition("r", "$a", Span::new(0, 4));
    let entry = entry_value(&common, &sources[0]);
    assert_eq!(entry["atoms"], Value::Null);
    assert_eq!(entry["source"], "rule");
    assert_eq!(stats_value(&None), Value::Null);
    assert_eq!(culprits_value(&vec![]), Value::Array(vec![]));
}

#[test]
fn json_is_pretty_printed() {
    let culprits = vec![Culprit::ShortFixedRegion { len: 1 }];
    let d = PatternDiagnostics::for_pattern("r", "$a", Span::new(0, 1), &[], culprits);
    let sources = [CompiledSource { path: "p".into(), content: "x".into(), diags_so_far: 1 }];
    assert_eq!(
        json_report(&[d], &sources, false),
        r#"[
  {
    "atoms": {
      "count": 0,
      "exact": 0,
      "max_len": 0,
      "min_len": 0,
      "samples": []
    },
    "column": 1,
    "culprits": [
      {
        "detail": "a fixed region of only 1 byte(s) sits next to an arbitrary gap",
        "suggestion": "extend the fixed bytes around the gap to at least 4 bytes, or split the pattern in two and combine them in the condition"
      }
    ],
    "file": "p",
    "line": 1,
    "pattern": "$a",
    "rule": "r",
    "slow": true,
    "source": "x",
    "suggestion": "add at least 4 consecutive fixed bytes (outside any class, alternation or repetition) anywhere in the pattern",
    "verdict": "no atoms could be extracted; the pattern must be verified at every byte of the scanned data"
  }
]
"#
    );
}

fn record(reason: Option<SlowReason>) -> PatternDiagnostics {
    PatternDiagnostics {
        rule_name: "r".into(),
        pattern_ident: "$a".into(),
        span: Span::new(0, 0),
        slow_reason: reason,
        atom_stats: None,
        culprits: vec![],
    }
}

#[test]
fn verdicts() {
    assert_eq!(
        verdict(&record(Some(SlowReason::NoAtoms))),
        "no atoms could be extracted; the pattern must be verified at every byte of the scanned \
         data"
    );
    assert_eq!(
        verdict(&record(Some(SlowReason::ZeroLengthAtom))),
        "a zero-length atom was extracted; this is an exceptionally extreme case that may \
         severely degrade scanning throughput"
    );
    assert_eq!(
        verdict(&record(Some(SlowReason::SingleShortAtom { len: 1 }))),
        "the only extracted atom is just 1 byte(s) long"
    );
    assert_eq!(
        verdict(&record(Some(SlowReason::MinAtomTooShort { min: 0, count: 10 }))),
        "10 atoms extracted, the shortest is only 0 byte(s) long"
    );
    assert_eq!(
        verdict(&record(Some(SlowReason::TooManyShortAtoms { count: 2701 }))),
        "2701 atoms extracted, all only 2 bytes long"
    );
    assert_eq!(
        verdict(&record(Some(SlowReason::CommonByteRepetition))),
        "the pattern is a repetition of a very common byte, which appears in huge runs in many \
         files"
    );
    assert_eq!(verdict(&record(None)), "no slowness detected");
}

#[test]
fn culprit_texts_and_suggestions() {
    let leading = Culprit::UnboundedRepetitionAtEdge { leading: true, expr: ".*".into() };
    assert_eq!(
        culprit_text(&leading),
        "`.*` — unbounded repetition at the start of the pattern prevents atom anchoring"
    );
    assert_eq!(
        culprit_suggestion(&leading),
        "remove the leading repetition; YARA patterns are unanchored, so a leading `.*` adds \
         nothing and hurts atom extraction"
    );
    let trailing = Culprit::UnboundedRepetitionAtEdge { leading: false, expr: "a+".into() };
    assert_eq!(
        culprit_text(&trailing),
        "`a+` — unbounded repetition at the end of the pattern prevents atom anchoring"
    );
    assert_eq!(
        culprit_suggestion(&trailing),
        "remove the trailing repetition or bound it (e.g. `{0,N}`)"
    );
    let class = Culprit::LargeClassRepetition {
        class_size: 26,
        min_rep: u32::MAX,
        expr: "[a-z]{2}".into(),
    };
    assert_eq!(
        culprit_text(&class),
        "`[a-z]{2}` — repetition (min 4294967295) of a 26-element class forces every combination \
         to become an atom"
    );
    let branch = Culprit::ShortAlternationBranch { min_branch_len: 3, expr: "abc|defg".into() };
    assert_eq!(
        culprit_text(&branch),
        "`abc|defg` — the shortest alternation branch is only 3 byte(s), capping the atom length"
    );
    assert_eq!(
        culprit_suggestion(&branch),
        "make every alternation branch at least 4 bytes long, or move the alternation away from \
         the only fixed part of the pattern"
    );
    let nested = Culprit::NestedUnboundedRepetition { expr: "(?:a+)*".into() };
    assert_eq!(
        culprit_text(&nested),
        "`(?:a+)*` — nested unbounded repetitions produce no usable atoms"
    );
    assert_eq!(
        culprit_suggestion(&nested),
        r"flatten nested repetitions (e.g. replace `(\w+)*` with `\w*`)"
    );
    let region = Culprit::ShortFixedRegion { len: 2 };
    assert_eq!(
        culprit_text(&region),
        "a fixed region of only 2 byte(s) sits next to an arbitrary gap"
    );
}

#[test]
fn reason_suggestions() {
    assert_eq!(
        reason_suggestion(&SlowReason::CommonByteRepetition),
        "anchor the pattern to nearby distinctive bytes, use a fixed offset (e.g. `$a at 0`), or \
         add xor/fullword/base64 modifiers if applicable"
    );
    assert_eq!(
        reason_suggestion(&SlowReason::TooManyShortAtoms { count: 1 }),
        "raise the minimum repetition count or add a fixed prefix/suffix so longer atoms can be \
         extracted"
    );
    for reason in [
        SlowReason::NoAtoms,
        SlowReason::ZeroLengthAtom,
        SlowReason::SingleShortAtom { len: 1 },
        SlowReason::MinAtomTooShort { min: 1, count: 2 },
    ] {
        assert_eq!(
            reason_suggestion(&reason),
            "add at least 4 consecutive fixed bytes (outside any class, alternation or \
             repetition) anywhere in the pattern"
        );
    }
}

#[test]
fn atoms_lines() {
    let stats = AtomStats {
        count: 2,
        min_len: 0,
        max_len: 14,
        exact_count: 1,
        samples: vec![vec![], b"a\"'\\\t\r\n\x00\x7f\xff ~\x1f".to_vec()],
    };
    assert_eq!(
        atoms_line(&stats),
        r#"count=2, len min=0 max=14, exact=1   sample: "" "a\"\'\\\t\r\n\x00\x7f\xff ~\x1f""#
    );
    let none = AtomStats { count: 0, min_len: 0, max_len: 0, exact_count: 0, samples: vec![] };
    assert_eq!(atoms_line(&none), "count=0, len min=0 max=0, exact=0   sample: ");
    let many = AtomStats {
        count: 2704,
        min_len: 2,
        max_len: 2,
        exact_count: 0,
        samples: vec![b"AA".to_vec(), b"AB".to_vec(), b"AC".to_vec()],
    };
    assert_eq!(
        atoms_line(&many),
        "count=2704, len min=2 max=2, exact=0   sample: \"AA\" \"AB\" \"AC\" …"
    );
}

#[test]
fn bytes_are_escaped_as_std_escapes_them() {
    for b in 0..=255u8 {
        let bytes = [b, b'x', b];
        let mut out = String::from(">");
        push_escaped(&mut out, &bytes);
        assert_eq!(out, format!(">{}", bytes.escape_ascii()));
    }
}

#[test]
fn numbers_are_written_in_decimal() {
    for n in [0, 9, 10, 99, 100, 2704, 1_000_000, usize::MAX] {
        let mut out = String::new();
        push_decimal(&mut out, n);
        assert_eq!(out, n.to_string());
    }
}

#[test]
fn positions() {
    let content = "ab\ncd\n\nέf";
    assert_eq!(line_col(content, 0), (1, 1));
    assert_eq!(line_col(content, 2), (1, 3));
    assert_eq!(line_col(content, 3), (2, 1));
    assert_eq!(line_col(content, 5), (2, 3));
    assert_eq!(line_col(content, 6), (3, 1));
    assert_eq!(line_col(content, 7), (4, 1));
    // Columns count bytes.
    assert_eq!(line_col(content, 9), (4, 3));
    assert_eq!(line_col(content, 10), (4, 4));
    // Beyond the end is the end.
    assert_eq!(line_col(content, 11), (4, 4));
    assert_eq!(line_col(content, usize::MAX), (4, 4));
    assert_eq!(line_col("", 5), (1, 1));
    assert_eq!(cut(content, 3, 9), "cd\n\nέ");
    assert_eq!(cut(content, 9, 9), "");
    assert_eq!(cut(content, 0, 10), content);
}

fn source(path: &str, content: &str, diags_so_far: usize) -> CompiledSource {
    CompiledSource { path: path.into(), content: content.into(), diags_so_far }
}

#[test]
fn records_map_to_files() {
    let sources =
        [source("none", "", 0), source("two", "", 2), source("same", "", 2), source("one", "", 3)];
    let path = |i: usize| file_for(&sources, i).map(|s| s.path.clone());
    assert_eq!(path(0), Some("two".into()));
    assert_eq!(path(1), Some("two".into()));
    assert_eq!(path(2), Some("one".into()));
    assert_eq!(path(3), None);
    assert!(file_for(&[], 0).is_none());
}

#[test]
fn selection_and_counts() {
    let diags = [
        record(None),
        record(Some(SlowReason::NoAtoms)),
        record(None),
        record(Some(SlowReason::CommonByteRepetition)),
    ];
    assert_eq!(select(&diags, false), vec![1, 3]);
    assert_eq!(select(&diags, true), vec![0, 1, 2, 3]);
    assert_eq!(count_slow(&diags), 2);
    assert_eq!(summary(&diags), "2 slow pattern(s) found, 4 pattern(s) analyzed");
    assert_eq!(select(&[], true), Vec::<usize>::new());
    assert_eq!(summary(&[]), "0 slow pattern(s) found, 0 pattern(s) analyzed");
}

#[test]
fn blocks_come_in_order_with_their_files() {
    let mut first = record(Some(SlowReason::NoAtoms));
    first.span = Span::new(2, 4);
    let mut second = record(Some(SlowReason::CommonByteRepetition));
    second.rule_name = "s".into();
    second.span = Span::new(0, 900);
    let sources = [source("one", "a\nbc", 1), source("two", "xyz", 2)];
    let labels = [
        Labels { rule: "R".into(), ident: "I".into(), status: "S".into() },
        Labels { rule: "R2".into(), ident: "I2".into(), status: "S2".into() },
    ];
    let diags = [first, second];
    assert!(can_report(&diags, &sources, false));
    let text = text_blocks(&diags, &sources, &[0, 1], &labels);
    assert!(text.starts_with("rule R — I is S    one:2:1\n  pattern : bc\n  verdict : no atoms"));
    assert!(text.contains("\n\nrule R2 — I2 is S2    two:1:1\n  pattern : xyz\n"));
    let mut out = String::from("> ");
    push_block(&mut out, &diags[1], &sources[1], &labels[1]);
    assert_eq!(
        out,
        "> rule R2 — I2 is S2    two:1:1\n\
         \x20 pattern : xyz\n\
         \x20 verdict : the pattern is a repetition of a very common byte, which appears in \
         huge runs in many files\n\
         \x20 suggest : anchor the pattern to nearby distinctive bytes, use a fixed offset \
         (e.g. `$a at 0`), or add xor/fullword/base64 modifiers if applicable\n\
         \n"
    );
}

#[test]
fn what_cannot_be_reported() {
    let with_span = |start, end| {
        let mut d = record(Some(SlowReason::NoAtoms));
        d.span = Span::new(start, end);
        [d]
    };
    let sources = [source("p", "aέb", 1)];
    assert!(can_report(&with_span(0, 4), &sources, false));
    assert!(can_report(&with_span(1, 3), &sources, false));
    assert!(can_report(&with_span(4, 9), &sources, false));
    // No source.
    assert!(!can_report(&with_span(0, 4), &[], false));
    assert!(!can_report(&with_span(0, 4), &[source("p", "aέb", 0)], false));
    // Within a character.
    assert!(!can_report(&with_span(2, 4), &sources, false));
    assert!(!can_report(&with_span(0, 2), &sources, false));
    // Starts beyond its end, or beyond the end of the source.
    assert!(!can_report(&with_span(3, 1), &sources, false));
    assert!(!can_report(&with_span(5, 9), &sources, false));
    // What is not shown need not be found.
    let healthy = [record(None)];
    assert!(can_report(&healthy, &[], false));
    assert!(!can_report(&healthy, &[], true));
}
