use regex_syntax::hir::Hir;
use yara_diagnostics::culprit::Culprit;
use yara_diagnostics::diagnostics::{
    Atom, AtomStats, DiagnosticsRecorder, PatternDiagnostics, SlowReason, Span, MAX_SAMPLE_ATOMS,
};

fn hir(pattern: &str) -> Hir {
    regex_syntax::ParserBuilder::new()
        .utf8(false)
        .unicode(false)
        .build()
        .parse(pattern)
        .unwrap()
}

/// The atoms of `[A-Za-z]{2,}`: every pair of letters.
fn letter_pairs() -> Vec<Atom> {
    let letters: Vec<u8> = (b'A'..=b'Z').chain(b'a'..=b'z').collect();
    let mut atoms = vec![];
    for a in &letters {
        for b in &letters {
            atoms.push(Atom { bytes: vec![*a, *b], exact: false });
        }
    }
    atoms
}

/// The span of `pattern` in `src`.
fn span_of(src: &str, pattern: &str) -> Span {
    let start = src.find(pattern).unwrap();
    Span::new(start as u32, (start + pattern.len()) as u32)
}

fn recorder() -> DiagnosticsRecorder {
    let mut recorder = DiagnosticsRecorder::new();
    recorder.collect_pattern_diagnostics(true);
    recorder
}

#[test]
fn records_slow_regexp() {
    let src = r#"rule test { strings: $a = /[A-Za-z]{2,}/ condition: $a }"#;
    let mut recorder = recorder();
    recorder.record_pattern_diagnostics(
        "test",
        "$a",
        span_of(src, "$a = /[A-Za-z]{2,}/"),
        &letter_pairs(),
        &hir("[A-Za-z]{2,}"),
    );
    let diags = recorder.pattern_diagnostics();
    assert_eq!(diags.len(), 1);
    let d = &diags[0];
    assert_eq!(d.rule_name, "test");
    assert_eq!(d.pattern_ident, "$a");
    assert_eq!(
        d.slow_reason,
        Some(SlowReason::TooManyShortAtoms { count: 2704 })
    );
    let stats = d.atom_stats.as_ref().unwrap();
    assert_eq!(stats.count, 2704);
    assert_eq!(stats.min_len, 2);
    assert_eq!(stats.max_len, 2);
    assert_eq!(stats.samples.len(), MAX_SAMPLE_ATOMS);
    assert!(d.culprits.iter().any(|c| matches!(
        c,
        Culprit::LargeClassRepetition { class_size: 52, .. }
    )));
}

#[test]
fn records_healthy_regexp() {
    let src = r#"rule test { strings: $a = /abcdefgh/ condition: $a }"#;
    let mut recorder = recorder();
    recorder.record_pattern_diagnostics(
        "test",
        "$a",
        span_of(src, "$a = /abcdefgh/"),
        &[Atom { bytes: b"abcd".to_vec(), exact: false }],
        &hir("abcdefgh"),
    );
    let diags = recorder.pattern_diagnostics();
    assert_eq!(diags.len(), 1);
    assert_eq!(diags[0].slow_reason, None);
    assert!(diags[0].atom_stats.as_ref().unwrap().min_len >= 2);
}

#[test]
fn records_common_byte_repetition() {
    let src = r#"rule test { strings: $a = { 00 00 00 00 } condition: $a }"#;
    let span = span_of(src, "$a = { 00 00 00 00 }");
    let mut recorder = recorder();
    // One record from the common-byte-repetition check, plus one from the
    // regular compilation of the (hex) pattern.
    recorder.record_common_byte_repetition("test", "$a", span);
    recorder.record_pattern_diagnostics(
        "test",
        "$a",
        span,
        &[Atom { bytes: vec![0, 0, 0, 0], exact: true }],
        &hir(r"\x00\x00\x00\x00"),
    );
    let diags = recorder.pattern_diagnostics();
    assert_eq!(diags.len(), 2);
    let cbr: Vec<_> = diags
        .iter()
        .filter(|d| d.slow_reason == Some(SlowReason::CommonByteRepetition))
        .collect();
    assert_eq!(cbr.len(), 1);
    assert_eq!(cbr[0].rule_name, "test");
    assert_eq!(cbr[0].pattern_ident, "$a");
    assert!(cbr[0].atom_stats.is_none());
    assert!(cbr[0].culprits.is_empty());
}

#[test]
fn collection_disabled_by_default() {
    let src = r#"rule test { strings: $a = /[A-Za-z]{2,}/ condition: $a }"#;
    let span = span_of(src, "$a = /[A-Za-z]{2,}/");
    let mut recorder = DiagnosticsRecorder::new();
    recorder.record_pattern_diagnostics(
        "test",
        "$a",
        span,
        &letter_pairs(),
        &hir("[A-Za-z]{2,}"),
    );
    assert!(recorder.pattern_diagnostics().is_empty());
    recorder.record_common_byte_repetition("test", "$a", span);
    assert!(recorder.pattern_diagnostics().is_empty());
}

#[test]
fn slow_reason_from_atom_sizes() {
    assert_eq!(
        SlowReason::from_atom_sizes(&[]),
        Some(SlowReason::NoAtoms)
    );
    assert_eq!(
        SlowReason::from_atom_sizes(&[0]),
        Some(SlowReason::ZeroLengthAtom)
    );
    assert_eq!(
        SlowReason::from_atom_sizes(&[1]),
        Some(SlowReason::SingleShortAtom { len: 1 })
    );
    // A single atom of length >= 2 is fine.
    assert_eq!(SlowReason::from_atom_sizes(&[2]), None);
    // Multiple atoms, one shorter than 2 bytes.
    assert_eq!(
        SlowReason::from_atom_sizes(&[4, 1, 4]),
        Some(SlowReason::MinAtomTooShort { min: 1, count: 3 })
    );
    // A zero-length atom among others is MinAtomTooShort, not
    // ZeroLengthAtom (which requires it to be the only atom).
    assert_eq!(
        SlowReason::from_atom_sizes(&[0, 4]),
        Some(SlowReason::MinAtomTooShort { min: 0, count: 2 })
    );
    // 2701 atoms of exactly 2 bytes -> too many short atoms.
    assert_eq!(
        SlowReason::from_atom_sizes(&vec![2; 2701]),
        Some(SlowReason::TooManyShortAtoms { count: 2701 })
    );
    // 2700 atoms of 2 bytes is still acceptable.
    assert_eq!(SlowReason::from_atom_sizes(&vec![2; 2700]), None);
    // Mixed lengths with min >= 2 are fine regardless of count.
    assert_eq!(SlowReason::from_atom_sizes(&vec![3; 5000]), None);
}

#[test]
fn one_longer_atom_makes_many_short_ones_acceptable() {
    let mut sizes = vec![2; 2701];
    sizes.push(3);
    assert_eq!(SlowReason::from_atom_sizes(&sizes), None);
    sizes.push(1);
    assert_eq!(
        SlowReason::from_atom_sizes(&sizes),
        Some(SlowReason::MinAtomTooShort { min: 1, count: 2703 })
    );
}

#[test]
fn order_of_sizes_does_not_matter() {
    for sizes in [[5, 1, 9], [1, 5, 9], [9, 5, 1]] {
        assert_eq!(
            SlowReason::from_atom_sizes(&sizes),
            Some(SlowReason::MinAtomTooShort { min: 1, count: 3 })
        );
    }
}

#[test]
fn statistics_of_atoms() {
    let stats = AtomStats::from_atoms(&[]);
    assert_eq!(
        (stats.count, stats.min_len, stats.max_len, stats.exact_count),
        (0, 0, 0, 0)
    );
    assert!(stats.samples.is_empty());

    let atoms: Vec<Atom> = (0..10u8)
        .map(|i| Atom { bytes: vec![i; 3 + (i as usize + 5) % 10], exact: i % 3 == 0 })
        .collect();
    let stats = AtomStats::from_atoms(&atoms);
    assert_eq!(
        (stats.count, stats.min_len, stats.max_len, stats.exact_count),
        (10, 3, 12, 4)
    );
    let first: Vec<Vec<u8>> = atoms[..8].iter().map(|a| a.bytes.clone()).collect();
    assert_eq!(stats.samples, first);
}

#[test]
fn record_agrees_with_its_statistics() {
    let atoms = [
        Atom { bytes: vec![], exact: false },
        Atom { bytes: b"abc".to_vec(), exact: true },
    ];
    let d = PatternDiagnostics::for_pattern("r", "$x", Span::new(3, 9), &atoms, vec![]);
    let stats = d.atom_stats.as_ref().unwrap();
    assert_eq!(
        d.slow_reason,
        Some(SlowReason::MinAtomTooShort { min: stats.min_len, count: stats.count })
    );
    assert_eq!((stats.min_len, stats.count), (0, 2));
    assert_eq!((d.span.start(), d.span.end()), (3, 9));
}

#[test]
fn collection_can_be_switched_off_again() {
    let mut recorder = recorder();
    recorder.record_common_byte_repetition("r", "$a", Span::new(0, 1));
    recorder.collect_pattern_diagnostics(false);
    recorder.record_common_byte_repetition("r", "$b", Span::new(1, 2));
    let diags = recorder.pattern_diagnostics();
    assert_eq!(diags.len(), 1);
    assert_eq!(diags[0].pattern_ident, "$a");
    let common = PatternDiagnostics::for_common_byte_repetition("r", "$b", Span::new(1, 2));
    assert_eq!(common.slow_reason, Some(SlowReason::CommonByteRepetition));
}
