use yara_diagnostics::diagnostics::{PatternDiagnostics, Span};
use yara_diagnostics::report::{paint_labels, text_report, CompiledSource, Labels};

// The switch for painting is one for the whole process, so this file has only
// one test.
#[test]
fn labels_are_painted_if_painting_is_enabled() {
    let slow = PatternDiagnostics::for_common_byte_repetition("my_rule", "$a", Span::new(0, 1));
    let mut healthy = slow.clone();
    healthy.slow_reason = None;
    let sources =
        [CompiledSource { path: "p".into(), content: "x".into(), diags_so_far: 1 }];

    yansi::disable();
    assert_eq!(
        paint_labels(&slow),
        Labels { rule: "my_rule".into(), ident: "$a".into(), status: "SLOW".into() }
    );
    assert_eq!(paint_labels(&healthy).status, "OK");
    assert!(text_report(&[slow.clone()], &sources, false)
        .starts_with("rule my_rule — $a is SLOW    p:1:1\n"));

    yansi::enable();
    assert_eq!(
        paint_labels(&slow),
        Labels {
            rule: "\x1B[1mmy_rule\x1B[0m".into(),
            ident: "\x1B[1m$a\x1B[0m".into(),
            status: "\x1B[1;31mSLOW\x1B[0m".into(),
        }
    );
    assert_eq!(paint_labels(&healthy).status, "\x1B[36mOK\x1B[0m");
    assert!(text_report(&[slow], &sources, false).starts_with(
        "rule \x1B[1mmy_rule\x1B[0m — \x1B[1m$a\x1B[0m is \x1B[1;31mSLOW\x1B[0m    p:1:1\n"
    ));
}
