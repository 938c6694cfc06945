use yara_diagnostics::php::{
    classify_open_tag, contains_bytes, detect_php, main, window_has_php_token, Php,
};

/// Evaluates the condition `php.is_php` on the data.
fn is_php(data: &[u8]) -> bool {
    main(data, None).is_php == Some(true)
}

#[test]
fn strong_signals() {
    assert!(detect_php(b"<?php echo 1;"));
    assert!(detect_php(b"<?PHP echo 1;")); // case-insensitive keyword
    assert!(detect_php(b"<?= $x ?>")); // short echo tag
    assert!(detect_php(b"GIF89a....\x00<?php system($_GET['c']);")); // polyglot
    assert!(detect_php(b"<html><body><?php phpinfo(); ?></body></html>")); // embedded
    assert!(!detect_php(b"")); // empty
    assert!(!detect_php(b"plain text, no markers")); // no tag
    assert!(!detect_php(b"<?phpx not_a_tag")); // <?phpX is not a valid open tag
}

#[test]
fn weak_signal_short_tag() {
    // Short-tag webshell: bare `<?` + PHP token within the window.
    assert!(detect_php(b"<? eval($_POST['x']); ?>"));
    assert!(detect_php(b"<? system($_GET['c']); ?>"));
    // Uppercase function name is still PHP (case-insensitive tokens).
    assert!(detect_php(b"<? EVAL($_POST['x']); ?>"));
}

#[test]
fn weak_signal_rejects_non_php() {
    // XML declaration is not PHP.
    assert!(!detect_php(b"<?xml version=\"1.0\" encoding=\"UTF-8\"?>"));
    assert!(!detect_php(b"<?XML version=\"1.0\"?>")); // case-insensitive xml
    // Bare `<?` with no PHP token nearby.
    assert!(!detect_php(b"<? just some text with no php tokens at all >"));
    // A file that has both an XML declaration AND real PHP must still match.
    assert!(detect_php(b"<?xml version=\"1.0\"?>\n<root><?php echo 1;?></root>"));
}

#[test]
fn weak_signal_window_boundary() {
    // `<?` at the very end with no following bytes is not PHP.
    assert!(!detect_php(b"<?"));
    // A PHP token just beyond the 256-byte window is not detected.
    let mut buf = b"<? ".to_vec();
    buf.extend(std::iter::repeat(b'x').take(300));
    buf.extend_from_slice(b"$_GET");
    assert!(!detect_php(&buf));
}

#[test]
fn module_is_importable() {
    assert!(!is_php(b""));
    assert_eq!(main(b"", None), Php { is_php: Some(false) });
}

#[test]
fn rule_detects_php() {
    assert!(is_php(b"<?php echo 1;"));
    // Polyglot: PHP appended after an image header.
    assert!(is_php(b"GIF89a\x01\x00\x01\x00<?php system($_GET['c']); ?>"));
}

#[test]
fn rule_rejects_non_php() {
    assert!(!is_php(b"<?xml version=\"1.0\"?><note><to>x</to></note>"));
    assert!(!is_php(b"just plain text"));
}

#[test]
fn rule_short_circuit_gate() {
    // The condition `php.is_php and $a`, where `$a` is a plain text pattern.
    let php_webshell =
        |data: &[u8]| is_php(data) && contains_bytes(data, b"eval($_POST");
    assert!(!php_webshell(b"this file is not php and contains eval($_POST as plain text"));
    assert!(php_webshell(b"<?php eval($_POST['x']); ?>"));
}

#[test]
fn metadata_is_ignored() {
    assert_eq!(main(b"plain", Some(b"<?php ")), Php { is_php: Some(false) });
    assert_eq!(main(b"<?php ", Some(b"plain")), Php { is_php: Some(true) });
}

#[test]
fn php_keyword_ends_the_word() {
    assert!(classify_open_tag(b"php"));
    assert!(classify_open_tag(b"PhP\n"));
    assert!(classify_open_tag(b"php?"));
    assert!(!classify_open_tag(b"php_"));
    assert!(!classify_open_tag(b"php7"));
    assert!(!classify_open_tag(b"phpZ"));
    assert!(!classify_open_tag(b"ph"));
    assert!(!classify_open_tag(b""));
    // What is no `<?php` may still be a bare `<?` with a token behind it.
    assert!(classify_open_tag(b"phpx echo"));
}

#[test]
fn xml_declarations_are_never_php() {
    assert!(!classify_open_tag(b"xml eval $_GET"));
    assert!(!classify_open_tag(b"xMl-stylesheet function"));
    assert!(!detect_php(b"<?xml eval?><?XML system?>"));
}

#[test]
fn superglobals_keep_their_casing() {
    assert!(window_has_php_token(b"..$_SERVER.."));
    assert!(window_has_php_token(b"$GLOBALS"));
    assert!(!window_has_php_token(b"$_server"));
    assert!(!window_has_php_token(b"$globals"));
    assert!(!window_has_php_token(b"$_GE"));
}

#[test]
fn function_names_match_in_any_casing() {
    assert!(window_has_php_token(b"a BASE64_Decode( b"));
    assert!(window_has_php_token(b"StR_rOt13"));
    assert!(window_has_php_token(b"include"));
    assert!(!window_has_php_token(b"includ"));
    assert!(!window_has_php_token(b""));
}

#[test]
fn token_must_end_within_the_window() {
    // The last byte of `$_GET` is the last byte of the window.
    let mut inside = b"<?".to_vec();
    inside.extend(std::iter::repeat(b'x').take(251));
    inside.extend_from_slice(b"$_GET");
    assert!(detect_php(&inside));
    // One byte further it is cut off.
    let mut outside = b"<?".to_vec();
    outside.extend(std::iter::repeat(b'x').take(252));
    outside.extend_from_slice(b"$_GET");
    assert!(!detect_php(&outside));
}

#[test]
fn prefix_does_not_hide_php() {
    for prefix in [&b"GIF89a"[..], b"<", b"<?", b"<?xml ?>", b"\xff\x00"] {
        let mut data = prefix.to_vec();
        data.extend_from_slice(b"<?= 1 ?>");
        assert!(detect_php(&data));
    }
}

#[test]
fn bytes_are_found_anywhere() {
    assert!(contains_bytes(b"abc", b""));
    assert!(contains_bytes(b"", b""));
    assert!(contains_bytes(b"abc", b"abc"));
    assert!(contains_bytes(b"aabc", b"abc"));
    assert!(!contains_bytes(b"ab", b"abc"));
    assert!(!contains_bytes(b"", b"a"));
}
