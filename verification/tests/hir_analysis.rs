use regex_syntax::hir::Hir;
use yara_diagnostics::culprit::Culprit;
use yara_diagnostics::hir::{read_hir, ClassRange, HirNode, HirShape};
use yara_diagnostics::hir_analysis::{
    class_size, contains_unbounded_rep, edge_repetitions, find_culprits, find_culprits_in,
    is_unbounded_rep, short_fixed_regions, visit,
};

fn hir(pattern: &str) -> Hir {
    regex_syntax::ParserBuilder::new()
        .utf8(false)
        .unicode(false)
        .build()
        .parse(pattern)
        .unwrap()
}

fn unicode_hir(pattern: &str) -> Hir {
    regex_syntax::ParserBuilder::new().build().parse(pattern).unwrap()
}

fn kinds(pattern: &str) -> Vec<&'static str> {
    find_culprits(&hir(pattern))
        .iter()
        .map(|c| match c {
            Culprit::UnboundedRepetitionAtEdge { .. } => "edge_rep",
            Culprit::LargeClassRepetition { .. } => "large_class",
            Culprit::ShortAlternationBranch { .. } => "short_alt",
            Culprit::NestedUnboundedRepetition { .. } => "nested_rep",
            Culprit::ShortFixedRegion { .. } => "short_fixed",
        })
        .collect()
}

#[test]
fn leading_unbounded_repetition() {
    assert!(kinds(r".*abcdef").contains(&"edge_rep"));
    assert!(kinds(r"\w+abcdef").contains(&"edge_rep"));
}

#[test]
fn trailing_unbounded_repetition() {
    assert!(kinds(r"abcdef.*").contains(&"edge_rep"));
}

#[test]
fn no_edge_repetition_in_middle() {
    assert!(!kinds(r"abcd.*efgh").contains(&"edge_rep"));
}

#[test]
fn large_class_repetition() {
    let culprits = find_culprits(&hir(r"[A-Za-z]{2,}"));
    assert!(culprits.iter().any(|c| matches!(
        c,
        Culprit::LargeClassRepetition { class_size: 52, min_rep: 2, .. }
    )));
    // `.` is an any-byte class, not a "large class".
    assert!(!kinds(r"abcd.{2,}efgh").contains(&"large_class"));
}

#[test]
fn short_alternation_branch() {
    let culprits = find_culprits(&hir(r"(?:foobar|ab)cd"));
    assert!(culprits.iter().any(|c| matches!(
        c,
        Culprit::ShortAlternationBranch { min_branch_len: 2, .. }
    )));
    assert!(!kinds(r"(?:foobar|abcd)").contains(&"short_alt"));
}

#[test]
fn nested_unbounded_repetition() {
    assert!(kinds(r"(?:\w+)*").contains(&"nested_rep"));
    assert!(!kinds(r"abcd\w*").contains(&"nested_rep"));
}

#[test]
fn short_fixed_region() {
    // Equivalent of the hex pattern { 00 [1-10] 01 }: a 1-byte literal
    // next to a bounded any-byte gap.
    assert!(kinds(r"\x00.{1,10}\x01").contains(&"short_fixed"));
    assert!(!kinds(r"abcdef.{1,10}ghijkl").contains(&"short_fixed"));
}

#[test]
fn healthy_pattern_has_no_culprits() {
    assert!(kinds(r"abcdefgh").is_empty());
}

#[test]
fn edges_name_the_repetition() {
    assert_eq!(
        find_culprits(&hir(r"a*bcdefgh[0-9]+")),
        vec![
            Culprit::UnboundedRepetitionAtEdge { leading: true, expr: "a*".into() },
            Culprit::UnboundedRepetitionAtEdge { leading: false, expr: "(?-u:[0-9])+".into() },
        ]
    );
    // A pattern that is a repetition as a whole counts as leading.
    assert_eq!(
        find_culprits(&hir(r"a*")),
        vec![Culprit::UnboundedRepetitionAtEdge { leading: true, expr: "a*".into() }]
    );
    // A bounded repetition at an edge is no culprit.
    assert_eq!(find_culprits(&hir(r"a{0,3}bcdefgh")), vec![]);
}

#[test]
fn class_size_thresholds() {
    // 15 elements are too few, 16 are enough.
    assert_eq!(kinds(r"abcd[a-o]{2,3}efgh"), Vec::<&str>::new());
    assert_eq!(kinds(r"abcd[a-p]{2,3}efgh"), vec!["large_class"]);
    // 249 elements are a large class, 250 an arbitrary byte.
    assert_eq!(kinds(r"abcd[\x00-\xf8]{2,3}efgh"), vec!["large_class"]);
    assert_eq!(kinds(r"abcd[\x00-\xf9]{2,3}efgh"), Vec::<&str>::new());
    // The minimum number of repetitions plays no part.
    assert_eq!(kinds(r"abcd[a-z]*efgh"), vec!["large_class"]);
}

#[test]
fn large_class_names_its_numbers() {
    let culprits = find_culprits(&hir(r"abcd[0-9a-z]{3,7}efgh"));
    assert_eq!(
        culprits,
        vec![Culprit::LargeClassRepetition {
            class_size: 36,
            min_rep: 3,
            expr: "(?-u:[0-9a-z]){3,7}".into()
        }]
    );
}

#[test]
fn unicode_classes_count_code_points() {
    let node = read_hir(&unicode_hir(r"[\u{3b1}-\u{3c9}]"));
    match node.shape {
        HirShape::Class(ranges) => {
            assert_eq!(ranges, vec![ClassRange { start: 0x3b1, end: 0x3c9 }]);
            assert_eq!(class_size(&ranges), 25);
        }
        _ => panic!("not a class"),
    }
    // All of Unicode is one range, with the surrogates in it.
    match read_hir(&unicode_hir(r"(?s:.)")).shape {
        HirShape::Class(ranges) => assert_eq!(class_size(&ranges), 0x110000),
        _ => panic!("not a class"),
    }
}

#[test]
fn branches_and_nesting_are_found_at_any_depth() {
    assert_eq!(kinds(r"abcd(efgh(?:x|yyyyyy))ijkl"), vec!["short_alt"]);
    assert_eq!(kinds(r"abcd(?:(?:e+f){2,3}g)*hijk"), vec!["nested_rep"]);
    // The shortest branch has as many bytes as an atom should have.
    assert_eq!(kinds(r"(?:aaaa|bbbbb)"), Vec::<&str>::new());
    assert_eq!(kinds(r"(?:aaa|bbbbb)"), vec!["short_alt"]);
}

#[test]
fn regions_need_a_gap_and_a_short_literal() {
    // The gap has to be an arbitrary byte.
    assert_eq!(kinds(r"ab[0-9]{1,10}cd"), Vec::<&str>::new());
    // Three bytes are short, four are not.
    let culprits = find_culprits(&hir(r"abc(?s:.){1,10}defg"));
    assert_eq!(culprits, vec![Culprit::ShortFixedRegion { len: 3 }]);
    // Both sides of a gap count.
    let culprits = find_culprits(&hir(r"a(?s:.){1,10}bc"));
    assert_eq!(
        culprits,
        vec![Culprit::ShortFixedRegion { len: 1 }, Culprit::ShortFixedRegion { len: 2 }]
    );
}

#[test]
fn findings_come_in_order_of_the_passes() {
    // Edges first, then the walk, then the fixed regions.
    assert_eq!(
        kinds(r"(?s:.)+ab(?s:.){1,2}(?:x|yyyyyy)"),
        vec!["edge_rep", "short_alt", "short_fixed"]
    );
}

#[test]
fn reading_copies_the_tree() {
    let node = read_hir(&hir(r"(ab|cde)+\b$"));
    assert_eq!(node.text, hir(r"(ab|cde)+\b$").to_string());
    assert_eq!(node.minimum_len, Some(2));
    let subs = match node.shape {
        HirShape::Concat(subs) => subs,
        _ => panic!("not a concatenation"),
    };
    assert_eq!(subs.len(), 3);
    assert!(matches!(subs[1].shape, HirShape::Look));
    assert!(matches!(subs[2].shape, HirShape::Look));
    match &subs[0].shape {
        HirShape::Repetition { min, max, sub } => {
            assert_eq!((*min, *max), (1, None));
            match &sub.shape {
                HirShape::Capture(inner) => match &inner.shape {
                    HirShape::Alternation(branches) => {
                        assert_eq!(branches.len(), 2);
                        assert!(
                            matches!(&branches[0].shape, HirShape::Literal(b) if b == b"ab")
                        );
                        assert_eq!(branches[1].minimum_len, Some(3));
                    }
                    _ => panic!("not an alternation"),
                },
                _ => panic!("not a capture"),
            }
        }
        _ => panic!("not a repetition"),
    }
    assert!(matches!(read_hir(&hir("")).shape, HirShape::Empty));
    // An empty class matches nothing, so it has no shortest match.
    assert_eq!(read_hir(&hir(r"[a&&b]")).minimum_len, None);
}

fn literal(bytes: &[u8]) -> HirNode {
    HirNode {
        text: String::from_utf8_lossy(bytes).into_owned(),
        minimum_len: Some(bytes.len()),
        shape: HirShape::Literal(bytes.to_vec()),
    }
}

fn repeated(sub: HirNode, min: u32, max: Option<u32>, text: &str) -> HirNode {
    HirNode {
        text: text.into(),
        minimum_len: Some(0),
        shape: HirShape::Repetition { min, max, sub: Box::new(sub) },
    }
}

#[test]
fn analysis_of_hand_made_trees() {
    let inner = repeated(literal(b"a"), 1, None, "a+");
    assert!(is_unbounded_rep(&inner));
    assert!(contains_unbounded_rep(&inner));
    let outer = repeated(inner, 0, None, "(?:a+)*");
    let node = HirNode {
        text: "x(?:a+)*".into(),
        minimum_len: Some(1),
        shape: HirShape::Concat(vec![literal(b"x"), outer]),
    };
    assert!(!is_unbounded_rep(&node));
    assert!(contains_unbounded_rep(&node));
    assert_eq!(
        find_culprits_in(&node),
        vec![
            Culprit::UnboundedRepetitionAtEdge { leading: false, expr: "(?:a+)*".into() },
            Culprit::NestedUnboundedRepetition { expr: "(?:a+)*".into() },
        ]
    );

    let mut culprits = vec![Culprit::ShortFixedRegion { len: 9 }];
    edge_repetitions(&node, &mut culprits);
    assert_eq!(culprits.len(), 2);
    visit(&node, &mut culprits);
    assert_eq!(culprits.len(), 3);
    short_fixed_regions(&node, &mut culprits);
    assert_eq!(culprits.len(), 3);
    assert_eq!(culprits[0], Culprit::ShortFixedRegion { len: 9 });

    assert!(!contains_unbounded_rep(&repeated(literal(b"a"), 1, Some(2), "a{1,2}")));
    assert_eq!(class_size(&vec![]), 0);
    assert_eq!(
        class_size(&vec![
            ClassRange { start: 5, end: 5 },
            ClassRange { start: 10, end: 19 }
        ]),
        11
    );
}
