use sniff_test::annot::Requirement;
use sniff_test::annot::Justification;
use sniff_test::annot::requirements_from_string;
use sniff_test::annot::justifications_from_string;
use sniff_test::names::ConditionName;
use sniff_test::names::InvalidConditionNameReason;
use sniff_test::parse::ParsingIssue;

fn req(name: &str, desc: &str) -> Requirement {
    Requirement::new(ConditionName::try_new(name).unwrap(), desc)
}

fn just(name: &str, desc: &str) -> Justification {
    Justification::new(ConditionName::try_new(name).unwrap(), desc)
}

#[test]
fn simple_no_requirements() {
    let r = requirements_from_string("# Unsafe");
    assert!(matches!(r, Err(ParsingIssue::EmptyMarker)));
}

#[test]
fn simple_no_marker() {
    let r = requirements_from_string("This is a random doc comment");
    assert!(matches!(r, Err(ParsingIssue::NoMarkerPattern)));
}

#[test]
fn multi_line_no_marker() {
    let r = requirements_from_string(
        "This is a random doc comment.\nIt is multiple lines, but it still has no marker\nunfortunately...",
    );
    assert!(matches!(r, Err(ParsingIssue::NoMarkerPattern)));
}

#[test]
fn incorrect_markers() {
    let r = requirements_from_string("# Hi!\n# Hello!\n# Usage\n# Overview");
    assert!(matches!(r, Err(ParsingIssue::NoMarkerPattern)));
}

#[test]
fn incorrect_marker_w_desc() {
    let r = requirements_from_string(
        "# Usage\n  - nn: the pointer must be non-null\n  - align: the pointer must be aligned",
    );
    assert!(matches!(r, Err(ParsingIssue::NoMarkerPattern)));
}

#[test]
fn multiple_correct_markers() {
    let r = requirements_from_string("# Unsafe\n   # Unsafe");
    assert!(matches!(r, Err(ParsingIssue::MultipleMarkerPatterns(_))));
}

#[test]
fn multiple_correct_markers_separeted() {
    let r = requirements_from_string(
        "# Unsafe\n - nn: the pointer must be non-null\n - align: the pointer must be aligned\n# Unsafe",
    );
    assert!(matches!(r, Err(ParsingIssue::MultipleMarkerPatterns(_))));
}

#[test]
fn bullet_with_no_colon() {
    let r = requirements_from_string("# Unsafe\n - nn the pointer must be non-null");
    assert!(matches!(r, Err(ParsingIssue::NoColon(_, _))));
}

#[test]
fn multiple_bullets_with_no_colon() {
    let r = requirements_from_string(
        "# Unsafe\n - nn the pointer must be non-null\n - align the pointer must be aligned",
    );
    assert!(matches!(r, Err(ParsingIssue::NoColon(_, _))));
}

#[test]
fn simplest_use() {
    let r = requirements_from_string("# Unsafe\n - nn: the pointer must be non-null");
    assert_eq!(r.unwrap(), vec![req("nn", "the pointer must be non-null")]);
}

#[test]
fn simple_use_many_requirements() {
    let r = requirements_from_string(
        "# Unsafe\n - nn: the pointer must be non-null\n - align: the pointer must be aligned\n - heap-allocated: the pointer must be heap-allocated",
    );
    assert_eq!(
        r.unwrap(),
        vec![
            req("nn", "the pointer must be non-null"),
            req("align", "the pointer must be aligned"),
            req("heap-allocated", "the pointer must be heap-allocated"),
        ]
    );
}

#[test]
fn ignores_text_before() {
    let r = requirements_from_string(
        "filler text, blah blah blah...\n# Unsafe\n - nn: the pointer must be non-null\n - align: the pointer must be aligned",
    );
    assert_eq!(
        r.unwrap(),
        vec![
            req("nn", "the pointer must be non-null"),
            req("align", "the pointer must be aligned"),
        ]
    );
}

#[test]
fn intro_prose_allowed() {
    let r = requirements_from_string(
        "# Unsafe\nThis function must satisfy the following invariants to avoid UB:\n - nn: the pointer must be non-null\n - align: the pointer must be aligned",
    );
    assert_eq!(
        r.unwrap(),
        vec![
            req("nn", "the pointer must be non-null"),
            req("align", "the pointer must be aligned"),
        ]
    );
}

#[test]
fn ignores_other_markers_before() {
    let r = requirements_from_string(
        "# Usage\n - Use this struct however you'd like, I don't mind.\n# Unsafe\n - nn: the pointer must be non-null\n - align: the pointer must be aligned",
    );
    assert_eq!(
        r.unwrap(),
        vec![
            req("nn", "the pointer must be non-null"),
            req("align", "the pointer must be aligned"),
        ]
    );
}

#[test]
fn ignores_other_markers_after() {
    let r = requirements_from_string(
        "# Unsafe\n - nn: the pointer must be non-null\n - align: the pointer must be aligned\n# Usage\n - Use this struct however you'd like, I don't mind.",
    );
    assert_eq!(
        r.unwrap(),
        vec![
            req("nn", "the pointer must be non-null"),
            req("align", "the pointer must be aligned"),
        ]
    );
}

#[test]
fn ignores_sandwiched_other_markers() {
    let r = requirements_from_string(
        "# Overview\n - this is a function of some kind\n# Unsafe\n - nn: the pointer must be non-null\n - align: the pointer must be aligned\n# Usage\n - Use this struct however you'd like, I don't mind.",
    );
    assert_eq!(
        r.unwrap(),
        vec![
            req("nn", "the pointer must be non-null"),
            req("align", "the pointer must be aligned"),
        ]
    );
}

#[test]
fn section_ends_with_empty_line() {
    let r = requirements_from_string(
        "# Unsafe\n - nn: the pointer must be non-null\n - align: the pointer must be aligned\n\n - Use this struct however you'd like, I don't mind.",
    );
    assert_eq!(
        r.unwrap(),
        vec![
            req("nn", "the pointer must be non-null"),
            req("align", "the pointer must be aligned"),
        ]
    );
}

#[test]
fn section_ends_with_whitespace_only_line() {
    let r = requirements_from_string(
        "# Unsafe\n - nn: the pointer must be non-null\n - align: the pointer must be aligned\n   \n - Use this struct however you'd like, I don't mind.",
    );
    assert_eq!(
        r.unwrap(),
        vec![
            req("nn", "the pointer must be non-null"),
            req("align", "the pointer must be aligned"),
        ]
    );
}

#[test]
fn markers_arent_case_sensitive() {
    let r = requirements_from_string(
        "# UNSAFE\n - nn: the pointer must be non-null\n - align: the pointer must be aligned",
    );
    assert_eq!(
        r.unwrap(),
        vec![
            req("nn", "the pointer must be non-null"),
            req("align", "the pointer must be aligned"),
        ]
    );
}

#[test]
fn markers_allow_any_markdown_header() {
    let r = requirements_from_string(
        "### UNSAFE\n - nn: the pointer must be non-null\n - align: the pointer must be aligned",
    );
    assert_eq!(
        r.unwrap(),
        vec![
            req("nn", "the pointer must be non-null"),
            req("align", "the pointer must be aligned"),
        ]
    );
}

#[test]
fn asterisk_bullets_allowed() {
    let r = requirements_from_string(
        "# Unsafe\n * nn: the pointer must be non-null\n * align: the pointer must be aligned",
    );
    assert_eq!(
        r.unwrap(),
        vec![
            req("nn", "the pointer must be non-null"),
            req("align", "the pointer must be aligned"),
        ]
    );
}

#[test]
fn bullet_types_must_match() {
    let r = requirements_from_string(
        "# Unsafe\n * nn: the pointer must be non-null\n - align: the pointer must be aligned",
    );
    assert!(matches!(r, Err(ParsingIssue::NonMatchingBullets(_))));
}

#[test]
fn spaces_after_bullet_ignored() {
    let r = requirements_from_string(
        "# Unsafe\n -  nn: the pointer must be non-null\n -   align: the pointer must be aligned",
    );
    assert_eq!(
        r.unwrap(),
        vec![
            req("nn", "the pointer must be non-null"),
            req("align", "the pointer must be aligned"),
        ]
    );
}

#[test]
fn spaces_before_colon_disallowed() {
    let r = requirements_from_string(
        "# Unsafe\n - nn : the pointer must be non-null\n - align     : the pointer must be aligned",
    );
    assert!(matches!(
        r,
        Err(ParsingIssue::InvalidConditionName {
            reason: InvalidConditionNameReason::TrailingWhitespace,
            ..
        })
    ));
}

#[test]
fn multi_word_names_disallowed() {
    let r = requirements_from_string(
        "# Unsafe\n - non null: the pointer must be non-null\n - aligned ptr: the pointer must be aligned",
    );
    assert!(matches!(
        r,
        Err(ParsingIssue::InvalidConditionName {
            reason: InvalidConditionNameReason::MultipleWords,
            ..
        })
    ));
}

#[test]
fn kebab_case_names_allowed() {
    let r = requirements_from_string(
        "# Unsafe\n - non-null: the pointer must be non-null\n - aligned-ptr: the pointer must be aligned",
    );
    assert_eq!(
        r.unwrap(),
        vec![
            req("non-null", "the pointer must be non-null"),
            req("aligned-ptr", "the pointer must be aligned"),
        ]
    );
}

#[test]
fn snake_case_names_allowed() {
    let r = requirements_from_string(
        "# Unsafe\n - non_null: the pointer must be non-null\n - aligned_ptr: the pointer must be aligned",
    );
    assert_eq!(
        r.unwrap(),
        vec![
            req("non_null", "the pointer must be non-null"),
            req("aligned_ptr", "the pointer must be aligned"),
        ]
    );
}

#[test]
fn justification_simplest_use() {
    let r = justifications_from_string("SAFETY:\n - nn: the pointer must be non-null");
    assert_eq!(r.unwrap(), vec![just("nn", "the pointer must be non-null")]);
}

#[test]
fn justification_no_marker() {
    let r = justifications_from_string("This is a random doc comment");
    assert!(matches!(r, Err(ParsingIssue::NoMarkerPattern)));
}

#[test]
fn justification_empty_marker() {
    let r = justifications_from_string("SAFETY:");
    assert!(matches!(r, Err(ParsingIssue::EmptyMarker)));
}

#[test]
fn justification_multiple_markers() {
    let r = justifications_from_string("Safety:\n   Safety:");
    assert!(matches!(r, Err(ParsingIssue::MultipleMarkerPatterns(_))));
}

#[test]
fn justification_mixed_bullets() {
    let r = justifications_from_string(
        "Safety:\n * nn: the pointer must be non-null\n - align: the pointer must be aligned",
    );
    assert!(matches!(r, Err(ParsingIssue::NonMatchingBullets(_))));
}

#[test]
fn justification_lowercase_marker() {
    let r = justifications_from_string(
        "Safety:\n - nn: the pointer must be non-null\n - align: the pointer must be aligned",
    );
    assert_eq!(
        r.unwrap(),
        vec![
            just("nn", "the pointer must be non-null"),
            just("align", "the pointer must be aligned"),
        ]
    );
}

#[test]
fn no_colon_reports_range_and_word_offset() {
    // The trimmed bullet body is `nn ptr` at characters 11..17 of the
    // text, and its first word ends at offset 2.
    let r = requirements_from_string("# Unsafe\n- nn ptr");
    match r {
        Err(ParsingIssue::NoColon(range, word)) => {
            assert_eq!(range.lo, 11);
            assert_eq!(range.hi, 17);
            assert_eq!(word, 2);
        },
        other => panic!("expected a missing-colon error, got {other:?}"),
    }
}

#[test]
fn parse_is_deterministic_including_error_ranges() {
    let text = "# Unsafe\n- nn ptr";
    let r1 = requirements_from_string(text);
    let r2 = requirements_from_string(text);
    match (r1, r2) {
        (Err(ParsingIssue::NoColon(a, wa)), Err(ParsingIssue::NoColon(b, wb))) => {
            assert_eq!(a.lo, b.lo);
            assert_eq!(a.hi, b.hi);
            assert_eq!(wa, wb);
        },
        _ => panic!("expected identical missing-colon errors"),
    }
}

#[test]
fn worked_example_single_bullet() {
    let r = requirements_from_string("# Unsafe\n- nn: must be non-null");
    assert_eq!(r.unwrap(), vec![req("nn", "must be non-null")]);
}

#[test]
fn worked_example_empty_section() {
    let r = requirements_from_string("# Unsafe");
    assert!(matches!(r, Err(ParsingIssue::EmptyMarker)));
}

#[test]
fn worked_example_mixed_styles() {
    let r = requirements_from_string("# Unsafe\n* a: x\n- b: y");
    assert!(matches!(r, Err(ParsingIssue::NonMatchingBullets(_))));
}

#[test]
fn round_trip_many_bullets() {
    // Render a section from pairs, parse it back, and expect the pairs.
    let pairs = vec![
        ("nn", "the pointer must be non-null"),
        ("align", "the pointer must be aligned"),
        ("heap-allocated", "the pointer must come from the heap"),
        ("init", "the pointee must be initialized"),
    ];
    let mut text = String::from("# Unsafe");
    for (name, desc) in &pairs {
        text.push_str("\n- ");
        text.push_str(name);
        text.push_str(": ");
        text.push_str(desc);
    }
    let parsed = requirements_from_string(&text).unwrap();
    let expected: Vec<Requirement> = pairs.iter().map(|(n, d)| req(n, d)).collect();
    assert_eq!(parsed, expected);
}
