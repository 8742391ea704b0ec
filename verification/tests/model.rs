use sniff_test::names::ConditionName;
use sniff_test::names::InvalidConditionNameReason;
use sniff_test::names::check_single_word;
use sniff_test::spans::DocFragment;
use sniff_test::spans::SrcSpan;
use sniff_test::spans::merge_adjacent;
use sniff_test::spans::span_all_comments;
use sniff_test::spans::span_some_comments;
use sniff_test::text::chars_vec;
use sniff_test::text::contains_chars;
use sniff_test::justify::buzzword_satisfied;
use sniff_test::justify::contains_word_or_synonym;
use sniff_test::justify::lowercase;
use sniff_test::overrides::OverrideDoc;
use sniff_test::overrides::OverrideField;
use sniff_test::overrides::OverrideValue;
use sniff_test::overrides::SchemaIssue;
use sniff_test::overrides::TomlAnnotation;
use sniff_test::overrides::TomlParseError;
use sniff_test::attrs::PropertyId;
use sniff_test::attrs::SniffToolAttr;
use sniff_test::annot::Requirement;
use sniff_test::annot::check_consistency;
use sniff_test::annot::Justification;
use sniff_test::property::AxiomaticBadness;
use sniff_test::property::PanicAxiom;
use sniff_test::property::SafetyAxiom;
use sniff_test::bullet::BulletKind;
use sniff_test::parse::ParsingIssue;

#[test]
fn single_word_names_are_valid() {
    assert_eq!(check_single_word("align").unwrap(), "align");
    assert!(ConditionName::try_new("non-null").is_ok());
    assert!(ConditionName::try_new("non_null").is_ok());
    assert_eq!(ConditionName::try_new("align").unwrap().as_str(), "align");
}

#[test]
fn multi_word_names_fail_with_multiple_words() {
    assert_eq!(
        ConditionName::try_new("non null").unwrap_err(),
        InvalidConditionNameReason::MultipleWords
    );
    assert_eq!(
        ConditionName::try_new("a b c").unwrap_err(),
        InvalidConditionNameReason::MultipleWords
    );
}

#[test]
fn stray_whitespace_fails_with_trailing_whitespace() {
    assert_eq!(
        ConditionName::try_new("align ").unwrap_err(),
        InvalidConditionNameReason::TrailingWhitespace
    );
    assert_eq!(
        ConditionName::try_new(" align").unwrap_err(),
        InvalidConditionNameReason::TrailingWhitespace
    );
    assert_eq!(
        ConditionName::try_new("align\t").unwrap_err(),
        InvalidConditionNameReason::TrailingWhitespace
    );
    // Whitespace-only input is one (empty) token plus stray whitespace.
    assert_eq!(
        ConditionName::try_new("   ").unwrap_err(),
        InvalidConditionNameReason::TrailingWhitespace
    );
}

fn frag(lo: u32, len: usize) -> DocFragment {
    // A `///` line's origin span covers the marker and the text.
    DocFragment {
        span: SrcSpan {
            lo,
            hi: lo + 3 + len as u32,
        },
        len,
    }
}

#[test]
fn full_range_maps_to_all_comments() {
    // Three comment lines of 5, 4 and 6 characters; the logical text is
    // their newline-joined concatenation of length 5 + 1 + 4 + 1 + 6.
    let frags = vec![frag(100, 5), frag(120, 4), frag(140, 6)];
    let all = span_all_comments(&frags);
    let some = span_some_comments(&frags, 0, 17).unwrap();
    assert_eq!(all, some);
}

#[test]
fn mid_range_maps_into_the_right_fragment() {
    // Characters 6..8 lie inside the second fragment (offset 6): they map
    // to its span start plus the three-character prefix.
    let frags = vec![frag(100, 5), frag(120, 4)];
    let spans = span_some_comments(&frags, 6, 8).unwrap();
    assert_eq!(spans, vec![SrcSpan { lo: 120, hi: 125 }]);
}

#[test]
fn range_start_of_line_covers_the_marker() {
    // A range that starts at a line's first character maps to the span
    // start itself, marker included.
    let frags = vec![frag(100, 5)];
    let spans = span_some_comments(&frags, 0, 2).unwrap();
    assert_eq!(spans, vec![SrcSpan { lo: 100, hi: 105 }]);
}

#[test]
fn range_beyond_text_maps_nowhere() {
    let frags = vec![frag(100, 5)];
    assert!(span_some_comments(&frags, 40, 50).is_none());
}

#[test]
fn adjacent_spans_are_merged() {
    let spans = vec![
        SrcSpan { lo: 10, hi: 20 },
        SrcSpan { lo: 20, hi: 30 },
        SrcSpan { lo: 35, hi: 40 },
    ];
    let merged = merge_adjacent(&spans);
    assert_eq!(
        merged,
        vec![SrcSpan { lo: 10, hi: 30 }, SrcSpan { lo: 35, hi: 40 }]
    );
}

#[test]
fn source_adjacent_fragments_merge_on_full_range() {
    // The second fragment's span starts exactly where the first ends, so
    // the two mapped spans fuse into one.
    let frags = vec![frag(100, 5), frag(108, 4)];
    let spans = span_some_comments(&frags, 0, 10).unwrap();
    assert_eq!(spans, vec![SrcSpan { lo: 100, hi: 115 }]);
}

#[test]
fn substring_search_finds_needles() {
    let hay = chars_vec("the pointer is valid here");
    assert!(contains_chars(&hay, &chars_vec("valid")));
    assert!(contains_chars(&hay, &chars_vec("")));
    assert!(!contains_chars(&hay, &chars_vec("aligned")));
}

#[test]
fn buzzword_synonyms_count() {
    let prose = chars_vec("we checked the pointer is valid and it will outlive the call");
    assert!(contains_word_or_synonym(&prose, &chars_vec("validity")));
    assert!(contains_word_or_synonym(&prose, &chars_vec("lifetime")));
    assert!(!contains_word_or_synonym(&prose, &chars_vec("alignment")));
}

#[test]
fn buzzword_checks_every_word_of_kebab_names() {
    let prose = chars_vec("the value is valid and its alignment was checked");
    assert!(buzzword_satisfied(&prose, &chars_vec("validity")));
    // both words of `validity-alignment` are found
    assert!(buzzword_satisfied(&prose, &chars_vec("validity-alignment")));
    // `soundness` is not mentioned
    assert!(!buzzword_satisfied(&prose, &chars_vec("validity-soundness")));
}

#[test]
fn lowercase_folds_case() {
    let lowered = lowercase("The POINTER Is Valid");
    let lv = chars_vec(lowered.as_str());
    assert!(contains_chars(&lv, &chars_vec("pointer is valid")));
}

#[test]
fn override_schema_accepts_good_entries() {
    let doc = OverrideDoc::Table(vec![
        (
            "dep::f".to_string(),
            OverrideValue::Table(vec![(
                "requirements".to_string(),
                OverrideField::Str("# Unsafe\n - nn: non-null".to_string()),
            )]),
        ),
    ]);
    let ann = TomlAnnotation::from_entries(doc).unwrap();
    assert_eq!(
        ann.get_requirements_string("dep::f").unwrap().as_str(),
        "# Unsafe\n - nn: non-null"
    );
    assert!(ann.get_requirements_string("dep::g").is_none());
}

#[test]
fn override_schema_rejects_top_level_non_table() {
    let r = TomlAnnotation::from_entries(OverrideDoc::Other);
    assert!(matches!(
        r,
        Err(TomlParseError::Schema(SchemaIssue::NotATable))
    ));
}

#[test]
fn override_schema_names_non_table_entry() {
    let doc = OverrideDoc::Table(vec![("dep::f".to_string(), OverrideValue::Other)]);
    match TomlAnnotation::from_entries(doc) {
        Err(TomlParseError::Schema(SchemaIssue::EntryNotATable(n))) => {
            assert_eq!(n, "dep::f");
        },
        other => panic!("expected an entry-shape error, got {other:?}"),
    }
}

#[test]
fn override_schema_names_missing_requirements() {
    let doc = OverrideDoc::Table(vec![(
        "dep::f".to_string(),
        OverrideValue::Table(vec![("other".to_string(), OverrideField::Other)]),
    )]);
    match TomlAnnotation::from_entries(doc) {
        Err(TomlParseError::Schema(SchemaIssue::MissingRequirements(n))) => {
            assert_eq!(n, "dep::f");
        },
        other => panic!("expected a missing-field error, got {other:?}"),
    }
}

#[test]
fn override_schema_names_non_string_requirements() {
    let doc = OverrideDoc::Table(vec![(
        "dep::f".to_string(),
        OverrideValue::Table(vec![("requirements".to_string(), OverrideField::Other)]),
    )]);
    match TomlAnnotation::from_entries(doc) {
        Err(TomlParseError::Schema(SchemaIssue::RequirementsNotAString(n))) => {
            assert_eq!(n, "dep::f");
        },
        other => panic!("expected a field-type error, got {other:?}"),
    }
}

#[test]
fn missing_override_file_is_empty() {
    let ann = TomlAnnotation::default();
    assert!(ann.get_requirements_string("anything").is_none());
}

#[test]
fn marker_tokens_parse() {
    assert_eq!(
        SniffToolAttr::try_from_string("check_unsafe"),
        Some(SniffToolAttr::CheckUnsafe)
    );
    assert_eq!(
        SniffToolAttr::try_from_string("check_panics"),
        Some(SniffToolAttr::CheckPanics)
    );
    assert_eq!(SniffToolAttr::try_from_string("check_unsafe_pub"), None);
    assert_eq!(SniffToolAttr::try_from_string("whatever"), None);
}

#[test]
fn marker_tokens_parse_with_pub_suffix() {
    assert_eq!(
        SniffToolAttr::try_from_string_pub("check_unsafe"),
        Some((SniffToolAttr::CheckUnsafe, false))
    );
    assert_eq!(
        SniffToolAttr::try_from_string_pub("check_unsafe_pub"),
        Some((SniffToolAttr::CheckUnsafe, true))
    );
    assert_eq!(
        SniffToolAttr::try_from_string_pub("check_panics_pub"),
        Some((SniffToolAttr::CheckPanics, true))
    );
    assert_eq!(SniffToolAttr::try_from_string_pub("x"), None);
}

#[test]
fn marker_tokens_name_their_property() {
    assert_eq!(SniffToolAttr::CheckUnsafe.property(), PropertyId::Safety);
    assert_eq!(SniffToolAttr::CheckPanics.property(), PropertyId::Panics);
}

#[test]
fn construct_builds_requirements_from_valid_pairs() {
    let reqs = Requirement::construct(vec![
        ("nn".to_string(), "must be non-null".to_string()),
        ("align".to_string(), "must be aligned".to_string()),
    ]);
    assert_eq!(reqs.len(), 2);
    assert_eq!(reqs[0].name().as_str(), "nn");
    assert_eq!(reqs[0].description(), "must be non-null");
    assert_eq!(reqs[1].name().as_str(), "align");
}

#[test]
fn consistency_requires_every_condition_name() {
    let reqs = vec![
        Requirement::new(ConditionName::try_new("nn").unwrap(), "non-null"),
        Requirement::new(ConditionName::try_new("align").unwrap(), "aligned"),
    ];
    let justs = vec![
        Justification::new(ConditionName::try_new("align").unwrap(), "checked"),
        Justification::new(ConditionName::try_new("nn").unwrap(), "checked too"),
    ];
    assert!(check_consistency(&justs, &reqs).is_ok());
    let partial = vec![Justification::new(
        ConditionName::try_new("align").unwrap(),
        "checked",
    )];
    let missing = check_consistency(&partial, &reqs).unwrap_err();
    assert_eq!(missing.missing_index, 0);
}

#[test]
fn safety_axiom_carries_canned_requirements() {
    match SafetyAxiom::RawPtrDeref.known_requirements() {
        Some(AxiomaticBadness::Conditional(reqs)) => {
            assert_eq!(reqs.len(), 2);
            assert_eq!(reqs[0].name().as_str(), "ptr-non-null");
            assert_eq!(reqs[1].name().as_str(), "ptr-aligned");
        },
        other => panic!("expected conditional requirements, got {other:?}"),
    }
    assert!(matches!(
        PanicAxiom::ExplicitPanic.known_requirements(),
        Some(AxiomaticBadness::Unconditional)
    ));
}

#[test]
fn bullet_kind_detect_names_both_occurrences() {
    let v = chars_vec("* a: x\n- b: y");
    match BulletKind::detect(&v, 0, v.len()) {
        Err(ParsingIssue::NonMatchingBullets(occ)) => {
            assert_eq!(occ.len(), 2);
            assert_eq!(occ[0].1, "*");
            assert_eq!(occ[1].1, "\n-");
        },
        other => panic!("expected mixed styles, got {other:?}"),
    }
    let hy = chars_vec("- b: y");
    assert!(matches!(BulletKind::detect(&hy, 0, hy.len()), Ok(BulletKind::Hyphen)));
    let empty = chars_vec("no bullets here");
    assert!(matches!(
        BulletKind::detect(&empty, 0, empty.len()),
        Err(ParsingIssue::EmptyMarker)
    ));
}
