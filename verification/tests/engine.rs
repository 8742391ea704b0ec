use sniff_test::check::CheckStats;
use sniff_test::check::DocText;
use sniff_test::check::FnModel;
use sniff_test::check::FoundAxiomModel;
use sniff_test::check::ProgramModel;
use sniff_test::check::analysis_entry_points;
use sniff_test::check::check_crate_for_property;
use sniff_test::config::SniffTestArgs;
use sniff_test::diag::Diagnostic;
use sniff_test::diag::DiagnosticKind;
use sniff_test::property::SafetyProperty;
use sniff_test::reach::CallGraph;
use sniff_test::reach::CallSite;
use sniff_test::reach::CalleeId;
use sniff_test::reach::LocallyReachable;
use sniff_test::reach::group_calls;
use sniff_test::reach::locally_reachable_from;
use sniff_test::overrides::OverrideDoc;
use sniff_test::overrides::OverrideField;
use sniff_test::overrides::OverrideValue;
use sniff_test::overrides::TomlAnnotation;
use sniff_test::spans::SrcSpan;
use sniff_test::annot::SpannedCondition;
use sniff_test::check::ExpressionAnnotation;
use sniff_test::check::parse_fn_def;
use sniff_test::names::InvalidConditionNameReason;
use sniff_test::annot::Requirement;
use sniff_test::check::model_is_wf;
use sniff_test::check::parse_expr;
use sniff_test::annot::Obligation;

fn sp(lo: u32) -> SrcSpan {
    SrcSpan { lo, hi: lo + 1 }
}

fn plain_fn(name: &str) -> FnModel {
    FnModel {
        name: name.to_string(),
        docs: None,
        is_public: false,
        is_unsafe: false,
        attrs: vec![],
        trait_method: None,
    }
}

fn documented_fn(name: &str, text: &str) -> FnModel {
    FnModel {
        name: name.to_string(),
        docs: Some(DocText {
            text: text.to_string(),
            fragments: vec![],
        }),
        is_public: false,
        is_unsafe: false,
        attrs: vec![],
        trait_method: None,
    }
}

fn entry_attr() -> Vec<Vec<String>> {
    vec![vec!["sniff_tool".to_string(), "check_unsafe".to_string()]]
}

fn fine_cfg() -> SniffTestArgs {
    SniffTestArgs {
        fine_grained: true,
        buzzword_checking: false,
        check_dependencies: false,
    }
}

#[test]
fn cyclic_call_graph_terminates_with_each_function_once() {
    // A calls B and B calls A: the walk terminates and each appears
    // exactly once.
    let graph = CallGraph {
        calls: vec![
            vec![CallSite {
                callee: CalleeId::Local(1),
                span: sp(10),
            }],
            vec![CallSite {
                callee: CalleeId::Local(0),
                span: sp(20),
            }],
        ],
    };
    let reachable = locally_reachable_from(&graph, &vec![0]);
    let mut seen: Vec<usize> = reachable.iter().map(|r| r.reach).collect();
    seen.sort();
    assert_eq!(seen, vec![0, 1]);
}

#[test]
fn walker_reports_witness_paths() {
    // main -> helper -> leaf: the leaf's witness path goes back through
    // both callers.
    let graph = CallGraph {
        calls: vec![
            vec![CallSite {
                callee: CalleeId::Local(1),
                span: sp(10),
            }],
            vec![CallSite {
                callee: CalleeId::Local(2),
                span: sp(20),
            }],
            vec![],
        ],
    };
    let reachable = locally_reachable_from(&graph, &vec![0]);
    let leaf: &LocallyReachable = reachable.iter().find(|r| r.reach == 2).unwrap();
    let path: Vec<usize> = leaf.through.iter().map(|e| e.0).collect();
    assert_eq!(path, vec![0, 1]);
}

#[test]
fn unreachable_functions_stay_out() {
    let graph = CallGraph {
        calls: vec![vec![], vec![]],
    };
    let reachable = locally_reachable_from(&graph, &vec![0]);
    assert_eq!(reachable.len(), 1);
    assert_eq!(reachable[0].reach, 0);
}

#[test]
fn calls_are_grouped_by_callee_in_first_seen_order() {
    let sites = vec![
        CallSite {
            callee: CalleeId::Local(7),
            span: sp(1),
        },
        CallSite {
            callee: CalleeId::Foreign(99),
            span: sp(2),
        },
        CallSite {
            callee: CalleeId::Local(7),
            span: sp(3),
        },
    ];
    let groups = group_calls(&sites);
    assert_eq!(groups.len(), 2);
    assert_eq!(groups[0].0, CalleeId::Local(7));
    assert_eq!(groups[0].1, vec![sp(1), sp(3)]);
    assert_eq!(groups[1].0, CalleeId::Foreign(99));
    assert_eq!(groups[1].1, vec![sp(2)]);
}

/// The model behind the worked example: an entry point calling an
/// annotated function, which calls an unannotated one containing a risky
/// operation.
fn example_model(
    caller_docs: Vec<String>,
    axiom_docs: Vec<String>,
) -> ProgramModel {
    let mut main_fn = plain_fn("main");
    main_fn.attrs = entry_attr();
    let mut foo = documented_fn("foo", "# Unsafe\n - nn: the pointer must be non-null");
    foo.is_unsafe = true;
    let bar = plain_fn("bar");
    ProgramModel {
        graph: CallGraph {
            calls: vec![
                vec![CallSite {
                    callee: CalleeId::Local(1),
                    span: sp(10),
                }],
                vec![CallSite {
                    callee: CalleeId::Local(2),
                    span: sp(20),
                }],
                vec![],
            ],
        },
        fns: vec![main_fn, foo, bar],
        foreigns: vec![],
        crate_attrs: vec![],
        axioms: vec![
            vec![],
            vec![],
            vec![FoundAxiomModel {
                span: sp(30),
                scope_docs: axiom_docs,
            }],
        ],
        call_docs: vec![vec![(sp(10), caller_docs)], vec![(sp(20), vec![])], vec![]],
    }
}

#[test]
fn unjustified_call_and_axiom_are_both_reported() {
    // The caller has no justification for the obligated call, and the
    // reachable unannotated function has an unjustified risky operation:
    // one diagnostic each.
    let model = example_model(vec![], vec![]);
    let overrides = TomlAnnotation::default();
    let (stats, diags) = check_crate_for_property(&SafetyProperty, &model, &overrides, fine_cfg());
    assert_eq!(stats.entrypoints, 1);
    assert_eq!(stats.total_fns_checked, 3);
    assert_eq!(stats.w_obligation, 1);
    assert_eq!(stats.w_no_obligation, 2);
    assert_eq!(diags.len(), 2);
}

#[test]
fn covering_justification_resolves_the_call() {
    // The call site names the required condition in a justification
    // bullet; only the risky operation deeper down stays unresolved.
    let model = example_model(
        vec!["SAFETY:\n - nn: the pointer was checked against null".to_string()],
        vec![],
    );
    let overrides = TomlAnnotation::default();
    let (_stats, diags) = check_crate_for_property(&SafetyProperty, &model, &overrides, fine_cfg());
    assert_eq!(diags.len(), 1);
    assert!(matches!(
        diags[0].kind,
        DiagnosticKind::Unjustified { function: 2, .. }
    ));
}

#[test]
fn justification_missing_the_condition_does_not_resolve() {
    // A justification section that names a different condition leaves
    // the call unresolved under the fine-grained mode.
    let model = example_model(
        vec!["SAFETY:\n - align: it is aligned".to_string()],
        vec!["SAFETY:\n - raw: this dereference is in bounds".to_string()],
    );
    let overrides = TomlAnnotation::default();
    let (_stats, diags) = check_crate_for_property(&SafetyProperty, &model, &overrides, fine_cfg());
    assert_eq!(diags.len(), 1);
    assert!(matches!(
        diags[0].kind,
        DiagnosticKind::Unjustified { function: 0, .. }
    ));
}

#[test]
fn fully_justified_run_is_clean() {
    let model = example_model(
        vec!["SAFETY:\n - nn: the pointer was checked against null".to_string()],
        vec!["SAFETY:\n - raw: this dereference is in bounds".to_string()],
    );
    let overrides = TomlAnnotation::default();
    let (stats, diags) = check_crate_for_property(&SafetyProperty, &model, &overrides, fine_cfg());
    assert_eq!(diags.len(), 0);
    assert_eq!(stats.total_fns_checked, 3);
}

#[test]
fn override_file_annotates_a_function_without_docs() {
    // `bar` has no documentation, but the override file declares its
    // requirements, so its body is no longer inspected; the call to it
    // from `foo` now needs a justification instead.
    let model = example_model(vec![], vec![]);
    let doc = sniff_tool_overrides();
    let (stats, diags) = check_crate_for_property(&SafetyProperty, &model, &doc, fine_cfg());
    // bar is now trusted but not marked unsafe, and main's call to foo
    // and foo's call to bar are both unjustified
    assert_eq!(stats.w_obligation, 2);
    assert!(diags.len() >= 2);
}

fn sniff_tool_overrides() -> TomlAnnotation {
    let doc = OverrideDoc::Table(vec![(
        "bar".to_string(),
        OverrideValue::Table(vec![(
            "requirements".to_string(),
            OverrideField::Str("# Unsafe\n - raw: the dereference stays in bounds".to_string()),
        )]),
    )]);
    TomlAnnotation::from_entries(doc).unwrap()
}

#[test]
fn trait_override_may_not_exceed_the_trait_contract() {
    // The impl method declares obligations; its trait's declared method
    // has none: a mismatch diagnostic names both.
    let mut impl_fn = documented_fn("T::f", "# Unsafe\n - nn: must be non-null");
    impl_fn.is_unsafe = true;
    impl_fn.trait_method = Some(1);
    impl_fn.attrs = entry_attr();
    let trait_fn = plain_fn("Trait::f");
    let model = ProgramModel {
        graph: CallGraph {
            calls: vec![vec![], vec![]],
        },
        fns: vec![impl_fn, trait_fn],
        foreigns: vec![],
        crate_attrs: vec![],
        axioms: vec![vec![], vec![]],
        call_docs: vec![vec![], vec![]],
    };
    let overrides = TomlAnnotation::default();
    let (_stats, diags) = check_crate_for_property(&SafetyProperty, &model, &overrides, fine_cfg());
    assert_eq!(diags.len(), 1);
    assert!(matches!(
        diags[0].kind,
        DiagnosticKind::TraitObligationMismatch {
            function: 0,
            trait_function: 1,
        }
    ));
}

#[test]
fn annotated_function_must_be_marked_unsafe() {
    let mut f = documented_fn("f", "# Unsafe\n - nn: must be non-null");
    f.attrs = entry_attr();
    // not marked unsafe at the language level
    let model = ProgramModel {
        graph: CallGraph { calls: vec![vec![]] },
        fns: vec![f],
        foreigns: vec![],
        crate_attrs: vec![],
        axioms: vec![vec![]],
        call_docs: vec![vec![]],
    };
    let overrides = TomlAnnotation::default();
    let (_stats, diags) = check_crate_for_property(&SafetyProperty, &model, &overrides, fine_cfg());
    assert_eq!(diags.len(), 1);
    assert!(matches!(
        diags[0].kind,
        DiagnosticKind::NotMarkedUnsafe { function: 0 }
    ));
}

#[test]
fn malformed_annotation_is_a_hard_error_in_fine_mode() {
    let mut f = documented_fn("f", "# Unsafe\n - non null: two words");
    f.is_unsafe = true;
    f.attrs = entry_attr();
    let model = ProgramModel {
        graph: CallGraph { calls: vec![vec![]] },
        fns: vec![f],
        foreigns: vec![],
        crate_attrs: vec![],
        axioms: vec![vec![]],
        call_docs: vec![vec![]],
    };
    let overrides = TomlAnnotation::default();
    let (_stats, diags) = check_crate_for_property(&SafetyProperty, &model, &overrides, fine_cfg());
    assert_eq!(diags.len(), 1);
    assert!(matches!(
        diags[0].kind,
        DiagnosticKind::MalformedAnnotation { function: 0, .. }
    ));
}

#[test]
fn global_pub_marker_selects_public_functions() {
    let mut a = plain_fn("a");
    a.is_public = true;
    let b = plain_fn("b");
    let mut c = plain_fn("c");
    c.attrs = entry_attr();
    let model = ProgramModel {
        graph: CallGraph {
            calls: vec![vec![], vec![], vec![]],
        },
        fns: vec![a, b, c],
        foreigns: vec![],
        crate_attrs: vec![vec![
            "sniff_tool".to_string(),
            "check_unsafe_pub".to_string(),
        ]],
        axioms: vec![vec![], vec![], vec![]],
        call_docs: vec![vec![], vec![], vec![]],
    };
    let entries = analysis_entry_points(&SafetyProperty, &model).unwrap();
    assert_eq!(entries, vec![0, 2]);
}

#[test]
fn global_marker_selects_every_function() {
    let model = ProgramModel {
        graph: CallGraph {
            calls: vec![vec![], vec![]],
        },
        fns: vec![plain_fn("a"), plain_fn("b")],
        foreigns: vec![],
        crate_attrs: vec![vec!["sniff_tool".to_string(), "check_unsafe".to_string()]],
        axioms: vec![vec![], vec![]],
        call_docs: vec![vec![], vec![]],
    };
    let entries = analysis_entry_points(&SafetyProperty, &model).unwrap();
    assert_eq!(entries, vec![0, 1]);
}

#[test]
fn conflicting_global_markers_are_one_diagnostic() {
    let model = ProgramModel {
        graph: CallGraph { calls: vec![vec![]] },
        fns: vec![plain_fn("a")],
        foreigns: vec![],
        crate_attrs: vec![
            vec!["sniff_tool".to_string(), "check_unsafe".to_string()],
            vec!["sniff_tool".to_string(), "check_unsafe_pub".to_string()],
        ],
        axioms: vec![vec![]],
        call_docs: vec![vec![]],
    };
    let overrides = TomlAnnotation::default();
    let (stats, diags) = check_crate_for_property(&SafetyProperty, &model, &overrides, fine_cfg());
    assert_eq!(stats, CheckStats {
        entrypoints: 0,
        total_fns_checked: 0,
        w_obligation: 0,
        w_no_obligation: 0,
    });
    assert_eq!(diags.len(), 1);
    assert!(matches!(
        diags[0].kind,
        DiagnosticKind::ConflictingGlobalMarkers
    ));
}

#[test]
fn coarse_mode_accepts_a_bare_marker_and_a_bare_acknowledgment() {
    // Without the fine-grained mode, a requirement section without
    // determinable conditions still obliges callers to acknowledge the
    // property, and a bare justification marker suffices.
    let mut main_fn = plain_fn("main");
    main_fn.attrs = entry_attr();
    let mut foo = documented_fn("foo", "# Unsafe");
    foo.is_unsafe = true;
    let model = ProgramModel {
        graph: CallGraph {
            calls: vec![
                vec![CallSite {
                    callee: CalleeId::Local(1),
                    span: sp(10),
                }],
                vec![],
            ],
        },
        fns: vec![main_fn, foo],
        foreigns: vec![],
        crate_attrs: vec![],
        axioms: vec![vec![], vec![]],
        call_docs: vec![
            vec![(sp(10), vec!["SAFETY:\nwe know what we are doing".to_string()])],
            vec![],
        ],
    };
    let cfg = SniffTestArgs {
        fine_grained: false,
        buzzword_checking: false,
        check_dependencies: false,
    };
    let overrides = TomlAnnotation::default();
    let (_stats, diags) = check_crate_for_property(&SafetyProperty, &model, &overrides, cfg);
    assert_eq!(diags.len(), 0);
}

#[test]
fn buzzword_fallback_covers_prose_justifications() {
    // The justification has no bullet structure, but the prose names the
    // condition's buzzword, and buzzword checking is on.
    let model = example_model(
        vec!["SAFETY:\nthe nn argument was already checked".to_string()],
        vec!["SAFETY:\n - raw: in bounds".to_string()],
    );
    let cfg = SniffTestArgs {
        fine_grained: true,
        buzzword_checking: true,
        check_dependencies: false,
    };
    let overrides = TomlAnnotation::default();
    let (_stats, diags) = check_crate_for_property(&SafetyProperty, &model, &overrides, cfg);
    assert_eq!(diags.len(), 0);
}

#[test]
fn diagnostics_carry_the_reachability_path() {
    let model = example_model(vec![], vec![]);
    let overrides = TomlAnnotation::default();
    let (_stats, diags) = check_crate_for_property(&SafetyProperty, &model, &overrides, fine_cfg());
    let bar_diag: &Diagnostic = diags
        .iter()
        .find(|d| matches!(d.kind, DiagnosticKind::Unjustified { function: 2, .. }))
        .unwrap();
    let has_path = bar_diag.notes.iter().any(|n| {
        matches!(n, sniff_test::diag::Note::ReachablePath(p) if p.iter().map(|e| e.0).collect::<Vec<_>>() == vec![0, 1])
    });
    assert!(has_path);
}

#[test]
fn model_wf_check_catches_misaligned_tables() {
    let good = example_model(vec![], vec![]);
    assert!(model_is_wf(&good));
    let mut bad = example_model(vec![], vec![]);
    bad.axioms.pop();
    assert!(!model_is_wf(&bad));
    let mut dangling = example_model(vec![], vec![]);
    dangling.graph.calls[2].push(CallSite {
        callee: CalleeId::Local(9),
        span: sp(40),
    });
    assert!(!model_is_wf(&dangling));
}

#[test]
fn parse_expr_finds_the_innermost_marked_scope() {
    let docs = vec![
        "nothing here".to_string(),
        "SAFETY:\n - nn: checked".to_string(),
    ];
    let ann = parse_expr(&SafetyProperty, &docs).unwrap();
    assert_eq!(ann.text, " - nn: checked");
    let none = parse_expr(&SafetyProperty, &vec!["plain docs".to_string()]);
    assert!(none.is_none());
}

#[test]
fn def_annotation_obligations_follow_the_mode() {
    let mut foo = documented_fn("foo", "# Unsafe\n - nn: the pointer must be non-null");
    foo.is_unsafe = true;
    let overrides = TomlAnnotation::default();
    let ann = parse_fn_def(&SafetyProperty, &overrides, &foo, fine_cfg(), true)
        .unwrap()
        .unwrap();
    match ann.creates_obligation(true) {
        Some(Obligation::ConsiderConditions(conds)) => {
            assert_eq!(conds.len(), 1);
            assert_eq!(conds[0].name, "nn");
            assert_eq!(conds[0].description, "the pointer must be non-null");
        },
        other => panic!("expected named conditions, got {other:?}"),
    }
    assert!(matches!(
        ann.creates_obligation(false),
        Some(Obligation::ConsiderProperty)
    ));
}

#[test]
fn witness_paths_are_shortest() {
    // Two routes to the same function: directly from the entry point,
    // and through a helper. The recorded witness is the one-edge route.
    let graph = CallGraph {
        calls: vec![
            vec![
                CallSite {
                    callee: CalleeId::Local(1),
                    span: sp(10),
                },
                CallSite {
                    callee: CalleeId::Local(2),
                    span: sp(11),
                },
            ],
            vec![CallSite {
                callee: CalleeId::Local(2),
                span: sp(20),
            }],
            vec![],
        ],
    };
    let reachable = locally_reachable_from(&graph, &vec![0]);
    let leaf = reachable.iter().find(|r| r.reach == 2).unwrap();
    assert_eq!(leaf.through.len(), 1);
    assert_eq!(leaf.through[0].0, 0);
}

#[test]
fn prose_annotation_satisfies_obligations_by_buzzword() {
    let ann = ExpressionAnnotation {
        text: "\nthe pointer is valid and its alignment was checked".to_string(),
    };
    let cfg = SniffTestArgs {
        fine_grained: true,
        buzzword_checking: true,
        check_dependencies: false,
    };
    assert!(ann.satisfies_obligation(&Obligation::ConsiderProperty, cfg).is_ok());
    let conds = vec![
        SpannedCondition {
            span: sp(1),
            name: "validity".to_string(),
            description: "must be valid".to_string(),
        },
        SpannedCondition {
            span: sp(2),
            name: "soundness".to_string(),
            description: "must be sound".to_string(),
        },
    ];
    let missed = ann
        .satisfies_obligation(&Obligation::ConsiderConditions(conds), cfg)
        .unwrap_err();
    assert_eq!(missed.len(), 1);
    assert_eq!(missed[0].name, "soundness");
}

#[test]
fn trait_override_within_declared_conditions_is_clean() {
    // The trait declares both conditions; the override names a subset:
    // every obligation the override implies is already implied.
    let mut impl_fn = documented_fn("T::f", "# Unsafe\n - nn: must be non-null");
    impl_fn.is_unsafe = true;
    impl_fn.trait_method = Some(1);
    impl_fn.attrs = entry_attr();
    let mut trait_fn = documented_fn(
        "Trait::f",
        "# Unsafe\n - nn: must be non-null\n - align: must be aligned",
    );
    trait_fn.is_unsafe = true;
    let model = ProgramModel {
        graph: CallGraph {
            calls: vec![vec![], vec![]],
        },
        fns: vec![impl_fn, trait_fn],
        foreigns: vec![],
        crate_attrs: vec![],
        axioms: vec![vec![], vec![]],
        call_docs: vec![vec![], vec![]],
    };
    let overrides = TomlAnnotation::default();
    let (_stats, diags) = check_crate_for_property(&SafetyProperty, &model, &overrides, fine_cfg());
    assert_eq!(diags.len(), 0);
}

#[test]
fn trait_override_adding_a_condition_is_a_mismatch() {
    // The override names a condition the trait's declaration does not:
    // a stricter override is disallowed.
    let mut impl_fn = documented_fn(
        "T::f",
        "# Unsafe\n - nn: must be non-null\n - align: must be aligned",
    );
    impl_fn.is_unsafe = true;
    impl_fn.trait_method = Some(1);
    impl_fn.attrs = entry_attr();
    let mut trait_fn = documented_fn("Trait::f", "# Unsafe\n - nn: must be non-null");
    trait_fn.is_unsafe = true;
    let model = ProgramModel {
        graph: CallGraph {
            calls: vec![vec![], vec![]],
        },
        fns: vec![impl_fn, trait_fn],
        foreigns: vec![],
        crate_attrs: vec![],
        axioms: vec![vec![], vec![]],
        call_docs: vec![vec![], vec![]],
    };
    let overrides = TomlAnnotation::default();
    let (_stats, diags) = check_crate_for_property(&SafetyProperty, &model, &overrides, fine_cfg());
    assert_eq!(diags.len(), 1);
    assert!(matches!(
        diags[0].kind,
        DiagnosticKind::TraitObligationMismatch {
            function: 0,
            trait_function: 1,
        }
    ));
}

#[test]
fn unjustified_diagnostic_carries_primary_spans() {
    // The aggregated diagnostic's primary spans are the unresolved axiom
    // spans followed by the unresolved call spans.
    let model = example_model(vec![], vec![]);
    let overrides = TomlAnnotation::default();
    let (_stats, diags) = check_crate_for_property(&SafetyProperty, &model, &overrides, fine_cfg());
    let main_diag = diags
        .iter()
        .find(|d| matches!(d.kind, DiagnosticKind::Unjustified { function: 0, .. }))
        .unwrap();
    assert_eq!(main_diag.primary_spans, vec![sp(10)]);
    let bar_diag = diags
        .iter()
        .find(|d| matches!(d.kind, DiagnosticKind::Unjustified { function: 2, .. }))
        .unwrap();
    assert_eq!(bar_diag.primary_spans, vec![sp(30)]);
}

#[test]
fn requirement_try_new_distinguishes_error_reasons() {
    let ok = Requirement::try_new("nn", "must be non-null").unwrap();
    assert_eq!(ok.name().as_str(), "nn");
    assert_eq!(ok.description(), "must be non-null");
    assert_eq!(
        Requirement::try_new("non null", "x").unwrap_err(),
        InvalidConditionNameReason::MultipleWords
    );
    assert_eq!(
        Requirement::try_new("nn ", "x").unwrap_err(),
        InvalidConditionNameReason::TrailingWhitespace
    );
}

#[test]
fn def_annotation_text_is_the_section() {
    // The stored annotation text runs from the marker's end to the next
    // section header, not to the end of the document.
    let mut foo = documented_fn(
        "foo",
        "# Unsafe\n - nn: must be non-null\n# Usage\nwhatever",
    );
    foo.is_unsafe = true;
    let overrides = TomlAnnotation::default();
    let ann = parse_fn_def(&SafetyProperty, &overrides, &foo, fine_cfg(), true)
        .unwrap()
        .unwrap();
    assert_eq!(ann.text, " - nn: must be non-null");
}
