//! The obligation-consistency engine.
//!
//! For each function reachable from the entry-point set, the checker
//! decides whether the function is trusted (directly annotated with
//! obligations) or must be inspected. A trusted function's annotation is
//! held against its trait's declared annotation and against the
//! language-level unsafe marker; an untrusted function's found axioms and
//! obligated calls are each resolved against the justification sections
//! of their enclosing scopes, and every unresolved occurrence is reported
//! with full provenance.
//!
//! The frontend hands the engine a plain-value model of the program: the
//! call sites per function, each function's name, documentation,
//! visibility, markers and trait link, the axioms its body shows, and the
//! documentation of the scopes enclosing each call site.

use vstd::prelude::*;
use crate::annot::DefAnnotation;
use crate::annot::AnnotationSource;
use crate::annot::Obligation;
use crate::annot::PropertyViolation;
use crate::annot::SpannedCondition;
use crate::config::SniffTestArgs;
use crate::diag::Diagnostic;
use crate::diag::DiagnosticKind;
use crate::diag::Note;
use crate::diag::Severity;
use crate::justify::buzzword_satisfied;
use crate::justify::buzzword_satisfied_spec;
use crate::justify::lower_of;
use crate::justify::lowercase;
use crate::marker::MarkerStyle;
use crate::marker::SectionMarker;
use crate::marker::find_marker;
use crate::marker::find_marker_from;
use crate::overrides::TomlAnnotation;
use crate::parse::ParsingIssue;
use crate::parse::SpecIssue;
use crate::parse::parse_bullets_from_string;
use crate::parse::parse_bullets_spec;
use crate::property::Property;
use crate::reach::CallGraph;
use crate::reach::CalleeId;
use crate::spans::DocFragment;
use crate::spans::SrcSpan;
use crate::spans::contribs;
use crate::spans::frags_wf;
use crate::spans::merge_adjacent_spec;
use crate::spans::span_some_comments;
use crate::spans::span_all_comments;
use crate::text::chars_vec;
use crate::text::string_from_range;
use crate::text::str_eq;

verus! {

/// The documentation attached to one item: the joined logical text and
/// the fragments it came from.
///
/// For diagnostics on two adjacent comment lines to merge into one span,
/// the frontend must hand the fragments in with abutting origin spans
/// (the first line's span ending exactly where the next line's starts);
/// origin spans separated by a newline byte never merge.
#[derive(Debug)]
pub struct DocText {
    pub text: String,
    pub fragments: Vec<DocFragment>,
}

/// One function of the modelled program.
#[derive(Debug)]
pub struct FnModel {
    /// The fully-qualified name, used for override lookup and
    /// diagnostics.
    pub name: String,
    /// The function's documentation, when it has any.
    pub docs: Option<DocText>,
    pub is_public: bool,
    /// Whether the function is marked unsafe at the language level.
    pub is_unsafe: bool,
    /// The function's tool attributes, as path segments.
    pub attrs: Vec<Vec<String>>,
    /// The trait method this function overrides, if it is a trait-impl
    /// method.
    pub trait_method: Option<usize>,
}

/// One risky operation the external axiom predicate found in a function
/// body: its span and the documentation of its enclosing scopes,
/// innermost first.
#[derive(Debug)]
pub struct FoundAxiomModel {
    pub span: SrcSpan,
    pub scope_docs: Vec<String>,
}

/// The whole program model one check invocation works on.
#[derive(Debug)]
pub struct ProgramModel {
    /// The call sites of each local function.
    pub graph: CallGraph,
    /// One record per local function, aligned with `graph`.
    pub fns: Vec<FnModel>,
    /// Models of the foreign functions the program calls, by identifier.
    pub foreigns: Vec<(u64, FnModel)>,
    /// The crate-level tool attributes.
    pub crate_attrs: Vec<Vec<String>>,
    /// The axioms found in each local function's body.
    pub axioms: Vec<Vec<FoundAxiomModel>>,
    /// For each local function, the documentation of the scopes
    /// enclosing each call span, innermost first.
    pub call_docs: Vec<Vec<(SrcSpan, Vec<String>)>>,
}

/// Well-formedness of a function model: its documentation fragments are
/// mappable.
pub open spec fn fn_model_wf(fm: FnModel) -> bool {
    match fm.docs {
        Some(dt) => frags_wf(dt.fragments@),
        None => true,
    }
}

/// Well-formedness of the whole model: aligned tables and mappable
/// documentation everywhere.
pub open spec fn model_wf(m: ProgramModel) -> bool {
    &&& crate::reach::graph_wf(crate::reach::graph_view(m.graph.calls@))
    &&& m.fns@.len() == m.graph.calls@.len()
    &&& m.axioms@.len() == m.graph.calls@.len()
    &&& m.call_docs@.len() == m.graph.calls@.len()
    &&& forall|i: int| 0 <= i < m.fns@.len() ==> fn_model_wf(#[trigger] m.fns@[i])
    &&& forall|i: int| 0 <= i < m.foreigns@.len() ==> fn_model_wf((#[trigger] m.foreigns@[i]).1)
}

/// The text of an optional documentation record.
pub open spec fn doc_text_view(d: Option<DocText>) -> Option<Seq<char>> {
    match d {
        Some(dt) => Some(dt.text@),
        None => None,
    }
}

/// The documentation string an annotation is parsed from: the override
/// entry when the file has one, the item's own documentation otherwise.
pub open spec fn chosen_doc(
    ov: Map<Seq<char>, Seq<char>>,
    name: Seq<char>,
    doc: Option<Seq<char>>,
) -> Option<(Seq<char>, bool)> {
    if ov.contains_key(name) {
        Some((ov[name], true))
    } else {
        match doc {
            Some(d) => Some((d, false)),
            None => None,
        }
    }
}

/// What a function's requirement annotation amounts to.
pub enum AnnOutcome {
    /// No documentation, or no requirement marker: the item simply is
    /// not annotated.
    NotAnnotated,
    /// A well-formed bulleted requirement section: the parsed
    /// conditions.
    Conditional(Seq<(Seq<char>, Seq<char>, (int, int))>),
    /// A requirement marker without determinable conditions, coarsened
    /// to an unconditional violation annotation.
    Unconditional,
    /// A malformed annotation, surfaced as a hard error under the
    /// fine-grained mode for local (or opted-in dependency) functions.
    Hard(SpecIssue),
}

/// The outcome of parsing one function's requirement annotation under a
/// marker and a run mode. `strict` holds when the function is local or
/// dependency checking is opted in: only then are malformed annotations
/// hard errors rather than coarsened to `Unconditional`.
pub open spec fn ann_outcome(
    m: (MarkerStyle, Seq<char>, Seq<char>),
    ov: Map<Seq<char>, Seq<char>>,
    name: Seq<char>,
    doc: Option<Seq<char>>,
    fine: bool,
    strict: bool,
) -> AnnOutcome {
    match chosen_doc(ov, name, doc) {
        None => AnnOutcome::NotAnnotated,
        Some((d, _)) => match parse_bullets_spec(d, m.0, m.1, m.2) {
            Ok(ts) => AnnOutcome::Conditional(ts),
            Err(e) => if e is NoMarkerPattern {
                AnnOutcome::NotAnnotated
            } else if fine && strict {
                AnnOutcome::Hard(e)
            } else {
                AnnOutcome::Unconditional
            },
        },
    }
}

/// The caller-facing obligation a parsed annotation induces.
pub enum ObligationSpec {
    /// Callers must acknowledge the property.
    Property,
    /// Callers must name each of these conditions.
    Conditions(Seq<Seq<char>>),
}

/// The condition names of parsed bullets.
pub open spec fn names_of(ts: Seq<(Seq<char>, Seq<char>, (int, int))>) -> Seq<Seq<char>> {
    ts.map_values(|t: (Seq<char>, Seq<char>, (int, int))| t.0)
}

/// The obligation of an annotation outcome under a run mode. A malformed
/// annotation still obliges callers to acknowledge the property, while
/// the malformation itself is reported at the annotated function.
pub open spec fn obligation_of(o: AnnOutcome, fine: bool) -> Option<ObligationSpec> {
    match o {
        AnnOutcome::NotAnnotated => None,
        AnnOutcome::Conditional(ts) => if fine {
            Some(ObligationSpec::Conditions(names_of(ts)))
        } else {
            Some(ObligationSpec::Property)
        },
        AnnOutcome::Unconditional => Some(ObligationSpec::Property),
        AnnOutcome::Hard(_) => Some(ObligationSpec::Property),
    }
}

/// Whether a declared obligation names the condition.
pub open spec fn name_among(nt: Seq<Seq<char>>, n: Seq<char>) -> bool {
    exists|j: int| 0 <= j < nt.len() && nt[j] == n
}

/// Whether an override's obligation is already implied by its trait's
/// declared obligation: no obligation is implied by anything; a general
/// acknowledgment is implied by any declared obligation; named
/// conditions are implied only when the trait's declaration names each
/// of them.
pub open spec fn obligation_within(
    sub: Option<ObligationSpec>,
    sup: Option<ObligationSpec>,
) -> bool {
    match sub {
        None => true,
        Some(ObligationSpec::Property) => sup is Some,
        Some(ObligationSpec::Conditions(ns)) => match sup {
            Some(ObligationSpec::Conditions(nt)) => forall|i: int|
                0 <= i < ns.len() ==> name_among(nt, #[trigger] ns[i]),
            Some(ObligationSpec::Property) => ns.len() == 0,
            None => false,
        },
    }
}

/// The views of a list of scope documentation strings.
pub open spec fn scope_docs_view(ds: Seq<String>) -> Seq<Seq<char>> {
    ds.map_values(|s: String| s@)
}

/// The first scope documentation, innermost first, that carries the
/// justification marker.
pub open spec fn first_marked(
    ds: Seq<Seq<char>>,
    m: (MarkerStyle, Seq<char>, Seq<char>),
    i: int,
) -> Option<int>
    decreases ds.len() - i,
{
    if i < 0 || i >= ds.len() {
        None
    } else if find_marker_from(ds[i], m.0, m.1, m.2, 0, 0) is Some {
        Some(i)
    } else {
        first_marked(ds, m, i + 1)
    }
}

/// The text after the justification marker of a document, used by the
/// free-form coverage fallback.
pub open spec fn marker_suffix(d: Seq<char>, m: (MarkerStyle, Seq<char>, Seq<char>)) -> Seq<char> {
    match find_marker_from(d, m.0, m.1, m.2, 0, 0) {
        Some((st, en)) => d.subrange(en, d.len() as int),
        None => d,
    }
}

/// Whether some parsed justification bullet names the condition.
pub open spec fn cover_one(js: Seq<(Seq<char>, Seq<char>, (int, int))>, n: Seq<char>) -> bool {
    exists|j: int| 0 <= j < js.len() && (#[trigger] js[j]).0 == n
}

/// Whether the parsed justification bullets name every required
/// condition.
pub open spec fn bullets_cover(
    js: Seq<(Seq<char>, Seq<char>, (int, int))>,
    names: Seq<Seq<char>>,
) -> bool {
    forall|i: int| 0 <= i < names.len() ==> cover_one(js, #[trigger] names[i])
}

/// Whether one justification document discharges the named conditions:
/// by explicit bullets naming each, or — when the document has no
/// well-formed bullet structure and the configuration allows it — by the
/// case-normalized prose containing each name.
pub open spec fn doc_discharges(
    d: Seq<char>,
    m: (MarkerStyle, Seq<char>, Seq<char>),
    cfg: SniffTestArgs,
    names: Seq<Seq<char>>,
) -> bool {
    match parse_bullets_spec(d, m.0, m.1, m.2) {
        Ok(js) => bullets_cover(js, names),
        Err(_) => cfg.buzzword_checking && forall|i: int|
            0 <= i < names.len() ==> buzzword_satisfied_spec(
                lower_of(marker_suffix(d, m)),
                #[trigger] names[i],
            ),
    }
}

/// Whether a call site with the given enclosing documentation satisfies
/// the callee's obligation.
pub open spec fn callsite_justified(
    ds: Seq<Seq<char>>,
    m: (MarkerStyle, Seq<char>, Seq<char>),
    cfg: SniffTestArgs,
    obl: ObligationSpec,
) -> bool {
    match first_marked(ds, m, 0) {
        None => false,
        Some(i) => match obl {
            ObligationSpec::Property => true,
            ObligationSpec::Conditions(names) => doc_discharges(ds[i], m, cfg, names),
        },
    }
}

/// The spec-level view of an exec obligation value.
pub open spec fn obl_view(o: Obligation) -> ObligationSpec {
    match o {
        Obligation::ConsiderProperty => ObligationSpec::Property,
        Obligation::ConsiderConditions(cs) => ObligationSpec::Conditions(
            cs@.map_values(|c: SpannedCondition| c.name@),
        ),
    }
}

/// The first mapped source span of a character range of the logical
/// documentation text, or the zero span when the range maps nowhere.
pub open spec fn doc_src_span_spec(fs: Seq<DocFragment>, lo: int, hi: int) -> SrcSpan {
    let m = merge_adjacent_spec(contribs(fs, 0, lo, hi));
    if m.len() > 0 {
        SrcSpan { lo: m[0].0 as u32, hi: m[0].1 as u32 }
    } else {
        SrcSpan { lo: 0, hi: 0 }
    }
}

/// The first mapped source span of a character range, or the zero span.
pub fn doc_src_span(frags: &Vec<DocFragment>, lo: usize, hi: usize) -> (s: SrcSpan)
    requires
        frags_wf(frags@),
    ensures
        s == doc_src_span_spec(frags@, lo as int, hi as int),
{
    match span_some_comments(frags, lo, hi) {
        Some(v) => {
            proof {
                assert(crate::spans::spans_view(v@)[0] == (v@[0].lo as int, v@[0].hi as int));
            }
            v[0]
        },
        None => {
            proof {
                crate::spans::lemma_merge_len(contribs(frags@, 0, lo as int, hi as int));
            }
            SrcSpan { lo: 0, hi: 0 }
        },
    }
}

/// The annotation source record for a parsed definition annotation.
fn mk_source(from_override: bool, docs: &Option<DocText>) -> (r: AnnotationSource)
    requires
        match docs {
            Some(dt) => frags_wf(dt.fragments@),
            None => true,
        },
    ensures
        r is TomlOverride <==> from_override,
{
    if from_override {
        AnnotationSource::TomlOverride
    } else {
        match docs {
            Some(dt) => AnnotationSource::DocComment(span_all_comments(&dt.fragments)),
            None => AnnotationSource::DocComment(Vec::new()),
        }
    }
}

/// Parse one function's requirement annotation for a property.
///
/// Returns `None` when the function simply is not annotated (no
/// documentation and no override, or no requirement marker). Returns the
/// parsed annotation otherwise: the conditions of a well-formed bulleted
/// section, or an unconditional violation when the section's conditions
/// cannot be determined under the coarse mode. Under the fine-grained
/// mode, a malformed section of a local function (or of a dependency
/// when dependency checking is on) is returned as the hard parse error.
#[verifier::loop_isolation(false)]
pub fn parse_fn_def<P: Property>(
    p: &P,
    overrides: &TomlAnnotation,
    fm: &FnModel,
    cfg: SniffTestArgs,
    is_local: bool,
) -> (r: Option<Result<DefAnnotation, ParsingIssue>>)
    requires
        fn_model_wf(*fm),
    ensures
        ({
            let o = ann_outcome(
                p.spec_req_marker(),
                overrides@,
                fm.name@,
                doc_text_view(fm.docs),
                cfg.fine_grained,
                is_local || cfg.check_dependencies,
            );
            match r {
                None => o is NotAnnotated,
                Some(Err(e)) => o == AnnOutcome::Hard(e@),
                Some(Ok(a)) => {
                    &&& (a.source is TomlOverride <==> overrides@.contains_key(fm.name@))
                    &&& a.text@ == ann_section_text(
                        (chosen_doc(overrides@, fm.name@, doc_text_view(fm.docs))->0).0,
                        p.spec_req_marker(),
                    )
                    &&& match a.local_violation_annotation {
                        PropertyViolation::Conditionally(cs) => o matches AnnOutcome::Conditional(
                            ts,
                        ) && cs@.len() == ts.len() && (forall|i: int|
                            0 <= i < ts.len() ==> (#[trigger] cs@[i]).name@ == ts[i].0
                                && cs@[i].description@ == ts[i].1 && cs@[i].span == cond_span(
                                overrides@.contains_key(fm.name@),
                                fm.docs,
                                ts[i].2,
                            )),
                        PropertyViolation::Unconditional => o is Unconditional,
                        PropertyViolation::Never => false,
                    }
                },
            }
        }),
{
    let (doc_str, from_override): (String, bool) = match overrides.get_requirements_string(
        fm.name.as_str(),
    ) {
        Some(s) => (s.clone(), true),
        None => {
            match &fm.docs {
                Some(dt) => (dt.text.clone(), false),
                None => {
                    return None;
                },
            }
        },
    };
    let m = p.requirement_marker();
    let v = chars_vec(doc_str.as_str());
    match parse_bullets_from_string(doc_str.as_str(), &m) {
        Err(e) => {
            if matches!(e, ParsingIssue::NoMarkerPattern) {
                return None;
            }
            if cfg.fine_grained && (is_local || cfg.check_dependencies) {
                return Some(Err(e));
            }
            let source = mk_source(from_override, &fm.docs);
            let text = section_text(&v, &m);
            Some(
                Ok(
                    DefAnnotation {
                        local_violation_annotation: PropertyViolation::Unconditional,
                        text,
                        source,
                    },
                ),
            )
        },
        Ok(triples) => {
            let ghost ts = ann_outcome_conditional_ts(
                p.spec_req_marker(),
                overrides@,
                fm.name@,
                doc_text_view(fm.docs),
            );
            proof {
                assert(ts.len() == triples@.len());
                assert(forall|i: int|
                    0 <= i < triples@.len() ==> #[trigger] ts[i] == (triples@[i].0@, triples@[
                        i
                    ].1@, triples@[i].2@));
            }
            let mut conds: Vec<SpannedCondition> = Vec::new();
            let mut i: usize = 0;
            while i < triples.len()
                invariant
                    i <= triples@.len(),
                    conds@.len() == i,
                    forall|j: int|
                        0 <= j < i ==> (#[trigger] conds@[j]).name@ == ts[j].0 && conds@[
                            j
                        ].description@ == ts[j].1 && conds@[j].span == cond_span(
                            from_override,
                            fm.docs,
                            ts[j].2,
                        ),
                decreases triples@.len() - i,
            {
                let span: SrcSpan = if from_override {
                    SrcSpan { lo: 0, hi: 0 }
                } else {
                    match &fm.docs {
                        Some(dt) => doc_src_span(&dt.fragments, triples[i].2.lo, triples[i].2.hi),
                        None => SrcSpan { lo: 0, hi: 0 },
                    }
                };
                let name = triples[i].0.as_str().to_owned();
                let description = triples[i].1.clone();
                conds.push(SpannedCondition { span, name, description });
                i = i + 1;
            }
            let source = mk_source(from_override, &fm.docs);
            let text = section_text(&v, &m);
            Some(
                Ok(
                    DefAnnotation {
                        local_violation_annotation: PropertyViolation::Conditionally(conds),
                        text,
                        source,
                    },
                ),
            )
        },
    }
}

/// The parsed conditions of an annotation outcome, for relating the exec
/// build loop to the specification.
pub open spec fn ann_outcome_conditional_ts(
    m: (MarkerStyle, Seq<char>, Seq<char>),
    ov: Map<Seq<char>, Seq<char>>,
    name: Seq<char>,
    doc: Option<Seq<char>>,
) -> Seq<(Seq<char>, Seq<char>, (int, int))> {
    match chosen_doc(ov, name, doc) {
        None => Seq::empty(),
        Some((d, _)) => match parse_bullets_spec(d, m.0, m.1, m.2) {
            Ok(ts) => ts,
            Err(_) => Seq::empty(),
        },
    }
}

/// The section text of an annotated document: from the end of the
/// marker match to the next section end.
pub open spec fn ann_section_text(d: Seq<char>, m: (MarkerStyle, Seq<char>, Seq<char>)) -> Seq<
    char,
> {
    let en = (find_marker_from(d, m.0, m.1, m.2, 0, 0)->0).1;
    d.subrange(en, crate::marker::find_section_end(d, en))
}

/// The source span recorded for one parsed condition: the mapped span of
/// its bullet's range for a documentation comment, and the zero span for
/// an override-file annotation (which has no real span).
pub open spec fn cond_span(from_override: bool, docs: Option<DocText>, range: (int, int)) -> SrcSpan {
    if from_override {
        SrcSpan { lo: 0, hi: 0 }
    } else {
        match docs {
            Some(dt) => doc_src_span_spec(dt.fragments@, range.0, range.1),
            None => SrcSpan { lo: 0, hi: 0 },
        }
    }
}

/// Extract the annotation's section text from the document.
fn section_text(v: &Vec<char>, m: &SectionMarker) -> (t: String)
    requires
        m.wf(),
        find_marker_from(v@, m.style, m.word@, m.word_caps@, 0, 0) is Some,
    ensures
        t@ == ann_section_text(v@, (m.style, m.word@, m.word_caps@)),
{
    match find_marker(v, m, 0, 0) {
        Some((_st, en)) => {
            let hi = crate::marker::scan_section_end(v, en);
            string_from_range(v, en, hi)
        },
        None => {
            proof {
                assert(false);
            }
            String::new()
        },
    }
}

/// A justification annotation found on a call expression or one of its
/// enclosing scopes.
#[derive(Debug)]
pub struct ExpressionAnnotation {
    /// The text after the justification marker.
    pub text: String,
}

/// Find the innermost enclosing scope documentation that carries the
/// justification marker, and hand back the text after the marker.
#[verifier::loop_isolation(false)]
pub fn parse_expr<P: Property>(p: &P, scope_docs: &Vec<String>) -> (r: Option<ExpressionAnnotation>)
    ensures
        ({
            let ds = scope_docs_view(scope_docs@);
            let jm = p.spec_just_marker();
            match r {
                Some(a) => first_marked(ds, jm, 0) matches Some(i) && a.text@ == marker_suffix(
                    ds[i],
                    jm,
                ),
                None => first_marked(ds, jm, 0) is None,
            }
        }),
{
    let jm = p.justification_marker();
    let ghost ds = scope_docs_view(scope_docs@);
    let mut i: usize = 0;
    loop
        invariant
            i <= scope_docs@.len(),
            first_marked(ds, p.spec_just_marker(), 0) == first_marked(
                ds,
                p.spec_just_marker(),
                i as int,
            ),
        decreases scope_docs@.len() - i,
    {
        if i >= scope_docs.len() {
            return None;
        }
        proof {
            assert(ds[i as int] == scope_docs@[i as int]@);
        }
        let v = chars_vec(scope_docs[i].as_str());
        match find_marker(&v, &jm, 0, 0) {
            Some((_st, en)) => {
                let text = string_from_range(&v, en, v.len());
                proof {
                    assert(first_marked(ds, p.spec_just_marker(), i as int) == Some(i as int));
                }
                return Some(ExpressionAnnotation { text });
            },
            None => {
                i = i + 1;
            },
        }
    }
}

/// The conditions of `cs[i..]` that the case-normalized justification
/// prose does not name, directly or through a synonym.
pub open spec fn unconsidered_spec(
    tl: Seq<char>,
    cs: Seq<SpannedCondition>,
    i: int,
) -> Seq<SpannedCondition>
    decreases cs.len() - i,
{
    if i < 0 || i >= cs.len() {
        Seq::empty()
    } else {
        let rest = unconsidered_spec(tl, cs, i + 1);
        if buzzword_satisfied_spec(tl, cs[i].name@) {
            rest
        } else {
            seq![cs[i]] + rest
        }
    }
}

impl ExpressionAnnotation {
    /// The conditions the annotation's free-form prose does not cover.
    #[verifier::loop_isolation(false)]
    fn unconsidered_conditions(&self, conditions: &Vec<SpannedCondition>) -> (r: Vec<
        SpannedCondition,
    >)
        ensures
            r@ == unconsidered_spec(lower_of(self.text@), conditions@, 0),
    {
        let lowered = lowercase(self.text.as_str());
        let lv = chars_vec(lowered.as_str());
        let ghost tl = lower_of(self.text@);
        let mut out: Vec<SpannedCondition> = Vec::new();
        let mut i: usize = 0;
        while i < conditions.len()
            invariant
                i <= conditions@.len(),
                lv@ == tl,
                unconsidered_spec(tl, conditions@, 0) == out@ + unconsidered_spec(
                    tl,
                    conditions@,
                    i as int,
                ),
            decreases conditions@.len() - i,
        {
            let ghost pre = out@;
            let name_chars = chars_vec(conditions[i].name.as_str());
            if !buzzword_satisfied(&lv, &name_chars) {
                out.push(conditions[i].clone());
                proof {
                    assert(out@ =~= pre + seq![conditions@[i as int]]);
                    assert(pre + unconsidered_spec(tl, conditions@, i as int) =~= (pre + seq![
                        conditions@[i as int],
                    ]) + unconsidered_spec(tl, conditions@, i as int + 1));
                }
            } else {
                proof {
                    assert(pre + unconsidered_spec(tl, conditions@, i as int) =~= pre
                        + unconsidered_spec(tl, conditions@, i as int + 1));
                }
            }
            i = i + 1;
        }
        proof {
            assert(out@ + unconsidered_spec(tl, conditions@, i as int) =~= out@);
        }
        out
    }

    /// Whether this call-site annotation satisfies the callee's
    /// obligation by its free-form prose alone: a general acknowledgment
    /// always does, and named conditions are held against the
    /// case-normalized prose. The condition check is the soft buzzword
    /// fallback and runs only when the configuration enables it.
    ///
    /// Returns the conditions left unconsidered otherwise.
    pub fn satisfies_obligation(&self, obligation: &Obligation, cfg: SniffTestArgs) -> (r: Result<
        (),
        Vec<SpannedCondition>,
    >)
        requires
            obligation is ConsiderConditions ==> cfg.buzzword_checking,
        ensures
            match obligation {
                Obligation::ConsiderProperty => r is Ok,
                Obligation::ConsiderConditions(cs) => {
                    let u = unconsidered_spec(lower_of(self.text@), cs@, 0);
                    match r {
                        Ok(()) => u.len() == 0,
                        Err(missed) => missed@ == u && u.len() > 0,
                    }
                },
            },
    {
        match obligation {
            Obligation::ConsiderProperty => Ok(()),
            Obligation::ConsiderConditions(conditions) => {
                let missed = self.unconsidered_conditions(conditions);
                if missed.len() == 0 {
                    Ok(())
                } else {
                    Err(missed)
                }
            },
        }
    }
}

/// Whether one justification document discharges the named conditions,
/// as [`doc_discharges`] describes.
#[verifier::loop_isolation(false)]
fn doc_discharges_exec(
    jm: &SectionMarker,
    ghost_jm: Ghost<(MarkerStyle, Seq<char>, Seq<char>)>,
    cfg: SniffTestArgs,
    doc: &String,
    conds: &Vec<SpannedCondition>,
) -> (b: bool)
    requires
        jm.wf(),
        ghost_jm@ == ((jm.style, jm.word@, jm.word_caps@)),
    ensures
        b == doc_discharges(
            doc@,
            ghost_jm@,
            cfg,
            conds@.map_values(|c: SpannedCondition| c.name@),
        ),
{
    let ghost names = conds@.map_values(|c: SpannedCondition| c.name@);
    match parse_bullets_from_string(doc.as_str(), jm) {
        Ok(js) => {
            let ghost jsv = parse_bullets_spec(doc@, jm.style, jm.word@, jm.word_caps@)->Ok_0;
            proof {
                assert(jsv.len() == js@.len());
                assert(forall|j: int|
                    0 <= j < js@.len() ==> #[trigger] jsv[j] == (js@[j].0@, js@[j].1@, js@[
                        j
                    ].2@));
            }
            let mut i: usize = 0;
            while i < conds.len()
                invariant
                    i <= conds@.len(),
                    forall|q: int| 0 <= q < i ==> cover_one(jsv, #[trigger] names[q]),
                decreases conds@.len() - i,
            {
                let mut found = false;
                let mut j: usize = 0;
                while j < js.len()
                    invariant
                        j <= js@.len(),
                        i < conds@.len(),
                        found ==> cover_one(jsv, names[i as int]),
                        !found ==> forall|q: int|
                            0 <= q < j ==> (#[trigger] jsv[q]).0 != names[i as int],
                    decreases js@.len() - j,
                {
                    if str_eq(js[j].0.as_str(), conds[i].name.as_str()) {
                        proof {
                            assert(jsv[j as int].0 == names[i as int]);
                        }
                        found = true;
                    }
                    j = j + 1;
                }
                if !found {
                    proof {
                        assert(!cover_one(jsv, names[i as int]));
                        assert(!bullets_cover(jsv, names));
                    }
                    return false;
                }
                i = i + 1;
            }
            proof {
                assert(bullets_cover(jsv, names));
            }
            true
        },
        Err(_) => {
            if !cfg.buzzword_checking {
                return false;
            }
            let v = chars_vec(doc.as_str());
            let suffix: String = match find_marker(&v, jm, 0, 0) {
                Some((_st, en)) => string_from_range(&v, en, v.len()),
                None => doc.clone(),
            };
            let lowered = lowercase(suffix.as_str());
            let lv = chars_vec(lowered.as_str());
            proof {
                assert(lv@ == lower_of(marker_suffix(doc@, ghost_jm@)));
            }
            let mut i: usize = 0;
            while i < conds.len()
                invariant
                    i <= conds@.len(),
                    lv@ == lower_of(marker_suffix(doc@, ghost_jm@)),
                    forall|q: int|
                        0 <= q < i ==> buzzword_satisfied_spec(lv@, #[trigger] names[q]),
                decreases conds@.len() - i,
            {
                let name_chars = chars_vec(conds[i].name.as_str());
                if !buzzword_satisfied(&lv, &name_chars) {
                    proof {
                        assert(names[i as int] == conds@[i as int].name@);
                    }
                    return false;
                }
                i = i + 1;
            }
            true
        },
    }
}

/// Whether a call site with the given enclosing documentation satisfies
/// the callee's obligation, as [`callsite_justified`] describes.
#[verifier::loop_isolation(false)]
pub fn callsite_satisfied<P: Property>(
    p: &P,
    cfg: SniffTestArgs,
    scope_docs: &Vec<String>,
    obl: &Obligation,
) -> (b: bool)
    ensures
        b == callsite_justified(
            scope_docs_view(scope_docs@),
            p.spec_just_marker(),
            cfg,
            obl_view(*obl),
        ),
{
    let jm = p.justification_marker();
    let ghost ds = scope_docs_view(scope_docs@);
    let mut i: usize = 0;
    loop
        invariant
            i <= scope_docs@.len(),
            first_marked(ds, p.spec_just_marker(), 0) == first_marked(
                ds,
                p.spec_just_marker(),
                i as int,
            ),
        decreases scope_docs@.len() - i,
    {
        if i >= scope_docs.len() {
            return false;
        }
        proof {
            assert(ds[i as int] == scope_docs@[i as int]@);
        }
        let v = chars_vec(scope_docs[i].as_str());
        match find_marker(&v, &jm, 0, 0) {
            Some(_) => {
                proof {
                    assert(first_marked(ds, p.spec_just_marker(), i as int) == Some(i as int));
                }
                match obl {
                    Obligation::ConsiderProperty => {
                        return true;
                    },
                    Obligation::ConsiderConditions(conds) => {
                        return doc_discharges_exec(
                            &jm,
                            Ghost(p.spec_just_marker()),
                            cfg,
                            &scope_docs[i],
                            conds,
                        );
                    },
                }
            },
            None => {
                i = i + 1;
            },
        }
    }
}

/// The first foreign-function model with this identifier.
pub open spec fn foreign_lookup(fs: Seq<(u64, FnModel)>, id: u64, i: int) -> Option<int>
    decreases fs.len() - i,
{
    if i < 0 || i >= fs.len() {
        None
    } else if fs[i].0 == id {
        Some(i)
    } else {
        foreign_lookup(fs, id, i + 1)
    }
}

/// A successful foreign lookup yields an index in range with the right
/// identifier.
proof fn lemma_foreign_lookup_bounds(fs: Seq<(u64, FnModel)>, id: u64, i: int)
    requires
        0 <= i <= fs.len(),
        foreign_lookup(fs, id, i) is Some,
    ensures
        i <= foreign_lookup(fs, id, i)->0 < fs.len(),
        fs[foreign_lookup(fs, id, i)->0].0 == id,
    decreases fs.len() - i,
{
    if i < fs.len() && fs[i].0 != id {
        lemma_foreign_lookup_bounds(fs, id, i + 1);
    }
}

/// Find the model of a foreign function by identifier.
fn find_foreign<'a>(fs: &'a Vec<(u64, FnModel)>, id: u64) -> (r: Option<&'a FnModel>)
    ensures
        match r {
            Some(fm) => foreign_lookup(fs@, id, 0) matches Some(k) && *fm == fs@[k].1,
            None => foreign_lookup(fs@, id, 0) is None,
        },
{
    let mut i: usize = 0;
    while i < fs.len()
        invariant
            i <= fs@.len(),
            foreign_lookup(fs@, id, 0) == foreign_lookup(fs@, id, i as int),
        decreases fs@.len() - i,
    {
        if fs[i].0 == id {
            return Some(&fs[i].1);
        }
        i = i + 1;
    }
    None
}

/// The obligation a call to this callee induces on its callers: the
/// callee's annotation is looked up in the model (local functions
/// strictly, foreign ones as the dependency-checking mode says) and its
/// outcome is mapped to an obligation.
pub open spec fn callee_obligation(
    mr: (MarkerStyle, Seq<char>, Seq<char>),
    model: ProgramModel,
    ov: Map<Seq<char>, Seq<char>>,
    cfg: SniffTestArgs,
    c: CalleeId,
) -> Option<ObligationSpec> {
    match c {
        CalleeId::Local(i) => if i < model.fns@.len() {
            obligation_of(
                ann_outcome(
                    mr,
                    ov,
                    model.fns@[i as int].name@,
                    doc_text_view(model.fns@[i as int].docs),
                    cfg.fine_grained,
                    true,
                ),
                cfg.fine_grained,
            )
        } else {
            None
        },
        CalleeId::Foreign(id) => match foreign_lookup(model.foreigns@, id, 0) {
            Some(k) => obligation_of(
                ann_outcome(
                    mr,
                    ov,
                    model.foreigns@[k].1.name@,
                    doc_text_view(model.foreigns@[k].1.docs),
                    cfg.fine_grained,
                    cfg.check_dependencies,
                ),
                cfg.fine_grained,
            ),
            None => None,
        },
    }
}

/// Compute one function model's own obligation, as `obligation_of` of
/// its annotation outcome describes.
fn own_obligation<P: Property>(
    p: &P,
    overrides: &TomlAnnotation,
    fm: &FnModel,
    cfg: SniffTestArgs,
    is_local: bool,
) -> (r: Option<Obligation>)
    requires
        fn_model_wf(*fm),
    ensures
        ({
            let o = ann_outcome(
                p.spec_req_marker(),
                overrides@,
                fm.name@,
                doc_text_view(fm.docs),
                cfg.fine_grained,
                is_local || cfg.check_dependencies,
            );
            match r {
                None => obligation_of(o, cfg.fine_grained) is None,
                Some(ob) => obligation_of(o, cfg.fine_grained) == Some(obl_view(ob)),
            }
        }),
{
    match parse_fn_def(p, overrides, fm, cfg, is_local) {
        None => None,
        Some(Err(_)) => Some(Obligation::ConsiderProperty),
        Some(Ok(a)) => {
            let r = a.creates_obligation(cfg.fine_grained);
            proof {
                match a.local_violation_annotation {
                    PropertyViolation::Conditionally(cs) => {
                        if cfg.fine_grained {
                            match &r {
                                Some(Obligation::ConsiderConditions(rs)) => {
                                    let o = ann_outcome(
                                        p.spec_req_marker(),
                                        overrides@,
                                        fm.name@,
                                        doc_text_view(fm.docs),
                                        cfg.fine_grained,
                                        is_local || cfg.check_dependencies,
                                    );
                                    let ts = o->Conditional_0;
                                    assert(crate::annot::sconds_view(rs@)
                                        == crate::annot::sconds_view(cs@));
                                    assert(crate::annot::sconds_view(rs@).len() == rs@.len());
                                    assert(crate::annot::sconds_view(cs@).len() == cs@.len());
                                    assert(rs@.len() == cs@.len());
                                    assert forall|i: int| 0 <= i < rs@.len() implies (
                                    #[trigger] rs@[i]).name@ == cs@[i].name@ by {
                                        assert(crate::annot::sconds_view(rs@)[i]
                                            == crate::annot::scond_view(rs@[i]));
                                        assert(crate::annot::sconds_view(cs@)[i]
                                            == crate::annot::scond_view(cs@[i]));
                                    }
                                    assert(rs@.map_values(|cc: SpannedCondition| cc.name@)
                                        =~= names_of(ts));
                                },
                                _ => {
                                },
                            }
                        }
                    },
                    _ => {
                    },
                }
            }
            r
        },
    }
}

/// Compute the obligation a call to this callee induces, as
/// [`callee_obligation`] describes.
fn callee_obl<P: Property>(
    p: &P,
    model: &ProgramModel,
    overrides: &TomlAnnotation,
    cfg: SniffTestArgs,
    c: CalleeId,
) -> (r: Option<Obligation>)
    requires
        model_wf(*model),
    ensures
        match r {
            None => callee_obligation(p.spec_req_marker(), *model, overrides@, cfg, c) is None,
            Some(o) => callee_obligation(p.spec_req_marker(), *model, overrides@, cfg, c) == Some(
                obl_view(o),
            ),
        },
{
    let (fm, is_local): (&FnModel, bool) = match c {
        CalleeId::Local(i) => {
            if i < model.fns.len() {
                (&model.fns[i], true)
            } else {
                return None;
            }
        },
        CalleeId::Foreign(id) => {
            match find_foreign(&model.foreigns, id) {
                Some(fm) => (fm, false),
                None => {
                    return None;
                },
            }
        },
    };
    proof {
        if c is Foreign {
            lemma_foreign_lookup_bounds(model.foreigns@, c->Foreign_0, 0);
            let k = foreign_lookup(model.foreigns@, c->Foreign_0, 0)->0;
            assert(fn_model_wf((model.foreigns@[k]).1));
        }
    }
    own_obligation(p, overrides, fm, cfg, is_local)
}

/// Whether an override's obligation is already implied by its trait's,
/// as [`obligation_within`] describes.
#[verifier::loop_isolation(false)]
fn obligation_within_exec(sub: &Obligation, sup: &Option<Obligation>) -> (b: bool)
    ensures
        b == obligation_within(
            Some(obl_view(*sub)),
            match sup {
                Some(o) => Some(obl_view(*o)),
                None => None,
            },
        ),
{
    match sub {
        Obligation::ConsiderProperty => sup.is_some(),
        Obligation::ConsiderConditions(ns) => {
            match sup {
                None => false,
                Some(Obligation::ConsiderProperty) => ns.len() == 0,
                Some(Obligation::ConsiderConditions(nt)) => {
                    let ghost nsv = obl_view(*sub)->Conditions_0;
                    let ghost ntv = match sup {
                        Some(o) => obl_view(*o)->Conditions_0,
                        None => Seq::empty(),
                    };
                    proof {
                        assert(nsv.len() == ns@.len());
                        assert(ntv.len() == nt@.len());
                    }
                    let mut i: usize = 0;
                    while i < ns.len()
                        invariant
                            i <= ns@.len(),
                            forall|q: int| 0 <= q < i ==> name_among(ntv, #[trigger] nsv[q]),
                        decreases ns@.len() - i,
                    {
                        let mut found = false;
                        let mut j: usize = 0;
                        while j < nt.len()
                            invariant
                                j <= nt@.len(),
                                i < ns@.len(),
                                found ==> name_among(ntv, nsv[i as int]),
                                !found ==> forall|q: int|
                                    0 <= q < j ==> (#[trigger] ntv[q]) != nsv[i as int],
                            decreases nt@.len() - j,
                        {
                            proof {
                                assert(ntv[j as int] == nt@[j as int].name@);
                                assert(nsv[i as int] == ns@[i as int].name@);
                            }
                            if str_eq(nt[j].name.as_str(), ns[i].name.as_str()) {
                                found = true;
                            }
                            j = j + 1;
                        }
                        if !found {
                            proof {
                                assert(!name_among(ntv, nsv[i as int]));
                            }
                            return false;
                        }
                        i = i + 1;
                    }
                    true
                },
            }
        },
    }
}

/// The enclosing-scope documentation recorded for one call span, or
/// nothing when the model records none.
pub open spec fn docs_for_span(
    cds: Seq<(SrcSpan, Vec<String>)>,
    sp: SrcSpan,
    i: int,
) -> Seq<Seq<char>>
    decreases cds.len() - i,
{
    if i < 0 || i >= cds.len() {
        Seq::empty()
    } else if cds[i].0 == sp {
        scope_docs_view(cds[i].1@)
    } else {
        docs_for_span(cds, sp, i + 1)
    }
}

/// Find the enclosing-scope documentation recorded for one call span.
fn find_span_docs<'a>(cds: &'a Vec<(SrcSpan, Vec<String>)>, sp: SrcSpan) -> (r: Option<
    &'a Vec<String>,
>)
    ensures
        match r {
            Some(ds) => docs_for_span(cds@, sp, 0) == scope_docs_view(ds@),
            None => docs_for_span(cds@, sp, 0) == Seq::<Seq<char>>::empty(),
        },
{
    let mut i: usize = 0;
    while i < cds.len()
        invariant
            i <= cds@.len(),
            docs_for_span(cds@, sp, 0) == docs_for_span(cds@, sp, i as int),
        decreases cds@.len() - i,
    {
        if cds[i].0.lo == sp.lo && cds[i].0.hi == sp.hi {
            proof {
                assert(cds@[i as int].0 == sp);
            }
            return Some(&cds[i].1);
        }
        i = i + 1;
    }
    None
}

/// Whether one found axiom is resolved by a justification in some
/// enclosing scope.
pub open spec fn axiom_ok(ax: FoundAxiomModel, jm: (MarkerStyle, Seq<char>, Seq<char>)) -> bool {
    first_marked(scope_docs_view(ax.scope_docs@), jm, 0) is Some
}

/// Whether one call span of function `f` is resolved for the obligation.
pub open spec fn span_ok(
    model: ProgramModel,
    f: int,
    sp: SrcSpan,
    jm: (MarkerStyle, Seq<char>, Seq<char>),
    cfg: SniffTestArgs,
    obl: ObligationSpec,
) -> bool {
    callsite_justified(docs_for_span(model.call_docs@[f]@, sp, 0), jm, cfg, obl)
}

/// Whether one grouped callee entry of function `f` is fully resolved:
/// either the callee induces no obligation, or every call span satisfies
/// it.
pub open spec fn entry_ok(
    mr: (MarkerStyle, Seq<char>, Seq<char>),
    jm: (MarkerStyle, Seq<char>, Seq<char>),
    model: ProgramModel,
    ov: Map<Seq<char>, Seq<char>>,
    cfg: SniffTestArgs,
    f: int,
    e: (CalleeId, Seq<SrcSpan>),
) -> bool {
    match callee_obligation(mr, model, ov, cfg, e.0) {
        None => true,
        Some(obl) => forall|si: int|
            0 <= si < e.1.len() ==> span_ok(model, f, #[trigger] e.1[si], jm, cfg, obl),
    }
}

/// Whether an untrusted function's body is fully resolved: every found
/// axiom and every obligated call span carries a matching justification.
pub open spec fn fn_body_clean(
    mr: (MarkerStyle, Seq<char>, Seq<char>),
    jm: (MarkerStyle, Seq<char>, Seq<char>),
    model: ProgramModel,
    ov: Map<Seq<char>, Seq<char>>,
    cfg: SniffTestArgs,
    f: int,
    calls: Seq<(CalleeId, Seq<SrcSpan>)>,
) -> bool {
    &&& forall|k: int|
        0 <= k < model.axioms@[f]@.len() ==> axiom_ok(#[trigger] model.axioms@[f]@[k], jm)
    &&& forall|k: int|
        0 <= k < calls.len() ==> entry_ok(mr, jm, model, ov, cfg, f, #[trigger] calls[k])
}

/// The spans of the unjustified axioms among `axs[i..]`, in order.
pub open spec fn unjust_axiom_spans(
    axs: Seq<FoundAxiomModel>,
    jm: (MarkerStyle, Seq<char>, Seq<char>),
    i: int,
) -> Seq<SrcSpan>
    decreases axs.len() - i,
{
    if i < 0 || i >= axs.len() {
        Seq::empty()
    } else {
        let rest = unjust_axiom_spans(axs, jm, i + 1);
        if axiom_ok(axs[i], jm) {
            rest
        } else {
            seq![axs[i].span] + rest
        }
    }
}

/// The unjustified spans among one callee's call spans `spans[i..]`.
pub open spec fn unjust_spans(
    model: ProgramModel,
    f: int,
    spans: Seq<SrcSpan>,
    jm: (MarkerStyle, Seq<char>, Seq<char>),
    cfg: SniffTestArgs,
    obl: ObligationSpec,
    i: int,
) -> Seq<SrcSpan>
    decreases spans.len() - i,
{
    if i < 0 || i >= spans.len() {
        Seq::empty()
    } else {
        let rest = unjust_spans(model, f, spans, jm, cfg, obl, i + 1);
        if span_ok(model, f, spans[i], jm, cfg, obl) {
            rest
        } else {
            seq![spans[i]] + rest
        }
    }
}

/// The unjustified obligated calls among the grouped entries
/// `calls[k..]`: one record per obligated callee with at least one
/// unresolved span, holding exactly its unresolved spans.
pub open spec fn unjust_calls(
    mr: (MarkerStyle, Seq<char>, Seq<char>),
    jm: (MarkerStyle, Seq<char>, Seq<char>),
    model: ProgramModel,
    ov: Map<Seq<char>, Seq<char>>,
    cfg: SniffTestArgs,
    f: int,
    calls: Seq<(CalleeId, Seq<SrcSpan>)>,
    k: int,
) -> Seq<(CalleeId, Seq<SrcSpan>)>
    decreases calls.len() - k,
{
    if k < 0 || k >= calls.len() {
        Seq::empty()
    } else {
        let rest = unjust_calls(mr, jm, model, ov, cfg, f, calls, k + 1);
        match callee_obligation(mr, model, ov, cfg, calls[k].0) {
            None => rest,
            Some(obl) => {
                let u = unjust_spans(model, f, calls[k].1, jm, cfg, obl, 0);
                if u.len() == 0 {
                    rest
                } else {
                    seq![(calls[k].0, u)] + rest
                }
            },
        }
    }
}

/// The view of a grouped unresolved-calls report.
pub open spec fn calls_report_view(cs: Seq<CallsWObligations>) -> Seq<(CalleeId, Seq<SrcSpan>)> {
    cs.map_values(|c: CallsWObligations| (c.call_to, c.from_spans@))
}

/// Unjustified calls to one annotated callee: the callee and every
/// offending call span.
#[derive(Debug)]
pub struct CallsWObligations {
    pub call_to: CalleeId,
    pub from_spans: Vec<SrcSpan>,
}

/// Everything unresolved in one function, for one aggregated diagnostic.
#[derive(Debug)]
pub struct FnIssueReport {
    /// The spans of the unjustified axioms.
    pub axiom_spans: Vec<SrcSpan>,
    /// The unjustified obligated calls, grouped by callee.
    pub calls: Vec<CallsWObligations>,
}

/// Check one untrusted reachable function: find its axioms' and
/// obligated calls' justifications, and report everything unresolved.
///
/// Returns `Ok` exactly when the function's body is fully resolved.
#[verifier::loop_isolation(false)]
#[verifier::rlimit(60)]
#[verifier::spinoff_prover]
pub fn check_function_for_property<P: Property>(
    p: &P,
    model: &ProgramModel,
    overrides: &TomlAnnotation,
    cfg: SniffTestArgs,
    func: &crate::reach::LocallyReachable,
) -> (r: Result<(), FnIssueReport>)
    requires
        model_wf(*model),
        func.reach < model.fns@.len(),
    ensures
        r is Ok <==> fn_body_clean(
            p.spec_req_marker(),
            p.spec_just_marker(),
            *model,
            overrides@,
            cfg,
            func.reach as int,
            crate::reach::groups_view(func.calls_to@),
        ),
        r matches Err(rep) ==> rep.axiom_spans@.len() + rep.calls@.len() > 0
            && rep.axiom_spans@ == unjust_axiom_spans(
            model.axioms@[func.reach as int]@,
            p.spec_just_marker(),
            0,
        ) && calls_report_view(rep.calls@) == unjust_calls(
            p.spec_req_marker(),
            p.spec_just_marker(),
            *model,
            overrides@,
            cfg,
            func.reach as int,
            crate::reach::groups_view(func.calls_to@),
            0,
        ),
{
    let f = func.reach;
    let ghost fi = f as int;
    let ghost mr = p.spec_req_marker();
    let ghost jm = p.spec_just_marker();
    let mut axiom_spans: Vec<SrcSpan> = Vec::new();
    let axs = &model.axioms[f];
    let mut k: usize = 0;
    while k < axs.len()
        invariant
            k <= axs@.len(),
            axs == &model.axioms@[fi],
            (axiom_spans@.len() == 0) <==> (forall|j: int|
                0 <= j < k ==> axiom_ok(#[trigger] axs@[j], jm)),
            unjust_axiom_spans(axs@, jm, 0) == axiom_spans@ + unjust_axiom_spans(
                axs@,
                jm,
                k as int,
            ),
        decreases axs@.len() - k,
    {
        let ghost pre = axiom_spans@;
        match parse_expr(p, &axs[k].scope_docs) {
            Some(_) => {
                proof {
                    assert(axiom_ok(axs@[k as int], jm));
                    assert(pre + unjust_axiom_spans(axs@, jm, k as int) =~= pre
                        + unjust_axiom_spans(axs@, jm, k as int + 1));
                }
            },
            None => {
                axiom_spans.push(axs[k].span);
                proof {
                    assert(!axiom_ok(axs@[k as int], jm));
                    assert(axiom_spans@ =~= pre + seq![axs@[k as int].span]);
                    assert(pre + unjust_axiom_spans(axs@, jm, k as int) =~= (pre + seq![
                        axs@[k as int].span,
                    ]) + unjust_axiom_spans(axs@, jm, k as int + 1));
                }
            },
        }
        k = k + 1;
    }
    proof {
        assert(axiom_spans@ + unjust_axiom_spans(axs@, jm, k as int) =~= axiom_spans@);
    }
    let mut bad_calls: Vec<CallsWObligations> = Vec::new();
    let ghost calls = crate::reach::groups_view(func.calls_to@);
    let mut q: usize = 0;
    while q < func.calls_to.len()
        invariant
            q <= func.calls_to@.len(),
            calls == crate::reach::groups_view(func.calls_to@),
            (bad_calls@.len() == 0) <==> (forall|j: int|
                0 <= j < q ==> entry_ok(mr, jm, *model, overrides@, cfg, fi, #[trigger] calls[j])),
            unjust_calls(mr, jm, *model, overrides@, cfg, fi, calls, 0) == calls_report_view(
                bad_calls@,
            ) + unjust_calls(mr, jm, *model, overrides@, cfg, fi, calls, q as int),
        decreases func.calls_to@.len() - q,
    {
        let ghost cpre = calls_report_view(bad_calls@);
        proof {
            assert(calls[q as int] == (func.calls_to@[q as int].0, func.calls_to@[q as int].1@));
        }
        let c = func.calls_to[q].0;
        match callee_obl(p, model, overrides, cfg, c) {
            None => {
                proof {
                    assert(entry_ok(mr, jm, *model, overrides@, cfg, fi, calls[q as int]));
                    assert(cpre + unjust_calls(mr, jm, *model, overrides@, cfg, fi, calls, q as int)
                        =~= cpre + unjust_calls(
                        mr,
                        jm,
                        *model,
                        overrides@,
                        cfg,
                        fi,
                        calls,
                        q as int + 1,
                    ));
                }
            },
            Some(obl) => {
                let spans = &func.calls_to[q].1;
                let mut unjust: Vec<SrcSpan> = Vec::new();
                let mut si: usize = 0;
                while si < spans.len()
                    invariant
                        si <= spans@.len(),
                        spans == &func.calls_to@[q as int].1,
                        q < func.calls_to@.len(),
                        callee_obligation(mr, *model, overrides@, cfg, func.calls_to@[q as int].0)
                            == Some(obl_view(obl)),
                        (unjust@.len() == 0) <==> (forall|j: int|
                            0 <= j < si ==> span_ok(
                                *model,
                                fi,
                                #[trigger] spans@[j],
                                jm,
                                cfg,
                                obl_view(obl),
                            )),
                        unjust_spans(*model, fi, spans@, jm, cfg, obl_view(obl), 0) == unjust@
                            + unjust_spans(*model, fi, spans@, jm, cfg, obl_view(obl), si as int),
                    decreases spans@.len() - si,
                {
                    let ghost upre = unjust@;
                    let sp = spans[si];
                    let ok = match find_span_docs(&model.call_docs[f], sp) {
                        Some(ds) => callsite_satisfied(p, cfg, ds, &obl),
                        None => {
                            proof {
                                assert(first_marked(Seq::<Seq<char>>::empty(), jm, 0) is None);
                                assert(!span_ok(*model, fi, sp, jm, cfg, obl_view(obl)));
                            }
                            false
                        },
                    };
                    if !ok {
                        unjust.push(sp);
                        proof {
                            assert(unjust@ =~= upre + seq![spans@[si as int]]);
                            assert(upre + unjust_spans(
                                *model,
                                fi,
                                spans@,
                                jm,
                                cfg,
                                obl_view(obl),
                                si as int,
                            ) =~= (upre + seq![spans@[si as int]]) + unjust_spans(
                                *model,
                                fi,
                                spans@,
                                jm,
                                cfg,
                                obl_view(obl),
                                si as int + 1,
                            ));
                        }
                    } else {
                        proof {
                            assert(upre + unjust_spans(
                                *model,
                                fi,
                                spans@,
                                jm,
                                cfg,
                                obl_view(obl),
                                si as int,
                            ) =~= upre + unjust_spans(
                                *model,
                                fi,
                                spans@,
                                jm,
                                cfg,
                                obl_view(obl),
                                si as int + 1,
                            ));
                        }
                    }
                    si = si + 1;
                }
                proof {
                    assert(unjust@ + unjust_spans(
                        *model,
                        fi,
                        spans@,
                        jm,
                        cfg,
                        obl_view(obl),
                        si as int,
                    ) =~= unjust@);
                }
                if unjust.len() > 0 {
                    let ghost uv = unjust@;
                    bad_calls.push(CallsWObligations { call_to: c, from_spans: unjust });
                    proof {
                        assert(calls_report_view(bad_calls@) =~= cpre + seq![
                            (c, uv),
                        ]);
                        assert(cpre + unjust_calls(mr, jm, *model, overrides@, cfg, fi, calls, q as int)
                            =~= (cpre + seq![(c, uv)]) + unjust_calls(
                            mr,
                            jm,
                            *model,
                            overrides@,
                            cfg,
                            fi,
                            calls,
                            q as int + 1,
                        ));
                        let bad = choose|j: int|
                            0 <= j < spans@.len() && !span_ok(
                                *model,
                                fi,
                                spans@[j],
                                jm,
                                cfg,
                                obl_view(obl),
                            );
                        assert(calls[q as int].1 == spans@);
                        assert(!span_ok(
                            *model,
                            fi,
                            calls[q as int].1[bad],
                            jm,
                            cfg,
                            obl_view(obl),
                        ));
                        assert(!entry_ok(mr, jm, *model, overrides@, cfg, fi, calls[q as int]));
                    }
                } else {
                    proof {
                        assert(entry_ok(mr, jm, *model, overrides@, cfg, fi, calls[q as int]));
                        assert(cpre + unjust_calls(mr, jm, *model, overrides@, cfg, fi, calls, q as int)
                            =~= cpre + unjust_calls(
                            mr,
                            jm,
                            *model,
                            overrides@,
                            cfg,
                            fi,
                            calls,
                            q as int + 1,
                        ));
                    }
                }
            },
        }
        q = q + 1;
    }
    proof {
        assert(calls_report_view(bad_calls@) + unjust_calls(
            mr,
            jm,
            *model,
            overrides@,
            cfg,
            fi,
            calls,
            q as int,
        ) =~= calls_report_view(bad_calls@));
    }
    if axiom_spans.len() == 0 && bad_calls.len() == 0 {
        Ok(())
    } else {
        Err(FnIssueReport { axiom_spans, calls: bad_calls })
    }
}

/// Whether an item's own attributes opt it in for the property.
pub open spec fn directly_annotated(attrs: Seq<Seq<Seq<char>>>, pid: crate::attrs::PropertyId) -> bool {
    exists|j: int|
        0 <= j < crate::attrs::sniff_tool_attrs_spec(attrs, 0).len() && (
        #[trigger] crate::attrs::sniff_tool_attrs_spec(attrs, 0)[j]).spec_property() == pid
}

/// What the crate-level markers ask for.
#[derive(Debug, Clone, Copy, PartialEq, Eq, Structural)]
pub enum GlobalMode {
    /// No global marker: only directly annotated items are entry points.
    NoGlobal,
    /// Check every local function.
    All,
    /// Check every public local function, plus directly annotated items.
    PublicOnly,
    /// Conflicting global markers: the run cannot proceed.
    Conflicting,
}

/// The global mode the markers `gs[i..]` ask for, for one property.
pub open spec fn global_mode_from(
    gs: Seq<(crate::attrs::SniffToolAttr, bool)>,
    pid: crate::attrs::PropertyId,
    i: int,
) -> GlobalMode
    decreases gs.len() - i,
{
    if i < 0 || i >= gs.len() {
        GlobalMode::NoGlobal
    } else {
        let rest = global_mode_from(gs, pid, i + 1);
        if gs[i].0.spec_property() == pid {
            match rest {
                GlobalMode::NoGlobal => if gs[i].1 {
                    GlobalMode::PublicOnly
                } else {
                    GlobalMode::All
                },
                _ => GlobalMode::Conflicting,
            }
        } else {
            rest
        }
    }
}

/// The global mode of the whole model for one property.
pub open spec fn global_mode(model: ProgramModel, pid: crate::attrs::PropertyId) -> GlobalMode {
    global_mode_from(
        crate::attrs::sniff_tool_attrs_pub_spec(
            crate::attrs::attrs_view(model.crate_attrs@),
            0,
        ),
        pid,
        0,
    )
}

/// Whether function `i` is an entry point for the property.
pub open spec fn is_entry(model: ProgramModel, pid: crate::attrs::PropertyId, i: int) -> bool {
    match global_mode(model, pid) {
        GlobalMode::All => true,
        GlobalMode::PublicOnly => model.fns@[i].is_public || directly_annotated(
            crate::attrs::attrs_view(model.fns@[i].attrs@),
            pid,
        ),
        GlobalMode::NoGlobal => directly_annotated(
            crate::attrs::attrs_view(model.fns@[i].attrs@),
            pid,
        ),
        GlobalMode::Conflicting => false,
    }
}

/// The entry points for the property, in ascending function order.
pub open spec fn entries_of(model: ProgramModel, pid: crate::attrs::PropertyId, i: int) -> Seq<
    usize,
>
    decreases model.fns@.len() - i,
{
    if i < 0 || i >= model.fns@.len() {
        Seq::empty()
    } else {
        let rest = entries_of(model, pid, i + 1);
        if is_entry(model, pid, i) {
            seq![i as usize] + rest
        } else {
            rest
        }
    }
}

/// Every entry index is a function of the model.
proof fn lemma_entries_bounded(model: ProgramModel, pid: crate::attrs::PropertyId, i: int)
    requires
        0 <= i,
        model.fns@.len() <= usize::MAX,
    ensures
        forall|j: int|
            0 <= j < entries_of(model, pid, i).len() ==> i <= (#[trigger] entries_of(
                model,
                pid,
                i,
            )[j]) < model.fns@.len(),
    decreases model.fns@.len() - i,
{
    if i < model.fns@.len() {
        lemma_entries_bounded(model, pid, i + 1);
        let e = entries_of(model, pid, i);
        let rest = entries_of(model, pid, i + 1);
        assert forall|j: int| 0 <= j < e.len() implies i <= (#[trigger] e[j])
            < model.fns@.len() by {
            if is_entry(model, pid, i) {
                if j > 0 {
                    assert(e[j] == rest[j - 1]);
                }
            } else {
                assert(e[j] == rest[j]);
            }
        }
    }
}

/// Whether an item's own attributes opt it in for the property.
#[verifier::loop_isolation(false)]
fn is_directly_annotated(attrs: &Vec<Vec<String>>, pid: crate::attrs::PropertyId) -> (b: bool)
    ensures
        b == directly_annotated(crate::attrs::attrs_view(attrs@), pid),
{
    let found = crate::attrs::get_sniff_tool_attrs(attrs);
    let ghost fv = crate::attrs::sniff_tool_attrs_spec(crate::attrs::attrs_view(attrs@), 0);
    let mut i: usize = 0;
    while i < found.len()
        invariant
            i <= found@.len(),
            found@ == fv,
            forall|j: int| 0 <= j < i ==> (#[trigger] fv[j]).spec_property() != pid,
        decreases found@.len() - i,
    {
        if found[i].property() == pid {
            return true;
        }
        i = i + 1;
    }
    false
}

/// Determine the entry-point set for a property: every local function,
/// every public one, or the directly annotated ones, as the crate-level
/// markers ask. Conflicting crate-level markers fail the selection.
///
/// The result is in ascending function order, so diagnostic order is
/// reproducible across runs.
#[verifier::loop_isolation(false)]
pub fn analysis_entry_points<P: Property>(p: &P, model: &ProgramModel) -> (r: Result<
    Vec<usize>,
    (),
>)
    requires
        model_wf(*model),
    ensures
        match r {
            Ok(v) => global_mode(*model, p.spec_property_id()) != GlobalMode::Conflicting && v@
                == entries_of(*model, p.spec_property_id(), 0),
            Err(_) => global_mode(*model, p.spec_property_id()) == GlobalMode::Conflicting,
        },
{
    let pid = p.property_id();
    let gs = crate::attrs::get_sniff_tool_attrs_pub(&model.crate_attrs);
    let ghost gsv = crate::attrs::sniff_tool_attrs_pub_spec(
        crate::attrs::attrs_view(model.crate_attrs@),
        0,
    );
    let mut mode = GlobalMode::NoGlobal;
    let mut i: usize = gs.len();
    while i > 0
        invariant
            i <= gs@.len(),
            gs@ == gsv,
            mode == global_mode_from(gsv, p.spec_property_id(), i as int),
        decreases i,
    {
        i = i - 1;
        if gs[i].0.property() == pid {
            mode = match mode {
                GlobalMode::NoGlobal => if gs[i].1 {
                    GlobalMode::PublicOnly
                } else {
                    GlobalMode::All
                },
                _ => GlobalMode::Conflicting,
            };
        }
    }
    if matches!(mode, GlobalMode::Conflicting) {
        return Err(());
    }
    let mut out: Vec<usize> = Vec::new();
    let n = model.fns.len();
    let mut f: usize = 0;
    while f < n
        invariant
            f <= n,
            n == model.fns@.len(),
            mode == global_mode(*model, p.spec_property_id()),
            mode != GlobalMode::Conflicting,
            entries_of(*model, p.spec_property_id(), 0) == out@ + entries_of(
                *model,
                p.spec_property_id(),
                f as int,
            ),
        decreases n - f,
    {
        let ghost pre = out@;
        let selected: bool = match mode {
            GlobalMode::All => true,
            GlobalMode::PublicOnly => model.fns[f].is_public || is_directly_annotated(
                &model.fns[f].attrs,
                pid,
            ),
            GlobalMode::NoGlobal => is_directly_annotated(&model.fns[f].attrs, pid),
            GlobalMode::Conflicting => false,
        };
        proof {
            assert(selected == is_entry(*model, p.spec_property_id(), f as int));
        }
        if selected {
            out.push(f);
            proof {
                assert(pre + entries_of(*model, p.spec_property_id(), f as int) =~= (pre + seq![
                    f,
                ]) + entries_of(*model, p.spec_property_id(), f as int + 1));
            }
        } else {
            proof {
                assert(pre + entries_of(*model, p.spec_property_id(), f as int) =~= pre
                    + entries_of(*model, p.spec_property_id(), f as int + 1));
            }
        }
        f = f + 1;
    }
    proof {
        assert(out@ + entries_of(*model, p.spec_property_id(), f as int) =~= out@);
    }
    Ok(out)
}

/// All the unresolved spans of a grouped unresolved-calls report, in
/// report order.
pub open spec fn flat_spans(cs: Seq<(CalleeId, Seq<SrcSpan>)>, k: int) -> Seq<SrcSpan>
    decreases cs.len() - k,
{
    if k < 0 || k >= cs.len() {
        Seq::empty()
    } else {
        cs[k].1 + flat_spans(cs, k + 1)
    }
}

/// The function a diagnostic is about, if it is about one.
pub open spec fn diag_about(k: DiagnosticKind) -> Option<usize> {
    match k {
        DiagnosticKind::Unjustified { function, .. } => Some(function),
        DiagnosticKind::MalformedAnnotation { function, .. } => Some(function),
        DiagnosticKind::TraitObligationMismatch { function, .. } => Some(function),
        DiagnosticKind::NotMarkedUnsafe { function } => Some(function),
        DiagnosticKind::ConflictingGlobalMarkers => None,
    }
}

/// What each emitted diagnostic asserts of the model: its function is
/// reachable and offends exactly as the kind says. An `Unjustified`
/// diagnostic aggregates one function's unresolved occurrences: its
/// counts and primary spans are the exact unresolved axiom spans and
/// call spans, and its first note is a valid witness path back to an
/// entry point.
pub open spec fn diag_ok(
    mr: (MarkerStyle, Seq<char>, Seq<char>),
    jm: (MarkerStyle, Seq<char>, Seq<char>),
    pid: crate::attrs::PropertyId,
    model: ProgramModel,
    ov: Map<Seq<char>, Seq<char>>,
    cfg: SniffTestArgs,
    ev: Seq<usize>,
    d: Diagnostic,
) -> bool {
    let gv = crate::reach::graph_view(model.graph.calls@);
    match d.kind {
        DiagnosticKind::ConflictingGlobalMarkers => global_mode(model, pid)
            == GlobalMode::Conflicting,
        DiagnosticKind::Unjustified { function, axiom_count, call_count } => {
            let f = function as int;
            let axspans = unjust_axiom_spans(model.axioms@[f]@, jm, 0);
            let ucalls = unjust_calls(mr, jm, model, ov, cfg, f, crate::reach::group_spec(
                gv[f],
                0,
            ), 0);
            &&& function < gv.len()
            &&& crate::reach::spec_reachable(gv, ev, function)
            &&& obligation_of(fn_outcome(mr, model, ov, cfg, f), cfg.fine_grained) is None
            &&& axiom_count == axspans.len()
            &&& call_count == ucalls.len()
            &&& axspans.len() + ucalls.len() > 0
            &&& d.primary_spans@ == axspans + flat_spans(ucalls, 0)
            &&& d.notes@.len() > 0
            &&& (d.notes@[0] matches Note::ReachablePath(pth) && crate::reach::valid_path(
                gv,
                ev,
                pth@,
                function,
            ))
        },
        DiagnosticKind::MalformedAnnotation { function, issue } => {
            &&& function < gv.len()
            &&& crate::reach::spec_reachable(gv, ev, function)
            &&& fn_outcome(mr, model, ov, cfg, function as int) == AnnOutcome::Hard(issue@)
        },
        DiagnosticKind::TraitObligationMismatch { function, trait_function } => {
            let f = function as int;
            &&& function < gv.len()
            &&& crate::reach::spec_reachable(gv, ev, function)
            &&& model.fns@[f].trait_method == Some(trait_function)
            &&& trait_function < gv.len()
            &&& obligation_of(fn_outcome(mr, model, ov, cfg, f), cfg.fine_grained) is Some
            &&& !obligation_within(
                obligation_of(fn_outcome(mr, model, ov, cfg, f), cfg.fine_grained),
                obligation_of(
                    fn_outcome(mr, model, ov, cfg, trait_function as int),
                    cfg.fine_grained,
                ),
            )
        },
        DiagnosticKind::NotMarkedUnsafe { function } => {
            let f = function as int;
            &&& function < gv.len()
            &&& crate::reach::spec_reachable(gv, ev, function)
            &&& pid == crate::attrs::PropertyId::Safety
            &&& obligation_of(fn_outcome(mr, model, ov, cfg, f), cfg.fine_grained) is Some
            &&& !model.fns@[f].is_unsafe
        },
    }
}

/// One local function's annotation outcome under the strict mode, as the
/// crate-level check reads it.
pub open spec fn fn_outcome(
    mr: (MarkerStyle, Seq<char>, Seq<char>),
    model: ProgramModel,
    ov: Map<Seq<char>, Seq<char>>,
    cfg: SniffTestArgs,
    f: int,
) -> AnnOutcome {
    ann_outcome(
        mr,
        ov,
        model.fns@[f].name@,
        doc_text_view(model.fns@[f].docs),
        cfg.fine_grained,
        true,
    )
}

/// How many functions were looked at, and how they classified.
#[derive(Debug, Clone, Copy, PartialEq, Eq, Structural)]
pub struct CheckStats {
    /// How many entry points the selection produced.
    pub entrypoints: usize,
    /// How many reachable functions were checked.
    pub total_fns_checked: usize,
    /// How many were trusted through their own obligations.
    pub w_obligation: usize,
    /// How many had no obligations and were inspected.
    pub w_no_obligation: usize,
}

/// Whether one reachable function passes the whole per-function check: a
/// trusted function's annotation must be well formed, within its trait's
/// contract, and backed by the language-level unsafe marker for the
/// memory-safety property; an untrusted function's body must be fully
/// resolved.
pub open spec fn crate_fn_clean(
    mr: (MarkerStyle, Seq<char>, Seq<char>),
    jm: (MarkerStyle, Seq<char>, Seq<char>),
    pid: crate::attrs::PropertyId,
    model: ProgramModel,
    ov: Map<Seq<char>, Seq<char>>,
    cfg: SniffTestArgs,
    f: int,
) -> bool {
    let o = ann_outcome(
        mr,
        ov,
        model.fns@[f].name@,
        doc_text_view(model.fns@[f].docs),
        cfg.fine_grained,
        true,
    );
    match obligation_of(o, cfg.fine_grained) {
        Some(_) => {
            &&& !(o is Hard)
            &&& match model.fns@[f].trait_method {
                Some(t) => t >= model.fns@.len() || obligation_within(
                    obligation_of(o, cfg.fine_grained),
                    obligation_of(
                        ann_outcome(
                            mr,
                            ov,
                            model.fns@[t as int].name@,
                            doc_text_view(model.fns@[t as int].docs),
                            cfg.fine_grained,
                            true,
                        ),
                        cfg.fine_grained,
                    ),
                ),
                None => true,
            }
            &&& (pid == crate::attrs::PropertyId::Safety ==> model.fns@[f].is_unsafe)
        },
        None => fn_body_clean(
            mr,
            jm,
            model,
            ov,
            cfg,
            f,
            crate::reach::group_spec(crate::reach::graph_view(model.graph.calls@)[f], 0),
        ),
    }
}

/// A trusted function's body is never inspected: whether it passes the
/// crate-level check depends only on the annotations of its own model
/// record (and of its trait's declared method), never on the axioms
/// found in its body, the documentation of its call sites, or its call
/// graph. Its callees still stay reachable, since the walker visits
/// every function regardless of trust.
pub proof fn lemma_trusted_body_not_inspected(
    mr: (MarkerStyle, Seq<char>, Seq<char>),
    jm: (MarkerStyle, Seq<char>, Seq<char>),
    pid: crate::attrs::PropertyId,
    m1: ProgramModel,
    m2: ProgramModel,
    ov: Map<Seq<char>, Seq<char>>,
    cfg: SniffTestArgs,
    f: int,
)
    requires
        0 <= f < m1.fns@.len(),
        m1.fns@ == m2.fns@,
        obligation_of(fn_outcome(mr, m1, ov, cfg, f), cfg.fine_grained) is Some,
    ensures
        crate_fn_clean(mr, jm, pid, m1, ov, cfg, f) == crate_fn_clean(mr, jm, pid, m2, ov, cfg, f),
{
    assert(fn_outcome(mr, m1, ov, cfg, f) == fn_outcome(mr, m2, ov, cfg, f));
    match m1.fns@[f].trait_method {
        Some(t) => {
            if t < m1.fns@.len() {
                assert(fn_outcome(mr, m1, ov, cfg, t as int) == fn_outcome(
                    mr,
                    m2,
                    ov,
                    cfg,
                    t as int,
                ));
            }
        },
        None => {
        },
    }
}

/// The primary spans of one function's aggregated diagnostic: the
/// unresolved axiom spans, then every unresolved call span, in report
/// order.
#[verifier::loop_isolation(false)]
fn report_primary_spans(rep: &FnIssueReport) -> (r: Vec<SrcSpan>)
    ensures
        r@ == rep.axiom_spans@ + flat_spans(calls_report_view(rep.calls@), 0),
{
    let ghost ucv = calls_report_view(rep.calls@);
    let mut out = crate::reach::copy_spans(&rep.axiom_spans);
    let mut pi: usize = 0;
    while pi < rep.calls.len()
        invariant
            pi <= rep.calls@.len(),
            ucv.len() == rep.calls@.len(),
            rep.axiom_spans@ + flat_spans(ucv, 0) == out@ + flat_spans(ucv, pi as int),
        decreases rep.calls@.len() - pi,
    {
        let spans = &rep.calls[pi].from_spans;
        proof {
            assert(ucv[pi as int] == (rep.calls@[pi as int].call_to, rep.calls@[
                pi as int
            ].from_spans@));
            assert(spans@.skip(0) =~= spans@);
        }
        let mut si: usize = 0;
        while si < spans.len()
            invariant
                si <= spans@.len(),
                pi < rep.calls@.len(),
                spans == &rep.calls@[pi as int].from_spans,
                ucv[pi as int].1 == spans@,
                rep.axiom_spans@ + flat_spans(ucv, 0) == out@ + spans@.skip(si as int)
                    + flat_spans(ucv, pi as int + 1),
            decreases spans@.len() - si,
        {
            let ghost ppre = out@;
            out.push(spans[si]);
            proof {
                assert(spans@.skip(si as int) =~= seq![spans@[si as int]] + spans@.skip(
                    si as int + 1,
                ));
                assert(out@ =~= ppre + seq![spans@[si as int]]);
                assert(ppre + spans@.skip(si as int) =~= out@ + spans@.skip(si as int + 1));
            }
            si = si + 1;
        }
        proof {
            assert(spans@.skip(si as int) =~= Seq::<SrcSpan>::empty());
            assert(out@ + spans@.skip(si as int) =~= out@);
        }
        pi = pi + 1;
    }
    proof {
        assert(flat_spans(ucv, pi as int) =~= Seq::<SrcSpan>::empty());
        assert(out@ + flat_spans(ucv, pi as int) =~= out@);
    }
    out
}

/// The notes of one function's aggregated diagnostic: the witness path
/// first, then each unresolved occurrence, and the two counts.
#[verifier::loop_isolation(false)]
fn report_notes(through: &Vec<(usize, SrcSpan)>, rep: FnIssueReport) -> (r: (
    Vec<Note>,
    usize,
    usize,
))
    ensures
        r.0@.len() > 0,
        (r.0@[0] matches Note::ReachablePath(pth) && pth@ == through@),
        r.1 == rep.axiom_spans@.len(),
        r.2 == rep.calls@.len(),
{
    let mut notes: Vec<Note> = Vec::new();
    notes.push(Note::ReachablePath(crate::reach::copy_path(through)));
    let axiom_count = rep.axiom_spans.len();
    let mut ai: usize = 0;
    while ai < rep.axiom_spans.len()
        invariant
            ai <= rep.axiom_spans@.len(),
            notes@.len() > 0,
            (notes@[0] matches Note::ReachablePath(pth) && pth@ == through@),
        decreases rep.axiom_spans@.len() - ai,
    {
        notes.push(Note::AxiomHere(rep.axiom_spans[ai]));
        ai = ai + 1;
    }
    let call_count = rep.calls.len();
    let mut ci: usize = 0;
    let rep_calls = rep.calls;
    while ci < rep_calls.len()
        invariant
            ci <= rep_calls@.len(),
            notes@.len() > 0,
            (notes@[0] matches Note::ReachablePath(pth) && pth@ == through@),
        decreases rep_calls@.len() - ci,
    {
        let spans = crate::reach::copy_spans(&rep_calls[ci].from_spans);
        notes.push(Note::CalledHere(rep_calls[ci].call_to, spans));
        ci = ci + 1;
    }
    (notes, axiom_count, call_count)
}

/// Check every function reachable from the property's entry points.
///
/// Returns the run's statistics and the aggregated diagnostics, one per
/// offending function, each carrying the reachability path and the spans
/// of everything unresolved. The diagnostics are empty exactly when every
/// reachable function passes its check (and the crate-level markers do
/// not conflict, which is itself a diagnostic).
#[verifier::loop_isolation(false)]
#[verifier::rlimit(100)]
#[verifier::spinoff_prover]
pub fn check_crate_for_property<P: Property>(
    p: &P,
    model: &ProgramModel,
    overrides: &TomlAnnotation,
    cfg: SniffTestArgs,
) -> (r: (CheckStats, Vec<Diagnostic>))
    requires
        model_wf(*model),
    ensures
        ({
            let pid = p.spec_property_id();
            let mr = p.spec_req_marker();
            let jm = p.spec_just_marker();
            let gv = crate::reach::graph_view(model.graph.calls@);
            let ev = entries_of(*model, pid, 0);
            &&& r.0.w_obligation + r.0.w_no_obligation == r.0.total_fns_checked
            &&& (global_mode(*model, pid) == GlobalMode::Conflicting ==> r.1@.len() > 0
                && r.0 == (CheckStats {
                entrypoints: 0,
                total_fns_checked: 0,
                w_obligation: 0,
                w_no_obligation: 0,
            }))
            &&& (global_mode(*model, pid) != GlobalMode::Conflicting ==> r.0.entrypoints
                == ev.len() && r.0.total_fns_checked == crate::reach::reachable_set(
                gv,
                ev,
            ).len() && (r.1@.len() == 0 <==> forall|f: usize|
                f < gv.len() && #[trigger] crate::reach::spec_reachable(gv, ev, f)
                    ==> crate_fn_clean(mr, jm, pid, *model, overrides@, cfg, f as int)))
            &&& forall|j: int|
                0 <= j < r.1@.len() ==> diag_ok(
                    mr,
                    jm,
                    pid,
                    *model,
                    overrides@,
                    cfg,
                    ev,
                    #[trigger] r.1@[j],
                )
            &&& (global_mode(*model, pid) != GlobalMode::Conflicting ==> forall|f: usize|
                f < gv.len() && #[trigger] crate::reach::spec_reachable(gv, ev, f)
                    && !crate_fn_clean(mr, jm, pid, *model, overrides@, cfg, f as int)
                    ==> exists|j: int|
                    0 <= j < r.1@.len() && diag_about((#[trigger] r.1@[j]).kind) == Some(f))
        }),
{
    let ghost pid = p.spec_property_id();
    let ghost mr = p.spec_req_marker();
    let ghost jm = p.spec_just_marker();
    let ghost gv = crate::reach::graph_view(model.graph.calls@);
    let ghost ov = overrides@;
    let mut diags: Vec<Diagnostic> = Vec::new();
    let entry = match analysis_entry_points(p, model) {
        Ok(v) => v,
        Err(_) => {
            diags.push(
                Diagnostic {
                    severity: Severity::Error,
                    kind: DiagnosticKind::ConflictingGlobalMarkers,
                    primary_spans: Vec::new(),
                    notes: Vec::new(),
                },
            );
            proof {
                assert(diag_ok(mr, jm, pid, *model, ov, cfg, entries_of(*model, pid, 0), diags@[0]));
            }
            let stats = CheckStats {
                entrypoints: 0,
                total_fns_checked: 0,
                w_obligation: 0,
                w_no_obligation: 0,
            };
            return (stats, diags);
        },
    };
    let n_check = model.fns.len();
    proof {
        assert(model.fns@.len() == n_check);
        lemma_entries_bounded(*model, pid, 0);
    }
    let reachable = crate::reach::locally_reachable_from(&model.graph, &entry);
    let mut w_obligation: usize = 0;
    let mut w_no_obligation: usize = 0;
    let mut idx: usize = 0;
    while idx < reachable.len()
        invariant
            idx <= reachable@.len(),
            entry@ == entries_of(*model, pid, 0),
            w_obligation + w_no_obligation == idx,
            forall|j: int|
                0 <= j < reachable@.len() ==> (#[trigger] reachable@[j]).reach < gv.len()
                    && crate::reach::valid_path(
                    gv,
                    entry@,
                    reachable@[j].through@,
                    reachable@[j].reach,
                ) && crate::reach::groups_view(reachable@[j].calls_to@)
                    == crate::reach::group_spec(gv[reachable@[j].reach as int], 0),
            forall|f: usize|
                f < gv.len() && #[trigger] crate::reach::spec_reachable(gv, entry@, f)
                    ==> exists|j: int|
                    0 <= j < reachable@.len() && (#[trigger] reachable@[j]).reach == f,
            (diags@.len() == 0 <==> forall|j: int|
                0 <= j < idx ==> crate_fn_clean(
                    mr,
                    jm,
                    pid,
                    *model,
                    ov,
                    cfg,
                    (#[trigger] reachable@[j]).reach as int,
                )),
            forall|j: int|
                0 <= j < diags@.len() ==> diag_ok(
                    mr,
                    jm,
                    pid,
                    *model,
                    ov,
                    cfg,
                    entry@,
                    #[trigger] diags@[j],
                ),
            forall|j: int|
                0 <= j < idx && !crate_fn_clean(
                    mr,
                    jm,
                    pid,
                    *model,
                    ov,
                    cfg,
                    (#[trigger] reachable@[j]).reach as int,
                ) ==> exists|dj: int|
                    0 <= dj < diags@.len() && diag_about((#[trigger] diags@[dj]).kind) == Some(
                        reachable@[j].reach,
                    ),
        decreases reachable@.len() - idx,
    {
        let func = &reachable[idx];
        let f = func.reach;
        let ghost diags_start = diags@;
        let ghost mut wit: int = 0;
        let ghost o = ann_outcome(
            mr,
            ov,
            model.fns@[f as int].name@,
            doc_text_view(model.fns@[f as int].docs),
            cfg.fine_grained,
            true,
        );
        let ghost clean = crate_fn_clean(mr, jm, pid, *model, ov, cfg, f as int);
        let mut bad_here = false;
        match parse_fn_def(p, overrides, &model.fns[f], cfg, true) {
            Some(Err(issue)) => {
                w_obligation = w_obligation + 1;
                diags.push(
                    Diagnostic {
                        severity: Severity::Error,
                        kind: DiagnosticKind::MalformedAnnotation { function: f, issue },
                        primary_spans: Vec::new(),
                        notes: Vec::new(),
                    },
                );
                bad_here = true;
                proof {
                    wit = diags@.len() - 1;
                    assert(!clean);
                    assert(crate::reach::spec_reachable(gv, entry@, f));
                    assert(diag_ok(mr, jm, pid, *model, ov, cfg, entry@, diags@[diags@.len()
                        - 1]));
                    assert(diag_about(diags@[diags@.len() - 1].kind) == Some(f));
                }
            },
            Some(Ok(a)) => {
                match a.creates_obligation(cfg.fine_grained) {
                    Some(_obl) => {
                        w_obligation = w_obligation + 1;
                        proof {
                            assert(obligation_of(o, cfg.fine_grained) is Some);
                            assert(!(o is Hard));
                        }
                        // every obligation this override implies must
                        // already be implied by the trait's declaration:
                        // in the fine-grained mode, each named condition
                        // must be declared by the trait
                        match model.fns[f].trait_method {
                            Some(t) => {
                                if t < model.fns.len() {
                                    let t_obl = own_obligation(
                                        p,
                                        overrides,
                                        &model.fns[t],
                                        cfg,
                                        true,
                                    );
                                    let within = match own_obligation(
                                        p,
                                        overrides,
                                        &model.fns[f],
                                        cfg,
                                        true,
                                    ) {
                                        Some(own) => obligation_within_exec(&own, &t_obl),
                                        None => {
                                            proof {
                                                assert(false);
                                            }
                                            true
                                        },
                                    };
                                    if !within {
                                        let mut notes: Vec<Note> = Vec::new();
                                        notes.push(Note::DeclaredBy(t));
                                        diags.push(
                                            Diagnostic {
                                                severity: Severity::Error,
                                                kind: DiagnosticKind::TraitObligationMismatch {
                                                    function: f,
                                                    trait_function: t,
                                                },
                                                primary_spans: Vec::new(),
                                                notes,
                                            },
                                        );
                                        bad_here = true;
                                        proof {
                                            wit = diags@.len() - 1;
                                            assert(crate::reach::spec_reachable(gv, entry@, f));
                                            assert(diag_ok(mr, jm, pid, *model, ov, cfg, entry@,
                                                diags@[diags@.len() - 1]));
                                            assert(diag_about(diags@[diags@.len() - 1].kind)
                                                == Some(f));
                                        }
                                    }
                                }
                            },
                            None => {
                            },
                        }
                        // a function annotated with safety preconditions
                        // must be marked unsafe at the language level
                        let id_now = p.property_id();
                        if matches!(id_now, crate::attrs::PropertyId::Safety)
                            && !model.fns[f].is_unsafe {
                            diags.push(
                                Diagnostic {
                                    severity: Severity::Error,
                                    kind: DiagnosticKind::NotMarkedUnsafe { function: f },
                                    primary_spans: Vec::new(),
                                    notes: Vec::new(),
                                },
                            );
                            bad_here = true;
                            proof {
                                wit = diags@.len() - 1;
                                assert(crate::reach::spec_reachable(gv, entry@, f));
                                assert(diag_ok(mr, jm, pid, *model, ov, cfg, entry@, diags@[
                                    diags@.len() - 1
                                ]));
                                assert(diag_about(diags@[diags@.len() - 1].kind) == Some(f));
                            }
                        }
                        proof {
                            assert(bad_here == !clean);
                        }
                    },
                    None => {
                        proof {
                            assert(false);
                        }
                        w_no_obligation = w_no_obligation + 1;
                    },
                }
            },
            None => {
                w_no_obligation = w_no_obligation + 1;
                proof {
                    assert(obligation_of(o, cfg.fine_grained) is None);
                }
                match check_function_for_property(p, model, overrides, cfg, func) {
                    Ok(()) => {
                        proof {
                            assert(clean);
                        }
                    },
                    Err(rep) => {
                        let ghost ucv = unjust_calls(
                            mr,
                            jm,
                            *model,
                            ov,
                            cfg,
                            f as int,
                            crate::reach::group_spec(gv[f as int], 0),
                            0,
                        );
                        proof {
                            assert(calls_report_view(rep.calls@) == ucv);
                            assert(calls_report_view(rep.calls@).len() == rep.calls@.len());
                        }
                        let primary_spans = report_primary_spans(&rep);
                        let (notes, axiom_count, call_count) = report_notes(&func.through, rep);
                        diags.push(
                            Diagnostic {
                                severity: Severity::Error,
                                kind: DiagnosticKind::Unjustified {
                                    function: f,
                                    axiom_count,
                                    call_count,
                                },
                                primary_spans,
                                notes,
                            },
                        );
                        bad_here = true;
                        proof {
                            wit = diags@.len() - 1;
                            assert(!clean);
                            assert(crate::reach::spec_reachable(gv, entry@, f));
                            assert(diag_ok(mr, jm, pid, *model, ov, cfg, entry@, diags@[
                                diags@.len() - 1
                            ]));
                            assert(diag_about(diags@[diags@.len() - 1].kind) == Some(f));
                        }
                    },
                }
            },
        }
        proof {
            assert(forall|k: int|
                0 <= k < diags_start.len() ==> #[trigger] diags@[k] == diags_start[k]);
            if !clean {
                assert(0 <= wit < diags@.len() && diag_about(diags@[wit].kind) == Some(f));
                assert(exists|dj: int|
                    0 <= dj < diags@.len() && diag_about((#[trigger] diags@[dj]).kind) == Some(
                        f,
                    ));
            }
            assert forall|j: int|
                0 <= j < idx + 1 && !crate_fn_clean(
                    mr,
                    jm,
                    pid,
                    *model,
                    ov,
                    cfg,
                    (#[trigger] reachable@[j]).reach as int,
                ) implies exists|dj: int|
                0 <= dj < diags@.len() && diag_about((#[trigger] diags@[dj]).kind) == Some(
                    reachable@[j].reach,
                ) by {
                if j < idx {
                    let dj = choose|dj: int|
                        0 <= dj < diags_start.len() && diag_about((
                        #[trigger] diags_start[dj]).kind) == Some(reachable@[j].reach);
                    assert(diags@[dj] == diags_start[dj]);
                }
            }
        }
        idx = idx + 1;
    }
    let stats = CheckStats {
        entrypoints: entry.len(),
        total_fns_checked: idx,
        w_obligation,
        w_no_obligation,
    };
    proof {
        assert forall|ff: usize|
            ff < gv.len() && #[trigger] crate::reach::spec_reachable(gv, entry@, ff)
                && !crate_fn_clean(mr, jm, pid, *model, ov, cfg, ff as int) implies exists|dj: int|
            0 <= dj < diags@.len() && diag_about((#[trigger] diags@[dj]).kind) == Some(ff) by {
            let j = choose|j: int|
                0 <= j < reachable@.len() && (#[trigger] reachable@[j]).reach == ff;
        }
        if diags@.len() == 0 {
            assert forall|f: usize|
                f < gv.len() && #[trigger] crate::reach::spec_reachable(gv, entry@, f)
                    implies crate_fn_clean(mr, jm, pid, *model, ov, cfg, f as int) by {
                let j = choose|j: int|
                    0 <= j < reachable@.len() && (#[trigger] reachable@[j]).reach == f;
                assert(crate_fn_clean(mr, jm, pid, *model, ov, cfg, reachable@[j].reach as int));
            }
        } else {
            if forall|f: usize|
                f < gv.len() && #[trigger] crate::reach::spec_reachable(gv, entry@, f)
                    ==> crate_fn_clean(mr, jm, pid, *model, ov, cfg, f as int) {
                assert forall|j: int| 0 <= j < reachable@.len() implies crate_fn_clean(
                    mr,
                    jm,
                    pid,
                    *model,
                    ov,
                    cfg,
                    (#[trigger] reachable@[j]).reach as int,
                ) by {
                    assert(crate::reach::valid_path(
                        gv,
                        entry@,
                        reachable@[j].through@,
                        reachable@[j].reach,
                    ));
                    assert(crate::reach::spec_reachable(gv, entry@, reachable@[j].reach));
                }
                assert(false);
            }
        }
    }
    (stats, diags)
}

/// Exec check of [`frags_wf`], so an unverified caller can test the
/// model's well-formedness before a check.
fn frags_ok(fs: &Vec<DocFragment>) -> (b: bool)
    ensures
        b == frags_wf(fs@),
{
    let mut off: usize = 0;
    let mut i: usize = 0;
    while i < fs.len()
        invariant
            i <= fs@.len(),
            off == crate::spans::frag_offset(fs@, i as int),
            forall|j: int| 0 <= j < i ==> crate::spans::frag_wf(#[trigger] fs@[j]),
        decreases fs@.len() - i,
    {
        let f = fs[i];
        if !((f.span.lo as u128) + (crate::spans::DOC_COMMENT_PREFIX_LEN as u128) + (
        f.len as u128) <= f.span.hi as u128) {
            return false;
        }
        if off == usize::MAX || f.len > usize::MAX - off - 1 {
            proof {
                crate::spans::lemma_frag_offset_mono(fs@, i as int + 1, fs@.len() as int);
            }
            return false;
        }
        off = off + f.len + 1;
        i = i + 1;
    }
    true
}

/// Exec check of [`fn_model_wf`].
fn fn_model_ok(fm: &FnModel) -> (b: bool)
    ensures
        b == fn_model_wf(*fm),
{
    match &fm.docs {
        Some(dt) => frags_ok(&dt.fragments),
        None => true,
    }
}

/// Exec check of [`model_wf`], so an unverified caller can test a model
/// it built before handing it to the checker.
pub fn model_is_wf(m: &ProgramModel) -> (b: bool)
    ensures
        b == model_wf(*m),
{
    let n = m.graph.calls.len();
    if m.fns.len() != n || m.axioms.len() != n || m.call_docs.len() != n {
        return false;
    }
    let ghost gv = crate::reach::graph_view(m.graph.calls@);
    let mut f: usize = 0;
    while f < n
        invariant
            f <= n,
            n == m.graph.calls@.len(),
            gv == crate::reach::graph_view(m.graph.calls@),
            forall|a: int, k: int|
                0 <= a < f && 0 <= k < gv[a].len() ==> match (#[trigger] gv[a][k]).callee {
                    CalleeId::Local(j) => j < gv.len(),
                    CalleeId::Foreign(_) => true,
                },
        decreases n - f,
    {
        let sites = &m.graph.calls[f];
        let mut k: usize = 0;
        while k < sites.len()
            invariant
                f < n,
                n == m.graph.calls@.len(),
                gv == crate::reach::graph_view(m.graph.calls@),
                sites == &m.graph.calls@[f as int],
                k <= sites@.len(),
                forall|q: int|
                    0 <= q < k ==> match (#[trigger] sites@[q]).callee {
                        CalleeId::Local(j) => j < gv.len(),
                        CalleeId::Foreign(_) => true,
                    },
            decreases sites@.len() - k,
        {
            match sites[k].callee {
                CalleeId::Local(j) => {
                    if j >= n {
                        proof {
                            assert(gv[f as int][k as int] == sites@[k as int]);
                            assert(!crate::reach::graph_wf(gv));
                        }
                        return false;
                    }
                },
                CalleeId::Foreign(_) => {
                },
            }
            k = k + 1;
        }
        proof {
            assert(gv[f as int] == m.graph.calls@[f as int]@);
        }
        f = f + 1;
    }
    let mut i: usize = 0;
    while i < m.fns.len()
        invariant
            i <= m.fns@.len(),
            forall|j: int| 0 <= j < i ==> fn_model_wf(#[trigger] m.fns@[j]),
        decreases m.fns@.len() - i,
    {
        if !fn_model_ok(&m.fns[i]) {
            return false;
        }
        i = i + 1;
    }
    let mut i2: usize = 0;
    while i2 < m.foreigns.len()
        invariant
            i2 <= m.foreigns@.len(),
            forall|j: int| 0 <= j < i2 ==> fn_model_wf((#[trigger] m.foreigns@[j]).1),
        decreases m.foreigns@.len() - i2,
    {
        if !fn_model_ok(&m.foreigns[i2].1) {
            return false;
        }
        i2 = i2 + 1;
    }
    true
}

} // verus!
