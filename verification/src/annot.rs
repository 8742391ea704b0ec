//! Core annotation types: requirements, justifications, and the
//! obligations they induce.
//!
//! A requirement is a named precondition a function declares its callers
//! must satisfy; a justification is the claim, attached at a call site,
//! that a named precondition has been satisfied. Names are compared by
//! exact, case-sensitive equality; descriptions are never compared.

use vstd::prelude::*;
use crate::marker::MarkerStyle;
use crate::names::ConditionName;
use crate::names::InvalidConditionNameReason;
use crate::names::has_name_wsp;
use crate::parse::ParsingIssue;
use crate::parse::SpecIssue;
use crate::parse::parse_bullets_spec;
use crate::parse::parse_bullets_from_string;
use crate::parse::requirement_marker;
use crate::parse::justification_marker;
use crate::spans::SrcSpan;

verus! {

/// A condition that must hold for a call to be free of the property's
/// risk.
#[derive(Debug)]
pub struct Requirement {
    name: ConditionName,
    description: String,
}

impl View for Requirement {
    type V = (Seq<char>, Seq<char>);

    closed spec fn view(&self) -> (Seq<char>, Seq<char>) {
        (self.name@, self.description@)
    }
}

impl Requirement {
    /// A requirement from an already-validated name.
    pub fn new(name: ConditionName, description: &str) -> (r: Requirement)
        ensures
            r@ == (name@, description@),
    {
        Requirement { name, description: description.to_owned() }
    }

    /// A requirement from raw text: the name is validated, the
    /// description taken as given. For a name containing whitespace, the
    /// error distinguishes several tokens from one token with stray
    /// whitespace.
    pub fn try_new(name: &str, description: &str) -> (r: Result<
        Requirement,
        InvalidConditionNameReason,
    >)
        ensures
            r is Ok <==> !has_name_wsp(name@),
            r is Ok ==> r->Ok_0@ == (name@, description@),
            r == Err::<Requirement, _>(InvalidConditionNameReason::MultipleWords) <==> (
            has_name_wsp(name@) && crate::names::word_count(name@) >= 2),
            r == Err::<Requirement, _>(InvalidConditionNameReason::TrailingWhitespace) <==> (
            has_name_wsp(name@) && crate::names::word_count(name@) <= 1),
    {
        match ConditionName::try_new(name) {
            Ok(n) => Ok(Requirement::new(n, description)),
            Err(reason) => Err(reason),
        }
    }

    /// The validated condition name.
    pub fn name(&self) -> (n: &ConditionName)
        ensures
            n@ == self@.0,
    {
        &self.name
    }

    /// The prose description of the condition.
    pub fn description(&self) -> (d: &str)
        ensures
            d@ == self@.1,
    {
        self.description.as_str()
    }

    /// Requirements from name/description pairs whose names are already
    /// known to be valid.
    pub fn construct(pairs: Vec<(String, String)>) -> (r: Vec<Requirement>)
        requires
            forall|i: int| 0 <= i < pairs@.len() ==> !has_name_wsp(#[trigger] pairs@[i].0@),
        ensures
            r@.len() == pairs@.len(),
            forall|i: int|
                0 <= i < pairs@.len() ==> #[trigger] r@[i]@ == (pairs@[i].0@, pairs@[i].1@),
    {
        let mut out: Vec<Requirement> = Vec::new();
        let mut i: usize = 0;
        while i < pairs.len()
            invariant
                i <= pairs@.len(),
                out@.len() == i,
                forall|j: int| 0 <= j < pairs@.len() ==> !has_name_wsp(#[trigger] pairs@[j].0@),
                forall|j: int|
                    0 <= j < i ==> #[trigger] out@[j]@ == (pairs@[j].0@, pairs@[j].1@),
            decreases pairs@.len() - i,
        {
            match ConditionName::try_new(pairs[i].0.as_str()) {
                Ok(n) => {
                    out.push(Requirement { name: n, description: pairs[i].1.clone() });
                },
                Err(_) => {
                    proof {
                        assert(false);
                    }
                },
            }
            i = i + 1;
        }
        out
    }
}

impl Clone for Requirement {
    /// Clones preserve the name and the description.
    fn clone(&self) -> (r: Self)
        ensures
            r@ == self@,
    {
        Requirement { name: self.name.clone(), description: self.description.clone() }
    }
}

impl PartialEq for Requirement {
    fn eq(&self, other: &Self) -> (r: bool) {
        self.name == other.name && self.description == other.description
    }
}

impl Eq for Requirement {

}

impl vstd::std_specs::cmp::PartialEqSpecImpl for Requirement {
    open spec fn obeys_eq_spec() -> bool {
        true
    }

    open spec fn eq_spec(&self, other: &Self) -> bool {
        self@ == other@
    }
}

/// The justification for why a given condition has been satisfied.
#[derive(Debug)]
pub struct Justification {
    name: ConditionName,
    explanation: String,
}

impl View for Justification {
    type V = (Seq<char>, Seq<char>);

    closed spec fn view(&self) -> (Seq<char>, Seq<char>) {
        (self.name@, self.explanation@)
    }
}

impl Justification {
    /// A justification from an already-validated name.
    pub fn new(name: ConditionName, explanation: &str) -> (r: Justification)
        ensures
            r@ == (name@, explanation@),
    {
        Justification { name, explanation: explanation.to_owned() }
    }

    /// The validated condition name.
    pub fn name(&self) -> (n: &ConditionName)
        ensures
            n@ == self@.0,
    {
        &self.name
    }

    /// The prose explanation.
    pub fn description(&self) -> (d: &str)
        ensures
            d@ == self@.1,
    {
        self.explanation.as_str()
    }
}

impl Clone for Justification {
    /// Clones preserve the name and the explanation.
    fn clone(&self) -> (r: Self)
        ensures
            r@ == self@,
    {
        Justification { name: self.name.clone(), explanation: self.explanation.clone() }
    }
}

impl PartialEq for Justification {
    fn eq(&self, other: &Self) -> (r: bool) {
        self.name == other.name && self.explanation == other.explanation
    }
}

impl Eq for Justification {

}

impl vstd::std_specs::cmp::PartialEqSpecImpl for Justification {
    open spec fn obeys_eq_spec() -> bool {
        true
    }

    open spec fn eq_spec(&self, other: &Self) -> bool {
        self@ == other@
    }
}

/// The specification-level outcome of the requirement parser: the
/// `Unsafe` header section of the text, parsed by the bullet grammar.
pub open spec fn requirements_spec(s: Seq<char>) -> Result<
    Seq<(Seq<char>, Seq<char>, (int, int))>,
    SpecIssue,
> {
    parse_bullets_spec(s, MarkerStyle::Header, "Unsafe"@, "UNSAFE"@)
}

/// The specification-level outcome of the justification parser: the
/// `Safety:` section of the text, parsed by the bullet grammar.
pub open spec fn justifications_spec(s: Seq<char>) -> Result<
    Seq<(Seq<char>, Seq<char>, (int, int))>,
    SpecIssue,
> {
    parse_bullets_spec(s, MarkerStyle::InlineColon, "Safety"@, "SAFETY"@)
}

/// The name/description views of a list of requirements.
pub open spec fn reqs_view(v: Seq<Requirement>) -> Seq<(Seq<char>, Seq<char>)> {
    v.map_values(|q: Requirement| q@)
}

/// The name/explanation views of a list of justifications.
pub open spec fn justs_view(v: Seq<Justification>) -> Seq<(Seq<char>, Seq<char>)> {
    v.map_values(|q: Justification| q@)
}

/// The names and descriptions of parsed bullets, without their ranges.
pub open spec fn drop_ranges(ts: Seq<(Seq<char>, Seq<char>, (int, int))>) -> Seq<
    (Seq<char>, Seq<char>),
> {
    ts.map_values(|t: (Seq<char>, Seq<char>, (int, int))| (t.0, t.1))
}

/// Parse the requirement section of one item's documentation text.
///
/// The result is exactly what [`requirements_spec`] gives: the
/// requirements of the unique `Unsafe` header section, in source order,
/// or its parse error.
pub fn requirements_from_string(doc_str: &str) -> (r: Result<Vec<Requirement>, ParsingIssue>)
    ensures
        match r {
            Ok(v) => requirements_spec(doc_str@) is Ok && reqs_view(v@) == drop_ranges(
                requirements_spec(doc_str@)->Ok_0,
            ),
            Err(e) => requirements_spec(doc_str@) == Err::<
                Seq<(Seq<char>, Seq<char>, (int, int))>,
                SpecIssue,
            >(e@),
        },
{
    let m = requirement_marker();
    match parse_bullets_from_string(doc_str, &m) {
        Err(e) => Err(e),
        Ok(triples) => {
            let ghost tv = requirements_spec(doc_str@)->Ok_0;
            let mut out: Vec<Requirement> = Vec::new();
            let mut i: usize = 0;
            while i < triples.len()
                invariant
                    i <= triples@.len(),
                    out@.len() == i,
                    tv.len() == triples@.len(),
                    forall|j: int|
                        0 <= j < triples@.len() ==> #[trigger] tv[j] == (triples@[j].0@, triples@[
                            j
                        ].1@, triples@[j].2@),
                    forall|j: int| 0 <= j < i ==> #[trigger] out@[j]@ == (tv[j].0, tv[j].1),
                decreases triples@.len() - i,
            {
                let n = triples[i].0.clone();
                let d = triples[i].1.clone();
                out.push(Requirement { name: n, description: d });
                i = i + 1;
            }
            proof {
                assert(reqs_view(out@) =~= drop_ranges(tv));
            }
            Ok(out)
        },
    }
}

/// Parse the justification section of one item's documentation text.
///
/// The result is exactly what [`justifications_spec`] gives: the
/// justifications of the unique `Safety:` section, in source order, or
/// its parse error.
pub fn justifications_from_string(doc_str: &str) -> (r: Result<Vec<Justification>, ParsingIssue>)
    ensures
        match r {
            Ok(v) => justifications_spec(doc_str@) is Ok && justs_view(v@) == drop_ranges(
                justifications_spec(doc_str@)->Ok_0,
            ),
            Err(e) => justifications_spec(doc_str@) == Err::<
                Seq<(Seq<char>, Seq<char>, (int, int))>,
                SpecIssue,
            >(e@),
        },
{
    let m = justification_marker();
    match parse_bullets_from_string(doc_str, &m) {
        Err(e) => Err(e),
        Ok(triples) => {
            let ghost tv = justifications_spec(doc_str@)->Ok_0;
            let mut out: Vec<Justification> = Vec::new();
            let mut i: usize = 0;
            while i < triples.len()
                invariant
                    i <= triples@.len(),
                    out@.len() == i,
                    tv.len() == triples@.len(),
                    forall|j: int|
                        0 <= j < triples@.len() ==> #[trigger] tv[j] == (triples@[j].0@, triples@[
                            j
                        ].1@, triples@[j].2@),
                    forall|j: int| 0 <= j < i ==> #[trigger] out@[j]@ == (tv[j].0, tv[j].1),
                decreases triples@.len() - i,
            {
                let n = triples[i].0.clone();
                let d = triples[i].1.clone();
                out.push(Justification { name: n, explanation: d });
                i = i + 1;
            }
            proof {
                assert(justs_view(out@) =~= drop_ranges(tv));
            }
            Ok(out)
        },
    }
}

/// A failure to discharge one requirement: the index of the first
/// requirement that no justification names.
#[derive(Debug, Clone, Copy, PartialEq, Eq, Structural)]
pub struct ConsistencyIssue {
    pub missing_index: usize,
}

/// Whether some justification names the requirement's condition.
pub open spec fn req_covered(justs: Seq<(Seq<char>, Seq<char>)>, req: (Seq<char>, Seq<char>)) -> bool {
    exists|k: int| 0 <= k < justs.len() && justs[k].0 == req.0
}

/// Check that every requirement's condition is named by some
/// justification; descriptions play no part.
///
/// Returns the index of the first uncovered requirement otherwise.
pub fn check_consistency(justifications: &Vec<Justification>, for_requirements: &Vec<Requirement>)
    -> (r: Result<(), ConsistencyIssue>)
    ensures
        match r {
            Ok(()) => forall|i: int|
                0 <= i < for_requirements@.len() ==> req_covered(
                    justs_view(justifications@),
                    #[trigger] for_requirements@[i]@,
                ),
            Err(c) => c.missing_index < for_requirements@.len() && !req_covered(
                justs_view(justifications@),
                for_requirements@[c.missing_index as int]@,
            ) && forall|i: int|
                0 <= i < c.missing_index ==> req_covered(
                    justs_view(justifications@),
                    #[trigger] for_requirements@[i]@,
                ),
        },
{
    let mut i: usize = 0;
    while i < for_requirements.len()
        invariant
            i <= for_requirements@.len(),
            forall|j: int|
                0 <= j < i ==> req_covered(
                    justs_view(justifications@),
                    #[trigger] for_requirements@[j]@,
                ),
        decreases for_requirements@.len() - i,
    {
        let mut sat = false;
        let mut k: usize = 0;
        while k < justifications.len()
            invariant
                k <= justifications@.len(),
                i < for_requirements@.len(),
                sat ==> req_covered(justs_view(justifications@), for_requirements@[i as int]@),
                !sat ==> forall|j: int|
                    0 <= j < k ==> justs_view(justifications@)[j].0 != for_requirements@[
                        i as int
                    ]@.0,
            decreases justifications@.len() - k,
        {
            proof {
                assert(justs_view(justifications@)[k as int] == justifications@[k as int]@);
            }
            let jn = justifications[k].name();
            let rn = for_requirements[i].name();
            if *jn == *rn {
                proof {
                    assert(jn@ == justifications@[k as int]@.0);
                    assert(rn@ == for_requirements@[i as int]@.0);
                }
                sat = true;
            }
            k = k + 1;
        }
        if !sat {
            return Err(ConsistencyIssue { missing_index: i });
        }
        i = i + 1;
    }
    Ok(())
}

/// One parsed condition of a conditional violation annotation, with the
/// source span of its bullet (a zero span when the annotation came from
/// an override file).
#[derive(Debug)]
pub struct SpannedCondition {
    pub span: SrcSpan,
    pub name: String,
    pub description: String,
}

/// The view of one spanned condition.
pub open spec fn scond_view(c: SpannedCondition) -> ((int, int), Seq<char>, Seq<char>) {
    ((c.span.lo as int, c.span.hi as int), c.name@, c.description@)
}

/// The views of a list of spanned conditions.
pub open spec fn sconds_view(v: Seq<SpannedCondition>) -> Seq<((int, int), Seq<char>, Seq<char>)> {
    v.map_values(|c: SpannedCondition| scond_view(c))
}

impl Clone for SpannedCondition {
    /// Clones are equal to the original.
    fn clone(&self) -> (r: Self)
        ensures
            r == *self,
    {
        SpannedCondition {
            span: self.span,
            name: self.name.clone(),
            description: self.description.clone(),
        }
    }
}

/// The user's annotation for whether the property is violated locally
/// within a function.
#[derive(Debug)]
pub enum PropertyViolation {
    /// The property will always be violated.
    Unconditional,
    /// The property is violated unless the named conditions hold.
    Conditionally(Vec<SpannedCondition>),
    /// The property will never be violated.
    Never,
}

/// The caller-facing consequence of a function's requirements.
#[derive(Debug)]
pub enum Obligation {
    /// Callers must consider the property generally.
    ConsiderProperty,
    /// Callers must specifically consider the conditions under which the
    /// property will not hold.
    ConsiderConditions(Vec<SpannedCondition>),
}

/// Where a parsed annotation came from.
#[derive(Debug)]
pub enum AnnotationSource {
    /// Source spans of the documentation comments it was parsed from.
    DocComment(Vec<SrcSpan>),
    /// An override-file entry, with no real span.
    TomlOverride,
}

/// A function's parsed requirement annotation for one property.
#[derive(Debug)]
pub struct DefAnnotation {
    /// The user's annotation for whether the property is violated
    /// locally within this function.
    pub local_violation_annotation: PropertyViolation,
    /// The textual content of the annotation's section.
    pub text: String,
    /// Where the annotation came from.
    pub source: AnnotationSource,
}

/// Clone a list of spanned conditions, preserving every view.
fn clone_conditions(v: &Vec<SpannedCondition>) -> (r: Vec<SpannedCondition>)
    ensures
        sconds_view(r@) == sconds_view(v@),
{
    let mut out: Vec<SpannedCondition> = Vec::new();
    let mut i: usize = 0;
    while i < v.len()
        invariant
            i <= v@.len(),
            out@.len() == i,
            forall|j: int| 0 <= j < i ==> scond_view(#[trigger] out@[j]) == scond_view(v@[j]),
        decreases v@.len() - i,
    {
        out.push(v[i].clone());
        i = i + 1;
    }
    proof {
        assert(sconds_view(out@) =~= sconds_view(v@));
    }
    out
}

impl DefAnnotation {
    /// Whether this function's annotation creates an obligation its
    /// callers must uphold, under the given run mode.
    ///
    /// In fine-grained mode a conditional annotation obliges callers to
    /// name each condition; otherwise any violation annotation obliges
    /// them to acknowledge the property; a never-violated annotation
    /// obliges nothing.
    pub fn creates_obligation(&self, fine_grained: bool) -> (r: Option<Obligation>)
        ensures
            match self.local_violation_annotation {
                PropertyViolation::Conditionally(cs) => {
                    if fine_grained {
                        r matches Some(Obligation::ConsiderConditions(rs)) && sconds_view(rs@)
                            == sconds_view(cs@)
                    } else {
                        r matches Some(Obligation::ConsiderProperty)
                    }
                },
                PropertyViolation::Unconditional => r matches Some(Obligation::ConsiderProperty),
                PropertyViolation::Never => r is None,
            },
    {
        match &self.local_violation_annotation {
            PropertyViolation::Conditionally(conditions) => {
                if fine_grained {
                    Some(Obligation::ConsiderConditions(clone_conditions(conditions)))
                } else {
                    Some(Obligation::ConsiderProperty)
                }
            },
            PropertyViolation::Unconditional => Some(Obligation::ConsiderProperty),
            PropertyViolation::Never => None,
        }
    }
}

} // verus!
