//! The pluggable property models.
//!
//! A property is one independently checked axis of risk. Each property
//! supplies its marker patterns and a table of canned requirements for
//! its known axiom kinds; finding axioms in a function body is the
//! frontend's work, so the core receives found axioms as plain data.

use vstd::prelude::*;
use vstd::string::StringExecFns;
use crate::annot::Requirement;
use crate::annot::reqs_view;
use crate::attrs::PropertyId;
use crate::marker::MarkerStyle;
use crate::marker::SectionMarker;
use crate::names::has_name_wsp;
use crate::parse::requirement_marker;
use crate::parse::justification_marker;
use crate::text::chars_vec;

verus! {

/// A property model: its identity and its two section markers.
pub trait Property: Sized {
    /// The requirement marker, at specification level.
    spec fn spec_req_marker(&self) -> (MarkerStyle, Seq<char>, Seq<char>);

    /// The justification marker, at specification level.
    spec fn spec_just_marker(&self) -> (MarkerStyle, Seq<char>, Seq<char>);

    /// The identity at specification level.
    spec fn spec_property_id(&self) -> PropertyId;

    /// Which property this is.
    fn property_id(&self) -> (p: PropertyId)
        ensures
            p == self.spec_property_id(),
    ;

    /// The marker that introduces a requirement section on a function
    /// definition.
    fn requirement_marker(&self) -> (m: SectionMarker)
        ensures
            m.wf(),
            (m.style, m.word@, m.word_caps@) == self.spec_req_marker(),
    ;

    /// The marker that introduces a justification section on a call site
    /// or an enclosing block.
    fn justification_marker(&self) -> (m: SectionMarker)
        ensures
            m.wf(),
            (m.style, m.word@, m.word_caps@) == self.spec_just_marker(),
    ;
}

/// The memory-safety property: risky operations are raw-pointer
/// dereferences; requirement sections are `Unsafe` headers, justification
/// sections `Safety:` lines.
#[derive(Debug, Clone, Copy)]
pub struct SafetyProperty;

/// The panic property: risky operations are calls into the panic
/// machinery; requirement sections are `Panics` headers, justification
/// sections `Panics:` lines.
#[derive(Debug, Clone, Copy)]
pub struct PanicProperty;

impl Property for SafetyProperty {
    open spec fn spec_req_marker(&self) -> (MarkerStyle, Seq<char>, Seq<char>) {
        (MarkerStyle::Header, "Unsafe"@, "UNSAFE"@)
    }

    open spec fn spec_just_marker(&self) -> (MarkerStyle, Seq<char>, Seq<char>) {
        (MarkerStyle::InlineColon, "Safety"@, "SAFETY"@)
    }

    open spec fn spec_property_id(&self) -> PropertyId {
        PropertyId::Safety
    }

    fn property_id(&self) -> (p: PropertyId) {
        PropertyId::Safety
    }

    fn requirement_marker(&self) -> (m: SectionMarker) {
        requirement_marker()
    }

    fn justification_marker(&self) -> (m: SectionMarker) {
        justification_marker()
    }
}

impl Property for PanicProperty {
    open spec fn spec_req_marker(&self) -> (MarkerStyle, Seq<char>, Seq<char>) {
        (MarkerStyle::Header, "Panics"@, "PANICS"@)
    }

    open spec fn spec_just_marker(&self) -> (MarkerStyle, Seq<char>, Seq<char>) {
        (MarkerStyle::InlineColon, "Panics"@, "PANICS"@)
    }

    open spec fn spec_property_id(&self) -> PropertyId {
        PropertyId::Panics
    }

    fn property_id(&self) -> (p: PropertyId) {
        PropertyId::Panics
    }

    fn requirement_marker(&self) -> (m: SectionMarker) {
        proof {
            reveal_strlit("Panics");
            reveal_strlit("PANICS");
        }
        let word = chars_vec("Panics");
        let word_caps = chars_vec("PANICS");
        SectionMarker { style: MarkerStyle::Header, word, word_caps }
    }

    fn justification_marker(&self) -> (m: SectionMarker) {
        proof {
            reveal_strlit("Panics");
            reveal_strlit("PANICS");
        }
        let word = chars_vec("Panics");
        let word_caps = chars_vec("PANICS");
        SectionMarker { style: MarkerStyle::InlineColon, word, word_caps }
    }
}

/// An axiom of the memory-safety property.
#[derive(Debug, Clone, Copy, PartialEq, Eq, Structural)]
pub enum SafetyAxiom {
    /// A dereference of a raw pointer.
    RawPtrDeref,
}

/// An axiom of the panic property.
#[derive(Debug, Clone, Copy, PartialEq, Eq, Structural)]
pub enum PanicAxiom {
    /// A direct call into the panic machinery.
    ExplicitPanic,
}

/// How bad a found axiom is known to be.
#[derive(Debug)]
pub enum AxiomaticBadness {
    /// The axiom always violates the property.
    Unconditional,
    /// The axiom violates the property unless these named conditions are
    /// satisfied by the caller.
    Conditional(Vec<Requirement>),
}

impl SafetyAxiom {
    /// The canned requirements of this axiom kind: a dereferenced raw
    /// pointer must be non-null and aligned.
    pub fn known_requirements(&self) -> (r: Option<AxiomaticBadness>)
        ensures
            r matches Some(AxiomaticBadness::Conditional(v)) && reqs_view(v@) == seq![
                ("ptr-non-null"@, "the dereferenced pointer must be non-null"@),
                ("ptr-aligned"@, "the dereferenced pointer must be aligned"@),
            ],
    {
        proof {
            reveal_strlit("ptr-non-null");
            reveal_strlit("ptr-aligned");
        }
        let mut pairs: Vec<(String, String)> = Vec::new();
        pairs.push(
            (
                String::from_str("ptr-non-null"),
                String::from_str("the dereferenced pointer must be non-null"),
            ),
        );
        pairs.push(
            (
                String::from_str("ptr-aligned"),
                String::from_str("the dereferenced pointer must be aligned"),
            ),
        );
        proof {
            lemma_hyphen_names_valid();
        }
        let reqs = Requirement::construct(pairs);
        proof {
            assert(reqs_view(reqs@) =~= seq![
                ("ptr-non-null"@, "the dereferenced pointer must be non-null"@),
                ("ptr-aligned"@, "the dereferenced pointer must be aligned"@),
            ]);
        }
        Some(AxiomaticBadness::Conditional(reqs))
    }
}

/// The canned condition names of the raw-pointer axiom contain no
/// whitespace.
proof fn lemma_hyphen_names_valid()
    ensures
        !has_name_wsp("ptr-non-null"@),
        !has_name_wsp("ptr-aligned"@),
{
    reveal_strlit("ptr-non-null");
    reveal_strlit("ptr-aligned");
    assert forall|i: int| 0 <= i < "ptr-non-null"@.len() implies !crate::names::name_wsp(
        "ptr-non-null"@[i],
    ) by {
        let s = "ptr-non-null"@;
        assert(s.len() == 12);
    }
    assert forall|i: int| 0 <= i < "ptr-aligned"@.len() implies !crate::names::name_wsp(
        "ptr-aligned"@[i],
    ) by {
        let s = "ptr-aligned"@;
        assert(s.len() == 11);
    }
}

impl PanicAxiom {
    /// The canned requirements of this axiom kind: an explicit panic
    /// always violates the property.
    pub fn known_requirements(&self) -> (r: Option<AxiomaticBadness>)
        ensures
            r matches Some(AxiomaticBadness::Unconditional),
    {
        Some(AxiomaticBadness::Unconditional)
    }
}

} // verus!
