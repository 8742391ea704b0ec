//! Structured diagnostic records.
//!
//! The core never renders text: each diagnostic is a structured record
//! with a message kind, primary spans, secondary notes and a severity,
//! and an external sink turns them into output.

use vstd::prelude::*;
use crate::parse::ParsingIssue;
use crate::reach::CalleeId;
use crate::spans::SrcSpan;

verus! {

/// How serious a diagnostic is.
#[derive(Debug, Clone, Copy, PartialEq, Eq, Structural)]
pub enum Severity {
    Error,
    Warning,
}

/// A secondary note attached to a diagnostic.
#[derive(Debug)]
pub enum Note {
    /// The witness path by which the function is reachable from an entry
    /// point.
    ReachablePath(Vec<(usize, SrcSpan)>),
    /// An unjustified risky operation at this span.
    AxiomHere(SrcSpan),
    /// Unjustified obligated calls to this callee at these spans.
    CalledHere(CalleeId, Vec<SrcSpan>),
    /// The trait method whose declared annotation the override exceeds.
    DeclaredBy(usize),
}

/// What a diagnostic says.
#[derive(Debug)]
pub enum DiagnosticKind {
    /// The function contains unjustified risky operations or unjustified
    /// obligated calls: how many of each.
    Unjustified { function: usize, axiom_count: usize, call_count: usize },
    /// The function's annotation failed to parse.
    MalformedAnnotation { function: usize, issue: ParsingIssue },
    /// A trait-method override declares obligations its trait does not.
    TraitObligationMismatch { function: usize, trait_function: usize },
    /// The function declares obligations for the memory-safety property
    /// but is not marked unsafe at the language level.
    NotMarkedUnsafe { function: usize },
    /// The crate carries conflicting global opt-in markers for one
    /// property.
    ConflictingGlobalMarkers,
}

/// One structured diagnostic.
#[derive(Debug)]
pub struct Diagnostic {
    pub severity: Severity,
    pub kind: DiagnosticKind,
    pub primary_spans: Vec<SrcSpan>,
    pub notes: Vec<Note>,
}

} // verus!
