//! The run configuration the core reads.
//!
//! Constructed once at process start and passed by reference into every
//! check; the core never mutates it.

use vstd::prelude::*;

verus! {

/// The options that steer one analysis run.
#[derive(Debug, Clone, Copy, PartialEq, Eq, Structural)]
pub struct SniffTestArgs {
    /// Whether a conditional annotation obliges callers to name each
    /// condition, rather than merely acknowledge the property.
    pub fine_grained: bool,
    /// Whether free-form justification prose may discharge a condition
    /// by naming it (or a known synonym) as a substring.
    pub buzzword_checking: bool,
    /// Whether malformed annotations on dependency functions are
    /// reported as hard errors rather than coarsened.
    pub check_dependencies: bool,
}

} // verus!
