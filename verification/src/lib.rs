//! An annotation-consistency checker core.
//!
//! For a chosen property (memory safety, panics), the library checks that
//! every reachable risky operation and every reachable call into a function
//! that declares preconditions carries a matching, well-formed justification
//! comment, and that every function declaring such preconditions documents
//! them unambiguously.
//!
//! The library is the verified core: the annotation micro-grammar parser,
//! the character-offset-to-source-span mapper, the reachable-call-graph
//! walker, and the obligation-consistency engine. Obtaining a typed program
//! representation from a host frontend, rendering diagnostics, and loading
//! override files from disk are external collaborators; they hand the core
//! plain values and take plain values back.

pub mod annot;
pub mod attrs;
pub mod bullet;
pub mod check;
pub mod config;
pub mod diag;
pub mod justify;
pub mod marker;
pub mod names;
pub mod overrides;
pub mod parse;
pub mod property;
pub mod reach;
pub mod render;
pub mod scan;
pub mod spans;
pub mod text;
