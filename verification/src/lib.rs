//! Interval: a step-first harmonic composition language.
//!
//! This crate holds the verified core of the language: the lexer,
//! chord-symbol and Roman-numeral parsing, the scale timeline and harmony index, bar layout
//! and timing helpers, the introspection catalog and span-based source edits.

use vstd::prelude::*;

/// Tokens of the language and the lexer.
pub mod lexer;
/// Syntax-tree types for harmony, scale and timeline constructs.
pub mod ast;
/// Chord parsing, modes, scale timeline and harmony index.
pub mod harmony;
/// Bar layout, timing helpers, event emission helpers and transform-order validation.
pub mod compiler;
/// Catalogs of qualities, scales, directives and transforms; chord and pitch naming.
pub mod introspect;
/// Span-based source edits.
pub mod edit;
/// MIDI events of the compiled stream and their ordering.
pub mod event;
/// Error types with source spans.
pub mod error;
/// Seed resolution.
pub mod seed;
/// Byte-level string helpers.
pub mod text;

verus! {

} // verus!
