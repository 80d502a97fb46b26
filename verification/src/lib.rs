//! A verified lexical scanner for a small dynamically-typed scripting
//! language.
//!
//! The scanner turns a complete source string into a flat sequence of typed
//! tokens, tracking 1-based line numbers for diagnostics.  Illegal input
//! never aborts a scan: an unexpected character or an unterminated string
//! literal is recorded as a diagnostic and scanning continues with the next
//! character.  Empty input yields an empty token sequence.

pub mod digits;
pub mod error;
pub mod laws;
pub mod scan_spec;
pub mod scanner;
pub mod token;
pub mod token_type;
