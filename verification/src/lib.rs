//! Lexical analysis for a small class-based teaching language.
//!
//! The `lexer` module turns source text into a stream of position-tagged
//! tokens, reporting lexical errors (bad characters, malformed strings)
//! instead of crashing on malformed input.

pub mod lexer;
pub mod props;
