//! A single-pass lexical scanner for a small, C-like configuration language.
//!
//! The scanner turns a source string into a flat sequence of typed tokens,
//! or fails fast on the one fatal condition: a quote opened while a
//! non-string token is mid-accumulation. Its behaviour is specified by a
//! character-at-a-time state machine in `model`, the executable
//! implementation in `scan` is proved to match it exactly, and the
//! scanner's general laws are proved in `laws`.

pub mod laws;
pub mod model;
pub mod scan;
pub mod token;
