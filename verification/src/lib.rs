//! Structured model of declaration annotations ("attributes"): parsing an
//! annotation from a token stream, best-effort interpretation of its body
//! into a structured meta shape, and lossless printing back to tokens,
//! including doc-comment sugar in both directions.

pub mod attr;
pub mod laws;
pub mod lit;
pub mod meta;
pub mod path;
pub mod token;
