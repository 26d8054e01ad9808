//! Conversion of MediaWiki wikitext markup into clean plaintext.
//!
//! The pipeline has three stages, composed by [`pipeline::convert`]:
//! a preprocessor that strips citation spans, template braces and other
//! structural noise and terminates the text with a sentinel; a single-pass
//! tokenizer that classifies spans of the buffer into typed tokens; and a
//! renderer that turns the token stream into the final plaintext string.

pub mod errors;
pub mod laws;
pub mod pipeline;
pub mod preprocess;
pub mod render;
pub mod scan;
pub mod strconv;
pub mod token;
pub mod tokenizer;
pub mod utils;
