//! Drives resumable (streaming) parsers over input that arrives in chunks.
//!
//! A [`parser::StreamParser`] looks at a prefix of the input and either
//! produces a value, asks for more input, or rejects it. [`engine::NomStream`]
//! owns the accumulated input and turns a parser and a chunk source into a
//! sequence of values; [`engine::NomFuture`] stops at the first value.
pub mod parser;
pub mod engine;
pub mod laws;
pub mod tokens;
