//! A permissive, pull-based XML5 tokenizer.
//!
//! The tokenizer turns a byte stream of XML-ish markup into a sequence of
//! typed tokens (start tag, end tag, text, comment, CDATA, processing
//! instruction, XML declaration, doctype, in-band errors, end-of-file).
//! Malformed input yields recoverable error tokens interleaved with
//! best-effort tokens; the stream never aborts.

pub mod decoding;
pub mod emitter;
pub mod errors;
pub mod events;
pub mod laws;
pub mod machine;
pub mod model;
pub mod reader;
pub mod spans;
pub mod tokenizer;

pub use crate::machine::Tokenizer;

pub use crate::events::Token;
