//! A host-side engine for typed, reactive data streams.
//!
//! The crate provides a closed algebra of data types with a printable
//! grammar and a binary codec, three reactive stream shapes (value, list,
//! tree) with bounded change broadcasts and request back-channels, a
//! per-run stream registry with live rebinding of inputs to outputs, the
//! guest-facing polling cursors, and the schema handling of the program
//! runner.

pub mod bridge;
pub mod broadcast;
pub mod codec;
pub mod codec_laws;
pub mod datastream;
pub mod errors;
pub mod grammar_laws;
pub mod handles;
pub mod list_stream;
pub mod model;
pub mod parse;
pub mod print;
pub mod registry;
pub mod runner;
pub mod strings;
pub mod tree_stream;
pub mod types;
pub mod value_stream;
