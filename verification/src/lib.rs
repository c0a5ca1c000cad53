//! Conversion between XML documents and a generic ordered tree, in both
//! directions.
//!
//! Parsing turns the events of a document into a tree: attributes become
//! entries under prefixed keys, repeated siblings become lists, and text
//! becomes a bare value or an entry under the text key. Serialization
//! turns a tree back into markup.
//!
//! - [`value`] holds the tree and [`config`] the options.
//! - [`parser`] holds the builder, [`state`] its state as a mathematical
//!   value, [`merge`] the rule by which an entry joins a mapping and
//!   [`namespace`] the resolution of names.
//! - [`unparser`] holds the writer and [`markup`] what it writes as a
//!   mathematical value; [`escape`] replaces special characters.
//! - [`document`] holds the whole conversions, [`tokenizer`] the events,
//!   and [`lexer`] the calls into the crate `quick_xml`.
//! - [`reader`] buffers the bytes of pull-based sources.
//! - [`hooks`] holds the callbacks that a caller may hand in.
//! - [`round_trip`] proves that what was parsed, written and parsed again
//!   is what was parsed.
//!
//! The functions are verified against their contracts. What the outside
//! crates and a few functions of the standard library do is assumed, in
//! the items marked `external_body`; nothing is assumed of the hooks.

pub mod config;
pub mod document;
pub mod error;
pub mod escape;
pub mod hooks;
pub mod lexer;
pub mod markup;
pub mod merge;
pub mod namespace;
pub mod parser;
pub mod reader;
pub mod round_trip;
pub mod state;
pub mod text;
pub mod tokenizer;
pub mod unparser;
pub mod value;
