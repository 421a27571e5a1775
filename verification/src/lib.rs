//! Validation of parsed documents against JSON schemas of draft 4, for a
//! language server.
//!
//! A document comes as a [`syntax::SyntaxTree`]; a schema as a
//! `serde_json::Value`. [`json_schema_parser::JSONSchemaValidator`] walks the
//! tree and holds each node against the schema fragment that applies to it.
//! The outcome, a [`parser::ParseResult`], lists what the keywords report,
//! each finding with its span, and records which fragment was held against
//! which node, so that [`hover::hover`] can show the description of a
//! fragment for the node under the cursor.
//!
//! Every function states what it returns over a mathematical model of its
//! arguments: [`json::json_model`] for schemas, [`syntax::TreeModel`] for
//! trees, [`json_schema_parser::validation`] for the outcome of the engine.
//! [`conformance::conforms`] says what it is for a document to conform to a
//! schema, and [`laws`] holds what is proved of every validation.
//!
//! Numbers are double-precision numbers, held by their bits; [`double`]
//! decides their order and their divisibility on the bits. Regular
//! expressions and the formats `uri`, `date-time`, `email` and `hostname` are
//! left to the crates `regex`, `url`, `time` and `addr`; [`formats`] states
//! what is assumed of them.
use vstd::prelude::*;

pub mod codeaction;
pub mod conformance;
pub mod diagnostic;
pub mod double;
pub mod errors;
pub mod formats;
pub mod hover;
pub mod ir;
pub mod json;
pub mod json_schema_parser;
pub mod keywords;
pub mod laws;
pub mod object;
pub mod parser;
pub mod registry;
pub mod syntax;
pub mod text;
pub mod values;
