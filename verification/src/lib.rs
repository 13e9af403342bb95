//! A small compiler for a textual diagram-description language.
//!
//! Source text describes entities (record types with typed fields) and
//! relationships between them (with cardinalities and optional key
//! semantics). The library parses such text into a [`doc::Doc`] and renders
//! it as a Graphviz graph description in one of two styles: an
//! entity-relationship view ([`emit::emit_der`]) or a relational/ORM table
//! view ([`emit::emit_orm`]).

pub mod doc;
pub mod emit;
pub mod laws;
pub mod lex;
pub mod parse;

pub use doc::{Def, Doc, Field, Link, LinkBody, LinkN};
pub use emit::{emit_der, emit_orm, table_fields};
pub use lex::{ParseError, Tag};
pub use parse::parse_document;
