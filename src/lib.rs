//! Analysis and formatting engine for MON (Mycel Object Notation) documents.
//!
//! The linter ([`linter`]) checks a parsed document for complexity, code
//! smells and reference density, and builds a symbol table of anchors, types
//! and imports. The formatter ([`formatter`]) renders a document in canonical
//! form under a configurable style. Both read the document model of [`ast`].

pub mod ast;
pub mod formatter;
pub mod linter;
pub mod text;
