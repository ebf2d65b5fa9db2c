//! A small line-oriented macro-directive processor.
//!
//! The engine scans a source text line by line, recognizes a fixed set of
//! directive keywords (object-style macro definition, macro removal, file
//! inclusion, region markers), maintains a macro table, and produces a
//! transformed output text in a single forward pass.

pub mod engine;
pub mod laws;
pub mod subst;
pub mod table;
pub mod text;
