//! A localization-resource validation and resolution engine.
//!
//! Parsed translation resources (trees of message and term definitions whose
//! patterns embed variable references, function calls and selection
//! expressions) are merged into a single symbol table with
//! override-on-duplicate semantics. Semantic validation reports unknown
//! references, unknown attributes, ignored positional arguments and cyclic
//! references. Resolution maps an identifier plus a set of caller-supplied
//! variables to a formatted string, collecting non-fatal diagnostics.

pub mod ast;
pub mod bundle;
pub mod cycles;
pub mod diag;
pub mod engine;
pub mod laws;
pub mod locate;
pub mod report;
pub mod resolve;
pub mod strutil;
pub mod table;
pub mod validate;
pub mod walker;
