//! A validating JSON parser.
//!
//! The grammar engine recognizes the full JSON value grammar — objects,
//! arrays, strings with escape sequences, numbers, booleans, `null` — with
//! ordered-choice (PEG) semantics, and reports the position at which an
//! ill-formed input first fails.  On top of it, the document layer restricts
//! an accepted document root to an object or an array, while `is_valid`
//! answers the strictly broader question of plain grammar conformance.
//!
//! The engine recurses on nested values, so its call depth is bounded by
//! the nesting depth of the input; it places no limit of its own on it.

pub mod document;
pub mod grammar;

pub use document::{JsonDocument, JsonParseError, JsonRootType};
pub use grammar::{JsonParser, Rule, RuleMatch};
