//! Autocompletion for a document language that mixes markup, math and code.
//!
//! Given a parsed document and a cursor, `autocomplete` finds the leaf at the
//! cursor, decides which syntactic situation the cursor is in, and offers
//! completions together with the position from which the accepted one
//! replaces text.
pub mod complete;
pub mod laws;
pub mod model;
pub mod modes;
pub mod scope;
pub mod syntax;
pub mod text;

pub use complete::{Completion, CompletionContext, CompletionKind};
pub use modes::autocomplete;
