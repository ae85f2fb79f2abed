//! A single-pass syntax validator for JSON-like documents, built as a pushdown
//! automaton over bytes, with the laws it obeys; and line, word, character and
//! byte counts of a text.
pub mod automaton;
pub mod validator;
pub mod laws;
pub mod wc;
