//! Math-aware structure queries and deletion rules over the syntax tree.

pub mod common;
pub mod deletion;
pub mod fields;
pub mod structure;
pub mod walk;
