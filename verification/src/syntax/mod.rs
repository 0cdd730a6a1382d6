//! The concrete syntax tree of a Typst document, as plain values: node kinds,
//! byte ranges and children, with the navigation the editor needs (leaf at an
//! offset, parents, siblings, neighbouring leaves).

pub mod kind;
pub mod tree;
pub mod parse;
pub mod nav;

pub use kind::NodeKind;
pub use tree::SyntaxTree;
pub use parse::Document;
