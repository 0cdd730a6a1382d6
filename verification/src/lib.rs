//! Headless core of a WYSIWYG editor for the Typst typesetting language:
//! editor state and actions, the editing core with its undo history, text
//! offset mapping, math-aware keyboard handling and caret movement over the
//! document's syntax tree, the ribbon's styling commands, structural hashing
//! for compilation, font renaming, the log panel's level filter, which
//! changes on disk the project reacts to and the URLs of project paths, the
//! application's setting defaults, and the benchmark document with the
//! statistics of its timings.

pub mod benchmark;
pub mod compiler;
pub mod config;
pub mod editor;
pub mod fonts;
pub mod keys;
pub mod log;
pub mod math;
pub mod project;
pub mod ribbon;
pub mod syntax;
pub mod text;
pub mod timings;

pub use editor::state::{EditorAction, EditorContext, EditorState};
pub use editor::undo::{UndoEntry, UndoManager};
pub use editor::workspace::EditorWorkspace;
