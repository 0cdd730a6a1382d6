//! Editor state, actions and undo history.

pub mod context;
pub mod offset;
pub mod state;
pub mod undo;
pub mod workspace;
