//! Core logic of a read-only viewer that hides its text when it loses focus:
//! decoding documents, the show/hide state machine, the file history and the
//! menu bar.

pub mod document;
pub mod input;
pub mod laws;
pub mod menu;
pub mod paths;
pub mod state;
pub mod text;
