//! Redraw text frames in place on a terminal.
//!
//! `ansi_seq` renders terminal control operations to their escape sequences;
//! `body` remembers the last frame drawn and composes the output that
//! replaces it; `laws` states what holds across calls.
pub mod ansi_seq;
pub mod body;
pub mod laws;
pub mod text;

pub use ansi_seq::{AnsiSeq, EscapeStyle, Movement};
pub use body::{Body, Sink};
