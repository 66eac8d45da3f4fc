//! Text storage for a modal terminal editor: a piece table with line and
//! column addressing and undo, a flat buffer beside it, and the cursor and
//! mode logic that drive them.
//!
//! Every length, offset and column in this crate counts characters, not
//! bytes: a character of any width in UTF-8 is one.

pub mod buffer;
pub mod editor;
pub mod event;
pub mod state;
pub mod text;
pub mod text_object;
pub mod ui;
