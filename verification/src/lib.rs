//! A verified multi-line text editing core for a chat input box.
//!
//! The crate is organised around three layers:
//! - [`text`]: specifications and executable helpers for splitting text on
//!   newlines, joining lines back together, and splitting a line at a caret.
//! - [`buffer`]: the line buffer — an ordered sequence of lines plus a cursor —
//!   with its well-formedness invariant and every editing operation.
//! - [`engine`]: the edit engine, which maps discrete input events (keys,
//!   typed characters, paste payloads) to buffer operations or a submit action.
//! - [`history`]: the author directory and room/message store that a submitted
//!   message is handed to, with strictly monotonic ordering keys.

pub mod buffer;
pub mod engine;
pub mod history;
pub mod text;
