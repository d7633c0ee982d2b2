//! Core of a rhythm-game chart editor: a tempo map (`BpmList`) with exact
//! beat/time conversions, reversible edit commands over it, a linear
//! undo/redo history, and a timeline coordinate mapper that turns musical
//! time into pixel positions.
//!
//! All timing arithmetic is carried out on exact rationals, so conversions
//! round-trip precisely and repeated edits cannot drift.

pub mod rational;
pub mod timing;
pub mod command;
pub mod history;
pub mod timeline;
