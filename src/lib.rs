//! A character cursor over borrowed text that reports its position as a
//! byte offset, with lookahead and conditional consumption.
pub mod cursor;
pub mod laws;
pub mod text;

pub use cursor::{BetterChars, IntoBetterChars};
