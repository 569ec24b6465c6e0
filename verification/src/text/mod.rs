//! Text as sequences of characters: the operations that the manifest parsers
//! and the version rules are written in.
pub mod chars;
pub mod comments;
pub mod laws;
pub mod lines;
pub mod number;
pub mod search;
pub mod trim;
pub mod utf8;
