//! Line-oriented pattern search: split a text buffer into lines, test each
//! line against a compiled regular expression, and report the matching lines
//! with their one-based line numbers.

pub mod failure;
pub mod lines;
pub mod matcher;
pub mod pattern;
pub mod session;
pub mod text;
