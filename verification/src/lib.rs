//! Cleans newline-delimited word lists: words that hold an apostrophe are dropped.
//!
//! - [`words`] holds the rule that makes a word invalid and the filter built on it.
//! - [`lines`] holds the text format: how a text splits into lines and how lines join
//!   into a text.
//! - [`fix`] puts the two together: from the text of a file to the text that replaces
//!   it.
//! - [`session`] decides, without doing any I/O itself, what a run of the program reads,
//!   writes and reports.

pub mod fix;
pub mod lines;
pub mod session;
pub mod words;
