//! Counting lines of source code, language by language.
//!
//! The line classifier of `classify` reads a text line by line against the
//! three comment markers of a language; `parser` picks the markers by file
//! extension. `project` adds up what was counted, language by language, and
//! draws each language's share; `tally` holds the arithmetic that makes the
//! sums independent of order.

pub mod classify;
pub mod language;
pub mod parser;
pub mod project;
pub mod tally;
pub mod text;

pub use crate::classify::{count_code_lines, CommentGrammar, LineClassification};
pub use crate::parser::{lines_of_code, parse_file};
pub use crate::project::{ProjectData, Share};
