//! Line-oriented literal substring search.
//!
//! A [`RegExpr`] holds a pattern of characters. Scanning a buffer splits it
//! into lines, finds the left-to-right, non-overlapping occurrences of the
//! pattern in each line, and reports the lines that hold at least one of
//! them. Matched lines can then be rendered with every occurrence wrapped in
//! `<` and `>`.

pub mod display;
pub mod laws;
pub mod matcher;
pub mod text;

pub use display::{get_matched_lines_display, render};
pub use matcher::{LineMatch, MatchInstance, MatchResult, RegExpr};
pub use text::{chars_of, split_lines};
