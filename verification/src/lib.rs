//! Durations written into a text.
//!
//! A text may hold ranges such as `(0:00-1:23)` or `(1:00:00–1:05:30)`. This
//! library finds them, checks them, adds up those that a `+` joins and all of
//! them together, and can take them out of the text again.
//!
//! - [`grammar`]: what a range is, character by character.
//! - [`loose`]: what merely resembles a range.
//! - [`scanner`]: the ranges of a text, in order.
//! - [`timestamp`]: the bounds of a range and its length.
//! - [`grouping`]: which ranges a `+` joins.
//! - [`aggregate`]: lines and their total.
//! - [`cleaner`]: the text without its ranges.
//! - [`format`]: numbers and durations as text.
//! - [`error`]: why a text has no durations.
//! - [`parser`]: the two operations, [`parser::calculate_durations`] and
//!   [`parser::clean_script`].
//! - [`text`]: strings as sequences of characters, and their byte offsets.
//!
//! Every function states what it returns over the view of its arguments, and
//! the verifier proves that it does. What is taken on trust is little, and
//! said where it is used: the search of the `regex` crate, which characters
//! `char::is_alphanumeric` and `char::is_whitespace` hold of, and that
//! `String::push` appends.

pub mod aggregate;
pub mod cleaner;
pub mod error;
pub mod format;
pub mod grammar;
pub mod grouping;
pub mod loose;
pub mod parser;
pub mod scanner;
pub mod text;
pub mod timestamp;
