//! Why a text has no durations to report.

use vstd::prelude::*;
use vstd::string::StringExecFns;
use crate::format::{decimal_digits, push_decimal};
use crate::scanner::ParsedRange;
use crate::timestamp::RangeError;

verus! {

/// The reasons for which [`calculate_durations`](crate::parser::calculate_durations) fails.
#[derive(Debug, PartialEq, Eq)]
pub enum ParseError {
    /// A parenthesis resembles a range and is none: `text` is what resembles one.
    MalformedRange { text: String },
    /// The range `range` has minutes above 59, namely `value`.
    InvalidMinutes { range: String, value: u32 },
    /// The range `range` has seconds above 59, namely `value`.
    InvalidSeconds { range: String, value: u32 },
    /// The range `range` ends before it starts.
    EndBeforeStart { range: String },
    /// The text holds no range at all.
    NoRangesFound,
    /// The durations add up to more than 32 bits hold.
    DurationOverflow,
}

/// A [`ParseError`] as a mathematical value.
pub enum ErrorView {
    MalformedRange { text: Seq<char> },
    InvalidMinutes { range: Seq<char>, value: u32 },
    InvalidSeconds { range: Seq<char>, value: u32 },
    EndBeforeStart { range: Seq<char> },
    NoRangesFound,
    DurationOverflow,
}

impl View for ParseError {
    type V = ErrorView;

    open spec fn view(&self) -> ErrorView {
        match self {
            ParseError::MalformedRange { text } => ErrorView::MalformedRange { text: text@ },
            ParseError::InvalidMinutes { range, value } => ErrorView::InvalidMinutes {
                range: range@,
                value: *value,
            },
            ParseError::InvalidSeconds { range, value } => ErrorView::InvalidSeconds {
                range: range@,
                value: *value,
            },
            ParseError::EndBeforeStart { range } => ErrorView::EndBeforeStart { range: range@ },
            ParseError::NoRangesFound => ErrorView::NoRangesFound,
            ParseError::DurationOverflow => ErrorView::DurationOverflow,
        }
    }
}

impl ErrorView {
    /// The error of a range that breaks the bound `defect`.
    pub open spec fn of_defect(range: Seq<char>, defect: RangeError) -> ErrorView {
        match defect {
            RangeError::InvalidMinutes(value) => ErrorView::InvalidMinutes { range, value },
            RangeError::InvalidSeconds(value) => ErrorView::InvalidSeconds { range, value },
            RangeError::EndBeforeStart => ErrorView::EndBeforeStart { range },
        }
    }

    /// The error in words.
    pub open spec fn message(self) -> Seq<char> {
        match self {
            ErrorView::MalformedRange { text } => "Malformed timestamp: "@ + text,
            ErrorView::InvalidMinutes { range, value } => "Invalid timestamp range: "@ + range
                + " (minutes "@ + decimal_digits(value as nat)
                + " exceeds 59, use H:MM:SS format)"@,
            ErrorView::InvalidSeconds { range, value } => "Invalid timestamp range: "@ + range
                + " (seconds "@ + decimal_digits(value as nat) + " exceeds 59)"@,
            ErrorView::EndBeforeStart { range } => "Invalid timestamp range: "@ + range
                + " (end time is before start time)"@,
            ErrorView::NoRangesFound => "No valid timestamps found"@,
            ErrorView::DurationOverflow => "Total duration is too large"@,
        }
    }
}

impl ParseError {
    /// The error of the range `range`, which breaks the bound `defect`.
    pub fn of_defect(range: &ParsedRange, defect: RangeError) -> (error: ParseError)
        ensures
            error@ == ErrorView::of_defect(range@.text, defect),
    {
        let literal = range.text.clone();
        match defect {
            RangeError::InvalidMinutes(value) => ParseError::InvalidMinutes {
                range: literal,
                value,
            },
            RangeError::InvalidSeconds(value) => ParseError::InvalidSeconds {
                range: literal,
                value,
            },
            RangeError::EndBeforeStart => ParseError::EndBeforeStart { range: literal },
        }
    }

    /// The error in words, naming the text that offends and the bound it breaks.
    pub fn message(&self) -> (words: String)
        ensures
            words@ == self@.message(),
    {
        let mut words = String::new();
        match self {
            ParseError::MalformedRange { text } => {
                words.append("Malformed timestamp: ");
                words.append(text.as_str());
            },
            ParseError::InvalidMinutes { range, value } => {
                words.append("Invalid timestamp range: ");
                words.append(range.as_str());
                words.append(" (minutes ");
                push_decimal(&mut words, *value as u64);
                words.append(" exceeds 59, use H:MM:SS format)");
            },
            ParseError::InvalidSeconds { range, value } => {
                words.append("Invalid timestamp range: ");
                words.append(range.as_str());
                words.append(" (seconds ");
                push_decimal(&mut words, *value as u64);
                words.append(" exceeds 59)");
            },
            ParseError::EndBeforeStart { range } => {
                words.append("Invalid timestamp range: ");
                words.append(range.as_str());
                words.append(" (end time is before start time)");
            },
            ParseError::NoRangesFound => {
                words.append("No valid timestamps found");
            },
            ParseError::DurationOverflow => {
                words.append("Total duration is too large");
            },
        }
        words
    }
}

} // verus!
