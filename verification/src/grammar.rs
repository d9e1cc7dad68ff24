//! The strict grammar of a range.
//!
//! ```text
//! RANGE     := "(" TIMESTAMP DASH TIMESTAMP ")"
//! TIMESTAMP := NUMBER ":" NUMBER ":" NUMBER | NUMBER ":" NUMBER
//! NUMBER    := DIGIT+            (must fit in 32 bits)
//! DASH      := "-" | "–" | "—"
//! ```
//!
//! The alternation in `TIMESTAMP` is ordered: the two-field form is tried only
//! where the three-field form does not match, and a match is never taken back.
//! Every function here reads the text from a position and says where the
//! match ends; a failed match consumes nothing.

use vstd::prelude::*;
use crate::timestamp::Timestamp;

verus! {

/// An ASCII decimal digit.
pub open spec fn is_digit(c: char) -> bool {
    '0' <= c <= '9'
}

/// The number a digit stands for.
pub open spec fn digit_value(c: char) -> nat
    recommends
        is_digit(c),
{
    (c as int - '0' as int) as nat
}

/// One of the three glyphs that may separate start and end: hyphen, en dash, em dash.
pub open spec fn is_dash(c: char) -> bool {
    c == '-' || c == '\u{2013}' || c == '\u{2014}'
}

/// The value of a string of digits, read in base ten.
pub open spec fn decimal_value(digits: Seq<char>) -> nat
    decreases digits.len(),
{
    if digits.len() == 0 {
        0
    } else {
        decimal_value(digits.drop_last()) * 10 + digit_value(digits.last())
    }
}

/// Where the longest run of digits that starts at `i` ends.
pub open spec fn digits_end(s: Seq<char>, i: int) -> int
    decreases s.len() - i,
{
    if 0 <= i < s.len() && is_digit(s[i]) {
        digits_end(s, i + 1)
    } else {
        i
    }
}

/// A number found in the text, and the position after its last digit.
pub struct NumberAt {
    pub value: u32,
    pub end: int,
}

/// A timestamp found in the text, and the position after its last digit.
pub struct TimeAt {
    pub time: Timestamp,
    pub end: int,
}

/// A range found in the text: its two timestamps, and the position after
/// its closing parenthesis.
pub struct RangeAt {
    pub start: Timestamp,
    pub end: Timestamp,
    pub stop: int,
}

/// `NUMBER` at `i`: the whole run of digits there, if it is not empty and its
/// value fits in 32 bits.
pub open spec fn number_at(s: Seq<char>, i: int) -> Option<NumberAt> {
    let end = digits_end(s, i);
    let value = decimal_value(s.subrange(i, end));
    if 0 <= i < end && value <= u32::MAX {
        Some(NumberAt { value: value as u32, end })
    } else {
        None
    }
}

/// True if the character at `i` exists and is `c`.
pub open spec fn has_char(s: Seq<char>, i: int, c: char) -> bool {
    0 <= i < s.len() && s[i] == c
}

/// The three-field form `H:MM:SS` at `i`.
pub open spec fn hms_at(s: Seq<char>, i: int) -> Option<TimeAt> {
    match number_at(s, i) {
        Some(hours) => if has_char(s, hours.end, ':') {
            match number_at(s, hours.end + 1) {
                Some(minutes) => if has_char(s, minutes.end, ':') {
                    match number_at(s, minutes.end + 1) {
                        Some(seconds) => Some(
                            TimeAt {
                                time: Timestamp {
                                    hours: hours.value,
                                    minutes: minutes.value,
                                    seconds: seconds.value,
                                },
                                end: seconds.end,
                            },
                        ),
                        None => None,
                    }
                } else {
                    None
                },
                None => None,
            }
        } else {
            None
        },
        None => None,
    }
}

/// The two-field form `M:SS` at `i`; its hours are zero.
pub open spec fn ms_at(s: Seq<char>, i: int) -> Option<TimeAt> {
    match number_at(s, i) {
        Some(minutes) => if has_char(s, minutes.end, ':') {
            match number_at(s, minutes.end + 1) {
                Some(seconds) => Some(
                    TimeAt {
                        time: Timestamp { hours: 0, minutes: minutes.value, seconds: seconds.value },
                        end: seconds.end,
                    },
                ),
                None => None,
            }
        } else {
            None
        },
        None => None,
    }
}

/// `TIMESTAMP` at `i`: the three-field form, else the two-field form.
pub open spec fn timestamp_at(s: Seq<char>, i: int) -> Option<TimeAt> {
    match hms_at(s, i) {
        Some(found) => Some(found),
        None => ms_at(s, i),
    }
}

/// `RANGE` at `i`.
pub open spec fn range_at(s: Seq<char>, i: int) -> Option<RangeAt> {
    if has_char(s, i, '(') {
        match timestamp_at(s, i + 1) {
            Some(start) => if 0 <= start.end < s.len() && is_dash(s[start.end]) {
                match timestamp_at(s, start.end + 1) {
                    Some(end) => if has_char(s, end.end, ')') {
                        Some(RangeAt { start: start.time, end: end.time, stop: end.end + 1 })
                    } else {
                        None
                    },
                    None => None,
                }
            } else {
                None
            },
            None => None,
        }
    } else {
        None
    }
}

/// What [`parse_number`] found, with its position as a mathematical integer.
pub open spec fn number_found(found: Option<(u32, usize)>) -> Option<NumberAt> {
    match found {
        Some((value, end)) => Some(NumberAt { value, end: end as int }),
        None => None,
    }
}

/// What a timestamp parser found, with its position as a mathematical integer.
pub open spec fn time_found(found: Option<(Timestamp, usize)>) -> Option<TimeAt> {
    match found {
        Some((time, end)) => Some(TimeAt { time, end: end as int }),
        None => None,
    }
}

/// A range read from the text: its two timestamps, and the position after its
/// closing parenthesis.
#[derive(Debug, Clone, Copy)]
pub struct RangeMatch {
    pub start: Timestamp,
    pub end: Timestamp,
    pub stop: usize,
}

impl View for RangeMatch {
    type V = RangeAt;

    open spec fn view(&self) -> RangeAt {
        RangeAt { start: self.start, end: self.end, stop: self.stop as int }
    }
}

/// What [`parse_range`] found, with its position as a mathematical integer.
pub open spec fn range_found(found: Option<RangeMatch>) -> Option<RangeAt> {
    match found {
        Some(range) => Some(range@),
        None => None,
    }
}

/// The run of digits from `i` stays inside the text.
pub proof fn lemma_digits_end_bounds(s: Seq<char>, i: int)
    requires
        0 <= i <= s.len(),
    ensures
        i <= digits_end(s, i) <= s.len(),
        forall|k: int| i <= k < digits_end(s, i) ==> is_digit(#[trigger] s[k]),
        digits_end(s, i) < s.len() ==> !is_digit(s[digits_end(s, i)]),
    decreases s.len() - i,
{
    if i < s.len() && is_digit(s[i]) {
        lemma_digits_end_bounds(s, i + 1);
    }
}

/// Reading one more digit multiplies by ten and adds the digit.
pub proof fn lemma_decimal_value_step(s: Seq<char>, i: int, j: int)
    requires
        0 <= i <= j < s.len(),
    ensures
        decimal_value(s.subrange(i, j + 1)) == decimal_value(s.subrange(i, j)) * 10 + digit_value(
            s[j],
        ),
{
    assert(s.subrange(i, j + 1).drop_last() =~= s.subrange(i, j));
}

/// A number match is not empty and stays inside the text.
pub proof fn lemma_number_at_bounds(s: Seq<char>, i: int)
    requires
        number_at(s, i) is Some,
    ensures
        0 <= i < number_at(s, i).unwrap().end <= s.len(),
{
    if i <= s.len() {
        lemma_digits_end_bounds(s, i);
    }
}

/// A timestamp match is not empty and stays inside the text.
pub proof fn lemma_timestamp_at_bounds(s: Seq<char>, i: int)
    requires
        timestamp_at(s, i) is Some,
    ensures
        0 <= i < timestamp_at(s, i).unwrap().end <= s.len(),
{
    lemma_number_at_bounds(s, i);
    let first = number_at(s, i).unwrap();
    lemma_number_at_bounds(s, first.end + 1);
    let second = number_at(s, first.end + 1).unwrap();
    if hms_at(s, i) is Some {
        lemma_number_at_bounds(s, second.end + 1);
    }
}

/// A range match starts with `(`, is not empty and stays inside the text.
pub proof fn lemma_range_at_bounds(s: Seq<char>, i: int)
    requires
        range_at(s, i) is Some,
    ensures
        0 <= i < range_at(s, i).unwrap().stop <= s.len(),
        s[i] == '(',
{
    lemma_timestamp_at_bounds(s, i + 1);
    let start = timestamp_at(s, i + 1).unwrap();
    lemma_timestamp_at_bounds(s, start.end + 1);
}

/// Tells whether `c` is an ASCII decimal digit.
pub fn is_digit_char(c: char) -> (yes: bool)
    ensures
        yes == is_digit(c),
{
    '0' <= c && c <= '9'
}

/// Tells whether `c` is one of the three accepted dashes.
pub fn parse_dash(c: char) -> (yes: bool)
    ensures
        yes == is_dash(c),
{
    c == '-' || c == '\u{2013}' || c == '\u{2014}'
}

/// Reads `NUMBER` at `i`.
pub fn parse_number(s: &[char], i: usize) -> (found: Option<(u32, usize)>)
    ensures
        number_found(found) == number_at(s@, i as int),
{
    if i >= s.len() {
        return None;
    }
    let mut j: usize = i;
    let mut value: u64 = 0;
    let mut fits: bool = true;
    while j < s.len() && is_digit_char(s[j])
        invariant
            i <= j <= s.len(),
            digits_end(s@, i as int) == digits_end(s@, j as int),
            fits ==> value == decimal_value(s@.subrange(i as int, j as int)) && value <= u32::MAX,
            !fits ==> decimal_value(s@.subrange(i as int, j as int)) > u32::MAX,
        decreases s.len() - j,
    {
        proof {
            lemma_decimal_value_step(s@, i as int, j as int);
        }
        if fits {
            let digit: u64 = (s[j] as u32 - '0' as u32) as u64;
            value = value * 10 + digit;
            if value > u32::MAX as u64 {
                fits = false;
            }
        }
        j += 1;
    }
    if j == i || !fits {
        None
    } else {
        Some((value as u32, j))
    }
}

/// Reads the three-field form `H:MM:SS` at `i`.
pub fn parse_hms(s: &[char], i: usize) -> (found: Option<(Timestamp, usize)>)
    ensures
        time_found(found) == hms_at(s@, i as int),
{
    let (hours, after_hours) = match parse_number(s, i) {
        Some(number) => number,
        None => return None,
    };
    if after_hours >= s.len() || s[after_hours] != ':' {
        return None;
    }
    let (minutes, after_minutes) = match parse_number(s, after_hours + 1) {
        Some(number) => number,
        None => return None,
    };
    if after_minutes >= s.len() || s[after_minutes] != ':' {
        return None;
    }
    match parse_number(s, after_minutes + 1) {
        Some((seconds, end)) => Some((Timestamp { hours, minutes, seconds }, end)),
        None => None,
    }
}

/// Reads the two-field form `M:SS` at `i`.
pub fn parse_ms(s: &[char], i: usize) -> (found: Option<(Timestamp, usize)>)
    ensures
        time_found(found) == ms_at(s@, i as int),
{
    let (minutes, after_minutes) = match parse_number(s, i) {
        Some(number) => number,
        None => return None,
    };
    if after_minutes >= s.len() || s[after_minutes] != ':' {
        return None;
    }
    match parse_number(s, after_minutes + 1) {
        Some((seconds, end)) => Some((Timestamp { hours: 0, minutes, seconds }, end)),
        None => None,
    }
}

/// Reads `TIMESTAMP` at `i`: three fields if they are there, else two.
pub fn parse_timestamp(s: &[char], i: usize) -> (found: Option<(Timestamp, usize)>)
    ensures
        time_found(found) == timestamp_at(s@, i as int),
{
    match parse_hms(s, i) {
        Some(found) => Some(found),
        None => parse_ms(s, i),
    }
}

/// Reads `RANGE` at `i`.
pub fn parse_range(s: &[char], i: usize) -> (found: Option<RangeMatch>)
    ensures
        range_found(found) == range_at(s@, i as int),
{
    if i >= s.len() || s[i] != '(' {
        return None;
    }
    let (start, after_start) = match parse_timestamp(s, i + 1) {
        Some(found) => found,
        None => return None,
    };
    if after_start >= s.len() || !parse_dash(s[after_start]) {
        return None;
    }
    let (end, after_end) = match parse_timestamp(s, after_start + 1) {
        Some(found) => found,
        None => return None,
    };
    if after_end >= s.len() || s[after_end] != ')' {
        return None;
    }
    Some(RangeMatch { start, end, stop: after_end + 1 })
}

} // verus!
