//! The scanner: finds the ranges of a text, left to right.

use vstd::prelude::*;
use vstd::slice::slice_subrange;
use crate::grammar::{lemma_range_at_bounds, parse_range, range_at, RangeAt};
use crate::loose::{loose_range, malformed_at};
use crate::text::{byte_offset, bytes_between, lemma_byte_offset_increases, string_of};
use crate::timestamp::{range_verdict, validate_range, RangeError, Timestamp};

verus! {

/// A range found in a text.
///
/// The range is placed twice: by byte offsets into the text as a string, and
/// by the indices of its characters, which is what grouping and cutting work
/// with. A range that breaks a bound is still a range: its `verdict` says
/// which bound, and each caller decides what to make of it.
#[derive(Debug)]
pub struct ParsedRange {
    /// Byte offset of the opening parenthesis.
    pub start_pos: usize,
    /// Byte offset after the closing parenthesis.
    pub end_pos: usize,
    /// Index of the opening parenthesis among the characters.
    pub start_index: usize,
    /// Index after the closing parenthesis among the characters.
    pub end_index: usize,
    /// The range as it stands in the text, parentheses included.
    pub text: String,
    pub start: Timestamp,
    pub end: Timestamp,
    /// Length in seconds, or the first bound that the range breaks.
    pub verdict: Result<u64, RangeError>,
}

/// A [`ParsedRange`] as a mathematical value.
pub struct RangeView {
    pub start_pos: int,
    pub end_pos: int,
    pub start_index: int,
    pub end_index: int,
    pub text: Seq<char>,
    pub start: Timestamp,
    pub end: Timestamp,
    pub verdict: Result<u64, RangeError>,
}

impl View for ParsedRange {
    type V = RangeView;

    open spec fn view(&self) -> RangeView {
        RangeView {
            start_pos: self.start_pos as int,
            end_pos: self.end_pos as int,
            start_index: self.start_index as int,
            end_index: self.end_index as int,
            text: self.text@,
            start: self.start,
            end: self.end,
            verdict: self.verdict,
        }
    }
}

impl RangeView {
    /// Seconds that the range counts for: its length, or nothing where it breaks a bound.
    pub open spec fn duration(self) -> nat {
        match self.verdict {
            Ok(seconds) => seconds as nat,
            Err(_) => 0,
        }
    }
}

/// The views of a list of ranges.
pub open spec fn range_views(ranges: Seq<ParsedRange>) -> Seq<RangeView> {
    ranges.map_values(|r: ParsedRange| r@)
}

/// The range that the grammar matched at character `at`, with its byte
/// offsets, its text and its verdict.
pub open spec fn range_found_at(s: Seq<char>, at: int, found: RangeAt) -> RangeView {
    RangeView {
        start_pos: byte_offset(s, at) as int,
        end_pos: byte_offset(s, found.stop) as int,
        start_index: at,
        end_index: found.stop,
        text: s.subrange(at, found.stop),
        start: found.start,
        end: found.end,
        verdict: range_verdict(found.start, found.end),
    }
}

/// The outcome of a scan.
pub enum Scan {
    /// The ranges of the text, in the order of the text.
    Ranges(Seq<RangeView>),
    /// The text of the first malformed range.
    Malformed(Seq<char>),
}

impl Scan {
    /// The ranges found; none where the scan failed.
    pub open spec fn ranges(self) -> Seq<RangeView> {
        match self {
            Scan::Ranges(ranges) => ranges,
            Scan::Malformed(_) => Seq::empty(),
        }
    }

    /// The outcome of a scan that found `done` first and then went on to `self`.
    pub open spec fn after(self, done: Seq<RangeView>) -> Scan {
        match self {
            Scan::Ranges(more) => Scan::Ranges(done + more),
            Scan::Malformed(text) => Scan::Malformed(text),
        }
    }
}

/// What scanning `s` from `cursor` on gives.
///
/// At each `(` from the cursor on: a range by the strict grammar is taken, and
/// the scan goes on behind it; else, if the loose test finds a malformed range
/// that begins right there, the scan ends with its text; else it goes on one
/// character further.
pub open spec fn scan_from(s: Seq<char>, cursor: int) -> Scan
    decreases s.len() - cursor,
{
    if !(0 <= cursor < s.len()) {
        Scan::Ranges(Seq::empty())
    } else if s[cursor] != '(' {
        scan_from(s, cursor + 1)
    } else {
        match range_at(s, cursor) {
            Some(found) => {
                proof {
                    lemma_range_at_bounds(s, cursor);
                }
                scan_from(s, found.stop).after(seq![range_found_at(s, cursor, found)])
            },
            None => match loose_range(s.skip(cursor)) {
                Some(text) => Scan::Malformed(text),
                None => scan_from(s, cursor + 1),
            },
        }
    }
}

/// What scanning the whole of `s` gives.
pub open spec fn scan(s: Seq<char>) -> Scan {
    scan_from(s, 0)
}

/// What [`find_all_ranges`] returned, as a mathematical value.
pub open spec fn scan_view(found: Result<Vec<ParsedRange>, String>) -> Scan {
    match found {
        Ok(ranges) => Scan::Ranges(range_views(ranges@)),
        Err(text) => Scan::Malformed(text@),
    }
}

/// The ranges lie in `s` one behind the other: each is a range of the grammar,
/// none is empty, none reaches into the next, and each holds its own text and verdict.
#[verifier::opaque]
pub open spec fn ranges_of(s: Seq<char>, ranges: Seq<RangeView>) -> bool {
    &&& forall|i: int|
        0 <= i < ranges.len() ==> {
            &&& 0 <= (#[trigger] ranges[i]).start_index < ranges[i].end_index <= s.len()
            &&& range_at(s, ranges[i].start_index) is Some
            &&& ranges[i] == range_found_at(
                s,
                ranges[i].start_index,
                range_at(s, ranges[i].start_index).unwrap(),
            )
        }
    &&& forall|i: int, j: int|
        0 <= i < j < ranges.len() ==> (#[trigger] ranges[i]).end_index <= (
        #[trigger] ranges[j]).start_index
}

/// A range of a text begins with `(`, is not empty, lies within the text and
/// holds the text it spans. Its byte offsets are those of its first character
/// and of the position behind its last, and lie within the bytes of the text.
pub proof fn lemma_range_in_text(s: Seq<char>, ranges: Seq<RangeView>, i: int)
    requires
        ranges_of(s, ranges),
        0 <= i < ranges.len(),
    ensures
        0 <= ranges[i].start_index < ranges[i].end_index <= s.len(),
        s[ranges[i].start_index] == '(',
        ranges[i].text == s.subrange(ranges[i].start_index, ranges[i].end_index),
        ranges[i].verdict == range_verdict(ranges[i].start, ranges[i].end),
        ranges[i].start_pos == byte_offset(s, ranges[i].start_index),
        ranges[i].end_pos == byte_offset(s, ranges[i].end_index),
        0 <= ranges[i].start_pos < ranges[i].end_pos <= byte_offset(s, s.len() as int),
{
    reveal(ranges_of);
    lemma_range_at_bounds(s, ranges[i].start_index);
    lemma_byte_offset_increases(s, ranges[i].start_index, ranges[i].end_index);
    lemma_byte_offset_increases(s, ranges[i].end_index, s.len() as int);
}

/// Of two ranges of a text, the earlier one ends before the later one begins,
/// by characters and by bytes: ranges come in strictly increasing order of
/// their start and do not overlap.
pub proof fn lemma_ranges_in_order(s: Seq<char>, ranges: Seq<RangeView>, i: int, j: int)
    requires
        ranges_of(s, ranges),
        0 <= i < j < ranges.len(),
    ensures
        ranges[i].end_index <= ranges[j].start_index,
        ranges[i].start_pos < ranges[i].end_pos <= ranges[j].start_pos,
{
    lemma_range_in_text(s, ranges, i);
    lemma_range_in_text(s, ranges, j);
    reveal(ranges_of);
    lemma_byte_offset_increases(s, ranges[i].end_index, ranges[j].start_index);
}

/// Ranges come out of a scan in the order of the text, without overlap, and
/// none begins before the cursor.
pub proof fn lemma_scan_from_ordered(s: Seq<char>, cursor: int)
    requires
        0 <= cursor,
    ensures
        ranges_of(s, scan_from(s, cursor).ranges()),
        forall|i: int|
            0 <= i < scan_from(s, cursor).ranges().len() ==> cursor <= (
            #[trigger] scan_from(s, cursor).ranges()[i]).start_index,
    decreases s.len() - cursor,
{
    reveal(ranges_of);
    if !(0 <= cursor < s.len()) {
    } else if s[cursor] != '(' {
        lemma_scan_from_ordered(s, cursor + 1);
    } else {
        match range_at(s, cursor) {
            Some(found) => {
                lemma_range_at_bounds(s, cursor);
                lemma_scan_from_ordered(s, found.stop);
                let first = range_found_at(s, cursor, found);
                let rest = scan_from(s, found.stop).ranges();
                let all = scan_from(s, cursor).ranges();
                if scan_from(s, found.stop) is Ranges {
                    assert(all == seq![first] + rest);
                }
                assert forall|i: int| 0 <= i < all.len() implies {
                    &&& 0 <= (#[trigger] all[i]).start_index < all[i].end_index <= s.len()
                    &&& range_at(s, all[i].start_index) is Some
                    &&& all[i] == range_found_at(
                        s,
                        all[i].start_index,
                        range_at(s, all[i].start_index).unwrap(),
                    )
                    &&& cursor <= all[i].start_index
                } by {
                    if i > 0 {
                        assert(all[i] == rest[i - 1]);
                    }
                }
                assert forall|i: int, j: int| 0 <= i < j < all.len() implies (
                #[trigger] all[i]).end_index <= (#[trigger] all[j]).start_index by {
                    assert(all[j] == rest[j - 1]);
                    if i > 0 {
                        assert(all[i] == rest[i - 1]);
                    }
                }
            },
            None => {
                if loose_range(s.skip(cursor)) is None {
                    lemma_scan_from_ordered(s, cursor + 1);
                }
            },
        }
    }
}

/// The ranges of a text come in strictly increasing order of their start and
/// do not overlap.
pub proof fn lemma_scan_ordered(s: Seq<char>)
    ensures
        ranges_of(s, scan(s).ranges()),
{
    lemma_scan_from_ordered(s, 0);
}

/// A text without an opening parenthesis holds no range and no malformed one.
pub proof fn lemma_scan_without_parenthesis(s: Seq<char>, cursor: int)
    requires
        forall|i: int| 0 <= i < s.len() ==> s[i] != '(',
    ensures
        scan_from(s, cursor) == Scan::Ranges(Seq::empty()),
    decreases s.len() - cursor,
{
    if 0 <= cursor < s.len() {
        lemma_scan_without_parenthesis(s, cursor + 1);
    }
}

/// Finds the ranges of `text`, in the order of the text.
///
/// Fails at the first parenthesis that the strict grammar turns down and the
/// loose test takes for a range, with the text that the loose test matched.
///
/// The text has to fit the machine as a string does: its length in bytes is
/// no more than `usize::MAX`. The characters of a string always do.
pub fn find_all_ranges(text: &[char]) -> (found: Result<Vec<ParsedRange>, String>)
    requires
        byte_offset(text@, text.len() as int) <= usize::MAX,
    ensures
        scan_view(found) == scan(text@),
        found matches Ok(ranges) ==> ranges_of(text@, range_views(ranges@)),
{
    let mut ranges: Vec<ParsedRange> = Vec::new();
    let mut cursor: usize = 0;
    let mut offset: usize = 0;
    while cursor < text.len()
        invariant
            cursor <= text.len(),
            byte_offset(text@, text.len() as int) <= usize::MAX,
            offset == byte_offset(text@, cursor as int),
            scan(text@) == scan_from(text@, cursor as int).after(range_views(ranges@)),
        decreases text.len() - cursor,
    {
        if text[cursor] != '(' {
            offset += bytes_between(text, cursor, cursor + 1);
            cursor += 1;
        } else {
            match parse_range(text, cursor) {
                Some(found) => {
                    proof {
                        lemma_range_at_bounds(text@, cursor as int);
                    }
                    let literal = string_of(slice_subrange(text, cursor, found.stop));
                    let end_offset = offset + bytes_between(text, cursor, found.stop);
                    let range = ParsedRange {
                        start_pos: offset,
                        end_pos: end_offset,
                        start_index: cursor,
                        end_index: found.stop,
                        text: literal,
                        start: found.start,
                        end: found.end,
                        verdict: validate_range(found.start, found.end),
                    };
                    proof {
                        let before = range_views(ranges@);
                        let rest = scan_from(text@, found.stop as int);
                        assert(range@ == range_found_at(text@, cursor as int, found@));
                        assert(range_views(ranges@.push(range)) == before.push(range@));
                        match rest {
                            Scan::Ranges(more) => {
                                assert(before + (seq![range@] + more) == before.push(range@)
                                    + more);
                            },
                            Scan::Malformed(_) => {},
                        }
                    }
                    ranges.push(range);
                    cursor = found.stop;
                    offset = end_offset;
                },
                None => {
                    match malformed_at(text, cursor) {
                        Some(offending) => {
                            return Err(offending);
                        },
                        None => {
                            offset += bytes_between(text, cursor, cursor + 1);
                            cursor += 1;
                        },
                    }
                },
            }
        }
    }
    proof {
        assert(range_views(ranges@) + Seq::<RangeView>::empty() == range_views(ranges@));
        lemma_scan_ordered(text@);
    }
    Ok(ranges)
}

} // verus!
