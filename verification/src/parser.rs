//! The two operations on a text: adding up its ranges, and taking them out.

use vstd::prelude::*;
use crate::aggregate::{aggregate, first_defect, output_of, sum_seconds, total_duration};
use crate::cleaner::{cleaned, excise, tidy};
use crate::error::{ErrorView, ParseError};
use crate::format::duration_text;
use crate::scanner::{
    find_all_ranges,
    lemma_scan_without_parenthesis,
    range_views,
    scan,
    ParsedRange,
    Scan,
};
use crate::text::{chars_of, string_of};

verus! {

/// A duration, as a number of seconds and as `minutes:seconds`.
#[derive(Debug, PartialEq, Eq)]
pub struct DurationResult {
    pub seconds: u32,
    pub format: String,
}

/// One line of the result: a range, or several that a `+` joins.
#[derive(Debug, PartialEq, Eq)]
pub struct LineResult {
    /// Number of the line, from one.
    pub id: usize,
    /// The ranges of the line as they stand in the text, joined by ` + `.
    pub input: String,
    /// What the ranges of the line add up to.
    pub result: DurationResult,
}

/// The lines of a text and what they add up to.
#[derive(Debug, PartialEq, Eq)]
pub struct ParseOutput {
    pub lines: Vec<LineResult>,
    pub total: DurationResult,
}

/// A [`DurationResult`] as a mathematical value.
pub struct DurationView {
    pub seconds: nat,
    pub format: Seq<char>,
}

/// A [`LineResult`] as a mathematical value.
pub struct LineView {
    pub id: nat,
    pub input: Seq<char>,
    pub result: DurationView,
}

/// A [`ParseOutput`] as a mathematical value.
pub struct OutputView {
    pub lines: Seq<LineView>,
    pub total: DurationView,
}

impl View for DurationResult {
    type V = DurationView;

    open spec fn view(&self) -> DurationView {
        DurationView { seconds: self.seconds as nat, format: self.format@ }
    }
}

impl View for LineResult {
    type V = LineView;

    open spec fn view(&self) -> LineView {
        LineView { id: self.id as nat, input: self.input@, result: self.result@ }
    }
}

impl View for ParseOutput {
    type V = OutputView;

    open spec fn view(&self) -> OutputView {
        OutputView { lines: line_views(self.lines@), total: self.total@ }
    }
}

/// The views of a list of lines.
pub open spec fn line_views(lines: Seq<LineResult>) -> Seq<LineView> {
    lines.map_values(|line: LineResult| line@)
}

impl DurationView {
    /// The duration of `seconds` seconds, with its text.
    pub open spec fn of(seconds: nat) -> DurationView {
        DurationView { seconds, format: duration_text(seconds) }
    }
}

/// What [`calculate_durations`] returned, as a mathematical value.
pub open spec fn outcome_view(outcome: Result<ParseOutput, ParseError>) -> Result<
    OutputView,
    ErrorView,
> {
    match outcome {
        Ok(output) => Ok(output@),
        Err(error) => Err(error@),
    }
}

/// The durations of the text `s`.
///
/// A malformed range anywhere in the text fails the whole text, before
/// anything else is looked at. Then the first range that breaks a bound
/// fails it. A text without a range fails too, and so does one whose ranges
/// add up to more than 32 bits hold. Every other text has its lines and
/// their total.
pub open spec fn durations(s: Seq<char>) -> Result<OutputView, ErrorView> {
    match scan(s) {
        Scan::Malformed(text) => Err(ErrorView::MalformedRange { text }),
        Scan::Ranges(ranges) => match first_defect(ranges) {
            Some(error) => Err(error),
            None => if ranges.len() == 0 {
                Err(ErrorView::NoRangesFound)
            } else if total_duration(ranges, 0, ranges.len() as int) > u32::MAX {
                Err(ErrorView::DurationOverflow)
            } else {
                Ok(output_of(s, ranges))
            },
        },
    }
}

/// Finds the first range that breaks a bound, and says which.
pub fn check_ranges(ranges: &Vec<ParsedRange>) -> (defect: Option<ParseError>)
    ensures
        match defect {
            Some(error) => first_defect(range_views(ranges@)) == Some(error@),
            None => first_defect(range_views(ranges@)) is None,
        },
{
    let ghost views = range_views(ranges@);
    let mut i: usize = 0;
    assert(views.skip(0) == views);
    while i < ranges.len()
        invariant
            i <= ranges.len(),
            views == range_views(ranges@),
            first_defect(views) == first_defect(views.skip(i as int)),
        decreases ranges.len() - i,
    {
        proof {
            assert(views.skip(i as int).drop_first() == views.skip(i + 1));
            assert(views.skip(i as int)[0] == ranges[i as int]@);
        }
        match ranges[i].verdict {
            Ok(_) => {},
            Err(defect) => {
                return Some(ParseError::of_defect(&ranges[i], defect));
            },
        }
        i += 1;
    }
    None
}

/// Finds the ranges of `input`, checks them, groups those that a `+` joins
/// into lines and adds up the lines.
pub fn calculate_durations(input: &str) -> (outcome: Result<ParseOutput, ParseError>)
    ensures
        outcome_view(outcome) == durations(input@),
        outcome matches Ok(output) ==> output@.total.seconds == sum_seconds(output@.lines),
{
    let text = chars_of(input);
    let ranges = match find_all_ranges(text.as_slice()) {
        Ok(ranges) => ranges,
        Err(offending) => {
            return Err(ParseError::MalformedRange { text: offending });
        },
    };
    if let Some(error) = check_ranges(&ranges) {
        return Err(error);
    }
    if ranges.len() == 0 {
        return Err(ParseError::NoRangesFound);
    }
    aggregate(text.as_slice(), &ranges)
}

/// Takes the ranges out of `input`, with the `+` that joins them, and mends
/// the spaces around them. A text that cannot be scanned, or that holds no
/// range, comes back as it is: cleaning never fails.
pub fn clean_script(input: &str) -> (clean: String)
    ensures
        clean@ == cleaned(input@),
{
    let text = chars_of(input);
    let ranges = match find_all_ranges(text.as_slice()) {
        Ok(ranges) => ranges,
        Err(_) => {
            return input.to_owned();
        },
    };
    if ranges.len() == 0 {
        return input.to_owned();
    }
    let cut = excise(text.as_slice(), &ranges);
    let tidy = tidy(cut.as_slice());
    string_of(tidy.as_slice())
}

/// A text without an opening parenthesis has no range: no durations are
/// found in it, and cleaning leaves it as it is.
pub proof fn lemma_text_without_ranges(s: Seq<char>)
    requires
        forall|i: int| 0 <= i < s.len() ==> s[i] != '(',
    ensures
        durations(s) == Err::<OutputView, ErrorView>(ErrorView::NoRangesFound),
        cleaned(s) == s,
{
    lemma_scan_without_parenthesis(s, 0);
}

/// A text in which the scan finds no range has no durations, and cleaning
/// leaves it as it is.
pub proof fn lemma_no_ranges(s: Seq<char>)
    requires
        scan(s) == Scan::Ranges(Seq::empty()),
    ensures
        durations(s) == Err::<OutputView, ErrorView>(ErrorView::NoRangesFound),
        cleaned(s) == s,
{
}

} // verus!
