//! The aggregator: ranges into lines, lines into a total.

use vstd::prelude::*;
use vstd::string::StringExecFns;
use crate::error::{ErrorView, ParseError};
use crate::format::format_duration;
use crate::grouping::{group_end, group_last, lemma_group_last_bounds};
use crate::parser::{
    line_views,
    DurationResult,
    DurationView,
    LineResult,
    LineView,
    OutputView,
    ParseOutput,
};
use crate::scanner::{range_views, ranges_of, ParsedRange, RangeView};

verus! {

/// The error of the first range that breaks a bound.
pub open spec fn first_defect(ranges: Seq<RangeView>) -> Option<ErrorView>
    decreases ranges.len(),
{
    if ranges.len() == 0 {
        None
    } else {
        match ranges[0].verdict {
            Err(defect) => Some(ErrorView::of_defect(ranges[0].text, defect)),
            Ok(_) => first_defect(ranges.drop_first()),
        }
    }
}

/// The texts of the ranges `first` to `last`, joined by ` + `.
pub open spec fn joined_text(ranges: Seq<RangeView>, first: int, last: int) -> Seq<char>
    decreases last - first,
{
    if last <= first {
        ranges[first].text
    } else {
        joined_text(ranges, first, last - 1) + " + "@ + ranges[last].text
    }
}

/// What the ranges from `from` up to, not including, `to` add up to, in seconds.
pub open spec fn total_duration(ranges: Seq<RangeView>, from: int, to: int) -> nat
    decreases to - from,
{
    if to <= from {
        0
    } else {
        total_duration(ranges, from, to - 1) + ranges[to - 1].duration()
    }
}

/// The line with number `id`, made of the ranges `first` to `last`.
pub open spec fn line_of(ranges: Seq<RangeView>, first: int, last: int, id: nat) -> LineView {
    LineView {
        id,
        input: joined_text(ranges, first, last),
        result: DurationView::of(total_duration(ranges, first, last + 1)),
    }
}

/// The lines of the ranges from index `i` on, numbered from `id`: one line for
/// each group of linked ranges.
pub open spec fn lines_from(s: Seq<char>, ranges: Seq<RangeView>, i: int, id: nat) -> Seq<LineView>
    decreases ranges.len() - i,
{
    if !(0 <= i < ranges.len()) {
        Seq::empty()
    } else {
        let last = group_last(s, ranges, i);
        proof {
            lemma_group_last_bounds(s, ranges, i);
        }
        seq![line_of(ranges, i, last, id)] + lines_from(s, ranges, last + 1, id + 1)
    }
}

/// The lines of a text with the ranges `ranges`, numbered from one, and their total.
pub open spec fn output_of(s: Seq<char>, ranges: Seq<RangeView>) -> OutputView {
    OutputView {
        lines: lines_from(s, ranges, 0, 1),
        total: DurationView::of(total_duration(ranges, 0, ranges.len() as int)),
    }
}

/// The seconds of all lines together.
pub open spec fn sum_seconds(lines: Seq<LineView>) -> nat
    decreases lines.len(),
{
    if lines.len() == 0 {
        0
    } else {
        sum_seconds(lines.drop_last()) + lines.last().result.seconds
    }
}

/// Adding up ranges can be done in two steps.
pub proof fn lemma_total_duration_split(ranges: Seq<RangeView>, from: int, mid: int, to: int)
    requires
        from <= mid <= to,
    ensures
        total_duration(ranges, from, to) == total_duration(ranges, from, mid) + total_duration(
            ranges,
            mid,
            to,
        ),
    decreases to - mid,
{
    if mid < to {
        lemma_total_duration_split(ranges, from, mid, to - 1);
    }
}

/// A line put in front adds its seconds to the sum.
pub proof fn lemma_sum_seconds_prepend(line: LineView, lines: Seq<LineView>)
    ensures
        sum_seconds(seq![line] + lines) == line.result.seconds + sum_seconds(lines),
    decreases lines.len(),
{
    let all = seq![line] + lines;
    if lines.len() == 0 {
        assert(all.drop_last() =~= Seq::<LineView>::empty());
        assert(all.last() == line);
        assert(sum_seconds(all.drop_last()) == 0);
    } else {
        assert(all.drop_last() =~= seq![line] + lines.drop_last());
        assert(all.last() == lines.last());
        lemma_sum_seconds_prepend(line, lines.drop_last());
    }
}

/// The lines from range `i` on add up to what the ranges from `i` on add up to.
pub proof fn lemma_lines_sum(s: Seq<char>, ranges: Seq<RangeView>, i: int, id: nat)
    requires
        0 <= i <= ranges.len(),
    ensures
        sum_seconds(lines_from(s, ranges, i, id)) == total_duration(
            ranges,
            i,
            ranges.len() as int,
        ),
    decreases ranges.len() - i,
{
    if i < ranges.len() {
        let last = group_last(s, ranges, i);
        lemma_group_last_bounds(s, ranges, i);
        lemma_lines_sum(s, ranges, last + 1, id + 1);
        lemma_sum_seconds_prepend(
            line_of(ranges, i, last, id),
            lines_from(s, ranges, last + 1, id + 1),
        );
        lemma_total_duration_split(ranges, i, last + 1, ranges.len() as int);
    }
}

/// The total of a text is the sum of its lines.
pub proof fn lemma_total_is_sum_of_lines(s: Seq<char>, ranges: Seq<RangeView>)
    ensures
        output_of(s, ranges).total.seconds == sum_seconds(output_of(s, ranges).lines),
{
    lemma_lines_sum(s, ranges, 0, 1);
}

/// The lines of a text are numbered from one, one by one, whatever number
/// of ranges each of them holds.
pub proof fn lemma_lines_numbered(s: Seq<char>, ranges: Seq<RangeView>, k: int)
    requires
        0 <= k < output_of(s, ranges).lines.len(),
    ensures
        output_of(s, ranges).lines[k].id == k + 1,
{
    lemma_line_ids(s, ranges, 0, 1, k);
}

/// Line `k` of the lines numbered from `id` has number `id + k`.
pub proof fn lemma_line_ids(s: Seq<char>, ranges: Seq<RangeView>, i: int, id: nat, k: int)
    requires
        0 <= k < lines_from(s, ranges, i, id).len(),
    ensures
        lines_from(s, ranges, i, id)[k].id == id + k,
    decreases ranges.len() - i,
{
    if 0 <= i < ranges.len() {
        let last = group_last(s, ranges, i);
        lemma_group_last_bounds(s, ranges, i);
        if k > 0 {
            lemma_line_ids(s, ranges, last + 1, id + 1, k - 1);
        }
    }
}

/// The next line: where `done` are the lines of the ranges before `i`, the
/// lines of all ranges are `done`, the line of the group that begins with
/// range `i`, and the lines of the ranges behind that group.
proof fn lemma_next_line(s: Seq<char>, ranges: Seq<RangeView>, done: Seq<LineView>, i: int)
    requires
        0 <= i < ranges.len(),
    ensures
        ({
            let last = group_last(s, ranges, i);
            let line = line_of(ranges, i, last, done.len() + 1);
            &&& done + lines_from(s, ranges, i, done.len() + 1) == done.push(line) + lines_from(
                s,
                ranges,
                last + 1,
                done.len() + 2,
            )
            &&& sum_seconds(done.push(line)) == sum_seconds(done) + line.result.seconds
        }),
{
    let last = group_last(s, ranges, i);
    let line = line_of(ranges, i, last, done.len() + 1);
    let rest = lines_from(s, ranges, last + 1, done.len() + 2);
    assert(done + (seq![line] + rest) =~= done.push(line) + rest);
    assert(done.push(line).drop_last() =~= done);
}

/// The views of a list with one more line.
proof fn lemma_line_views_push(lines: Seq<LineResult>, line: LineResult)
    ensures
        line_views(lines.push(line)) == line_views(lines).push(line@),
{
    assert(line_views(lines.push(line)) =~= line_views(lines).push(line@));
}

/// Makes the line with number `id` of the ranges `first` to `last`, unless
/// they add up to more than `u32::MAX` seconds.
fn group_line(ranges: &Vec<ParsedRange>, first: usize, last: usize, id: usize) -> (line: Option<
    LineResult,
>)
    requires
        first <= last < ranges.len(),
    ensures
        match line {
            Some(line) => line@ == line_of(
                range_views(ranges@),
                first as int,
                last as int,
                id as nat,
            ),
            None => total_duration(range_views(ranges@), first as int, last + 1) > u32::MAX,
        },
{
    let ghost views = range_views(ranges@);
    let mut input = ranges[first].text.clone();
    let mut seconds: u64 = 0;
    let mut k: usize = first;
    while k <= last
        invariant
            first <= k <= last + 1,
            last < ranges.len(),
            views == range_views(ranges@),
            seconds == total_duration(views, first as int, k as int) <= u32::MAX,
            input@ == joined_text(views, first as int, if k == first {
                first as int
            } else {
                k - 1
            }),
        decreases last + 1 - k,
    {
        assert(views[k as int] == ranges[k as int]@);
        if k > first {
            input.append(" + ");
            input.append(ranges[k].text.as_str());
        }
        let duration: u64 = match ranges[k].verdict {
            Ok(duration) => duration,
            Err(_) => 0,
        };
        if duration > u32::MAX as u64 - seconds {
            proof {
                lemma_total_duration_split(views, first as int, k + 1, last + 1);
            }
            return None;
        }
        seconds += duration;
        k += 1;
    }
    Some(
        LineResult {
            id,
            input,
            result: DurationResult { seconds: seconds as u32, format: format_duration(seconds as u32) },
        },
    )
}

/// Groups the ranges of `text` into lines and adds them up.
///
/// Fails only where the ranges add up to more than `u32::MAX` seconds.
pub fn aggregate(text: &[char], ranges: &Vec<ParsedRange>) -> (outcome: Result<
    ParseOutput,
    ParseError,
>)
    requires
        ranges_of(text@, range_views(ranges@)),
    ensures
        match outcome {
            Ok(output) => {
                &&& output@ == output_of(text@, range_views(ranges@))
                &&& output@.total.seconds == sum_seconds(output@.lines)
                &&& total_duration(range_views(ranges@), 0, ranges.len() as int) <= u32::MAX
            },
            Err(error) => {
                &&& error@ == ErrorView::DurationOverflow
                &&& total_duration(range_views(ranges@), 0, ranges.len() as int) > u32::MAX
            },
        },
{
    let ghost views = range_views(ranges@);
    let mut lines: Vec<LineResult> = Vec::new();
    let mut total: u64 = 0;
    let mut i: usize = 0;
    while i < ranges.len()
        invariant
            i <= ranges.len(),
            lines.len() <= i,
            views == range_views(ranges@),
            ranges_of(text@, views),
            total == total_duration(views, 0, i as int) <= u32::MAX,
            total == sum_seconds(line_views(lines@)),
            lines_from(text@, views, 0, 1) == line_views(lines@) + lines_from(
                text@,
                views,
                i as int,
                (lines.len() + 1) as nat,
            ),
        decreases ranges.len() - i,
    {
        let last = group_end(text, ranges, i);
        proof {
            lemma_total_duration_split(views, 0, i as int, last + 1);
            lemma_total_duration_split(views, 0, last + 1, ranges.len() as int);
        }
        let line = match group_line(ranges, i, last, lines.len() + 1) {
            Some(line) => line,
            None => {
                return Err(ParseError::DurationOverflow);
            },
        };
        if line.result.seconds as u64 > u32::MAX as u64 - total {
            return Err(ParseError::DurationOverflow);
        }
        proof {
            lemma_next_line(text@, views, line_views(lines@), i as int);
            lemma_line_views_push(lines@, line);
        }
        total += line.result.seconds as u64;
        lines.push(line);
        i = last + 1;
    }
    proof {
        assert(line_views(lines@) + Seq::<LineView>::empty() == line_views(lines@));
    }
    Ok(
        ParseOutput {
            lines,
            total: DurationResult { seconds: total as u32, format: format_duration(total as u32) },
        },
    )
}

} // verus!
