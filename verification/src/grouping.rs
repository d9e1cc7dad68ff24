//! Which ranges belong together: those joined by a `+`.

use vstd::prelude::*;
use crate::scanner::{
    lemma_range_in_text,
    lemma_ranges_in_order,
    range_views,
    ranges_of,
    ParsedRange,
    RangeView,
};
use crate::text::whitespace;

verus! {

/// The `+` of a link stands at `k`: a `+`, and nothing but white space before
/// and behind it.
pub open spec fn is_plus_at(between: Seq<char>, k: int) -> bool {
    &&& 0 <= k < between.len()
    &&& between[k] == '+'
    &&& forall|i: int| 0 <= i < between.len() && i != k ==> whitespace(#[trigger] between[i])
}

/// The text links two ranges: trimmed of white space at both ends, it is
/// exactly `+`.
pub open spec fn is_plus_link(between: Seq<char>) -> bool {
    exists|k: int| is_plus_at(between, k)
}

/// The range `next` follows `range` in `s` and is linked to it.
pub open spec fn linked(s: Seq<char>, range: RangeView, next: RangeView) -> bool {
    is_plus_link(s.subrange(range.end_index, next.start_index))
}

/// The index of the last range of the group that begins with range `i`: the
/// group goes on as long as each range is linked to the next.
pub open spec fn group_last(s: Seq<char>, ranges: Seq<RangeView>, i: int) -> int
    decreases ranges.len() - i,
{
    if 0 <= i && i + 1 < ranges.len() && linked(s, ranges[i], ranges[i + 1]) {
        group_last(s, ranges, i + 1)
    } else {
        i
    }
}

/// A group ends at or behind the range it begins with, and within the list.
pub proof fn lemma_group_last_bounds(s: Seq<char>, ranges: Seq<RangeView>, i: int)
    ensures
        i <= group_last(s, ranges, i),
        0 <= i < ranges.len() ==> group_last(s, ranges, i) < ranges.len(),
    decreases ranges.len() - i,
{
    if 0 <= i && i + 1 < ranges.len() && linked(s, ranges[i], ranges[i + 1]) {
        lemma_group_last_bounds(s, ranges, i + 1);
    }
}

/// Tells whether `text[from..to]` links two ranges.
pub fn links(text: &[char], from: usize, to: usize) -> (yes: bool)
    requires
        from <= to <= text.len(),
    ensures
        yes == is_plus_link(text@.subrange(from as int, to as int)),
{
    let ghost between = text@.subrange(from as int, to as int);
    let mut i: usize = from;
    while i < to && text[i].is_whitespace()
        invariant
            from <= i <= to <= text.len(),
            between == text@.subrange(from as int, to as int),
            forall|k: int| 0 <= k < i - from ==> whitespace(#[trigger] between[k]),
        decreases to - i,
    {
        i += 1;
    }
    if i >= to {
        proof {
            assert forall|k: int| !is_plus_at(between, k) by {
                if 0 <= k < between.len() && between[k] == '+' {
                    assert(whitespace(between[k]));
                }
            }
        }
        return false;
    }
    let plus: usize = i;
    assert(between[plus - from] == text[plus as int]);
    if text[plus] != '+' {
        proof {
            assert forall|k: int| !is_plus_at(between, k) by {
                if is_plus_at(between, k) {
                    assert(k != plus - from);
                    assert(whitespace(between[plus - from]));
                }
            }
        }
        return false;
    }
    i += 1;
    while i < to && text[i].is_whitespace()
        invariant
            from <= plus < i <= to <= text.len(),
            between == text@.subrange(from as int, to as int),
            forall|k: int|
                0 <= k < i - from && k != plus - from ==> whitespace(#[trigger] between[k]),
        decreases to - i,
    {
        i += 1;
    }
    if i < to {
        proof {
            assert(between[i - from] == text[i as int]);
            assert forall|k: int| !is_plus_at(between, k) by {
                if is_plus_at(between, k) {
                    if k == plus - from {
                        assert(whitespace(between[i - from]));
                    } else {
                        assert(whitespace(between[plus - from]));
                    }
                }
            }
        }
        false
    } else {
        proof {
            assert(is_plus_at(between, plus - from));
        }
        true
    }
}

/// Finds the last range of the group that begins with range `i`.
pub fn group_end(text: &[char], ranges: &Vec<ParsedRange>, i: usize) -> (last: usize)
    requires
        i < ranges.len(),
        ranges_of(text@, range_views(ranges@)),
    ensures
        last == group_last(text@, range_views(ranges@), i as int),
        i <= last < ranges.len(),
{
    let ghost views = range_views(ranges@);
    let mut last: usize = i;
    while last + 1 < ranges.len()
        invariant
            i <= last < ranges.len(),
            views == range_views(ranges@),
            ranges_of(text@, views),
            group_last(text@, views, i as int) == group_last(text@, views, last as int),
        ensures
            group_last(text@, views, last as int) == last,
        decreases ranges.len() - last,
    {
        assert(views[last as int] == ranges[last as int]@);
        assert(views[last + 1] == ranges[last + 1]@);
        proof {
            lemma_range_in_text(text@, views, last as int);
            lemma_range_in_text(text@, views, last + 1);
            lemma_ranges_in_order(text@, views, last as int, last + 1);
        }
        if links(text, ranges[last].end_index, ranges[last + 1].start_index) {
            last += 1;
        } else {
            break ;
        }
    }
    last
}

} // verus!
