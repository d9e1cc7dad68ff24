//! The cleaner: takes the ranges out of a text and mends what is left.

use vstd::prelude::*;
use vstd::slice::slice_subrange;
use crate::grouping::{group_end, group_last, lemma_group_last_bounds};
use crate::scanner::{
    lemma_range_in_text,
    lemma_ranges_in_order,
    range_views,
    ranges_of,
    scan,
    ParsedRange,
    RangeView,
    Scan,
};
use crate::text::alphanumeric;

verus! {

/// How one group of ranges is cut out of a text.
pub struct Cut {
    /// Where the cut begins: at the group, or at the space before it.
    pub from: int,
    /// Where the text goes on: behind the group, or behind the space that follows it.
    pub to: int,
    /// Whether a space is put in place of the group.
    pub glue: bool,
}

/// The cut for a group that stands at `start..end`, where the text up to `kept`
/// is dealt with already.
///
/// One space before the group goes with it, unless the cut before took it,
/// and one space behind it. Where neither side gave a space and the group
/// stands between two alphanumeric characters, a space takes its place, so
/// that the two words do not run together.
pub open spec fn cut_of(s: Seq<char>, start: int, end: int, kept: int) -> Cut {
    let left = kept < start && s[start - 1] == ' ';
    let right = end < s.len() && s[end] == ' ';
    let from = if left {
        start - 1
    } else {
        start
    };
    let to = if right {
        end + 1
    } else {
        end
    };
    Cut {
        from,
        to,
        glue: !left && !right && 0 < from && to < s.len() && alphanumeric(s[from - 1])
            && alphanumeric(s[to]),
    }
}

/// The text from `kept` on without the groups that begin with range `i` or later.
pub open spec fn excised_from(s: Seq<char>, ranges: Seq<RangeView>, i: int, kept: int) -> Seq<char>
    decreases ranges.len() - i,
{
    if !(0 <= i < ranges.len()) {
        s.subrange(kept, s.len() as int)
    } else {
        let last = group_last(s, ranges, i);
        proof {
            lemma_group_last_bounds(s, ranges, i);
        }
        let cut = cut_of(s, ranges[i].start_index, ranges[last].end_index, kept);
        let glue = if cut.glue {
            seq![' ']
        } else {
            Seq::empty()
        };
        s.subrange(kept, cut.from) + glue + excised_from(s, ranges, last + 1, cut.to)
    }
}

/// The text with every match of `from` replaced by `to`. Matches are looked
/// for from left to right and do not overlap; an empty `from` matches nowhere.
pub open spec fn replaced(s: Seq<char>, from: Seq<char>, to: Seq<char>) -> Seq<char>
    decreases s.len(),
{
    if from.len() == 0 || s.len() < from.len() {
        s
    } else if s.subrange(0, from.len() as int) == from {
        to + replaced(s.skip(from.len() as int), from, to)
    } else {
        seq![s[0]] + replaced(s.skip(1), from, to)
    }
}

/// The text without stranded connectors: ` + ` becomes a space, then `+ ` and
/// ` +` go.
pub open spec fn tidied(s: Seq<char>) -> Seq<char> {
    let spaced = replaced(s, seq![' ', '+', ' '], seq![' ']);
    let trailing = replaced(spaced, seq!['+', ' '], Seq::empty());
    replaced(trailing, seq![' ', '+'], Seq::empty())
}

/// The text without its ranges.
///
/// A text that cannot be scanned, or that holds no range, stays as it is.
/// From any other text each group of linked ranges is cut out, and what is
/// left is tidied.
pub open spec fn cleaned(s: Seq<char>) -> Seq<char> {
    match scan(s) {
        Scan::Ranges(ranges) => if ranges.len() == 0 {
            s
        } else {
            tidied(excised_from(s, ranges, 0, 0))
        },
        Scan::Malformed(_) => s,
    }
}

/// Cleaning changes nothing once no range is left: a text that was cleaned,
/// and in which no range is found any more, is cleaned to itself.
pub proof fn lemma_clean_idempotent(s: Seq<char>)
    requires
        scan(cleaned(s)).ranges().len() == 0,
    ensures
        cleaned(cleaned(s)) == cleaned(s),
{
}

/// Tells whether `pattern` stands in `text` at `at`.
fn matches_at(text: &[char], at: usize, pattern: &[char]) -> (yes: bool)
    requires
        at + pattern.len() <= text.len(),
    ensures
        yes == (text@.skip(at as int).subrange(0, pattern.len() as int) == pattern@),
{
    let ghost window = text@.skip(at as int).subrange(0, pattern.len() as int);
    let mut k: usize = 0;
    while k < pattern.len()
        invariant
            k <= pattern.len(),
            at + pattern.len() <= text.len(),
            window == text@.skip(at as int).subrange(0, pattern.len() as int),
            forall|n: int| 0 <= n < k ==> window[n] == pattern[n],
        decreases pattern.len() - k,
    {
        assert(window[k as int] == text[at + k]);
        if text[at + k] != pattern[k] {
            return false;
        }
        k += 1;
    }
    assert(window =~= pattern@);
    true
}

/// Replaces every match of `from` in `text` by `to`.
pub fn replace_all(text: &[char], from: &[char], to: &[char]) -> (out: Vec<char>)
    ensures
        out@ == replaced(text@, from@, to@),
{
    let mut out: Vec<char> = Vec::new();
    let mut i: usize = 0;
    assert(text@.skip(0) == text@);
    while from.len() > 0 && text.len() - i >= from.len()
        invariant
            i <= text.len(),
            replaced(text@, from@, to@) == out@ + replaced(text@.skip(i as int), from@, to@),
        decreases text.len() - i,
    {
        let ghost rest = text@.skip(i as int);
        if matches_at(text, i, from) {
            assert(rest.skip(from.len() as int) == text@.skip(i + from.len()));
            assert(out@ + (to@ + replaced(rest.skip(from.len() as int), from@, to@)) == out@ + to@
                + replaced(rest.skip(from.len() as int), from@, to@));
            out.extend_from_slice(to);
            i += from.len();
        } else {
            assert(rest.skip(1) == text@.skip(i + 1));
            assert(out@ + (seq![rest[0]] + replaced(rest.skip(1), from@, to@)) == out@.push(
                text[i as int],
            ) + replaced(rest.skip(1), from@, to@));
            out.push(text[i]);
            i += 1;
        }
    }
    assert(text@.skip(i as int) == text@.subrange(i as int, text.len() as int));
    out.extend_from_slice(slice_subrange(text, i, text.len()));
    out
}

/// Takes stranded connectors out of `text`.
pub fn tidy(text: &[char]) -> (out: Vec<char>)
    ensures
        out@ == tidied(text@),
{
    let space: [char; 1] = [' '];
    let plus_between: [char; 3] = [' ', '+', ' '];
    let plus_before: [char; 2] = ['+', ' '];
    let plus_behind: [char; 2] = [' ', '+'];
    let nothing: [char; 0] = [];
    assert(space@ =~= seq![' ']);
    assert(plus_between@ =~= seq![' ', '+', ' ']);
    assert(plus_before@ =~= seq!['+', ' ']);
    assert(plus_behind@ =~= seq![' ', '+']);
    assert(nothing@ =~= Seq::<char>::empty());
    let spaced = replace_all(text, plus_between.as_slice(), space.as_slice());
    let trailing = replace_all(spaced.as_slice(), plus_before.as_slice(), nothing.as_slice());
    replace_all(trailing.as_slice(), plus_behind.as_slice(), nothing.as_slice())
}

/// A [`Cut`] as [`find_cut`] returns it: where it begins, where the text goes
/// on, and whether a space takes the place of the group.
pub open spec fn cut_view(cut: (usize, usize, bool)) -> Cut {
    Cut { from: cut.0 as int, to: cut.1 as int, glue: cut.2 }
}

/// Finds the cut for a group that stands at `start..end`.
pub fn find_cut(text: &[char], start: usize, end: usize, kept: usize) -> (cut: (
    usize,
    usize,
    bool,
))
    requires
        kept <= start <= end <= text.len(),
    ensures
        cut_view(cut) == cut_of(text@, start as int, end as int, kept as int),
        kept <= cut.0 <= start,
        end <= cut.1 <= text.len(),
{
    let left = kept < start && text[start - 1] == ' ';
    let right = end < text.len() && text[end] == ' ';
    let from = if left {
        start - 1
    } else {
        start
    };
    let to = if right {
        end + 1
    } else {
        end
    };
    let glue = !left && !right && 0 < from && to < text.len() && text[from - 1].is_alphanumeric()
        && text[to].is_alphanumeric();
    (from, to, glue)
}

/// One step of the cutting: where `done` is what came out of the text before
/// `kept`, the whole comes out as `done`, the text up to the next cut, the
/// space that the cut may leave, and what comes out of the text behind the cut.
proof fn lemma_excise_step(s: Seq<char>, ranges: Seq<RangeView>, done: Seq<char>, i: int, kept: int)
    requires
        0 <= i < ranges.len(),
    ensures
        ({
            let last = group_last(s, ranges, i);
            let cut = cut_of(s, ranges[i].start_index, ranges[last].end_index, kept);
            let piece = done + s.subrange(kept, cut.from);
            let glued = if cut.glue {
                piece.push(' ')
            } else {
                piece
            };
            done + excised_from(s, ranges, i, kept) == glued + excised_from(
                s,
                ranges,
                last + 1,
                cut.to,
            )
        }),
{
    let last = group_last(s, ranges, i);
    let cut = cut_of(s, ranges[i].start_index, ranges[last].end_index, kept);
    let piece = s.subrange(kept, cut.from);
    let rest = excised_from(s, ranges, last + 1, cut.to);
    if cut.glue {
        assert(done + (piece + seq![' '] + rest) =~= (done + piece).push(' ') + rest);
    } else {
        assert(done + (piece + Seq::<char>::empty() + rest) =~= (done + piece) + rest);
    }
}

/// A cut ends at or before the range that follows the group.
proof fn lemma_cut_before_next(s: Seq<char>, ranges: Seq<RangeView>, i: int, last: int, kept: int)
    requires
        ranges_of(s, ranges),
        0 <= i <= last,
        last + 1 < ranges.len(),
    ensures
        cut_of(s, ranges[i].start_index, ranges[last].end_index, kept).to <= ranges[last
            + 1].start_index,
{
    lemma_range_in_text(s, ranges, last + 1);
    lemma_ranges_in_order(s, ranges, last, last + 1);
}

/// Cuts every group of linked ranges out of `text`.
pub fn excise(text: &[char], ranges: &Vec<ParsedRange>) -> (out: Vec<char>)
    requires
        ranges_of(text@, range_views(ranges@)),
    ensures
        out@ == excised_from(text@, range_views(ranges@), 0, 0),
{
    let ghost views = range_views(ranges@);
    let mut out: Vec<char> = Vec::new();
    let mut kept: usize = 0;
    let mut i: usize = 0;
    while i < ranges.len()
        invariant
            i <= ranges.len(),
            kept <= text.len(),
            views == range_views(ranges@),
            ranges_of(text@, views),
            i < ranges.len() ==> kept <= views[i as int].start_index,
            excised_from(text@, views, 0, 0) == out@ + excised_from(
                text@,
                views,
                i as int,
                kept as int,
            ),
        decreases ranges.len() - i,
    {
        let last = group_end(text, ranges, i);
        assert(views[i as int] == ranges[i as int]@);
        assert(views[last as int] == ranges[last as int]@);
        proof {
            lemma_range_in_text(text@, views, i as int);
            lemma_range_in_text(text@, views, last as int);
            if i < last {
                lemma_ranges_in_order(text@, views, i as int, last as int);
            }
            if last + 1 < ranges.len() {
                lemma_cut_before_next(text@, views, i as int, last as int, kept as int);
            }
            lemma_excise_step(text@, views, out@, i as int, kept as int);
        }
        let (from, to, glue) = find_cut(text, ranges[i].start_index, ranges[last].end_index, kept);
        out.extend_from_slice(slice_subrange(text, kept, from));
        if glue {
            out.push(' ');
        }
        kept = to;
        i = last + 1;
    }
    out.extend_from_slice(slice_subrange(text, kept, text.len()));
    out
}

} // verus!
