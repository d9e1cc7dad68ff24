//! Numbers and durations as text.

use vstd::prelude::*;
use crate::grammar::{decimal_value, digit_value, is_digit};

verus! {

/// The digit that stands for `d`.
pub open spec fn digit_char(d: nat) -> char
    recommends
        d < 10,
{
    ('0' as int + d) as char
}

/// `n` in base ten, without leading zeros.
pub open spec fn decimal_digits(n: nat) -> Seq<char>
    decreases n,
{
    if n < 10 {
        seq![digit_char(n)]
    } else {
        decimal_digits(n / 10).push(digit_char(n % 10))
    }
}

/// `n` in base ten on two places, with a leading zero below ten.
pub open spec fn two_digits(n: nat) -> Seq<char>
    recommends
        n < 100,
{
    seq![digit_char(n / 10), digit_char(n % 10)]
}

/// A duration as `minutes:seconds`: the minutes are never carried into hours,
/// the seconds always take two places.
pub open spec fn duration_text(seconds: nat) -> Seq<char> {
    decimal_digits(seconds / 60) + seq![':'] + two_digits(seconds % 60)
}

/// The digit that stands for `d`.
pub fn digit_of(d: u8) -> (c: char)
    requires
        d < 10,
    ensures
        c == digit_char(d as nat),
        is_digit(c),
        digit_value(c) == d,
{
    (48u8 + d) as char
}

/// Appends `n` in base ten to `out`.
pub fn push_decimal(out: &mut String, n: u64)
    ensures
        final(out)@ == old(out)@ + decimal_digits(n as nat),
    decreases n,
{
    if n >= 10 {
        push_decimal(out, n / 10);
    }
    out.push(digit_of((n % 10) as u8));
}

/// Formats a duration in seconds as `minutes:seconds`.
pub fn format_duration(seconds: u32) -> (text: String)
    ensures
        text@ == duration_text(seconds as nat),
{
    let minutes: u32 = seconds / 60;
    let rest: u8 = (seconds % 60) as u8;
    let mut text = String::new();
    push_decimal(&mut text, minutes as u64);
    text.push(':');
    text.push(digit_of(rest / 10));
    text.push(digit_of(rest % 10));
    text
}

/// A number in base ten is made of digits only, at least one, and reads back
/// as the number.
pub proof fn lemma_decimal_digits(n: nat)
    ensures
        decimal_digits(n).len() >= 1,
        forall|i: int| 0 <= i < decimal_digits(n).len() ==> is_digit(#[trigger] decimal_digits(n)[i]),
        decimal_value(decimal_digits(n)) == n,
    decreases n,
{
    reveal_with_fuel(decimal_value, 2);
    if n < 10 {
        assert(decimal_digits(n).drop_last() =~= Seq::<char>::empty());
    } else {
        lemma_decimal_digits(n / 10);
        assert(decimal_digits(n).drop_last() =~= decimal_digits(n / 10));
    }
}

/// The shape of a formatted duration: one or more digits, a colon, two digits.
/// The digits before the colon read as the minutes and those behind it as the
/// seconds, which stay below sixty, and sixty times the minutes plus the
/// seconds is the duration.
pub proof fn lemma_duration_text_shape(seconds: nat)
    ensures
        ({
            let text = duration_text(seconds);
            let colon = text.len() - 3;
            &&& colon >= 1
            &&& forall|i: int| 0 <= i < colon ==> is_digit(#[trigger] text[i])
            &&& text[colon] == ':'
            &&& is_digit(text[colon + 1])
            &&& is_digit(text[colon + 2])
            &&& decimal_value(text.subrange(colon + 1, colon + 3)) <= 59
            &&& decimal_value(text.subrange(0, colon)) * 60 + decimal_value(
                text.subrange(colon + 1, colon + 3),
            ) == seconds
        }),
{
    let text = duration_text(seconds);
    let minutes = decimal_digits(seconds / 60);
    let rest = two_digits(seconds % 60);
    lemma_decimal_digits(seconds / 60);
    let colon = minutes.len() as int;
    assert(text.subrange(0, colon) =~= minutes);
    assert(text.subrange(colon + 1, colon + 3) =~= rest);
    assert(decimal_value(rest) == seconds % 60) by {
        reveal_with_fuel(decimal_value, 3);
        assert(rest.drop_last() =~= seq![digit_char((seconds % 60) / 10)]);
        assert(rest.drop_last().drop_last() =~= Seq::<char>::empty());
    }
    assert forall|i: int| 0 <= i < minutes.len() implies is_digit(#[trigger] text[i]) by {
        assert(text[i] == minutes[i]);
    }
}

} // verus!
