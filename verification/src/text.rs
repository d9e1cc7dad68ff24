//! Text as a sequence of characters: where a character stands in the bytes of
//! a string, and what the standard library knows of a character.

use vstd::prelude::*;
use vstd::utf8::{char_is_scalar, encode_scalar, encode_utf8};

verus! {

/// The number of bytes that `c` takes in UTF-8.
pub open spec fn utf8_len(c: char) -> nat {
    if c as u32 <= 0x7F {
        1
    } else if c as u32 <= 0x7FF {
        2
    } else if c as u32 <= 0xFFFF {
        3
    } else {
        4
    }
}

/// The byte offset of position `i` in `s`: the number of bytes that the
/// characters before it take in UTF-8.
pub open spec fn byte_offset(s: Seq<char>, i: int) -> nat
    decreases i,
{
    if i <= 0 {
        0
    } else {
        byte_offset(s, i - 1) + utf8_len(s[i - 1])
    }
}

/// Whether `c` has the Unicode property `White_Space`: the controls from tab
/// to carriage return and the next-line control, the spaces of every width,
/// and the line and paragraph separators.
pub open spec fn whitespace(c: char) -> bool {
    let code = c as u32;
    ||| 0x0009 <= code <= 0x000D
    ||| code == 0x0020
    ||| code == 0x0085
    ||| code == 0x00A0
    ||| code == 0x1680
    ||| 0x2000 <= code <= 0x200A
    ||| code == 0x2028
    ||| code == 0x2029
    ||| code == 0x202F
    ||| code == 0x205F
    ||| code == 0x3000
}

/// An ASCII letter or digit.
pub open spec fn ascii_alphanumeric(c: char) -> bool {
    ('0' <= c <= '9') || ('a' <= c <= 'z') || ('A' <= c <= 'Z')
}

/// Whether `char::is_alphanumeric` holds of a character beyond ASCII: it is a
/// letter or a number, by the tables of Unicode.
pub uninterp spec fn alphanumeric_beyond_ascii(c: char) -> bool;

/// Whether `c` is alphanumeric: in ASCII a letter or a digit, beyond it what
/// the tables of Unicode say.
pub open spec fn alphanumeric(c: char) -> bool {
    if c <= '\x7f' {
        ascii_alphanumeric(c)
    } else {
        alphanumeric_beyond_ascii(c)
    }
}

/// `char::is_alphanumeric` holds of the letters and numbers of Unicode. In
/// ASCII these are the letters and the digits, which is stated; beyond ASCII
/// the result depends on the character alone and is named.
pub assume_specification[ char::is_alphanumeric ](c: char) -> (yes: bool)
    ensures
        yes == alphanumeric(c),
        c > '\x7f' ==> yes == alphanumeric_beyond_ascii(c),
;

/// `char::is_whitespace` holds of the characters with the Unicode property
/// `White_Space`, which are listed in [`whitespace`].
pub assume_specification[ char::is_whitespace ](c: char) -> (yes: bool)
    ensures
        yes == whitespace(c),
;

/// `String::push` appends the character and changes nothing else.
pub assume_specification[ String::push ](s: &mut String, c: char)
    ensures
        final(s)@ == old(s)@.push(c),
;

/// A later position has a larger byte offset: each character takes a byte at least.
pub proof fn lemma_byte_offset_increases(s: Seq<char>, i: int, j: int)
    requires
        0 <= i <= j,
    ensures
        byte_offset(s, i) + (j - i) <= byte_offset(s, j),
    decreases j - i,
{
    if i < j {
        lemma_byte_offset_increases(s, i, j - 1);
    }
}

/// Byte offsets can be counted from the first character on.
proof fn lemma_byte_offset_from_front(s: Seq<char>, i: int)
    requires
        1 <= i <= s.len(),
    ensures
        byte_offset(s, i) == utf8_len(s[0]) + byte_offset(s.drop_first(), i - 1),
    decreases i,
{
    if i > 1 {
        lemma_byte_offset_from_front(s, i - 1);
        assert(s.drop_first()[i - 2] == s[i - 1]);
    } else {
        assert(byte_offset(s, 0) == 0);
        assert(byte_offset(s.drop_first(), 0) == 0);
    }
}

/// The byte offset of the end of a text is its length in UTF-8.
pub proof fn lemma_byte_offset_of_end(s: Seq<char>)
    ensures
        byte_offset(s, s.len() as int) == encode_utf8(s).len(),
    decreases s.len(),
{
    if s.len() > 0 {
        char_is_scalar(s[0]);
        assert(encode_scalar(s[0] as u32).len() == utf8_len(s[0]));
        lemma_byte_offset_from_front(s, s.len() as int);
        lemma_byte_offset_of_end(s.drop_first());
    }
}

/// The number of bytes that `c` takes in UTF-8.
pub fn utf8_len_of(c: char) -> (n: usize)
    ensures
        n == utf8_len(c),
        1 <= n <= 4,
{
    let code: u32 = c as u32;
    if code <= 0x7F {
        1
    } else if code <= 0x7FF {
        2
    } else if code <= 0xFFFF {
        3
    } else {
        4
    }
}

/// The number of bytes that the characters from `from` up to `to` take.
pub fn bytes_between(text: &[char], from: usize, to: usize) -> (n: usize)
    requires
        from <= to <= text.len(),
        byte_offset(text@, text.len() as int) <= usize::MAX,
    ensures
        n == byte_offset(text@, to as int) - byte_offset(text@, from as int),
        byte_offset(text@, to as int) <= usize::MAX,
{
    proof {
        lemma_byte_offset_increases(text@, to as int, text.len() as int);
    }
    let mut n: usize = 0;
    let mut k: usize = from;
    while k < to
        invariant
            from <= k <= to <= text.len(),
            byte_offset(text@, text.len() as int) <= usize::MAX,
            n == byte_offset(text@, k as int) - byte_offset(text@, from as int),
        decreases to - k,
    {
        proof {
            lemma_byte_offset_increases(text@, k + 1, text.len() as int);
            lemma_byte_offset_increases(text@, 0, from as int);
        }
        n += utf8_len_of(text[k]);
        k += 1;
    }
    n
}

/// The characters of `s`, in order. Their byte offsets fit the machine, as
/// the bytes of a string do.
pub fn chars_of(s: &str) -> (chars: Vec<char>)
    ensures
        chars@ == s@,
        byte_offset(chars@, chars.len() as int) <= usize::MAX,
{
    let mut chars: Vec<char> = Vec::new();
    for c in it: s.chars()
        invariant
            it.seq() == s@,
            chars@ == s@.take(it.index() as int),
    {
        chars.push(c);
    }
    assert(chars@ == s@);
    let length = s.as_bytes().len();
    proof {
        lemma_byte_offset_of_end(s@);
        assert(byte_offset(s@, s@.len() as int) == length);
    }
    chars
}

/// The string made of `chars`, in order.
pub fn string_of(chars: &[char]) -> (s: String)
    ensures
        s@ == chars@,
{
    let mut s = String::new();
    let mut i: usize = 0;
    while i < chars.len()
        invariant
            i <= chars.len(),
            s@ == chars@.take(i as int),
        decreases chars.len() - i,
    {
        s.push(chars[i]);
        i += 1;
    }
    s
}

} // verus!
