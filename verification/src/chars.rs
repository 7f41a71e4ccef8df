//! Character classes used by the span-scanning rules: the marker character,
//! whitespace, horizontal whitespace, and decimal digits.

use vstd::prelude::*;

verus! {

/// The marker character that delimits math spans.
pub open spec fn is_marker(c: char) -> bool {
    c == '$'
}

/// Whitespace: space, tab, line feed, vertical tab, form feed, carriage return.
pub open spec fn is_ws(c: char) -> bool {
    c == ' ' || c == '\t' || c == '\n' || c == '\u{b}' || c == '\u{c}' || c == '\r'
}

/// Horizontal whitespace: space or tab (never a line break).
pub open spec fn is_hws(c: char) -> bool {
    c == ' ' || c == '\t'
}

/// A decimal digit.
pub open spec fn is_digit(c: char) -> bool {
    '0' <= c <= '9'
}

/// Copy the characters of `s` into a vector, for indexed scanning.
pub fn text_chars(s: &str) -> (v: Vec<char>)
    ensures
        v@ == s@,
{
    let n: usize = s.unicode_len();
    let mut v: Vec<char> = Vec::new();
    let mut i: usize = 0;
    while i < n
        invariant
            i <= n,
            n == s@.len(),
            v@ == s@.subrange(0, i as int),
        decreases n - i,
    {
        let c = s.get_char(i);
        v.push(c);
        proof {
            assert(v@ =~= s@.subrange(0, i as int + 1));
        }
        i = i + 1;
    }
    proof {
        assert(v@ =~= s@);
    }
    v
}

/// Executable test for [`is_ws`].
pub fn ws_char(c: char) -> (b: bool)
    ensures
        b == is_ws(c),
{
    c == ' ' || c == '\t' || c == '\n' || c == '\u{b}' || c == '\u{c}' || c == '\r'
}

/// Executable test for [`is_hws`].
pub fn hws_char(c: char) -> (b: bool)
    ensures
        b == is_hws(c),
{
    c == ' ' || c == '\t'
}

/// Executable test for [`is_digit`].
pub fn digit_char(c: char) -> (b: bool)
    ensures
        b == is_digit(c),
{
    '0' <= c && c <= '9'
}

} // verus!
