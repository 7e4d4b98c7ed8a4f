//! Real UTC offsets named by offset tags, harvested to stand in for the sentinel.
use crate::filename::is_digit;
use vstd::prelude::*;

verus! {

pub open spec fn digit_value(c: char) -> int {
    c as int - '0' as int
}

pub open spec fn pair_value(a: char, b: char) -> int {
    digit_value(a) * 10 + digit_value(b)
}

/// The offset, in seconds east of UTC, that a text of the form `+HHMM` or `+HH:MM` (sign `+`
/// or `-`) writes; `None` for any other text.
pub open spec fn offset_text_value(s: Seq<char>) -> Option<int> {
    let signed = s.len() >= 1 && (s[0] == '+' || s[0] == '-');
    let plain = s.len() == 5 && is_digit(s[1]) && is_digit(s[2]) && is_digit(s[3]) && is_digit(
        s[4],
    );
    let colon = s.len() == 6 && is_digit(s[1]) && is_digit(s[2]) && s[3] == ':' && is_digit(s[4])
        && is_digit(s[5]);
    let magnitude = if plain {
        pair_value(s[1], s[2]) * 3600 + pair_value(s[3], s[4]) * 60
    } else {
        pair_value(s[1], s[2]) * 3600 + pair_value(s[4], s[5]) * 60
    };
    if signed && (plain || colon) {
        Some(if s[0] == '-' { -magnitude } else { magnitude })
    } else {
        None
    }
}

/// An offset of minus twelve hours and something: the sentinel's family, never a real zone.
pub open spec fn sentinel_family(s: Seq<char>) -> bool {
    s.len() >= 3 && s[0] == '-' && s[1] == '1' && s[2] == '2'
}

/// The real offset an offset tag's text names, if it names one.
pub open spec fn real_offset(s: Seq<char>) -> Option<int> {
    if sentinel_family(s) {
        None
    } else {
        offset_text_value(s)
    }
}

fn digit_of(c: char) -> (r: i32)
    requires
        is_digit(c),
    ensures
        r == digit_value(c),
        0 <= r <= 9,
{
    (c as u32 - '0' as u32) as i32
}

fn is_digit_char(c: char) -> (r: bool)
    ensures
        r == is_digit(c),
{
    '0' <= c && c <= '9'
}

/// Reads the real offset an offset tag names, in seconds east of UTC.
pub fn parse_real_offset(s: &str) -> (r: Option<i32>)
    ensures
        r matches Some(o) ==> real_offset(s@) == Some(o as int),
        r is None ==> real_offset(s@) is None,
{
    let n = s.unicode_len();
    if n != 5 && n != 6 {
        return None;
    }
    let c0 = s.get_char(0);
    if c0 != '+' && c0 != '-' {
        return None;
    }
    if c0 == '-' && s.get_char(1) == '1' && s.get_char(2) == '2' {
        return None;
    }
    let (a, b) = (s.get_char(1), s.get_char(2));
    let (c, d) = if n == 5 {
        (s.get_char(3), s.get_char(4))
    } else {
        if s.get_char(3) != ':' {
            return None;
        }
        (s.get_char(4), s.get_char(5))
    };
    if !(is_digit_char(a) && is_digit_char(b) && is_digit_char(c) && is_digit_char(d)) {
        return None;
    }
    let magnitude = (digit_of(a) * 10 + digit_of(b)) * 3600 + (digit_of(c) * 10 + digit_of(d)) * 60;
    Some(if c0 == '-' { -magnitude } else { magnitude })
}

} // verus!
