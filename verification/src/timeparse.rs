//! Parsing of 24-hour `HH:MM` times of day into minutes since midnight.

use vstd::prelude::*;
use crate::text::chars_of;

verus! {

/// Whether `c` is a decimal digit.
pub open spec fn is_digit(c: char) -> bool {
    48 <= c as u32 <= 57
}

/// The value of a decimal digit.
pub open spec fn digit_val(c: char) -> int
    recommends
        is_digit(c),
{
    c as u32 - 48
}

/// Whether `s` is a well-formed `HH:MM` time of day: exactly five
/// characters, two-digit hour below 24, a colon, two-digit minute below 60.
pub open spec fn valid_time(s: Seq<char>) -> bool {
    &&& s.len() == 5
    &&& is_digit(s[0])
    &&& is_digit(s[1])
    &&& s[2] == ':'
    &&& is_digit(s[3])
    &&& is_digit(s[4])
    &&& digit_val(s[0]) * 10 + digit_val(s[1]) < 24
    &&& digit_val(s[3]) * 10 + digit_val(s[4]) < 60
}

/// The minute of the day named by a well-formed `HH:MM` time.
pub open spec fn time_of(s: Seq<char>) -> int
    recommends
        valid_time(s),
{
    (digit_val(s[0]) * 10 + digit_val(s[1])) * 60 + digit_val(s[3]) * 10 + digit_val(s[4])
}

/// Parses a 24-hour `HH:MM` time of day as minutes since midnight.
/// Any other shape of input yields `None`.
pub fn parse_time(time_str: &str) -> (r: Option<u32>)
    ensures
        match r {
            Some(t) => valid_time(time_str@) && t == time_of(time_str@),
            None => !valid_time(time_str@),
        },
{
    let cs = chars_of(time_str);
    if cs.len() != 5 {
        return None;
    }
    let c0 = cs[0];
    let c1 = cs[1];
    let c2 = cs[2];
    let c3 = cs[3];
    let c4 = cs[4];
    if c2 != ':' {
        return None;
    }
    let d0 = digit_of(c0);
    let d1 = digit_of(c1);
    let d3 = digit_of(c3);
    let d4 = digit_of(c4);
    match (d0, d1, d3, d4) {
        (Some(h10), Some(h1), Some(m10), Some(m1)) => {
            let hour = h10 * 10 + h1;
            let minute = m10 * 10 + m1;
            if hour < 24 && minute < 60 {
                Some(hour * 60 + minute)
            } else {
                None
            }
        },
        _ => None,
    }
}

/// The value of a decimal digit character, or `None` for any other
/// character.
fn digit_of(c: char) -> (r: Option<u32>)
    ensures
        match r {
            Some(d) => is_digit(c) && d == digit_val(c),
            None => !is_digit(c),
        },
{
    let v = c as u32;
    if 48 <= v && v <= 57 {
        Some(v - 48)
    } else {
        None
    }
}

} // verus!
