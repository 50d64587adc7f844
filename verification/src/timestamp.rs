use vstd::prelude::*;
use crate::is_space;
use crate::text::spec_digits_end;
use crate::text::spec_skip_spaces;
use crate::text::digits_val;
use crate::text::all_digits;
use crate::text::lemma_digits_end;
use crate::text::lemma_digits_val_range;
use crate::text::pow10;
use crate::text::digits_end;
use crate::text::digits_value;
use crate::text::skip_spaces;
use crate::text::digit_char;
use crate::is_digit;

verus! {

/// A parsed log timestamp, held as plain calendar fields plus the offset east
/// of UTC in minutes.
#[derive(Clone, Copy, PartialEq, Eq, Debug, Structural)]
pub struct Timestamp {
    pub year: u32,
    pub month: u32,
    pub day: u32,
    pub hour: u32,
    pub minute: u32,
    pub second: u32,
    pub offset_minutes: i32,
}

/// Case-insensitive match of one letter.
pub open spec fn letter(c: char, lo: char, up: char) -> bool {
    c == lo || c == up
}

/// The month written by a three-letter English abbreviation, matched without
/// regard to case.
pub open spec fn month_number(c1: char, c2: char, c3: char) -> Option<u32> {
    if letter(c1, 'j', 'J') && letter(c2, 'a', 'A') && letter(c3, 'n', 'N') {
        Some(1u32)
    } else if letter(c1, 'f', 'F') && letter(c2, 'e', 'E') && letter(c3, 'b', 'B') {
        Some(2u32)
    } else if letter(c1, 'm', 'M') && letter(c2, 'a', 'A') && letter(c3, 'r', 'R') {
        Some(3u32)
    } else if letter(c1, 'a', 'A') && letter(c2, 'p', 'P') && letter(c3, 'r', 'R') {
        Some(4u32)
    } else if letter(c1, 'm', 'M') && letter(c2, 'a', 'A') && letter(c3, 'y', 'Y') {
        Some(5u32)
    } else if letter(c1, 'j', 'J') && letter(c2, 'u', 'U') && letter(c3, 'n', 'N') {
        Some(6u32)
    } else if letter(c1, 'j', 'J') && letter(c2, 'u', 'U') && letter(c3, 'l', 'L') {
        Some(7u32)
    } else if letter(c1, 'a', 'A') && letter(c2, 'u', 'U') && letter(c3, 'g', 'G') {
        Some(8u32)
    } else if letter(c1, 's', 'S') && letter(c2, 'e', 'E') && letter(c3, 'p', 'P') {
        Some(9u32)
    } else if letter(c1, 'o', 'O') && letter(c2, 'c', 'C') && letter(c3, 't', 'T') {
        Some(10u32)
    } else if letter(c1, 'n', 'N') && letter(c2, 'o', 'O') && letter(c3, 'v', 'V') {
        Some(11u32)
    } else if letter(c1, 'd', 'D') && letter(c2, 'e', 'E') && letter(c3, 'c', 'C') {
        Some(12u32)
    } else {
        None
    }
}

pub open spec fn is_leap_year(y: u32) -> bool {
    y % 4 == 0 && (y % 100 != 0 || y % 400 == 0)
}

pub open spec fn days_in_month(y: u32, m: u32) -> u32
    recommends 1 <= m <= 12,
{
    if m == 2 {
        if is_leap_year(y) {
            29
        } else {
            28
        }
    } else if m == 4 || m == 6 || m == 9 || m == 11 {
        30
    } else {
        31
    }
}

/// The meaning of the bracketed timestamp field, read left to right:
/// a day of one or two digits, `/`, a three-letter month name, `/`, a
/// four-digit year, `:`, then hour, minute and second of one or two digits
/// each separated by `:`, optional whitespace, and a UTC offset written as a
/// sign, two hour digits, an optional `:`, and two minute digits, ending the
/// field. The calendar fields must name a real date and time of day, and the
/// offset must stay below a day.
pub open spec fn spec_parse_timestamp(t: Seq<char>) -> Option<Timestamp> {
    let d_end = spec_digits_end(t, 0);
    if !(1 <= d_end && d_end <= 2 && d_end < t.len() && t[d_end] == '/') {
        None
    } else if !(d_end + 4 < t.len() && t[d_end + 4] == '/' && month_number(
        t[d_end + 1],
        t[d_end + 2],
        t[d_end + 3],
    ) is Some) {
        None
    } else {
        let month = month_number(t[d_end + 1], t[d_end + 2], t[d_end + 3]).unwrap();
        let y_start = d_end + 5;
        let y_end = spec_digits_end(t, y_start);
        if !(y_end == y_start + 4 && y_end < t.len() && t[y_end] == ':') {
            None
        } else {
            let h_start = y_end + 1;
            let h_end = spec_digits_end(t, h_start);
            if !(h_start + 1 <= h_end && h_end <= h_start + 2 && h_end < t.len() && t[h_end]
                == ':') {
                None
            } else {
                let m_start = h_end + 1;
                let m_end = spec_digits_end(t, m_start);
                if !(m_start + 1 <= m_end && m_end <= m_start + 2 && m_end < t.len() && t[m_end]
                    == ':') {
                    None
                } else {
                    let s_start = m_end + 1;
                    let s_end = spec_digits_end(t, s_start);
                    if !(s_start + 1 <= s_end && s_end <= s_start + 2) {
                        None
                    } else {
                        let day = digits_val(t.subrange(0, d_end));
                        let year = digits_val(t.subrange(y_start, y_end));
                        let hour = digits_val(t.subrange(h_start, h_end));
                        let minute = digits_val(t.subrange(m_start, m_end));
                        let second = digits_val(t.subrange(s_start, s_end));
                        let sp = spec_skip_spaces(t, s_end);
                        if !(sp + 3 <= t.len() && (t[sp] == '+' || t[sp] == '-') && is_digit(
                            t[sp + 1],
                        ) && is_digit(t[sp + 2])) {
                            None
                        } else {
                            let oh = (t[sp + 1] as u32 - 48) * 10 + (t[sp + 2] as u32 - 48);
                            let om_pos = if sp + 3 < t.len() && t[sp + 3] == ':' {
                                sp + 4
                            } else {
                                sp + 3
                            };
                            if !(om_pos + 2 == t.len() && is_digit(t[om_pos]) && is_digit(
                                t[om_pos + 1],
                            )) {
                                None
                            } else {
                                let om = (t[om_pos] as u32 - 48) * 10 + (t[om_pos + 1] as u32
                                    - 48);
                                if !(1 <= day && day <= days_in_month(year as u32, month) && hour
                                    <= 23 && minute <= 59 && second <= 59 && oh <= 23 && om
                                    <= 59) {
                                    None
                                } else {
                                    Some(
                                        Timestamp {
                                            year: year as u32,
                                            month,
                                            day: day as u32,
                                            hour: hour as u32,
                                            minute: minute as u32,
                                            second: second as u32,
                                            offset_minutes: (if t[sp] == '-' {
                                                -(oh * 60 + om)
                                            } else {
                                                oh * 60 + om
                                            }) as i32,
                                        },
                                    )
                                }
                            }
                        }
                    }
                }
            }
        }
    }
}

/// Matches one three-letter month name, without regard to case.
pub fn month_from_chars(c1: char, c2: char, c3: char) -> (r: Option<u32>)
    ensures
        r == month_number(c1, c2, c3),
{
    if (c1 == 'j' || c1 == 'J') && (c2 == 'a' || c2 == 'A') && (c3 == 'n' || c3 == 'N') {
        Some(1)
    } else if (c1 == 'f' || c1 == 'F') && (c2 == 'e' || c2 == 'E') && (c3 == 'b' || c3 == 'B') {
        Some(2)
    } else if (c1 == 'm' || c1 == 'M') && (c2 == 'a' || c2 == 'A') && (c3 == 'r' || c3 == 'R') {
        Some(3)
    } else if (c1 == 'a' || c1 == 'A') && (c2 == 'p' || c2 == 'P') && (c3 == 'r' || c3 == 'R') {
        Some(4)
    } else if (c1 == 'm' || c1 == 'M') && (c2 == 'a' || c2 == 'A') && (c3 == 'y' || c3 == 'Y') {
        Some(5)
    } else if (c1 == 'j' || c1 == 'J') && (c2 == 'u' || c2 == 'U') && (c3 == 'n' || c3 == 'N') {
        Some(6)
    } else if (c1 == 'j' || c1 == 'J') && (c2 == 'u' || c2 == 'U') && (c3 == 'l' || c3 == 'L') {
        Some(7)
    } else if (c1 == 'a' || c1 == 'A') && (c2 == 'u' || c2 == 'U') && (c3 == 'g' || c3 == 'G') {
        Some(8)
    } else if (c1 == 's' || c1 == 'S') && (c2 == 'e' || c2 == 'E') && (c3 == 'p' || c3 == 'P') {
        Some(9)
    } else if (c1 == 'o' || c1 == 'O') && (c2 == 'c' || c2 == 'C') && (c3 == 't' || c3 == 'T') {
        Some(10)
    } else if (c1 == 'n' || c1 == 'N') && (c2 == 'o' || c2 == 'O') && (c3 == 'v' || c3 == 'V') {
        Some(11)
    } else if (c1 == 'd' || c1 == 'D') && (c2 == 'e' || c2 == 'E') && (c3 == 'c' || c3 == 'C') {
        Some(12)
    } else {
        None
    }
}

/// Reads the timestamp field, exactly as `spec_parse_timestamp` states it.
pub fn parse_timestamp(v: &Vec<char>) -> (r: Option<Timestamp>)
    ensures
        r == spec_parse_timestamp(v@),
{
    let n = v.len();
    let d_end = digits_end(v, 0);
    if !(1 <= d_end && d_end <= 2 && d_end < n) {
        return None;
    }
    if v[d_end] != '/' {
        return None;
    }
    if !(d_end + 4 < n) {
        return None;
    }
    if v[d_end + 4] != '/' {
        return None;
    }
    let month = match month_from_chars(v[d_end + 1], v[d_end + 2], v[d_end + 3]) {
        Some(m) => m,
        None => {
            return None;
        },
    };
    let y_start = d_end + 5;
    let y_end = digits_end(v, y_start);
    if !(y_end == y_start + 4 && y_end < n) {
        return None;
    }
    if v[y_end] != ':' {
        return None;
    }
    let h_start = y_end + 1;
    let h_end = digits_end(v, h_start);
    if !(h_start + 1 <= h_end && h_end <= h_start + 2 && h_end < n) {
        return None;
    }
    if v[h_end] != ':' {
        return None;
    }
    let m_start = h_end + 1;
    let m_end = digits_end(v, m_start);
    if !(m_start + 1 <= m_end && m_end <= m_start + 2 && m_end < n) {
        return None;
    }
    if v[m_end] != ':' {
        return None;
    }
    let s_start = m_end + 1;
    let s_end = digits_end(v, s_start);
    if !(s_start + 1 <= s_end && s_end <= s_start + 2) {
        return None;
    }
    let day = digits_value(v, 0, d_end);
    let year = digits_value(v, y_start, y_end);
    let hour = digits_value(v, h_start, h_end);
    let minute = digits_value(v, m_start, m_end);
    let second = digits_value(v, s_start, s_end);
    let sp = skip_spaces(v, s_end);
    if n - sp < 3 {
        return None;
    }
    let neg = v[sp] == '-';
    if !(v[sp] == '+' || neg) {
        return None;
    }
    if !(digit_char(v[sp + 1]) && digit_char(v[sp + 2])) {
        return None;
    }
    let oh = (v[sp + 1] as u32 - 48) * 10 + (v[sp + 2] as u32 - 48);
    let om_pos = if sp + 3 < n && v[sp + 3] == ':' {
        sp + 4
    } else {
        sp + 3
    };
    if n - om_pos != 2 {
        return None;
    }
    if !(digit_char(v[om_pos]) && digit_char(v[om_pos + 1])) {
        return None;
    }
    let om = (v[om_pos] as u32 - 48) * 10 + (v[om_pos + 1] as u32 - 48);
    if !(1 <= day && day <= days_in_month_exec(year, month) && hour <= 23 && minute <= 59 && second
        <= 59 && oh <= 23 && om <= 59) {
        return None;
    }
    let mins = (oh * 60 + om) as i32;
    Some(
        Timestamp {
            year,
            month,
            day,
            hour,
            minute,
            second,
            offset_minutes: if neg {
                -mins
            } else {
                mins
            },
        },
    )
}

/// How many days the month has in that year.
pub fn days_in_month_exec(y: u32, m: u32) -> (r: u32)
    ensures
        r == days_in_month(y, m),
{
    if m == 2 {
        if y % 4 == 0 && (y % 100 != 0 || y % 400 == 0) {
            29
        } else {
            28
        }
    } else if m == 4 || m == 6 || m == 9 || m == 11 {
        30
    } else {
        31
    }
}

} // verus!
