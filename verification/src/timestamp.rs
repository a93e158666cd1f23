//! Verified parser and formatter for the timestamp field.
//!
//! The accepted shape is the canonical UTC instant written by the load
//! balancer: `YYYY-MM-DDTHH:MM:SS.ffffffZ`, with a four-digit year, a
//! six-digit microsecond fraction and a literal `Z` zone.  Parsing validates
//! the calendar (month range, month length, leap years) and the clock
//! ranges; formatting a parsed value reproduces the token exactly.

use vstd::prelude::*;
use vstd::string::StringExecFns;
use crate::chars::digit_char;
use crate::chars::digit_val;
use crate::chars::is_digit_char;

verus! {

/// A UTC instant with microsecond precision, held as plain calendar and
/// clock components.
#[derive(PartialEq, Eq, Structural, Clone, Copy, Debug)]
pub struct Timestamp {
    pub year: u16,
    pub month: u8,
    pub day: u8,
    pub hour: u8,
    pub minute: u8,
    pub second: u8,
    pub micro: u32,
}

/// Gregorian leap-year rule.
pub open spec fn spec_is_leap_year(y: int) -> bool {
    y % 4 == 0 && (y % 100 != 0 || y % 400 == 0)
}

/// Number of days in the given month.
pub open spec fn spec_days_in_month(y: int, m: int) -> int {
    if m == 2 {
        if spec_is_leap_year(y) {
            29
        } else {
            28
        }
    } else if m == 4 || m == 6 || m == 9 || m == 11 {
        30
    } else {
        31
    }
}

/// Do the components name a real instant (with a four-digit year)?
pub open spec fn timestamp_wf(ts: Timestamp) -> bool {
    &&& ts.year <= 9999
    &&& 1 <= ts.month <= 12
    &&& 1 <= ts.day <= spec_days_in_month(ts.year as int, ts.month as int)
    &&& ts.hour <= 23
    &&& ts.minute <= 59
    &&& ts.second <= 59
    &&& ts.micro <= 999999
}

/// Positions 0-3, 5-6, 8-9, 11-12, 14-15, 17-18 and 20-25 hold digits and
/// the separators stand at their fixed places.
pub open spec fn ts_shape_ok(t: Seq<char>) -> bool {
    &&& t.len() == 27
    &&& is_digit_char(t[0]) && is_digit_char(t[1]) && is_digit_char(t[2]) && is_digit_char(t[3])
    &&& t[4] == '-'
    &&& is_digit_char(t[5]) && is_digit_char(t[6])
    &&& t[7] == '-'
    &&& is_digit_char(t[8]) && is_digit_char(t[9])
    &&& t[10] == 'T'
    &&& is_digit_char(t[11]) && is_digit_char(t[12])
    &&& t[13] == ':'
    &&& is_digit_char(t[14]) && is_digit_char(t[15])
    &&& t[16] == ':'
    &&& is_digit_char(t[17]) && is_digit_char(t[18])
    &&& t[19] == '.'
    &&& is_digit_char(t[20]) && is_digit_char(t[21]) && is_digit_char(t[22]) && is_digit_char(t[23])
    &&& is_digit_char(t[24]) && is_digit_char(t[25])
    &&& t[26] == 'Z'
}

/// Value of the two digits at positions `i`, `i + 1`.
pub open spec fn two_digits(t: Seq<char>, i: int) -> int {
    digit_val(t[i]) * 10 + digit_val(t[i + 1])
}

/// The components read off a token of the canonical shape.
pub open spec fn spec_ts_of(t: Seq<char>) -> Timestamp {
    Timestamp {
        year: (digit_val(t[0]) * 1000 + digit_val(t[1]) * 100 + digit_val(t[2]) * 10 + digit_val(
            t[3],
        )) as u16,
        month: two_digits(t, 5) as u8,
        day: two_digits(t, 8) as u8,
        hour: two_digits(t, 11) as u8,
        minute: two_digits(t, 14) as u8,
        second: two_digits(t, 17) as u8,
        micro: (digit_val(t[20]) * 100000 + digit_val(t[21]) * 10000 + digit_val(t[22]) * 1000
            + digit_val(t[23]) * 100 + digit_val(t[24]) * 10 + digit_val(t[25])) as u32,
    }
}

/// What the parser returns for a timestamp field token.
pub open spec fn spec_parse_timestamp(t: Seq<char>) -> Option<Timestamp> {
    if ts_shape_ok(t) && timestamp_wf(spec_ts_of(t)) {
        Some(spec_ts_of(t))
    } else {
        None
    }
}

/// The canonical 27-character text of an instant.
pub open spec fn spec_format_timestamp(ts: Timestamp) -> Seq<char> {
    let y = ts.year as int;
    let mo = ts.month as int;
    let d = ts.day as int;
    let h = ts.hour as int;
    let mi = ts.minute as int;
    let s = ts.second as int;
    let u = ts.micro as int;
    seq![
        digit_char(y / 1000),
        digit_char((y / 100) % 10),
        digit_char((y / 10) % 10),
        digit_char(y % 10),
        '-',
        digit_char(mo / 10),
        digit_char(mo % 10),
        '-',
        digit_char(d / 10),
        digit_char(d % 10),
        'T',
        digit_char(h / 10),
        digit_char(h % 10),
        ':',
        digit_char(mi / 10),
        digit_char(mi % 10),
        ':',
        digit_char(s / 10),
        digit_char(s % 10),
        '.',
        digit_char(u / 100000),
        digit_char((u / 10000) % 10),
        digit_char((u / 1000) % 10),
        digit_char((u / 100) % 10),
        digit_char((u / 10) % 10),
        digit_char(u % 10),
        'Z',
    ]
}

/// Read the digit at position `i`, if one stands there.
fn read_digit(s: &str, i: usize) -> (r: Option<u8>)
    requires
        i < s@.len(),
    ensures
        match r {
            Some(v) => is_digit_char(s@[i as int]) && v == digit_val(s@[i as int]) && v <= 9,
            None => !is_digit_char(s@[i as int]),
        },
{
    let c = s.get_char(i);
    if crate::chars::is_ascii_digit_char(c) {
        Some(crate::chars::digit_value(c))
    } else {
        None
    }
}

/// Executable leap-year rule, equal to [`spec_is_leap_year`].
pub fn is_leap_year(y: u16) -> (r: bool)
    ensures
        r == spec_is_leap_year(y as int),
{
    y % 4 == 0 && (y % 100 != 0 || y % 400 == 0)
}

/// Executable month length, equal to [`spec_days_in_month`].
pub fn days_in_month(y: u16, m: u8) -> (r: u8)
    ensures
        r == spec_days_in_month(y as int, m as int),
{
    if m == 2 {
        if is_leap_year(y) {
            29
        } else {
            28
        }
    } else if m == 4 || m == 6 || m == 9 || m == 11 {
        30
    } else {
        31
    }
}

/// Parse a timestamp token of the canonical shape; `None` on any other.
pub fn parse_timestamp(s: &str) -> (r: Option<Timestamp>)
    ensures
        r == spec_parse_timestamp(s@),
{
    let n = s.unicode_len();
    if n != 27 {
        return None;
    }
    if s.get_char(4) != '-' || s.get_char(7) != '-' || s.get_char(10) != 'T' || s.get_char(13)
        != ':' || s.get_char(16) != ':' || s.get_char(19) != '.' || s.get_char(26) != 'Z' {
        return None;
    }
    let d0 = match read_digit(s, 0) {
        Some(v) => v,
        None => {
            return None;
        },
    };
    let d1 = match read_digit(s, 1) {
        Some(v) => v,
        None => {
            return None;
        },
    };
    let d2 = match read_digit(s, 2) {
        Some(v) => v,
        None => {
            return None;
        },
    };
    let d3 = match read_digit(s, 3) {
        Some(v) => v,
        None => {
            return None;
        },
    };
    let d5 = match read_digit(s, 5) {
        Some(v) => v,
        None => {
            return None;
        },
    };
    let d6 = match read_digit(s, 6) {
        Some(v) => v,
        None => {
            return None;
        },
    };
    let d8 = match read_digit(s, 8) {
        Some(v) => v,
        None => {
            return None;
        },
    };
    let d9 = match read_digit(s, 9) {
        Some(v) => v,
        None => {
            return None;
        },
    };
    let d11 = match read_digit(s, 11) {
        Some(v) => v,
        None => {
            return None;
        },
    };
    let d12 = match read_digit(s, 12) {
        Some(v) => v,
        None => {
            return None;
        },
    };
    let d14 = match read_digit(s, 14) {
        Some(v) => v,
        None => {
            return None;
        },
    };
    let d15 = match read_digit(s, 15) {
        Some(v) => v,
        None => {
            return None;
        },
    };
    let d17 = match read_digit(s, 17) {
        Some(v) => v,
        None => {
            return None;
        },
    };
    let d18 = match read_digit(s, 18) {
        Some(v) => v,
        None => {
            return None;
        },
    };
    let d20 = match read_digit(s, 20) {
        Some(v) => v,
        None => {
            return None;
        },
    };
    let d21 = match read_digit(s, 21) {
        Some(v) => v,
        None => {
            return None;
        },
    };
    let d22 = match read_digit(s, 22) {
        Some(v) => v,
        None => {
            return None;
        },
    };
    let d23 = match read_digit(s, 23) {
        Some(v) => v,
        None => {
            return None;
        },
    };
    let d24 = match read_digit(s, 24) {
        Some(v) => v,
        None => {
            return None;
        },
    };
    let d25 = match read_digit(s, 25) {
        Some(v) => v,
        None => {
            return None;
        },
    };
    let year: u16 = (d0 as u16) * 1000 + (d1 as u16) * 100 + (d2 as u16) * 10 + (d3 as u16);
    let month: u8 = d5 * 10 + d6;
    let day: u8 = d8 * 10 + d9;
    let hour: u8 = d11 * 10 + d12;
    let minute: u8 = d14 * 10 + d15;
    let second: u8 = d17 * 10 + d18;
    let micro: u32 = (d20 as u32) * 100000 + (d21 as u32) * 10000 + (d22 as u32) * 1000 + (
    d23 as u32) * 100 + (d24 as u32) * 10 + (d25 as u32);
    let ts = Timestamp { year, month, day, hour, minute, second, micro };
    proof {
        assert(ts_shape_ok(s@));
        assert(ts == spec_ts_of(s@));
    }
    if month < 1 || month > 12 {
        return None;
    }
    if day < 1 || day > days_in_month(year, month) {
        return None;
    }
    if hour > 23 || minute > 59 || second > 59 {
        return None;
    }
    Some(ts)
}

impl Timestamp {
    /// The canonical text of this instant, `YYYY-MM-DDTHH:MM:SS.ffffffZ`.
    pub fn to_text(&self) -> (r: String)
        requires
            timestamp_wf(*self),
        ensures
            r@ == spec_format_timestamp(*self),
    {
        let mut out = String::new();
        out.append(crate::chars::digit_str((self.year / 1000) as u8));
        out.append(crate::chars::digit_str(((self.year / 100) % 10) as u8));
        out.append(crate::chars::digit_str(((self.year / 10) % 10) as u8));
        out.append(crate::chars::digit_str((self.year % 10) as u8));
        out.append("-");
        out.append(crate::chars::digit_str(self.month / 10));
        out.append(crate::chars::digit_str(self.month % 10));
        out.append("-");
        out.append(crate::chars::digit_str(self.day / 10));
        out.append(crate::chars::digit_str(self.day % 10));
        out.append("T");
        out.append(crate::chars::digit_str(self.hour / 10));
        out.append(crate::chars::digit_str(self.hour % 10));
        out.append(":");
        out.append(crate::chars::digit_str(self.minute / 10));
        out.append(crate::chars::digit_str(self.minute % 10));
        out.append(":");
        out.append(crate::chars::digit_str(self.second / 10));
        out.append(crate::chars::digit_str(self.second % 10));
        out.append(".");
        out.append(crate::chars::digit_str((self.micro / 100000) as u8));
        out.append(crate::chars::digit_str(((self.micro / 10000) % 10) as u8));
        out.append(crate::chars::digit_str(((self.micro / 1000) % 10) as u8));
        out.append(crate::chars::digit_str(((self.micro / 100) % 10) as u8));
        out.append(crate::chars::digit_str(((self.micro / 10) % 10) as u8));
        out.append(crate::chars::digit_str((self.micro % 10) as u8));
        out.append("Z");
        proof {
            reveal_strlit("-");
            reveal_strlit("T");
            reveal_strlit(":");
            reveal_strlit(".");
            reveal_strlit("Z");
            assert(out@ =~= spec_format_timestamp(*self));
        }
        out
    }
}

/// Formatting recovers each digit of a two-digit group.
proof fn lemma_two_digit_split(a: int, b: int)
    requires
        0 <= a <= 9,
        0 <= b <= 9,
    ensures
        (a * 10 + b) / 10 == a,
        (a * 10 + b) % 10 == b,
{
}

/// Formatting recovers each digit of the four-digit year.
proof fn lemma_four_digit_split(a: int, b: int, c: int, d: int)
    requires
        0 <= a <= 9,
        0 <= b <= 9,
        0 <= c <= 9,
        0 <= d <= 9,
    ensures
        (a * 1000 + b * 100 + c * 10 + d) / 1000 == a,
        ((a * 1000 + b * 100 + c * 10 + d) / 100) % 10 == b,
        ((a * 1000 + b * 100 + c * 10 + d) / 10) % 10 == c,
        (a * 1000 + b * 100 + c * 10 + d) % 10 == d,
{
    let v = a * 1000 + b * 100 + c * 10 + d;
    assert(v / 1000 == a && (v / 100) % 10 == b && (v / 10) % 10 == c && v % 10 == d)
        by (nonlinear_arith)
        requires
            0 <= a <= 9 && 0 <= b <= 9 && 0 <= c <= 9 && 0 <= d <= 9 && v == a * 1000 + b * 100 + c
                * 10 + d,
    ;
}

/// Formatting recovers each digit of the six-digit fraction.
proof fn lemma_six_digit_split(a: int, b: int, c: int, d: int, e: int, f: int)
    requires
        0 <= a <= 9,
        0 <= b <= 9,
        0 <= c <= 9,
        0 <= d <= 9,
        0 <= e <= 9,
        0 <= f <= 9,
    ensures
        (a * 100000 + b * 10000 + c * 1000 + d * 100 + e * 10 + f) / 100000 == a,
        ((a * 100000 + b * 10000 + c * 1000 + d * 100 + e * 10 + f) / 10000) % 10 == b,
        ((a * 100000 + b * 10000 + c * 1000 + d * 100 + e * 10 + f) / 1000) % 10 == c,
        ((a * 100000 + b * 10000 + c * 1000 + d * 100 + e * 10 + f) / 100) % 10 == d,
        ((a * 100000 + b * 10000 + c * 1000 + d * 100 + e * 10 + f) / 10) % 10 == e,
        (a * 100000 + b * 10000 + c * 1000 + d * 100 + e * 10 + f) % 10 == f,
{
    let v = a * 100000 + b * 10000 + c * 1000 + d * 100 + e * 10 + f;
    assert(v / 100000 == a && (v / 10000) % 10 == b && (v / 1000) % 10 == c && (v / 100) % 10 == d
        && (v / 10) % 10 == e && v % 10 == f)
        by (nonlinear_arith)
        requires
            0 <= a <= 9 && 0 <= b <= 9 && 0 <= c <= 9 && 0 <= d <= 9 && 0 <= e <= 9 && 0 <= f <= 9
                && v == a * 100000 + b * 10000 + c * 1000 + d * 100 + e * 10 + f,
    ;
}

/// Formatting a parsed timestamp token reproduces the token exactly.
pub proof fn lemma_timestamp_round_trip(t: Seq<char>)
    requires
        spec_parse_timestamp(t) is Some,
    ensures
        spec_format_timestamp(spec_parse_timestamp(t)->Some_0) == t,
{
    let ts = spec_ts_of(t);
    crate::chars::lemma_digit_char_val(t[0]);
    crate::chars::lemma_digit_char_val(t[1]);
    crate::chars::lemma_digit_char_val(t[2]);
    crate::chars::lemma_digit_char_val(t[3]);
    crate::chars::lemma_digit_char_val(t[5]);
    crate::chars::lemma_digit_char_val(t[6]);
    crate::chars::lemma_digit_char_val(t[8]);
    crate::chars::lemma_digit_char_val(t[9]);
    crate::chars::lemma_digit_char_val(t[11]);
    crate::chars::lemma_digit_char_val(t[12]);
    crate::chars::lemma_digit_char_val(t[14]);
    crate::chars::lemma_digit_char_val(t[15]);
    crate::chars::lemma_digit_char_val(t[17]);
    crate::chars::lemma_digit_char_val(t[18]);
    crate::chars::lemma_digit_char_val(t[20]);
    crate::chars::lemma_digit_char_val(t[21]);
    crate::chars::lemma_digit_char_val(t[22]);
    crate::chars::lemma_digit_char_val(t[23]);
    crate::chars::lemma_digit_char_val(t[24]);
    crate::chars::lemma_digit_char_val(t[25]);
    lemma_four_digit_split(digit_val(t[0]), digit_val(t[1]), digit_val(t[2]), digit_val(t[3]));
    lemma_two_digit_split(digit_val(t[5]), digit_val(t[6]));
    lemma_two_digit_split(digit_val(t[8]), digit_val(t[9]));
    lemma_two_digit_split(digit_val(t[11]), digit_val(t[12]));
    lemma_two_digit_split(digit_val(t[14]), digit_val(t[15]));
    lemma_two_digit_split(digit_val(t[17]), digit_val(t[18]));
    lemma_six_digit_split(
        digit_val(t[20]),
        digit_val(t[21]),
        digit_val(t[22]),
        digit_val(t[23]),
        digit_val(t[24]),
        digit_val(t[25]),
    );
    assert(spec_format_timestamp(ts) =~= t);
}

} // verus!
