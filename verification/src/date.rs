//! Calendar dates in the `dd.mm.yyyy` shape the statements use.

use vstd::prelude::*;
use crate::error::ReportError;
use crate::text::{
    chars_of, digit_val, digit_val_c, is_digit, is_digit_c, string_from_chars, trim_chars,
    trim_spec,
};

verus! {

/// A calendar date.  A well-formed value (`wf`) is a real date of the
/// Gregorian calendar with a four-digit year.
#[derive(Debug, Clone, Copy, PartialEq, Eq, Structural)]
pub struct Date {
    /// Four-digit year.
    pub year: u32,
    /// Month, `1` to `12`.
    pub month: u8,
    /// Day of month, starting at `1`.
    pub day: u8,
}

/// Gregorian leap years.
pub open spec fn is_leap_year(y: int) -> bool {
    y % 4 == 0 && (y % 100 != 0 || y % 400 == 0)
}

/// Number of days of month `m` of year `y`.
pub open spec fn days_in_month(y: int, m: int) -> int {
    if m == 2 {
        if is_leap_year(y) {
            29
        } else {
            28
        }
    } else if m == 4 || m == 6 || m == 9 || m == 11 {
        30
    } else {
        31
    }
}

impl Date {
    /// A real calendar date with a four-digit year.
    pub open spec fn wf(self) -> bool {
        self.year <= 9999 && 1 <= self.month <= 12 && 1 <= self.day
            && self.day as int <= days_in_month(self.year as int, self.month as int)
    }

    /// Chronological order on dates, as a spec.
    pub open spec fn le_spec(self, other: Date) -> bool {
        self.year < other.year || (self.year == other.year && (self.month < other.month || (
        self.month == other.month && self.day <= other.day)))
    }

    /// Chronological comparison: `self` is on or before `other`.
    pub fn le(self, other: Date) -> (r: bool)
        ensures
            r == self.le_spec(other),
    {
        self.year < other.year || (self.year == other.year && (self.month < other.month || (
        self.month == other.month && self.day <= other.day)))
    }
}

/// The ten-character shape `dd.mm.yyyy`.
pub open spec fn date_shape(s: Seq<char>) -> bool {
    s.len() == 10 && is_digit_c(s[0]) && is_digit_c(s[1]) && s[2] == '.' && is_digit_c(s[3])
        && is_digit_c(s[4]) && s[5] == '.' && is_digit_c(s[6]) && is_digit_c(s[7]) && is_digit_c(
        s[8],
    ) && is_digit_c(s[9])
}

/// The date a `dd.mm.yyyy` text denotes, or `None` when the text has the
/// wrong shape or is no real calendar date.
pub open spec fn date_of(s: Seq<char>) -> Option<Date> {
    if date_shape(s) {
        let d = 10 * digit_val_c(s[0]) + digit_val_c(s[1]);
        let m = 10 * digit_val_c(s[3]) + digit_val_c(s[4]);
        let y = 1000 * digit_val_c(s[6]) + 100 * digit_val_c(s[7]) + 10 * digit_val_c(s[8])
            + digit_val_c(s[9]);
        if 1 <= m <= 12 && 1 <= d <= days_in_month(y, m) {
            Some(Date { year: y as u32, month: m as u8, day: d as u8 })
        } else {
            None
        }
    } else {
        None
    }
}

/// A date produced by parsing is well formed.
pub proof fn lemma_date_of_wf(s: Seq<char>)
    requires
        date_of(s) is Some,
    ensures
        date_of(s).unwrap().wf(),
{
}

/// Parses a `dd.mm.yyyy` date: exactly two day digits, two month digits,
/// four year digits, denoting a real calendar date.  The input is trimmed
/// first; any other shape is an error carrying the trimmed text.
pub fn parse_date(value: &str) -> (r: Result<Date, ReportError>)
    ensures
        match date_of(trim_spec(value@)) {
            Some(d) => r matches Ok(x) && x == d && d.wf(),
            None => r matches Err(e) && (e matches ReportError::Date { value: t } && t@
                == trim_spec(value@)),
        },
{
    let v = chars_of(value);
    let t = trim_chars(&v);
    if t.len() == 10 && is_digit(t[0]) && is_digit(t[1]) && t[2] == '.' && is_digit(t[3])
        && is_digit(t[4]) && t[5] == '.' && is_digit(t[6]) && is_digit(t[7]) && is_digit(t[8])
        && is_digit(t[9]) {
        let d: u32 = 10 * digit_val(t[0]) + digit_val(t[1]);
        let m: u32 = 10 * digit_val(t[3]) + digit_val(t[4]);
        let y: u32 = 1000 * digit_val(t[6]) + 100 * digit_val(t[7]) + 10 * digit_val(t[8])
            + digit_val(t[9]);
        let dim: u32 = if m == 2 {
            if (y % 4 == 0 && (y % 100 != 0 || y % 400 == 0)) {
                29
            } else {
                28
            }
        } else if m == 4 || m == 6 || m == 9 || m == 11 {
            30
        } else {
            31
        };
        if 1 <= m && m <= 12 && 1 <= d && d <= dim {
            return Ok(Date { year: y, month: m as u8, day: d as u8 });
        }
        let ts = string_from_chars(&t);
        return Err(ReportError::Date { value: ts });
    }
    let ts = string_from_chars(&t);
    Err(ReportError::Date { value: ts })
}

/// The digit character for a value below ten.
pub open spec fn char_of_digit(v: int) -> char {
    if v == 0 {
        '0'
    } else if v == 1 {
        '1'
    } else if v == 2 {
        '2'
    } else if v == 3 {
        '3'
    } else if v == 4 {
        '4'
    } else if v == 5 {
        '5'
    } else if v == 6 {
        '6'
    } else if v == 7 {
        '7'
    } else if v == 8 {
        '8'
    } else {
        '9'
    }
}

/// The digit character for a value below ten.
pub fn digit_char(v: u32) -> (r: char)
    requires
        v <= 9,
    ensures
        r == char_of_digit(v as int),
{
    if v == 0 {
        '0'
    } else if v == 1 {
        '1'
    } else if v == 2 {
        '2'
    } else if v == 3 {
        '3'
    } else if v == 4 {
        '4'
    } else if v == 5 {
        '5'
    } else if v == 6 {
        '6'
    } else if v == 7 {
        '7'
    } else if v == 8 {
        '8'
    } else {
        '9'
    }
}

/// A date written back in the `dd.mm.yyyy` shape, zero-padded.
pub open spec fn format_date_spec(d: Date) -> Seq<char> {
    seq![
        char_of_digit(d.day as int / 10),
        char_of_digit(d.day as int % 10),
        '.',
        char_of_digit(d.month as int / 10),
        char_of_digit(d.month as int % 10),
        '.',
        char_of_digit(d.year as int / 1000),
        char_of_digit((d.year as int / 100) % 10),
        char_of_digit((d.year as int / 10) % 10),
        char_of_digit(d.year as int % 10),
    ]
}

/// Writes a date as `dd.mm.yyyy`, zero-padded.
pub fn format_date(d: &Date) -> (r: String)
    requires
        d.wf(),
    ensures
        r@ == format_date_spec(*d),
{
    let mut v: Vec<char> = Vec::new();
    v.push(digit_char((d.day as u32) / 10));
    v.push(digit_char((d.day as u32) % 10));
    v.push('.');
    v.push(digit_char((d.month as u32) / 10));
    v.push(digit_char((d.month as u32) % 10));
    v.push('.');
    v.push(digit_char(d.year / 1000));
    v.push(digit_char((d.year / 100) % 10));
    v.push(digit_char((d.year / 10) % 10));
    v.push(digit_char(d.year % 10));
    proof {
        assert(v@ =~= format_date_spec(*d));
    }
    string_from_chars(&v)
}

/// Law: parsing a valid `dd.mm.yyyy` text and formatting the result gives
/// back the very same digits.
pub proof fn lemma_date_roundtrip(s: Seq<char>)
    requires
        date_of(s) is Some,
    ensures
        format_date_spec(date_of(s).unwrap()) == s,
{
    let d = date_of(s).unwrap();
    let dv = 10 * digit_val_c(s[0]) + digit_val_c(s[1]);
    let mv = 10 * digit_val_c(s[3]) + digit_val_c(s[4]);
    let yv = 1000 * digit_val_c(s[6]) + 100 * digit_val_c(s[7]) + 10 * digit_val_c(s[8])
        + digit_val_c(s[9]);
    assert(dv / 10 == digit_val_c(s[0]) && dv % 10 == digit_val_c(s[1])) by (nonlinear_arith)
        requires
            dv == 10 * digit_val_c(s[0]) + digit_val_c(s[1]),
            0 <= digit_val_c(s[0]) <= 9,
            0 <= digit_val_c(s[1]) <= 9,
    ;
    assert(mv / 10 == digit_val_c(s[3]) && mv % 10 == digit_val_c(s[4])) by (nonlinear_arith)
        requires
            mv == 10 * digit_val_c(s[3]) + digit_val_c(s[4]),
            0 <= digit_val_c(s[3]) <= 9,
            0 <= digit_val_c(s[4]) <= 9,
    ;
    assert(yv / 1000 == digit_val_c(s[6]) && (yv / 100) % 10 == digit_val_c(s[7]) && (yv / 10)
        % 10 == digit_val_c(s[8]) && yv % 10 == digit_val_c(s[9])) by (nonlinear_arith)
        requires
            yv == 1000 * digit_val_c(s[6]) + 100 * digit_val_c(s[7]) + 10 * digit_val_c(s[8])
                + digit_val_c(s[9]),
            0 <= digit_val_c(s[6]) <= 9,
            0 <= digit_val_c(s[7]) <= 9,
            0 <= digit_val_c(s[8]) <= 9,
            0 <= digit_val_c(s[9]) <= 9,
    ;
    assert(forall|c: char| is_digit_c(c) ==> char_of_digit(digit_val_c(c)) == c);
    assert(format_date_spec(d) =~= s);
}

} // verus!
