//! Calendar dates.
//!
//! A book's publication date is held as plain year, month and day fields,
//! restricted to the proleptic Gregorian calendar with four-digit years
//! (0000 through 9999). The wire form is the ISO-8601 calendar date
//! `YYYY-MM-DD`; formatting and parsing are verified inverses of each other
//! on every valid date.

use vstd::prelude::*;

verus! {

/// A calendar date, as plain numbers.
#[derive(Clone, Copy, PartialEq, Eq, Structural, Debug)]
pub struct Date {
    pub year: u16,
    pub month: u8,
    pub day: u8,
}

/// Whether `y` is a leap year in the Gregorian calendar.
pub open spec fn spec_is_leap_year(y: int) -> bool {
    y % 4 == 0 && (y % 100 != 0 || y % 400 == 0)
}

/// The number of days in month `m` of year `y`.
pub open spec fn spec_days_in_month(y: int, m: int) -> int {
    if m == 2 {
        if spec_is_leap_year(y) {
            29
        } else {
            28
        }
    } else if m == 4 || m == 6 || m == 9 || m == 11 {
        30
    } else {
        31
    }
}

/// A well-formed date: a four-digit year, a real month, a day that exists
/// in that month of that year.
pub open spec fn date_valid(d: Date) -> bool {
    &&& d.year <= 9999
    &&& 1 <= d.month <= 12
    &&& 1 <= d.day <= spec_days_in_month(d.year as int, d.month as int)
}

/// The digit character for a value between 0 and 9.
pub open spec fn digit_char(n: int) -> char {
    ((48 + n) as u8) as char
}

/// The numeric value of a digit character, counting from `'0'`.
pub open spec fn digit_val(c: char) -> int {
    c as int - 48
}

/// Whether `c` is a decimal digit.
pub open spec fn is_digit(c: char) -> bool {
    48 <= c as int <= 57
}

/// The ISO-8601 text of a date: `YYYY-MM-DD`, all parts zero-padded.
pub open spec fn spec_date_str(d: Date) -> Seq<char> {
    seq![
        digit_char(d.year as int / 1000),
        digit_char((d.year as int / 100) % 10),
        digit_char((d.year as int / 10) % 10),
        digit_char(d.year as int % 10),
        '-',
        digit_char(d.month as int / 10),
        digit_char(d.month as int % 10),
        '-',
        digit_char(d.day as int / 10),
        digit_char(d.day as int % 10),
    ]
}

/// The date a ten-character ISO-8601 text denotes, if it is well-formed
/// and denotes a valid date.
pub open spec fn spec_parse_date(s: Seq<char>) -> Option<Date> {
    if s.len() == 10 && is_digit(s[0]) && is_digit(s[1]) && is_digit(s[2]) && is_digit(s[3])
        && s[4] == '-' && is_digit(s[5]) && is_digit(s[6]) && s[7] == '-' && is_digit(s[8])
        && is_digit(s[9]) {
        let y = digit_val(s[0]) * 1000 + digit_val(s[1]) * 100 + digit_val(s[2]) * 10
            + digit_val(s[3]);
        let m = digit_val(s[5]) * 10 + digit_val(s[6]);
        let dy = digit_val(s[8]) * 10 + digit_val(s[9]);
        let d = Date { year: y as u16, month: m as u8, day: dy as u8 };
        if date_valid(d) {
            Some(d)
        } else {
            None
        }
    } else {
        None
    }
}

/// Whether `d.year` is a leap year.
pub fn is_leap_year(d: &Date) -> (r: bool)
    ensures
        r == spec_is_leap_year(d.year as int),
{
    d.year % 4 == 0 && (d.year % 100 != 0 || d.year % 400 == 0)
}

/// Whether `d` is a well-formed calendar date.
pub fn check_date(d: &Date) -> (r: bool)
    ensures
        r == date_valid(*d),
{
    if d.year > 9999 {
        return false;
    }
    let months: bool = 1 <= d.month && d.month <= 12;
    if !months {
        return false;
    }
    let dim: u8 = if d.month == 2 {
        if is_leap_year(d) {
            29
        } else {
            28
        }
    } else if d.month == 4 || d.month == 6 || d.month == 9 || d.month == 11 {
        30
    } else {
        31
    };
    1 <= d.day && d.day <= dim
}

/// Push the two decimal digits of `v` (at most 99) onto `out`.
fn push_two_digits(out: &mut Vec<char>, v: u16)
    requires
        v <= 99,
    ensures
        final(out)@ == old(out)@ + seq![digit_char(v as int / 10), digit_char(v as int % 10)],
{
    out.push((48 + (v / 10) as u8) as char);
    out.push((48 + (v % 10) as u8) as char);
    proof {
        assert(out@ =~= old(out)@ + seq![digit_char(v as int / 10), digit_char(v as int % 10)]);
    }
}

/// Append the ISO-8601 text of `d` to `out`.
pub fn push_date(out: &mut Vec<char>, d: &Date)
    requires
        date_valid(*d),
    ensures
        final(out)@ == old(out)@ + spec_date_str(*d),
{
    push_two_digits(out, d.year / 100);
    push_two_digits(out, d.year % 100);
    out.push('-');
    push_two_digits(out, d.month as u16);
    out.push('-');
    push_two_digits(out, d.day as u16);
    proof {
        assert(d.year as int / 100 / 10 == d.year as int / 1000) by (nonlinear_arith)
            requires
                d.year <= 9999,
        ;
        assert(d.year as int % 100 / 10 == d.year as int / 10 % 10) by (nonlinear_arith)
            requires
                d.year <= 9999,
        ;
        assert(d.year as int % 100 % 10 == d.year as int % 10) by (nonlinear_arith)
            requires
                d.year <= 9999,
        ;
        assert(out@ =~= old(out)@ + spec_date_str(*d));
    }
}

/// The ISO-8601 text of `d` as a fresh string.
pub fn format_date(d: &Date) -> (r: String)
    requires
        date_valid(*d),
    ensures
        r@ == spec_date_str(*d),
{
    let mut out: Vec<char> = Vec::new();
    push_date(&mut out, d);
    crate::strutil::chars_to_string(&out)
}

/// Parse a ten-character ISO-8601 date held in `s`.
pub fn parse_date(s: &Vec<char>) -> (r: Option<Date>)
    ensures
        r == spec_parse_date(s@),
{
    if s.len() != 10 {
        return None;
    }
    let mut i: usize = 0;
    while i < 10
        invariant
            i <= 10,
            s@.len() == 10,
            forall|j: int| 0 <= j < i && j != 4 && j != 7 ==> is_digit(s@[j]),
            forall|j: int| 0 <= j < i && (j == 4 || j == 7) ==> s@[j] == '-',
        decreases 10 - i,
    {
        let c = s[i];
        if i == 4 || i == 7 {
            if c != '-' {
                return None;
            }
        } else {
            if !('0' <= c && c <= '9') {
                return None;
            }
        }
        i = i + 1;
    }
    let y: u32 = dv(s[0]) * 1000 + dv(s[1]) * 100 + dv(s[2]) * 10 + dv(s[3]);
    let m: u32 = dv(s[5]) * 10 + dv(s[6]);
    let dy: u32 = dv(s[8]) * 10 + dv(s[9]);
    let d = Date { year: y as u16, month: m as u8, day: dy as u8 };
    if check_date(&d) {
        Some(d)
    } else {
        None
    }
}

/// The numeric value of a digit character.
fn dv(c: char) -> (r: u32)
    requires
        is_digit(c),
    ensures
        r == digit_val(c),
{
    (c as u32) - 48
}

/// Formatting a valid date and parsing the text back yields the same date.
pub proof fn lemma_date_round_trip(d: Date)
    requires
        date_valid(d),
    ensures
        spec_parse_date(spec_date_str(d)) == Some(d),
{
    let s = spec_date_str(d);
    assert forall|n: int| 0 <= n <= 9 implies is_digit(digit_char(n)) && digit_val(digit_char(n))
        == n by {
        assert((48 + n) as u8 as char as int == 48 + n);
    }
    assert(d.year as int / 1000 <= 9) by (nonlinear_arith)
        requires
            d.year <= 9999,
    ;
    assert(0 <= d.year as int / 1000);
    assert(0 <= (d.year as int / 100) % 10 <= 9);
    assert(0 <= (d.year as int / 10) % 10 <= 9);
    assert(0 <= d.year as int % 10 <= 9);
    assert(0 <= d.month as int / 10 <= 9);
    assert(0 <= d.month as int % 10 <= 9);
    assert(0 <= d.day as int / 10 <= 9);
    assert(0 <= d.day as int % 10 <= 9);
    assert(s[4] == '-' && s[7] == '-');
    assert(('-' as int) < 48 || ('-' as int) > 57) by {
        assert('-' as int == 45);
    }
    let y = digit_val(s[0]) * 1000 + digit_val(s[1]) * 100 + digit_val(s[2]) * 10 + digit_val(
        s[3],
    );
    assert(y == (d.year as int / 1000) * 1000 + ((d.year as int / 100) % 10) * 100 + ((d.year
        as int / 10) % 10) * 10 + d.year as int % 10);
    assert(y == d.year as int) by (nonlinear_arith)
        requires
            y == (d.year as int / 1000) * 1000 + ((d.year as int / 100) % 10) * 100 + ((d.year
                as int / 10) % 10) * 10 + d.year as int % 10,
            d.year <= 9999,
    ;
    let m = digit_val(s[5]) * 10 + digit_val(s[6]);
    assert(m == d.month as int) by (nonlinear_arith)
        requires
            m == (d.month as int / 10) * 10 + d.month as int % 10,
    ;
    let dy = digit_val(s[8]) * 10 + digit_val(s[9]);
    assert(dy == d.day as int) by (nonlinear_arith)
        requires
            dy == (d.day as int / 10) * 10 + d.day as int % 10,
    ;
}

} // verus!
