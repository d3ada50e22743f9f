//! Calendar timestamps as plain values.
//!
//! Creation times are held as their broken-down components and written
//! in the item header as `YYYY-MM-DDTHH:MM:SSZ`. The surrounding
//! application converts between this representation and whatever clock
//! library it uses.

use vstd::prelude::*;
use crate::text::push_char;
use crate::error::Error;

verus! {

/// A calendar timestamp in UTC, second precision.
#[derive(Debug, Clone, Copy, PartialEq, Eq, Structural)]
pub struct Timestamp {
    pub year: u32,
    pub month: u32,
    pub day: u32,
    pub hour: u32,
    pub minute: u32,
    pub second: u32,
}

impl Timestamp {
    /// Component ranges of a representable timestamp.
    pub open spec fn wf(self) -> bool {
        self.year <= 9999 && 1 <= self.month <= 12 && 1 <= self.day <= 31
            && self.hour <= 23 && self.minute <= 59 && self.second <= 59
    }

    /// Executable check of `wf`.
    pub fn is_wf(&self) -> (r: bool)
        ensures
            r == self.wf(),
    {
        self.year <= 9999 && 1 <= self.month && self.month <= 12 && 1 <= self.day
            && self.day <= 31 && self.hour <= 23 && self.minute <= 59 && self.second <= 59
    }
}

/// Chronological order: lexicographic on the components.
pub open spec fn ts_le(a: Timestamp, b: Timestamp) -> bool {
    if a.year != b.year {
        a.year < b.year
    } else if a.month != b.month {
        a.month < b.month
    } else if a.day != b.day {
        a.day < b.day
    } else if a.hour != b.hour {
        a.hour < b.hour
    } else if a.minute != b.minute {
        a.minute < b.minute
    } else {
        a.second <= b.second
    }
}

/// Executable chronological comparison.
pub fn ts_le_exec(a: &Timestamp, b: &Timestamp) -> (r: bool)
    ensures
        r == ts_le(*a, *b),
{
    if a.year != b.year {
        a.year < b.year
    } else if a.month != b.month {
        a.month < b.month
    } else if a.day != b.day {
        a.day < b.day
    } else if a.hour != b.hour {
        a.hour < b.hour
    } else if a.minute != b.minute {
        a.minute < b.minute
    } else {
        a.second <= b.second
    }
}

/// The decimal digit character for a value in 0..=9.
pub open spec fn digit_char(d: int) -> char {
    if d == 0 { '0' }
    else if d == 1 { '1' }
    else if d == 2 { '2' }
    else if d == 3 { '3' }
    else if d == 4 { '4' }
    else if d == 5 { '5' }
    else if d == 6 { '6' }
    else if d == 7 { '7' }
    else if d == 8 { '8' }
    else { '9' }
}

/// Executable digit formatting.
pub fn digit_to_char(d: u32) -> (c: char)
    requires
        d <= 9,
    ensures
        c == digit_char(d as int),
{
    match d {
        0 => '0',
        1 => '1',
        2 => '2',
        3 => '3',
        4 => '4',
        5 => '5',
        6 => '6',
        7 => '7',
        8 => '8',
        _ => '9',
    }
}

/// Whether `c` is a decimal digit.
pub open spec fn is_digit(c: char) -> bool {
    '0' <= c && c <= '9'
}

/// Numeric value of a digit character.
pub open spec fn digit_val(c: char) -> int {
    (c as int) - 48
}

/// Executable digit recognition; yields the value, or 10 for a
/// non-digit.
pub fn char_digit_val(c: char) -> (r: u32)
    ensures
        is_digit(c) ==> r == digit_val(c),
        !is_digit(c) ==> r == 10,
        r <= 10,
{
    match c {
        '0' => 0,
        '1' => 1,
        '2' => 2,
        '3' => 3,
        '4' => 4,
        '5' => 5,
        '6' => 6,
        '7' => 7,
        '8' => 8,
        '9' => 9,
        _ => 10,
    }
}

/// Two-digit zero-padded decimal text of a value in 0..=99.
pub open spec fn two_digits(v: int) -> Seq<char> {
    seq![digit_char(v / 10), digit_char(v % 10)]
}

/// Four-digit zero-padded decimal text of a value in 0..=9999.
pub open spec fn four_digits(v: int) -> Seq<char> {
    seq![
        digit_char(v / 1000),
        digit_char((v / 100) % 10),
        digit_char((v / 10) % 10),
        digit_char(v % 10),
    ]
}

/// Appends the two-digit text of `v`.
pub fn push_two_digits(out: &mut String, v: u32)
    requires
        v <= 99,
    ensures
        final(out)@ == old(out)@ + two_digits(v as int),
{
    push_char(out, digit_to_char(v / 10));
    push_char(out, digit_to_char(v % 10));
    assert(final(out)@ =~= old(out)@ + two_digits(v as int));
}

/// Appends the four-digit text of `v`.
pub fn push_four_digits(out: &mut String, v: u32)
    requires
        v <= 9999,
    ensures
        final(out)@ == old(out)@ + four_digits(v as int),
{
    push_char(out, digit_to_char(v / 1000));
    push_char(out, digit_to_char((v / 100) % 10));
    push_char(out, digit_to_char((v / 10) % 10));
    push_char(out, digit_to_char(v % 10));
    assert(final(out)@ =~= old(out)@ + four_digits(v as int));
}

/// The header text of a timestamp: `YYYY-MM-DDTHH:MM:SSZ`.
pub open spec fn ts_text(t: Timestamp) -> Seq<char> {
    four_digits(t.year as int) + seq!['-'] + two_digits(t.month as int) + seq!['-']
        + two_digits(t.day as int) + seq!['T'] + two_digits(t.hour as int) + seq![':']
        + two_digits(t.minute as int) + seq![':'] + two_digits(t.second as int) + seq!['Z']
}

/// Formats a timestamp for the item header.
pub fn format_timestamp(t: &Timestamp) -> (r: String)
    requires
        t.wf(),
    ensures
        r@ == ts_text(*t),
{
    let mut r = String::new();
    push_four_digits(&mut r, t.year);
    push_char(&mut r, '-');
    push_two_digits(&mut r, t.month);
    push_char(&mut r, '-');
    push_two_digits(&mut r, t.day);
    push_char(&mut r, 'T');
    push_two_digits(&mut r, t.hour);
    push_char(&mut r, ':');
    push_two_digits(&mut r, t.minute);
    push_char(&mut r, ':');
    push_two_digits(&mut r, t.second);
    push_char(&mut r, 'Z');
    assert(r@ =~= ts_text(*t));
    r
}

/// Value of two digit characters.
pub open spec fn two_digit_val(s: Seq<char>, at: int) -> int {
    10 * digit_val(s[at]) + digit_val(s[at + 1])
}

/// Value of four digit characters.
pub open spec fn four_digit_val(s: Seq<char>, at: int) -> int {
    1000 * digit_val(s[at]) + 100 * digit_val(s[at + 1]) + 10 * digit_val(s[at + 2])
        + digit_val(s[at + 3])
}

/// Whether `s` has the shape `YYYY-MM-DDTHH:MM:SSZ`.
pub open spec fn ts_shape(s: Seq<char>) -> bool {
    s.len() == 20 && is_digit(s[0]) && is_digit(s[1]) && is_digit(s[2]) && is_digit(s[3])
        && s[4] == '-' && is_digit(s[5]) && is_digit(s[6]) && s[7] == '-' && is_digit(s[8])
        && is_digit(s[9]) && s[10] == 'T' && is_digit(s[11]) && is_digit(s[12]) && s[13] == ':'
        && is_digit(s[14]) && is_digit(s[15]) && s[16] == ':' && is_digit(s[17]) && is_digit(s[18])
        && s[19] == 'Z'
}

/// The timestamp read from `s`, defined when the shape matches and the
/// components are in range.
pub open spec fn parse_ts(s: Seq<char>) -> Option<Timestamp> {
    if ts_shape(s) {
        let t = Timestamp {
            year: four_digit_val(s, 0) as u32,
            month: two_digit_val(s, 5) as u32,
            day: two_digit_val(s, 8) as u32,
            hour: two_digit_val(s, 11) as u32,
            minute: two_digit_val(s, 14) as u32,
            second: two_digit_val(s, 17) as u32,
        };
        if t.wf() {
            Some(t)
        } else {
            None
        }
    } else {
        None
    }
}

/// Reads a timestamp from header text.
pub fn parse_timestamp(s: &str) -> (r: Result<Timestamp, Error>)
    ensures
        r is Ok <==> parse_ts(s@) is Some,
        r is Ok ==> r->Ok_0 == parse_ts(s@)->Some_0,
        r is Err ==> r->Err_0 == Error::ParseError,
{
    let n: usize = s.unicode_len();
    if n != 20 {
        return Err(Error::ParseError);
    }
    let seps_ok = s.get_char(4) == '-' && s.get_char(7) == '-' && s.get_char(10) == 'T'
        && s.get_char(13) == ':' && s.get_char(16) == ':' && s.get_char(19) == 'Z';
    if !seps_ok {
        return Err(Error::ParseError);
    }
    let d0 = char_digit_val(s.get_char(0));
    let d1 = char_digit_val(s.get_char(1));
    let d2 = char_digit_val(s.get_char(2));
    let d3 = char_digit_val(s.get_char(3));
    let m0 = char_digit_val(s.get_char(5));
    let m1 = char_digit_val(s.get_char(6));
    let a0 = char_digit_val(s.get_char(8));
    let a1 = char_digit_val(s.get_char(9));
    let h0 = char_digit_val(s.get_char(11));
    let h1 = char_digit_val(s.get_char(12));
    let i0 = char_digit_val(s.get_char(14));
    let i1 = char_digit_val(s.get_char(15));
    let e0 = char_digit_val(s.get_char(17));
    let e1 = char_digit_val(s.get_char(18));
    if d0 > 9 || d1 > 9 || d2 > 9 || d3 > 9 || m0 > 9 || m1 > 9 || a0 > 9 || a1 > 9 || h0 > 9
        || h1 > 9 || i0 > 9 || i1 > 9 || e0 > 9 || e1 > 9 {
        assert(!ts_shape(s@));
        return Err(Error::ParseError);
    }
    assert(ts_shape(s@));
    let t = Timestamp {
        year: 1000 * d0 + 100 * d1 + 10 * d2 + d3,
        month: 10 * m0 + m1,
        day: 10 * a0 + a1,
        hour: 10 * h0 + h1,
        minute: 10 * i0 + i1,
        second: 10 * e0 + e1,
    };
    if t.is_wf() {
        Ok(t)
    } else {
        Err(Error::ParseError)
    }
}

/// A digit character reads back as its value.
proof fn lemma_digit_round(d: int)
    requires
        0 <= d <= 9,
    ensures
        digit_val(digit_char(d)) == d,
{
}

/// Parsing undoes formatting for every representable timestamp.
#[verifier::rlimit(60)]
pub proof fn lemma_ts_round_trip(t: Timestamp)
    requires
        t.wf(),
    ensures
        parse_ts(ts_text(t)) == Some(t),
{
    let s = ts_text(t);
    let y = t.year as int;
    let mo = t.month as int;
    let d = t.day as int;
    let h = t.hour as int;
    let mi = t.minute as int;
    let se = t.second as int;
    assert(s =~= seq![
        digit_char(y / 1000), digit_char((y / 100) % 10), digit_char((y / 10) % 10),
        digit_char(y % 10), '-', digit_char(mo / 10), digit_char(mo % 10), '-',
        digit_char(d / 10), digit_char(d % 10), 'T', digit_char(h / 10), digit_char(h % 10),
        ':', digit_char(mi / 10), digit_char(mi % 10), ':', digit_char(se / 10),
        digit_char(se % 10), 'Z',
    ]);
    assert(s.len() == 20);
    lemma_digit_round(t.year as int / 1000);
    lemma_digit_round((t.year as int / 100) % 10);
    lemma_digit_round((t.year as int / 10) % 10);
    lemma_digit_round(t.year as int % 10);
    lemma_digit_round(t.month as int / 10);
    lemma_digit_round(t.month as int % 10);
    lemma_digit_round(t.day as int / 10);
    lemma_digit_round(t.day as int % 10);
    lemma_digit_round(t.hour as int / 10);
    lemma_digit_round(t.hour as int % 10);
    lemma_digit_round(t.minute as int / 10);
    lemma_digit_round(t.minute as int % 10);
    lemma_digit_round(t.second as int / 10);
    lemma_digit_round(t.second as int % 10);
    assert(ts_shape(s));
    assert(four_digit_val(s, 0) == t.year as int);
    assert(two_digit_val(s, 5) == t.month as int);
    assert(two_digit_val(s, 8) == t.day as int);
    assert(two_digit_val(s, 11) == t.hour as int);
    assert(two_digit_val(s, 14) == t.minute as int);
    assert(two_digit_val(s, 17) == t.second as int);
}

} // verus!
