//! Identifier generation.
//!
//! An identifier is produced from a pattern string whose characters
//! expand as follows: `Y`, `M`, `D`, `h`, `m`, `s` become two-digit
//! zero-padded date and time components (year modulo 100, month, day,
//! hour, minute, second); `X` becomes one random character drawn from
//! a 36-character alphanumeric alphabet; every other character is
//! copied as it stands. With date tokens in front, identifiers sort
//! lexicographically by creation time.
//!
//! The generator is pure: the caller supplies the timestamp and the
//! random draws, so collision avoidance can be exercised against a
//! simulated set of existing files. Checking the file system is the
//! create operation's concern.

use vstd::prelude::*;
use crate::timestamp::{Timestamp, two_digits, push_two_digits};
use crate::text::push_char;
use vstd::string::*;

verus! {

/// The alphabet random draws select from.
pub open spec fn alpha_table() -> Seq<char> {
    seq![
        '0', '1', '2', '3', '4', '5', '6', '7', '8', '9', 'A', 'B', 'C', 'D', 'E', 'F', 'G', 'H',
        'I', 'J', 'K', 'L', 'M', 'N', 'O', 'P', 'Q', 'R', 'S', 'T', 'U', 'V', 'W', 'X', 'Y', 'Z',
    ]
}

/// Executable lookup into the alphabet.
pub fn alpha_char(j: u64) -> (c: char)
    requires
        j < 36,
    ensures
        c == alpha_table()[j as int],
{
    match j {
        0 => '0',
        1 => '1',
        2 => '2',
        3 => '3',
        4 => '4',
        5 => '5',
        6 => '6',
        7 => '7',
        8 => '8',
        9 => '9',
        10 => 'A',
        11 => 'B',
        12 => 'C',
        13 => 'D',
        14 => 'E',
        15 => 'F',
        16 => 'G',
        17 => 'H',
        18 => 'I',
        19 => 'J',
        20 => 'K',
        21 => 'L',
        22 => 'M',
        23 => 'N',
        24 => 'O',
        25 => 'P',
        26 => 'Q',
        27 => 'R',
        28 => 'S',
        29 => 'T',
        30 => 'U',
        31 => 'V',
        32 => 'W',
        33 => 'X',
        34 => 'Y',
        _ => 'Z',
    }
}

/// Number of random draws the pattern consumes from position `i` on.
pub open spec fn x_count_from(p: Seq<char>, i: int) -> int
    decreases p.len() - i,
{
    if i < 0 {
        x_count_from(p, 0)
    } else if i >= p.len() {
        0
    } else if p[i] == 'X' {
        1 + x_count_from(p, i + 1)
    } else {
        x_count_from(p, i + 1)
    }
}

/// Number of random draws the whole pattern consumes.
pub open spec fn x_count(p: Seq<char>) -> int {
    x_count_from(p, 0)
}

/// The number of remaining draws is never negative.
pub proof fn lemma_x_count_nonneg(p: Seq<char>, i: int)
    requires
        0 <= i <= p.len(),
    ensures
        x_count_from(p, i) >= 0,
    decreases p.len() - i,
{
    if i < p.len() {
        lemma_x_count_nonneg(p, i + 1);
    }
}

/// Expansion of the pattern from position `i`, with `r` draws already
/// consumed.
pub open spec fn expand_from(p: Seq<char>, t: Timestamp, rands: Seq<u64>, i: int, r: int) -> Seq<
    char,
>
    decreases p.len() - i,
{
    if i < 0 {
        expand_from(p, t, rands, 0, r)
    } else if i >= p.len() {
        Seq::empty()
    } else if p[i] == 'Y' {
        two_digits(t.year as int % 100) + expand_from(p, t, rands, i + 1, r)
    } else if p[i] == 'M' {
        two_digits(t.month as int) + expand_from(p, t, rands, i + 1, r)
    } else if p[i] == 'D' {
        two_digits(t.day as int) + expand_from(p, t, rands, i + 1, r)
    } else if p[i] == 'h' {
        two_digits(t.hour as int) + expand_from(p, t, rands, i + 1, r)
    } else if p[i] == 'm' {
        two_digits(t.minute as int) + expand_from(p, t, rands, i + 1, r)
    } else if p[i] == 's' {
        two_digits(t.second as int) + expand_from(p, t, rands, i + 1, r)
    } else if p[i] == 'X' {
        seq![alpha_table()[rands[r] as int % 36]] + expand_from(p, t, rands, i + 1, r + 1)
    } else {
        seq![p[i]] + expand_from(p, t, rands, i + 1, r)
    }
}

/// The full expansion of a pattern.
pub open spec fn expand_id(p: Seq<char>, t: Timestamp, rands: Seq<u64>) -> Seq<char> {
    expand_from(p, t, rands, 0, 0)
}

/// How many random draws a pattern needs.
pub fn random_width(pattern: &str) -> (r: usize)
    ensures
        r == x_count(pattern@),
{
    let n: usize = pattern.unicode_len();
    let mut i: usize = 0;
    let mut count: usize = 0;
    while i < n
        invariant
            0 <= i <= n,
            n == pattern@.len(),
            count <= i,
            count + x_count_from(pattern@, i as int) == x_count(pattern@),
        decreases n - i,
    {
        if pattern.get_char(i) == 'X' {
            count = count + 1;
        }
        i = i + 1;
    }
    count
}

/// Expands `pattern` for the given creation time, consuming one draw
/// from `rands` for each `X`.
pub fn generate(pattern: &str, now: &Timestamp, rands: &Vec<u64>) -> (r: String)
    requires
        now.wf(),
        rands@.len() >= x_count(pattern@),
    ensures
        r@ == expand_id(pattern@, *now, rands@),
{
    let n: usize = pattern.unicode_len();
    let mut out = String::new();
    let mut i: usize = 0;
    let mut used: usize = 0;
    while i < n
        invariant
            0 <= i <= n,
            n == pattern@.len(),
            now.wf(),
            used <= i,
            used + x_count_from(pattern@, i as int) == x_count(pattern@),
            rands@.len() >= x_count(pattern@),
            expand_id(pattern@, *now, rands@) == out@ + expand_from(
                pattern@,
                *now,
                rands@,
                i as int,
                used as int,
            ),
        decreases n - i,
    {
        let c = pattern.get_char(i);
        if c == 'Y' {
            push_two_digits(&mut out, now.year % 100);
        } else if c == 'M' {
            push_two_digits(&mut out, now.month);
        } else if c == 'D' {
            push_two_digits(&mut out, now.day);
        } else if c == 'h' {
            push_two_digits(&mut out, now.hour);
        } else if c == 'm' {
            push_two_digits(&mut out, now.minute);
        } else if c == 's' {
            push_two_digits(&mut out, now.second);
        } else if c == 'X' {
            assert(pattern@[i as int] == 'X');
            assert(x_count_from(pattern@, i as int) == 1 + x_count_from(pattern@, i + 1 as int));
            proof {
                lemma_x_count_nonneg(pattern@, i + 1 as int);
            }
            let draw = rands[used];
            push_char(&mut out, alpha_char(draw % 36));
            used = used + 1;
        } else {
            push_char(&mut out, c);
        }
        proof {
            assert(expand_id(pattern@, *now, rands@) == out@ + expand_from(
                pattern@,
                *now,
                rands@,
                i + 1 as int,
                used as int,
            )) by {
                assert(out@ + expand_from(pattern@, *now, rands@, i + 1 as int, used as int)
                    =~= expand_id(pattern@, *now, rands@));
            }
        }
        i = i + 1;
    }
    assert(out@ =~= expand_id(pattern@, *now, rands@));
    out
}

} // verus!
