//! Normalization of labels and category names.
//!
//! A label or category entered by a user is trimmed, ASCII-lowercased,
//! and has its internal whitespace replaced by hyphens, so that
//! `"Bug Fix"` and `"bug-fix"` name the same label.

use vstd::prelude::*;
use crate::text::{is_space, space_char, trim, trim_of, lemma_trim_clean, push_char};

verus! {

/// ASCII lowercase mapping; characters outside `A`..=`Z` are unchanged.
pub open spec fn lower_char(c: char) -> char {
    if 'A' <= c && c <= 'Z' {
        ((c as int) + 32) as char
    } else {
        c
    }
}

/// Executable ASCII lowercase mapping.
pub fn to_lower_char(c: char) -> (r: char)
    ensures
        r == lower_char(c),
{
    match c {
        'A' => 'a',
        'B' => 'b',
        'C' => 'c',
        'D' => 'd',
        'E' => 'e',
        'F' => 'f',
        'G' => 'g',
        'H' => 'h',
        'I' => 'i',
        'J' => 'j',
        'K' => 'k',
        'L' => 'l',
        'M' => 'm',
        'N' => 'n',
        'O' => 'o',
        'P' => 'p',
        'Q' => 'q',
        'R' => 'r',
        'S' => 's',
        'T' => 't',
        'U' => 'u',
        'V' => 'v',
        'W' => 'w',
        'X' => 'x',
        'Y' => 'y',
        'Z' => 'z',
        _ => c,
    }
}

/// One character of a normalized identifier: whitespace becomes a
/// hyphen, everything else is ASCII-lowercased.
pub open spec fn norm_char(c: char) -> char {
    if is_space(c) {
        '-'
    } else {
        lower_char(c)
    }
}

/// The normalized form of an identifier: trimmed, then mapped
/// character by character through `norm_char`.
pub open spec fn normalize_of(s: Seq<char>) -> Seq<char> {
    Seq::new(trim_of(s).len(), |i: int| norm_char(trim_of(s)[i]))
}

/// Normalizes a label or category name.
pub fn normalize_identifier(s: &str) -> (r: String)
    ensures
        r@ == normalize_of(s@),
{
    let t = trim(s);
    let n: usize = t.as_str().unicode_len();
    let mut r = String::new();
    let mut i: usize = 0;
    while i < n
        invariant
            0 <= i <= n,
            n == t@.len(),
            t@ == trim_of(s@),
            r@.len() == i,
            forall|j: int| 0 <= j < i ==> r@[j] == norm_char(t@[j]),
        decreases n - i,
    {
        let c = t.as_str().get_char(i);
        let m = if space_char(c) {
            '-'
        } else {
            to_lower_char(c)
        };
        push_char(&mut r, m);
        i = i + 1;
    }
    assert(r@ =~= normalize_of(s@));
    r
}

/// The output of `norm_char` is a fixed point of `norm_char`.
proof fn lemma_norm_char_fixed(c: char)
    ensures
        norm_char(norm_char(c)) == norm_char(c),
{
}

/// Normalizing an already-normalized identifier changes nothing.
pub proof fn lemma_normalize_idempotent(s: Seq<char>)
    ensures
        normalize_of(normalize_of(s)) == normalize_of(s),
{
    let t = normalize_of(s);
    assert forall|i: int| 0 <= i < t.len() implies !is_space(t[i]) by {
        lemma_norm_char_fixed(trim_of(s)[i]);
    }
    lemma_trim_clean(t);
    assert forall|i: int| 0 <= i < t.len() implies norm_char(t[i]) == t[i] by {
        lemma_norm_char_fixed(trim_of(s)[i]);
    }
    assert(normalize_of(t) =~= t);
}

} // verus!
