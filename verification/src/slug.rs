//! Slug and filename derivation.
//!
//! A slug is the filename-safe derivative of a title: ASCII
//! alphanumerics are kept (lowercased), every other character becomes a
//! hyphen, runs of hyphens are collapsed, leading and trailing hyphens
//! are dropped, and the result is truncated to a bounded length.

use vstd::prelude::*;
use crate::ident::{lower_char, to_lower_char};
use crate::text::push_char;
use vstd::string::*;

verus! {

/// Upper bound on the slug portion of a filename, keeping the full
/// filename well under common file system limits.
pub const MAX_SLUG_LEN: usize = 60;

/// Whether `c` may appear in a slug without replacement.
pub open spec fn is_slug_keep(c: char) -> bool {
    ('a' <= c && c <= 'z') || ('0' <= c && c <= '9')
}

/// One character of the raw slug: kept alphanumerics are lowercased,
/// everything else maps to a hyphen.
pub open spec fn slug_char(c: char) -> char {
    if is_slug_keep(lower_char(c)) {
        lower_char(c)
    } else {
        '-'
    }
}

/// Left-to-right slug accumulation: hyphens are emitted only between
/// kept characters, which collapses runs and drops leading hyphens.
pub open spec fn slug_acc(s: Seq<char>, i: int, acc: Seq<char>) -> Seq<char>
    decreases s.len() - i,
{
    if i < 0 {
        slug_acc(s, 0, acc)
    } else if i >= s.len() {
        acc
    } else {
        let m = slug_char(s[i]);
        if m == '-' {
            if acc.len() > 0 && acc.last() != '-' {
                slug_acc(s, i + 1, acc.push('-'))
            } else {
                slug_acc(s, i + 1, acc)
            }
        } else {
            slug_acc(s, i + 1, acc.push(m))
        }
    }
}

/// The slug of a title: accumulated, truncated, and stripped of a
/// trailing hyphen that collapsing or truncation may leave behind.
pub open spec fn slug_of(s: Seq<char>) -> Seq<char> {
    let c = slug_acc(s, 0, Seq::empty());
    let t = if c.len() > MAX_SLUG_LEN as int {
        c.take(MAX_SLUG_LEN as int)
    } else {
        c
    };
    if t.len() > 0 && t.last() == '-' {
        t.drop_last()
    } else {
        t
    }
}

/// Executable test for characters kept in slugs (after lowercasing).
fn slug_keep_char(c: char) -> (r: bool)
    ensures
        r == is_slug_keep(c),
{
    let u = c as u32;
    (97 <= u && u <= 122) || (48 <= u && u <= 57)
}

/// Derives the slug of a title.
pub fn slugify(title: &str) -> (r: String)
    ensures
        r@ == slug_of(title@),
{
    let n: usize = title.unicode_len();
    let mut acc = String::new();
    let mut acc_len: usize = 0;
    let mut last_hyphen: bool = false;
    let mut i: usize = 0;
    while i < n
        invariant
            0 <= i <= n,
            n == title@.len(),
            acc_len == acc@.len(),
            acc@.len() <= i,
            last_hyphen == (acc@.len() > 0 && acc@.last() == '-'),
            slug_acc(title@, 0, Seq::empty()) == slug_acc(title@, i as int, acc@),
        decreases n - i,
    {
        let c = title.get_char(i);
        let lc = to_lower_char(c);
        if slug_keep_char(lc) {
            push_char(&mut acc, lc);
            acc_len = acc_len + 1;
            last_hyphen = false;
        } else {
            if acc_len > 0 && !last_hyphen {
                push_char(&mut acc, '-');
                acc_len = acc_len + 1;
                last_hyphen = true;
            }
        }
        i = i + 1;
    }
    let mut t = acc;
    let mut t_len = t_len_of(&t);
    if t_len > MAX_SLUG_LEN {
        let cut = substring_copy_string(&t, MAX_SLUG_LEN);
        t = cut;
        t_len = MAX_SLUG_LEN;
    }
    if t_len > 0 && last_char_is_hyphen(&t) {
        let cut = drop_last_string(&t, t_len);
        assert(cut@ =~= slug_of(title@));
        return cut;
    }
    assert(t@ =~= slug_of(title@));
    t
}

/// Character length of a string, as a helper for `slugify`.
fn t_len_of(s: &String) -> (r: usize)
    ensures
        r == s@.len(),
{
    s.as_str().unicode_len()
}

/// Copy of the first `upto` characters of `s`.
fn substring_copy_string(s: &String, upto: usize) -> (r: String)
    requires
        upto <= s@.len(),
    ensures
        r@ == s@.take(upto as int),
{
    let piece = s.as_str().substring_char(0, upto);
    let r = piece.to_owned();
    assert(r@ =~= s@.take(upto as int));
    r
}

/// Whether the last character of a nonempty string is a hyphen.
fn last_char_is_hyphen(s: &String) -> (r: bool)
    requires
        s@.len() > 0,
    ensures
        r == (s@.last() == '-'),
{
    let n = s.as_str().unicode_len();
    s.as_str().get_char(n - 1) == '-'
}

/// Copy of `s` without its last character.
fn drop_last_string(s: &String, n: usize) -> (r: String)
    requires
        n == s@.len(),
        n > 0,
    ensures
        r@ == s@.drop_last(),
{
    let piece = s.as_str().substring_char(0, n - 1);
    let r = piece.to_owned();
    assert(r@ =~= s@.drop_last());
    r
}

/// The file stem of an item: its id, extended by `-slug` when the slug
/// is nonempty.
pub open spec fn stem_of(id: Seq<char>, title: Seq<char>) -> Seq<char> {
    if slug_of(title).len() == 0 {
        id
    } else {
        id + seq!['-'] + slug_of(title)
    }
}

/// The filename of an item: its stem with the `.md` extension.
pub open spec fn filename_of(id: Seq<char>, title: Seq<char>) -> Seq<char> {
    stem_of(id, title) + extension_text()
}

/// The view of the item file extension, `.md`.
pub open spec fn extension_text() -> Seq<char> {
    seq!['.', 'm', 'd']
}

/// Derives the full filename for an item with the given id and title.
pub fn item_filename(id: &str, title: &str) -> (r: String)
    ensures
        r@ == filename_of(id@, title@),
{
    let slug = slugify(title);
    let mut r = id.to_owned();
    if slug.as_str().unicode_len() > 0 {
        push_char(&mut r, '-');
        r.append(slug.as_str());
    }
    push_char(&mut r, '.');
    push_char(&mut r, 'm');
    push_char(&mut r, 'd');
    assert(r@ =~= filename_of(id@, title@));
    r
}

} // verus!
