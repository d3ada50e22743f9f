//! Character and string utilities shared by the whole engine.
//!
//! All reasoning is done over `Seq<char>` views of `String` / `&str`.

use vstd::prelude::*;
use vstd::string::*;

verus! {

/// First index at or after `from` where `c` occurs in `s`, or `s.len()`
/// if there is none.
pub open spec fn find_from(s: Seq<char>, c: char, from: int) -> int
    decreases s.len() - from,
{
    if from < 0 {
        find_from(s, c, 0)
    } else if from >= s.len() {
        s.len() as int
    } else if s[from] == c {
        from
    } else {
        find_from(s, c, from + 1)
    }
}

/// The result of `find_from` is within bounds and marks the first occurrence.
pub proof fn lemma_find_from(s: Seq<char>, c: char, from: int)
    requires
        0 <= from <= s.len(),
    ensures
        from <= find_from(s, c, from) <= s.len(),
        find_from(s, c, from) < s.len() ==> s[find_from(s, c, from)] == c,
        forall|i: int| from <= i < find_from(s, c, from) ==> s[i] != c,
    decreases s.len() - from,
{
    if from < s.len() && s[from] != c {
        lemma_find_from(s, c, from + 1);
    }
}

/// If no occurrence lies in `[from, k)` and `s[k] == c`, the first
/// occurrence at or after `from` is exactly `k`.
pub proof fn lemma_find_from_exact(s: Seq<char>, c: char, from: int, k: int)
    requires
        0 <= from <= k < s.len(),
        s[k] == c,
        forall|i: int| from <= i < k ==> s[i] != c,
    ensures
        find_from(s, c, from) == k,
    decreases k - from,
{
    if from < k {
        lemma_find_from_exact(s, c, from + 1, k);
    }
}

/// If `c` does not occur at or after `from`, `find_from` returns the length.
pub proof fn lemma_find_from_none(s: Seq<char>, c: char, from: int)
    requires
        0 <= from <= s.len(),
        forall|i: int| from <= i < s.len() ==> s[i] != c,
    ensures
        find_from(s, c, from) == s.len(),
    decreases s.len() - from,
{
    if from < s.len() {
        lemma_find_from_none(s, c, from + 1);
    }
}

/// Executable version of `find_from`.
pub fn find_char(s: &str, c: char, from: usize) -> (r: usize)
    requires
        from <= s@.len(),
    ensures
        r == find_from(s@, c, from as int),
        from <= r <= s@.len(),
{
    let n: usize = s.unicode_len();
    let mut i: usize = from;
    proof {
        lemma_find_from(s@, c, from as int);
    }
    while i < n
        invariant
            from <= i <= n,
            n == s@.len(),
            forall|j: int| from <= j < i ==> s@[j] != c,
        decreases n - i,
    {
        if s.get_char(i) == c {
            proof {
                lemma_find_from_exact(s@, c, from as int, i as int);
            }
            return i;
        }
        i = i + 1;
    }
    proof {
        lemma_find_from_none(s@, c, from as int);
    }
    n
}

/// Whether `p` is a prefix of `s`.
pub open spec fn is_prefix(p: Seq<char>, s: Seq<char>) -> bool {
    p.len() <= s.len() && p =~= s.subrange(0, p.len() as int)
}

/// Executable prefix test.
pub fn starts_with(s: &str, p: &str) -> (r: bool)
    ensures
        r == is_prefix(p@, s@),
{
    let n: usize = s.unicode_len();
    let m: usize = p.unicode_len();
    if m > n {
        assert(!is_prefix(p@, s@));
        return false;
    }
    let mut i: usize = 0;
    while i < m
        invariant
            0 <= i <= m,
            m == p@.len(),
            n == s@.len(),
            m <= n,
            forall|j: int| 0 <= j < i ==> p@[j] == s@[j],
        decreases m - i,
    {
        if s.get_char(i) != p.get_char(i) {
            assert(!is_prefix(p@, s@));
            return false;
        }
        i = i + 1;
    }
    assert(p@ =~= s@.subrange(0, p@.len() as int));
    true
}

/// Whether `n` occurs in `h` starting at index `i`.
pub open spec fn occurs_at(h: Seq<char>, n: Seq<char>, i: int) -> bool {
    0 <= i && i + n.len() <= h.len() && n =~= h.subrange(i, i + n.len())
}

/// Whether `n` occurs anywhere in `h`.
pub open spec fn seq_contains(h: Seq<char>, n: Seq<char>) -> bool {
    exists|i: int| occurs_at(h, n, i)
}

/// Executable test of `occurs_at`.
pub fn matches_at(h: &str, n: &str, i: usize) -> (r: bool)
    requires
        i + n@.len() <= h@.len(),
    ensures
        r == occurs_at(h@, n@, i as int),
{
    let m: usize = n.unicode_len();
    let hn: usize = h.unicode_len();
    let mut j: usize = 0;
    while j < m
        invariant
            0 <= j <= m,
            m == n@.len(),
            hn == h@.len(),
            i + m <= hn,
            forall|k: int| 0 <= k < j ==> n@[k] == h@[i + k],
        decreases m - j,
    {
        if n.get_char(j) != h.get_char(i + j) {
            assert(!occurs_at(h@, n@, i as int)) by {
                assert(n@[j as int] != h@.subrange(i as int, i + n@.len())[j as int]);
            }
            return false;
        }
        j = j + 1;
    }
    assert(n@ =~= h@.subrange(i as int, i + n@.len()));
    true
}

/// Executable substring search.
pub fn contains_str(h: &str, n: &str) -> (r: bool)
    ensures
        r == seq_contains(h@, n@),
{
    let hn: usize = h.unicode_len();
    let m: usize = n.unicode_len();
    if m > hn {
        assert(!seq_contains(h@, n@));
        return false;
    }
    let mut i: usize = 0;
    while i <= hn - m
        invariant
            0 <= i <= hn - m + 1,
            m <= hn,
            m == n@.len(),
            hn == h@.len(),
            forall|k: int| 0 <= k < i ==> !occurs_at(h@, n@, k),
        decreases hn - m - i + 1,
    {
        if matches_at(h, n, i) {
            return true;
        }
        i = i + 1;
    }
    assert(forall|k: int| occurs_at(h@, n@, k) ==> 0 <= k <= hn - m);
    false
}

/// Lexicographic order on character sequences, by scalar value.
pub open spec fn seq_le(a: Seq<char>, b: Seq<char>) -> bool
    decreases a.len(),
{
    if a.len() == 0 {
        true
    } else if b.len() == 0 {
        false
    } else if (a[0] as int) < (b[0] as int) {
        true
    } else if (a[0] as int) > (b[0] as int) {
        false
    } else {
        seq_le(a.drop_first(), b.drop_first())
    }
}

/// `seq_le` is total.
pub proof fn lemma_seq_le_total(a: Seq<char>, b: Seq<char>)
    ensures
        seq_le(a, b) || seq_le(b, a),
    decreases a.len(),
{
    if a.len() > 0 && b.len() > 0 && a[0] == b[0] {
        lemma_seq_le_total(a.drop_first(), b.drop_first());
    }
}

/// `seq_le` is transitive.
pub proof fn lemma_seq_le_trans(a: Seq<char>, b: Seq<char>, c: Seq<char>)
    requires
        seq_le(a, b),
        seq_le(b, c),
    ensures
        seq_le(a, c),
    decreases a.len(),
{
    if a.len() > 0 && b.len() > 0 && c.len() > 0 && a[0] == b[0] && b[0] == c[0] {
        lemma_seq_le_trans(a.drop_first(), b.drop_first(), c.drop_first());
    }
}

/// Comparing sequences that agree on a common prefix reduces to
/// comparing what follows the prefix.
proof fn lemma_seq_le_skip(a: Seq<char>, b: Seq<char>, i: int)
    requires
        0 <= i <= a.len(),
        i <= b.len(),
        forall|j: int| 0 <= j < i ==> a[j] == b[j],
    ensures
        seq_le(a, b) == seq_le(a.skip(i), b.skip(i)),
    decreases i,
{
    if i > 0 {
        assert(a.len() > 0 && b.len() > 0 && a[0] == b[0]);
        assert(a.drop_first().skip(i - 1) =~= a.skip(i));
        assert(b.drop_first().skip(i - 1) =~= b.skip(i));
        lemma_seq_le_skip(a.drop_first(), b.drop_first(), i - 1);
    } else {
        assert(a.skip(0) =~= a);
        assert(b.skip(0) =~= b);
    }
}

/// Executable lexicographic comparison.
pub fn str_le(a: &str, b: &str) -> (r: bool)
    ensures
        r == seq_le(a@, b@),
{
    let n: usize = a.unicode_len();
    let m: usize = b.unicode_len();
    let mut i: usize = 0;
    loop
        invariant
            0 <= i <= n,
            i <= m,
            n == a@.len(),
            m == b@.len(),
            forall|j: int| 0 <= j < i ==> a@[j] == b@[j],
        decreases n - i,
    {
        proof {
            lemma_seq_le_skip(a@, b@, i as int);
        }
        if i >= n {
            assert(a@.skip(i as int).len() == 0);
            return true;
        }
        if i >= m {
            assert(b@.skip(i as int).len() == 0);
            assert(a@.skip(i as int).len() > 0);
            return false;
        }
        let ca = a.get_char(i);
        let cb = b.get_char(i);
        if (ca as u32) < (cb as u32) {
            assert(a@.skip(i as int)[0] == ca && b@.skip(i as int)[0] == cb);
            return true;
        }
        if (ca as u32) > (cb as u32) {
            assert(a@.skip(i as int)[0] == ca && b@.skip(i as int)[0] == cb);
            return false;
        }
        assert(ca as int == cb as int && ca == cb) by {
            assert(ca as u32 == cb as u32);
        }
        i = i + 1;
    }
}

/// Whitespace characters recognized by trimming and normalization.
pub open spec fn is_space(c: char) -> bool {
    c == ' ' || c == '\t' || c == '\n' || c == '\r'
}

/// Executable whitespace test.
pub fn space_char(c: char) -> (r: bool)
    ensures
        r == is_space(c),
{
    c == ' ' || c == '\t' || c == '\n' || c == '\r'
}

/// Number of leading whitespace characters.
pub open spec fn lead_ws(s: Seq<char>) -> int {
    first_non_ws(s, 0)
}

/// First index at or after `from` holding a non-whitespace character.
pub open spec fn first_non_ws(s: Seq<char>, from: int) -> int
    decreases s.len() - from,
{
    if from < 0 {
        first_non_ws(s, 0)
    } else if from >= s.len() {
        s.len() as int
    } else if !is_space(s[from]) {
        from
    } else {
        first_non_ws(s, from + 1)
    }
}

/// Length of `s` once trailing whitespace is dropped.
pub open spec fn trim_end_len(s: Seq<char>) -> int
    decreases s.len(),
{
    if s.len() == 0 {
        0
    } else if !is_space(s[s.len() - 1]) {
        s.len() as int
    } else {
        trim_end_len(s.drop_last())
    }
}

/// `s` with leading and trailing whitespace removed.
pub open spec fn trim_of(s: Seq<char>) -> Seq<char> {
    if lead_ws(s) >= trim_end_len(s) {
        Seq::empty()
    } else {
        s.subrange(lead_ws(s), trim_end_len(s))
    }
}

pub proof fn lemma_first_non_ws(s: Seq<char>, from: int)
    requires
        0 <= from <= s.len(),
    ensures
        from <= first_non_ws(s, from) <= s.len(),
        first_non_ws(s, from) < s.len() ==> !is_space(s[first_non_ws(s, from)]),
        forall|i: int| from <= i < first_non_ws(s, from) ==> is_space(s[i]),
    decreases s.len() - from,
{
    if from < s.len() && is_space(s[from]) {
        lemma_first_non_ws(s, from + 1);
    }
}

pub proof fn lemma_trim_end_len(s: Seq<char>)
    ensures
        0 <= trim_end_len(s) <= s.len(),
        trim_end_len(s) > 0 ==> !is_space(s[trim_end_len(s) - 1]),
        forall|i: int| trim_end_len(s) <= i < s.len() ==> is_space(s[i]),
    decreases s.len(),
{
    if s.len() > 0 && is_space(s[s.len() - 1]) {
        lemma_trim_end_len(s.drop_last());
        assert forall|i: int| trim_end_len(s) <= i < s.len() implies is_space(s[i]) by {
            if i < s.len() - 1 {
                assert(is_space(s.drop_last()[i]));
                assert(s.drop_last()[i] == s[i]);
            }
        }
    }
}

/// A sequence without leading or trailing whitespace trims to itself.
pub proof fn lemma_trim_clean(s: Seq<char>)
    requires
        s.len() > 0 ==> !is_space(s[0]),
        s.len() > 0 ==> !is_space(s[s.len() - 1]),
    ensures
        trim_of(s) =~= s,
{
    if s.len() > 0 {
        assert(first_non_ws(s, 0) == 0);
    }
}

/// Executable trim, yielding an owned copy of the trimmed range.
pub fn trim(s: &str) -> (r: String)
    ensures
        r@ == trim_of(s@),
{
    let n: usize = s.unicode_len();
    let mut lo: usize = 0;
    proof {
        lemma_first_non_ws(s@, 0);
        lemma_trim_end_len(s@);
    }
    while lo < n && space_char(s.get_char(lo))
        invariant
            0 <= lo <= n,
            n == s@.len(),
            forall|i: int| 0 <= i < lo ==> is_space(s@[i]),
        decreases n - lo,
    {
        lo = lo + 1;
    }
    proof {
        if lo < n {
            assert(first_non_ws(s@, 0) == lo) by {
                lemma_find_nonws_exact(s@, 0, lo as int);
            }
        } else {
            assert(first_non_ws(s@, 0) == n as int) by {
                lemma_find_nonws_none(s@, 0);
            }
        }
    }
    let mut hi: usize = n;
    while hi > 0 && space_char(s.get_char(hi - 1))
        invariant
            0 <= hi <= n,
            n == s@.len(),
            forall|i: int| hi <= i < n ==> is_space(s@[i]),
        decreases hi,
    {
        hi = hi - 1;
    }
    proof {
        lemma_trim_end_exact(s@, hi as int);
    }
    if lo >= hi {
        let r = String::new();
        assert(r@ =~= trim_of(s@));
        r
    } else {
        let piece = s.substring_char(lo, hi);
        let r = piece.to_owned();
        assert(r@ =~= trim_of(s@));
        r
    }
}

proof fn lemma_find_nonws_exact(s: Seq<char>, from: int, k: int)
    requires
        0 <= from <= k < s.len(),
        !is_space(s[k]),
        forall|i: int| from <= i < k ==> is_space(s[i]),
    ensures
        first_non_ws(s, from) == k,
    decreases k - from,
{
    if from < k {
        lemma_find_nonws_exact(s, from + 1, k);
    }
}

proof fn lemma_find_nonws_none(s: Seq<char>, from: int)
    requires
        0 <= from <= s.len(),
        forall|i: int| from <= i < s.len() ==> is_space(s[i]),
    ensures
        first_non_ws(s, from) == s.len(),
    decreases s.len() - from,
{
    if from < s.len() {
        lemma_find_nonws_none(s, from + 1);
    }
}

proof fn lemma_trim_end_exact(s: Seq<char>, hi: int)
    requires
        0 <= hi <= s.len(),
        hi > 0 ==> !is_space(s[hi - 1]),
        forall|i: int| hi <= i < s.len() ==> is_space(s[i]),
    ensures
        trim_end_len(s) == hi,
    decreases s.len(),
{
    if s.len() > 0 {
        if is_space(s[s.len() - 1]) {
            assert(hi < s.len());
            lemma_trim_end_exact(s.drop_last(), hi);
        }
    }
}

/// Copy a character range of `s` into an owned string.
pub fn substring_copy(s: &str, from: usize, to: usize) -> (r: String)
    requires
        from <= to <= s@.len(),
    ensures
        r@ == s@.subrange(from as int, to as int),
{
    let piece = s.substring_char(from, to);
    piece.to_owned()
}

/// Whether `x` occurs among the string views in `xs`.
pub open spec fn in_seq(xs: Seq<Seq<char>>, x: Seq<char>) -> bool {
    exists|i: int| 0 <= i < xs.len() && xs[i] == x
}

/// Executable membership test in a vector of strings.
pub fn contains_string(xs: &Vec<String>, x: &str) -> (r: bool)
    ensures
        r == in_seq(xs.deep_view(), x@),
{
    let n = xs.len();
    let mut i: usize = 0;
    while i < n
        invariant
            0 <= i <= n,
            n == xs.len(),
            forall|j: int| 0 <= j < i ==> xs.deep_view()[j] != x@,
        decreases n - i,
    {
        if str_eq(xs[i].as_str(), x) {
            assert(xs.deep_view()[i as int] == x@);
            return true;
        }
        i = i + 1;
    }
    false
}

/// A copy of a vector of strings, value for value.
pub fn clone_string_vec(xs: &Vec<String>) -> (r: Vec<String>)
    ensures
        r.deep_view() == xs.deep_view(),
{
    let n = xs.len();
    let mut r: Vec<String> = Vec::new();
    let mut i: usize = 0;
    while i < n
        invariant
            0 <= i <= n,
            n == xs.len(),
            r.deep_view() =~= xs.deep_view().take(i as int),
        decreases n - i,
    {
        let ghost pre = r.deep_view();
        r.push(xs[i].clone());
        proof {
            assert(r.deep_view() =~= pre.push(xs.deep_view()[i as int]));
            assert(xs.deep_view().take(i + 1 as int) =~= xs.deep_view().take(i as int).push(
                xs.deep_view()[i as int],
            ));
        }
        i = i + 1;
    }
    assert(xs.deep_view().take(n as int) =~= xs.deep_view());
    r
}

/// Index of the last occurrence of `c` in `s`, or -1 when absent.
pub open spec fn rfind(s: Seq<char>, c: char) -> int
    decreases s.len(),
{
    if s.len() == 0 {
        -1
    } else if s.last() == c {
        s.len() - 1
    } else {
        rfind(s.drop_last(), c)
    }
}

pub proof fn lemma_rfind(s: Seq<char>, c: char)
    ensures
        -1 <= rfind(s, c) < s.len(),
        rfind(s, c) >= 0 ==> s[rfind(s, c)] == c,
        forall|i: int| rfind(s, c) < i < s.len() ==> s[i] != c,
    decreases s.len(),
{
    if s.len() > 0 && s.last() != c {
        lemma_rfind(s.drop_last(), c);
        assert forall|i: int| rfind(s, c) < i < s.len() implies s[i] != c by {
            if i < s.len() - 1 {
                assert(s.drop_last()[i] == s[i]);
            }
        }
    }
}

/// Executable search for the last occurrence of `c`, yielding the
/// index of the character after it (0 when `c` is absent).
pub fn rfind_after(s: &str, c: char) -> (r: usize)
    ensures
        r == rfind(s@, c) + 1,
{
    let n: usize = s.unicode_len();
    let mut i: usize = n;
    proof {
        lemma_rfind(s@, c);
    }
    while i > 0
        invariant
            0 <= i <= n,
            n == s@.len(),
            forall|j: int| i <= j < n ==> s@[j] != c,
        decreases i,
    {
        if s.get_char(i - 1) == c {
            proof {
                lemma_rfind_exact(s@, c, i - 1 as int);
            }
            return i;
        }
        i = i - 1;
    }
    proof {
        lemma_rfind_none(s@, c);
    }
    0
}

proof fn lemma_rfind_exact(s: Seq<char>, c: char, k: int)
    requires
        0 <= k < s.len(),
        s[k] == c,
        forall|i: int| k < i < s.len() ==> s[i] != c,
    ensures
        rfind(s, c) == k,
    decreases s.len(),
{
    if k < s.len() - 1 {
        assert(s.last() != c);
        assert(forall|i: int| k < i < s.len() - 1 ==> s.drop_last()[i] != c);
        lemma_rfind_exact(s.drop_last(), c, k);
    }
}

proof fn lemma_rfind_none(s: Seq<char>, c: char)
    requires
        forall|i: int| 0 <= i < s.len() ==> s[i] != c,
    ensures
        rfind(s, c) == -1,
    decreases s.len(),
{
    if s.len() > 0 {
        assert(forall|i: int| 0 <= i < s.len() - 1 ==> s.drop_last()[i] != c);
        lemma_rfind_none(s.drop_last(), c);
    }
}

/// Relies on String::push: appends exactly the given character to the
/// end of the string.
#[verifier::external_body]
pub fn push_char(s: &mut String, c: char)
    ensures
        final(s)@ == old(s)@.push(c),
{
    s.push(c);
}

/// Lowercase form of a string, as computed by the standard library.
/// The result depends on the characters alone.
pub uninterp spec fn lower_of(s: Seq<char>) -> Seq<char>;

/// Relies on str::to_lowercase: the Unicode lowercase mapping, a pure
/// function of the character sequence.
#[verifier::external_body]
pub fn lowercase(s: &str) -> (r: String)
    ensures
        r@ == lower_of(s@),
{
    s.to_lowercase()
}

/// Executable equality of string views.
pub fn str_eq(a: &str, b: &str) -> (r: bool)
    ensures
        r == (a@ == b@),
{
    let n: usize = a.unicode_len();
    let m: usize = b.unicode_len();
    if n != m {
        return false;
    }
    let mut i: usize = 0;
    while i < n
        invariant
            0 <= i <= n,
            n == a@.len(),
            n == b@.len(),
            forall|j: int| 0 <= j < i ==> a@[j] == b@[j],
        decreases n - i,
    {
        if a.get_char(i) != b.get_char(i) {
            return false;
        }
        i = i + 1;
    }
    assert(a@ =~= b@);
    true
}

} // verus!
