//! Presentation-neutral helpers shared by the command layer:
//! truncation for table cells, aggregation counts, and resolution of
//! the interactive-mode flags.

use vstd::prelude::*;
use crate::text::{in_seq, push_char, substring_copy, str_eq};
use crate::config::Config;
use vstd::string::*;

verus! {

/// `s` truncated to at most `max` characters: unchanged when it fits,
/// otherwise its first `max - 1` characters with an ellipsis appended.
pub open spec fn truncate_of(s: Seq<char>, max: int) -> Seq<char> {
    if s.len() <= max {
        s
    } else {
        s.take(max - 1).push('…')
    }
}

/// Truncates a string to the given maximum character count, adding an
/// ellipsis when something was cut.
pub fn truncate(s: &str, max: usize) -> (r: String)
    requires
        max >= 1,
    ensures
        r@ == truncate_of(s@, max as int),
{
    let n: usize = s.unicode_len();
    if n <= max {
        s.to_owned()
    } else {
        let mut r = substring_copy(s, 0, max - 1);
        push_char(&mut r, '…');
        assert(r@ =~= truncate_of(s@, max as int));
        r
    }
}

/// The `--interactive` / `--no-interactive` flag pair shared by the
/// commands.
#[derive(Debug, Clone, Copy, PartialEq, Eq, Structural)]
pub struct InteractiveArgs {
    /// Force interactive mode.
    pub interactive: bool,
    /// Force non-interactive mode.
    pub no_interactive: bool,
}

impl Default for InteractiveArgs {
    /// Neither flag set: the configuration decides.
    fn default() -> (r: Self)
        ensures
            r.interactive == false,
            r.no_interactive == false,
    {
        InteractiveArgs { interactive: false, no_interactive: false }
    }
}

impl InteractiveArgs {
    /// Resolves interactive mode: an explicit `--interactive` wins,
    /// then an explicit `--no-interactive`, then the configured
    /// default.
    pub fn resolve(&self, config_default: bool) -> (r: bool)
        ensures
            r == (if self.interactive {
                true
            } else if self.no_interactive {
                false
            } else {
                config_default
            }),
    {
        if self.interactive {
            true
        } else if self.no_interactive {
            false
        } else {
            config_default
        }
    }
}

/// How often `x` occurs in `xs`.
pub open spec fn count_occ(xs: Seq<Seq<char>>, x: Seq<char>) -> int
    decreases xs.len(),
{
    if xs.len() == 0 {
        0
    } else {
        (if xs[0] == x {
            1int
        } else {
            0int
        }) + count_occ(xs.drop_first(), x)
    }
}

/// Counts how often `x` occurs among `keys`.
fn count_occurrences(keys: &Vec<String>, x: &str) -> (r: usize)
    ensures
        r == count_occ(keys.deep_view(), x@),
{
    let n = keys.len();
    let mut count: usize = 0;
    let mut i: usize = 0;
    proof {
        lemma_count_occ_nonneg(keys.deep_view(), x@);
    }
    while i < n
        invariant
            0 <= i <= n,
            n == keys@.len(),
            count <= i,
            count == count_occ(keys.deep_view().take(i as int), x@),
        decreases n - i,
    {
        proof {
            lemma_count_occ_last(keys.deep_view().take(i + 1 as int), x@);
            assert(keys.deep_view().take(i + 1 as int).drop_last() =~= keys.deep_view().take(
                i as int,
            ));
            assert(keys.deep_view().take(i + 1 as int).last() == keys.deep_view()[i as int]);
        }
        if str_eq(keys[i].as_str(), x) {
            count = count + 1;
        }
        i = i + 1;
    }
    assert(keys.deep_view().take(n as int) =~= keys.deep_view());
    count
}

/// The count never goes negative.
proof fn lemma_count_occ_nonneg(xs: Seq<Seq<char>>, x: Seq<char>)
    ensures
        count_occ(xs, x) >= 0,
    decreases xs.len(),
{
    if xs.len() > 0 {
        lemma_count_occ_nonneg(xs.drop_first(), x);
    }
}

/// The count of a nonempty sequence splits off its last element.
proof fn lemma_count_occ_last(xs: Seq<Seq<char>>, x: Seq<char>)
    requires
        xs.len() > 0,
    ensures
        count_occ(xs, x) == count_occ(xs.drop_last(), x) + (if xs.last() == x {
            1int
        } else {
            0int
        }),
    decreases xs.len(),
{
    if xs.len() == 1 {
        assert(xs.drop_last() =~= Seq::<Seq<char>>::empty());
        assert(xs.drop_first() =~= Seq::<Seq<char>>::empty());
    } else {
        lemma_count_occ_last(xs.drop_first(), x);
        assert(xs.drop_first().drop_last() =~= xs.drop_last().drop_first());
        assert(xs.drop_first().last() == xs.last());
        assert(xs.drop_last()[0] == xs[0]);
    }
}

/// Whether `x` appears as a key of the aggregation.
fn has_key(pairs: &Vec<(String, usize)>, x: &str) -> (r: bool)
    ensures
        r == (exists|idx: int| 0 <= idx < pairs@.len() && (#[trigger] pairs@[idx]).0@ == x@),
{
    let n = pairs.len();
    let mut i: usize = 0;
    while i < n
        invariant
            0 <= i <= n,
            n == pairs@.len(),
            forall|idx: int| 0 <= idx < i ==> (#[trigger] pairs@[idx]).0@ != x@,
        decreases n - i,
    {
        if str_eq(pairs[i].0.as_str(), x) {
            assert((pairs@[i as int]).0@ == x@);
            return true;
        }
        i = i + 1;
    }
    false
}

/// Counts occurrences by a single key extracted from each item: each
/// distinct key appears once, with how often it occurs.
pub fn count_by(keys: &Vec<String>) -> (r: Vec<(String, usize)>)
    ensures
        forall|idx: int|
            0 <= idx < r@.len() ==> (#[trigger] r@[idx]).1 == count_occ(
                keys.deep_view(),
                (r@[idx]).0@,
            ),
        forall|a: int, b: int|
            0 <= a < b < r@.len() ==> (#[trigger] r@[a]).0@ != (#[trigger] r@[b]).0@,
        forall|x: Seq<char>|
            (exists|idx: int| 0 <= idx < r@.len() && (#[trigger] r@[idx]).0@ == x) <==> in_seq(
                keys.deep_view(),
                x,
            ),
{
    let n = keys.len();
    let mut r: Vec<(String, usize)> = Vec::new();
    let mut i: usize = 0;
    while i < n
        invariant
            0 <= i <= n,
            n == keys@.len(),
            forall|idx: int|
                0 <= idx < r@.len() ==> (#[trigger] r@[idx]).1 == count_occ(
                    keys.deep_view(),
                    (r@[idx]).0@,
                ),
            forall|a: int, b: int|
                0 <= a < b < r@.len() ==> (#[trigger] r@[a]).0@ != (#[trigger] r@[b]).0@,
            forall|x: Seq<char>|
                (exists|idx: int| 0 <= idx < r@.len() && (#[trigger] r@[idx]).0@ == x) <==> in_seq(
                    keys.deep_view().take(i as int),
                    x,
                ),
        decreases n - i,
    {
        let ghost prefix = keys.deep_view().take(i as int);
        let ghost kview = keys.deep_view()[i as int];
        if !has_key(&r, keys[i].as_str()) {
            let c = count_occurrences(keys, keys[i].as_str());
            let ghost pre = r@;
            let kc = keys[i].clone();
            r.push((kc, c));
            proof {
                assert((r@[pre.len() as int]).0@ == kview);
                assert((r@[pre.len() as int]).1 == c);
                assert forall|x: Seq<char>|
                    (exists|idx: int| 0 <= idx < r@.len() && (#[trigger] r@[idx]).0@ == x)
                        <==> #[trigger] in_seq(keys.deep_view().take(i + 1 as int), x) by {
                    assert(keys.deep_view().take(i + 1 as int).drop_last() =~= prefix);
                    assert(keys.deep_view().take(i + 1 as int).last() == kview);
                    if exists|idx: int| 0 <= idx < r@.len() && (#[trigger] r@[idx]).0@ == x {
                        let idx = choose|idx: int|
                            0 <= idx < r@.len() && (#[trigger] r@[idx]).0@ == x;
                        if idx < pre.len() {
                            assert((pre[idx]).0@ == x);
                            assert(in_seq(prefix, x));
                            let w = choose|w: int|
                                0 <= w < prefix.len() && #[trigger] prefix[w] == x;
                            assert(keys.deep_view().take(i + 1 as int)[w] == x);
                        } else {
                            assert(keys.deep_view().take(i + 1 as int)[i as int] == x);
                        }
                        assert(in_seq(keys.deep_view().take(i + 1 as int), x));
                    }
                    if in_seq(keys.deep_view().take(i + 1 as int), x) {
                        let w = choose|w: int|
                            0 <= w < keys.deep_view().take(i + 1 as int).len()
                                && #[trigger] keys.deep_view().take(i + 1 as int)[w] == x;
                        if w < i {
                            assert(prefix[w] == x);
                            assert(in_seq(prefix, x));
                            let idx2 = choose|idx: int|
                                0 <= idx < pre.len() && (#[trigger] pre[idx]).0@ == x;
                            assert((r@[idx2]).0@ == x);
                        } else {
                            assert((r@[pre.len() as int]).0@ == x);
                        }
                    }
                }
            }
        } else {
            proof {
                assert forall|x: Seq<char>|
                    (exists|idx: int| 0 <= idx < r@.len() && (#[trigger] r@[idx]).0@ == x)
                        <==> #[trigger] in_seq(keys.deep_view().take(i + 1 as int), x) by {
                    if in_seq(keys.deep_view().take(i + 1 as int), x) {
                        let w = choose|w: int|
                            0 <= w < i + 1 && #[trigger] keys.deep_view().take(i + 1 as int)[w]
                                == x;
                        if w < i {
                            assert(prefix[w] == x);
                            assert(in_seq(prefix, x));
                        } else {
                            assert(x == kview);
                            assert(exists|idx: int|
                                0 <= idx < r@.len() && (#[trigger] r@[idx]).0@ == kview);
                        }
                    }
                    if exists|idx: int| 0 <= idx < r@.len() && (#[trigger] r@[idx]).0@ == x {
                        assert(in_seq(prefix, x));
                        let w = choose|w: int| 0 <= w < prefix.len() && prefix[w] == x;
                        assert(keys.deep_view().take(i + 1 as int)[w] == x);
                    }
                }
            }
        }
        i = i + 1;
    }
    assert(keys.deep_view().take(n as int) =~= keys.deep_view());
    r
}

/// Counts occurrences by multiple keys extracted from each item, as
/// when every item carries a list of labels.
pub fn count_by_many(keyss: &Vec<Vec<String>>) -> (r: Vec<(String, usize)>)
    ensures
        forall|idx: int|
            0 <= idx < r@.len() ==> (#[trigger] r@[idx]).1 == count_occ(
                flat_keys(keyss.deep_view()),
                (r@[idx]).0@,
            ),
        forall|a: int, b: int|
            0 <= a < b < r@.len() ==> (#[trigger] r@[a]).0@ != (#[trigger] r@[b]).0@,
        forall|x: Seq<char>|
            (exists|idx: int| 0 <= idx < r@.len() && (#[trigger] r@[idx]).0@ == x) <==> in_seq(
                flat_keys(keyss.deep_view()),
                x,
            ),
{
    let n = keyss.len();
    let mut all: Vec<String> = Vec::new();
    let mut i: usize = 0;
    proof {
        assert(keyss.deep_view().take(0) =~= Seq::<Seq<Seq<char>>>::empty());
        assert(all.deep_view() =~= flat_keys(keyss.deep_view().take(0)));
    }
    while i < n
        invariant
            0 <= i <= n,
            n == keyss@.len(),
            all.deep_view() =~= flat_keys(keyss.deep_view().take(i as int)),
        decreases n - i,
    {
        let m = keyss[i].len();
        let mut k: usize = 0;
        while k < m
            invariant
                0 <= k <= m,
                0 <= i < n,
                n == keyss@.len(),
                m == keyss@[i as int]@.len(),
                all.deep_view() =~= flat_keys(keyss.deep_view().take(i as int))
                    + keyss.deep_view()[i as int].take(k as int),
            decreases m - k,
        {
            let ghost pre = all.deep_view();
            all.push(keyss[i][k].clone());
            proof {
                assert(all.deep_view() =~= pre.push(keyss.deep_view()[i as int][k as int]));
                assert(keyss.deep_view()[i as int].take(k + 1 as int) =~= keyss.deep_view()[
                    i as int
                ].take(k as int).push(keyss.deep_view()[i as int][k as int]));
            }
            k = k + 1;
        }
        proof {
            lemma_flat_keys_snoc(keyss.deep_view(), i as int);
            assert(keyss.deep_view()[i as int].take(m as int) =~= keyss.deep_view()[i as int]);
        }
        i = i + 1;
    }
    assert(keyss.deep_view().take(n as int) =~= keyss.deep_view());
    count_by(&all)
}

/// The concatenation of all key lists.
pub open spec fn flat_keys(xss: Seq<Seq<Seq<char>>>) -> Seq<Seq<char>>
    decreases xss.len(),
{
    if xss.len() == 0 {
        Seq::empty()
    } else {
        flat_keys(xss.drop_last()) + xss.last()
    }
}

/// Flattening one more list appends its keys.
proof fn lemma_flat_keys_snoc(xss: Seq<Seq<Seq<char>>>, i: int)
    requires
        0 <= i < xss.len(),
    ensures
        flat_keys(xss.take(i + 1)) == flat_keys(xss.take(i)) + xss[i],
{
    assert(xss.take(i + 1).drop_last() =~= xss.take(i));
    assert(xss.take(i + 1).last() == xss[i]);
}

} // verus!
