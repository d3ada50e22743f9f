//! Read-only queries over loaded items: matching, filtering, sorting.
//!
//! Enumeration of item files is the caller's concern; these functions
//! take the items the caller loaded and never touch storage.

use vstd::prelude::*;
use crate::item::{Item, Status};
use crate::config::Config;
use crate::paths::derive_category_text;
use crate::text::{
    seq_contains, contains_str, lowercase, lower_of, seq_le, str_le, lemma_seq_le_total,
    lemma_seq_le_trans, in_seq,
};
use crate::timestamp::{Timestamp, ts_le, ts_le_exec};
use vstd::pervasive::VecAdditionalExecFns;
use vstd::string::*;

verus! {

/// Sort order for listing.
#[derive(Debug, Clone, Copy, PartialEq, Eq, Structural)]
pub enum SortBy {
    Id,
    Date,
    Title,
}

impl Default for SortBy {
    /// Listings sort by identifier unless asked otherwise.
    fn default() -> (r: Self)
        ensures
            r == SortBy::Id,
    {
        SortBy::Id
    }
}

/// Filter options for listing.
pub struct ListFilter {
    pub open: bool,
    pub closed: bool,
    pub label: Option<String>,
    pub author: Option<String>,
    pub sort: SortBy,
    pub interactive: bool,
    pub no_interactive: bool,
}

impl Default for ListFilter {
    /// The default listing: open items, sorted by identifier, with
    /// interactivity left to the configuration.
    fn default() -> (r: Self)
        ensures
            r.open == false,
            r.closed == false,
            r.label is None,
            r.author is None,
            r.sort == SortBy::Id,
            r.interactive == false,
            r.no_interactive == false,
    {
        ListFilter {
            open: false,
            closed: false,
            label: None,
            author: None,
            sort: SortBy::Id,
            interactive: false,
            no_interactive: false,
        }
    }
}

/// Common filter options for item queries.
pub struct ItemFilter {
    pub label: Option<String>,
    pub author: Option<String>,
}

/// ASCII case folding of a character's scalar value.
pub open spec fn fold_scalar(c: char) -> int {
    if 'A' <= c && c <= 'Z' {
        (c as int) + 32
    } else {
        c as int
    }
}

/// Case-insensitive (ASCII) equality of two strings.
pub open spec fn eq_ignore_case(a: Seq<char>, b: Seq<char>) -> bool {
    a.len() == b.len() && forall|i: int| 0 <= i < a.len() ==> fold_scalar(a[i]) == fold_scalar(b[i])
}

/// Executable ASCII case-insensitive comparison.
pub fn str_eq_ignore_case(a: &str, b: &str) -> (r: bool)
    ensures
        r == eq_ignore_case(a@, b@),
{
    let n: usize = a.unicode_len();
    let m: usize = b.unicode_len();
    if n != m {
        return false;
    }
    let mut i: usize = 0;
    while i < n
        invariant
            0 <= i <= n,
            n == a@.len(),
            n == b@.len(),
            forall|j: int| 0 <= j < i ==> fold_scalar(a@[j]) == fold_scalar(b@[j]),
        decreases n - i,
    {
        let ca = a.get_char(i) as u32;
        let cb = b.get_char(i) as u32;
        let fa = if 65 <= ca && ca <= 90 {
            ca + 32
        } else {
            ca
        };
        let fb = if 65 <= cb && cb <= 90 {
            cb + 32
        } else {
            cb
        };
        if fa != fb {
            return false;
        }
        i = i + 1;
    }
    true
}

/// Whether an item passes a label/author filter: the label must occur
/// among the item's labels and the author must match, both compared
/// ASCII case-insensitively.
pub open spec fn passes_filter(item: Item, filter: ItemFilter) -> bool {
    (match filter.label {
        Option::None => true,
        Option::Some(l) => exists|i: int|
            0 <= i < item.frontmatter@.labels.len() && eq_ignore_case(
                #[trigger] item.frontmatter@.labels[i],
                l@,
            ),
    }) && (match filter.author {
        Option::None => true,
        Option::Some(a) => eq_ignore_case(item.frontmatter@.author, a@),
    })
}

/// Executable filter test.
pub fn apply_item_filter(item: &Item, filter: &ItemFilter) -> (r: bool)
    ensures
        r == passes_filter(*item, *filter),
{
    let label_ok = match filter.label {
        None => true,
        Some(ref l) => {
            let n = item.frontmatter.labels.len();
            let mut i: usize = 0;
            let mut found = false;
            while i < n
                invariant
                    0 <= i <= n,
                    n == item.frontmatter.labels.len(),
                    found == exists|j: int|
                        0 <= j < i && eq_ignore_case(
                            #[trigger] item.frontmatter@.labels[j],
                            l@,
                        ),
                decreases n - i,
            {
                if str_eq_ignore_case(item.frontmatter.labels[i].as_str(), l.as_str()) {
                    assert(eq_ignore_case(item.frontmatter@.labels[i as int], l@));
                    found = true;
                }
                i = i + 1;
            }
            found
        },
    };
    if !label_ok {
        return false;
    }
    match filter.author {
        None => true,
        Some(ref a) => str_eq_ignore_case(item.frontmatter.author.as_str(), a.as_str()),
    }
}

/// Keeps exactly the items that pass the filter, in order. The caller
/// walks storage and loads the items; this selects among them.
pub fn collect_items(items: Vec<Item>, filter: &ItemFilter) -> (r: Vec<Item>)
    ensures
        r@ == items@.filter(|it: Item| passes_filter(it, *filter)),
{
    let n = items.len();
    let mut out: Vec<Item> = Vec::new();
    let mut i: usize = 0;
    let mut pool = items;
    let ghost orig = pool@;
    proof {
        reveal(Seq::filter);
        assert(orig.take(0) =~= Seq::<Item>::empty());
        assert(out@ =~= orig.take(0).filter(|it: Item| passes_filter(it, *filter)));
    }
    while i < n
        invariant
            0 <= i <= n,
            n == pool@.len(),
            orig.len() == n,
            forall|j: int| i <= j < n ==> pool@[j] == orig[j],
            out@ =~= orig.take(i as int).filter(|it: Item| passes_filter(it, *filter)),
        decreases n - i,
    {
        proof {
            reveal(Seq::filter);
            assert(orig.take(i + 1 as int).drop_last() =~= orig.take(i as int));
            assert(orig.take(i + 1 as int).last() == orig[i as int]);
        }
        let keep = apply_item_filter(&pool[i], filter);
        if keep {
            let it = take_item(&mut pool, i);
            out.push(it);
        }
        i = i + 1;
    }
    assert(orig.take(n as int) =~= orig);
    out
}

/// Moves the item at `i` out of the vector, leaving a placeholder
/// in its position so that the vector's length and the other entries
/// are untouched.
fn take_item(items: &mut Vec<Item>, i: usize) -> (r: Item)
    requires
        i < old(items)@.len(),
    ensures
        r == old(items)@[i as int],
        final(items)@.len() == old(items)@.len(),
        forall|j: int| 0 <= j < old(items)@.len() && j != i ==> final(items)@[j] == old(items)@[j],
{
    let mut tmp = blank_item();
    items.set_and_swap(i, &mut tmp);
    tmp
}

/// The sort key order on two items.
pub open spec fn item_le(a: Item, b: Item, sort: SortBy) -> bool {
    match sort {
        SortBy::Id => seq_le(a.frontmatter@.id, b.frontmatter@.id),
        SortBy::Date => ts_le(b.frontmatter@.created_at, a.frontmatter@.created_at),
        SortBy::Title => seq_le(lower_of(a.frontmatter@.title), lower_of(b.frontmatter@.title)),
    }
}

/// The order every `item_le` instance satisfies is total and
/// transitive.
pub proof fn lemma_item_le_total(a: Item, b: Item, c: Item, sort: SortBy)
    ensures
        item_le(a, b, sort) || item_le(b, a, sort),
        item_le(a, b, sort) && item_le(b, c, sort) ==> item_le(a, c, sort),
{
    match sort {
        SortBy::Id => {
            lemma_seq_le_total(a.frontmatter@.id, b.frontmatter@.id);
            if item_le(a, b, sort) && item_le(b, c, sort) {
                lemma_seq_le_trans(a.frontmatter@.id, b.frontmatter@.id, c.frontmatter@.id);
            }
        },
        SortBy::Date => {
        },
        SortBy::Title => {
            lemma_seq_le_total(lower_of(a.frontmatter@.title), lower_of(b.frontmatter@.title));
            if item_le(a, b, sort) && item_le(b, c, sort) {
                lemma_seq_le_trans(
                    lower_of(a.frontmatter@.title),
                    lower_of(b.frontmatter@.title),
                    lower_of(c.frontmatter@.title),
                );
            }
        },
    }
}

/// Executable key comparison.
fn item_le_exec(a: &Item, b: &Item, sort: SortBy) -> (r: bool)
    ensures
        r == item_le(*a, *b, sort),
{
    match sort {
        SortBy::Id => str_le(a.frontmatter.id.as_str(), b.frontmatter.id.as_str()),
        SortBy::Date => ts_le_exec(&b.frontmatter.created_at, &a.frontmatter.created_at),
        SortBy::Title => {
            let la = lowercase(a.frontmatter.title.as_str());
            let lb = lowercase(b.frontmatter.title.as_str());
            str_le(la.as_str(), lb.as_str())
        },
    }
}

/// Whether a sequence of items is sorted under the given order.
pub open spec fn sorted_by(s: Seq<Item>, sort: SortBy) -> bool {
    forall|i: int, j: int| 0 <= i < j < s.len() ==> item_le(#[trigger] s[i], #[trigger] s[j], sort)
}

/// A placeholder item used while swapping entries.
fn blank_item() -> (r: Item)
{
    Item {
        frontmatter: crate::item::Frontmatter {
            id: String::new(),
            title: String::new(),
            author: String::new(),
            created_at: Timestamp { year: 0, month: 1, day: 1, hour: 0, minute: 0, second: 0 },
            status: Status::Open,
            labels: Vec::new(),
            attachments: Vec::new(),
        },
        body: String::new(),
        path: None,
    }
}

/// Swapping two entries permutes a sequence.
proof fn lemma_swap_permutes<A>(s: Seq<A>, a: int, b: int)
    requires
        0 <= a < s.len(),
        0 <= b < s.len(),
    ensures
        s.update(a, s[b]).update(b, s[a]).to_multiset() == s.to_multiset(),
{
    if a == b {
        assert(s.update(a, s[b]).update(b, s[a]) =~= s);
    } else {
        let s1 = s.update(a, s[b]);
        vstd::seq_lib::to_multiset_update(s, a, s[b]);
        vstd::seq_lib::to_multiset_update(s1, b, s[a]);
        assert(s1[b] == s[b]);
        assert(s1.update(b, s[a]).to_multiset() =~= s.to_multiset()) by {
            s.to_multiset_ensures();
            assert(s.to_multiset().count(s[a]) > 0) by {
                assert(s.contains(s[a]));
            }
            assert(s.to_multiset().count(s[b]) > 0) by {
                assert(s.contains(s[b]));
            }
        }
    }
}

/// Swaps the entries at `a` and `b`.
fn swap_items(items: &mut Vec<Item>, a: usize, b: usize)
    requires
        a < old(items)@.len(),
        b < old(items)@.len(),
        a != b,
    ensures
        final(items)@ == old(items)@.update(a as int, old(items)@[b as int]).update(
            b as int,
            old(items)@[a as int],
        ),
        final(items)@.to_multiset() == old(items)@.to_multiset(),
{
    let mut tmp = blank_item();
    items.set_and_swap(a, &mut tmp);
    items.set_and_swap(b, &mut tmp);
    items.set_and_swap(a, &mut tmp);
    proof {
        assert(items@ =~= old(items)@.update(a as int, old(items)@[b as int]).update(
            b as int,
            old(items)@[a as int],
        ));
        lemma_swap_permutes(old(items)@, a as int, b as int);
    }
}

/// Sorts items by the given order: ascending identifier, newest
/// first, or ascending lowercased title. The result holds exactly the
/// items it was given.
pub fn sort_items(items: &mut Vec<Item>, sort: SortBy)
    ensures
        sorted_by(final(items)@, sort),
        final(items)@.to_multiset() == old(items)@.to_multiset(),
{
    let n = items.len();
    if n <= 1 {
        return;
    }
    let mut i: usize = 1;
    while i < n
        invariant
            1 <= i <= n,
            n == items@.len(),
            items@.to_multiset() == old(items)@.to_multiset(),
            forall|a: int, b: int|
                0 <= a < b < i ==> item_le(#[trigger] items@[a], #[trigger] items@[b], sort),
        decreases n - i,
    {
        let mut j: usize = i;
        while j > 0 && !item_le_exec(&items[j - 1], &items[j], sort)
            invariant
                0 <= j <= i < n,
                n == items@.len(),
                items@.to_multiset() == old(items)@.to_multiset(),
                forall|a: int, b: int|
                    0 <= a < b <= i && b != j ==> item_le(
                        #[trigger] items@[a],
                        #[trigger] items@[b],
                        sort,
                    ),
                forall|a: int|
                    j < a <= i ==> item_le(items@[j as int], #[trigger] items@[a], sort),
            decreases j,
        {
            proof {
                lemma_item_le_total(items@[j - 1], items@[j as int], items@[j as int], sort);
            }
            let ghost pre = items@;
            swap_items(items, j - 1, j);
            proof {
                assert(items@[j - 1] == pre[j as int] && items@[j as int] == pre[j - 1]);
                assert forall|a: int, b: int|
                    0 <= a < b <= i && b != j - 1 implies item_le(
                    #[trigger] items@[a],
                    #[trigger] items@[b],
                    sort,
                ) by {
                    if b == j {
                        if a == j - 1 {
                        } else {
                            assert(item_le(pre[a], pre[j - 1], sort));
                        }
                    } else if a == j - 1 {
                        assert(item_le(pre[j as int], pre[b], sort));
                    } else if a == j {
                        assert(item_le(pre[j - 1], pre[b], sort));
                    } else {
                        assert(item_le(pre[a], pre[b], sort));
                    }
                }
                assert forall|a: int|
                    j - 1 < a <= i implies item_le(items@[j - 1], #[trigger] items@[a], sort) by {
                    if a == j {
                    } else {
                        assert(item_le(pre[j as int], pre[a], sort));
                    }
                }
            }
            j = j - 1;
        }
        proof {
            assert forall|a: int, b: int| 0 <= a < b <= i implies item_le(
                #[trigger] items@[a],
                #[trigger] items@[b],
                sort,
            ) by {
                if b == j && j > 0 {
                    if a == j - 1 {
                        assert(item_le(items@[a], items@[b], sort));
                    } else {
                        assert(item_le(items@[a], items@[j - 1], sort));
                        assert(item_le(items@[j - 1], items@[j as int], sort));
                        lemma_item_le_total(items@[a], items@[j - 1], items@[j as int], sort);
                    }
                }
            }
        }
        i = i + 1;
    }
}

/// Case-insensitive search over an item's title and id, and — when
/// `full_text` is set — its body. Matching lowercases both sides with
/// the Unicode lowercase mapping.
pub fn matches_query(item: &Item, query: &str, full_text: bool) -> (r: bool)
    ensures
        r == (seq_contains(lower_of(item.frontmatter@.title), lower_of(query@)) || seq_contains(
            lower_of(item.frontmatter@.id),
            lower_of(query@),
        ) || (full_text && seq_contains(lower_of(item.body@), lower_of(query@)))),
{
    let query_lower = lowercase(query);
    let title_lower = lowercase(item.frontmatter.title.as_str());
    if contains_str(title_lower.as_str(), query_lower.as_str()) {
        return true;
    }
    let id_lower = lowercase(item.frontmatter.id.as_str());
    if contains_str(id_lower.as_str(), query_lower.as_str()) {
        return true;
    }
    if full_text {
        let body_lower = lowercase(item.body.as_str());
        if contains_str(body_lower.as_str(), query_lower.as_str()) {
            return true;
        }
    }
    false
}

/// The category an item encodes, if it has a path that lies under a
/// root with a category segment.
pub open spec fn cat_of_item(cfg: Config, it: Item) -> Option<Seq<char>> {
    match it@.path {
        Option::None => Option::None,
        Option::Some(p) => derive_category_text(cfg, p),
    }
}

/// Whether some item among the first `i` encodes category `c`.
pub open spec fn cat_among(cfg: Config, items: Seq<Item>, i: int, c: Seq<char>) -> bool {
    exists|k: int| 0 <= k < i && cat_of_item(cfg, #[trigger] items[k]) == Option::Some(c)
}

/// Whether some item among the first `i` carries label `l`.
pub open spec fn label_among(items: Seq<Item>, i: int, l: Seq<char>) -> bool {
    exists|k: int| 0 <= k < i && in_seq((#[trigger] items[k]).frontmatter@.labels, l)
}

/// The categories and labels in use across the given items, each
/// sorted and without duplicates. Categories derive from the items'
/// paths; items without a path contribute no category.
pub fn collect_existing_metadata(cfg: &Config, items: &Vec<Item>) -> (r: (Vec<String>, Vec<String>))
    ensures
        sorted_distinct(r.0.deep_view()),
        sorted_distinct(r.1.deep_view()),
        forall|c: Seq<char>| in_seq(r.0.deep_view(), c) <==> cat_among(*cfg, items@, items@.len() as int, c),
        forall|l: Seq<char>| in_seq(r.1.deep_view(), l) <==> label_among(items@, items@.len() as int, l),
{
    let n = items.len();
    let mut cats: Vec<String> = Vec::new();
    let mut labels: Vec<String> = Vec::new();
    let mut i: usize = 0;
    while i < n
        invariant
            0 <= i <= n,
            n == items@.len(),
            distinct_strings(cats.deep_view()),
            distinct_strings(labels.deep_view()),
            forall|c: Seq<char>| in_seq(cats.deep_view(), c) <==> cat_among(*cfg, items@, i as int, c),
            forall|l: Seq<char>| in_seq(labels.deep_view(), l) <==> label_among(items@, i as int, l),
        decreases n - i,
    {
        let c_new: Option<String> = match items[i].path {
            Some(ref p) => {
                let d = crate::paths::derive_category(cfg, p.as_str());
                proof {
                    assert(items@[i as int]@.path == Option::Some(p@));
                }
                d
            },
            None => None,
        };
        proof {
            match c_new {
                Option::Some(ref c) => {
                    assert(cat_of_item(*cfg, items@[i as int]) == Option::Some(c@));
                },
                Option::None => {
                    assert(cat_of_item(*cfg, items@[i as int]) is None);
                },
            }
        }
        match c_new {
            Some(c) => {
                let ghost cv = c@;
                push_if_absent(&mut cats, c);
                proof {
                    assert forall|x: Seq<char>|
                        in_seq(cats.deep_view(), x) <==> cat_among(
                        *cfg,
                        items@,
                        i + 1 as int,
                        x,
                    ) by {
                        if in_seq(cats.deep_view(), x) {
                            if x == cv {
                                assert(cat_of_item(*cfg, items@[i as int]) == Option::Some(x));
                            } else {
                                let k = choose|k: int|
                                    0 <= k < i && cat_of_item(*cfg, #[trigger] items@[k])
                                        == Option::Some(x);
                                assert(cat_of_item(*cfg, items@[k]) == Option::Some(x));
                            }
                        }
                        if cat_among(*cfg, items@, i + 1 as int, x) {
                            let k = choose|k: int|
                                0 <= k < i + 1 && cat_of_item(*cfg, #[trigger] items@[k])
                                    == Option::Some(x);
                            if k < i {
                                assert(cat_among(*cfg, items@, i as int, x));
                            } else {
                                assert(x == cv);
                            }
                        }
                    }
                }
            },
            None => {
                proof {
                    assert forall|x: Seq<char>|
                        in_seq(cats.deep_view(), x) <==> cat_among(
                        *cfg,
                        items@,
                        i + 1 as int,
                        x,
                    ) by {
                        if cat_among(*cfg, items@, i + 1 as int, x) {
                            let k = choose|k: int|
                                0 <= k < i + 1 && cat_of_item(*cfg, #[trigger] items@[k])
                                    == Option::Some(x);
                            if k < i {
                                assert(cat_among(*cfg, items@, i as int, x));
                            }
                        }
                        if cat_among(*cfg, items@, i as int, x) {
                            let k = choose|k: int|
                                0 <= k < i && cat_of_item(*cfg, #[trigger] items@[k])
                                    == Option::Some(x);
                            assert(cat_of_item(*cfg, items@[k]) == Option::Some(x));
                        }
                    }
                }
            },
        }
        let m = items[i].frontmatter.labels.len();
        let mut k: usize = 0;
        while k < m
            invariant
                0 <= k <= m,
                0 <= i < n,
                n == items@.len(),
                m == items@[i as int].frontmatter.labels@.len(),
                distinct_strings(labels.deep_view()),
                forall|l: Seq<char>|
                    in_seq(labels.deep_view(), l) <==> (label_among(items@, i as int, l) || (
                    exists|q: int|
                        0 <= q < k && (#[trigger] items@[i as int].frontmatter@.labels[q]) == l)),
            decreases m - k,
        {
            let lab = items[i].frontmatter.labels[k].clone();
            let ghost lv = lab@;
            assert(lv == items@[i as int].frontmatter@.labels[k as int]);
            push_if_absent(&mut labels, lab);
            proof {
                assert forall|l: Seq<char>|
                    in_seq(labels.deep_view(), l) <==> (label_among(items@, i as int, l) || (
                exists|q: int|
                    0 <= q < k + 1 && (#[trigger] items@[i as int].frontmatter@.labels[q])
                        == l)) by {
                    if in_seq(labels.deep_view(), l) && l == lv {
                        assert(items@[i as int].frontmatter@.labels[k as int] == l);
                    }
                }
            }
            k = k + 1;
        }
        proof {
            assert forall|l: Seq<char>|
                in_seq(labels.deep_view(), l) <==> label_among(items@, i + 1 as int, l) by {
                if in_seq(labels.deep_view(), l) {
                    if label_among(items@, i as int, l) {
                        let q = choose|q: int|
                            0 <= q < i && in_seq((#[trigger] items@[q]).frontmatter@.labels, l);
                        assert(in_seq(items@[q].frontmatter@.labels, l));
                    } else {
                        let q = choose|q: int|
                            0 <= q < m && (#[trigger] items@[i as int].frontmatter@.labels[q])
                                == l;
                        assert(in_seq(items@[i as int].frontmatter@.labels, l));
                    }
                }
                if label_among(items@, i + 1 as int, l) {
                    let q = choose|q: int|
                        0 <= q < i + 1 && in_seq((#[trigger] items@[q]).frontmatter@.labels, l);
                    if q < i {
                        assert(label_among(items@, i as int, l));
                    } else {
                        let w = choose|w: int|
                            0 <= w < items@[i as int].frontmatter@.labels.len()
                                && items@[i as int].frontmatter@.labels[w] == l;
                        assert(items@[i as int].frontmatter@.labels[w] == l);
                    }
                }
            }
        }
        i = i + 1;
    }
    sort_strings(&mut cats);
    sort_strings(&mut labels);
    (cats, labels)
}

/// Appends `x` unless an equal string is already present.
fn push_if_absent(xs: &mut Vec<String>, x: String)
    ensures
        forall|s: Seq<char>|
            in_seq(final(xs).deep_view(), s) <==> (in_seq(old(xs).deep_view(), s) || s == x@),
        distinct_strings(old(xs).deep_view()) ==> distinct_strings(final(xs).deep_view()),
{
    if !crate::text::contains_string(xs, x.as_str()) {
        let ghost pre = xs.deep_view();
        xs.push(x);
        proof {
            assert(xs.deep_view() =~= pre.push(x@));
            assert forall|s: Seq<char>|
                in_seq(xs.deep_view(), s) implies (in_seq(pre, s) || s == x@) by {
                let j = choose|j: int| 0 <= j < xs.deep_view().len() && xs.deep_view()[j] == s;
                if j < pre.len() {
                    assert(in_seq(pre, s));
                }
            }
            assert(in_seq(xs.deep_view(), x@)) by {
                assert(xs.deep_view()[pre.len() as int] == x@);
            }
            assert forall|s: Seq<char>| in_seq(pre, s) implies in_seq(xs.deep_view(), s) by {
                let j = choose|j: int| 0 <= j < pre.len() && pre[j] == s;
                assert(xs.deep_view()[j] == s);
            }
        }
    } else {
        assert(in_seq(xs.deep_view(), x@));
    }
}

/// No two entries are equal.
pub open spec fn distinct_strings(xs: Seq<Seq<char>>) -> bool {
    forall|a: int, b: int| 0 <= a < b < xs.len() ==> xs[a] != xs[b]
}

/// Sorted ascending and without duplicates.
pub open spec fn sorted_distinct(xs: Seq<Seq<char>>) -> bool {
    (forall|a: int, b: int| 0 <= a < b < xs.len() ==> seq_le(#[trigger] xs[a], #[trigger] xs[b]))
        && distinct_strings(xs)
}

/// Sorts a vector of strings, preserving membership.
fn sort_strings(xs: &mut Vec<String>)
    ensures
        forall|s: Seq<char>| in_seq(final(xs).deep_view(), s) <==> in_seq(old(xs).deep_view(), s),
        forall|a: int, b: int|
            0 <= a < b < final(xs).deep_view().len() ==> seq_le(
                #[trigger] final(xs).deep_view()[a],
                #[trigger] final(xs).deep_view()[b],
            ),
        distinct_strings(old(xs).deep_view()) ==> distinct_strings(final(xs).deep_view()),
        final(xs).deep_view().to_multiset() == old(xs).deep_view().to_multiset(),
{
    let n = xs.len();
    if n <= 1 {
        proof {
            lemma_multiset_membership(old(xs).deep_view(), xs.deep_view());
        }
        return;
    }
    let mut i: usize = 1;
    while i < n
        invariant
            1 <= i <= n,
            n == xs@.len(),
            n == xs.deep_view().len(),
            xs.deep_view().to_multiset() == old(xs).deep_view().to_multiset(),
            forall|a: int, b: int|
                0 <= a < b < i ==> seq_le(
                    #[trigger] xs.deep_view()[a],
                    #[trigger] xs.deep_view()[b],
                ),
        decreases n - i,
    {
        let mut j: usize = i;
        while j > 0 && !str_le(xs[j - 1].as_str(), xs[j].as_str())
            invariant
                0 <= j <= i < n,
                n == xs@.len(),
                n == xs.deep_view().len(),
                xs.deep_view().to_multiset() == old(xs).deep_view().to_multiset(),
                forall|a: int, b: int|
                    0 <= a < b <= i && b != j ==> seq_le(
                        #[trigger] xs.deep_view()[a],
                        #[trigger] xs.deep_view()[b],
                    ),
                forall|a: int|
                    j < a <= i ==> seq_le(xs.deep_view()[j as int], #[trigger] xs.deep_view()[a]),
            decreases j,
        {
            proof {
                lemma_seq_le_total(xs.deep_view()[j - 1], xs.deep_view()[j as int]);
            }
            let ghost pre = xs.deep_view();
            swap_strings(xs, j - 1, j);
            proof {
                assert(xs.deep_view()[j - 1] == pre[j as int] && xs.deep_view()[j as int] == pre[j
                    - 1]);
                assert forall|a: int, b: int|
                    0 <= a < b <= i && b != j - 1 implies seq_le(
                    #[trigger] xs.deep_view()[a],
                    #[trigger] xs.deep_view()[b],
                ) by {
                    if b == j {
                        if a == j - 1 {
                        } else {
                            assert(seq_le(pre[a], pre[j - 1]));
                        }
                    } else if a == j - 1 {
                        assert(seq_le(pre[j as int], pre[b]));
                    } else if a == j {
                        assert(seq_le(pre[j - 1], pre[b]));
                    } else {
                        assert(seq_le(pre[a], pre[b]));
                    }
                }
                assert forall|a: int|
                    j - 1 < a <= i implies seq_le(
                    xs.deep_view()[j - 1],
                    #[trigger] xs.deep_view()[a],
                ) by {
                    if a == j {
                    } else {
                        assert(seq_le(pre[j as int], pre[a]));
                    }
                }
            }
            j = j - 1;
        }
        proof {
            assert forall|a: int, b: int| 0 <= a < b <= i implies seq_le(
                #[trigger] xs.deep_view()[a],
                #[trigger] xs.deep_view()[b],
            ) by {
                if b == j && j > 0 {
                    if a == j - 1 {
                    } else {
                        assert(seq_le(xs.deep_view()[a], xs.deep_view()[j - 1]));
                        assert(seq_le(xs.deep_view()[j - 1], xs.deep_view()[j as int]));
                        lemma_seq_le_trans(
                            xs.deep_view()[a],
                            xs.deep_view()[j - 1],
                            xs.deep_view()[j as int],
                        );
                    }
                }
            }
        }
        i = i + 1;
    }
    proof {
        lemma_multiset_membership(old(xs).deep_view(), xs.deep_view());
        if distinct_strings(old(xs).deep_view()) {
            lemma_multiset_distinct(old(xs).deep_view(), xs.deep_view());
        }
    }
}

/// Swaps two entries of a string vector.
fn swap_strings(xs: &mut Vec<String>, a: usize, b: usize)
    requires
        a < old(xs)@.len(),
        b < old(xs)@.len(),
        a != b,
    ensures
        final(xs).deep_view() == old(xs).deep_view().update(
            a as int,
            old(xs).deep_view()[b as int],
        ).update(b as int, old(xs).deep_view()[a as int]),
        final(xs).deep_view().to_multiset() == old(xs).deep_view().to_multiset(),
        final(xs)@.len() == old(xs)@.len(),
{
    let mut tmp = String::new();
    xs.set_and_swap(a, &mut tmp);
    xs.set_and_swap(b, &mut tmp);
    xs.set_and_swap(a, &mut tmp);
    proof {
        assert(xs.deep_view() =~= old(xs).deep_view().update(
            a as int,
            old(xs).deep_view()[b as int],
        ).update(b as int, old(xs).deep_view()[a as int]));
        lemma_swap_permutes(old(xs).deep_view(), a as int, b as int);
    }
}

/// Sequences with equal multisets contain the same strings.
proof fn lemma_multiset_membership(a: Seq<Seq<char>>, b: Seq<Seq<char>>)
    requires
        a.to_multiset() == b.to_multiset(),
    ensures
        forall|s: Seq<char>| in_seq(a, s) <==> in_seq(b, s),
{
    assert forall|s: Seq<char>| in_seq(a, s) implies in_seq(b, s) by {
        let j = choose|j: int| 0 <= j < a.len() && a[j] == s;
        a.to_multiset_ensures();
        b.to_multiset_ensures();
        assert(a.to_multiset().count(s) > 0) by {
            assert(a.contains(s));
        }
        assert(b.contains(s));
    }
    assert forall|s: Seq<char>| in_seq(b, s) implies in_seq(a, s) by {
        let j = choose|j: int| 0 <= j < b.len() && b[j] == s;
        a.to_multiset_ensures();
        b.to_multiset_ensures();
        assert(b.to_multiset().count(s) > 0) by {
            assert(b.contains(s));
        }
        assert(a.contains(s));
    }
}

/// A permutation of a duplicate-free sequence is duplicate-free.
proof fn lemma_multiset_distinct(a: Seq<Seq<char>>, b: Seq<Seq<char>>)
    requires
        a.to_multiset() == b.to_multiset(),
        distinct_strings(a),
    ensures
        distinct_strings(b),
{
    assert forall|x: int, y: int| 0 <= x < y < b.len() implies b[x] != b[y] by {
        if b[x] == b[y] {
            b.to_multiset_ensures();
            a.to_multiset_ensures();
            lemma_count_two(b, x, y);
            assert(b.to_multiset().count(b[x]) >= 2);
            lemma_distinct_count(a, b[x]);
        }
    }
}

/// Two equal entries give a multiset count of at least two.
proof fn lemma_count_two(b: Seq<Seq<char>>, x: int, y: int)
    requires
        0 <= x < y < b.len(),
        b[x] == b[y],
    ensures
        b.to_multiset().count(b[x]) >= 2,
{
    let without = b.remove(y);
    b.to_multiset_ensures();
    without.to_multiset_ensures();
    assert(b.contains(b[y]));
    assert(without.to_multiset() =~= b.to_multiset().remove(b[y]));
    assert(without[x] == b[x]);
    assert(without.contains(b[x]));
    assert(without.to_multiset().count(b[x]) > 0);
    assert(b.to_multiset().count(b[x]) == without.to_multiset().count(b[x]) + 1);
}

/// A duplicate-free sequence counts every string at most once.
proof fn lemma_distinct_count(a: Seq<Seq<char>>, s: Seq<char>)
    requires
        distinct_strings(a),
    ensures
        a.to_multiset().count(s) <= 1,
    decreases a.len(),
{
    a.to_multiset_ensures();
    if a.len() == 0 {
        assert(a.to_multiset().count(s) == 0);
    } else {
        let rest = a.drop_last();
        rest.to_multiset_ensures();
        assert(a =~= rest.push(a.last()));
        assert(rest.push(a.last()).to_multiset() =~= rest.to_multiset().insert(a.last()));
        assert(a.to_multiset() == rest.to_multiset().insert(a.last()));
        lemma_distinct_count(rest, s);
        if a.last() == s {
            assert(rest.to_multiset().count(s) == 0) by {
                if rest.to_multiset().count(s) > 0 {
                    assert(rest.contains(s));
                    let j = choose|j: int| 0 <= j < rest.len() && rest[j] == s;
                    assert(a[j] == s && a[a.len() - 1] == s);
                }
            }
        }
    }
}

} // verus!
