//! The on-disk item format: parse and serialize.
//!
//! An item file is UTF-8 text: a metadata header delimited by `---`
//! marker lines, followed by the free-text body. Header fields appear
//! in a fixed order — `id`, `title`, `author`, `created_at`, `status`,
//! then the `labels` and `attachments` lists, one `- ` line per entry.
//! A header that deviates from this shape, including one with unknown
//! fields, is rejected as a whole; nothing is silently dropped.
//!
//! Serialization is the left inverse of parsing: see
//! `lemma_parse_serialize`.

use vstd::prelude::*;
use crate::error::Error;
use crate::item::{
    Frontmatter, FmView, Item, Status, status_text, status_of_text, format_status, parse_status,
    line_ok,
};
use crate::text::{
    find_from, find_char, is_prefix, starts_with, substring_copy, push_char, lemma_find_from,
    lemma_find_from_exact, str_eq,
};
use crate::timestamp::{ts_text, parse_ts, parse_timestamp, format_timestamp, Timestamp};
use vstd::string::*;

verus! {

/// The view of a field key.
pub open spec fn key_id() -> Seq<char> {
    seq!['i', 'd']
}

pub open spec fn key_title() -> Seq<char> {
    seq!['t', 'i', 't', 'l', 'e']
}

pub open spec fn key_author() -> Seq<char> {
    seq!['a', 'u', 't', 'h', 'o', 'r']
}

pub open spec fn key_created() -> Seq<char> {
    seq!['c', 'r', 'e', 'a', 't', 'e', 'd', '_', 'a', 't']
}

pub open spec fn key_status() -> Seq<char> {
    seq!['s', 't', 'a', 't', 'u', 's']
}

pub open spec fn key_labels() -> Seq<char> {
    seq!['l', 'a', 'b', 'e', 'l', 's']
}

pub open spec fn key_attachments() -> Seq<char> {
    seq!['a', 't', 't', 'a', 'c', 'h', 'm', 'e', 'n', 't', 's']
}

/// A header delimiter line.
pub open spec fn marker_line() -> Seq<char> {
    seq!['-', '-', '-', '\n']
}

/// A `key: value` line.
pub open spec fn kv_line(key: Seq<char>, v: Seq<char>) -> Seq<char> {
    key + seq![':', ' '] + v + seq!['\n']
}

/// A `key:` line opening a list.
pub open spec fn list_header_line(key: Seq<char>) -> Seq<char> {
    key + seq![':', '\n']
}

/// The `- entry` lines of a list.
pub open spec fn list_lines(xs: Seq<Seq<char>>) -> Seq<char>
    decreases xs.len(),
{
    if xs.len() == 0 {
        Seq::empty()
    } else {
        seq!['-', ' '] + xs[0] + seq!['\n'] + list_lines(xs.drop_first())
    }
}

/// The complete serialized text of an item.
pub open spec fn serialize_text(v: FmView, body: Seq<char>) -> Seq<char> {
    marker_line() + kv_line(key_id(), v.id) + kv_line(key_title(), v.title) + kv_line(
        key_author(),
        v.author,
    ) + kv_line(key_created(), ts_text(v.created_at)) + kv_line(key_status(), status_text(v.status))
        + list_header_line(key_labels()) + list_lines(v.labels) + list_header_line(
        key_attachments(),
    ) + list_lines(v.attachments) + marker_line() + body
}

/// The line starting at `pos` and the position just past its newline,
/// or `None` when no newline follows.
pub open spec fn take_line(s: Seq<char>, pos: int) -> Option<(Seq<char>, int)> {
    let e = find_from(s, '\n', pos);
    if 0 <= pos <= s.len() && e < s.len() {
        Option::Some((s.subrange(pos, e), e + 1))
    } else {
        Option::None
    }
}

/// The value of a `key: value` line at `pos`.
pub open spec fn parse_kv(s: Seq<char>, pos: int, key: Seq<char>) -> Option<(Seq<char>, int)> {
    match take_line(s, pos) {
        Option::None => Option::None,
        Option::Some((line, p2)) => if is_prefix(key + seq![':', ' '], line) {
            Option::Some((line.skip(key.len() + 2 as int), p2))
        } else {
            Option::None
        },
    }
}

/// Position past a `---` line at `pos`, if one stands there.
pub open spec fn parse_marker(s: Seq<char>, pos: int) -> Option<int> {
    match take_line(s, pos) {
        Option::None => Option::None,
        Option::Some((line, p2)) => if line == seq!['-', '-', '-'] {
            Option::Some(p2)
        } else {
            Option::None
        },
    }
}

/// Position past a `key:` line at `pos`, if one stands there.
pub open spec fn parse_list_header(s: Seq<char>, pos: int, key: Seq<char>) -> Option<int> {
    match take_line(s, pos) {
        Option::None => Option::None,
        Option::Some((line, p2)) => if line == key + seq![':'] {
            Option::Some(p2)
        } else {
            Option::None
        },
    }
}

/// The `- ` entries starting at `pos` and the position where they end.
pub open spec fn parse_list_items(s: Seq<char>, pos: int) -> (Seq<Seq<char>>, int)
    decreases s.len() - pos,
        when 0 <= pos <= s.len()
        via parse_list_items_dec
{
    match take_line(s, pos) {
        Option::None => (Seq::empty(), pos),
        Option::Some((line, p2)) => if is_prefix(seq!['-', ' '], line) {
            let rec = parse_list_items(s, p2);
            (seq![line.skip(2)] + rec.0, rec.1)
        } else {
            (Seq::empty(), pos)
        },
    }
}

#[via_fn]
proof fn parse_list_items_dec(s: Seq<char>, pos: int) {
    lemma_find_from(s, '\n', pos);
}

/// The five fixed header fields, parsed in order, and the position
/// after the `status` line.
pub open spec fn parse_fields(s: Seq<char>) -> Option<
    (Seq<char>, Seq<char>, Seq<char>, Timestamp, Status, int),
> {
    match parse_marker(s, 0) {
        Option::None => Option::None,
        Option::Some(p1) => match parse_kv(s, p1, key_id()) {
            Option::None => Option::None,
            Option::Some((idv, p2)) => match parse_kv(s, p2, key_title()) {
                Option::None => Option::None,
                Option::Some((titlev, p3)) => match parse_kv(s, p3, key_author()) {
                    Option::None => Option::None,
                    Option::Some((authorv, p4)) => match parse_kv(s, p4, key_created()) {
                        Option::None => Option::None,
                        Option::Some((tsv, p5)) => match parse_ts(tsv) {
                            Option::None => Option::None,
                            Option::Some(ts) => match parse_kv(s, p5, key_status()) {
                                Option::None => Option::None,
                                Option::Some((stv, p6)) => match status_of_text(stv) {
                                    Option::None => Option::None,
                                    Option::Some(st) => Option::Some(
                                        (idv, titlev, authorv, ts, st, p6),
                                    ),
                                },
                            },
                        },
                    },
                },
            },
        },
    }
}

/// The parsed metadata and body of an item file, when well-formed.
pub open spec fn parse_text(s: Seq<char>) -> Option<(FmView, Seq<char>)> {
    match parse_fields(s) {
        Option::None => Option::None,
        Option::Some((idv, titlev, authorv, ts, st, p6)) => match parse_list_header(
            s,
            p6,
            key_labels(),
        ) {
            Option::None => Option::None,
            Option::Some(p7) => {
                let labels_rec = parse_list_items(s, p7);
                match parse_list_header(s, labels_rec.1, key_attachments()) {
                    Option::None => Option::None,
                    Option::Some(p9) => {
                        let atts_rec = parse_list_items(s, p9);
                        match parse_marker(s, atts_rec.1) {
                            Option::None => Option::None,
                            Option::Some(p11) => Option::Some(
                                (
                                    FmView {
                                        id: idv,
                                        title: titlev,
                                        author: authorv,
                                        created_at: ts,
                                        status: st,
                                        labels: labels_rec.0,
                                        attachments: atts_rec.0,
                                    },
                                    s.skip(p11),
                                ),
                            ),
                        }
                    },
                }
            },
        },
    }
}

/// Appends a `key: value` line.
fn push_kv(out: &mut String, key: &str, v: &str)
    ensures
        final(out)@ == old(out)@ + kv_line(key@, v@),
{
    out.append(key);
    push_char(out, ':');
    push_char(out, ' ');
    out.append(v);
    push_char(out, '\n');
    assert(final(out)@ =~= old(out)@ + kv_line(key@, v@));
}

/// Appends a `key:` list header line.
fn push_list_header(out: &mut String, key: &str)
    ensures
        final(out)@ == old(out)@ + list_header_line(key@),
{
    out.append(key);
    push_char(out, ':');
    push_char(out, '\n');
    assert(final(out)@ =~= old(out)@ + list_header_line(key@));
}

/// Appends a `---` marker line.
fn push_marker(out: &mut String)
    ensures
        final(out)@ == old(out)@ + marker_line(),
{
    push_char(out, '-');
    push_char(out, '-');
    push_char(out, '-');
    push_char(out, '\n');
    assert(final(out)@ =~= old(out)@ + marker_line());
}

/// Appends the `- ` lines of a list.
fn push_list_lines(out: &mut String, xs: &Vec<String>)
    ensures
        final(out)@ == old(out)@ + list_lines(xs.deep_view()),
{
    let n = xs.len();
    let mut i: usize = 0;
    assert(xs.deep_view().skip(0) =~= xs.deep_view());
    while i < n
        invariant
            0 <= i <= n,
            n == xs.len(),
            old(out)@ + list_lines(xs.deep_view()) == out@ + list_lines(
                xs.deep_view().skip(i as int),
            ),
        decreases n - i,
    {
        let ghost pre = out@;
        push_char(out, '-');
        push_char(out, ' ');
        out.append(xs[i].as_str());
        push_char(out, '\n');
        proof {
            let tail = xs.deep_view().skip(i as int);
            assert(tail[0] == xs.deep_view()[i as int]);
            assert(tail.drop_first() =~= xs.deep_view().skip(i + 1 as int));
            assert(out@ =~= pre + (seq!['-', ' '] + xs.deep_view()[i as int] + seq!['\n']));
            assert(pre + list_lines(tail) =~= out@ + list_lines(
                xs.deep_view().skip(i + 1 as int),
            ));
        }
        i = i + 1;
    }
    assert(xs.deep_view().skip(n as int) =~= Seq::<Seq<char>>::empty());
    assert(final(out)@ =~= old(out)@ + list_lines(xs.deep_view()));
}

/// Serializes an item into its on-disk text.
pub fn serialize(item: &Item) -> (r: String)
    requires
        item.frontmatter@.created_at.wf(),
    ensures
        r@ == serialize_text(item.frontmatter@, item.body@),
{
    let fm = &item.frontmatter;
    let mut out = String::new();
    push_marker(&mut out);
    proof {
        reveal_strlit("id");
        reveal_strlit("title");
        reveal_strlit("author");
        reveal_strlit("created_at");
        reveal_strlit("status");
        reveal_strlit("labels");
        reveal_strlit("attachments");
        assert("id"@ =~= key_id());
        assert("title"@ =~= key_title());
        assert("author"@ =~= key_author());
        assert("created_at"@ =~= key_created());
        assert("status"@ =~= key_status());
        assert("labels"@ =~= key_labels());
        assert("attachments"@ =~= key_attachments());
    }
    push_kv(&mut out, "id", fm.id.as_str());
    push_kv(&mut out, "title", fm.title.as_str());
    push_kv(&mut out, "author", fm.author.as_str());
    let tsv = format_timestamp(&fm.created_at);
    push_kv(&mut out, "created_at", tsv.as_str());
    let stv = format_status(fm.status);
    push_kv(&mut out, "status", stv.as_str());
    push_list_header(&mut out, "labels");
    push_list_lines(&mut out, &fm.labels);
    push_list_header(&mut out, "attachments");
    push_list_lines(&mut out, &fm.attachments);
    push_marker(&mut out);
    out.append(item.body.as_str());
    assert(out@ =~= serialize_text(item.frontmatter@, item.body@));
    out
}

/// Reads the line starting at `pos`.
fn take_line_exec(s: &str, pos: usize) -> (r: Option<(String, usize)>)
    requires
        pos <= s@.len(),
    ensures
        (r is Some) <==> (take_line(s@, pos as int) is Some),
        (r is Some) ==> (r->0).0@ == (take_line(s@, pos as int)->0).0 && (r->0).1 == (take_line(
            s@,
            pos as int,
        )->0).1 && pos < (r->0).1 <= s@.len(),
{
    let n: usize = s.unicode_len();
    let e = find_char(s, '\n', pos);
    proof {
        lemma_find_from(s@, '\n', pos as int);
    }
    if e < n {
        let line = substring_copy(s, pos, e);
        Some((line, e + 1))
    } else {
        None
    }
}

/// Reads a `key: value` line at `pos`, yielding the value.
fn expect_kv(s: &str, pos: usize, key: &str) -> (r: Option<(String, usize)>)
    requires
        pos <= s@.len(),
    ensures
        (r is Some) <==> (parse_kv(s@, pos as int, key@) is Some),
        (r is Some) ==> (r->0).0@ == (parse_kv(s@, pos as int, key@)->0).0 && (r->0).1 == (parse_kv(
            s@,
            pos as int,
            key@,
        )->0).1 && pos < (r->0).1 <= s@.len(),
{
    let (line, p2) = match take_line_exec(s, pos) {
        None => {
            return None;
        },
        Some(x) => x,
    };
    let mut pref = key.to_owned();
    push_char(&mut pref, ':');
    push_char(&mut pref, ' ');
    assert(pref@ =~= key@ + seq![':', ' ']);
    if !starts_with(line.as_str(), pref.as_str()) {
        return None;
    }
    let kl: usize = key.unicode_len();
    let ll: usize = line.as_str().unicode_len();
    assert(kl + 2 <= ll) by {
        assert(is_prefix(key@ + seq![':', ' '], line@));
    }
    let v = substring_copy(line.as_str(), kl + 2, ll);
    assert(v@ =~= line@.skip(kl + 2 as int));
    Some((v, p2))
}

/// Recognizes a `---` line at `pos`.
fn expect_marker(s: &str, pos: usize) -> (r: Option<usize>)
    requires
        pos <= s@.len(),
    ensures
        (r is Some) <==> (parse_marker(s@, pos as int) is Some),
        (r is Some) ==> r->0 == parse_marker(s@, pos as int)->0 && pos < r->0 <= s@.len(),
{
    let (line, p2) = match take_line_exec(s, pos) {
        None => {
            return None;
        },
        Some(x) => x,
    };
    proof {
        reveal_strlit("---");
        assert("---"@ =~= seq!['-', '-', '-']);
    }
    if str_eq(line.as_str(), "---") {
        Some(p2)
    } else {
        None
    }
}

/// Recognizes a `key:` line at `pos`.
fn expect_list_header(s: &str, pos: usize, key: &str) -> (r: Option<usize>)
    requires
        pos <= s@.len(),
    ensures
        (r is Some) <==> (parse_list_header(s@, pos as int, key@) is Some),
        (r is Some) ==> r->0 == parse_list_header(s@, pos as int, key@)->0 && pos < r->0
            <= s@.len(),
{
    let (line, p2) = match take_line_exec(s, pos) {
        None => {
            return None;
        },
        Some(x) => x,
    };
    let mut want = key.to_owned();
    push_char(&mut want, ':');
    assert(want@ =~= key@ + seq![':']);
    if str_eq(line.as_str(), want.as_str()) {
        Some(p2)
    } else {
        None
    }
}

/// Reads the `- ` entries at `pos`.
fn parse_list_exec(s: &str, pos: usize) -> (r: (Vec<String>, usize))
    requires
        pos <= s@.len(),
    ensures
        r.0.deep_view() == parse_list_items(s@, pos as int).0,
        r.1 == parse_list_items(s@, pos as int).1,
        pos <= r.1 <= s@.len(),
{
    let n: usize = s.unicode_len();
    let mut items: Vec<String> = Vec::new();
    let mut cur: usize = pos;
    proof {
        reveal_strlit("- ");
        assert("- "@ =~= seq!['-', ' ']);
    }
    loop
        invariant
            pos <= cur <= n,
            n == s@.len(),
            "- "@ =~= seq!['-', ' '],
            parse_list_items(s@, pos as int).0 == items.deep_view() + parse_list_items(
                s@,
                cur as int,
            ).0,
            parse_list_items(s@, pos as int).1 == parse_list_items(s@, cur as int).1,
        decreases n - cur,
    {
        let (line, p2) = match take_line_exec(s, cur) {
            None => {
                assert(parse_list_items(s@, cur as int).0 =~= Seq::<Seq<char>>::empty());
                assert(items.deep_view() + parse_list_items(s@, cur as int).0
                    =~= items.deep_view());
                return (items, cur);
            },
            Some(x) => x,
        };
        if !starts_with(line.as_str(), "- ") {
            assert(parse_list_items(s@, cur as int).0 =~= Seq::<Seq<char>>::empty());
            assert(items.deep_view() + parse_list_items(s@, cur as int).0 =~= items.deep_view());
            return (items, cur);
        }
        let ll: usize = line.as_str().unicode_len();
        assert(2 <= ll) by {
            assert(is_prefix(seq!['-', ' '], line@));
        }
        let v = substring_copy(line.as_str(), 2, ll);
        assert(v@ =~= line@.skip(2));
        let ghost pre = items.deep_view();
        items.push(v);
        proof {
            assert(items.deep_view() =~= pre.push(line@.skip(2)));
            assert(items.deep_view() + parse_list_items(s@, p2 as int).0 =~= pre + (seq![
                line@.skip(2),
            ] + parse_list_items(s@, p2 as int).0));
        }
        cur = p2;
    }
}

/// Parses an item from its on-disk text. The returned item carries no
/// path; the caller records where the text came from.
pub fn parse(text: &str) -> (r: Result<Item, Error>)
    ensures
        (r is Ok) <==> (parse_text(text@) is Some),
        (r is Ok) ==> (r->Ok_0).frontmatter@ == (parse_text(text@)->0).0 && (r->Ok_0).body@
            == (parse_text(text@)->0).1 && ((r->Ok_0).path is None),
        (r is Err) ==> r->Err_0 == Error::ParseError,
{
    proof {
        reveal_strlit("id");
        reveal_strlit("title");
        reveal_strlit("author");
        reveal_strlit("created_at");
        reveal_strlit("status");
        reveal_strlit("labels");
        reveal_strlit("attachments");
        assert("id"@ =~= key_id());
        assert("title"@ =~= key_title());
        assert("author"@ =~= key_author());
        assert("created_at"@ =~= key_created());
        assert("status"@ =~= key_status());
        assert("labels"@ =~= key_labels());
        assert("attachments"@ =~= key_attachments());
    }
    let p1 = match expect_marker(text, 0) {
        None => {
            return Err(Error::ParseError);
        },
        Some(p) => p,
    };
    let (idv, p2) = match expect_kv(text, p1, "id") {
        None => {
            return Err(Error::ParseError);
        },
        Some(x) => x,
    };
    let (titlev, p3) = match expect_kv(text, p2, "title") {
        None => {
            return Err(Error::ParseError);
        },
        Some(x) => x,
    };
    let (authorv, p4) = match expect_kv(text, p3, "author") {
        None => {
            return Err(Error::ParseError);
        },
        Some(x) => x,
    };
    let (tsv, p5) = match expect_kv(text, p4, "created_at") {
        None => {
            return Err(Error::ParseError);
        },
        Some(x) => x,
    };
    let ts = match parse_timestamp(tsv.as_str()) {
        Err(_) => {
            return Err(Error::ParseError);
        },
        Ok(t) => t,
    };
    let (stv, p6) = match expect_kv(text, p5, "status") {
        None => {
            return Err(Error::ParseError);
        },
        Some(x) => x,
    };
    let st = match parse_status(stv.as_str()) {
        None => {
            return Err(Error::ParseError);
        },
        Some(t) => t,
    };
    let p7 = match expect_list_header(text, p6, "labels") {
        None => {
            return Err(Error::ParseError);
        },
        Some(p) => p,
    };
    let (labels, p8) = parse_list_exec(text, p7);
    let p9 = match expect_list_header(text, p8, "attachments") {
        None => {
            return Err(Error::ParseError);
        },
        Some(p) => p,
    };
    let (attachments, p10) = parse_list_exec(text, p9);
    let p11 = match expect_marker(text, p10) {
        None => {
            return Err(Error::ParseError);
        },
        Some(p) => p,
    };
    let n: usize = text.unicode_len();
    let body = substring_copy(text, p11, n);
    let fm = Frontmatter { id: idv, title: titlev, author: authorv, created_at: ts, status: st, labels, attachments };
    let item = Item { frontmatter: fm, body, path: None };
    proof {
        let sp = parse_text(text@);
        assert(sp is Some);
        assert(text@.skip(p11 as int) =~= text@.subrange(p11 as int, text@.len() as int));
        assert(item.frontmatter@.labels =~= (sp->0).0.labels);
        assert(item.frontmatter@.attachments =~= (sp->0).0.attachments);
        assert(item.body@ =~= (sp->0).1);
        assert(item.frontmatter@ == (sp->0).0);
    }
    Ok(item)
}

/// A line laid out at position `head.len()` is what `take_line` reads.
proof fn lemma_take_line_concat(s: Seq<char>, head: Seq<char>, line: Seq<char>, rest: Seq<char>)
    requires
        s == head + line + seq!['\n'] + rest,
        line_ok(line),
    ensures
        take_line(s, head.len() as int) == Option::Some(
            (line, head.len() + line.len() + 1 as int),
        ),
{
    let pos = head.len() as int;
    let k = pos + line.len();
    assert(s[k] == '\n');
    assert forall|i: int| pos <= i < k implies s[i] != '\n' by {
        assert(s[i] == line[i - pos]);
    }
    lemma_find_from_exact(s, '\n', pos, k);
    assert(s.subrange(pos, k) =~= line);
}

/// A `key: value` line laid out at `head.len()` parses to its value.
proof fn lemma_parse_kv_concat(
    s: Seq<char>,
    head: Seq<char>,
    key: Seq<char>,
    v: Seq<char>,
    rest: Seq<char>,
)
    requires
        s == head + kv_line(key, v) + rest,
        line_ok(key),
        line_ok(v),
    ensures
        parse_kv(s, head.len() as int, key) == Option::Some(
            (v, head.len() + key.len() + v.len() + 3 as int),
        ),
{
    let line = key + seq![':', ' '] + v;
    assert(line_ok(line)) by {
        assert forall|i: int| 0 <= i < line.len() implies line[i] != '\n' by {
            if i < key.len() {
                assert(line[i] == key[i]);
            } else if i >= key.len() + 2 {
                assert(line[i] == v[i - key.len() - 2]);
            }
        }
    }
    assert(s =~= head + line + seq!['\n'] + rest);
    lemma_take_line_concat(s, head, line, rest);
    assert(is_prefix(key + seq![':', ' '], line)) by {
        assert((key + seq![':', ' ']) =~= line.subrange(0, key.len() + 2 as int));
    }
    assert(line.skip(key.len() + 2 as int) =~= v);
}

/// A `---` line laid out at `head.len()` parses as a marker.
proof fn lemma_parse_marker_concat(s: Seq<char>, head: Seq<char>, rest: Seq<char>)
    requires
        s == head + marker_line() + rest,
    ensures
        parse_marker(s, head.len() as int) == Option::Some(head.len() + 4 as int),
{
    let line = seq!['-', '-', '-'];
    assert(s =~= head + line + seq!['\n'] + rest);
    lemma_take_line_concat(s, head, line, rest);
    assert(!is_prefix(seq!['-', ' '], line)) by {
        assert(line[1] == '-');
    }
}

/// A `key:` line laid out at `head.len()` parses as a list header.
proof fn lemma_parse_list_header_concat(
    s: Seq<char>,
    head: Seq<char>,
    key: Seq<char>,
    rest: Seq<char>,
)
    requires
        s == head + list_header_line(key) + rest,
        line_ok(key),
    ensures
        parse_list_header(s, head.len() as int, key) == Option::Some(
            head.len() + key.len() + 2 as int,
        ),
{
    let line = key + seq![':'];
    assert(line_ok(line)) by {
        assert forall|i: int| 0 <= i < line.len() implies line[i] != '\n' by {
            if i < key.len() {
                assert(line[i] == key[i]);
            }
        }
    }
    assert(s =~= head + line + seq!['\n'] + rest);
    lemma_take_line_concat(s, head, line, rest);
}

/// List lines laid out at `head.len()` parse back to the entries,
/// provided what follows does not itself look like a list line.
proof fn lemma_parse_list_concat(
    s: Seq<char>,
    head: Seq<char>,
    xs: Seq<Seq<char>>,
    rest: Seq<char>,
)
    requires
        s == head + list_lines(xs) + rest,
        forall|i: int| 0 <= i < xs.len() ==> line_ok(#[trigger] xs[i]),
        !(rest.len() >= 2 && rest[0] == '-' && rest[1] == ' '),
    ensures
        parse_list_items(s, head.len() as int) == (xs, head.len() + list_lines(xs).len() as int),
    decreases xs.len(),
{
    let pos = head.len() as int;
    if xs.len() == 0 {
        assert(s =~= head + rest);
        let tl = take_line(s, pos);
        if tl is Some {
            let line = (tl->0).0;
            lemma_find_from(s, '\n', pos);
            assert forall|i: int| 0 <= i < line.len() implies line[i] == rest[i] by {
                assert(line[i] == s[pos + i]);
                assert(s[pos + i] == rest[i]);
            }
            if is_prefix(seq!['-', ' '], line) {
                assert(line.len() >= 2);
                assert(line[0] == '-' && line[1] == ' ');
                assert(rest.len() >= 2 && rest[0] == '-' && rest[1] == ' ');
                assert(false);
            }
        }
    } else {
        let x0 = xs[0];
        let line = seq!['-', ' '] + x0;
        let rest2 = list_lines(xs.drop_first()) + rest;
        assert(line_ok(line)) by {
            assert forall|i: int| 0 <= i < line.len() implies line[i] != '\n' by {
                if i >= 2 {
                    assert(line[i] == x0[i - 2]);
                }
            }
        }
        assert(s =~= head + line + seq!['\n'] + rest2);
        lemma_take_line_concat(s, head, line, rest2);
        assert(is_prefix(seq!['-', ' '], line)) by {
            assert(seq!['-', ' '] =~= line.subrange(0, 2));
        }
        assert(line.skip(2) =~= x0);
        let head2 = head + line + seq!['\n'];
        assert(s =~= head2 + list_lines(xs.drop_first()) + rest);
        assert(forall|i: int|
            0 <= i < xs.drop_first().len() ==> line_ok(#[trigger] xs.drop_first()[i]));
        lemma_parse_list_concat(s, head2, xs.drop_first(), rest);
        assert(seq![line.skip(2)] + xs.drop_first() =~= xs);
        assert(list_lines(xs).len() == line.len() + 1 + list_lines(xs.drop_first()).len());
    }
}

/// A status value reads back as itself.
proof fn lemma_status_round(st: Status)
    ensures
        status_of_text(status_text(st)) == Option::Some(st),
{
}

/// A formatted timestamp fits on a single header line.
proof fn lemma_ts_text_line_ok(t: Timestamp)
    ensures
        line_ok(ts_text(t)),
{
    let s = ts_text(t);
    let y = t.year as int;
    let mo = t.month as int;
    let d = t.day as int;
    let h = t.hour as int;
    let mi = t.minute as int;
    let se = t.second as int;
    assert(s =~= seq![
        crate::timestamp::digit_char(y / 1000), crate::timestamp::digit_char((y / 100) % 10),
        crate::timestamp::digit_char((y / 10) % 10), crate::timestamp::digit_char(y % 10), '-',
        crate::timestamp::digit_char(mo / 10), crate::timestamp::digit_char(mo % 10), '-',
        crate::timestamp::digit_char(d / 10), crate::timestamp::digit_char(d % 10), 'T',
        crate::timestamp::digit_char(h / 10), crate::timestamp::digit_char(h % 10), ':',
        crate::timestamp::digit_char(mi / 10), crate::timestamp::digit_char(mi % 10), ':',
        crate::timestamp::digit_char(se / 10), crate::timestamp::digit_char(se % 10), 'Z',
    ]);
}

/// Serialization round-trip: parsing the serialized text of any valid
/// item yields exactly its metadata and body. Serialization is the
/// left inverse of parsing.
/// The length of the serialized text up to the end of the `status`
/// line.
pub open spec fn fields_len(v: FmView) -> int {
    (marker_line().len() as int) + kv_line(key_id(), v.id).len() + kv_line(key_title(), v.title).len()
        + kv_line(key_author(), v.author).len() + kv_line(
        key_created(),
        ts_text(v.created_at),
    ).len() + kv_line(key_status(), status_text(v.status)).len()
}

/// The fixed header fields of a serialized valid item parse back to
/// the item's own values.
#[verifier::rlimit(100)]
proof fn lemma_parse_fields(v: FmView, body: Seq<char>)
    requires
        crate::item::fm_wf(v),
    ensures
        parse_fields(serialize_text(v, body)) == Option::Some(
            (v.id, v.title, v.author, v.created_at, v.status, fields_len(v)),
        ),
{
    let s = serialize_text(v, body);
    let m = marker_line();
    let l1 = kv_line(key_id(), v.id);
    let l2 = kv_line(key_title(), v.title);
    let l3 = kv_line(key_author(), v.author);
    let l4 = kv_line(key_created(), ts_text(v.created_at));
    let l5 = kv_line(key_status(), status_text(v.status));
    let lh = list_header_line(key_labels());
    let ll = list_lines(v.labels);
    let ah = list_header_line(key_attachments());
    let al = list_lines(v.attachments);
    let h1 = m;
    let h2 = h1 + l1;
    let h3 = h2 + l2;
    let h4 = h3 + l3;
    let h5 = h4 + l4;
    let h6 = h5 + l5;

    assert(line_ok(key_id()));
    assert(line_ok(key_title()));
    assert(line_ok(key_author()));
    assert(line_ok(key_created()));
    assert(line_ok(key_status()));
    lemma_ts_text_line_ok(v.created_at);
    assert(line_ok(status_text(v.status)));

    let r6 = lh + (ll + (ah + (al + (m + body))));
    let r5 = l5 + r6;
    let r4 = l4 + r5;
    let r3 = l3 + r4;
    let r2 = l2 + r3;
    let r1 = l1 + r2;
    assert(s == h6 + r6) by {
        lemma_serialize_mid(v, body);
    }
    vstd::seq_lib::lemma_concat_associative(h5, l5, r6);
    assert(s == h5 + r5);
    vstd::seq_lib::lemma_concat_associative(h4, l4, r5);
    assert(s == h4 + r4);
    vstd::seq_lib::lemma_concat_associative(h3, l3, r4);
    assert(s == h3 + r3);
    vstd::seq_lib::lemma_concat_associative(h2, l2, r3);
    assert(s == h2 + r2);
    vstd::seq_lib::lemma_concat_associative(h1, l1, r2);
    assert(s == h1 + r1);

    assert(Seq::<char>::empty() + m == m) by {
        assert(Seq::<char>::empty() + m =~= m);
    }
    vstd::seq_lib::lemma_concat_associative(Seq::<char>::empty(), m, r1);
    assert(s == Seq::<char>::empty() + m + r1);
    lemma_parse_marker_concat(s, Seq::<char>::empty(), r1);
    assert(parse_marker(s, 0) == Option::Some(h1.len() as int));

    lemma_parse_kv_concat(s, h1, key_id(), v.id, r2);
    assert(parse_kv(s, h1.len() as int, key_id()) == Option::Some((v.id, h2.len() as int)));

    lemma_parse_kv_concat(s, h2, key_title(), v.title, r3);
    assert(parse_kv(s, h2.len() as int, key_title()) == Option::Some((v.title, h3.len() as int)));

    lemma_parse_kv_concat(s, h3, key_author(), v.author, r4);
    assert(parse_kv(s, h3.len() as int, key_author()) == Option::Some((v.author, h4.len() as int)));

    lemma_parse_kv_concat(s, h4, key_created(), ts_text(v.created_at), r5);
    assert(parse_kv(s, h4.len() as int, key_created()) == Option::Some(
        (ts_text(v.created_at), h5.len() as int),
    ));
    crate::timestamp::lemma_ts_round_trip(v.created_at);

    lemma_parse_kv_concat(s, h5, key_status(), status_text(v.status), r6);
    assert(parse_kv(s, h5.len() as int, key_status()) == Option::Some(
        (status_text(v.status), h6.len() as int),
    ));
    lemma_status_round(v.status);

    assert(h6.len() == fields_len(v));
}

/// The serialized text splits at the end of the `status` line.
proof fn lemma_serialize_mid(v: FmView, body: Seq<char>)
    ensures
        serialize_text(v, body) == (marker_line() + kv_line(key_id(), v.id) + kv_line(
            key_title(),
            v.title,
        ) + kv_line(key_author(), v.author) + kv_line(key_created(), ts_text(v.created_at))
            + kv_line(key_status(), status_text(v.status))) + (list_header_line(key_labels()) + (
        list_lines(v.labels) + (list_header_line(key_attachments()) + (list_lines(v.attachments) + (
        marker_line() + body))))),
{
    let m = marker_line();
    let l1 = kv_line(key_id(), v.id);
    let l2 = kv_line(key_title(), v.title);
    let l3 = kv_line(key_author(), v.author);
    let l4 = kv_line(key_created(), ts_text(v.created_at));
    let l5 = kv_line(key_status(), status_text(v.status));
    let lh = list_header_line(key_labels());
    let ll = list_lines(v.labels);
    let ah = list_header_line(key_attachments());
    let al = list_lines(v.attachments);
    let h6 = m + l1 + l2 + l3 + l4 + l5;
    let h7 = h6 + lh;
    let h8 = h7 + ll;
    let h9 = h8 + ah;
    let h10 = h9 + al;
    let h11 = h10 + m;
    let s = serialize_text(v, body);
    assert(s == h11 + body);
    vstd::seq_lib::lemma_concat_associative(h10, m, body);
    vstd::seq_lib::lemma_concat_associative(h9, al, m + body);
    vstd::seq_lib::lemma_concat_associative(h8, ah, al + (m + body));
    vstd::seq_lib::lemma_concat_associative(h7, ll, ah + (al + (m + body)));
    vstd::seq_lib::lemma_concat_associative(h6, lh, ll + (ah + (al + (m + body))));
}

/// Serialization round-trip: parsing the serialized text of any valid
/// item yields exactly its metadata and body. Serialization is the
/// left inverse of parsing.
#[verifier::rlimit(100)]
pub proof fn lemma_parse_serialize(v: FmView, body: Seq<char>)
    requires
        crate::item::fm_wf(v),
    ensures
        parse_text(serialize_text(v, body)) == Option::Some((v, body)),
{
    let s = serialize_text(v, body);
    let m = marker_line();
    let l1 = kv_line(key_id(), v.id);
    let l2 = kv_line(key_title(), v.title);
    let l3 = kv_line(key_author(), v.author);
    let l4 = kv_line(key_created(), ts_text(v.created_at));
    let l5 = kv_line(key_status(), status_text(v.status));
    let lh = list_header_line(key_labels());
    let ll = list_lines(v.labels);
    let ah = list_header_line(key_attachments());
    let al = list_lines(v.attachments);
    let h6 = m + l1 + l2 + l3 + l4 + l5;
    let h7 = h6 + lh;
    let h8 = h7 + ll;
    let h9 = h8 + ah;
    let h10 = h9 + al;
    let h11 = h10 + m;

    lemma_parse_fields(v, body);
    assert(h6.len() == fields_len(v));
    assert(line_ok(key_labels()));
    assert(line_ok(key_attachments()));

    let r10 = m + body;
    let r9 = al + r10;
    let r8 = ah + r9;
    let r7 = ll + r8;
    let r6 = lh + r7;
    assert(s == h6 + r6) by {
        lemma_serialize_mid(v, body);
    }

    vstd::seq_lib::lemma_concat_associative(h6, lh, r7);
    assert(s == h7 + r7);
    lemma_parse_list_header_concat(s, h6, key_labels(), r7);
    assert(parse_list_header(s, h6.len() as int, key_labels()) == Option::Some(h7.len() as int));

    vstd::seq_lib::lemma_concat_associative(h7, ll, r8);
    assert(s == h8 + r8);
    assert(r8[0] == 'a');
    lemma_parse_list_concat(s, h7, v.labels, r8);
    assert(parse_list_items(s, h7.len() as int) == (v.labels, h8.len() as int));

    vstd::seq_lib::lemma_concat_associative(h8, ah, r9);
    assert(s == h9 + r9);
    lemma_parse_list_header_concat(s, h8, key_attachments(), r9);
    assert(parse_list_header(s, h8.len() as int, key_attachments()) == Option::Some(
        h9.len() as int,
    ));

    vstd::seq_lib::lemma_concat_associative(h9, al, r10);
    assert(s == h10 + r10);
    assert(r10[0] == '-' && r10[1] == '-');
    lemma_parse_list_concat(s, h9, v.attachments, r10);
    assert(parse_list_items(s, h9.len() as int) == (v.attachments, h10.len() as int));

    lemma_parse_marker_concat(s, h10, body);
    assert(parse_marker(s, h10.len() as int) == Option::Some(h11.len() as int));

    assert(s == h11 + body) by {
        vstd::seq_lib::lemma_concat_associative(h10, m, body);
    }
    assert(s.skip(h11.len() as int) =~= body);
    assert(parse_text(s) == Option::Some((v, body)));
}

} // verus!
