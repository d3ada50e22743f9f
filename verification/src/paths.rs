//! Path resolution and category derivation.
//!
//! An item's category is never stored in its metadata: it is derived
//! entirely from the position of the item file below the stack,
//! archive, or template root. Changing category is a file move and
//! nothing else.

use vstd::prelude::*;
use crate::config::{Config, valid_dir_name, dir_name_ok};
use crate::error::Error;
use crate::text::{
    find_from, find_char, is_prefix, starts_with, substring_copy, push_char, lemma_find_from,
    lemma_find_from_exact, lemma_find_from_none,
};
use vstd::string::*;

verus! {

/// The three roots an item file can live under.
#[derive(Debug, Clone, Copy, PartialEq, Eq, Structural)]
pub enum Area {
    /// Open items.
    Stack,
    /// Closed items.
    Archive,
    /// Templates.
    Template,
}

/// The configured subdirectory name of an area.
pub open spec fn area_dir_name(cfg: Config, area: Area) -> Seq<char> {
    match area {
        Area::Stack => cfg.stack_dir@,
        Area::Archive => cfg.archive_dir@,
        Area::Template => cfg.template_dir@,
    }
}

/// The root directory of an area: `<root>/<area dir>`.
pub open spec fn area_root_text(cfg: Config, area: Area) -> Seq<char> {
    cfg.root@ + seq!['/'] + area_dir_name(cfg, area)
}

/// A category name is valid exactly when it could serve as a
/// directory segment.
pub open spec fn valid_category(c: Seq<char>) -> bool {
    valid_dir_name(c)
}

/// The directory an item of the given area and category lives in.
pub open spec fn resolve_dir_text(cfg: Config, area: Area, cat: Option<Seq<char>>) -> Seq<char> {
    match cat {
        Option::None => area_root_text(cfg, area),
        Option::Some(c) => area_root_text(cfg, area) + seq!['/'] + c,
    }
}

/// View of an optional category argument.
pub open spec fn opt_text(o: Option<&String>) -> Option<Seq<char>> {
    match o {
        Option::None => Option::None,
        Option::Some(s) => Option::Some(s@),
    }
}

/// The root directory of an area, as a string.
pub fn area_root(cfg: &Config, area: Area) -> (r: String)
    ensures
        r@ == area_root_text(*cfg, area),
{
    let mut r = cfg.root.clone();
    push_char(&mut r, '/');
    match area {
        Area::Stack => r.append(cfg.stack_dir.as_str()),
        Area::Archive => r.append(cfg.archive_dir.as_str()),
        Area::Template => r.append(cfg.template_dir.as_str()),
    }
    assert(r@ =~= area_root_text(*cfg, area));
    r
}

/// Resolves the directory an item should live in, rejecting category
/// names that cannot serve as a directory segment. Creating the
/// directory on disk is the caller's concern.
pub fn resolve_target_dir(cfg: &Config, category: Option<&String>, area: Area) -> (r: Result<
    String,
    Error,
>)
    ensures
        r is Ok ==> (match opt_text(category) {
            Option::None => true,
            Option::Some(c) => valid_category(c),
        }) && r->Ok_0@ == resolve_dir_text(*cfg, area, opt_text(category)),
        r is Err ==> r->Err_0 == Error::ValidationError && (match opt_text(category) {
            Option::None => false,
            Option::Some(c) => !valid_category(c),
        }),
{
    let base = area_root(cfg, area);
    match category {
        None => Ok(base),
        Some(c) => {
            if !dir_name_ok(c) {
                Err(Error::ValidationError)
            } else {
                let mut r = base;
                push_char(&mut r, '/');
                r.append(c.as_str());
                assert(r@ =~= resolve_dir_text(*cfg, area, opt_text(category)));
                Ok(r)
            }
        },
    }
}

/// First path segment of `rel`, when at least one separator follows it.
pub open spec fn first_seg(rel: Seq<char>) -> Option<Seq<char>> {
    let k = find_from(rel, '/', 0);
    if k < rel.len() {
        Option::Some(rel.take(k))
    } else {
        Option::None
    }
}

/// The area whose root the path lies under, if any. Roots are tried
/// in the order stack, archive, template.
pub open spec fn area_of_text(cfg: Config, p: Seq<char>) -> Option<Area> {
    if is_prefix(area_root_text(cfg, Area::Stack) + seq!['/'], p) {
        Option::Some(Area::Stack)
    } else if is_prefix(area_root_text(cfg, Area::Archive) + seq!['/'], p) {
        Option::Some(Area::Archive)
    } else if is_prefix(area_root_text(cfg, Area::Template) + seq!['/'], p) {
        Option::Some(Area::Template)
    } else {
        Option::None
    }
}

/// The category encoded in an item file's path: the first directory
/// segment below the area root, or `None` for a file directly under
/// the root (or outside every root). Deeper nesting contributes
/// nothing beyond the first segment.
pub open spec fn derive_category_text(cfg: Config, p: Seq<char>) -> Option<Seq<char>> {
    match area_of_text(cfg, p) {
        Option::None => Option::None,
        Option::Some(area) => first_seg(p.skip(area_root_text(cfg, area).len() + 1 as int)),
    }
}

/// Determines which area root a path lies under.
pub fn area_of(cfg: &Config, path: &str) -> (r: Option<Area>)
    ensures
        r == area_of_text(*cfg, path@),
{
    let mut pre = area_root(cfg, Area::Stack);
    push_char(&mut pre, '/');
    if starts_with(path, pre.as_str()) {
        return Some(Area::Stack);
    }
    let mut pre = area_root(cfg, Area::Archive);
    push_char(&mut pre, '/');
    if starts_with(path, pre.as_str()) {
        return Some(Area::Archive);
    }
    let mut pre = area_root(cfg, Area::Template);
    push_char(&mut pre, '/');
    if starts_with(path, pre.as_str()) {
        return Some(Area::Template);
    }
    None
}

/// Derives the category of an item file from its path.
pub fn derive_category(cfg: &Config, path: &str) -> (r: Option<String>)
    ensures
        r is Some <==> derive_category_text(*cfg, path@) is Some,
        r is Some ==> r->0@ == derive_category_text(*cfg, path@)->0,
{
    let area = match area_of(cfg, path) {
        None => {
            return None;
        },
        Some(a) => a,
    };
    let root = area_root(cfg, area);
    let n: usize = path.unicode_len();
    let rl: usize = root.as_str().unicode_len();
    assert(rl + 1 <= n) by {
        assert(is_prefix(area_root_text(*cfg, area) + seq!['/'], path@));
    }
    let start: usize = rl + 1;
    let k = find_char(path, '/', start);
    proof {
        let rel = path@.skip(start as int);
        lemma_find_from(path@, '/', start as int);
        lemma_find_from(rel, '/', 0);
        if k < n {
            assert(rel[(k - start) as int] == '/');
            assert(forall|i: int| 0 <= i < k - start ==> rel[i] != '/');
            lemma_find_from_exact(rel, '/', 0, k - start);
        } else {
            assert(forall|i: int| 0 <= i < rel.len() ==> rel[i] != '/');
            lemma_find_from_none(rel, '/', 0);
        }
    }
    if k < n {
        let seg = substring_copy(path, start, k);
        assert(seg@ =~= path@.skip(start as int).take((k - start) as int));
        Some(seg)
    } else {
        None
    }
}

/// Two distinct, slash-free directory names never prefix the same
/// path: a path below one root subdirectory is not below another.
proof fn lemma_distinct_prefix(root: Seq<char>, d1: Seq<char>, d2: Seq<char>, rest: Seq<char>)
    requires
        valid_dir_name(d1),
        valid_dir_name(d2),
        d1 != d2,
    ensures
        !is_prefix(root + seq!['/'] + d1 + seq!['/'], root + seq!['/'] + d2 + seq!['/'] + rest),
{
    let p1 = root + seq!['/'] + d1 + seq!['/'];
    let p2 = root + seq!['/'] + d2 + seq!['/'] + rest;
    if is_prefix(p1, p2) {
        if d1.len() < d2.len() {
            let idx = root.len() + 1 + d1.len();
            assert(p1[idx as int] == '/');
            assert(p2[idx as int] == d2[d1.len() as int]);
            assert(p1[idx as int] == p2.subrange(0, p1.len() as int)[idx as int]);
            assert(false);
        } else if d1.len() == d2.len() {
            assert forall|i: int| 0 <= i < d1.len() implies d1[i] == d2[i] by {
                let idx = root.len() + 1 + i;
                assert(p1[idx] == d1[i]);
                assert(p2[idx] == d2[i]);
                assert(p1[idx] == p2.subrange(0, p1.len() as int)[idx]);
            }
            assert(d1 =~= d2);
            assert(false);
        } else {
            let idx = root.len() + 1 + d2.len();
            assert(p1[idx as int] == d1[d2.len() as int]);
            assert(p2[idx as int] == '/');
            assert(p1[idx as int] == p2.subrange(0, p1.len() as int)[idx as int]);
            assert(false);
        }
    }
}

/// Resolving a category to its directory and reading the category
/// back from a file inside that directory returns the same category:
/// category derivation is the inverse of target-directory resolution.
pub proof fn lemma_category_round_trip(cfg: Config, area: Area, cat: Seq<char>, fname: Seq<char>)
    requires
        cfg.wf(),
        valid_category(cat),
        valid_dir_name(fname),
    ensures
        derive_category_text(cfg, resolve_dir_text(cfg, area, Option::Some(cat)) + seq!['/'] + fname)
            == Option::Some(cat),
{
    let p = resolve_dir_text(cfg, area, Option::Some(cat)) + seq!['/'] + fname;
    lemma_area_of_resolved(cfg, area, cat + seq!['/'] + fname);
    assert(p =~= area_root_text(cfg, area) + seq!['/'] + (cat + seq!['/'] + fname));
    assert(area_of_text(cfg, p) == Option::Some(area));
    let rel = p.skip(area_root_text(cfg, area).len() + 1 as int);
    assert(rel =~= cat + seq!['/'] + fname);
    assert(rel[cat.len() as int] == '/');
    assert(forall|i: int| 0 <= i < cat.len() ==> rel[i] != '/');
    lemma_find_from_exact(rel, '/', 0, cat.len() as int);
    assert(rel.take(cat.len() as int) =~= cat);
}

/// A file directly under an area root carries no category.
pub proof fn lemma_category_round_trip_root(cfg: Config, area: Area, fname: Seq<char>)
    requires
        cfg.wf(),
        valid_dir_name(fname),
    ensures
        derive_category_text(cfg, resolve_dir_text(cfg, area, Option::None) + seq!['/'] + fname)
            == Option::<Seq<char>>::None,
{
    let p = resolve_dir_text(cfg, area, Option::None) + seq!['/'] + fname;
    lemma_area_of_resolved(cfg, area, fname);
    assert(p =~= area_root_text(cfg, area) + seq!['/'] + fname);
    assert(area_of_text(cfg, p) == Option::Some(area));
    let rel = p.skip(area_root_text(cfg, area).len() + 1 as int);
    assert(rel =~= fname);
    assert(forall|i: int| 0 <= i < rel.len() ==> rel[i] != '/');
    lemma_find_from_none(rel, '/', 0);
}

/// A path assembled below an area root is recognized as lying under
/// that root and no earlier-tried one.
proof fn lemma_area_of_resolved(cfg: Config, area: Area, rest: Seq<char>)
    requires
        cfg.wf(),
    ensures
        area_of_text(cfg, area_root_text(cfg, area) + seq!['/'] + rest) == Option::Some(area),
{
    let p = area_root_text(cfg, area) + seq!['/'] + rest;
    assert(p =~= cfg.root@ + seq!['/'] + area_dir_name(cfg, area) + seq!['/'] + rest);
    assert(is_prefix(area_root_text(cfg, area) + seq!['/'], p)) by {
        assert((area_root_text(cfg, area) + seq!['/']) =~= p.subrange(
            0,
            area_root_text(cfg, area).len() + 1 as int,
        ));
    }
    match area {
        Area::Stack => {
        },
        Area::Archive => {
            lemma_distinct_prefix(cfg.root@, cfg.stack_dir@, cfg.archive_dir@, rest);
            assert((cfg.root@ + seq!['/'] + cfg.stack_dir@ + seq!['/']) =~= (area_root_text(
                cfg,
                Area::Stack,
            ) + seq!['/']));
        },
        Area::Template => {
            lemma_distinct_prefix(cfg.root@, cfg.stack_dir@, cfg.template_dir@, rest);
            lemma_distinct_prefix(cfg.root@, cfg.archive_dir@, cfg.template_dir@, rest);
            assert((cfg.root@ + seq!['/'] + cfg.stack_dir@ + seq!['/']) =~= (area_root_text(
                cfg,
                Area::Stack,
            ) + seq!['/']));
            assert((cfg.root@ + seq!['/'] + cfg.archive_dir@ + seq!['/']) =~= (area_root_text(
                cfg,
                Area::Archive,
            ) + seq!['/']));
        },
    }
}

} // verus!
