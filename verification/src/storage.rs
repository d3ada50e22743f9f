//! Persistence planning: create, rename, category move, archive.
//!
//! The engine computes complete plans — target paths and serialized
//! file contents — as pure functions of the configuration, the item,
//! and the directory listings the caller observed. The caller executes
//! each plan with real file operations and re-plans when the file
//! system disagrees (a destination that appeared in the meantime is the
//! retryable condition of creation). This keeps every decision
//! verifiable while the one component that can observe the file system
//! truthfully — the caller — enforces uniqueness at the moment of the
//! exclusive create.

use vstd::prelude::*;
use crate::config::{Config, valid_dir_name, dir_name_ok};
use crate::error::Error;
use crate::item::{Item, FmView, Status, attachment_dir_of, line_ok, line_check, fm_wf};
use crate::paths::{
    Area, area_of, area_of_text, area_root, area_root_text, resolve_dir_text, resolve_target_dir,
    opt_text, valid_category,
};
use crate::slug::{filename_of, item_filename};
use crate::codec::{serialize, serialize_text};
use crate::text::{
    in_seq, contains_string, clone_string_vec, rfind, rfind_after, lemma_rfind, push_char,
    substring_copy, str_eq, starts_with, is_prefix, trim, trim_of, matches_at, occurs_at,
};
use vstd::string::*;

verus! {

/// How many identifier candidates a caller should offer the create
/// operation before giving up: the documented, conservative bound on
/// id-collision retries.
pub const MAX_CREATE_ATTEMPTS: usize = 8;

/// An item loaded from disk together with the path it came from.
pub struct LoadedItem {
    pub path: String,
    pub item: Item,
}

/// First index at or after `i` whose name is not already taken.
pub open spec fn first_free(names: Seq<Seq<char>>, existing: Seq<Seq<char>>, i: int) -> Option<
    int,
>
    decreases names.len() - i,
{
    if i < 0 {
        first_free(names, existing, 0)
    } else if i >= names.len() {
        Option::None
    } else if !in_seq(existing, names[i]) {
        Option::Some(i)
    } else {
        first_free(names, existing, i + 1)
    }
}

/// Uniqueness under retry: when a candidate is picked against a set of
/// existing names it never collides with that set, every candidate
/// before it collided, and exhaustion is reported exactly when every
/// candidate collides — never as a silent collision.
pub proof fn lemma_first_free(names: Seq<Seq<char>>, existing: Seq<Seq<char>>, i: int)
    requires
        0 <= i <= names.len(),
    ensures
        (first_free(names, existing, i) is Some) ==> {
            let j = first_free(names, existing, i)->0;
            &&& i <= j < names.len()
            &&& !in_seq(existing, names[j])
            &&& forall|k: int| i <= k < j ==> in_seq(existing, names[k])
        },
        (first_free(names, existing, i) is None) <==> (forall|k: int|
            i <= k < names.len() ==> in_seq(existing, names[k])),
    decreases names.len() - i,
{
    if i < names.len() && in_seq(existing, names[i]) {
        lemma_first_free(names, existing, i + 1);
    }
}

/// Picks the first candidate identifier that does not collide with
/// the given set of existing identifiers, or reports exhaustion.
pub fn pick_unique_id(candidates: &Vec<String>, existing: &Vec<String>) -> (r: Result<
    String,
    Error,
>)
    ensures
        (r is Ok) <==> (first_free(candidates.deep_view(), existing.deep_view(), 0) is Some),
        (r is Ok) ==> r->Ok_0@ == candidates.deep_view()[first_free(
            candidates.deep_view(),
            existing.deep_view(),
            0,
        )->0],
        (r is Err) ==> r->Err_0 == Error::AlreadyExists,
{
    let n = candidates.len();
    let mut i: usize = 0;
    while i < n
        invariant
            0 <= i <= n,
            n == candidates.len(),
            first_free(candidates.deep_view(), existing.deep_view(), 0) == first_free(
                candidates.deep_view(),
                existing.deep_view(),
                i as int,
            ),
        decreases n - i,
    {
        if !contains_string(existing, candidates[i].as_str()) {
            return Ok(candidates[i].clone());
        }
        i = i + 1;
    }
    Err(Error::AlreadyExists)
}

/// Everything the caller needs to create an item file: the chosen id,
/// the filename, the target directory, the full path, and the
/// serialized content. The caller creates the directory if missing
/// and writes the file only if it does not already exist.
pub struct CreatePlan {
    pub id: String,
    pub filename: String,
    pub dir: String,
    pub path: String,
    pub content: String,
}

/// Abstract value of a create plan.
pub struct CreatePlanView {
    pub id: Seq<char>,
    pub filename: Seq<char>,
    pub dir: Seq<char>,
    pub path: Seq<char>,
    pub content: Seq<char>,
}

impl View for CreatePlan {
    type V = CreatePlanView;

    open spec fn view(&self) -> CreatePlanView {
        CreatePlanView {
            id: self.id@,
            filename: self.filename@,
            dir: self.dir@,
            path: self.path@,
            content: self.content@,
        }
    }
}

/// Inputs a create operation accepts: a title nonempty after trimming,
/// a representable creation time, a usable category name, and
/// metadata that fits the single-line header format.
pub open spec fn create_inputs_valid(fm: FmView, cat: Option<Seq<char>>) -> bool {
    trim_of(fm.title).len() > 0 && fm.created_at.wf() && (match cat {
        Option::None => true,
        Option::Some(c) => valid_category(c),
    }) && line_ok(fm.title) && line_ok(fm.author) && (forall|i: int|
        0 <= i < fm.labels.len() ==> line_ok(#[trigger] fm.labels[i])) && (forall|i: int|
        0 <= i < fm.attachments.len() ==> line_ok(#[trigger] fm.attachments[i]))
}

/// Candidate identifiers must be usable as filename segments.
pub open spec fn cands_valid(cands: Seq<Seq<char>>) -> bool {
    forall|i: int| 0 <= i < cands.len() ==> valid_dir_name(#[trigger] cands[i])
}

/// The filenames the candidate identifiers would produce.
pub open spec fn cand_files(cands: Seq<Seq<char>>, title: Seq<char>) -> Seq<Seq<char>> {
    cands.map(|i: int, c: Seq<char>| filename_of(c, title))
}

/// Whether every string fits on a single header line.
fn all_single_line(xs: &Vec<String>) -> (r: bool)
    ensures
        r == (forall|i: int| 0 <= i < xs.deep_view().len() ==> line_ok(#[trigger] xs.deep_view()[i])),
{
    let n = xs.len();
    let mut i: usize = 0;
    while i < n
        invariant
            0 <= i <= n,
            n == xs@.len(),
            forall|j: int| 0 <= j < i ==> line_ok(#[trigger] xs.deep_view()[j]),
        decreases n - i,
    {
        if !line_check(xs[i].as_str()) {
            assert(!line_ok(xs.deep_view()[i as int]));
            return false;
        }
        i = i + 1;
    }
    true
}

/// Whether every candidate is usable as a filename segment.
fn all_valid_segments(xs: &Vec<String>) -> (r: bool)
    ensures
        r == cands_valid(xs.deep_view()),
{
    let n = xs.len();
    let mut i: usize = 0;
    while i < n
        invariant
            0 <= i <= n,
            n == xs@.len(),
            forall|j: int| 0 <= j < i ==> valid_dir_name(#[trigger] xs.deep_view()[j]),
        decreases n - i,
    {
        if !dir_name_ok(&xs[i]) {
            assert(!valid_dir_name(xs.deep_view()[i as int]));
            return false;
        }
        i = i + 1;
    }
    true
}

/// The complete outcome of planning a create: either the plan or the
/// error, as a function of the observed inputs.
pub open spec fn create_spec(
    cfg: Config,
    fm: FmView,
    body: Seq<char>,
    cat: Option<Seq<char>>,
    area: Area,
    cands: Seq<Seq<char>>,
    existing: Seq<Seq<char>>,
) -> Result<CreatePlanView, Error> {
    if !create_inputs_valid(fm, cat) || !cands_valid(cands) {
        Result::Err(Error::ValidationError)
    } else {
        match first_free(cand_files(cands, fm.title), existing, 0) {
            Option::None => Result::Err(Error::AlreadyExists),
            Option::Some(j) => {
                let chosen = cands[j];
                let fname = filename_of(chosen, fm.title);
                let dir = resolve_dir_text(cfg, area, cat);
                Result::Ok(
                    CreatePlanView {
                        id: chosen,
                        filename: fname,
                        dir: dir,
                        path: dir + seq!['/'] + fname,
                        content: serialize_text(FmView { id: chosen, ..fm }, body),
                    },
                )
            },
        }
    }
}

/// Relates an executable plan result to its specified outcome.
pub open spec fn create_result_is(r: Result<CreatePlan, Error>, s: Result<
    CreatePlanView,
    Error,
>) -> bool {
    match r {
        Result::Ok(p) => (s is Ok) && p@ == s->Ok_0,
        Result::Err(e) => (s is Err) && e == s->Err_0,
    }
}

/// Plans the creation of an item file under the given area. The first
/// candidate identifier whose filename is absent from `existing` (the
/// names in the target directory) is chosen; when all candidates
/// collide the operation fails with `AlreadyExists`.
pub fn plan_create(
    cfg: &Config,
    item: &Item,
    category: Option<&String>,
    area: Area,
    candidates: &Vec<String>,
    existing: &Vec<String>,
) -> (r: Result<CreatePlan, Error>)
    ensures
        create_result_is(
            r,
            create_spec(
                *cfg,
                item.frontmatter@,
                item.body@,
                opt_text(category),
                area,
                candidates.deep_view(),
                existing.deep_view(),
            ),
        ),
{
    let ghost fm = item.frontmatter@;
    let ghost cands = candidates.deep_view();
    let ghost exist = existing.deep_view();
    let title_trim = trim(item.frontmatter.title.as_str());
    if title_trim.as_str().unicode_len() == 0 {
        return Err(Error::ValidationError);
    }
    if !item.frontmatter.created_at.is_wf() {
        return Err(Error::ValidationError);
    }
    if !line_check(item.frontmatter.title.as_str()) || !line_check(
        item.frontmatter.author.as_str(),
    ) {
        return Err(Error::ValidationError);
    }
    if !all_single_line(&item.frontmatter.labels) || !all_single_line(
        &item.frontmatter.attachments,
    ) {
        return Err(Error::ValidationError);
    }
    if !all_valid_segments(candidates) {
        return Err(Error::ValidationError);
    }
    let dir = match resolve_target_dir(cfg, category, area) {
        Err(_) => {
            return Err(Error::ValidationError);
        },
        Ok(d) => d,
    };
    let n = candidates.len();
    let mut i: usize = 0;
    while i < n
        invariant
            0 <= i <= n,
            n == candidates.len(),
            cands == candidates.deep_view(),
            fm == item.frontmatter@,
            exist == existing.deep_view(),
            cand_files(cands, fm.title).len() == n,
            first_free(cand_files(cands, fm.title), exist, 0) == first_free(
                cand_files(cands, fm.title),
                exist,
                i as int,
            ),
            dir@ == resolve_dir_text(*cfg, area, opt_text(category)),
            create_inputs_valid(fm, opt_text(category)),
            cands_valid(cands),
        decreases n - i,
    {
        let fname = item_filename(candidates[i].as_str(), item.frontmatter.title.as_str());
        assert(fname@ == cand_files(cands, fm.title)[i as int]);
        if !contains_string(existing, fname.as_str()) {
            assert(!in_seq(exist, cand_files(cands, fm.title)[i as int]));
            assert(first_free(cand_files(cands, fm.title), exist, i as int) == Option::Some(
                i as int,
            ));
            let chosen = candidates[i].clone();
            let fm2 = crate::item::Frontmatter {
                id: candidates[i].clone(),
                title: item.frontmatter.title.clone(),
                author: item.frontmatter.author.clone(),
                created_at: item.frontmatter.created_at,
                status: item.frontmatter.status,
                labels: clone_string_vec(&item.frontmatter.labels),
                attachments: clone_string_vec(&item.frontmatter.attachments),
            };
            assert(fm2@ == (FmView { id: cands[i as int], ..fm }));
            let item2 = Item { frontmatter: fm2, body: item.body.clone(), path: None };
            let content = serialize(&item2);
            let mut path = dir.clone();
            push_char(&mut path, '/');
            path.append(fname.as_str());
            assert(path@ =~= dir@ + seq!['/'] + fname@);
            let plan = CreatePlan { id: chosen, filename: fname, dir, path, content };
            return Ok(plan);
        }
        assert(in_seq(exist, cand_files(cands, fm.title)[i as int]));
        assert(first_free(cand_files(cands, fm.title), exist, i as int) == first_free(
            cand_files(cands, fm.title),
            exist,
            i + 1 as int,
        ));
        i = i + 1;
    }
    assert(first_free(cand_files(cands, fm.title), exist, n as int) is None);
    Err(Error::AlreadyExists)
}

/// Plans the creation of an open or closed item in the stack area.
pub fn create_item(
    cfg: &Config,
    item: &Item,
    category: Option<&String>,
    candidates: &Vec<String>,
    existing: &Vec<String>,
) -> (r: Result<CreatePlan, Error>)
    ensures
        create_result_is(
            r,
            create_spec(
                *cfg,
                item.frontmatter@,
                item.body@,
                opt_text(category),
                Area::Stack,
                candidates.deep_view(),
                existing.deep_view(),
            ),
        ),
{
    plan_create(cfg, item, category, Area::Stack, candidates, existing)
}

/// Plans the creation of a template in the template area.
pub fn create_template(
    cfg: &Config,
    item: &Item,
    category: Option<&String>,
    candidates: &Vec<String>,
    existing: &Vec<String>,
) -> (r: Result<CreatePlan, Error>)
    ensures
        create_result_is(
            r,
            create_spec(
                *cfg,
                item.frontmatter@,
                item.body@,
                opt_text(category),
                Area::Template,
                candidates.deep_view(),
                existing.deep_view(),
            ),
        ),
{
    plan_create(cfg, item, category, Area::Template, candidates, existing)
}

/// The outcome of a rename: the destination path in the same
/// directory, or the error.
pub open spec fn rename_spec(path: Seq<char>, new_filename: Seq<char>, existing: Seq<
    Seq<char>,
>) -> Result<Seq<char>, Error> {
    if !valid_dir_name(new_filename) {
        Result::Err(Error::ValidationError)
    } else if in_seq(existing, new_filename) {
        Result::Err(Error::AlreadyExists)
    } else {
        Result::Ok(path.take(rfind(path, '/') + 1) + new_filename)
    }
}

/// Relates a string-valued result to its specified outcome.
pub open spec fn str_result_is(r: Result<String, Error>, s: Result<Seq<char>, Error>) -> bool {
    match r {
        Result::Ok(p) => (s is Ok) && p@ == s->Ok_0,
        Result::Err(e) => (s is Err) && e == s->Err_0,
    }
}

/// Plans a rename within the item's directory, as used when a title
/// change alters the slug. `existing` holds the filenames already
/// present in that directory; a collision is the caller's cue to
/// retry with disambiguation.
pub fn rename_item(path: &String, new_filename: &String, existing: &Vec<String>) -> (r: Result<
    String,
    Error,
>)
    ensures
        str_result_is(r, rename_spec(path@, new_filename@, existing.deep_view())),
{
    if !dir_name_ok(new_filename) {
        return Err(Error::ValidationError);
    }
    if contains_string(existing, new_filename.as_str()) {
        return Err(Error::AlreadyExists);
    }
    let cut = rfind_after(path.as_str(), '/');
    proof {
        lemma_rfind(path@, '/');
    }
    let mut r = substring_copy(path.as_str(), 0, cut);
    r.append(new_filename.as_str());
    assert(r@ =~= path@.take(rfind(path@, '/') + 1) + new_filename@);
    Ok(r)
}

/// A category move: the new directory and path for the item file, and
/// the attachment directory move that accompanies it when the item
/// has one.
pub struct MovePlan {
    pub new_dir: String,
    pub new_path: String,
    pub attach_src: Option<String>,
    pub attach_dst: Option<String>,
}

/// Abstract value of a move plan.
pub struct MovePlanView {
    pub new_dir: Seq<char>,
    pub new_path: Seq<char>,
    pub attach_src: Option<Seq<char>>,
    pub attach_dst: Option<Seq<char>>,
}

impl View for MovePlan {
    type V = MovePlanView;

    open spec fn view(&self) -> MovePlanView {
        MovePlanView {
            new_dir: self.new_dir@,
            new_path: self.new_path@,
            attach_src: match self.attach_src {
                Option::None => Option::None,
                Option::Some(ref s) => Option::Some(s@),
            },
            attach_dst: match self.attach_dst {
                Option::None => Option::None,
                Option::Some(ref s) => Option::Some(s@),
            },
        }
    }
}

/// The outcome of a category move: the file keeps its name and area
/// and changes only its directory; an attachment directory moves
/// alongside.
pub open spec fn move_spec(cfg: Config, path: Seq<char>, cat: Option<Seq<char>>) -> Result<
    MovePlanView,
    Error,
> {
    match area_of_text(cfg, path) {
        Option::None => Result::Err(Error::NotFound),
        Option::Some(area) => {
            let cut = rfind(path, '/') + 1;
            let fname = path.skip(cut);
            if fname.len() == 0 {
                Result::Err(Error::ValidationError)
            } else if !(match cat {
                Option::None => true,
                Option::Some(c) => valid_category(c),
            }) {
                Result::Err(Error::ValidationError)
            } else {
                let nd = resolve_dir_text(cfg, area, cat);
                let np = nd + seq!['/'] + fname;
                Result::Ok(
                    MovePlanView {
                        new_dir: nd,
                        new_path: np,
                        attach_src: attachment_dir_of(path),
                        attach_dst: match attachment_dir_of(path) {
                            Option::None => Option::None,
                            Option::Some(_) => attachment_dir_of(np),
                        },
                    },
                )
            }
        },
    }
}

/// Relates an executable move plan to its specified outcome.
pub open spec fn move_result_is(r: Result<MovePlan, Error>, s: Result<
    MovePlanView,
    Error,
>) -> bool {
    match r {
        Result::Ok(p) => (s is Ok) && p@ == s->Ok_0,
        Result::Err(e) => (s is Err) && e == s->Err_0,
    }
}

/// Plans moving an item file (and its attachment directory, if any)
/// to the directory of another category — or to the area root for
/// `None` — preserving the filename. Category is directory placement
/// and nothing else: no metadata write accompanies this move.
pub fn move_to_category(cfg: &Config, path: &String, category: Option<&String>) -> (r: Result<
    MovePlan,
    Error,
>)
    ensures
        move_result_is(r, move_spec(*cfg, path@, opt_text(category))),
{
    let area = match area_of(cfg, path.as_str()) {
        None => {
            return Err(Error::NotFound);
        },
        Some(a) => a,
    };
    let n: usize = path.as_str().unicode_len();
    let cut = rfind_after(path.as_str(), '/');
    proof {
        lemma_rfind(path@, '/');
    }
    if cut >= n {
        assert(path@.skip(rfind(path@, '/') + 1).len() == 0);
        return Err(Error::ValidationError);
    }
    let fname = substring_copy(path.as_str(), cut, n);
    assert(fname@ =~= path@.skip(rfind(path@, '/') + 1));
    let nd = match resolve_target_dir(cfg, category, area) {
        Err(_) => {
            return Err(Error::ValidationError);
        },
        Ok(d) => d,
    };
    let mut np = nd.clone();
    push_char(&mut np, '/');
    np.append(fname.as_str());
    assert(np@ =~= nd@ + seq!['/'] + fname@);
    let fl: usize = fname.as_str().unicode_len();
    proof {
        reveal_strlit(".md");
    }
    let has_attach = n >= 3 && matches_at(path.as_str(), ".md", n - 3);
    let (attach_src, attach_dst): (Option<String>, Option<String>) = if has_attach {
        proof {
            assert(occurs_at(path@, ".md"@, n - 3 as int));
            assert(path@.subrange(n - 3 as int, n as int) =~= seq!['.', 'm', 'd']);
        }
        let asrc = substring_copy(path.as_str(), 0, n - 3);
        let npl: usize = np.as_str().unicode_len();
        assert(np@.subrange(npl - 3 as int, npl as int) =~= seq!['.', 'm', 'd']);
        let adst = substring_copy(np.as_str(), 0, npl - 3);
        assert(asrc@ == attachment_dir_of(path@)->0);
        assert(adst@ == attachment_dir_of(np@)->0);
        (Some(asrc), Some(adst))
    } else {
        proof {
            if n >= 3 {
                assert(!occurs_at(path@, ".md"@, n - 3 as int));
                assert(attachment_dir_of(path@) is None) by {
                    if path@.subrange(n - 3 as int, n as int) =~= seq!['.', 'm', 'd'] {
                        assert(occurs_at(path@, ".md"@, n - 3 as int));
                    }
                }
            }
        }
        (None, None)
    };
    Ok(MovePlan { new_dir: nd, new_path: np, attach_src, attach_dst })
}

/// A status transfer between areas: the destination path, the file
/// content with the flipped status, and the accompanying attachment
/// directory move. Metadata write and file move are one logical
/// operation: the caller performs both or reports the operation
/// failed.
pub struct TransferPlan {
    pub new_path: String,
    pub content: String,
    pub attach_src: Option<String>,
    pub attach_dst: Option<String>,
}

/// Abstract value of a transfer plan.
pub struct TransferPlanView {
    pub new_path: Seq<char>,
    pub content: Seq<char>,
    pub attach_src: Option<Seq<char>>,
    pub attach_dst: Option<Seq<char>>,
}

impl View for TransferPlan {
    type V = TransferPlanView;

    open spec fn view(&self) -> TransferPlanView {
        TransferPlanView {
            new_path: self.new_path@,
            content: self.content@,
            attach_src: match self.attach_src {
                Option::None => Option::None,
                Option::Some(ref s) => Option::Some(s@),
            },
            attach_dst: match self.attach_dst {
                Option::None => Option::None,
                Option::Some(ref s) => Option::Some(s@),
            },
        }
    }
}

/// The outcome of moving an item from one area root to the other,
/// preserving the category subpath and flipping the status.
pub open spec fn transfer_spec(
    cfg: Config,
    path: Seq<char>,
    fm: FmView,
    body: Seq<char>,
    from: Area,
    to: Area,
    need: Status,
    next: Status,
) -> Result<TransferPlanView, Error> {
    if fm.status != need {
        Result::Err(Error::InvalidState)
    } else if !fm.created_at.wf() {
        Result::Err(Error::ValidationError)
    } else if !is_prefix(area_root_text(cfg, from) + seq!['/'], path) {
        Result::Err(Error::NotFound)
    } else {
        let np = area_root_text(cfg, to) + path.skip(area_root_text(cfg, from).len() as int);
        Result::Ok(
            TransferPlanView {
                new_path: np,
                content: serialize_text(FmView { status: next, ..fm }, body),
                attach_src: attachment_dir_of(path),
                attach_dst: match attachment_dir_of(path) {
                    Option::None => Option::None,
                    Option::Some(_) => attachment_dir_of(np),
                },
            },
        )
    }
}

/// Relates an executable transfer plan to its specified outcome.
pub open spec fn transfer_result_is(r: Result<TransferPlan, Error>, s: Result<
    TransferPlanView,
    Error,
>) -> bool {
    match r {
        Result::Ok(p) => (s is Ok) && p@ == s->Ok_0,
        Result::Err(e) => (s is Err) && e == s->Err_0,
    }
}

/// Shared planner for `archive` and `unarchive`.
fn plan_transfer(
    cfg: &Config,
    path: &String,
    item: &Item,
    from: Area,
    to: Area,
    need: Status,
    next: Status,
) -> (r: Result<TransferPlan, Error>)
    ensures
        transfer_result_is(
            r,
            transfer_spec(*cfg, path@, item.frontmatter@, item.body@, from, to, need, next),
        ),
{
    let status_matches = match (item.frontmatter.status, need) {
        (Status::Open, Status::Open) => true,
        (Status::Closed, Status::Closed) => true,
        (Status::Template, Status::Template) => true,
        _ => false,
    };
    if !status_matches {
        return Err(Error::InvalidState);
    }
    if !item.frontmatter.created_at.is_wf() {
        return Err(Error::ValidationError);
    }
    let root = area_root(cfg, from);
    let mut pre = root.clone();
    push_char(&mut pre, '/');
    if !starts_with(path.as_str(), pre.as_str()) {
        assert(!is_prefix(area_root_text(*cfg, from) + seq!['/'], path@)) by {
            assert(pre@ =~= area_root_text(*cfg, from) + seq!['/']);
        }
        return Err(Error::NotFound);
    }
    assert(is_prefix(area_root_text(*cfg, from) + seq!['/'], path@)) by {
        assert(pre@ =~= area_root_text(*cfg, from) + seq!['/']);
    }
    let n: usize = path.as_str().unicode_len();
    let rl: usize = root.as_str().unicode_len();
    assert(rl + 1 <= n) by {
        assert(is_prefix(area_root_text(*cfg, from) + seq!['/'], path@));
    }
    let rel = substring_copy(path.as_str(), rl, n);
    let mut np = area_root(cfg, to);
    np.append(rel.as_str());
    assert(np@ =~= area_root_text(*cfg, to) + path@.skip(area_root_text(*cfg, from).len() as int));
    let fm2 = crate::item::Frontmatter {
        id: item.frontmatter.id.clone(),
        title: item.frontmatter.title.clone(),
        author: item.frontmatter.author.clone(),
        created_at: item.frontmatter.created_at,
        status: next,
        labels: clone_string_vec(&item.frontmatter.labels),
        attachments: clone_string_vec(&item.frontmatter.attachments),
    };
    assert(fm2@ == (FmView { status: next, ..item.frontmatter@ }));
    let item2 = Item { frontmatter: fm2, body: item.body.clone(), path: None };
    let content = serialize(&item2);
    proof {
        reveal_strlit(".md");
    }
    let has_attach = n >= 3 && matches_at(path.as_str(), ".md", n - 3);
    let (attach_src, attach_dst): (Option<String>, Option<String>) = if has_attach {
        proof {
            assert(occurs_at(path@, ".md"@, n - 3 as int));
            assert(path@.subrange(n - 3 as int, n as int) =~= seq!['.', 'm', 'd']);
            assert(path@[n - 3 as int] == '.' && path@[n - 2 as int] == 'm' && path@[n - 1 as int]
                == 'd');
            assert(path@[rl as int] == '/') by {
                assert(is_prefix(area_root_text(*cfg, from) + seq!['/'], path@));
                assert((area_root_text(*cfg, from) + seq!['/'])[rl as int] == '/');
            }
            assert(rl + 4 <= n);
        }
        let asrc = substring_copy(path.as_str(), 0, n - 3);
        let npl: usize = np.as_str().unicode_len();
        proof {
            assert(npl == area_root_text(*cfg, to).len() + (n - rl));
            assert(np@.subrange(npl - 3 as int, npl as int) =~= seq!['.', 'm', 'd']);
        }
        let adst = substring_copy(np.as_str(), 0, npl - 3);
        assert(asrc@ == attachment_dir_of(path@)->0);
        assert(adst@ == attachment_dir_of(np@)->0);
        (Some(asrc), Some(adst))
    } else {
        proof {
            if n >= 3 {
                assert(!occurs_at(path@, ".md"@, n - 3 as int));
                assert(attachment_dir_of(path@) is None) by {
                    if path@.subrange(n - 3 as int, n as int) =~= seq!['.', 'm', 'd'] {
                        assert(occurs_at(path@, ".md"@, n - 3 as int));
                    }
                }
            }
        }
        (None, None)
    };
    Ok(TransferPlan { new_path: np, content, attach_src, attach_dst })
}

/// Plans closing an open item: the file moves from the stack root to
/// the archive root, keeping its category subpath, and the status
/// flips to `Closed` in the rewritten content.
pub fn archive(cfg: &Config, path: &String, item: &Item) -> (r: Result<TransferPlan, Error>)
    ensures
        transfer_result_is(
            r,
            transfer_spec(
                *cfg,
                path@,
                item.frontmatter@,
                item.body@,
                Area::Stack,
                Area::Archive,
                Status::Open,
                Status::Closed,
            ),
        ),
{
    plan_transfer(cfg, path, item, Area::Stack, Area::Archive, Status::Open, Status::Closed)
}

/// Plans reopening a closed item: the reverse of `archive`.
pub fn unarchive(cfg: &Config, path: &String, item: &Item) -> (r: Result<TransferPlan, Error>)
    ensures
        transfer_result_is(
            r,
            transfer_spec(
                *cfg,
                path@,
                item.frontmatter@,
                item.body@,
                Area::Archive,
                Area::Stack,
                Status::Closed,
                Status::Open,
            ),
        ),
{
    plan_transfer(cfg, path, item, Area::Archive, Area::Stack, Status::Closed, Status::Open)
}

/// First index at or after `i` whose name equals `x`.
pub open spec fn first_eq(names: Seq<Seq<char>>, x: Seq<char>, i: int) -> Option<int>
    decreases names.len() - i,
{
    if i < 0 {
        first_eq(names, x, 0)
    } else if i >= names.len() {
        Option::None
    } else if names[i] == x {
        Option::Some(i)
    } else {
        first_eq(names, x, i + 1)
    }
}

/// How many names at or after `i` start with `x`.
pub open spec fn prefix_count(names: Seq<Seq<char>>, x: Seq<char>, i: int) -> int
    decreases names.len() - i,
{
    if i < 0 {
        prefix_count(names, x, 0)
    } else if i >= names.len() {
        0
    } else if is_prefix(x, names[i]) {
        1 + prefix_count(names, x, i + 1)
    } else {
        prefix_count(names, x, i + 1)
    }
}

/// First index at or after `i` whose name starts with `x`.
pub open spec fn first_pref(names: Seq<Seq<char>>, x: Seq<char>, i: int) -> Option<int>
    decreases names.len() - i,
{
    if i < 0 {
        first_pref(names, x, 0)
    } else if i >= names.len() {
        Option::None
    } else if is_prefix(x, names[i]) {
        Option::Some(i)
    } else {
        first_pref(names, x, i + 1)
    }
}

/// The outcome of resolving a reference against a list of names: an
/// exact match wins; otherwise a unique prefix match; no match is
/// `NotFound`, and several prefix matches are reported as ambiguous
/// rather than resolved arbitrarily.
pub open spec fn resolve_spec(refr: Seq<char>, names: Seq<Seq<char>>) -> Result<int, Error> {
    match first_eq(names, refr, 0) {
        Option::Some(i) => Result::Ok(i),
        Option::None => {
            let c = prefix_count(names, refr, 0);
            if c == 0 {
                Result::Err(Error::NotFound)
            } else if c == 1 {
                Result::Ok(first_pref(names, refr, 0)->0)
            } else {
                Result::Err(Error::AmbiguousReference)
            }
        },
    }
}

/// Relates an index-valued result to its specified outcome.
pub open spec fn idx_result_is(r: Result<usize, Error>, s: Result<int, Error>) -> bool {
    match r {
        Result::Ok(p) => (s is Ok) && p as int == s->Ok_0,
        Result::Err(e) => (s is Err) && e == s->Err_0,
    }
}

/// Resolves a reference — a full identifier or a prefix of one —
/// against the identifiers of the known items, yielding the index of
/// the matching entry.
pub fn resolve_reference(reference: &String, names: &Vec<String>) -> (r: Result<usize, Error>)
    ensures
        idx_result_is(r, resolve_spec(reference@, names.deep_view())),
{
    let ghost nv = names.deep_view();
    let n = names.len();
    let mut i: usize = 0;
    while i < n
        invariant
            0 <= i <= n,
            n == names.len(),
            nv == names.deep_view(),
            first_eq(nv, reference@, 0) == first_eq(nv, reference@, i as int),
        decreases n - i,
    {
        if str_eq(names[i].as_str(), reference.as_str()) {
            assert(nv[i as int] == reference@);
            return Ok(i);
        }
        assert(nv[i as int] != reference@);
        i = i + 1;
    }
    assert(first_eq(nv, reference@, n as int) is None);
    let mut count: usize = 0;
    let mut found: usize = 0;
    let mut j: usize = 0;
    while j < n
        invariant
            0 <= j <= n,
            n == names.len(),
            nv == names.deep_view(),
            count <= j,
            prefix_count(nv, reference@, 0) == count + prefix_count(nv, reference@, j as int),
            count > 0 ==> (first_pref(nv, reference@, 0) is Some) && first_pref(
                nv,
                reference@,
                0,
            )->0 == found as int,
            count == 0 ==> first_pref(nv, reference@, 0) == first_pref(nv, reference@, j as int),
        decreases n - j,
    {
        if starts_with(names[j].as_str(), reference.as_str()) {
            assert(is_prefix(reference@, nv[j as int]));
            if count == 0 {
                found = j;
            }
            count = count + 1;
        } else {
            assert(!is_prefix(reference@, nv[j as int]));
        }
        j = j + 1;
    }
    assert(prefix_count(nv, reference@, n as int) == 0);
    assert(first_pref(nv, reference@, n as int) is None);
    if count == 0 {
        Err(Error::NotFound)
    } else if count == 1 {
        Ok(found)
    } else {
        Err(Error::AmbiguousReference)
    }
}

/// A planned create writes a file that parses back to exactly the
/// item it records: the round-trip law carries over to every file the
/// engine creates.
pub proof fn lemma_create_content_round_trip(
    cfg: Config,
    fm: FmView,
    body: Seq<char>,
    cat: Option<Seq<char>>,
    area: Area,
    cands: Seq<Seq<char>>,
    existing: Seq<Seq<char>>,
)
    requires
        create_spec(cfg, fm, body, cat, area, cands, existing) is Ok,
    ensures
        ({
            let plan = create_spec(cfg, fm, body, cat, area, cands, existing)->Ok_0;
            crate::codec::parse_text(plan.content) == Option::Some(
                (FmView { id: plan.id, ..fm }, body),
            )
        }),
{
    let plan = create_spec(cfg, fm, body, cat, area, cands, existing)->Ok_0;
    let j = first_free(cand_files(cands, fm.title), existing, 0)->0;
    lemma_first_free(cand_files(cands, fm.title), existing, 0);
    assert(0 <= j < cands.len()) by {
        assert(cand_files(cands, fm.title).len() == cands.len());
    }
    assert(valid_dir_name(cands[j]));
    let fm2 = FmView { id: cands[j], ..fm };
    assert(fm_wf(fm2));
    crate::codec::lemma_parse_serialize(fm2, body);
}

} // verus!
