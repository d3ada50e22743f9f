//! The in-memory item model.
//!
//! An item is structured metadata (its frontmatter) plus a free-text
//! body, and optionally the path it was loaded from. The id is opaque
//! and immutable once assigned; the creation time is fixed at creation;
//! labels carry set semantics enforced by normalization; attachments
//! are an ordered sequence in which duplicates are allowed.

use vstd::prelude::*;
use crate::ident::{normalize_of, normalize_identifier};
use crate::slug::{filename_of, item_filename};
use crate::text::{find_char, str_eq, matches_at, occurs_at, substring_copy};
use crate::timestamp::Timestamp;
use vstd::string::*;

verus! {

/// Lifecycle status of an item. `Open` and `Closed` convert into one
/// another; a template is never closed or reopened, only read as a
/// source for spawning new open items.
#[derive(Debug, Clone, Copy, PartialEq, Eq, Structural)]
pub enum Status {
    Open,
    Closed,
    Template,
}

/// The header text of a status value.
pub open spec fn status_text(s: Status) -> Seq<char> {
    match s {
        Status::Open => seq!['o', 'p', 'e', 'n'],
        Status::Closed => seq!['c', 'l', 'o', 's', 'e', 'd'],
        Status::Template => seq!['t', 'e', 'm', 'p', 'l', 'a', 't', 'e'],
    }
}

/// The status a header value denotes, if any.
pub open spec fn status_of_text(t: Seq<char>) -> Option<Status> {
    if t == status_text(Status::Open) {
        Option::Some(Status::Open)
    } else if t == status_text(Status::Closed) {
        Option::Some(Status::Closed)
    } else if t == status_text(Status::Template) {
        Option::Some(Status::Template)
    } else {
        Option::None
    }
}

/// Formats a status for the header.
pub fn format_status(s: Status) -> (r: String)
    ensures
        r@ == status_text(s),
{
    proof {
        reveal_strlit("open");
        reveal_strlit("closed");
        reveal_strlit("template");
    }
    let r = match s {
        Status::Open => "open".to_owned(),
        Status::Closed => "closed".to_owned(),
        Status::Template => "template".to_owned(),
    };
    assert(r@ =~= status_text(s));
    r
}

/// Reads a status from header text.
pub fn parse_status(t: &str) -> (r: Option<Status>)
    ensures
        r == status_of_text(t@),
{
    proof {
        reveal_strlit("open");
        reveal_strlit("closed");
        reveal_strlit("template");
        assert("open"@ =~= status_text(Status::Open));
        assert("closed"@ =~= status_text(Status::Closed));
        assert("template"@ =~= status_text(Status::Template));
    }
    if str_eq(t, "open") {
        assert(t@ =~= status_text(Status::Open));
        Some(Status::Open)
    } else if str_eq(t, "closed") {
        assert(t@ =~= status_text(Status::Closed));
        Some(Status::Closed)
    } else if str_eq(t, "template") {
        assert(t@ =~= status_text(Status::Template));
        Some(Status::Template)
    } else {
        assert(t@ != status_text(Status::Open));
        assert(t@ != status_text(Status::Closed));
        assert(t@ != status_text(Status::Template));
        None
    }
}

/// Structured metadata of an item.
#[derive(Debug, PartialEq)]
pub struct Frontmatter {
    pub id: String,
    pub title: String,
    pub author: String,
    pub created_at: Timestamp,
    pub status: Status,
    pub labels: Vec<String>,
    pub attachments: Vec<String>,
}

/// Abstract value of a frontmatter.
pub struct FmView {
    pub id: Seq<char>,
    pub title: Seq<char>,
    pub author: Seq<char>,
    pub created_at: Timestamp,
    pub status: Status,
    pub labels: Seq<Seq<char>>,
    pub attachments: Seq<Seq<char>>,
}

impl View for Frontmatter {
    type V = FmView;

    open spec fn view(&self) -> FmView {
        FmView {
            id: self.id@,
            title: self.title@,
            author: self.author@,
            created_at: self.created_at,
            status: self.status,
            labels: self.labels.deep_view(),
            attachments: self.attachments.deep_view(),
        }
    }
}

/// Whether `s` can stand on a single header line.
pub open spec fn line_ok(s: Seq<char>) -> bool {
    forall|i: int| 0 <= i < s.len() ==> s[i] != '\n'
}

/// A valid frontmatter: single-line fields, a nonempty id, a title
/// that is nonempty after trimming, an in-range creation time, and
/// single-line list entries.
pub open spec fn fm_wf(v: FmView) -> bool {
    v.id.len() > 0 && line_ok(v.id) && line_ok(v.title) && crate::text::trim_of(v.title).len() > 0
        && line_ok(v.author) && v.created_at.wf() && (forall|i: int|
        0 <= i < v.labels.len() ==> line_ok(#[trigger] v.labels[i])) && (forall|i: int|
        0 <= i < v.attachments.len() ==> line_ok(#[trigger] v.attachments[i]))
}

/// Executable single-line check.
pub fn line_check(s: &str) -> (r: bool)
    ensures
        r == line_ok(s@),
{
    let n: usize = s.unicode_len();
    let k = find_char(s, '\n', 0);
    proof {
        crate::text::lemma_find_from(s@, '\n', 0);
    }
    k == n
}

/// Whether a label equal to `x` is already present.
pub open spec fn has_label(ls: Seq<Seq<char>>, x: Seq<char>) -> bool {
    exists|i: int| 0 <= i < ls.len() && ls[i] == x
}

/// A tracked unit of work: metadata, body, and the backing file's
/// location once persisted.
#[derive(Debug, PartialEq)]
pub struct Item {
    pub frontmatter: Frontmatter,
    pub body: String,
    pub path: Option<String>,
}

/// Abstract value of an item.
pub struct ItemView {
    pub frontmatter: FmView,
    pub body: Seq<char>,
    pub path: Option<Seq<char>>,
}

impl View for Item {
    type V = ItemView;

    open spec fn view(&self) -> ItemView {
        ItemView {
            frontmatter: self.frontmatter@,
            body: self.body@,
            path: match self.path {
                Option::None => Option::None,
                Option::Some(ref p) => Option::Some(p@),
            },
        }
    }
}

impl Item {
    /// A fresh, unpersisted item around the given metadata.
    pub fn new(frontmatter: Frontmatter) -> (r: Item)
        ensures
            r.frontmatter@ == frontmatter@,
            r.body@ == Seq::<char>::empty(),
            r.path is None,
    {
        Item { frontmatter, body: String::new(), path: None }
    }

    /// The item's identifier.
    pub fn id(&self) -> (r: &str)
        ensures
            r@ == self.frontmatter@.id,
    {
        self.frontmatter.id.as_str()
    }

    /// The item's title.
    pub fn title(&self) -> (r: &str)
        ensures
            r@ == self.frontmatter@.title,
    {
        self.frontmatter.title.as_str()
    }

    /// The item's author.
    pub fn author(&self) -> (r: &str)
        ensures
            r@ == self.frontmatter@.author,
    {
        self.frontmatter.author.as_str()
    }

    /// The item's creation time.
    pub fn created_at(&self) -> (r: Timestamp)
        ensures
            r == self.frontmatter@.created_at,
    {
        self.frontmatter.created_at
    }

    /// The item's status.
    pub fn status(&self) -> (r: Status)
        ensures
            r == self.frontmatter@.status,
    {
        self.frontmatter.status
    }

    /// The item's labels.
    pub fn labels(&self) -> (r: &Vec<String>)
        ensures
            r.deep_view() == self.frontmatter@.labels,
    {
        &self.frontmatter.labels
    }

    /// The item's attachments.
    pub fn attachments(&self) -> (r: &Vec<String>)
        ensures
            r.deep_view() == self.frontmatter@.attachments,
    {
        &self.frontmatter.attachments
    }

    /// Replaces the title. The id, and hence the id portion of the
    /// filename, is untouched.
    pub fn set_title(&mut self, title: String)
        ensures
            final(self).frontmatter@ == (FmView { title: title@, ..old(self).frontmatter@ }),
            final(self).body@ == old(self).body@,
            final(self)@.path == old(self)@.path,
    {
        self.frontmatter.title = title;
    }

    /// Adds a label after normalization, unless an equal label is
    /// already present: `"Bug Fix"` and `"bug-fix"` are the same label.
    pub fn add_label(&mut self, label: &str) -> (added: bool)
        ensures
            added == !has_label(old(self).frontmatter@.labels, normalize_of(label@)),
            added ==> final(self).frontmatter@ == (FmView {
                labels: old(self).frontmatter@.labels.push(normalize_of(label@)),
                ..old(self).frontmatter@
            }),
            !added ==> final(self).frontmatter@ == old(self).frontmatter@,
            final(self).body@ == old(self).body@,
            final(self)@.path == old(self)@.path,
    {
        let norm = normalize_identifier(label);
        let n = self.frontmatter.labels.len();
        let mut i: usize = 0;
        while i < n
            invariant
                0 <= i <= n,
                n == self.frontmatter.labels.len(),
                norm@ == normalize_of(label@),
                forall|j: int| 0 <= j < i ==> self.frontmatter@.labels[j] != norm@,
            decreases n - i,
        {
            if str_eq(self.frontmatter.labels[i].as_str(), norm.as_str()) {
                assert(self.frontmatter@.labels[i as int] == norm@);
                return false;
            }
            i = i + 1;
        }
        assert(!has_label(self.frontmatter@.labels, norm@));
        self.frontmatter.labels.push(norm);
        assert(self.frontmatter@.labels =~= old(self).frontmatter@.labels.push(
            normalize_of(label@),
        ));
        true
    }

    /// Removes every label equal to the normalized form of `label`.
    pub fn remove_label(&mut self, label: &str) -> (removed: bool)
        ensures
            final(self).frontmatter@ == (FmView {
                labels: old(self).frontmatter@.labels.filter(
                    |l: Seq<char>| l != normalize_of(label@),
                ),
                ..old(self).frontmatter@
            }),
            removed == has_label(old(self).frontmatter@.labels, normalize_of(label@)),
            final(self).body@ == old(self).body@,
            final(self)@.path == old(self)@.path,
    {
        let norm = normalize_identifier(label);
        let n = self.frontmatter.labels.len();
        let mut kept: Vec<String> = Vec::new();
        let mut removed = false;
        let mut i: usize = 0;
        while i < n
            invariant
                0 <= i <= n,
                n == self.frontmatter.labels.len(),
                norm@ == normalize_of(label@),
                kept.deep_view() =~= self.frontmatter@.labels.take(i as int).filter(
                    |l: Seq<char>| l != normalize_of(label@),
                ),
                removed == exists|j: int|
                    0 <= j < i && self.frontmatter@.labels[j] == normalize_of(label@),
            decreases n - i,
        {
            proof {
                assert(self.frontmatter@.labels.take(i + 1 as int).drop_last()
                    =~= self.frontmatter@.labels.take(i as int));
                reveal(Seq::filter);
            }
            let ghost pre = kept.deep_view();
            if str_eq(self.frontmatter.labels[i].as_str(), norm.as_str()) {
                removed = true;
            } else {
                let copy = self.frontmatter.labels[i].clone();
                kept.push(copy);
                assert(kept.deep_view() =~= pre.push(self.frontmatter@.labels[i as int]));
            }
            proof {
                assert(self.frontmatter@.labels.take(i + 1 as int).last()
                    == self.frontmatter@.labels[i as int]);
            }
            i = i + 1;
        }
        proof {
            assert(self.frontmatter@.labels.take(n as int) =~= self.frontmatter@.labels);
        }
        self.frontmatter.labels = kept;
        removed
    }

    /// Removes and returns the attachment at `index` (0-based), when
    /// it exists.
    pub fn remove_attachment(&mut self, index: usize) -> (r: Option<String>)
        ensures
            index < old(self).frontmatter@.attachments.len() ==> (r is Some) && r->0@ == old(
                self,
            ).frontmatter@.attachments[index as int] && final(self).frontmatter@ == (FmView {
                attachments: old(self).frontmatter@.attachments.remove(index as int),
                ..old(self).frontmatter@
            }),
            index >= old(self).frontmatter@.attachments.len() ==> (r is None) && final(self)@
                == old(self)@,
            final(self).body@ == old(self).body@,
            final(self)@.path == old(self)@.path,
    {
        if index < self.frontmatter.attachments.len() {
            let r = self.frontmatter.attachments.remove(index);
            assert(self.frontmatter@.attachments =~= old(
                self,
            ).frontmatter@.attachments.remove(index as int));
            Some(r)
        } else {
            None
        }
    }

    /// The filename this item should carry, derived from its id and
    /// title.
    pub fn filename(&self) -> (r: String)
        ensures
            r@ == filename_of(self.frontmatter@.id, self.frontmatter@.title),
    {
        item_filename(self.frontmatter.id.as_str(), self.frontmatter.title.as_str())
    }

    /// The attachment directory co-located with the item file: the
    /// item path with its extension removed. `None` while the item is
    /// unpersisted or its path does not carry the item extension.
    pub fn attachment_dir(&self) -> (r: Option<String>)
        ensures
            (r is Some) <==> ((self@.path is Some) && (attachment_dir_of(self@.path->0) is Some)),
            (r is Some) ==> r->0@ == attachment_dir_of(self@.path->0)->0,
    {
        match self.path {
            None => None,
            Some(ref p) => {
                let n: usize = p.as_str().unicode_len();
                proof {
                    reveal_strlit(".md");
                }
                if n >= 3 && matches_at(p.as_str(), ".md", n - 3) {
                    proof {
                        reveal_strlit(".md");
                        assert(occurs_at(p@, ".md"@, n - 3 as int));
                        assert(p@.subrange(n - 3 as int, n as int) =~= ".md"@);
                    }
                    let d = substring_copy(p.as_str(), 0, n - 3);
                    Some(d)
                } else {
                    proof {
                        reveal_strlit(".md");
                        if n >= 3 {
                            assert(!occurs_at(p@, ".md"@, n - 3 as int));
                        }
                    }
                    None
                }
            },
        }
    }
}

/// The attachment directory a persisted path implies: the path with
/// the trailing `.md` removed, when it ends that way.
pub open spec fn attachment_dir_of(p: Seq<char>) -> Option<Seq<char>> {
    if p.len() >= 3 && p.subrange(p.len() - 3, p.len() as int) =~= seq!['.', 'm', 'd'] {
        Option::Some(p.subrange(0, p.len() - 3))
    } else {
        Option::None
    }
}

} // verus!
