//! Attachment bookkeeping.
//!
//! A source string is classified by its shape: anything with a URL
//! scheme is recorded verbatim and never touches the file system;
//! anything else is a local path whose file the caller copies into the
//! item's attachment directory under a collision-free name. Removal
//! validates every requested index before removing anything, then
//! proceeds from the highest index to the lowest so that earlier
//! removals cannot invalidate later positions.

use vstd::prelude::*;
use crate::error::Error;
use crate::item::{Item, FmView, Status};
use crate::text::{
    in_seq, contains_string, rfind, rfind_after, lemma_rfind, push_char, substring_copy,
};
use vstd::string::*;

verus! {

/// The outcome of processing one attachment source.
#[derive(Debug)]
pub enum AttachmentResult {
    /// The source was a URL and was recorded verbatim.
    UrlAdded(String),
    /// The source was a local file; it is to be copied under the
    /// returned name.
    FileCopied { original: String, new_name: String },
    /// The source was a local path but no file exists there; nothing
    /// was recorded.
    FileNotFound(String),
}

/// An ASCII letter, as allowed in a URL scheme.
pub open spec fn is_letter(c: char) -> bool {
    ('a' <= c && c <= 'z') || ('A' <= c && c <= 'Z')
}

/// Whether `s` has the shape of a URL: a nonempty scheme of letters
/// followed by `://`. Any string of this shape is always treated as a
/// URL attachment.
pub open spec fn url_shape(s: Seq<char>) -> bool {
    exists|k: int|
        1 <= k && k + 3 <= s.len() && (forall|i: int| 0 <= i < k ==> is_letter(#[trigger] s[i]))
            && #[trigger] s[k] == ':' && s[k + 1] == '/' && s[k + 2] == '/'
}

/// Executable letter test.
fn letter_char(c: char) -> (r: bool)
    ensures
        r == is_letter(c),
{
    let u = c as u32;
    (97 <= u && u <= 122) || (65 <= u && u <= 90)
}

/// Classifies a source string as URL or local path.
pub fn is_url(s: &str) -> (r: bool)
    ensures
        r == url_shape(s@),
{
    let n: usize = s.unicode_len();
    let mut k: usize = 0;
    while k < n && letter_char(s.get_char(k))
        invariant
            0 <= k <= n,
            n == s@.len(),
            forall|i: int| 0 <= i < k ==> is_letter(#[trigger] s@[i]),
        decreases n - k,
    {
        k = k + 1;
    }
    // k is the first non-letter position (or the end).
    if k >= 1 && n >= 3 && k <= n - 3 && s.get_char(k) == ':' && s.get_char(k + 1) == '/'
        && s.get_char(k + 2) == '/' {
        assert(url_shape(s@));
        true
    } else {
        assert(!url_shape(s@)) by {
            if url_shape(s@) {
                let w = choose|w: int|
                    1 <= w && w + 3 <= s@.len() && (forall|i: int|
                        0 <= i < w ==> is_letter(#[trigger] s@[i])) && #[trigger] s@[w] == ':'
                        && s@[w + 1] == '/' && s@[w + 2] == '/';
                assert(!is_letter(':'));
                if w < k {
                    assert(is_letter(s@[w]));
                    assert(false);
                }
                if w > k {
                    assert(k < n);
                    assert(!is_letter(s@[k as int]));
                    assert(is_letter(s@[k as int]));
                    assert(false);
                }
                assert(w == k);
                assert(false);
            }
        }
        false
    }
}

/// The basename of a source path: everything after the last `/`.
pub open spec fn base_of(s: Seq<char>) -> Seq<char> {
    s.skip(rfind(s, '/') + 1)
}

/// Extracts the basename of a source path.
pub fn basename(s: &str) -> (r: String)
    ensures
        r@ == base_of(s@),
{
    let n: usize = s.unicode_len();
    let cut = rfind_after(s, '/');
    proof {
        lemma_rfind(s@, '/');
    }
    let r = substring_copy(s, cut, n);
    assert(r@ =~= base_of(s@));
    r
}

/// A name for the attachment that does not collide with the names
/// already present: the name itself when free, a suffixed variant
/// otherwise.
pub fn unique_attachment_name(name: &String, existing: &Vec<String>) -> (r: String)
    ensures
        !in_seq(existing.deep_view(), r@),
        !in_seq(existing.deep_view(), name@) ==> r@ == name@,
{
    if !contains_string(existing, name.as_str()) {
        return name.clone();
    }
    let n: usize = name.as_str().unicode_len();
    let d = rfind_after(name.as_str(), '.');
    proof {
        lemma_rfind(name@, '.');
    }
    let (stem, ext) = if d >= 2 {
        (substring_copy(name.as_str(), 0, d - 1), substring_copy(name.as_str(), d - 1, n))
    } else {
        (name.clone(), String::new())
    };
    // Try single-digit suffixes first: `stem-1.ext` through `stem-9.ext`.
    let mut k: u32 = 1;
    while k <= 9
        invariant
            1 <= k <= 10,
            stem@.len() <= n,
            in_seq(existing.deep_view(), name@),
        decreases 10 - k,
    {
        let mut cand = stem.clone();
        push_char(&mut cand, '-');
        push_char(&mut cand, crate::timestamp::digit_to_char(k % 10));
        cand.append(ext.as_str());
        if !contains_string(existing, cand.as_str()) {
            return cand;
        }
        k = k + 1;
    }
    // Fall back to a suffix long enough that the candidate is longer
    // than every existing name, hence free.
    let m = existing.len();
    let mut maxlen: usize = 0;
    let mut i: usize = 0;
    while i < m
        invariant
            0 <= i <= m,
            m == existing.len(),
            in_seq(existing.deep_view(), name@),
            forall|j: int| 0 <= j < i ==> existing.deep_view()[j].len() <= maxlen,
        decreases m - i,
    {
        let l = existing[i].as_str().unicode_len();
        if l > maxlen {
            maxlen = l;
        }
        i = i + 1;
    }
    let mut grown = stem.clone();
    push_char(&mut grown, '-');
    while grown.as_str().unicode_len() <= maxlen
        invariant
            forall|j: int| 0 <= j < m ==> existing.deep_view()[j].len() <= maxlen,
            m == existing.len(),
            in_seq(existing.deep_view(), name@),
        decreases maxlen + 1 - grown@.len(),
    {
        push_char(&mut grown, '1');
    }
    grown.append(ext.as_str());
    assert(grown@.len() > maxlen);
    assert(!in_seq(existing.deep_view(), grown@)) by {
        if in_seq(existing.deep_view(), grown@) {
            let j = choose|j: int|
                0 <= j < existing.deep_view().len() && existing.deep_view()[j] == grown@;
            assert(existing.deep_view()[j].len() <= maxlen);
            assert(false);
        }
    }
    grown
}

/// Whether attaching is permitted in the given status: closed items
/// do not take new attachments.
pub fn can_attach(status: Status) -> (r: bool)
    ensures
        r == (status != Status::Closed),
{
    match status {
        Status::Closed => false,
        _ => true,
    }
}

/// Processes one attachment source against an item.
///
/// A URL source is appended verbatim and never touches the file
/// system. A local source that does not exist (as observed by the
/// caller and passed in `source_exists`) changes nothing and is
/// reported non-fatally. An existing local source is recorded under a
/// name free among `existing_names` — the names already present in
/// the item's attachment directory — and the caller copies the file
/// under that name.
pub fn process_attachment(
    item: &mut Item,
    source: &String,
    source_exists: bool,
    existing_names: &Vec<String>,
) -> (r: AttachmentResult)
    ensures
        url_shape(source@) ==> (r matches AttachmentResult::UrlAdded(u) && u@ == source@),
        url_shape(source@) ==> final(item).frontmatter@ == (FmView {
            attachments: old(item).frontmatter@.attachments.push(source@),
            ..old(item).frontmatter@
        }),
        !url_shape(source@) && !source_exists ==> (r matches AttachmentResult::FileNotFound(p)
            && p@ == source@),
        !url_shape(source@) && !source_exists ==> final(item)@ == old(item)@,
        !url_shape(source@) && source_exists ==> (r matches AttachmentResult::FileCopied {
            original,
            new_name,
        } && original@ == base_of(source@) && !in_seq(existing_names.deep_view(), new_name@) && (
        !in_seq(existing_names.deep_view(), base_of(source@)) ==> new_name@ == base_of(source@))
            && final(item).frontmatter@ == (FmView {
            attachments: old(item).frontmatter@.attachments.push(new_name@),
            ..old(item).frontmatter@
        })),
        final(item).body@ == old(item).body@,
        final(item)@.path == old(item)@.path,
{
    if is_url(source.as_str()) {
        let u = source.clone();
        item.frontmatter.attachments.push(source.clone());
        assert(item.frontmatter@.attachments =~= old(item).frontmatter@.attachments.push(source@));
        return AttachmentResult::UrlAdded(u);
    }
    if !source_exists {
        return AttachmentResult::FileNotFound(source.clone());
    }
    let base = basename(source.as_str());
    let new_name = unique_attachment_name(&base, existing_names);
    item.frontmatter.attachments.push(new_name.clone());
    assert(item.frontmatter@.attachments =~= old(item).frontmatter@.attachments.push(new_name@));
    AttachmentResult::FileCopied { original: base, new_name }
}

/// Whether some requested index marks the 0-based position `j`.
pub open spec fn idx_marked(idxs: Seq<usize>, j: int) -> bool {
    exists|k: int| 0 <= k < idxs.len() && idxs[k] == j + 1
}

/// The attachments kept after removing every marked position, from
/// position `j` on.
pub open spec fn keep_unmarked(atts: Seq<Seq<char>>, idxs: Seq<usize>, j: int) -> Seq<Seq<char>>
    decreases atts.len() - j,
{
    if j < 0 {
        keep_unmarked(atts, idxs, 0)
    } else if j >= atts.len() {
        Seq::empty()
    } else if idx_marked(idxs, j) {
        keep_unmarked(atts, idxs, j + 1)
    } else {
        seq![atts[j]] + keep_unmarked(atts, idxs, j + 1)
    }
}

/// Executable membership test for indices.
fn contains_index(xs: &Vec<usize>, x: usize) -> (r: bool)
    ensures
        r == (exists|k: int| 0 <= k < xs@.len() && xs@[k] == x),
{
    let n = xs.len();
    let mut i: usize = 0;
    while i < n
        invariant
            0 <= i <= n,
            n == xs@.len(),
            forall|k: int| 0 <= k < i ==> xs@[k] != x,
        decreases n - i,
    {
        if xs[i] == x {
            return true;
        }
        i = i + 1;
    }
    false
}

/// Validates the 1-based indices of a removal request against the
/// current attachment count: all of them must be in bounds before any
/// removal happens.
pub fn validate_attachment_indices(indices: &Vec<usize>, count: usize) -> (r: bool)
    ensures
        r == (forall|k: int| 0 <= k < indices@.len() ==> 1 <= #[trigger] indices@[k] <= count),
{
    let n = indices.len();
    let mut i: usize = 0;
    while i < n
        invariant
            0 <= i <= n,
            n == indices@.len(),
            forall|k: int| 0 <= k < i ==> 1 <= #[trigger] indices@[k] <= count,
        decreases n - i,
    {
        let idx = indices[i];
        if idx == 0 || idx > count {
            return false;
        }
        i = i + 1;
    }
    true
}

/// Removes the attachments at the requested 1-based indices.
///
/// Validation is all-or-nothing: when any index is out of bounds the
/// item is untouched. Once validation passes, positions are removed
/// from the highest to the lowest, and the removed entries are
/// returned as (1-based index, name) pairs in that processing order.
/// Deleting a removed file from disk, and tolerating a failure to do
/// so, is the caller's concern.
pub fn remove_attachments(item: &mut Item, indices: &Vec<usize>) -> (r: Result<
    Vec<(usize, String)>,
    Error,
>)
    ensures
        (r is Err) <==> !(forall|k: int|
            0 <= k < indices@.len() ==> 1 <= #[trigger] indices@[k]
                <= old(item).frontmatter@.attachments.len()),
        (r is Err) ==> r->Err_0 == Error::ValidationError && final(item)@ == old(item)@,
        (r is Ok) ==> final(item).frontmatter@ == (FmView {
            attachments: keep_unmarked(old(item).frontmatter@.attachments, indices@, 0),
            ..old(item).frontmatter@
        }),
        (r is Ok) ==> (forall|a: int, b: int|
            0 <= a < b < r->Ok_0@.len()
                ==> (#[trigger] r->Ok_0@[a]).0 > (#[trigger] r->Ok_0@[b]).0),
        (r is Ok) ==> (forall|a: int|
            0 <= a < r->Ok_0@.len()
                ==> 1 <= (#[trigger] r->Ok_0@[a]).0 <= old(item).frontmatter@.attachments.len()
                && idx_marked(indices@, (r->Ok_0@[a]).0 - 1)
                && (r->Ok_0@[a]).1@ == old(item).frontmatter@.attachments[(r->Ok_0@[a]).0 - 1]),
        (r is Ok) ==> (forall|j: int|
            0 <= j < old(item).frontmatter@.attachments.len() && #[trigger] idx_marked(indices@, j)
                ==> exists|a: int| 0 <= a < r->Ok_0@.len() && (#[trigger] r->Ok_0@[a]).0 == j + 1),
        final(item).body@ == old(item).body@,
        final(item)@.path == old(item)@.path,
{
    let count = item.frontmatter.attachments.len();
    if !validate_attachment_indices(indices, count) {
        return Err(Error::ValidationError);
    }
    let ghost atts0 = item.frontmatter@.attachments;
    let mut removed: Vec<(usize, String)> = Vec::new();
    let mut pos: usize = count;
    while pos > 0
        invariant
            0 <= pos <= count,
            count == atts0.len(),
            atts0 == old(item).frontmatter@.attachments,
            item.frontmatter@.id == old(item).frontmatter@.id,
            item.frontmatter@.title == old(item).frontmatter@.title,
            item.frontmatter@.author == old(item).frontmatter@.author,
            item.frontmatter@.created_at == old(item).frontmatter@.created_at,
            item.frontmatter@.status == old(item).frontmatter@.status,
            item.frontmatter@.labels == old(item).frontmatter@.labels,
            item.body@ == old(item).body@,
            item@.path == old(item)@.path,
            item.frontmatter@.attachments =~= atts0.take(pos as int) + keep_unmarked(
                atts0,
                indices@,
                pos as int,
            ),
            forall|a: int, b: int|
                0 <= a < b < removed@.len()
                    ==> (#[trigger] removed@[a]).0 > (#[trigger] removed@[b]).0,
            forall|a: int|
                0 <= a < removed@.len()
                    ==> pos < (#[trigger] removed@[a]).0 <= count
                    && idx_marked(indices@, (removed@[a]).0 - 1)
                    && (removed@[a]).1@ == atts0[(removed@[a]).0 - 1],
            forall|j: int|
                pos <= j < count && #[trigger] idx_marked(indices@, j) ==> exists|a: int|
                    0 <= a < removed@.len() && (#[trigger] removed@[a]).0 == j + 1,
        decreases pos,
    {
        let p = pos - 1;
        let ghost pre = item.frontmatter@.attachments;
        let ghost removed_pre = removed@;
        if contains_index(indices, p + 1) {
            assert(idx_marked(indices@, p as int));
            assert(pre[p as int] == atts0[p as int]) by {
                assert(atts0.take(pos as int)[p as int] == atts0[p as int]);
            }
            assert(p < pre.len());
            let name = match item.remove_attachment(p) {
                Some(x) => x,
                None => {
                    proof {
                        assert(false);
                    }
                    String::new()
                },
            };
            removed.push((p + 1, name));
            proof {
                assert(item.frontmatter@.attachments =~= atts0.take(p as int) + keep_unmarked(
                    atts0,
                    indices@,
                    p as int,
                )) by {
                    assert(keep_unmarked(atts0, indices@, p as int) == keep_unmarked(
                        atts0,
                        indices@,
                        pos as int,
                    ));
                    assert(pre.remove(p as int) =~= atts0.take(p as int) + keep_unmarked(
                        atts0,
                        indices@,
                        pos as int,
                    ));
                }
                assert(removed@ =~= removed_pre.push((pos, name)));
                assert forall|j: int|
                    p <= j < count && #[trigger] idx_marked(indices@, j) implies exists|a: int|
                    0 <= a < removed@.len() && (#[trigger] removed@[a]).0 == j + 1 by {
                    if j == p {
                        assert((removed@[removed@.len() - 1]).0 == j + 1);
                    } else {
                        let a = choose|a: int|
                            0 <= a < removed_pre.len() && (#[trigger] removed_pre[a]).0 == j + 1;
                        assert((removed@[a]).0 == j + 1);
                    }
                }
            }
        } else {
            proof {
                assert(!idx_marked(indices@, p as int));
                assert(keep_unmarked(atts0, indices@, p as int) == seq![atts0[p as int]]
                    + keep_unmarked(atts0, indices@, pos as int));
                assert(atts0.take(pos as int) =~= atts0.take(p as int).push(atts0[p as int]));
                assert(item.frontmatter@.attachments =~= atts0.take(p as int) + keep_unmarked(
                    atts0,
                    indices@,
                    p as int,
                ));
            }
        }
        pos = p;
    }
    proof {
        assert(atts0.take(0) =~= Seq::<Seq<char>>::empty());
        assert(item.frontmatter@.attachments =~= keep_unmarked(atts0, indices@, 0));
        assert forall|j: int|
            0 <= j < old(item).frontmatter@.attachments.len() && #[trigger] idx_marked(indices@, j)
            implies exists|a: int|
            0 <= a < removed@.len() && (#[trigger] removed@[a]).0 == j + 1 by {}
    }
    let r_out: Result<Vec<(usize, String)>, Error> = Ok(removed);
    proof {
        assert forall|j: int|
            0 <= j < old(item).frontmatter@.attachments.len() && #[trigger] idx_marked(indices@, j)
            implies exists|a: int|
            0 <= a < r_out->Ok_0@.len() && (#[trigger] r_out->Ok_0@[a]).0 == j + 1 by {
            // naming the witness carries the fact across the Ok wrapping
            let a = choose|a: int|
                0 <= a < r_out->Ok_0@.len() && (#[trigger] r_out->Ok_0@[a]).0 == j + 1;
        }
    }
    r_out
}

} // verus!
