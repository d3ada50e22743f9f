//! Engine configuration.
//!
//! A configuration value is constructed once per invocation and passed
//! explicitly into every storage operation; the engine holds no global
//! state. Loading and validating a configuration file is the caller's
//! concern — the engine only requires the shape described by `wf`.

use vstd::prelude::*;
use crate::text::{find_char, str_eq};
use vstd::string::*;

verus! {

/// Path roots and engine settings, read-only after construction.
pub struct Config {
    /// Absolute path of the project root.
    pub root: String,
    /// Name of the subdirectory holding open items.
    pub stack_dir: String,
    /// Name of the subdirectory holding closed items.
    pub archive_dir: String,
    /// Name of the subdirectory holding templates.
    pub template_dir: String,
    /// Identifier pattern used when creating items.
    pub id_pattern: String,
    /// Whether interactive dialogs are enabled by default.
    pub interactive: bool,
    /// Editor command, when configured.
    pub editor: Option<String>,
    /// Author name, when configured.
    pub author: Option<String>,
}

/// Whether `s` is usable as the name of a root subdirectory: nonempty,
/// a single path segment, and free of line breaks.
pub open spec fn valid_dir_name(s: Seq<char>) -> bool {
    s.len() > 0 && (forall|i: int| 0 <= i < s.len() ==> s[i] != '/' && s[i] != '\n')
}

impl Config {
    /// Well-formedness: the three root subdirectories are valid
    /// segments with pairwise distinct names, under a nonempty root.
    pub open spec fn wf(self) -> bool {
        self.root@.len() > 0 && valid_dir_name(self.stack_dir@) && valid_dir_name(
            self.archive_dir@,
        ) && valid_dir_name(self.template_dir@) && self.stack_dir@ != self.archive_dir@
            && self.stack_dir@ != self.template_dir@ && self.archive_dir@ != self.template_dir@
    }

    /// A configuration with the default directory layout and id
    /// pattern for the given project root.
    pub fn new(root: String) -> (r: Config)
        requires
            root@.len() > 0,
        ensures
            r.wf(),
            r.root == root,
            r.stack_dir@ == "stack"@,
            r.archive_dir@ == "archive"@,
            r.template_dir@ == "templates"@,
            r.id_pattern@ == "YMD-XXXXXXX"@,
            r.interactive == true,
            r.editor is None,
            r.author is None,
    {
        proof {
            reveal_strlit("stack");
            reveal_strlit("archive");
            reveal_strlit("templates");
            reveal_strlit("YMD-XXXXXXX");
        }
        let r = Config {
            root,
            stack_dir: "stack".to_owned(),
            archive_dir: "archive".to_owned(),
            template_dir: "templates".to_owned(),
            id_pattern: "YMD-XXXXXXX".to_owned(),
            interactive: true,
            editor: None,
            author: None,
        };
        assert(valid_dir_name(r.stack_dir@));
        assert(valid_dir_name(r.archive_dir@));
        assert(valid_dir_name(r.template_dir@));
        assert(r.stack_dir@ != r.archive_dir@);
        r
    }

    /// Executable check of `wf`, for configurations assembled by the
    /// caller from external sources.
    pub fn is_wf(&self) -> (r: bool)
        ensures
            r == self.wf(),
    {
        self.root.as_str().unicode_len() > 0 && dir_name_ok(&self.stack_dir) && dir_name_ok(
            &self.archive_dir,
        ) && dir_name_ok(&self.template_dir) && !str_eq(
            self.stack_dir.as_str(),
            self.archive_dir.as_str(),
        ) && !str_eq(self.stack_dir.as_str(), self.template_dir.as_str()) && !str_eq(
            self.archive_dir.as_str(),
            self.template_dir.as_str(),
        )
    }

    /// Whether interactive dialogs are enabled by default.
    pub fn interactive(&self) -> (r: bool)
        ensures
            r == self.interactive,
    {
        self.interactive
    }
}

/// Executable check of `valid_dir_name`.
pub fn dir_name_ok(s: &String) -> (r: bool)
    ensures
        r == valid_dir_name(s@),
{
    let n: usize = s.as_str().unicode_len();
    if n == 0 {
        return false;
    }
    let mut i: usize = 0;
    while i < n
        invariant
            0 <= i <= n,
            n == s@.len(),
            forall|j: int| 0 <= j < i ==> s@[j] != '/' && s@[j] != '\n',
        decreases n - i,
    {
        let c = s.as_str().get_char(i);
        if c == '/' || c == '\n' {
            return false;
        }
        i = i + 1;
    }
    true
}

} // verus!
