//! Argument bundles of the commands, as plain values. Parsing a
//! command line into these is the caller's concern.

use vstd::prelude::*;
use crate::ui::InteractiveArgs;

verus! {

/// Arguments for adding attachments.
pub struct AttachAddArgs {
    pub id: String,
    pub sources: Vec<String>,
}

/// Arguments for removing attachments, with 1-based indices.
pub struct AttachRemoveArgs {
    pub id: String,
    pub indices: Vec<usize>,
}

/// Arguments for the categories overview.
pub struct CategoriesArgs {
    pub interactive: bool,
    pub no_interactive: bool,
}

/// Arguments for the labels overview.
pub struct LabelsArgs {
    pub interactive: bool,
    pub no_interactive: bool,
}

/// Arguments for creating an item.
pub struct NewArgs {
    pub title: Option<String>,
    pub labels: Vec<String>,
    pub category: Option<String>,
    pub attachments: Vec<String>,
    pub interactive: InteractiveArgs,
    pub as_template: bool,
    pub from_template: Option<Option<String>>,
}

/// Arguments for searching items.
pub struct SearchArgs {
    pub query: String,
    pub full_text: bool,
    pub interactive: bool,
    pub no_interactive: bool,
    pub closed: bool,
}

/// Arguments for updating an item. The item is referenced by id or by
/// the path of its backing file.
pub struct UpdateArgs {
    pub id: Option<String>,
    pub file: Option<String>,
    pub title: Option<String>,
    pub labels: Vec<String>,
    pub remove_labels: Vec<String>,
    pub category: Option<String>,
    pub remove_category: bool,
}

} // verus!
