//! Item storage and identity engine for a file-backed issue tracker.
//!
//! Items live as individual text files: a structured metadata header
//! followed by a free-text body. This crate holds the verified core:
//! identifier generation, the item model with its parse/serialize
//! round-trip, slug and filename derivation, category resolution from
//! directory placement, planning of atomic create/rename/move
//! operations, and attachment bookkeeping. All file system access is
//! left to the surrounding application, which executes the plans this
//! library computes.

pub mod args;
pub mod attach;
pub mod codec;
pub mod config;
pub mod error;
pub mod id;
pub mod ident;
pub mod item;
pub mod paths;
pub mod query;
pub mod slug;
pub mod storage;
pub mod text;
pub mod timestamp;
pub mod ui;
pub mod widgets;
