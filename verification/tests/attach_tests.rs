//! Tests for attachment classification, naming, adding, and removal.

use qstack::attach::{
    can_attach, is_url, process_attachment, remove_attachments, unique_attachment_name,
    validate_attachment_indices, AttachmentResult,
};
use qstack::error::Error;
use qstack::item::{Frontmatter, Item, Status};
use qstack::timestamp::Timestamp;

fn sample_time() -> Timestamp {
    Timestamp { year: 2026, month: 1, day: 9, hour: 12, minute: 0, second: 0 }
}

fn item_with_attachments(atts: &[&str]) -> Item {
    Item::new(Frontmatter {
        id: "id1".to_string(),
        title: "T".to_string(),
        author: "A".to_string(),
        created_at: sample_time(),
        status: Status::Open,
        labels: vec![],
        attachments: atts.iter().map(|s| s.to_string()).collect(),
    })
}

#[test]
fn test_is_url_detection() {
    assert!(is_url("https://example.com/x"));
    assert!(is_url("http://a"));
    assert!(is_url("ftp://host/file"));
    assert!(!is_url("notes.txt"));
    assert!(!is_url("dir/notes.txt"));
    assert!(!is_url("://missing-scheme"));
    assert!(!is_url("1https://digit-first")); // scheme must be letters
}

#[test]
fn test_attach_url_appends_literal_string() {
    let mut item = item_with_attachments(&[]);
    let source = "https://example.com/x".to_string();
    let r = process_attachment(&mut item, &source, false, &vec![]);
    match r {
        AttachmentResult::UrlAdded(u) => assert_eq!(u, "https://example.com/x"),
        _ => panic!("expected UrlAdded"),
    }
    assert_eq!(item.attachments(), &vec!["https://example.com/x".to_string()]);
}

#[test]
fn test_attach_missing_file_changes_nothing() {
    let mut item = item_with_attachments(&["kept.txt"]);
    let source = "/no/such/file.txt".to_string();
    let r = process_attachment(&mut item, &source, false, &vec![]);
    match r {
        AttachmentResult::FileNotFound(p) => assert_eq!(p, "/no/such/file.txt"),
        _ => panic!("expected FileNotFound"),
    }
    assert_eq!(item.attachments(), &vec!["kept.txt".to_string()]);
}

#[test]
fn test_attach_existing_file_copies_under_free_name() {
    let mut item = item_with_attachments(&[]);
    let source = "/tmp/captures/trace.log".to_string();
    let existing = vec!["trace.log".to_string()];
    let r = process_attachment(&mut item, &source, true, &existing);
    match r {
        AttachmentResult::FileCopied { original, new_name } => {
            assert_eq!(original, "trace.log");
            assert_eq!(new_name, "trace-1.log");
            assert_eq!(item.attachments(), &vec!["trace-1.log".to_string()]);
        }
        _ => panic!("expected FileCopied"),
    }
}

#[test]
fn test_unique_attachment_name_cases() {
    let name = "shot.png".to_string();
    assert_eq!(unique_attachment_name(&name, &vec![]), "shot.png");
    let taken = vec!["shot.png".to_string()];
    assert_eq!(unique_attachment_name(&name, &taken), "shot-1.png");
    let taken2 = vec!["shot.png".to_string(), "shot-1.png".to_string()];
    assert_eq!(unique_attachment_name(&name, &taken2), "shot-2.png");
    let no_ext = "README".to_string();
    let taken3 = vec!["README".to_string()];
    assert_eq!(unique_attachment_name(&no_ext, &taken3), "README-1");
}

#[test]
fn test_can_attach_only_when_not_closed() {
    assert!(can_attach(Status::Open));
    assert!(can_attach(Status::Template));
    assert!(!can_attach(Status::Closed));
}

#[test]
fn test_remove_out_of_bounds_index_removes_nothing() {
    // removing [1, 5] from 3 attachments fails validation entirely
    let mut item = item_with_attachments(&["a.txt", "b.txt", "c.txt"]);
    assert!(!validate_attachment_indices(&vec![1, 5], 3));
    let r = remove_attachments(&mut item, &vec![1, 5]);
    assert_eq!(r, Err(Error::ValidationError));
    assert_eq!(item.attachments().len(), 3);
}

#[test]
fn test_remove_processes_highest_index_first() {
    // removing [3, 1] removes both, leaving exactly 1 attachment,
    // processed as 3 then 1
    let mut item = item_with_attachments(&["a.txt", "b.txt", "c.txt"]);
    assert!(validate_attachment_indices(&vec![3, 1], 3));
    let removed = remove_attachments(&mut item, &vec![3, 1]).expect("must remove");
    assert_eq!(
        removed,
        vec![(3, "c.txt".to_string()), (1, "a.txt".to_string())]
    );
    assert_eq!(item.attachments(), &vec!["b.txt".to_string()]);
}

#[test]
fn test_remove_duplicate_indices_remove_once() {
    let mut item = item_with_attachments(&["a.txt", "b.txt"]);
    let removed = remove_attachments(&mut item, &vec![2, 2]).expect("must remove");
    assert_eq!(removed, vec![(2, "b.txt".to_string())]);
    assert_eq!(item.attachments(), &vec!["a.txt".to_string()]);
}

#[test]
fn test_remove_zero_index_is_invalid() {
    let mut item = item_with_attachments(&["a.txt"]);
    assert_eq!(
        remove_attachments(&mut item, &vec![0]),
        Err(Error::ValidationError)
    );
    assert_eq!(item.attachments().len(), 1);
}
