//! Tests for item search and matching.

use qstack::item::{Frontmatter, Item, Status};
use qstack::query::matches_query;
use qstack::timestamp::Timestamp;

fn sample_time() -> Timestamp {
    Timestamp { year: 2026, month: 1, day: 9, hour: 12, minute: 0, second: 0 }
}

fn sample_item(title: &str, body: &str) -> Item {
    let frontmatter = Frontmatter {
        id: "260109-02F7K9M".to_string(),
        title: title.to_string(),
        author: "Test".to_string(),
        created_at: sample_time(),
        status: Status::Open,
        labels: vec![],
        attachments: vec![],
    };
    let mut item = Item::new(frontmatter);
    item.body = body.to_string();
    item
}

#[test]
fn test_matches_title() {
    let item = sample_item("Fix Login Bug", "");
    assert!(matches_query(&item, "login", false));
    assert!(matches_query(&item, "LOGIN", false)); // case insensitive
    assert!(matches_query(&item, "LoGiN", false)); // mixed case
    assert!(matches_query(&item, "bug", false));
}

#[test]
fn test_matches_id() {
    let item = sample_item("Some Title", "");
    assert!(matches_query(&item, "260109", false));
    assert!(matches_query(&item, "02f7k9m", false)); // case insensitive
}

#[test]
fn test_no_match() {
    let item = sample_item("Fix Login Bug", "Some body content");
    assert!(!matches_query(&item, "xyz", false));
    assert!(!matches_query(&item, "body", false)); // not full_text
}

#[test]
fn test_full_text_matches_body() {
    let item = sample_item("Title", "The error occurs in production");
    assert!(!matches_query(&item, "production", false));
    assert!(matches_query(&item, "production", true));
}

#[test]
fn test_full_text_still_matches_title_and_id() {
    let item = sample_item("Important Task", "Body text");
    assert!(matches_query(&item, "important", true));
    assert!(matches_query(&item, "260109", true));
}
