//! Tests for labels, normalization, slugs, filenames, and the item
//! model.

use qstack::ident::normalize_identifier;
use qstack::item::{Frontmatter, Item, Status};
use qstack::slug::{item_filename, slugify};
use qstack::timestamp::Timestamp;

fn sample_time() -> Timestamp {
    Timestamp { year: 2026, month: 1, day: 9, hour: 12, minute: 0, second: 0 }
}

fn bare_item() -> Item {
    Item::new(Frontmatter {
        id: "id1".to_string(),
        title: "Fix Login Bug".to_string(),
        author: "Ada".to_string(),
        created_at: sample_time(),
        status: Status::Open,
        labels: vec![],
        attachments: vec![],
    })
}

#[test]
fn test_normalize_identifier_examples() {
    assert_eq!(normalize_identifier("Bug Fix"), "bug-fix");
    assert_eq!(normalize_identifier("  Spaced  "), "spaced");
    assert_eq!(normalize_identifier("UPPER"), "upper");
    assert_eq!(normalize_identifier("a\tb"), "a-b");
    assert_eq!(normalize_identifier("   "), "");
}

#[test]
fn test_normalize_identifier_idempotent() {
    for s in ["Bug Fix", "bug-fix", "  A  B  ", "mixed-Case Words", ""] {
        let once = normalize_identifier(s);
        let twice = normalize_identifier(&once);
        assert_eq!(once, twice);
    }
}

#[test]
fn test_add_label_normalizes_and_deduplicates() {
    let mut item = bare_item();
    assert!(item.add_label("Bug Fix"));
    assert_eq!(item.labels(), &vec!["bug-fix".to_string()]);
    // the same label under another spelling is recognized, not duplicated
    assert!(!item.add_label("bug-fix"));
    assert!(!item.add_label("BUG FIX"));
    assert_eq!(item.labels().len(), 1);
    assert!(item.add_label("ui"));
    assert_eq!(item.labels(), &vec!["bug-fix".to_string(), "ui".to_string()]);
}

#[test]
fn test_remove_label_normalizes_its_argument() {
    let mut item = bare_item();
    item.add_label("Bug Fix");
    item.add_label("ui");
    assert!(item.remove_label("BUG FIX"));
    assert_eq!(item.labels(), &vec!["ui".to_string()]);
    assert!(!item.remove_label("absent"));
}

#[test]
fn test_slugify_rules() {
    assert_eq!(slugify("Fix Login Bug"), "fix-login-bug");
    assert_eq!(slugify("Hello,  World!!"), "hello-world");
    assert_eq!(slugify("--Already--Hyphenated--"), "already-hyphenated");
    assert_eq!(slugify("重要 Task"), "task");
    assert_eq!(slugify(""), "");
    assert_eq!(slugify("!!!"), "");
}

#[test]
fn test_slugify_truncates_to_bound() {
    let long = "a".repeat(200);
    let slug = slugify(&long);
    assert_eq!(slug.chars().count(), 60);
}

#[test]
fn test_item_filename_composition() {
    assert_eq!(item_filename("id1", "Fix Login Bug"), "id1-fix-login-bug.md");
    // an empty slug yields the id alone, with no trailing separator
    assert_eq!(item_filename("id1", ""), "id1.md");
    assert_eq!(item_filename("id1", "!!!"), "id1.md");
}

#[test]
fn test_attachment_dir_derives_from_path() {
    let mut item = bare_item();
    assert_eq!(item.attachment_dir(), None);
    item.path = Some("/proj/stack/id1-fix.md".to_string());
    assert_eq!(item.attachment_dir(), Some("/proj/stack/id1-fix".to_string()));
    item.path = Some("/proj/stack/strange.txt".to_string());
    assert_eq!(item.attachment_dir(), None);
}

#[test]
fn test_remove_attachment_by_position() {
    let mut item = bare_item();
    item.frontmatter.attachments = vec!["a".to_string(), "b".to_string()];
    assert_eq!(item.remove_attachment(1), Some("b".to_string()));
    assert_eq!(item.remove_attachment(5), None);
    assert_eq!(item.attachments(), &vec!["a".to_string()]);
}

#[test]
fn test_set_title_keeps_id() {
    let mut item = bare_item();
    item.set_title("Fixed".to_string());
    assert_eq!(item.title(), "Fixed");
    assert_eq!(item.id(), "id1");
    assert_eq!(item.filename(), "id1-fixed.md");
}
