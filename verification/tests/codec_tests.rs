//! Tests for the on-disk format: serialization, parsing, and the
//! round-trip between them.

use qstack::codec::{parse, serialize};
use qstack::error::Error;
use qstack::item::{Frontmatter, Item, Status};
use qstack::timestamp::{format_timestamp, parse_timestamp, Timestamp};

fn sample_time() -> Timestamp {
    Timestamp { year: 2026, month: 1, day: 9, hour: 12, minute: 34, second: 56 }
}

fn sample_item() -> Item {
    let frontmatter = Frontmatter {
        id: "260109-02F7K9M".to_string(),
        title: "Fix Login Bug".to_string(),
        author: "Ada".to_string(),
        created_at: sample_time(),
        status: Status::Open,
        labels: vec!["bug-fix".to_string(), "auth".to_string()],
        attachments: vec!["https://example.com/x".to_string(), "trace.log".to_string()],
    };
    let mut item = Item::new(frontmatter);
    item.body = "Steps to reproduce:\n\n1. Open the login page.\n".to_string();
    item
}

#[test]
fn test_serialized_shape() {
    let item = sample_item();
    let text = serialize(&item);
    let expected = "---\n\
                    id: 260109-02F7K9M\n\
                    title: Fix Login Bug\n\
                    author: Ada\n\
                    created_at: 2026-01-09T12:34:56Z\n\
                    status: open\n\
                    labels:\n\
                    - bug-fix\n\
                    - auth\n\
                    attachments:\n\
                    - https://example.com/x\n\
                    - trace.log\n\
                    ---\n\
                    Steps to reproduce:\n\n1. Open the login page.\n";
    assert_eq!(text, expected);
}

#[test]
fn test_round_trip_preserves_all_fields() {
    let item = sample_item();
    let text = serialize(&item);
    let back = parse(&text).expect("round trip must parse");
    assert_eq!(back.frontmatter.id, item.frontmatter.id);
    assert_eq!(back.frontmatter.title, item.frontmatter.title);
    assert_eq!(back.frontmatter.author, item.frontmatter.author);
    assert_eq!(back.frontmatter.created_at, item.frontmatter.created_at);
    assert_eq!(back.frontmatter.status, item.frontmatter.status);
    assert_eq!(back.frontmatter.labels, item.frontmatter.labels);
    assert_eq!(back.frontmatter.attachments, item.frontmatter.attachments);
    assert_eq!(back.body, item.body);
    assert!(back.path.is_none());
}

#[test]
fn test_round_trip_empty_lists_and_body() {
    let frontmatter = Frontmatter {
        id: "X1".to_string(),
        title: "T".to_string(),
        author: "".to_string(),
        created_at: sample_time(),
        status: Status::Template,
        labels: vec![],
        attachments: vec![],
    };
    let item = Item::new(frontmatter);
    let text = serialize(&item);
    let back = parse(&text).expect("must parse");
    assert_eq!(back.frontmatter.id, "X1");
    assert_eq!(back.frontmatter.status, Status::Template);
    assert!(back.frontmatter.labels.is_empty());
    assert!(back.frontmatter.attachments.is_empty());
    assert_eq!(back.body, "");
}

#[test]
fn test_round_trip_body_with_marker_lines() {
    let mut item = sample_item();
    item.body = "---\nthis body starts with a marker line\n".to_string();
    let text = serialize(&item);
    let back = parse(&text).expect("must parse");
    assert_eq!(back.body, item.body);
}

#[test]
fn test_parse_rejects_missing_header() {
    assert_eq!(parse("no header at all"), Err(Error::ParseError));
    assert_eq!(parse(""), Err(Error::ParseError));
}

#[test]
fn test_parse_rejects_missing_required_field() {
    // author line missing entirely
    let text = "---\nid: A\ntitle: T\ncreated_at: 2026-01-09T12:34:56Z\nstatus: open\nlabels:\nattachments:\n---\n";
    assert_eq!(parse(text), Err(Error::ParseError));
}

#[test]
fn test_parse_rejects_unknown_field() {
    // an unexpected field between title and author is rejected, not dropped
    let text = "---\nid: A\ntitle: T\ncolor: blue\nauthor: B\ncreated_at: 2026-01-09T12:34:56Z\nstatus: open\nlabels:\nattachments:\n---\n";
    assert_eq!(parse(text), Err(Error::ParseError));
}

#[test]
fn test_parse_rejects_bad_status() {
    let text = "---\nid: A\ntitle: T\nauthor: B\ncreated_at: 2026-01-09T12:34:56Z\nstatus: done\nlabels:\nattachments:\n---\n";
    assert_eq!(parse(text), Err(Error::ParseError));
}

#[test]
fn test_parse_rejects_bad_timestamp() {
    let text = "---\nid: A\ntitle: T\nauthor: B\ncreated_at: 2026-13-09T12:34:56Z\nstatus: open\nlabels:\nattachments:\n---\n";
    assert_eq!(parse(text), Err(Error::ParseError));
}

#[test]
fn test_parse_minimal_file() {
    let text = "---\nid: A\ntitle: T\nauthor: B\ncreated_at: 2026-01-09T12:34:56Z\nstatus: closed\nlabels:\nattachments:\n---\nbody";
    let item = parse(text).expect("must parse");
    assert_eq!(item.frontmatter.id, "A");
    assert_eq!(item.frontmatter.status, Status::Closed);
    assert_eq!(item.body, "body");
}

#[test]
fn test_timestamp_format_and_parse() {
    let t = sample_time();
    let s = format_timestamp(&t);
    assert_eq!(s, "2026-01-09T12:34:56Z");
    assert_eq!(parse_timestamp(&s), Ok(t));
    assert_eq!(parse_timestamp("2026-01-09 12:34:56"), Err(Error::ParseError));
    assert_eq!(parse_timestamp("0000-00-00T00:00:00Z"), Err(Error::ParseError));
}
