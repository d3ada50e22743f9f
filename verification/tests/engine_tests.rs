//! Tests for identifier generation, creation planning, renaming,
//! category moves, archiving, and reference resolution.

use qstack::config::Config;
use qstack::error::Error;
use qstack::id::{generate, random_width};
use qstack::item::{Frontmatter, Item, Status};
use qstack::paths::{area_root, derive_category, resolve_target_dir, Area};
use qstack::storage::{
    archive, create_item, create_template, move_to_category, pick_unique_id, rename_item,
    resolve_reference, unarchive,
};
use qstack::timestamp::Timestamp;

fn cfg() -> Config {
    Config::new("/proj".to_string())
}

fn sample_time() -> Timestamp {
    Timestamp { year: 2026, month: 1, day: 9, hour: 12, minute: 0, second: 0 }
}

fn item_with_title(title: &str) -> Item {
    Item::new(Frontmatter {
        id: "260109-AAAAAAA".to_string(),
        title: title.to_string(),
        author: "Ada".to_string(),
        created_at: sample_time(),
        status: Status::Open,
        labels: vec![],
        attachments: vec![],
    })
}

#[test]
fn test_generate_expands_date_and_random_tokens() {
    let t = sample_time();
    // Y -> year % 100, M -> month, D -> day; X draws from the alphabet.
    let id = generate("YMD-XXX", &t, &vec![0, 10, 35]);
    assert_eq!(id, "260109-0AZ");
    assert_eq!(random_width("YMD-XXX"), 3);
    // draws are reduced modulo the 36-character alphabet
    let id2 = generate("X", &t, &vec![36]);
    assert_eq!(id2, "0");
    // literal characters pass through
    assert_eq!(generate("it-YM", &t, &vec![]), "it-2601");
}

#[test]
fn test_generate_sorts_by_creation_date() {
    let early = Timestamp { year: 2025, month: 3, day: 2, hour: 0, minute: 0, second: 0 };
    let late = Timestamp { year: 2026, month: 1, day: 9, hour: 0, minute: 0, second: 0 };
    let a = generate("YMD-XX", &early, &vec![35, 35]);
    let b = generate("YMD-XX", &late, &vec![0, 0]);
    assert!(a < b);
}

#[test]
fn test_pick_unique_id_skips_collisions() {
    let candidates = vec!["a1".to_string(), "a2".to_string(), "a3".to_string()];
    let existing = vec!["a1".to_string(), "a2".to_string()];
    assert_eq!(pick_unique_id(&candidates, &existing), Ok("a3".to_string()));
}

#[test]
fn test_pick_unique_id_reports_exhaustion() {
    let candidates = vec!["a1".to_string(), "a2".to_string()];
    let existing = vec!["a2".to_string(), "a1".to_string(), "zz".to_string()];
    assert_eq!(pick_unique_id(&candidates, &existing), Err(Error::AlreadyExists));
}

#[test]
fn test_create_item_plans_path_and_content() {
    let cfg = cfg();
    let item = item_with_title("Fix Login Bug");
    let cands = vec!["260109-AAAAAAA".to_string()];
    let plan = create_item(&cfg, &item, None, &cands, &vec![]).expect("plan");
    assert_eq!(plan.id, "260109-AAAAAAA");
    assert_eq!(plan.filename, "260109-AAAAAAA-fix-login-bug.md");
    assert_eq!(plan.dir, "/proj/stack");
    assert_eq!(plan.path, "/proj/stack/260109-AAAAAAA-fix-login-bug.md");
    assert!(plan.content.starts_with("---\nid: 260109-AAAAAAA\n"));
}

#[test]
fn test_create_item_retries_on_collision() {
    let cfg = cfg();
    let item = item_with_title("Note");
    let cands = vec!["id1".to_string(), "id2".to_string()];
    let existing = vec!["id1-note.md".to_string()];
    let plan = create_item(&cfg, &item, None, &cands, &existing).expect("plan");
    assert_eq!(plan.id, "id2");
    let all_taken = vec!["id1-note.md".to_string(), "id2-note.md".to_string()];
    assert!(matches!(
        create_item(&cfg, &item, None, &cands, &all_taken),
        Err(Error::AlreadyExists)
    ));
}

#[test]
fn test_create_item_validates_inputs() {
    let cfg = cfg();
    let empty_title = item_with_title("   ");
    let cands = vec!["id1".to_string()];
    assert!(matches!(
        create_item(&cfg, &empty_title, None, &cands, &vec![]),
        Err(Error::ValidationError)
    ));
    let item = item_with_title("Ok");
    let bad_cat = "a/b".to_string();
    assert!(matches!(
        create_item(&cfg, &item, Some(&bad_cat), &cands, &vec![]),
        Err(Error::ValidationError)
    ));
}

#[test]
fn test_create_template_uses_template_root() {
    let cfg = cfg();
    let mut item = item_with_title("Weekly Report");
    item.frontmatter.status = Status::Template;
    let cands = vec!["tpl1".to_string()];
    let plan = create_template(&cfg, &item, None, &cands, &vec![]).expect("plan");
    assert_eq!(plan.dir, "/proj/templates");
    assert!(plan.content.contains("status: template\n"));
}

#[test]
fn test_rename_on_title_change_keeps_id_and_directory() {
    let cfg = cfg();
    let mut item = item_with_title("Fix Login Bug");
    let cands = vec!["260109-AAAAAAA".to_string()];
    let plan = create_item(&cfg, &item, None, &cands, &vec![]).expect("plan");

    item.set_title("Fixed".to_string());
    let new_filename = item.filename();
    assert_eq!(new_filename, "260109-AAAAAAA-fixed.md");

    let new_path = rename_item(&plan.path, &new_filename, &vec![]).expect("rename");
    // the slug portion changed, the id portion and the directory did not
    assert_eq!(new_path, "/proj/stack/260109-AAAAAAA-fixed.md");
    assert!(new_path.starts_with(&plan.dir));
}

#[test]
fn test_rename_rejects_destination_collision() {
    let path = "/proj/stack/id1-old.md".to_string();
    let newname = "id1-new.md".to_string();
    let existing = vec!["id1-new.md".to_string()];
    assert!(matches!(
        rename_item(&path, &newname, &existing),
        Err(Error::AlreadyExists)
    ));
}

#[test]
fn test_move_to_category_root_round_trip() {
    let cfg = cfg();
    let item = item_with_title("Task");
    let cat = "bugs".to_string();
    let cands = vec!["id9".to_string()];
    let plan = create_item(&cfg, &item, Some(&cat), &cands, &vec![]).expect("plan");
    assert_eq!(plan.dir, "/proj/stack/bugs");
    assert_eq!(derive_category(&cfg, &plan.path), Some("bugs".to_string()));

    // moving to no category relocates to the stack root, filename unchanged
    let mv = move_to_category(&cfg, &plan.path, None).expect("move");
    assert_eq!(mv.new_dir, "/proj/stack");
    assert_eq!(mv.new_path, "/proj/stack/id9-task.md");
    assert_eq!(derive_category(&cfg, &mv.new_path), None);
}

#[test]
fn test_move_to_category_carries_attachment_dir() {
    let cfg = cfg();
    let path = "/proj/stack/id1-task.md".to_string();
    let cat = "bugs".to_string();
    let mv = move_to_category(&cfg, &path, Some(&cat)).expect("move");
    assert_eq!(mv.new_path, "/proj/stack/bugs/id1-task.md");
    assert_eq!(mv.attach_src, Some("/proj/stack/id1-task".to_string()));
    assert_eq!(mv.attach_dst, Some("/proj/stack/bugs/id1-task".to_string()));
}

#[test]
fn test_move_outside_roots_is_not_found() {
    let cfg = cfg();
    let path = "/elsewhere/id1-task.md".to_string();
    assert!(matches!(
        move_to_category(&cfg, &path, None),
        Err(Error::NotFound)
    ));
}

#[test]
fn test_archive_moves_and_flips_status() {
    let cfg = cfg();
    let item = item_with_title("Task");
    let path = "/proj/stack/bugs/id1-task.md".to_string();
    let plan = archive(&cfg, &path, &item).expect("archive");
    // category subpath preserved under the archive root
    assert_eq!(plan.new_path, "/proj/archive/bugs/id1-task.md");
    assert!(plan.content.contains("status: closed\n"));
    assert_eq!(plan.attach_src, Some("/proj/stack/bugs/id1-task".to_string()));
    assert_eq!(plan.attach_dst, Some("/proj/archive/bugs/id1-task".to_string()));
}

#[test]
fn test_unarchive_restores_category() {
    let cfg = cfg();
    let mut item = item_with_title("Task");
    item.frontmatter.status = Status::Closed;
    let path = "/proj/archive/bugs/id1-task.md".to_string();
    let plan = unarchive(&cfg, &path, &item).expect("unarchive");
    assert_eq!(plan.new_path, "/proj/stack/bugs/id1-task.md");
    assert!(plan.content.contains("status: open\n"));
    assert_eq!(derive_category(&cfg, &plan.new_path), Some("bugs".to_string()));
}

#[test]
fn test_archive_requires_open_status() {
    let cfg = cfg();
    let mut item = item_with_title("Task");
    item.frontmatter.status = Status::Template;
    let path = "/proj/stack/id1-task.md".to_string();
    assert!(matches!(archive(&cfg, &path, &item), Err(Error::InvalidState)));
    item.frontmatter.status = Status::Closed;
    assert!(matches!(archive(&cfg, &path, &item), Err(Error::InvalidState)));
}

#[test]
fn test_resolve_reference_exact_and_prefix() {
    let names = vec![
        "260109-ABC".to_string(),
        "260110-XYZ".to_string(),
        "260110-XYA".to_string(),
    ];
    let exact = "260110-XYZ".to_string();
    assert_eq!(resolve_reference(&exact, &names), Ok(1));
    let prefix = "260109".to_string();
    assert_eq!(resolve_reference(&prefix, &names), Ok(0));
}

#[test]
fn test_resolve_reference_ambiguous_and_missing() {
    let names = vec!["260110-XYZ".to_string(), "260110-XYA".to_string()];
    let ambiguous = "260110".to_string();
    assert_eq!(
        resolve_reference(&ambiguous, &names),
        Err(Error::AmbiguousReference)
    );
    let missing = "999".to_string();
    assert_eq!(resolve_reference(&missing, &names), Err(Error::NotFound));
}

#[test]
fn test_deep_nesting_reports_first_segment() {
    let cfg = cfg();
    let path = "/proj/stack/bugs/web/id1-task.md".to_string();
    assert_eq!(derive_category(&cfg, &path), Some("bugs".to_string()));
}

#[test]
fn test_resolve_target_dir_examples() {
    let cfg = cfg();
    assert_eq!(area_root(&cfg, Area::Archive), "/proj/archive");
    let cat = "bugs".to_string();
    assert_eq!(
        resolve_target_dir(&cfg, Some(&cat), Area::Stack),
        Ok("/proj/stack/bugs".to_string())
    );
    assert_eq!(
        resolve_target_dir(&cfg, None, Area::Template),
        Ok("/proj/templates".to_string())
    );
    let empty = "".to_string();
    assert_eq!(
        resolve_target_dir(&cfg, Some(&empty), Area::Stack),
        Err(Error::ValidationError)
    );
}

#[test]
fn test_create_item_rejects_multiline_metadata() {
    let cfg = cfg();
    let mut item = item_with_title("Ok Title");
    item.frontmatter.labels = vec!["two\nlines".to_string()];
    let cands = vec!["id1".to_string()];
    assert!(matches!(
        create_item(&cfg, &item, None, &cands, &vec![]),
        Err(Error::ValidationError)
    ));
    let item2 = item_with_title("Ok Title");
    let bad_cands = vec!["id/with/slash".to_string()];
    assert!(matches!(
        create_item(&cfg, &item2, None, &bad_cands, &vec![]),
        Err(Error::ValidationError)
    ));
}

#[test]
fn test_error_descriptions_are_nonempty() {
    for e in [
        Error::NotFound,
        Error::AmbiguousReference,
        Error::AlreadyExists,
        Error::InvalidState,
        Error::ValidationError,
        Error::IoError,
        Error::ParseError,
    ] {
        assert!(!e.describe().is_empty());
    }
}

#[test]
fn test_created_file_parses_back() {
    let cfg = cfg();
    let mut item = item_with_title("Fix Login Bug");
    item.body = "details\n".to_string();
    let cands = vec!["260109-AAAAAAA".to_string()];
    let plan = create_item(&cfg, &item, None, &cands, &vec![]).expect("plan");
    let back = qstack::codec::parse(&plan.content).expect("content must parse");
    assert_eq!(back.frontmatter.id, plan.id);
    assert_eq!(back.frontmatter.title, "Fix Login Bug");
    assert_eq!(back.body, "details\n");
}
