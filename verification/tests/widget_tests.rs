//! Tests for the widget state models and loaded-item queries.

use qstack::config::Config;
use qstack::item::{Frontmatter, Item, Status};
use qstack::query::{
    apply_item_filter, collect_items, collect_existing_metadata, sort_items, ItemFilter, SortBy,
};
use qstack::timestamp::Timestamp;
use qstack::widgets::{
    EventHandler, InputKey, MultiSelect, MultiSelectAction, SelectAction, SelectList, TextInput,
};

fn at(year: u32, month: u32, day: u32) -> Timestamp {
    Timestamp { year, month, day, hour: 0, minute: 0, second: 0 }
}

fn item(id: &str, title: &str, author: &str, t: Timestamp, labels: &[&str]) -> Item {
    Item::new(Frontmatter {
        id: id.to_string(),
        title: title.to_string(),
        author: author.to_string(),
        created_at: t,
        status: Status::Open,
        labels: labels.iter().map(|s| s.to_string()).collect(),
        attachments: vec![],
    })
}

#[test]
fn test_text_input_editing() {
    let mut t = TextInput::new("Title").with_initial("helo");
    assert_eq!(t.content(), "helo");
    assert!(!t.is_empty());
    t.handle_key(InputKey::Left);
    t.handle_key(InputKey::Char('l'));
    assert_eq!(t.content(), "hello");
    t.handle_key(InputKey::Home);
    t.handle_key(InputKey::Delete);
    assert_eq!(t.content(), "ello");
    t.handle_key(InputKey::End);
    t.handle_key(InputKey::Backspace);
    assert_eq!(t.content(), "ell");
    assert!(!t.handle_key(InputKey::Enter));
    t.handle_key(InputKey::CtrlU);
    assert!(t.is_empty());
}

#[test]
fn test_text_input_deletes_word_backward() {
    let mut t = TextInput::new("x").with_initial("one two   ");
    t.handle_key(InputKey::CtrlW);
    assert_eq!(t.content(), "one ");
    t.handle_key(InputKey::CtrlW);
    assert_eq!(t.content(), "");
}

#[test]
fn test_select_list_navigation_wraps() {
    let rows = vec!["a".to_string(), "b".to_string(), "c".to_string()];
    let mut l = SelectList::new(rows).with_title("Select");
    assert_eq!(l.selected_index(), Some(0));
    assert_eq!(l.len(), 3);
    assert!(!l.is_empty());
    l.select_previous();
    assert_eq!(l.selected_index(), Some(2));
    l.select_next();
    assert_eq!(l.selected_index(), Some(0));
    assert_eq!(l.handle_key(InputKey::Down), SelectAction::Idle);
    assert_eq!(l.selected_index(), Some(1));
    assert_eq!(l.handle_key(InputKey::Char('k')), SelectAction::Idle);
    assert_eq!(l.selected_index(), Some(0));
    assert_eq!(l.handle_key(InputKey::Enter), SelectAction::Confirm);
    assert_eq!(l.handle_key(InputKey::Escape), SelectAction::Cancel);
}

#[test]
fn test_select_list_empty_has_no_selection() {
    let mut l = SelectList::new(vec![]);
    assert!(l.is_empty());
    assert_eq!(l.selected_index(), None);
    l.select_next();
    assert_eq!(l.selected_index(), None);
}

#[test]
fn test_multi_select_toggle_and_collect() {
    let rows = vec!["bug".to_string(), "ui".to_string(), "docs".to_string()];
    let mut m = MultiSelect::new(rows).with_title("Labels");
    assert_eq!(m.len(), 3);
    assert_eq!(m.handle_key(InputKey::Char(' ')), MultiSelectAction::Idle);
    m.select_next();
    m.select_next();
    m.toggle_current();
    assert_eq!(m.selected_items(), vec!["bug".to_string(), "docs".to_string()]);
    // toggling again unchecks
    m.toggle_current();
    assert_eq!(m.selected_items(), vec!["bug".to_string()]);
    assert_eq!(m.handle_key(InputKey::Enter), MultiSelectAction::Confirm);
}

#[test]
fn test_multi_select_preselect_and_add() {
    let rows = vec!["bug".to_string(), "ui".to_string()];
    let pre = vec!["ui".to_string()];
    let mut m = MultiSelect::new(rows).with_selected(&pre);
    assert_eq!(m.selected_items(), vec!["ui".to_string()]);
    assert!(m.add_item("docs".to_string()));
    assert_eq!(m.selected_index(), Some(2));
    assert!(!m.add_item("ui".to_string()));
    assert_eq!(m.selected_items(), vec!["ui".to_string(), "docs".to_string()]);
}

#[test]
fn test_event_handler_tick_rate() {
    assert_eq!(EventHandler::new(250).tick_rate_ms, 250);
    assert_eq!(EventHandler::default().tick_rate_ms, 100);
}

#[test]
fn test_collect_items_filters_by_label_and_author() {
    let items = vec![
        item("a1", "One", "Ada", at(2026, 1, 1), &["bug-fix"]),
        item("a2", "Two", "Bob", at(2026, 1, 2), &["ui"]),
        item("a3", "Three", "ada", at(2026, 1, 3), &["BUG-FIX"]),
    ];
    let filter = ItemFilter { label: Some("Bug-Fix".to_string()), author: Some("ADA".to_string()) };
    let kept = collect_items(items, &filter);
    assert_eq!(kept.len(), 2);
    assert_eq!(kept[0].id(), "a1");
    assert_eq!(kept[1].id(), "a3");
    let none = ItemFilter { label: None, author: None };
    let probe = item("x", "T", "A", at(2026, 1, 1), &[]);
    assert!(apply_item_filter(&probe, &none));
}

#[test]
fn test_sort_items_by_each_order() {
    let mut items = vec![
        item("b2", "beta", "X", at(2026, 1, 2), &[]),
        item("a1", "Gamma", "X", at(2026, 1, 3), &[]),
        item("c3", "alpha", "X", at(2026, 1, 1), &[]),
    ];
    sort_items(&mut items, SortBy::Id);
    let ids: Vec<&str> = items.iter().map(|i| i.id()).collect();
    assert_eq!(ids, vec!["a1", "b2", "c3"]);

    sort_items(&mut items, SortBy::Date);
    let ids: Vec<&str> = items.iter().map(|i| i.id()).collect();
    // newest first
    assert_eq!(ids, vec!["a1", "b2", "c3"]);

    sort_items(&mut items, SortBy::Title);
    let titles: Vec<&str> = items.iter().map(|i| i.title()).collect();
    assert_eq!(titles, vec!["alpha", "beta", "Gamma"]);
}

#[test]
fn test_collect_existing_metadata_sorted_distinct() {
    let cfg = Config::new("/proj".to_string());
    let mut a = item("a1", "One", "X", at(2026, 1, 1), &["ui", "bug"]);
    a.path = Some("/proj/stack/bugs/a1-one.md".to_string());
    let mut b = item("a2", "Two", "X", at(2026, 1, 2), &["bug"]);
    b.path = Some("/proj/stack/docs/a2-two.md".to_string());
    let c = item("a3", "Three", "X", at(2026, 1, 3), &["api"]);
    let items = vec![a, b, c];
    let (cats, labels) = collect_existing_metadata(&cfg, &items);
    assert_eq!(cats, vec!["bugs".to_string(), "docs".to_string()]);
    assert_eq!(
        labels,
        vec!["api".to_string(), "bug".to_string(), "ui".to_string()]
    );
}
