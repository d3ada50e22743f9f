//! State of the interactive widgets: a single-line text input, a
//! single-select list, and a multi-select list with checkboxes.
//!
//! Only the state and its transitions live here; drawing to a
//! terminal and decoding raw key events are the caller's concern. A
//! key event reaches a widget as an `InputKey` value.

use vstd::prelude::*;
use crate::text::{in_seq, contains_string, push_char, substring_copy, str_eq};
use vstd::pervasive::VecAdditionalExecFns;
use vstd::string::*;

verus! {

/// A key event, reduced to what the widgets react to.
#[derive(Debug, Clone, Copy, PartialEq, Eq, Structural)]
pub enum InputKey {
    Char(char),
    CtrlU,
    CtrlW,
    Backspace,
    Delete,
    Left,
    Right,
    Home,
    End,
    Enter,
    Escape,
    Up,
    Down,
}

/// Actions reported by the single-select list.
#[derive(Debug, Clone, Copy, PartialEq, Eq, Structural)]
pub enum SelectAction {
    /// No action, continue.
    Idle,
    /// The user confirmed the selection.
    Confirm,
    /// The user cancelled.
    Cancel,
}

/// Actions reported by the multi-select list.
#[derive(Debug, Clone, Copy, PartialEq, Eq, Structural)]
pub enum MultiSelectAction {
    /// No action, continue.
    Idle,
    /// The user confirmed the selection.
    Confirm,
    /// The user cancelled.
    Cancel,
}

/// Polls for events with a fixed tick rate; the caller performs the
/// actual polling and hands the decoded keys to the widgets.
pub struct EventHandler {
    pub tick_rate_ms: u64,
}

impl EventHandler {
    /// An event handler with the given tick rate in milliseconds.
    pub fn new(tick_rate_ms: u64) -> (r: Self)
        ensures
            r.tick_rate_ms == tick_rate_ms,
    {
        EventHandler { tick_rate_ms }
    }
}

impl Default for EventHandler {
    /// The default tick rate: a tenth of a second.
    fn default() -> (r: Self)
        ensures
            r.tick_rate_ms == 100,
    {
        EventHandler { tick_rate_ms: 100 }
    }
}

/// Abstract value of a text input.
pub struct TextInputView {
    pub content: Seq<char>,
    pub cursor: int,
    pub label: Seq<char>,
}

/// Single-line text input with a cursor, counted in characters.
#[derive(Debug, Clone)]
pub struct TextInput {
    content: String,
    cursor: usize,
    label: String,
}

impl View for TextInput {
    type V = TextInputView;

    closed spec fn view(&self) -> TextInputView {
        TextInputView { content: self.content@, cursor: self.cursor as int, label: self.label@ }
    }
}

/// Position after deleting the spaces directly before `p`.
pub open spec fn skip_spaces_back(c: Seq<char>, p: int) -> int
    decreases p,
{
    if p <= 0 {
        0
    } else if 0 < p <= c.len() && c[p - 1] == ' ' {
        skip_spaces_back(c, p - 1)
    } else {
        p
    }
}

/// Position after deleting the word directly before `p`.
pub open spec fn skip_word_back(c: Seq<char>, p: int) -> int
    decreases p,
{
    if p <= 0 {
        0
    } else if 0 < p <= c.len() && c[p - 1] != ' ' {
        skip_word_back(c, p - 1)
    } else {
        p
    }
}

/// The edit a key performs on (content, cursor): the new content, the
/// new cursor, and whether the key was handled.
pub open spec fn text_edit(c: Seq<char>, cur: int, key: InputKey) -> (Seq<char>, int, bool) {
    match key {
        InputKey::Char(ch) => (c.take(cur) + seq![ch] + c.skip(cur), cur + 1, true),
        InputKey::CtrlU => (Seq::empty(), 0, true),
        InputKey::CtrlW => {
            let p = skip_word_back(c, skip_spaces_back(c, cur));
            (c.take(p) + c.skip(cur), p, true)
        },
        InputKey::Backspace => if cur > 0 {
            (c.take(cur - 1) + c.skip(cur), cur - 1, true)
        } else {
            (c, cur, true)
        },
        InputKey::Delete => if cur < c.len() {
            (c.take(cur) + c.skip(cur + 1), cur, true)
        } else {
            (c, cur, true)
        },
        InputKey::Left => (c, if cur > 0 {
            cur - 1
        } else {
            0
        }, true),
        InputKey::Right => (c, if cur < c.len() {
            cur + 1
        } else {
            cur
        }, true),
        InputKey::Home => (c, 0, true),
        InputKey::End => (c, c.len() as int, true),
        _ => (c, cur, false),
    }
}

impl TextInput {
    /// Cursor stays inside the content.
    pub open spec fn wf(self) -> bool {
        0 <= self@.cursor <= self@.content.len()
    }

    /// A new, empty text input with the given label.
    pub fn new(label: &str) -> (r: Self)
        ensures
            r@.content == Seq::<char>::empty(),
            r@.cursor == 0,
            r@.label == label@,
            r.wf(),
    {
        TextInput { content: String::new(), cursor: 0, label: label.to_owned() }
    }

    /// This input with its content replaced and the cursor at the end.
    pub fn with_initial(self, value: &str) -> (r: Self)
        ensures
            r@.content == value@,
            r@.cursor == value@.len(),
            r@.label == self@.label,
            r.wf(),
    {
        let content = value.to_owned();
        let cursor = content.as_str().unicode_len();
        TextInput { content, cursor, label: self.label }
    }

    /// The current content.
    pub fn content(&self) -> (r: &str)
        ensures
            r@ == self@.content,
    {
        self.content.as_str()
    }

    /// Whether the input is empty.
    pub fn is_empty(&self) -> (r: bool)
        ensures
            r == (self@.content.len() == 0),
    {
        self.content.as_str().is_empty()
    }

    /// Applies one key to the input. Returns whether the key was
    /// handled; unhandled keys leave the input untouched.
    pub fn handle_key(&mut self, key: InputKey) -> (r: bool)
        requires
            old(self).wf(),
        ensures
            final(self).wf(),
            final(self)@.label == old(self)@.label,
            (final(self)@.content, final(self)@.cursor, r) == text_edit(
                old(self)@.content,
                old(self)@.cursor,
                key,
            ),
    {
        let n: usize = self.content.as_str().unicode_len();
        match key {
            InputKey::Char(ch) => {
                let mut next = substring_copy(self.content.as_str(), 0, self.cursor);
                push_char(&mut next, ch);
                let newcur: usize = next.as_str().unicode_len();
                assert(newcur == self.cursor + 1);
                let tail = substring_copy(self.content.as_str(), self.cursor, n);
                next.append(tail.as_str());
                assert(next@ =~= old(self)@.content.take(old(self)@.cursor) + seq![ch] + old(self)@.content.skip(old(self)@.cursor));
                self.content = next;
                self.cursor = newcur;
                true
            },
            InputKey::CtrlU => {
                self.content = String::new();
                self.cursor = 0;
                true
            },
            InputKey::CtrlW => {
                let mut p: usize = self.cursor;
                while p > 0 && self.content.as_str().get_char(p - 1) == ' '
                    invariant
                        0 <= p <= old(self)@.cursor,
                        self == old(self),
                        old(self).wf(),
                        n == self@.content.len(),
                        skip_spaces_back(self@.content, old(self)@.cursor) == skip_spaces_back(
                            self@.content,
                            p as int,
                        ),
                    decreases p,
                {
                    p = p - 1;
                }
                assert(skip_spaces_back(self@.content, p as int) == p as int);
                let ghost p1 = p as int;
                while p > 0 && self.content.as_str().get_char(p - 1) != ' '
                    invariant
                        0 <= p <= p1,
                        self == old(self),
                        old(self).wf(),
                        p1 <= self@.content.len(),
                        n == self@.content.len(),
                        skip_word_back(self@.content, p1) == skip_word_back(
                            self@.content,
                            p as int,
                        ),
                    decreases p,
                {
                    p = p - 1;
                }
                assert(skip_word_back(self@.content, p as int) == p as int);
                let mut next = substring_copy(self.content.as_str(), 0, p);
                let tail = substring_copy(self.content.as_str(), self.cursor, n);
                next.append(tail.as_str());
                assert(next@ =~= old(self)@.content.take(p as int) + old(self)@.content.skip(
                    old(self)@.cursor,
                ));
                self.content = next;
                self.cursor = p;
                true
            },
            InputKey::Backspace => {
                if self.cursor > 0 {
                    let mut next = substring_copy(self.content.as_str(), 0, self.cursor - 1);
                    let tail = substring_copy(self.content.as_str(), self.cursor, n);
                    next.append(tail.as_str());
                    assert(next@ =~= old(self)@.content.take(old(self)@.cursor - 1) + old(self)@.content.skip(old(self)@.cursor));
                    self.content = next;
                    self.cursor = self.cursor - 1;
                }
                true
            },
            InputKey::Delete => {
                if self.cursor < n {
                    let mut next = substring_copy(self.content.as_str(), 0, self.cursor);
                    let tail = substring_copy(self.content.as_str(), self.cursor + 1, n);
                    next.append(tail.as_str());
                    assert(next@ =~= old(self)@.content.take(old(self)@.cursor) + old(self)@.content.skip(old(self)@.cursor + 1));
                    self.content = next;
                }
                true
            },
            InputKey::Left => {
                if self.cursor > 0 {
                    self.cursor = self.cursor - 1;
                }
                true
            },
            InputKey::Right => {
                if self.cursor < n {
                    self.cursor = self.cursor + 1;
                }
                true
            },
            InputKey::Home => {
                self.cursor = 0;
                true
            },
            InputKey::End => {
                self.cursor = n;
                true
            },
            _ => false,
        }
    }
}

/// Abstract value of a single-select list.
pub struct SelectListView {
    pub items: Seq<Seq<char>>,
    pub selected: Option<int>,
    pub title: Seq<char>,
}

/// Single-select scrollable list: a set of rows and the highlighted
/// index.
pub struct SelectList {
    items: Vec<String>,
    selected: Option<usize>,
    title: String,
}

impl View for SelectList {
    type V = SelectListView;

    closed spec fn view(&self) -> SelectListView {
        SelectListView {
            items: self.items.deep_view(),
            selected: match self.selected {
                Option::None => Option::None,
                Option::Some(i) => Option::Some(i as int),
            },
            title: self.title@,
        }
    }
}

/// The index after moving one row up, wrapping at the top.
pub open spec fn prev_index(sel: int, len: int) -> int {
    if sel == 0 {
        len - 1
    } else {
        sel - 1
    }
}

/// The index after moving one row down, wrapping at the bottom.
pub open spec fn next_index(sel: int, len: int) -> int {
    if sel >= len - 1 {
        0
    } else {
        sel + 1
    }
}

impl SelectList {
    /// A nonempty list starts with the first row highlighted.
    pub open spec fn wf(self) -> bool {
        ((self@.selected is Some) <==> self@.items.len() > 0) && (match self@.selected {
            Option::None => true,
            Option::Some(i) => 0 <= i < self@.items.len(),
        })
    }

    /// A new select list over the given rows.
    pub fn new(items: Vec<String>) -> (r: Self)
        ensures
            r@.items == items.deep_view(),
            r@.selected == (if items.deep_view().len() > 0 {
                Option::Some(0int)
            } else {
                Option::<int>::None
            }),
            r@.title == Seq::<char>::empty(),
            r.wf(),
    {
        let selected = if items.len() > 0 {
            Some(0)
        } else {
            None
        };
        SelectList { items, selected, title: String::new() }
    }

    /// This list with a title.
    pub fn with_title(self, title: &str) -> (r: Self)
        ensures
            r@.items == self@.items,
            r@.selected == self@.selected,
            r@.title == title@,
            self.wf() ==> r.wf(),
    {
        SelectList { items: self.items, selected: self.selected, title: title.to_owned() }
    }

    /// The currently highlighted index.
    pub fn selected_index(&self) -> (r: Option<usize>)
        ensures
            (r is Some) <==> (self@.selected is Some),
            (r is Some) ==> r->0 as int == self@.selected->0,
    {
        self.selected
    }

    /// Whether the list has no rows.
    pub fn is_empty(&self) -> (r: bool)
        ensures
            r == (self@.items.len() == 0),
    {
        self.items.len() == 0
    }

    /// Number of rows.
    pub fn len(&self) -> (r: usize)
        ensures
            r == self@.items.len(),
    {
        self.items.len()
    }

    /// Moves the highlight one row up, wrapping at the top.
    pub fn select_previous(&mut self)
        requires
            old(self).wf(),
        ensures
            final(self).wf(),
            final(self)@.items == old(self)@.items,
            final(self)@.title == old(self)@.title,
            old(self)@.items.len() == 0 ==> final(self)@.selected == old(self)@.selected,
            old(self)@.items.len() > 0 ==> final(self)@.selected == Option::Some(
                prev_index(old(self)@.selected->0, old(self)@.items.len() as int),
            ),
    {
        match self.selected {
            None => {},
            Some(i) => {
                if i == 0 {
                    self.selected = Some(self.items.len() - 1);
                } else {
                    self.selected = Some(i - 1);
                }
            },
        }
    }

    /// Moves the highlight one row down, wrapping at the bottom.
    pub fn select_next(&mut self)
        requires
            old(self).wf(),
        ensures
            final(self).wf(),
            final(self)@.items == old(self)@.items,
            final(self)@.title == old(self)@.title,
            old(self)@.items.len() == 0 ==> final(self)@.selected == old(self)@.selected,
            old(self)@.items.len() > 0 ==> final(self)@.selected == Option::Some(
                next_index(old(self)@.selected->0, old(self)@.items.len() as int),
            ),
    {
        match self.selected {
            None => {},
            Some(i) => {
                if i >= self.items.len() - 1 {
                    self.selected = Some(0);
                } else {
                    self.selected = Some(i + 1);
                }
            },
        }
    }

    /// Applies one key: arrows (or the `k`/`j` keys) move, enter
    /// confirms, escape cancels; everything else is ignored.
    pub fn handle_key(&mut self, key: InputKey) -> (r: SelectAction)
        requires
            old(self).wf(),
        ensures
            final(self).wf(),
            final(self)@.items == old(self)@.items,
            final(self)@.title == old(self)@.title,
            (key == InputKey::Enter) ==> r == SelectAction::Confirm && final(self)@ == old(self)@,
            (key == InputKey::Escape) ==> r == SelectAction::Cancel && final(self)@ == old(self)@,
            (key == InputKey::Up || key == InputKey::Char('k')) ==> r == SelectAction::Idle && (
            old(self)@.items.len() > 0 ==> final(self)@.selected == Option::Some(
                prev_index(old(self)@.selected->0, old(self)@.items.len() as int),
            )),
            (key == InputKey::Down || key == InputKey::Char('j')) ==> r == SelectAction::Idle && (
            old(self)@.items.len() > 0 ==> final(self)@.selected == Option::Some(
                next_index(old(self)@.selected->0, old(self)@.items.len() as int),
            )),
            !(key == InputKey::Enter || key == InputKey::Escape || key == InputKey::Up || key
                == InputKey::Char('k') || key == InputKey::Down || key == InputKey::Char('j'))
                ==> r == SelectAction::Idle && final(self)@ == old(self)@,
    {
        match key {
            InputKey::Up => {
                self.select_previous();
                SelectAction::Idle
            },
            InputKey::Char(c) => {
                if c == 'k' {
                    self.select_previous();
                    SelectAction::Idle
                } else if c == 'j' {
                    self.select_next();
                    SelectAction::Idle
                } else {
                    SelectAction::Idle
                }
            },
            InputKey::Down => {
                self.select_next();
                SelectAction::Idle
            },
            InputKey::Enter => SelectAction::Confirm,
            InputKey::Escape => SelectAction::Cancel,
            _ => SelectAction::Idle,
        }
    }
}

/// Abstract value of a multi-select list: rows with their checked
/// state.
pub struct MultiSelectView {
    pub items: Seq<(Seq<char>, bool)>,
    pub selected: Option<int>,
    pub title: Seq<char>,
}

/// Multi-select list with checkboxes.
pub struct MultiSelect {
    items: Vec<(String, bool)>,
    selected: Option<usize>,
    title: String,
}

/// The row names and checked flags a vector of entries denotes.
pub open spec fn entries_view(items: Seq<(String, bool)>) -> Seq<(Seq<char>, bool)> {
    items.map(|i: int, p: (String, bool)| (p.0@, p.1))
}

impl View for MultiSelect {
    type V = MultiSelectView;

    closed spec fn view(&self) -> MultiSelectView {
        MultiSelectView {
            items: entries_view(self.items@),
            selected: match self.selected {
                Option::None => Option::None,
                Option::Some(i) => Option::Some(i as int),
            },
            title: self.title@,
        }
    }
}

/// The names of the checked rows, in order.
pub open spec fn checked_names(items: Seq<(Seq<char>, bool)>) -> Seq<Seq<char>>
    decreases items.len(),
{
    if items.len() == 0 {
        Seq::empty()
    } else {
        checked_names(items.drop_last()) + (if items.last().1 {
            seq![items.last().0]
        } else {
            Seq::empty()
        })
    }
}

/// Whether some row carries the given name.
pub open spec fn has_row(items: Seq<(Seq<char>, bool)>, name: Seq<char>) -> bool {
    exists|i: int| 0 <= i < items.len() && (#[trigger] items[i]).0 == name
}

impl MultiSelect {
    /// A nonempty list keeps a highlighted row in bounds.
    pub open spec fn wf(self) -> bool {
        ((self@.selected is Some) <==> self@.items.len() > 0) && (match self@.selected {
            Option::None => true,
            Option::Some(i) => 0 <= i < self@.items.len(),
        })
    }

    /// A new multi-select over the given rows, none checked, the
    /// first highlighted.
    pub fn new(items: Vec<String>) -> (r: Self)
        ensures
            r@.items.len() == items.deep_view().len(),
            forall|i: int|
                0 <= i < items.deep_view().len() ==> (#[trigger] r@.items[i]) == (
                items.deep_view()[i],
                false,
            ),
            r@.selected == (if items.deep_view().len() > 0 {
                Option::Some(0int)
            } else {
                Option::<int>::None
            }),
            r@.title == Seq::<char>::empty(),
            r.wf(),
    {
        let n = items.len();
        let mut rows: Vec<(String, bool)> = Vec::new();
        let mut i: usize = 0;
        let mut pool = items;
        let ghost orig = pool@;
        while i < n
            invariant
                0 <= i <= n,
                n == pool@.len(),
                orig.len() == n,
                forall|j: int| i <= j < n ==> pool@[j] == orig[j],
                rows@.len() == i,
                forall|j: int|
                    0 <= j < i ==> (#[trigger] rows@[j]).0 == orig[j] && rows@[j].1 == false,
            decreases n - i,
        {
            let ghost pre = rows@;
            let s = take_string(&mut pool, i);
            rows.push((s, false));
            i = i + 1;
        }
        let selected = if n > 0 {
            Some(0)
        } else {
            None
        };
        let r = MultiSelect { items: rows, selected, title: String::new() };
        proof {
            assert forall|i2: int| 0 <= i2 < items.deep_view().len() implies (
            #[trigger] r@.items[i2]) == (items.deep_view()[i2], false) by {
                assert(r@.items[i2] == (rows@[i2].0@, rows@[i2].1));
                assert(rows@[i2].0 == orig[i2]);
            }
        }
        r
    }

    /// This list with a title.
    pub fn with_title(self, title: &str) -> (r: Self)
        ensures
            r@.items == self@.items,
            r@.selected == self@.selected,
            r@.title == title@,
            self.wf() ==> r.wf(),
    {
        MultiSelect { items: self.items, selected: self.selected, title: title.to_owned() }
    }

    /// This list with exactly the rows named in `labels` checked.
    pub fn with_selected(self, labels: &Vec<String>) -> (r: Self)
        ensures
            r@.items.len() == self@.items.len(),
            forall|i: int|
                0 <= i < self@.items.len() ==> (#[trigger] r@.items[i]).0 == self@.items[i].0
                    && r@.items[i].1 == crate::text::in_seq(labels.deep_view(), self@.items[i].0),
            r@.selected == self@.selected,
            r@.title == self@.title,
            self.wf() ==> r.wf(),
    {
        let n = self.items.len();
        let mut rows: Vec<(String, bool)> = Vec::new();
        let mut i: usize = 0;
        let mut pool = self.items;
        let ghost orig = pool@;
        while i < n
            invariant
                0 <= i <= n,
                n == pool@.len(),
                orig.len() == n,
                forall|j: int| i <= j < n ==> pool@[j] == orig[j],
                rows@.len() == i,
                forall|j: int|
                    0 <= j < i ==> (#[trigger] rows@[j]).0 == orig[j].0 && rows@[j].1 == in_seq(
                        labels.deep_view(),
                        orig[j].0@,
                    ),
            decreases n - i,
        {
            let checked = contains_string(labels, pool[i].0.as_str());
            let row = take_row(&mut pool, i);
            rows.push((row.0, checked));
            i = i + 1;
        }
        let r = MultiSelect { items: rows, selected: self.selected, title: self.title };
        proof {
            assert forall|i2: int| 0 <= i2 < orig.len() implies (#[trigger] r@.items[i2]).0
                == entries_view(orig)[i2].0 && r@.items[i2].1 == crate::text::in_seq(
                labels.deep_view(),
                entries_view(orig)[i2].0,
            ) by {
                assert(rows@[i2].0 == orig[i2].0);
            }
        }
        r
    }

    /// The checked row names, in row order.
    pub fn selected_items(&self) -> (r: Vec<String>)
        ensures
            r.deep_view() == checked_names(self@.items),
    {
        let n = self.items.len();
        let mut out: Vec<String> = Vec::new();
        let mut i: usize = 0;
        proof {
            assert(self@.items.take(0) =~= Seq::<(Seq<char>, bool)>::empty());
            assert(out.deep_view() =~= checked_names(self@.items.take(0)));
        }
        while i < n
            invariant
                0 <= i <= n,
                n == self.items@.len(),
                n == self@.items.len(),
                out.deep_view() =~= checked_names(self@.items.take(i as int)),
            decreases n - i,
        {
            proof {
                assert(self@.items.take(i + 1 as int).drop_last() =~= self@.items.take(i as int));
                assert(self@.items.take(i + 1 as int).last() == self@.items[i as int]);
            }
            let ghost pre = out.deep_view();
            if self.items[i].1 {
                let name = self.items[i].0.clone();
                assert(name@ == self@.items[i as int].0);
                out.push(name);
                assert(out.deep_view() =~= pre.push(self@.items[i as int].0));
            }
            i = i + 1;
        }
        assert(self@.items.take(n as int) =~= self@.items);
        out
    }

    /// Whether the list has no rows.
    pub fn is_empty(&self) -> (r: bool)
        ensures
            r == (self@.items.len() == 0),
    {
        self.items.len() == 0
    }

    /// Number of rows.
    pub fn len(&self) -> (r: usize)
        ensures
            r == self@.items.len(),
    {
        self.items.len()
    }

    /// The currently highlighted index.
    pub fn selected_index(&self) -> (r: Option<usize>)
        ensures
            (r is Some) <==> (self@.selected is Some),
            (r is Some) ==> r->0 as int == self@.selected->0,
    {
        self.selected
    }

    /// Toggles the checked state of the highlighted row.
    pub fn toggle_current(&mut self)
        requires
            old(self).wf(),
        ensures
            final(self).wf(),
            final(self)@.selected == old(self)@.selected,
            final(self)@.title == old(self)@.title,
            old(self)@.selected is None ==> final(self)@ == old(self)@,
            old(self)@.selected is Some ==> ({
                let i = old(self)@.selected->0;
                final(self)@.items == old(self)@.items.update(
                    i,
                    (old(self)@.items[i].0, !old(self)@.items[i].1),
                )
            }),
    {
        match self.selected {
            None => {},
            Some(i) => {
                let name = self.items[i].0.clone();
                let flag = self.items[i].1;
                let mut row = (name, !flag);
                self.items.set_and_swap(i, &mut row);
                proof {
                    assert(final(self)@.items =~= old(self)@.items.update(
                        i as int,
                        (old(self)@.items[i as int].0, !old(self)@.items[i as int].1),
                    ));
                }
            },
        }
    }

    /// Moves the highlight one row up, wrapping at the top.
    pub fn select_previous(&mut self)
        requires
            old(self).wf(),
        ensures
            final(self).wf(),
            final(self)@.items == old(self)@.items,
            final(self)@.title == old(self)@.title,
            old(self)@.items.len() == 0 ==> final(self)@.selected == old(self)@.selected,
            old(self)@.items.len() > 0 ==> final(self)@.selected == Option::Some(
                prev_index(old(self)@.selected->0, old(self)@.items.len() as int),
            ),
    {
        match self.selected {
            None => {},
            Some(i) => {
                if i == 0 {
                    self.selected = Some(self.items.len() - 1);
                } else {
                    self.selected = Some(i - 1);
                }
            },
        }
    }

    /// Moves the highlight one row down, wrapping at the bottom.
    pub fn select_next(&mut self)
        requires
            old(self).wf(),
        ensures
            final(self).wf(),
            final(self)@.items == old(self)@.items,
            final(self)@.title == old(self)@.title,
            old(self)@.items.len() == 0 ==> final(self)@.selected == old(self)@.selected,
            old(self)@.items.len() > 0 ==> final(self)@.selected == Option::Some(
                next_index(old(self)@.selected->0, old(self)@.items.len() as int),
            ),
    {
        match self.selected {
            None => {},
            Some(i) => {
                if i >= self.items.len() - 1 {
                    self.selected = Some(0);
                } else {
                    self.selected = Some(i + 1);
                }
            },
        }
    }

    /// Adds a row unless one with the same name exists; a new row is
    /// checked and becomes the highlighted one.
    pub fn add_item(&mut self, name: String) -> (added: bool)
        requires
            old(self).wf(),
        ensures
            final(self).wf(),
            final(self)@.title == old(self)@.title,
            added == !has_row(old(self)@.items, name@),
            added ==> final(self)@.items == old(self)@.items.push((name@, true)) && final(self)@.selected == Option::Some(old(self)@.items.len() as int),
            !added ==> final(self)@ == old(self)@,
    {
        let n = self.items.len();
        let mut i: usize = 0;
        while i < n
            invariant
                0 <= i <= n,
                self == old(self),
                old(self).wf(),
                n == self.items@.len(),
                n == self@.items.len(),
                forall|j: int| 0 <= j < i ==> (#[trigger] self@.items[j]).0 != name@,
            decreases n - i,
        {
            if str_eq(self.items[i].0.as_str(), name.as_str()) {
                assert(self@.items[i as int].0 == name@);
                return false;
            }
            i = i + 1;
        }
        assert(!has_row(self@.items, name@));
        self.items.push((name, true));
        self.selected = Some(n);
        proof {
            assert(final(self)@.items =~= old(self)@.items.push((name@, true)));
        }
        true
    }

    /// Applies one key: arrows (or `k`/`j`) move, space toggles,
    /// enter confirms, escape cancels; everything else is ignored.
    pub fn handle_key(&mut self, key: InputKey) -> (r: MultiSelectAction)
        requires
            old(self).wf(),
        ensures
            final(self).wf(),
            final(self)@.title == old(self)@.title,
            (key == InputKey::Enter) ==> r == MultiSelectAction::Confirm && final(self)@ == old(self)@,
            (key == InputKey::Escape) ==> r == MultiSelectAction::Cancel && final(self)@ == old(self)@,
            (key == InputKey::Up || key == InputKey::Char('k')) ==> r == MultiSelectAction::Idle
                && final(self)@.items == old(self)@.items && (old(self)@.items.len() > 0 ==> final(self)@.selected == Option::Some(
                prev_index(old(self)@.selected->0, old(self)@.items.len() as int),
            )),
            (key == InputKey::Down || key == InputKey::Char('j')) ==> r == MultiSelectAction::Idle
                && final(self)@.items == old(self)@.items && (old(self)@.items.len() > 0 ==> final(self)@.selected == Option::Some(
                next_index(old(self)@.selected->0, old(self)@.items.len() as int),
            )),
            (key == InputKey::Char(' ')) ==> r == MultiSelectAction::Idle && final(self)@.selected
                == old(self)@.selected && ((old(self)@.selected is Some) ==> ({
                let i = old(self)@.selected->0;
                final(self)@.items == old(self)@.items.update(
                    i,
                    (old(self)@.items[i].0, !old(self)@.items[i].1),
                )
            })),
            !(key == InputKey::Enter || key == InputKey::Escape || key == InputKey::Up || key
                == InputKey::Char('k') || key == InputKey::Down || key == InputKey::Char('j')
                || key == InputKey::Char(' ')) ==> r == MultiSelectAction::Idle && final(self)@
                == old(self)@,
    {
        match key {
            InputKey::Up => {
                self.select_previous();
                MultiSelectAction::Idle
            },
            InputKey::Char(c) => {
                if c == 'k' {
                    self.select_previous();
                    MultiSelectAction::Idle
                } else if c == 'j' {
                    self.select_next();
                    MultiSelectAction::Idle
                } else if c == ' ' {
                    self.toggle_current();
                    MultiSelectAction::Idle
                } else {
                    MultiSelectAction::Idle
                }
            },
            InputKey::Down => {
                self.select_next();
                MultiSelectAction::Idle
            },
            InputKey::Enter => MultiSelectAction::Confirm,
            InputKey::Escape => MultiSelectAction::Cancel,
            _ => MultiSelectAction::Idle,
        }
    }
}

/// Moves the string at `i` out of the vector, leaving an empty string.
fn take_string(xs: &mut Vec<String>, i: usize) -> (r: String)
    requires
        i < old(xs)@.len(),
    ensures
        r == old(xs)@[i as int],
        final(xs)@.len() == old(xs)@.len(),
        forall|j: int| 0 <= j < old(xs)@.len() && j != i ==> final(xs)@[j] == old(xs)@[j],
{
    let mut tmp = String::new();
    xs.set_and_swap(i, &mut tmp);
    tmp
}

/// Moves the row at `i` out of the vector, leaving a blank row.
fn take_row(xs: &mut Vec<(String, bool)>, i: usize) -> (r: (String, bool))
    requires
        i < old(xs)@.len(),
    ensures
        r == old(xs)@[i as int],
        final(xs)@.len() == old(xs)@.len(),
        forall|j: int| 0 <= j < old(xs)@.len() && j != i ==> final(xs)@[j] == old(xs)@[j],
{
    let mut tmp = (String::new(), false);
    xs.set_and_swap(i, &mut tmp);
    tmp
}


} // verus!
