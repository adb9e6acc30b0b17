//! The finder's state and its reactions to keys: a search box, the filtered list of
//! tree rows with a selection, expanding and collapsing bookmarks, and the action
//! (`jj new` or `jj edit`) chosen on quitting.

use vstd::prelude::*;
use crate::search::{fuzzy_matches, match_indices};
use crate::ansi::{span_views, Line, Span};
use crate::style::{plain_style, Color, Style};
use crate::text::{chars_of, copy_string, push_all, string_of, string_views};
use crate::tree::{
    bookmark_views, flatten, flatten_tree, full_size, item_search_text, item_views, owner,
    Bookmark, BookmarkView, ItemView, TreeItem,
};

verus! {

/// `String::pop` removes and returns the last character, if there is one.
pub assume_specification[ String::pop ](s: &mut String) -> (r: Option<char>)
    ensures
        match r {
            Some(c) => old(s)@.len() > 0 && final(s)@ == old(s)@.drop_last() && c == old(s)@.last(),
            None => old(s)@.len() == 0 && final(s)@ == old(s)@,
        },
;

/// Where the keys go.
#[derive(Clone, Copy, Debug, PartialEq, Eq, Structural)]
pub enum Focus {
    Search,
    List,
}

/// What to run on quitting.
#[derive(Clone, Debug)]
pub enum Action {
    /// `jj new <target>`.
    New(String),
    /// `jj edit <target>`.
    Edit(String),
}

/// The contents of an action.
pub enum ActionView {
    New(Seq<char>),
    Edit(Seq<char>),
}

impl View for Action {
    type V = ActionView;

    open spec fn view(&self) -> ActionView {
        match self {
            Action::New(t) => ActionView::New(t@),
            Action::Edit(t) => ActionView::Edit(t@),
        }
    }
}

/// A key of the keyboard, as far as the finder tells keys apart.
#[derive(Clone, Copy, Debug, PartialEq, Eq, Structural)]
pub enum Key {
    Esc,
    Tab,
    BackTab,
    Backspace,
    Enter,
    Up,
    Down,
    Left,
    Right,
    PageUp,
    PageDown,
    Char(char),
    Other,
}

/// A key event: the key, whether Control was held, and whether it is a press (rather
/// than a repeat or a release).
#[derive(Clone, Copy, Debug, PartialEq, Eq, Structural)]
pub struct KeyInput {
    pub key: Key,
    pub control: bool,
    pub press: bool,
}

/// The bookmarks and the rows built from them, kept together so that a rebuild
/// replaces both at once.
struct Tree {
    bookmarks: Vec<Bookmark>,
    items: Vec<TreeItem>,
}

impl Tree {
    /// The bookmarks `bookmarks` with their rows.
    fn new(bookmarks: Vec<Bookmark>) -> (r: Tree)
        ensures
            bookmark_views(r.bookmarks@) == bookmark_views(bookmarks@),
            item_views(r.items@) == flatten(bookmark_views(bookmarks@)),
    {
        let items = flatten_tree(&bookmarks);
        Tree { bookmarks, items }
    }
}

/// The state of the finder.
pub struct App {
    tree: Tree,
    filtered_indices: Vec<usize>,
    selected: Option<usize>,
    input: String,
    focus: Focus,
    should_quit: bool,
    action: Option<Action>,
}

/// The contents of the finder's state: the bookmarks, the tree rows, the rows the
/// search keeps (indices into the rows), the selected position in that list, the
/// search text, the focus, whether to quit, and the chosen action.
pub struct AppView {
    pub marks: Seq<BookmarkView>,
    pub items: Seq<ItemView>,
    pub shown: Seq<usize>,
    pub sel: Option<usize>,
    pub query: Seq<char>,
    pub focus: Focus,
    pub quit: bool,
    pub action: Option<ActionView>,
}

impl View for App {
    type V = AppView;

    closed spec fn view(&self) -> AppView {
        AppView {
            marks: bookmark_views(self.tree.bookmarks@),
            items: item_views(self.tree.items@),
            shown: self.filtered_indices@,
            sel: self.selected,
            query: self.input@,
            focus: self.focus,
            quit: self.should_quit,
            action: match self.action {
                Some(a) => Some(a@),
                None => None,
            },
        }
    }
}

// ---------------------------------------------------------------------------
// The model

/// A well-formed state: the rows are the flattened bookmarks, the search keeps only
/// rows that exist, and the tree can never have more rows than the matcher takes.
pub open spec fn app_wf(v: AppView) -> bool {
    &&& v.items == flatten(v.marks)
    &&& forall|i: int| 0 <= i < v.shown.len() ==> v.shown[i] < v.items.len()
    &&& full_size(v.marks) <= u32::MAX
}

/// The indices `0..n`.
pub open spec fn all_rows(n: nat) -> Seq<usize> {
    Seq::new(n, |i: int| i as usize)
}

/// The rows that the search text keeps: all of them for an empty search, else those
/// the fuzzy matcher returns for the rows' search texts.
pub open spec fn matching_rows(query: Seq<char>, items: Seq<ItemView>) -> Seq<usize> {
    if query.len() == 0 {
        all_rows(items.len())
    } else {
        fuzzy_matches(query, items.map_values(|t: ItemView| item_search_text(t)))
    }
}

/// The selection after the list changes: its first position, or none for an empty list.
pub open spec fn first_position(shown: Seq<usize>) -> Option<usize> {
    if shown.len() == 0 {
        None
    } else {
        Some(0)
    }
}

/// The state the finder starts in.
pub open spec fn initial(marks: Seq<BookmarkView>) -> AppView {
    let items = flatten(marks);
    AppView {
        marks: marks,
        items: items,
        shown: all_rows(items.len()),
        sel: first_position(all_rows(items.len())),
        query: Seq::empty(),
        focus: Focus::List,
        quit: false,
        action: None,
    }
}

/// The search run again on the current rows, with the selection reset.
pub open spec fn filtered(v: AppView) -> AppView {
    let shown = matching_rows(v.query, v.items);
    AppView { shown: shown, sel: first_position(shown), ..v }
}

/// The rows rebuilt from the bookmarks, then the search run again.
pub open spec fn rebuilt(v: AppView) -> AppView {
    filtered(AppView { items: flatten(v.marks), ..v })
}

/// Bookmark `bi` marked expanded or collapsed.
pub open spec fn set_expanded(v: AppView, bi: usize, e: bool) -> AppView {
    AppView { marks: v.marks.update(bi as int, BookmarkView { expanded: e, ..v.marks[bi as int] }), ..v }
}

/// The selection moved by `delta` positions: forward it stops at the last position,
/// backward at the first; with nothing selected it moves from the first position.
/// An empty list keeps the state.
pub open spec fn moved(v: AppView, delta: i32) -> AppView {
    let len = v.shown.len();
    if len == 0 {
        v
    } else {
        let cur: int = match v.sel {
            Some(s) => s as int,
            None => 0,
        };
        let target: int = if delta > 0 {
            if cur + delta < len - 1 {
                cur + delta
            } else {
                len - 1
            }
        } else if cur + delta > 0 {
            cur + delta
        } else {
            0
        };
        AppView { sel: Some(target as usize), ..v }
    }
}

/// The focus moved to the other place.
pub open spec fn focus_toggled(v: AppView) -> AppView {
    AppView {
        focus: match v.focus {
            Focus::Search => Focus::List,
            Focus::List => Focus::Search,
        },
        ..v
    }
}

/// The row under the selection, if the selection is on the list.
pub open spec fn selected_row(v: AppView) -> Option<usize> {
    match v.sel {
        Some(s) => if s < v.shown.len() && v.shown[s as int] < v.items.len() {
            Some(v.shown[s as int])
        } else {
            None
        },
        None => None,
    }
}

/// The contents of the row under the selection.
pub open spec fn selected_item(v: AppView) -> Option<ItemView> {
    match selected_row(v) {
        Some(t) => Some(v.items[t as int]),
        None => None,
    }
}

/// The selected bookmark's header flips between expanded and collapsed.
pub open spec fn expand_toggled(v: AppView) -> AppView {
    match selected_item(v) {
        Some(ItemView::Header { bookmark_idx, .. }) => rebuilt(
            set_expanded(v, bookmark_idx, !v.marks[bookmark_idx as int].expanded),
        ),
        _ => v,
    }
}

/// The selected bookmark's header, if collapsed, is expanded.
pub open spec fn expanded(v: AppView) -> AppView {
    match selected_item(v) {
        Some(ItemView::Header { bookmark_idx, .. }) => if !v.marks[bookmark_idx as int].expanded {
            rebuilt(set_expanded(v, bookmark_idx, true))
        } else {
            v
        },
        _ => v,
    }
}

/// Whether row `item` is the header of bookmark `bi`.
pub open spec fn is_header_of(item: ItemView, bi: usize) -> bool {
    match item {
        ItemView::Header { bookmark_idx, .. } => bookmark_idx == bi,
        _ => false,
    }
}

/// The first row at or after `i` that is the header of bookmark `bi`, or the number
/// of rows.
pub open spec fn find_header(items: Seq<ItemView>, bi: usize, i: int) -> int
    decreases items.len() - i,
{
    if i >= items.len() {
        items.len() as int
    } else if is_header_of(items[i], bi) {
        i
    } else {
        find_header(items, bi, i + 1)
    }
}

/// The first position at or after `p` of the kept list that shows row `row`, or the
/// length of the list.
pub open spec fn find_position(shown: Seq<usize>, row: int, p: int) -> int
    decreases shown.len() - p,
{
    if p >= shown.len() {
        shown.len() as int
    } else if shown[p] == row {
        p
    } else {
        find_position(shown, row, p + 1)
    }
}

/// The state after bookmark `bi` is collapsed and the rows rebuilt.
pub open spec fn collapsed_bookmark(v: AppView, bi: usize) -> AppView {
    rebuilt(set_expanded(v, bi, false))
}

/// The selected header, if expanded, is collapsed; on a revision row, its bookmark is
/// collapsed and the selection moves to the bookmark's header: to the first position
/// of the kept list that shows the header's row. When the search does not keep the
/// header, the selection stays where the search put it (the first position).
pub open spec fn collapsed(v: AppView) -> AppView {
    match selected_item(v) {
        Some(ItemView::Header { bookmark_idx, .. }) => if v.marks[bookmark_idx as int].expanded {
            rebuilt(set_expanded(v, bookmark_idx, false))
        } else {
            v
        },
        Some(ItemView::Rev { bookmark_idx, .. }) => {
            let w = collapsed_bookmark(v, bookmark_idx);
            let h = find_header(w.items, bookmark_idx, 0);
            let p = find_position(w.shown, h, 0);
            if h < w.items.len() && p < w.shown.len() {
                AppView { sel: Some(p as usize), ..w }
            } else {
                w
            }
        },
        None => v,
    }
}

/// The runs that show row `row` of the tree. A header shows `▼ ` or `▶ ` (its
/// bookmark expanded or not) and then its name in green. A revision is indented,
/// marked `@ ` when it is the working copy, and shows its first colored line, or, when
/// it has none, its change ID, commit ID and description separated by spaces.
pub open spec fn row_runs(v: AppView, row: int) -> Seq<(Seq<char>, Style)> {
    match v.items[row] {
        ItemView::Header { name, bookmark_idx } => seq![
            (if v.marks[bookmark_idx as int].expanded { "▼ "@ } else { "▶ "@ }, plain_style()),
            (name, Style { fg: Some(Color::Green), ..plain_style() }),
        ],
        ItemView::Rev { revision, .. } => seq![
            ("   "@, plain_style()),
            (if revision.is_working_copy { "@ "@ } else { "  "@ }, plain_style()),
        ] + if revision.display_lines.len() > 0 {
            revision.display_lines[0]
        } else {
            seq![
                (revision.change_id + " "@ + revision.commit_id + " "@ + revision.description, plain_style()),
            ]
        },
    }
}

/// `jj new` on the selected row (a bookmark by name, a revision by change ID) is
/// chosen, and the finder quits.
pub open spec fn new_chosen(v: AppView) -> AppView {
    match selected_item(v) {
        Some(ItemView::Header { name, .. }) => AppView {
            action: Some(ActionView::New(name)),
            quit: true,
            ..v
        },
        Some(ItemView::Rev { revision, .. }) => AppView {
            action: Some(ActionView::New(revision.change_id)),
            quit: true,
            ..v
        },
        None => v,
    }
}

/// `jj edit` on the selected revision is chosen, and the finder quits; a bookmark
/// header cannot be edited.
pub open spec fn edit_chosen(v: AppView) -> AppView {
    match selected_item(v) {
        Some(ItemView::Rev { revision, .. }) => AppView {
            action: Some(ActionView::Edit(revision.change_id)),
            quit: true,
            ..v
        },
        _ => v,
    }
}

/// The state after key `k`.
///
/// Everywhere: Esc and Control-C quit, Tab and Shift-Tab move the focus. In the
/// search box: a character extends the search, Backspace shortens it, Down and Enter
/// go to the list. In the list: `j`/Down and `k`/Up move by one, PageDown and PageUp
/// by ten, `g` and `G` go to the first and last position, `l`/Right expands and
/// `h`/Left collapses, Enter and Space toggle a bookmark, `n` and `e` choose
/// `jj new` and `jj edit`, `/` goes to the search box. Other keys, and events that
/// are not presses, change nothing.
pub open spec fn key_step(v: AppView, k: KeyInput) -> AppView {
    if !k.press {
        v
    } else if k.key == Key::Esc || (k.key == Key::Char('c') && k.control) {
        AppView { quit: true, ..v }
    } else if k.key == Key::Tab || k.key == Key::BackTab {
        focus_toggled(v)
    } else {
        match v.focus {
            Focus::Search => match k.key {
                Key::Char(c) => filtered(AppView { query: v.query.push(c), ..v }),
                Key::Backspace => filtered(
                    AppView {
                        query: if v.query.len() > 0 {
                            v.query.drop_last()
                        } else {
                            v.query
                        },
                        ..v
                    },
                ),
                Key::Down | Key::Enter => AppView { focus: Focus::List, ..v },
                _ => v,
            },
            Focus::List => match k.key {
                Key::Char('j') | Key::Down => moved(v, 1i32),
                Key::Char('k') | Key::Up => moved(v, -1i32),
                Key::Char('g') => AppView { sel: Some(0), ..v },
                Key::Char('G') => if v.shown.len() > 0 {
                    AppView { sel: Some((v.shown.len() - 1) as usize), ..v }
                } else {
                    v
                },
                Key::Char('l') | Key::Right => expanded(v),
                Key::Char('h') | Key::Left => collapsed(v),
                Key::Enter | Key::Char(' ') => expand_toggled(v),
                Key::Char('n') => new_chosen(v),
                Key::Char('e') => edit_chosen(v),
                Key::Char('/') => AppView { focus: Focus::Search, ..v },
                Key::PageUp => moved(v, -10i32),
                Key::PageDown => moved(v, 10i32),
                _ => v,
            },
        }
    }
}

// ---------------------------------------------------------------------------
// Laws

/// `n` chooses `jj new` on the selected row (a header by its bookmark's name, a
/// revision by its change ID) and quits; `e` chooses `jj edit` on a selected revision
/// by its change ID and quits. On a header `e` does nothing, and with no row selected
/// neither does anything. Nothing else changes.
pub proof fn law_choose_action(v: AppView)
    ensures
        match selected_item(v) {
            Some(ItemView::Header { name, .. }) => {
                &&& new_chosen(v) == (AppView { action: Some(ActionView::New(name)), quit: true, ..v })
                &&& edit_chosen(v) == v
            },
            Some(ItemView::Rev { revision, .. }) => {
                &&& new_chosen(v) == (AppView {
                    action: Some(ActionView::New(revision.change_id)),
                    quit: true,
                    ..v
                })
                &&& edit_chosen(v) == (AppView {
                    action: Some(ActionView::Edit(revision.change_id)),
                    quit: true,
                    ..v
                })
            },
            None => new_chosen(v) == v && edit_chosen(v) == v,
        },
{
}

/// How a row looks: a header starts with `▼ ` when its bookmark is expanded and `▶ `
/// when collapsed, followed by its name in green; a revision starts with three spaces
/// and then `@ ` for the working copy or two spaces otherwise, followed by its first
/// colored line when it has one, else by one plain run of its change ID, commit ID and
/// description separated by single spaces.
pub proof fn law_row_looks(v: AppView, row: int)
    requires
        0 <= row < v.items.len(),
    ensures
        match v.items[row] {
            ItemView::Header { name, bookmark_idx } => {
                &&& row_runs(v, row).len() == 2
                &&& row_runs(v, row)[0] == (if v.marks[bookmark_idx as int].expanded {
                    seq!['▼', ' ']
                } else {
                    seq!['▶', ' ']
                }, plain_style())
                &&& row_runs(v, row)[1] == (name, Style { fg: Some(Color::Green), ..plain_style() })
            },
            ItemView::Rev { revision, .. } => {
                &&& row_runs(v, row).take(2) == seq![
                    (seq![' ', ' ', ' '], plain_style()),
                    (if revision.is_working_copy {
                        seq!['@', ' ']
                    } else {
                        seq![' ', ' ']
                    }, plain_style()),
                ]
                &&& row_runs(v, row).skip(2) == if revision.display_lines.len() > 0 {
                    revision.display_lines[0]
                } else {
                    seq![
                        (revision.change_id + seq![' '] + revision.commit_id + seq![' ']
                            + revision.description, plain_style()),
                    ]
                }
            },
        },
{
    reveal_strlit("▼ ");
    reveal_strlit("▶ ");
    reveal_strlit("   ");
    reveal_strlit("@ ");
    reveal_strlit("  ");
    reveal_strlit(" ");
    match v.items[row] {
        ItemView::Header { .. } => {},
        ItemView::Rev { revision, .. } => {
            let head = seq![
                ("   "@, plain_style()),
                (if revision.is_working_copy { "@ "@ } else { "  "@ }, plain_style()),
            ];
            let tail = if revision.display_lines.len() > 0 {
                revision.display_lines[0]
            } else {
                seq![(revision.change_id + " "@ + revision.commit_id + " "@ + revision.description, plain_style())]
            };
            assert((head + tail).take(2) =~= head);
            assert((head + tail).skip(2) =~= tail);
            assert("   "@ =~= seq![' ', ' ', ' ']);
            assert("@ "@ =~= seq!['@', ' ']);
            assert("  "@ =~= seq![' ', ' ']);
            assert(" "@ =~= seq![' ']);
        },
    }
}

/// Moving the focus twice leaves the state as it was.
pub proof fn law_focus_toggle_twice(v: AppView)
    ensures
        focus_toggled(focus_toggled(v)) == v,
{
}

/// Moving the selection forward never leaves the list; moving it backward from a
/// position on the list does not either.
pub proof fn law_move_stays_in_list(v: AppView, delta: i32)
    requires
        0 < v.shown.len() <= usize::MAX,
        delta > 0 || (match v.sel {
            Some(s) => s < v.shown.len(),
            None => true,
        }),
    ensures
        moved(v, delta).sel matches Some(t) && t < v.shown.len(),
{
}

/// One down then one up returns to the same position, away from the last one.
pub proof fn law_down_then_up(v: AppView)
    requires
        v.shown.len() <= usize::MAX,
        v.sel matches Some(s) && s + 1 < v.shown.len(),
    ensures
        moved(moved(v, 1i32), -1i32) == v,
{
    let s = v.sel->0;
    let w = moved(v, 1i32);
    assert(w.sel == Some((s + 1) as usize));
    let x = moved(w, -1i32);
    assert(x.sel == Some(s));
    assert(x == v);
}

/// Escape always quits, and so does Control-C.
pub proof fn law_escape_quits(v: AppView, control: bool)
    ensures
        key_step(v, KeyInput { key: Key::Esc, control: control, press: true }).quit,
        key_step(v, KeyInput { key: Key::Char('c'), control: true, press: true }).quit,
{
}

/// In the search box, typing a character and erasing it gives the list the search
/// text gave before: the kept rows depend on the search text alone.
pub proof fn law_type_then_erase(v: AppView, c: char)
    requires
        v.focus == Focus::Search,
    ensures
        key_step(
            key_step(v, KeyInput { key: Key::Char(c), control: false, press: true }),
            KeyInput { key: Key::Backspace, control: false, press: true },
        ) == filtered(v),
{
    let w = key_step(v, KeyInput { key: Key::Char(c), control: false, press: true });
    assert(w.query.drop_last() =~= v.query);
}

/// With an empty search every row is kept, in order (row `i` at position `i`), and the
/// first is selected (none when there are no rows); nothing else changes.
pub proof fn law_empty_search_keeps_all(v: AppView)
    requires
        v.query.len() == 0,
    ensures
        filtered(v).shown == all_rows(v.items.len()),
        filtered(v).shown.len() == v.items.len(),
        forall|i: int| 0 <= i < v.items.len() && i <= usize::MAX ==> filtered(v).shown[i] == i,
        filtered(v) == (AppView {
            shown: filtered(v).shown,
            sel: if v.items.len() > 0 {
                Some(0usize)
            } else {
                None
            },
            ..v
        }),
{
}

/// With a non-empty search the kept rows are exactly what the fuzzy matcher returns
/// for the search text and the rows' search texts, in the matcher's order (best match
/// first), and the first of them (the best match) is selected; nothing else changes.
pub proof fn law_search_keeps_matches_in_rank_order(v: AppView)
    requires
        v.query.len() > 0,
    ensures
        ({
            let ranked = fuzzy_matches(v.query, v.items.map_values(|t: ItemView| item_search_text(t)));
            filtered(v) == (AppView {
                shown: ranked,
                sel: if ranked.len() > 0 {
                    Some(0usize)
                } else {
                    None
                },
                ..v
            })
        }),
{
}

/// Typing a character in the search box appends it to the search text and keeps the
/// matcher's result for the new text, best match first and selected.
pub proof fn law_typing_searches(v: AppView, c: char, control: bool)
    requires
        v.focus == Focus::Search,
        !(c == 'c' && control),
    ensures
        ({
            let q = v.query.push(c);
            let ranked = fuzzy_matches(q, v.items.map_values(|t: ItemView| item_search_text(t)));
            key_step(v, KeyInput { key: Key::Char(c), control: control, press: true }) == (AppView {
                query: q,
                shown: ranked,
                sel: if ranked.len() > 0 {
                    Some(0usize)
                } else {
                    None
                },
                ..v
            })
        }),
{
    law_search_keeps_matches_in_rank_order(AppView { query: v.query.push(c), ..v });
}

/// Backspace in the search box drops the last character of the search text (if any)
/// and runs the search again: with the text now empty every row is kept, else the
/// matcher's result; the first kept row is selected.
pub proof fn law_erasing_searches(v: AppView, control: bool)
    requires
        v.focus == Focus::Search,
    ensures
        ({
            let q = if v.query.len() > 0 {
                v.query.drop_last()
            } else {
                v.query
            };
            let kept = if q.len() == 0 {
                all_rows(v.items.len())
            } else {
                fuzzy_matches(q, v.items.map_values(|t: ItemView| item_search_text(t)))
            };
            key_step(v, KeyInput { key: Key::Backspace, control: control, press: true }) == (AppView {
                query: q,
                shown: kept,
                sel: if kept.len() > 0 {
                    Some(0usize)
                } else {
                    None
                },
                ..v
            })
        }),
{
}

/// Down and Enter in the search box move the focus to the list, `/` in the list moves
/// it to the search box, and Tab moves it to the other place; nothing else changes.
pub proof fn law_focus_keys(v: AppView, control: bool)
    ensures
        ({
            let key = |k: Key| KeyInput { key: k, control: control, press: true };
            &&& v.focus == Focus::Search ==> key_step(v, key(Key::Down)) == (AppView { focus: Focus::List, ..v })
            &&& v.focus == Focus::Search ==> key_step(v, key(Key::Enter)) == (AppView { focus: Focus::List, ..v })
            &&& v.focus == Focus::List ==> key_step(v, key(Key::Char('/'))) == (AppView { focus: Focus::Search, ..v })
            &&& key_step(v, key(Key::Tab)) == (AppView {
                focus: if v.focus == Focus::List {
                    Focus::Search
                } else {
                    Focus::List
                },
                ..v
            })
        }),
{
}

/// The selection after moving by `delta` on a non-empty list, from position `cur`
/// (the first when nothing is selected): forward it is `cur + delta` but at most the
/// last position, backward `cur + delta` but at least the first. Nothing else changes;
/// on an empty list nothing changes at all.
pub proof fn law_move_by(v: AppView, delta: i32)
    requires
        v.shown.len() <= usize::MAX,
    ensures
        v.shown.len() == 0 ==> moved(v, delta) == v,
        v.shown.len() > 0 ==> ({
            let len = v.shown.len() as int;
            let cur: int = match v.sel {
                Some(s) => s as int,
                None => 0,
            };
            let t: int = if delta > 0 {
                vstd::math::min(cur + delta, len - 1)
            } else {
                vstd::math::max(cur + delta, 0)
            };
            moved(v, delta) == (AppView { sel: Some(t as usize), ..v })
        }),
{
}

/// The moving keys on the list: `j`/Down one forward, `k`/Up one back, PageDown ten
/// forward, PageUp ten back (each stopping at the ends), `g` to the first position and
/// `G` to the last. Nothing else changes.
pub proof fn law_list_keys_move(v: AppView, control: bool)
    requires
        v.focus == Focus::List,
        0 < v.shown.len() <= usize::MAX,
    ensures
        ({
            let len = v.shown.len() as int;
            let cur: int = match v.sel {
                Some(s) => s as int,
                None => 0,
            };
            let at = |t: int| AppView { sel: Some(t as usize), ..v };
            let key = |k: Key| KeyInput { key: k, control: control, press: true };
            &&& key_step(v, key(Key::Char('j'))) == at(vstd::math::min(cur + 1, len - 1))
            &&& key_step(v, key(Key::Down)) == at(vstd::math::min(cur + 1, len - 1))
            &&& key_step(v, key(Key::Char('k'))) == at(vstd::math::max(cur - 1, 0))
            &&& key_step(v, key(Key::Up)) == at(vstd::math::max(cur - 1, 0))
            &&& key_step(v, key(Key::PageDown)) == at(vstd::math::min(cur + 10, len - 1))
            &&& key_step(v, key(Key::PageUp)) == at(vstd::math::max(cur - 10, 0))
            &&& key_step(v, key(Key::Char('g'))) == at(0)
            &&& key_step(v, key(Key::Char('G'))) == at(len - 1)
        }),
{
}

/// Expanding never collapses a bookmark and touches no other bookmark: on a header
/// whose bookmark is collapsed it expands that bookmark and rebuilds the rows; on a
/// header whose bookmark is already expanded, or on any other row, nothing changes.
pub proof fn law_expand_never_collapses(v: AppView)
    requires
        app_wf(v),
    ensures
        ({
            let w = expanded(v);
            &&& w.marks.len() == v.marks.len()
            &&& forall|b: int| 0 <= b < v.marks.len() && v.marks[b].expanded ==> #[trigger] w.marks[b].expanded
            &&& forall|b: int| 0 <= b < v.marks.len() ==> (#[trigger] w.marks[b]).name == v.marks[b].name
                && w.marks[b].revisions == v.marks[b].revisions
            &&& match selected_item(v) {
                Some(ItemView::Header { bookmark_idx, .. }) => {
                    &&& w.marks[bookmark_idx as int].expanded
                    &&& w.items == flatten(w.marks)
                    &&& forall|b: int| 0 <= b < v.marks.len() && b != bookmark_idx ==> #[trigger] w.marks[b] == v.marks[b]
                    &&& v.marks[bookmark_idx as int].expanded ==> w == v
                },
                _ => w == v,
            }
        }),
{
    crate::tree::lemma_flatten_bounds(v.marks);
    if let Some(t) = selected_row(v) {
        assert(owner(v.items[t as int]) < v.marks.len());
    }
}

/// Enter (or Space) on a header flips its bookmark between expanded and collapsed and
/// touches no other bookmark; on any other row nothing changes.
pub proof fn law_toggle_flips(v: AppView)
    requires
        app_wf(v),
    ensures
        ({
            let w = expand_toggled(v);
            &&& w.marks.len() == v.marks.len()
            &&& match selected_item(v) {
                Some(ItemView::Header { bookmark_idx, .. }) => {
                    &&& w.marks[bookmark_idx as int].expanded == !v.marks[bookmark_idx as int].expanded
                    &&& w.items == flatten(w.marks)
                    &&& forall|b: int| 0 <= b < v.marks.len() && b != bookmark_idx ==> #[trigger] w.marks[b] == v.marks[b]
                },
                _ => w == v,
            }
        }),
{
    crate::tree::lemma_flatten_bounds(v.marks);
    if let Some(t) = selected_row(v) {
        assert(owner(v.items[t as int]) < v.marks.len());
    }
}

/// Collapsing never expands a bookmark, and touches only the bookmark of the selected
/// row.
pub proof fn law_collapse_never_expands(v: AppView)
    requires
        app_wf(v),
    ensures
        ({
            let w = collapsed(v);
            &&& w.marks.len() == v.marks.len()
            &&& forall|b: int| 0 <= b < v.marks.len() && !v.marks[b].expanded ==> !(#[trigger] w.marks[b]).expanded
            &&& match selected_item(v) {
                Some(item) => forall|b: int| 0 <= b < v.marks.len() && b != owner(item) ==> #[trigger] w.marks[b] == v.marks[b],
                None => w == v,
            }
        }),
{
    crate::tree::lemma_flatten_bounds(v.marks);
    if let Some(t) = selected_row(v) {
        assert(owner(v.items[t as int]) < v.marks.len());
    }
}

proof fn lemma_find_header_at(items: Seq<ItemView>, bi: usize, i: int, p: int)
    requires
        0 <= i <= p < items.len(),
        is_header_of(items[p], bi),
        forall|j: int| i <= j < p ==> !is_header_of(#[trigger] items[j], bi),
    ensures
        find_header(items, bi, i) == p,
    decreases p - i,
{
    if i < p {
        lemma_find_header_at(items, bi, i + 1, p);
    }
}

/// Every bookmark has its header among the rows: the first row that is a header of
/// bookmark `bi` shows that bookmark's name.
pub proof fn law_header_found(marks: Seq<BookmarkView>, bi: usize)
    requires
        bi < marks.len(),
    ensures
        0 <= find_header(flatten(marks), bi, 0) < flatten(marks).len(),
        flatten(marks)[find_header(flatten(marks), bi, 0)] == (ItemView::Header {
            name: marks[bi as int].name,
            bookmark_idx: bi,
        }),
{
    let items = flatten(marks);
    crate::tree::lemma_header_row(marks, bi as int);
    crate::tree::lemma_flatten_prefix(marks, bi as int);
    crate::tree::lemma_flatten_bounds(marks.take(bi as int));
    let p = flatten(marks.take(bi as int)).len() as int;
    assert forall|j: int| 0 <= j < p implies !is_header_of(#[trigger] items[j], bi) by {
        assert(items[j] == flatten(marks.take(bi as int))[j]);
    }
    lemma_find_header_at(items, bi, 0, p);
}

proof fn lemma_find_position(shown: Seq<usize>, row: int, p: int, q: int)
    requires
        0 <= p <= q < shown.len(),
        shown[q] == row,
    ensures
        p <= find_position(shown, row, p) <= q,
        shown[find_position(shown, row, p)] == row,
    decreases q - p,
{
    if shown[p] != row {
        lemma_find_position(shown, row, p + 1, q);
    }
}

/// Collapsing from a revision row collapses its bookmark and, when the search keeps
/// the bookmark's header, selects that header.
pub proof fn law_collapse_selects_header(v: AppView)
    requires
        app_wf(v),
        selected_item(v) matches Some(ItemView::Rev { .. }),
        ({
            let bi = owner(selected_item(v)->0);
            let w = collapsed_bookmark(v, bi);
            &&& w.shown.len() <= usize::MAX
            &&& w.shown.contains(find_header(w.items, bi, 0) as usize)
        }),
    ensures
        ({
            let bi = owner(selected_item(v)->0);
            let z = collapsed(v);
            &&& !z.marks[bi as int].expanded
            &&& selected_item(z) == Some(
                ItemView::Header { name: v.marks[bi as int].name, bookmark_idx: bi },
            )
        }),
{
    let bi = owner(selected_item(v)->0);
    crate::tree::lemma_flatten_bounds(v.marks);
    let t = selected_row(v)->0;
    assert(owner(v.items[t as int]) == bi);
    let u = set_expanded(v, bi, false);
    law_header_found(u.marks, bi);
    crate::tree::lemma_full_size_update(
        v.marks,
        bi as int,
        BookmarkView { expanded: false, ..v.marks[bi as int] },
    );
    crate::tree::lemma_flatten_bounds(u.marks);
    let w = rebuilt(u);
    assert(w.items == flatten(u.marks));
    let h = find_header(w.items, bi, 0);
    assert(w.items.len() <= u32::MAX);
    assert(0 <= h < w.items.len());
    let q = choose|q: int| 0 <= q < w.shown.len() && w.shown[q] == h as usize;
    lemma_find_position(w.shown, h, 0, q);
    let p = find_position(w.shown, h, 0);
    let z = collapsed(v);
    assert(z == AppView { sel: Some(p as usize), ..w });
    assert(selected_row(z) == Some(h as usize));
    assert(u.marks[bi as int].name == v.marks[bi as int].name);
}

/// With an empty search the header is always kept, so collapsing from a revision row
/// always selects its bookmark's header.
pub proof fn law_collapse_without_search(v: AppView)
    requires
        app_wf(v),
        v.query.len() == 0,
        selected_item(v) matches Some(ItemView::Rev { .. }),
    ensures
        ({
            let bi = owner(selected_item(v)->0);
            let z = collapsed(v);
            &&& !z.marks[bi as int].expanded
            &&& selected_item(z) == Some(
                ItemView::Header { name: v.marks[bi as int].name, bookmark_idx: bi },
            )
        }),
{
    let bi = owner(selected_item(v)->0);
    crate::tree::lemma_flatten_bounds(v.marks);
    let t = selected_row(v)->0;
    assert(owner(v.items[t as int]) == bi);
    let u = set_expanded(v, bi, false);
    law_header_found(u.marks, bi);
    crate::tree::lemma_full_size_update(
        v.marks,
        bi as int,
        BookmarkView { expanded: false, ..v.marks[bi as int] },
    );
    crate::tree::lemma_flatten_bounds(u.marks);
    let w = collapsed_bookmark(v, bi);
    let h = find_header(w.items, bi, 0);
    assert(w.shown == all_rows(w.items.len()));
    assert(w.shown[h] == h as usize);
    assert(w.shown.contains(h as usize));
    law_collapse_selects_header(v);
}

/// With an empty search and the first row selected, toggling twice gives back the
/// same state: the first bookmark collapses and expands again (or the other way
/// round), and the selection returns to its header.
pub proof fn law_toggle_twice(v: AppView)
    requires
        app_wf(v),
        v.marks.len() > 0,
        v.query.len() == 0,
        v.shown == all_rows(v.items.len()),
        v.sel == Some(0usize),
    ensures
        expand_toggled(expand_toggled(v)) == v,
{
    crate::tree::lemma_header_row(v.marks, 0);
    assert(v.marks.take(0) =~= Seq::<BookmarkView>::empty());
    let e = v.marks[0].expanded;
    let w = expand_toggled(v);
    let u = set_expanded(v, 0, !e);
    assert(w == rebuilt(u));
    crate::tree::lemma_header_row(u.marks, 0);
    assert(u.marks.take(0) =~= Seq::<BookmarkView>::empty());
    assert(w.items[0] == (ItemView::Header { name: v.marks[0].name, bookmark_idx: 0 }));
    assert(w.sel == Some(0usize));
    assert(selected_item(w) == Some(ItemView::Header { name: v.marks[0].name, bookmark_idx: 0 }));
    let x = expand_toggled(w);
    assert(set_expanded(w, 0, e).marks =~= v.marks);
    assert(x.items == v.items);
    assert(x.shown =~= v.shown);
    assert(x == v);
}

// ---------------------------------------------------------------------------
// The implementation

/// The indices `0..n`.
fn all_indices(n: usize) -> (r: Vec<usize>)
    ensures
        r@ == all_rows(n as nat),
{
    let mut r: Vec<usize> = Vec::new();
    for i in 0..n
        invariant
            r@ == all_rows(i as nat),
    {
        r.push(i);
        assert(r@ =~= all_rows((i + 1) as nat));
    }
    r
}

impl App {
    #[verifier::type_invariant]
    spec fn well_formed(self) -> bool {
        app_wf(self@)
    }

    /// Every state is well formed (see `app_wf`): the rows are those of the
    /// bookmarks, every kept row is a row, and there are at most `u32::MAX` rows. This
    /// does nothing at run time; it lets callers apply the laws to a state.
    pub fn check_wf(&self)
        ensures
            app_wf(self@),
    {
        proof {
            use_type_invariant(self);
        }
    }

    /// The finder over `bookmarks`: every row shown, the first one selected, the
    /// search box empty, the focus on the list. The bookmarks may have at most
    /// `u32::MAX` headers and revisions in all, the most rows the matcher takes.
    pub fn new(bookmarks: Vec<Bookmark>) -> (r: App)
        requires
            full_size(bookmark_views(bookmarks@)) <= u32::MAX,
        ensures
            r@ == initial(bookmark_views(bookmarks@)),
    {
        let tree = Tree::new(bookmarks);
        let filtered_indices = all_indices(tree.items.len());
        let selected = if filtered_indices.len() > 0 {
            Some(0)
        } else {
            None
        };
        let app = App {
            tree,
            filtered_indices,
            selected,
            input: String::new(),
            focus: Focus::List,
            should_quit: false,
            action: None,
        };
        assert(app@.shown =~= all_rows(app@.items.len()));
        app
    }

    /// The bookmarks.
    pub fn bookmarks(&self) -> (r: &Vec<Bookmark>)
        ensures
            bookmark_views(r@) == self@.marks,
    {
        &self.tree.bookmarks
    }

    /// The rows of the tree.
    pub fn tree_items(&self) -> (r: &Vec<TreeItem>)
        ensures
            item_views(r@) == self@.items,
    {
        &self.tree.items
    }

    /// The rows the search keeps, as indices into the rows.
    pub fn filtered_indices(&self) -> (r: &Vec<usize>)
        ensures
            r@ == self@.shown,
    {
        &self.filtered_indices
    }

    /// The selected position in the list of kept rows.
    pub fn selected(&self) -> (r: Option<usize>)
        ensures
            r == self@.sel,
    {
        self.selected
    }

    /// The search text.
    pub fn input(&self) -> (r: &String)
        ensures
            r@ == self@.query,
    {
        &self.input
    }

    /// Where the keys go.
    pub fn focus(&self) -> (r: Focus)
        ensures
            r == self@.focus,
    {
        self.focus
    }

    /// Whether the finder is done.
    pub fn should_quit(&self) -> (r: bool)
        ensures
            r == self@.quit,
    {
        self.should_quit
    }

    /// The action chosen, if any.
    pub fn action(&self) -> (r: &Option<Action>)
        ensures
            match *r {
                Some(a) => self@.action == Some(a@),
                None => self@.action is None,
            },
    {
        &self.action
    }

    /// Shows the rows `rows` (indices into the rows, as the matcher returns them) and
    /// selects the first of them.
    pub fn show_rows(&mut self, rows: Vec<usize>)
        requires
            forall|i: int| 0 <= i < rows.len() ==> rows[i] < old(self)@.items.len(),
        ensures
            final(self)@ == (AppView { shown: rows@, sel: first_position(rows@), ..old(self)@ }),
    {
        proof {
            use_type_invariant(&*self);
        }
        self.filtered_indices = rows;
        if self.filtered_indices.len() == 0 {
            self.selected = None;
        } else {
            self.selected = Some(0);
        }
    }

    /// Runs the search again on the current rows and selects the first kept row.
    pub fn filter_entries(&mut self)
        ensures
            final(self)@ == filtered(old(self)@),
    {
        proof {
            use_type_invariant(&*self);
        }
        if self.input.as_str().is_empty() {
            let rows = all_indices(self.tree.items.len());
            self.show_rows(rows);
        } else {
            let ghost items = self@.items;
            let mut haystacks: Vec<String> = Vec::new();
            for i in 0..self.tree.items.len()
                invariant
                    items == item_views(self.tree.items@),
                    string_views(haystacks@) == items.take(i as int).map_values(
                        |t: ItemView| item_search_text(t),
                    ),
            {
                let text = copy_string(self.tree.items[i].search_text());
                let ghost before = string_views(haystacks@);
                haystacks.push(text);
                assert(string_views(haystacks@) =~= before.push(text@));
                assert(items.take(i + 1).map_values(|t: ItemView| item_search_text(t))
                    =~= items.take(i as int).map_values(|t: ItemView| item_search_text(t)).push(
                    item_search_text(items[i as int]),
                ));
            }
            assert(items.take(items.len() as int) =~= items);
            proof {
                crate::tree::lemma_flatten_bounds(self@.marks);
            }
            let rows = match_indices(&self.input, &haystacks);
            self.show_rows(rows);
        }
    }

    /// Rebuilds the rows from the bookmarks and runs the search again.
    pub fn rebuild_tree(&mut self)
        ensures
            final(self)@ == rebuilt(old(self)@),
    {
        proof {
            use_type_invariant(&*self);
        }
        let marks = self.take_bookmarks();
        self.replace_bookmarks(marks);
    }

    /// Takes the bookmarks out, leaving no bookmarks, no rows and no kept rows.
    fn take_bookmarks(&mut self) -> (r: Vec<Bookmark>)
        ensures
            bookmark_views(r@) == old(self)@.marks,
            final(self)@ == (AppView {
                marks: Seq::empty(),
                items: Seq::empty(),
                shown: Seq::empty(),
                ..old(self)@
            }),
    {
        proof {
            use_type_invariant(&*self);
        }
        // No kept row may outlive the rows it points into.
        self.filtered_indices = Vec::new();
        let mut tree = Tree { bookmarks: Vec::new(), items: Vec::new() };
        assert(bookmark_views(tree.bookmarks@) =~= Seq::empty());
        assert(item_views(tree.items@) =~= Seq::empty());
        std::mem::swap(&mut tree, &mut self.tree);
        tree.bookmarks
    }

    /// Puts `marks` in place of the bookmarks, rebuilds the rows and runs the search
    /// again.
    fn replace_bookmarks(&mut self, marks: Vec<Bookmark>)
        requires
            full_size(bookmark_views(marks@)) <= u32::MAX,
        ensures
            final(self)@ == rebuilt(AppView { marks: bookmark_views(marks@), ..old(self)@ }),
    {
        proof {
            use_type_invariant(&*self);
        }
        // The kept rows may not exist among the new rows; the search below replaces them.
        self.filtered_indices = Vec::new();
        self.tree = Tree::new(marks);
        self.filter_entries();
    }

    /// Marks bookmark `bi` expanded or collapsed, rebuilds the rows and runs the
    /// search again.
    fn rebuild_with_expanded(&mut self, bi: usize, e: bool)
        requires
            bi < old(self)@.marks.len(),
        ensures
            final(self)@ == rebuilt(set_expanded(old(self)@, bi, e)),
    {
        proof {
            use_type_invariant(&*self);
        }
        let mut marks = self.take_bookmarks();
        marks[bi].expanded = e;
        assert(bookmark_views(marks@) =~= set_expanded(old(self)@, bi, e).marks);
        proof {
            crate::tree::lemma_full_size_update(
                old(self)@.marks,
                bi as int,
                BookmarkView { expanded: e, ..old(self)@.marks[bi as int] },
            );
        }
        self.replace_bookmarks(marks);
    }

    /// The row under the selection, if the selection is on the list.
    pub fn get_selected_item(&self) -> (r: Option<&TreeItem>)
        ensures
            match r {
                Some(t) => selected_item(self@) == Some(t@),
                None => selected_item(self@) is None,
            },
    {
        match self.selected {
            Some(s) => {
                if s < self.filtered_indices.len() {
                    let idx = self.filtered_indices[s];
                    if idx < self.tree.items.len() {
                        return Some(&self.tree.items[idx]);
                    }
                }
                None
            },
            None => None,
        }
    }

    /// The line that shows row `row` of the tree (see `row_runs`).
    pub fn display_row(&self, row: usize) -> (r: Line)
        requires
            row < self@.items.len(),
        ensures
            r@ == row_runs(self@, row as int),
    {
        proof {
            use_type_invariant(self);
            crate::tree::lemma_flatten_bounds(self@.marks);
        }
        let mut spans: Vec<Span> = Vec::new();
        match &self.tree.items[row] {
            TreeItem::BookmarkHeader { name, bookmark_idx } => {
                proof {
                    assert(owner(self@.items[row as int]) == *bookmark_idx);
                }
                let marker = if self.tree.bookmarks[*bookmark_idx].expanded {
                    "▼ "
                } else {
                    "▶ "
                };
                spans.push(Span { content: String::from_str(marker), style: Style::new() });
                spans.push(Span { content: copy_string(name), style: Style::new().fg(Color::Green) });
                assert(span_views(spans@) =~= row_runs(self@, row as int));
            },
            TreeItem::Revision { revision, .. } => {
                let mark = if revision.is_working_copy {
                    "@ "
                } else {
                    "  "
                };
                spans.push(Span { content: String::from_str("   "), style: Style::new() });
                spans.push(Span { content: String::from_str(mark), style: Style::new() });
                let ghost head = span_views(spans@);
                if revision.display_lines.len() > 0 {
                    let first = &revision.display_lines[0];
                    for i in 0..first.spans.len()
                        invariant
                            span_views(spans@) == head + span_views(first.spans@).take(i as int),
                    {
                        let span = first.spans[i].copy();
                        let ghost before = span_views(spans@);
                        spans.push(span);
                        assert(span_views(spans@) =~= before.push(span@));
                        assert(span_views(first.spans@).take(i + 1) =~= span_views(
                            first.spans@,
                        ).take(i as int).push(first.spans@[i as int]@));
                    }
                    assert(span_views(first.spans@).take(first.spans.len() as int) =~= span_views(
                        first.spans@,
                    ));
                    assert(revision@.display_lines[0] == first@);
                } else {
                    let mut text = chars_of(revision.change_id.as_str());
                    text.push(' ');
                    push_all(&mut text, &chars_of(revision.commit_id.as_str()));
                    text.push(' ');
                    push_all(&mut text, &chars_of(revision.description.as_str()));
                    let ghost before = span_views(spans@);
                    let content = string_of(&text);
                    spans.push(Span { content, style: Style::new() });
                    assert(span_views(spans@) =~= before.push((content@, plain_style())));
                    proof {
                        reveal_strlit(" ");
                    }
                    assert(content@ =~= revision.change_id@ + " "@ + revision.commit_id@ + " "@
                        + revision.description@);
                }
                assert(span_views(spans@) =~= row_runs(self@, row as int));
            },
        }
        Line { spans }
    }

    /// The bookmark whose header is under the selection, if a header is.
    fn selected_header(&self) -> (r: Option<usize>)
        ensures
            match selected_item(self@) {
                Some(ItemView::Header { bookmark_idx, .. }) => r == Some(bookmark_idx),
                _ => r is None,
            },
            r matches Some(bi) ==> bi < self@.marks.len(),
    {
        proof {
            use_type_invariant(self);
        }
        match self.get_selected_item() {
            Some(TreeItem::BookmarkHeader { bookmark_idx, .. }) => {
                proof {
                    crate::tree::lemma_flatten_bounds(self@.marks);
                    let t = selected_row(self@)->0;
                    assert(owner(self@.items[t as int]) == *bookmark_idx);
                }
                Some(*bookmark_idx)
            },
            _ => None,
        }
    }

    /// The bookmark of the selected row, and whether that row is its header.
    fn selected_owner(&self) -> (r: Option<(usize, bool)>)
        ensures
            match selected_item(self@) {
                Some(ItemView::Header { bookmark_idx, .. }) => r == Some((bookmark_idx, true)),
                Some(ItemView::Rev { bookmark_idx, .. }) => r == Some((bookmark_idx, false)),
                None => r is None,
            },
            r matches Some((bi, _)) ==> bi < self@.marks.len(),
    {
        proof {
            use_type_invariant(self);
        }
        let item = self.get_selected_item();
        proof {
            crate::tree::lemma_flatten_bounds(self@.marks);
        }
        match item {
            Some(TreeItem::BookmarkHeader { bookmark_idx, .. }) => {
                proof {
                    assert(owner(self@.items[selected_row(self@)->0 as int]) == *bookmark_idx);
                }
                Some((*bookmark_idx, true))
            },
            Some(TreeItem::Revision { bookmark_idx, .. }) => {
                proof {
                    assert(owner(self@.items[selected_row(self@)->0 as int]) == *bookmark_idx);
                }
                Some((*bookmark_idx, false))
            },
            None => None,
        }
    }

    /// Moves the selection by `delta` positions (see `moved`). On a non-empty list
    /// `delta` may not be `i32::MIN`, whose negation overflows.
    pub fn move_selection(&mut self, delta: i32)
        requires
            delta != i32::MIN || old(self)@.shown.len() == 0,
        ensures
            final(self)@ == moved(old(self)@, delta),
    {
        proof {
            use_type_invariant(&*self);
        }
        let len = self.filtered_indices.len();
        if len == 0 {
            return ;
        }
        let current: usize = match self.selected {
            Some(s) => s,
            None => 0,
        };
        let new_index: usize = if delta > 0 {
            let d = delta as usize;
            if current < len - 1 && d < (len - 1) - current {
                current + d
            } else {
                len - 1
            }
        } else {
            let d = (-delta) as usize;
            if current > d {
                current - d
            } else {
                0
            }
        };
        self.selected = Some(new_index);
    }

    /// Moves the focus to the other place.
    pub fn toggle_focus(&mut self)
        ensures
            final(self)@ == focus_toggled(old(self)@),
    {
        proof {
            use_type_invariant(&*self);
        }
        self.focus = match self.focus {
            Focus::Search => Focus::List,
            Focus::List => Focus::Search,
        };
    }

    /// Expands the selected bookmark if collapsed, collapses it if expanded.
    pub fn toggle_expand(&mut self)
        ensures
            final(self)@ == expand_toggled(old(self)@),
    {
        proof {
            use_type_invariant(&*self);
        }
        if let Some(bi) = self.selected_header() {
            let e = self.tree.bookmarks[bi].expanded;
            self.rebuild_with_expanded(bi, !e);
        }
    }

    /// Expands the selected bookmark if it is collapsed.
    pub fn expand_selected(&mut self)
        ensures
            final(self)@ == expanded(old(self)@),
    {
        proof {
            use_type_invariant(&*self);
        }
        if let Some(bi) = self.selected_header() {
            if !self.tree.bookmarks[bi].expanded {
                self.rebuild_with_expanded(bi, true);
            }
        }
    }

    /// Collapses the selected bookmark if it is expanded; on a revision, collapses
    /// its bookmark and selects the bookmark's header.
    pub fn collapse_selected(&mut self)
        ensures
            final(self)@ == collapsed(old(self)@),
    {
        proof {
            use_type_invariant(&*self);
        }
        match self.selected_owner() {
            Some((bi, true)) => {
                if self.tree.bookmarks[bi].expanded {
                    self.rebuild_with_expanded(bi, false);
                }
            },
            Some((bi, false)) => {
                self.rebuild_with_expanded(bi, false);
                proof {
                    use_type_invariant(&*self);
                }
                let h = header_position(&self.tree.items, bi);
                if h < self.tree.items.len() {
                    let p = position_of(&self.filtered_indices, h);
                    if p < self.filtered_indices.len() {
                        self.selected = Some(p);
                    }
                }
            },
            None => {},
        }
    }

    /// Chooses `jj new` on the selected row and quits.
    pub fn do_new(&mut self)
        ensures
            final(self)@ == new_chosen(old(self)@),
    {
        proof {
            use_type_invariant(&*self);
        }
        let target: Option<String> = match self.get_selected_item() {
            Some(TreeItem::BookmarkHeader { name, .. }) => Some(copy_string(name)),
            Some(TreeItem::Revision { revision, .. }) => Some(copy_string(&revision.change_id)),
            None => None,
        };
        if let Some(t) = target {
            self.action = Some(Action::New(t));
            self.should_quit = true;
        }
    }

    /// Chooses `jj edit` on the selected revision and quits.
    pub fn do_edit(&mut self)
        ensures
            final(self)@ == edit_chosen(old(self)@),
    {
        proof {
            use_type_invariant(&*self);
        }
        let target: Option<String> = match self.get_selected_item() {
            Some(TreeItem::Revision { revision, .. }) => Some(copy_string(&revision.change_id)),
            _ => None,
        };
        if let Some(t) = target {
            self.action = Some(Action::Edit(t));
            self.should_quit = true;
        }
    }
}

impl App {
    /// Takes the search text out, leaving it empty.
    fn take_input(&mut self) -> (r: String)
        ensures
            r@ == old(self)@.query,
            final(self)@ == (AppView { query: Seq::empty(), ..old(self)@ }),
    {
        proof {
            use_type_invariant(&*self);
        }
        let mut query = String::new();
        std::mem::swap(&mut query, &mut self.input);
        query
    }

    /// Reacts to one key event (see `key_step`).
    pub fn handle_key(&mut self, k: KeyInput)
        ensures
            final(self)@ == key_step(old(self)@, k),
    {
        proof {
            use_type_invariant(&*self);
        }
        if !k.press {
            return ;
        }
        // Keys that act everywhere.

        match k.key {
            Key::Esc => {
                self.should_quit = true;
                return ;
            },
            Key::Char('c') if k.control => {
                self.should_quit = true;
                return ;
            },
            Key::Tab | Key::BackTab => {
                self.toggle_focus();
                return ;
            },
            _ => {},
        }
        // Keys that depend on the focus.

        match self.focus {
            Focus::Search => match k.key {
                Key::Char(c) => {
                    let mut query = self.take_input();
                    query.push(c);
                    self.input = query;
                    self.filter_entries();
                },
                Key::Backspace => {
                    let mut query = self.take_input();
                    query.pop();
                    self.input = query;
                    self.filter_entries();
                },
                Key::Down | Key::Enter => {
                    self.focus = Focus::List;
                },
                _ => {},
            },
            Focus::List => match k.key {
                Key::Char('j') | Key::Down => {
                    self.move_selection(1);
                },
                Key::Char('k') | Key::Up => {
                    self.move_selection(-1);
                },
                Key::Char('g') => {
                    self.selected = Some(0);
                },
                Key::Char('G') => {
                    let len = self.filtered_indices.len();
                    if len > 0 {
                        self.selected = Some(len - 1);
                    }
                },
                Key::Char('l') | Key::Right => {
                    self.expand_selected();
                },
                Key::Char('h') | Key::Left => {
                    self.collapse_selected();
                },
                Key::Enter | Key::Char(' ') => {
                    let on_bookmark = match self.get_selected_item() {
                        Some(item) => item.is_bookmark(),
                        None => false,
                    };
                    if on_bookmark {
                        self.toggle_expand();
                    }
                },
                Key::Char('n') => {
                    self.do_new();
                },
                Key::Char('e') => {
                    self.do_edit();
                },
                Key::Char('/') => {
                    self.focus = Focus::Search;
                },
                Key::PageUp => {
                    self.move_selection(-10);
                },
                Key::PageDown => {
                    self.move_selection(10);
                },
                _ => {},
            },
        }
    }
}

/// The first position of `shown` that holds `row`, or the length of `shown`.
fn position_of(shown: &Vec<usize>, row: usize) -> (r: usize)
    ensures
        r == find_position(shown@, row as int, 0),
{
    let mut p: usize = 0;
    while p < shown.len()
        invariant
            p <= shown.len(),
            find_position(shown@, row as int, p as int) == find_position(shown@, row as int, 0),
        decreases shown.len() - p,
    {
        if shown[p] == row {
            return p;
        }
        p = p + 1;
    }
    p
}

/// The first row that is the header of bookmark `bi`, or the number of rows.
fn header_position(items: &Vec<TreeItem>, bi: usize) -> (r: usize)
    ensures
        r == find_header(item_views(items@), bi, 0),
{
    let mut i: usize = 0;
    while i < items.len()
        invariant
            i <= items.len(),
            find_header(item_views(items@), bi, i as int) == find_header(item_views(items@), bi, 0),
        decreases items.len() - i,
    {
        match &items[i] {
            TreeItem::BookmarkHeader { bookmark_idx, .. } => {
                if *bookmark_idx == bi {
                    return i;
                }
            },
            TreeItem::Revision { .. } => {},
        }
        i = i + 1;
    }
    i
}

} // verus!
