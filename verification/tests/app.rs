use jjf::app::{Action, App, Focus, Key, KeyInput};
use jjf::log::parse_log_entries;
use jjf::style::{Color, Style};
use jjf::tree::{bookmark_names, flatten_tree, revisions_of, Bookmark, Revision, TreeItem};

fn rev(id: &str, text: &str) -> Revision {
    Revision {
        change_id: id.to_string(),
        commit_id: format!("c{}", id),
        description: format!("desc {}", id),
        search_text: text.to_string(),
        is_working_copy: false,
        display_lines: Vec::new(),
    }
}

fn bookmarks() -> Vec<Bookmark> {
    vec![
        Bookmark {
            name: "main".to_string(),
            revisions: vec![rev("aa", "aa fix parser"), rev("bb", "bb add tests")],
            expanded: true,
        },
        Bookmark {
            name: "feature".to_string(),
            revisions: vec![rev("cc", "cc new widget")],
            expanded: false,
        },
    ]
}

fn press(key: Key) -> KeyInput {
    KeyInput { key, control: false, press: true }
}

fn header_name(item: &TreeItem) -> Option<&str> {
    match item {
        TreeItem::BookmarkHeader { name, .. } => Some(name.as_str()),
        TreeItem::Revision { .. } => None,
    }
}

fn change_id(item: &TreeItem) -> Option<&str> {
    match item {
        TreeItem::Revision { revision, .. } => Some(revision.change_id.as_str()),
        TreeItem::BookmarkHeader { .. } => None,
    }
}

#[test]
fn flatten_shows_revisions_of_expanded_bookmarks_only() {
    let items = flatten_tree(&bookmarks());
    assert_eq!(items.len(), 4);
    assert_eq!(header_name(&items[0]), Some("main"));
    assert_eq!(change_id(&items[1]), Some("aa"));
    assert_eq!(change_id(&items[2]), Some("bb"));
    assert_eq!(header_name(&items[3]), Some("feature"));
    assert!(matches!(items[3], TreeItem::BookmarkHeader { bookmark_idx: 1, .. }));
    assert!(matches!(items[2], TreeItem::Revision { bookmark_idx: 0, .. }));
}

#[test]
fn new_app_selects_first_row() {
    let app = App::new(bookmarks());
    assert_eq!(app.filtered_indices(), &vec![0, 1, 2, 3]);
    assert_eq!(app.selected(), Some(0));
    assert_eq!(app.focus(), Focus::List);
    assert!(!app.should_quit());
    assert!(app.action().is_none());
    let empty = App::new(Vec::new());
    assert_eq!(empty.selected(), None);
}

#[test]
fn moving_stays_in_the_list() {
    let mut app = App::new(bookmarks());
    app.handle_key(press(Key::Char('j')));
    assert_eq!(app.selected(), Some(1));
    app.handle_key(press(Key::PageDown));
    assert_eq!(app.selected(), Some(3));
    app.handle_key(press(Key::Down));
    assert_eq!(app.selected(), Some(3));
    app.handle_key(press(Key::Up));
    assert_eq!(app.selected(), Some(2));
    app.handle_key(press(Key::PageUp));
    assert_eq!(app.selected(), Some(0));
    app.handle_key(press(Key::Char('G')));
    assert_eq!(app.selected(), Some(3));
    app.handle_key(press(Key::Char('g')));
    assert_eq!(app.selected(), Some(0));
}

#[test]
fn down_then_up_returns() {
    let mut app = App::new(bookmarks());
    app.move_selection(1);
    app.move_selection(1);
    app.move_selection(-1);
    assert_eq!(app.selected(), Some(1));
}

#[test]
fn non_press_events_are_ignored() {
    let mut app = App::new(bookmarks());
    app.handle_key(KeyInput { key: Key::Esc, control: false, press: false });
    assert!(!app.should_quit());
}

#[test]
fn escape_and_control_c_quit() {
    let mut app = App::new(bookmarks());
    app.handle_key(press(Key::Esc));
    assert!(app.should_quit());
    let mut app = App::new(bookmarks());
    app.handle_key(KeyInput { key: Key::Char('c'), control: true, press: true });
    assert!(app.should_quit());
    assert!(app.action().is_none());
}

#[test]
fn tab_toggles_focus_twice() {
    let mut app = App::new(bookmarks());
    app.handle_key(press(Key::Tab));
    assert_eq!(app.focus(), Focus::Search);
    app.handle_key(press(Key::BackTab));
    assert_eq!(app.focus(), Focus::List);
    app.handle_key(press(Key::Char('/')));
    assert_eq!(app.focus(), Focus::Search);
    app.handle_key(press(Key::Enter));
    assert_eq!(app.focus(), Focus::List);
}

#[test]
fn expand_and_collapse() {
    let mut app = App::new(bookmarks());
    // Select the "feature" header and expand it.
    app.handle_key(press(Key::Char('G')));
    app.handle_key(press(Key::Char('l')));
    assert!(app.bookmarks()[1].expanded);
    assert_eq!(app.tree_items().len(), 5);
    assert_eq!(app.selected(), Some(0));
    // Collapse "main" from its header.
    app.handle_key(press(Key::Char('h')));
    assert!(!app.bookmarks()[0].expanded);
    assert_eq!(app.tree_items().len(), 3);
    // Enter toggles it back.
    app.handle_key(press(Key::Enter));
    assert!(app.bookmarks()[0].expanded);
    assert_eq!(app.tree_items().len(), 5);
}

#[test]
fn collapsing_a_revision_selects_its_header() {
    let mut app = App::new(bookmarks());
    app.handle_key(press(Key::Char('G')));
    app.handle_key(press(Key::Right)); // expand "feature": rows main, aa, bb, feature, cc
    app.handle_key(press(Key::Char('G'))); // revision cc
    assert_eq!(change_id(app.get_selected_item().unwrap()), Some("cc"));
    app.handle_key(press(Key::Left));
    assert!(!app.bookmarks()[1].expanded);
    assert_eq!(app.selected(), Some(3));
    assert_eq!(header_name(app.get_selected_item().unwrap()), Some("feature"));
}

#[test]
fn enter_on_a_revision_does_nothing() {
    let mut app = App::new(bookmarks());
    app.handle_key(press(Key::Down));
    app.handle_key(press(Key::Char(' ')));
    assert_eq!(app.tree_items().len(), 4);
    assert_eq!(app.selected(), Some(1));
}

#[test]
fn new_on_a_bookmark_and_on_a_revision() {
    let mut app = App::new(bookmarks());
    app.handle_key(press(Key::Char('n')));
    assert!(app.should_quit());
    assert!(matches!(app.action(), Some(Action::New(t)) if t == "main"));

    let mut app = App::new(bookmarks());
    app.handle_key(press(Key::Char('j')));
    app.handle_key(press(Key::Char('n')));
    assert!(matches!(app.action(), Some(Action::New(t)) if t == "aa"));
}

#[test]
fn edit_only_on_a_revision() {
    let mut app = App::new(bookmarks());
    app.handle_key(press(Key::Char('e')));
    assert!(!app.should_quit());
    assert!(app.action().is_none());
    app.handle_key(press(Key::Char('j')));
    app.handle_key(press(Key::Char('j')));
    app.handle_key(press(Key::Char('e')));
    assert!(app.should_quit());
    assert!(matches!(app.action(), Some(Action::Edit(t)) if t == "bb"));
}

#[test]
fn search_filters_and_erasing_restores() {
    let mut app = App::new(bookmarks());
    app.handle_key(press(Key::Tab));
    for c in "widget".chars() {
        app.handle_key(press(Key::Char(c)));
    }
    assert_eq!(app.input(), "widget");
    // "cc new widget" is a collapsed revision, so no row matches.
    assert!(app.filtered_indices().is_empty());
    assert_eq!(app.selected(), None);
    for _ in 0..6 {
        app.handle_key(press(Key::Backspace));
    }
    assert_eq!(app.input(), "");
    assert_eq!(app.filtered_indices(), &vec![0, 1, 2, 3]);
    assert_eq!(app.selected(), Some(0));
    app.handle_key(press(Key::Backspace));
    assert_eq!(app.input(), "");
}

#[test]
fn search_keeps_matching_rows() {
    let mut app = App::new(bookmarks());
    app.handle_key(press(Key::Tab));
    for c in "parser".chars() {
        app.handle_key(press(Key::Char(c)));
    }
    assert_eq!(app.filtered_indices(), &vec![1]);
    assert_eq!(app.selected(), Some(0));
    assert_eq!(change_id(app.get_selected_item().unwrap()), Some("aa"));
    // Typing in the search box does not move or act.
    app.handle_key(press(Key::Char('n')));
    assert!(!app.should_quit());
}

#[test]
fn show_rows_selects_first() {
    let mut app = App::new(bookmarks());
    app.show_rows(vec![3, 0]);
    assert_eq!(app.selected(), Some(0));
    assert_eq!(header_name(app.get_selected_item().unwrap()), Some("feature"));
    app.show_rows(Vec::new());
    assert_eq!(app.selected(), None);
    assert!(app.get_selected_item().is_none());
}

#[test]
fn enter_twice_on_first_header_restores() {
    let mut app = App::new(bookmarks());
    app.handle_key(press(Key::Enter));
    assert!(!app.bookmarks()[0].expanded);
    assert_eq!(app.tree_items().len(), 2);
    app.handle_key(press(Key::Enter));
    assert!(app.bookmarks()[0].expanded);
    assert_eq!(app.tree_items().len(), 4);
    assert_eq!(app.filtered_indices(), &vec![0, 1, 2, 3]);
    assert_eq!(app.selected(), Some(0));
}

#[test]
fn collapsing_a_revision_during_a_search_selects_its_header() {
    let marks = vec![
        Bookmark {
            name: "main".to_string(),
            revisions: vec![rev("aa", "aa fix parser"), rev("bb", "bb add tests")],
            expanded: true,
        },
        Bookmark {
            name: "feature".to_string(),
            revisions: vec![rev("cc", "cc feature widget")],
            expanded: true,
        },
    ];
    // Rows: 0 main, 1 aa, 2 bb, 3 feature, 4 cc.
    let mut app = App::new(marks);
    app.handle_key(press(Key::Tab));
    for c in "feature".chars() {
        app.handle_key(press(Key::Char(c)));
    }
    let mut kept = app.filtered_indices().clone();
    kept.sort();
    assert_eq!(kept, vec![3, 4]);
    app.handle_key(press(Key::Tab));
    let p = app.filtered_indices().iter().position(|&r| r == 4).unwrap();
    for _ in 0..p {
        app.handle_key(press(Key::Down));
    }
    assert_eq!(change_id(app.get_selected_item().unwrap()), Some("cc"));
    app.handle_key(press(Key::Char('h')));
    assert!(!app.bookmarks()[1].expanded);
    assert_eq!(app.input(), "feature");
    // Rows: 0 main, 1 aa, 2 bb, 3 feature; the search keeps only row 3.
    assert_eq!(app.filtered_indices(), &vec![3]);
    assert_eq!(app.selected(), Some(0));
    assert_eq!(header_name(app.get_selected_item().unwrap()), Some("feature"));
}

#[test]
fn bookmark_names_are_trimmed_lines() {
    assert_eq!(
        bookmark_names("main\n  feature \n\n\t\nfix\r\n"),
        vec!["main".to_string(), "feature".to_string(), "fix".to_string()]
    );
    assert!(bookmark_names("").is_empty());
}

#[test]
fn revisions_mark_the_working_copy() {
    let entries = parse_log_entries("aa|c1||A|t|one\nbb|c2||B|t|two\n", "");
    let revs = revisions_of(&entries, "bb\n");
    assert_eq!(revs.len(), 2);
    assert_eq!(revs[0].change_id, "aa");
    assert!(!revs[0].is_working_copy);
    assert_eq!(revs[1].commit_id, "c2");
    assert_eq!(revs[1].description, "two");
    assert!(revs[1].is_working_copy);
    assert_eq!(revs[1].search_text, entries[1].search_text);
    assert_eq!(revs[1].display_lines.len(), 1);
}

fn runs(line: &jjf::ansi::Line) -> Vec<(String, jjf::style::Style)> {
    line.spans.iter().map(|s| (s.content.clone(), s.style)).collect()
}

#[test]
fn moving_in_an_empty_list_keeps_the_state() {
    let mut app = App::new(Vec::new());
    app.move_selection(i32::MIN);
    assert_eq!(app.selected(), None);
    app.move_selection(5);
    assert_eq!(app.selected(), None);
    assert!(app.filtered_indices().is_empty());
}

#[test]
fn the_state_is_well_formed() {
    let mut app = App::new(bookmarks());
    app.handle_key(press(Key::Char('h')));
    app.check_wf();
    assert_eq!(app.tree_items().len(), 2);
}

#[test]
fn rows_are_displayed_with_markers() {
    let mut marks = bookmarks();
    marks[0].revisions[1].is_working_copy = true;
    let red = Style::new().fg(Color::Red);
    marks[0].revisions[0].display_lines = vec![jjf::ansi::Line {
        spans: vec![jjf::ansi::Span { content: "aa".to_string(), style: red }],
    }];
    let app = App::new(marks);
    let plain = Style::new();
    let green = Style::new().fg(Color::Green);
    assert_eq!(runs(&app.display_row(0)), vec![("▼ ".to_string(), plain), ("main".to_string(), green)]);
    assert_eq!(
        runs(&app.display_row(1)),
        vec![("   ".to_string(), plain), ("  ".to_string(), plain), ("aa".to_string(), red)]
    );
    assert_eq!(
        runs(&app.display_row(2)),
        vec![
            ("   ".to_string(), plain),
            ("@ ".to_string(), plain),
            ("bb cbb desc bb".to_string(), plain),
        ]
    );
    assert_eq!(runs(&app.display_row(3)), vec![("▶ ".to_string(), plain), ("feature".to_string(), green)]);
}
