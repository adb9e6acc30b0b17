use jjf::log::parse_log_entries;
use jjf::style::{Color, Style};

#[test]
fn entries_from_structured_and_colored_output() {
    let structured = "qzvt|a1b2|main,dev|Alice|2024-01-02 03:04|Fix the | parser\n\
                      \n\
                      short|line\n\
                      wxyz|c3d4||Bob|2024-01-01 00:00|Initial\n";
    let colored = "\x1b[35mqzvt\x1b[0m a1b2\n\
                   second\n\
                   third\n";
    let entries = parse_log_entries(structured, colored);
    assert_eq!(entries.len(), 2);

    let e = &entries[0];
    assert_eq!(e.change_id, "qzvt");
    assert_eq!(e.commit_id, "a1b2");
    assert_eq!(e.bookmarks, vec!["main".to_string(), "dev".to_string()]);
    assert_eq!(e.author, "Alice");
    assert_eq!(e.timestamp, "2024-01-02 03:04");
    assert_eq!(e.description, "Fix the | parser");
    assert_eq!(e.search_text, "qzvt a1b2 main dev Alice 2024-01-02 03:04 Fix the | parser");
    assert_eq!(e.display_lines.len(), 1);
    let spans = &e.display_lines[0].spans;
    assert_eq!(spans.len(), 2);
    assert_eq!(spans[0].content, "qzvt");
    assert_eq!(spans[0].style, Style::new().fg(Color::Magenta));
    assert_eq!(spans[1].content, " a1b2");
    assert_eq!(spans[1].style, Style::new());

    // The fourth structured line has no colored line: it gets a plain one.
    let f = &entries[1];
    assert_eq!(f.change_id, "wxyz");
    assert!(f.bookmarks.is_empty());
    assert_eq!(f.search_text, "wxyz c3d4  Bob 2024-01-01 00:00 Initial");
    assert_eq!(f.display_lines.len(), 1);
    assert_eq!(f.display_lines[0].spans.len(), 1);
    assert_eq!(f.display_lines[0].spans[0].content, "wxyz c3d4 Initial");
    assert_eq!(f.display_lines[0].spans[0].style, Style::new());
}

#[test]
fn empty_bookmark_names_are_dropped() {
    let entries = parse_log_entries("a|b|,x,,y,|c|d|e", "");
    assert_eq!(entries.len(), 1);
    assert_eq!(entries[0].bookmarks, vec!["x".to_string(), "y".to_string()]);
    assert_eq!(entries[0].search_text, "a b x y c d e");
}

#[test]
fn blank_and_short_lines_give_no_entry() {
    assert!(parse_log_entries("   \t\n|||||\n", "").len() == 1);
    assert!(parse_log_entries("a|b|c|d|e", "").is_empty());
    assert!(parse_log_entries("", "").is_empty());
}

#[test]
fn empty_colored_line_gives_no_display_lines() {
    let entries = parse_log_entries("a|b|c|d|e|f\n", "\n");
    assert_eq!(entries.len(), 1);
    assert!(entries[0].display_lines.is_empty());
}
