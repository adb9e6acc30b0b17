use jjf::ansi::{apply_sgr_sequence, parse_ansi_line, parse_ansi_to_lines, Line};
use jjf::style::{Color, Style, BOLD, DIM, ITALIC, UNDERLINED};

fn chars(s: &str) -> Vec<char> {
    s.chars().collect()
}

fn runs(line: &Line) -> Vec<(String, Style)> {
    line.spans.iter().map(|s| (s.content.clone(), s.style)).collect()
}

#[test]
fn plain_text_is_one_unstyled_run() {
    let lines = parse_ansi_to_lines("hello world");
    assert_eq!(lines.len(), 1);
    assert_eq!(runs(&lines[0]), vec![("hello world".to_string(), Style::new())]);
}

#[test]
fn empty_input_has_no_lines() {
    assert_eq!(parse_ansi_to_lines("").len(), 0);
    let lines = parse_ansi_to_lines("\n");
    assert_eq!(lines.len(), 1);
    assert!(lines[0].spans.is_empty());
}

#[test]
fn colored_change_id() {
    let input = "\x1b[1m\x1b[38;5;5mqz\x1b[0m\x1b[38;5;8mvtlzmn\x1b[39m rest";
    let lines = parse_ansi_to_lines(input);
    assert_eq!(lines.len(), 1);
    let bold_magenta = Style::new().add_modifier(BOLD).fg(Color::Indexed(5));
    let gray = Style::new().fg(Color::Indexed(8));
    let reset = gray.fg(Color::Reset);
    assert_eq!(
        runs(&lines[0]),
        vec![
            ("qz".to_string(), bold_magenta),
            ("vtlzmn".to_string(), gray),
            (" rest".to_string(), reset),
        ]
    );
}

#[test]
fn lines_are_split_and_carriage_returns_dropped() {
    let lines = parse_ansi_to_lines("a\r\n\x1b[31mb\nc\r");
    assert_eq!(lines.len(), 3);
    assert_eq!(runs(&lines[0]), vec![("a".to_string(), Style::new())]);
    assert_eq!(runs(&lines[1]), vec![("b".to_string(), Style::new().fg(Color::Red))]);
    assert_eq!(runs(&lines[2]), vec![("c\r".to_string(), Style::new())]);
}

#[test]
fn lone_escape_is_dropped() {
    let line = parse_ansi_line(&chars("a\x1bb\x1b"));
    assert_eq!(runs(&line), vec![("ab".to_string(), Style::new())]);
}

#[test]
fn unterminated_sequence_consumes_the_rest() {
    let line = parse_ansi_line(&chars("x\x1b[31;1"));
    assert_eq!(runs(&line), vec![("x".to_string(), Style::new())]);
}

#[test]
fn any_final_letter_ends_a_sequence() {
    // `K` (erase line) ends the sequence; its parameters are read as SGR codes.
    let line = parse_ansi_line(&chars("\x1b[32Kgo"));
    assert_eq!(runs(&line), vec![("go".to_string(), Style::new().fg(Color::Green))]);
}

#[test]
fn sgr_reset_and_empty() {
    let styled = Style::new().fg(Color::Blue).add_modifier(ITALIC);
    assert_eq!(apply_sgr_sequence(&chars("0"), styled), Style::new());
    assert_eq!(apply_sgr_sequence(&chars(""), styled), Style::new());
    assert_eq!(apply_sgr_sequence(&chars("1;0"), styled), Style::new());
}

#[test]
fn sgr_modifiers() {
    let s = apply_sgr_sequence(&chars("1;2;4"), Style::new());
    assert_eq!(s.add_modifier, BOLD | DIM | UNDERLINED);
    assert_eq!(s.sub_modifier, 0);
    let t = apply_sgr_sequence(&chars("22"), s);
    assert_eq!(t.add_modifier, UNDERLINED);
    assert_eq!(t.sub_modifier, BOLD | DIM);
}

#[test]
fn bold_then_normal_cancels_bold() {
    let s = apply_sgr_sequence(&chars("1;22"), Style::new().add_modifier(BOLD));
    assert_eq!(s.add_modifier & BOLD, 0);
    assert_eq!(s.sub_modifier & BOLD, BOLD);
}

#[test]
fn sgr_colors() {
    assert_eq!(apply_sgr_sequence(&chars("91;104"), Style::new()),
        Style::new().fg(Color::LightRed).bg(Color::LightBlue));
    assert_eq!(apply_sgr_sequence(&chars("48;5;200"), Style::new()),
        Style::new().bg(Color::Indexed(200)));
    assert_eq!(apply_sgr_sequence(&chars("37;97;47;107"), Style::new()),
        Style::new().fg(Color::White).bg(Color::White));
    assert_eq!(apply_sgr_sequence(&chars("39;49"), Style::new()),
        Style::new().fg(Color::Reset).bg(Color::Reset));
}

#[test]
fn sgr_extended_color_modes() {
    // A mode other than 5 is skipped; the codes after it apply.
    assert_eq!(apply_sgr_sequence(&chars("38;2;31"), Style::new()),
        Style::new().fg(Color::Red));
    // 5 without an index changes nothing.
    assert_eq!(apply_sgr_sequence(&chars("38;5"), Style::new()), Style::new());
    // 38 at the end changes nothing.
    assert_eq!(apply_sgr_sequence(&chars("38"), Style::new()), Style::new());
    // A part that is not a u8 is left out, so 999 does not count as the index.
    assert_eq!(apply_sgr_sequence(&chars("38;5;999;7"), Style::new()),
        Style::new().fg(Color::Indexed(7)));
}

#[test]
fn sgr_unparsable_parts_are_skipped() {
    assert_eq!(apply_sgr_sequence(&chars(";;1;x;+31;"), Style::new()),
        Style::new().add_modifier(BOLD).fg(Color::Red));
    assert_eq!(apply_sgr_sequence(&chars("256;-1;5"), Style::new()), Style::new());
}

#[test]
fn sgr_twice_is_once() {
    for p in ["1;31", "0", "", "22;48;5;3", "38;2", "4;24;1"] {
        let once = apply_sgr_sequence(&chars(p), Style::new().add_modifier(ITALIC));
        assert_eq!(apply_sgr_sequence(&chars(p), once), once, "params {:?}", p);
    }
}

#[test]
fn sgr_parts_apply_in_turn() {
    let base = Style::new().fg(Color::Green);
    let joined = apply_sgr_sequence(&chars("1;38;5;9;44"), base);
    let parts = apply_sgr_sequence(&chars("44"), apply_sgr_sequence(&chars("1;38;5;9"), base));
    assert_eq!(joined, parts);
}
