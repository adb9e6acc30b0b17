use jjf::ansi::parse_u8_chars;
use jjf::text::{blank, join_chars, lines_of, split_chars, splitn_chars, trim_chars};

fn chars(s: &str) -> Vec<char> {
    s.chars().collect()
}

fn strings(v: Vec<Vec<char>>) -> Vec<String> {
    v.into_iter().map(|p| p.into_iter().collect()).collect()
}

#[test]
fn parse_u8_like_std() {
    for s in ["0", "7", "+7", "007", "255", "256", "", "+", "-1", "1a", " 1", "99999999999"] {
        assert_eq!(parse_u8_chars(&chars(s)), s.parse::<u8>().ok(), "input {:?}", s);
    }
}

#[test]
fn split_like_std() {
    for s in ["", "a", ";", "a;b", ";a;;b;", "x;y;z"] {
        let expected: Vec<String> = s.split(';').map(|p| p.to_string()).collect();
        assert_eq!(strings(split_chars(&chars(s), ';')), expected, "input {:?}", s);
    }
}

#[test]
fn splitn_like_std() {
    for s in ["", "a|b", "a|b|c|d|e|f", "a|b|c|d|e|f|g|h", "||||||"] {
        for n in 0..8 {
            let expected: Vec<String> = s.splitn(n, '|').map(|p| p.to_string()).collect();
            assert_eq!(strings(splitn_chars(&chars(s), n, '|')), expected, "input {:?} {}", s, n);
        }
    }
}

#[test]
fn lines_like_std() {
    for s in ["", "\n", "a", "a\n", "a\nb", "a\r\nb\r\n", "a\r", "\r\n\r\n", "x\n\ny"] {
        let expected: Vec<String> = s.lines().map(|p| p.to_string()).collect();
        assert_eq!(strings(lines_of(&chars(s))), expected, "input {:?}", s);
    }
}

#[test]
fn blank_like_trim() {
    for s in ["", " ", "\t\r\n", "\u{3000}\u{a0}", " a ", "x"] {
        assert_eq!(blank(&chars(s)), s.trim().is_empty(), "input {:?}", s);
    }
}

#[test]
fn join_like_std() {
    let pieces = vec![chars("a"), chars(""), chars("bc")];
    let joined: String = join_chars(&pieces, &chars(" ")).into_iter().collect();
    assert_eq!(joined, ["a", "", "bc"].join(" "));
    assert!(join_chars(&Vec::new(), &chars(" ")).is_empty());
}

#[test]
fn trim_like_std() {
    for s in ["", "  ", " a ", "a", "\t a b \n", "\u{3000}x\u{a0}"] {
        let got: String = trim_chars(&chars(s)).into_iter().collect();
        assert_eq!(got, s.trim(), "input {:?}", s);
    }
}
