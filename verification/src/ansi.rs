//! Colored terminal text: turning lines that carry ANSI escape sequences into
//! runs of text, each with the style the SGR (Select Graphic Rendition)
//! sequences before it have set.

use vstd::prelude::*;
use crate::style::{
    plain_style, Color, Style, BOLD, CROSSED_OUT, DIM, ITALIC, REVERSED, UNDERLINED,
};
use crate::text::{chars_of, lines, lines_of, split, split_chars, string_of, sub_chars, views};

verus! {

/// The escape character that starts a control sequence.
pub const ESC: char = '\u{1b}';

/// A run of text in one style.
#[derive(Clone, Debug)]
pub struct Span {
    pub content: String,
    pub style: Style,
}

impl View for Span {
    type V = (Seq<char>, Style);

    open spec fn view(&self) -> (Seq<char>, Style) {
        (self.content@, self.style)
    }
}

/// One line of styled text: its runs, in order.
#[derive(Clone, Debug)]
pub struct Line {
    pub spans: Vec<Span>,
}

/// The runs held by a vector of spans.
pub open spec fn span_views(v: Seq<Span>) -> Seq<(Seq<char>, Style)> {
    v.map_values(|s: Span| s@)
}

impl View for Line {
    type V = Seq<(Seq<char>, Style)>;

    open spec fn view(&self) -> Seq<(Seq<char>, Style)> {
        span_views(self.spans@)
    }
}

/// The runs of each line in a vector of lines.
pub open spec fn line_views(v: Seq<Line>) -> Seq<Seq<(Seq<char>, Style)>> {
    v.map_values(|l: Line| l@)
}

// ---------------------------------------------------------------------------
// Numbers in SGR parameters

/// An ASCII decimal digit.
pub open spec fn is_digit(c: char) -> bool {
    '0' <= c && c <= '9'
}

/// The value of the decimal numeral `d`.
pub open spec fn decimal(d: Seq<char>) -> int
    decreases d.len(),
{
    if d.len() == 0 {
        0
    } else {
        decimal(d.drop_last()) * 10 + (d.last() as int - '0' as int)
    }
}

/// Every character of `d` is an ASCII digit.
pub open spec fn all_digits(d: Seq<char>) -> bool {
    forall|i: int| 0 <= i < d.len() ==> is_digit(#[trigger] d[i])
}

/// The numeral part of an unsigned number: the text after a leading `+`, if any.
pub open spec fn numeral_part(s: Seq<char>) -> Seq<char> {
    if s.len() > 0 && s[0] == '+' {
        s.drop_first()
    } else {
        s
    }
}

/// What `str::parse::<u8>` accepts: an optional `+`, then one or more ASCII digits
/// whose value is at most 255.
pub open spec fn parse_u8(s: Seq<char>) -> Option<u8> {
    let d = numeral_part(s);
    if d.len() > 0 && all_digits(d) && decimal(d) <= 255 {
        Some(decimal(d) as u8)
    } else {
        None
    }
}

proof fn lemma_decimal_nonneg(d: Seq<char>)
    requires
        forall|i: int| 0 <= i < d.len() ==> is_digit(#[trigger] d[i]),
    ensures
        decimal(d) >= 0,
    decreases d.len(),
{
    if d.len() > 0 {
        assert forall|i: int| 0 <= i < d.drop_last().len() implies is_digit(
            #[trigger] d.drop_last()[i],
        ) by {
            assert(d.drop_last()[i] == d[i]);
        }
        lemma_decimal_nonneg(d.drop_last());
    }
}

/// `str::parse::<u8>`, with `None` for every error.
pub fn parse_u8_chars(s: &Vec<char>) -> (r: Option<u8>)
    ensures
        r == parse_u8(s@),
{
    let start: usize = if s.len() > 0 && s[0] == '+' {
        1
    } else {
        0
    };
    let ghost d = numeral_part(s@);
    assert(d =~= s@.subrange(start as int, s@.len() as int));
    if start == s.len() {
        return None;
    }
    // `acc` is the value read so far, held at 256 once it is too large for a `u8`.
    let mut acc: u32 = 0;
    let mut k: usize = start;
    while k < s.len()
        invariant
            start <= k <= s.len(),
            d == numeral_part(s@),
            d == s@.subrange(start as int, s@.len() as int),
            forall|i: int| start <= i < k ==> is_digit(#[trigger] s@[i]),
            acc <= 256,
            acc == (if decimal(s@.subrange(start as int, k as int)) < 256 {
                decimal(s@.subrange(start as int, k as int))
            } else {
                256
            }),
        decreases s.len() - k,
    {
        let c = s[k];
        if !('0' <= c && c <= '9') {
            assert(!is_digit(d[k - start]));
            return None;
        }
        let ghost prev = s@.subrange(start as int, k as int);
        assert(s@.subrange(start as int, k + 1).drop_last() =~= prev);
        proof {
            assert forall|i: int| 0 <= i < prev.len() implies is_digit(#[trigger] prev[i]) by {
                assert(prev[i] == s@[start + i]);
            }
            lemma_decimal_nonneg(prev);
        }
        let digit: u32 = (c as u32) - ('0' as u32);
        acc = if acc >= 26 {
            256
        } else {
            let v = acc * 10 + digit;
            if v > 256 {
                256
            } else {
                v
            }
        };
        k = k + 1;
    }
    assert(s@.subrange(start as int, k as int) == d);
    assert forall|i: int| 0 <= i < d.len() implies is_digit(#[trigger] d[i]) by {
        assert(d[i] == s@[start + i]);
    }
    if acc <= 255 {
        Some(acc as u8)
    } else {
        None
    }
}

// ---------------------------------------------------------------------------
// SGR sequences

/// `style` with foreground `c`.
pub open spec fn with_fg(style: Style, c: Color) -> Style {
    Style { fg: Some(c), ..style }
}

/// `style` with background `c`.
pub open spec fn with_bg(style: Style, c: Color) -> Style {
    Style { bg: Some(c), ..style }
}

/// `style` with the modifiers `m` added.
pub open spec fn with_modifier(style: Style, m: u16) -> Style {
    Style { add_modifier: style.add_modifier | m, sub_modifier: style.sub_modifier & !m, ..style }
}

/// `style` with the modifiers `m` removed.
pub open spec fn without_modifier(style: Style, m: u16) -> Style {
    Style { add_modifier: style.add_modifier & !m, sub_modifier: style.sub_modifier | m, ..style }
}

/// The effect of one SGR code that takes no argument: resets, emphasis on and off,
/// the eight standard and eight bright colours, and the default colours. Any other
/// code leaves the style as it is.
pub open spec fn code_effect(code: u8, style: Style) -> Style {
    match code {
        0 => plain_style(),
        1 => with_modifier(style, BOLD),
        2 => with_modifier(style, DIM),
        3 => with_modifier(style, ITALIC),
        4 => with_modifier(style, UNDERLINED),
        7 => with_modifier(style, REVERSED),
        9 => with_modifier(style, CROSSED_OUT),
        22 => without_modifier(style, BOLD | DIM),
        23 => without_modifier(style, ITALIC),
        24 => without_modifier(style, UNDERLINED),
        27 => without_modifier(style, REVERSED),
        29 => without_modifier(style, CROSSED_OUT),
        30 => with_fg(style, Color::Black),
        31 => with_fg(style, Color::Red),
        32 => with_fg(style, Color::Green),
        33 => with_fg(style, Color::Yellow),
        34 => with_fg(style, Color::Blue),
        35 => with_fg(style, Color::Magenta),
        36 => with_fg(style, Color::Cyan),
        37 => with_fg(style, Color::White),
        39 => with_fg(style, Color::Reset),
        40 => with_bg(style, Color::Black),
        41 => with_bg(style, Color::Red),
        42 => with_bg(style, Color::Green),
        43 => with_bg(style, Color::Yellow),
        44 => with_bg(style, Color::Blue),
        45 => with_bg(style, Color::Magenta),
        46 => with_bg(style, Color::Cyan),
        47 => with_bg(style, Color::White),
        49 => with_bg(style, Color::Reset),
        90 => with_fg(style, Color::DarkGray),
        91 => with_fg(style, Color::LightRed),
        92 => with_fg(style, Color::LightGreen),
        93 => with_fg(style, Color::LightYellow),
        94 => with_fg(style, Color::LightBlue),
        95 => with_fg(style, Color::LightMagenta),
        96 => with_fg(style, Color::LightCyan),
        97 => with_fg(style, Color::White),
        100 => with_bg(style, Color::DarkGray),
        101 => with_bg(style, Color::LightRed),
        102 => with_bg(style, Color::LightGreen),
        103 => with_bg(style, Color::LightYellow),
        104 => with_bg(style, Color::LightBlue),
        105 => with_bg(style, Color::LightMagenta),
        106 => with_bg(style, Color::LightCyan),
        107 => with_bg(style, Color::White),
        _ => style,
    }
}

/// The style after a list of SGR codes, read left to right. `38` and `48` take the
/// next code as a colour mode: when it is `5`, the code after it (if any) is a
/// 256-colour index for the foreground or the background; any other mode code is
/// skipped.
pub open spec fn apply_codes(codes: Seq<u8>, style: Style) -> Style
    decreases codes.len(),
{
    if codes.len() == 0 {
        style
    } else {
        let code = codes[0];
        let rest = codes.drop_first();
        if code == 38 || code == 48 {
            if rest.len() > 0 && rest[0] == 5 {
                if rest.len() > 1 {
                    let c = Color::Indexed(rest[1]);
                    apply_codes(
                        rest.skip(2),
                        if code == 38 {
                            with_fg(style, c)
                        } else {
                            with_bg(style, c)
                        },
                    )
                } else {
                    style
                }
            } else if rest.len() > 0 {
                apply_codes(rest.drop_first(), style)
            } else {
                style
            }
        } else {
            apply_codes(rest, code_effect(code, style))
        }
    }
}

/// The numbers among `pieces`, in order; pieces that are not a `u8` are left out.
pub open spec fn parsed_codes(pieces: Seq<Seq<char>>) -> Seq<u8>
    decreases pieces.len(),
{
    if pieces.len() == 0 {
        Seq::empty()
    } else {
        let head: Seq<u8> = match parse_u8(pieces[0]) {
            Some(v) => seq![v],
            None => Seq::empty(),
        };
        head + parsed_codes(pieces.drop_first())
    }
}

/// The codes of an SGR parameter string: its `;`-separated parts that are numbers.
pub open spec fn sgr_codes(params: Seq<char>) -> Seq<u8> {
    parsed_codes(split(params, ';'))
}

/// The style after the SGR sequence with parameters `params`: an empty sequence or
/// `0` resets to the plain style, anything else applies its codes in order.
pub open spec fn sgr_style(params: Seq<char>, style: Style) -> Style {
    if params.len() == 0 || params == seq!['0'] {
        plain_style()
    } else {
        apply_codes(sgr_codes(params), style)
    }
}

/// The effect of one SGR code that takes no argument.
pub fn apply_code(code: u8, style: Style) -> (r: Style)
    ensures
        r == code_effect(code, style),
{
    match code {
        0 => Style::new(),
        1 => style.add_modifier(BOLD),
        2 => style.add_modifier(DIM),
        3 => style.add_modifier(ITALIC),
        4 => style.add_modifier(UNDERLINED),
        7 => style.add_modifier(REVERSED),
        9 => style.add_modifier(CROSSED_OUT),
        22 => style.remove_modifier(BOLD | DIM),
        23 => style.remove_modifier(ITALIC),
        24 => style.remove_modifier(UNDERLINED),
        27 => style.remove_modifier(REVERSED),
        29 => style.remove_modifier(CROSSED_OUT),
        30 => style.fg(Color::Black),
        31 => style.fg(Color::Red),
        32 => style.fg(Color::Green),
        33 => style.fg(Color::Yellow),
        34 => style.fg(Color::Blue),
        35 => style.fg(Color::Magenta),
        36 => style.fg(Color::Cyan),
        37 => style.fg(Color::White),
        39 => style.fg(Color::Reset),
        40 => style.bg(Color::Black),
        41 => style.bg(Color::Red),
        42 => style.bg(Color::Green),
        43 => style.bg(Color::Yellow),
        44 => style.bg(Color::Blue),
        45 => style.bg(Color::Magenta),
        46 => style.bg(Color::Cyan),
        47 => style.bg(Color::White),
        49 => style.bg(Color::Reset),
        90 => style.fg(Color::DarkGray),
        91 => style.fg(Color::LightRed),
        92 => style.fg(Color::LightGreen),
        93 => style.fg(Color::LightYellow),
        94 => style.fg(Color::LightBlue),
        95 => style.fg(Color::LightMagenta),
        96 => style.fg(Color::LightCyan),
        97 => style.fg(Color::White),
        100 => style.bg(Color::DarkGray),
        101 => style.bg(Color::LightRed),
        102 => style.bg(Color::LightGreen),
        103 => style.bg(Color::LightYellow),
        104 => style.bg(Color::LightBlue),
        105 => style.bg(Color::LightMagenta),
        106 => style.bg(Color::LightCyan),
        107 => style.bg(Color::White),
        _ => style,
    }
}

/// The codes of an SGR parameter string.
pub fn sgr_codes_of(params: &Vec<char>) -> (r: Vec<u8>)
    ensures
        r@ == sgr_codes(params@),
{
    let pieces = split_chars(params, ';');
    let mut r: Vec<u8> = Vec::new();
    assert(views(pieces@).skip(0) =~= views(pieces@));
    assert(r@ + parsed_codes(views(pieces@)) =~= parsed_codes(views(pieces@)));
    for i in 0..pieces.len()
        invariant
            views(pieces@) == split(params@, ';'),
            r@ + parsed_codes(views(pieces@).skip(i as int)) == sgr_codes(params@),
    {
        let ghost rest = views(pieces@).skip(i as int);
        assert(rest[0] == pieces@[i as int]@);
        assert(rest.drop_first() =~= views(pieces@).skip(i + 1));
        match parse_u8_chars(&pieces[i]) {
            Some(v) => {
                let ghost before = r@;
                r.push(v);
                assert(before + parsed_codes(rest) =~= r@ + parsed_codes(rest.drop_first()));
            },
            None => {
                assert(parsed_codes(rest) =~= parsed_codes(rest.drop_first()));
            },
        }
    }
    assert(views(pieces@).skip(pieces.len() as int) =~= Seq::<Seq<char>>::empty());
    assert(r@ =~= sgr_codes(params@));
    r
}

/// The style after the SGR sequence with parameters `params`, applied to `style`.
pub fn apply_sgr_sequence(params: &Vec<char>, style: Style) -> (r: Style)
    ensures
        r == sgr_style(params@, style),
{
    if params.len() == 0 || (params.len() == 1 && params[0] == '0') {
        assert(params.len() == 1 ==> params@ =~= seq!['0']);
        return Style::new();
    }
    assert(params@ != seq!['0']) by {
        if params@ == seq!['0'] {
            assert(params@[0] == '0');
        }
    }
    let codes = sgr_codes_of(params);
    let mut st = style;
    let mut i: usize = 0;
    assert(codes@.skip(0) =~= codes@);
    while i < codes.len()
        invariant
            i <= codes.len(),
            apply_codes(codes@.skip(i as int), st) == apply_codes(codes@, style),
        decreases codes.len() - i,
    {
        let ghost rest = codes@.skip(i as int);
        let code = codes[i];
        assert(rest[0] == code);
        assert(rest.drop_first() =~= codes@.skip(i + 1));
        i = i + 1;
        if code == 38 || code == 48 {
            if i < codes.len() && codes[i] == 5 {
                i = i + 1;
                if i < codes.len() {
                    let color = codes[i];
                    assert(rest.drop_first().skip(2) =~= codes@.skip(i + 1));
                    st = if code == 38 {
                        st.fg(Color::Indexed(color))
                    } else {
                        st.bg(Color::Indexed(color))
                    };
                    i = i + 1;
                } else {
                    assert(codes@.skip(i as int) =~= Seq::<u8>::empty());
                }
            } else if i < codes.len() {
                assert(rest.drop_first().drop_first() =~= codes@.skip(i + 1));
                i = i + 1;
            }
        } else {
            st = apply_code(code, st);
        }
    }
    st
}

// ---------------------------------------------------------------------------
// Lines

/// An ASCII letter, which ends a control sequence.
pub open spec fn is_letter(c: char) -> bool {
    ('a' <= c && c <= 'z') || ('A' <= c && c <= 'Z')
}

/// A control sequence (`ESC [`) starts at position `j` of `s`.
pub open spec fn csi_at(s: Seq<char>, j: int) -> bool {
    0 <= j && j + 1 < s.len() && s[j] == ESC && s[j + 1] == '['
}

/// The first position at or after `i` where a control sequence starts, or `s.len()`.
pub open spec fn next_csi(s: Seq<char>, i: int) -> int
    decreases s.len() - i,
{
    if i >= s.len() {
        s.len() as int
    } else if csi_at(s, i) {
        i
    } else {
        next_csi(s, i + 1)
    }
}

/// The first letter at or after position `i`, or `s.len()`.
pub open spec fn next_letter(s: Seq<char>, i: int) -> int
    decreases s.len() - i,
{
    if i >= s.len() {
        s.len() as int
    } else if is_letter(s[i]) {
        i
    } else {
        next_letter(s, i + 1)
    }
}

/// `t` without its escape characters.
pub open spec fn drop_escapes(t: Seq<char>) -> Seq<char>
    decreases t.len(),
{
    if t.len() == 0 {
        Seq::empty()
    } else if t.last() == ESC {
        drop_escapes(t.drop_last())
    } else {
        drop_escapes(t.drop_last()).push(t.last())
    }
}

/// `next_csi` lands on a control sequence or on the end.
pub proof fn lemma_next_csi(s: Seq<char>, i: int)
    requires
        0 <= i <= s.len(),
    ensures
        i <= next_csi(s, i) <= s.len(),
        next_csi(s, i) < s.len() ==> csi_at(s, next_csi(s, i)),
    decreases s.len() - i,
{
    if i < s.len() && !csi_at(s, i) {
        lemma_next_csi(s, i + 1);
    }
}

/// `next_letter` lies between its start and the end.
pub proof fn lemma_next_letter(s: Seq<char>, i: int)
    requires
        0 <= i <= s.len(),
    ensures
        i <= next_letter(s, i) <= s.len(),
    decreases s.len() - i,
{
    if i < s.len() && !is_letter(s[i]) {
        lemma_next_letter(s, i + 1);
    }
}

/// The styled runs of `s` from position `i` on, when the style in force there is
/// `style`: the text up to the next control sequence (escape characters dropped), if
/// it is not empty, then the runs after that sequence, whose parameters run up to the
/// next letter and whose letter is consumed, in the style it sets.
pub open spec fn runs(s: Seq<char>, i: int, style: Style) -> Seq<(Seq<char>, Style)>
    decreases s.len() - i,
{
    if i < 0 || i > s.len() {
        Seq::empty()
    } else {
        let k = next_csi(s, i);
        let text = drop_escapes(s.subrange(i, k));
        let here: Seq<(Seq<char>, Style)> = if text.len() > 0 {
            seq![(text, style)]
        } else {
            Seq::empty()
        };
        if k >= s.len() {
            here
        } else {
            proof {
                lemma_next_csi(s, i);
                lemma_next_letter(s, k + 2);
            }
            let e = next_letter(s, k + 2);
            let resume = if e < s.len() {
                e + 1
            } else {
                s.len() as int
            };
            here + runs(s, resume, sgr_style(s.subrange(k + 2, e), style))
        }
    }
}

/// The styled runs of a line of text that starts in the plain style.
pub open spec fn line_runs(s: Seq<char>) -> Seq<(Seq<char>, Style)> {
    runs(s, 0, plain_style())
}

/// Splits one line carrying ANSI escape sequences into styled runs.
pub fn parse_ansi_line(s: &Vec<char>) -> (r: Line)
    ensures
        r@ == line_runs(s@),
{
    let mut spans: Vec<Span> = Vec::new();
    let mut style = Style::new();
    let mut i: usize = 0;
    loop
        invariant_except_break
            i <= s.len(),
            span_views(spans@) + runs(s@, i as int, style) == line_runs(s@),
        ensures
            span_views(spans@) == line_runs(s@),
        decreases s.len() - i,
    {
        let ghost at_start = span_views(spans@);
        // The plain text up to the next control sequence.
        let mut text: Vec<char> = Vec::new();
        let mut k: usize = i;
        while k < s.len() && !(s[k] == ESC && k + 1 < s.len() && s[k + 1] == '[')
            invariant
                i <= k <= s.len(),
                next_csi(s@, k as int) == next_csi(s@, i as int),
                text@ == drop_escapes(s@.subrange(i as int, k as int)),
            decreases s.len() - k,
        {
            assert(s@.subrange(i as int, k + 1).drop_last() =~= s@.subrange(i as int, k as int));
            if s[k] != ESC {
                text.push(s[k]);
            }
            k = k + 1;
        }
        assert(k == next_csi(s@, i as int));
        proof {
            lemma_next_csi(s@, i as int);
        }
        if text.len() > 0 {
            let content = string_of(&text);
            spans.push(Span { content, style });
        }
        let ghost here = span_views(spans@).skip(at_start.len() as int);
        assert(span_views(spans@) =~= at_start + here);
        assert(here =~= (if text@.len() > 0 {
            seq![(text@, style)]
        } else {
            Seq::empty()
        }));
        if k >= s.len() {
            break ;
        }
        // A control sequence: `ESC [`, parameters, a letter.

        let p = k + 2;
        let mut e: usize = p;
        while e < s.len() && !(('a' <= s[e] && s[e] <= 'z') || ('A' <= s[e] && s[e] <= 'Z'))
            invariant
                p <= e <= s.len(),
                next_letter(s@, e as int) == next_letter(s@, p as int),
            decreases s.len() - e,
        {
            e = e + 1;
        }
        assert(e == next_letter(s@, p as int));
        let params = sub_chars(s, p, e);
        style = apply_sgr_sequence(&params, style);
        i = if e < s.len() {
            e + 1
        } else {
            s.len()
        };
    }
    Line { spans }
}

/// Splits text carrying ANSI escape sequences into lines (as `str::lines` does) and
/// each line into styled runs.
pub fn parse_ansi_to_lines(input: &str) -> (r: Vec<Line>)
    ensures
        line_views(r@) == lines(input@).map_values(|l: Seq<char>| line_runs(l)),
{
    let chars = chars_of(input);
    parse_ansi_chars(&chars)
}

/// `parse_ansi_to_lines` on the characters of a text.
pub fn parse_ansi_chars(input: &Vec<char>) -> (r: Vec<Line>)
    ensures
        line_views(r@) == lines(input@).map_values(|l: Seq<char>| line_runs(l)),
{
    let ls = lines_of(input);
    let mut r: Vec<Line> = Vec::new();
    for i in 0..ls.len()
        invariant
            views(ls@) == lines(input@),
            line_views(r@) == lines(input@).take(i as int).map_values(|l: Seq<char>| line_runs(l)),
    {
        let line = parse_ansi_line(&ls[i]);
        let ghost before = line_views(r@);
        r.push(line);
        assert(line_views(r@) =~= before.push(line@));
        assert(lines(input@).take(i + 1).map_values(|l: Seq<char>| line_runs(l))
            =~= lines(input@).take(i as int).map_values(|l: Seq<char>| line_runs(l)).push(
            line_runs(lines(input@)[i as int]),
        ));
    }
    assert(lines(input@).take(ls.len() as int) =~= lines(input@));
    r
}

// ---------------------------------------------------------------------------
// Laws

/// The text of `s` from position `i` on that a reader sees: every control sequence
/// (`ESC [`, parameters, letter) and every other escape character removed.
pub open spec fn visible_from(s: Seq<char>, i: int) -> Seq<char>
    decreases s.len() - i,
{
    if i < 0 || i > s.len() {
        Seq::empty()
    } else {
        let k = next_csi(s, i);
        let text = drop_escapes(s.subrange(i, k));
        if k >= s.len() {
            text
        } else {
            proof {
                lemma_next_csi(s, i);
                lemma_next_letter(s, k + 2);
            }
            let e = next_letter(s, k + 2);
            text + visible_from(
                s,
                if e < s.len() {
                    e + 1
                } else {
                    s.len() as int
                },
            )
        }
    }
}

/// The texts of the runs, one after the other.
pub open spec fn run_texts(rs: Seq<(Seq<char>, Style)>) -> Seq<char>
    decreases rs.len(),
{
    if rs.len() == 0 {
        Seq::empty()
    } else {
        rs[0].0 + run_texts(rs.drop_first())
    }
}

/// Whether `s` holds no escape character.
pub open spec fn has_no_escape(s: Seq<char>) -> bool {
    forall|i: int| 0 <= i < s.len() ==> s[i] != ESC
}

proof fn lemma_runs_texts(s: Seq<char>, i: int, style: Style)
    requires
        0 <= i <= s.len(),
    ensures
        run_texts(runs(s, i, style)) == visible_from(s, i),
        forall|j: int| 0 <= j < runs(s, i, style).len() ==> (#[trigger] runs(s, i, style)[j]).0.len()
            > 0,
    decreases s.len() - i,
{
    lemma_next_csi(s, i);
    let k = next_csi(s, i);
    let text = drop_escapes(s.subrange(i, k));
    let here: Seq<(Seq<char>, Style)> = if text.len() > 0 {
        seq![(text, style)]
    } else {
        Seq::empty()
    };
    if k >= s.len() {
        if text.len() > 0 {
            assert(here.drop_first() =~= Seq::<(Seq<char>, Style)>::empty());
            assert(run_texts(here.drop_first()) =~= Seq::<char>::empty());
            assert(run_texts(here) =~= text);
        }
    } else {
        lemma_next_letter(s, k + 2);
        let e = next_letter(s, k + 2);
        let resume = if e < s.len() {
            e + 1
        } else {
            s.len() as int
        };
        let next = sgr_style(s.subrange(k + 2, e), style);
        lemma_runs_texts(s, resume, next);
        let rest = runs(s, resume, next);
        if text.len() > 0 {
            assert((here + rest).drop_first() =~= rest);
            assert(run_texts(here + rest) =~= text + run_texts(rest));
        } else {
            assert(here + rest =~= rest);
        }
        assert forall|j: int| 0 <= j < (here + rest).len() implies (#[trigger] (here + rest)[j]).0.len()
            > 0 by {
            if j >= here.len() {
                assert((here + rest)[j] == rest[j - here.len()]);
            }
        }
    }
}

proof fn lemma_no_escape(s: Seq<char>, i: int)
    requires
        0 <= i <= s.len(),
        has_no_escape(s),
    ensures
        next_csi(s, i) == s.len(),
        drop_escapes(s.subrange(i, s.len() as int)) == s.subrange(i, s.len() as int),
    decreases s.len() - i,
{
    if i < s.len() {
        lemma_no_escape(s, i + 1);
    }
    lemma_drop_escapes_clean(s.subrange(i, s.len() as int));
}

proof fn lemma_drop_escapes_clean(t: Seq<char>)
    requires
        has_no_escape(t),
    ensures
        drop_escapes(t) == t,
    decreases t.len(),
{
    if t.len() > 0 {
        assert(has_no_escape(t.drop_last())) by {
            assert forall|i: int| 0 <= i < t.drop_last().len() implies t.drop_last()[i] != ESC by {
                assert(t.drop_last()[i] == t[i]);
            }
        }
        lemma_drop_escapes_clean(t.drop_last());
        assert(t.drop_last().push(t.last()) =~= t);
    }
}

/// Styling never changes the text: the runs of a line, read one after the other,
/// are the line's visible text (control sequences and escape characters removed),
/// and no run is empty.
pub proof fn law_runs_keep_visible_text(s: Seq<char>)
    ensures
        run_texts(line_runs(s)) == visible_from(s, 0),
        forall|j: int| 0 <= j < line_runs(s).len() ==> (#[trigger] line_runs(s)[j]).0.len() > 0,
{
    lemma_runs_texts(s, 0, plain_style());
}

/// A line without escape characters is a single unstyled run (none when it is empty).
pub proof fn law_plain_line(s: Seq<char>)
    requires
        has_no_escape(s),
    ensures
        line_runs(s) == (if s.len() > 0 {
            seq![(s, plain_style())]
        } else {
            Seq::empty()
        }),
{
    lemma_no_escape(s, 0);
    assert(s.subrange(0, s.len() as int) =~= s);
}

/// The parameters of the control sequences of `s` from position `i` on, in order.
pub open spec fn sequences_from(s: Seq<char>, i: int) -> Seq<Seq<char>>
    decreases s.len() - i,
{
    if i < 0 || i > s.len() {
        Seq::empty()
    } else {
        let k = next_csi(s, i);
        if k >= s.len() {
            Seq::empty()
        } else {
            proof {
                lemma_next_csi(s, i);
                lemma_next_letter(s, k + 2);
            }
            let e = next_letter(s, k + 2);
            seq![s.subrange(k + 2, e)] + sequences_from(
                s,
                if e < s.len() {
                    e + 1
                } else {
                    s.len() as int
                },
            )
        }
    }
}

/// For each run of `s` from position `i` on, how many control sequences come before
/// its first character (from position `i` on).
pub open spec fn sequences_before_runs(s: Seq<char>, i: int) -> Seq<int>
    decreases s.len() - i,
{
    if i < 0 || i > s.len() {
        Seq::empty()
    } else {
        let k = next_csi(s, i);
        let here: Seq<int> = if drop_escapes(s.subrange(i, k)).len() > 0 {
            seq![0int]
        } else {
            Seq::empty()
        };
        if k >= s.len() {
            here
        } else {
            proof {
                lemma_next_csi(s, i);
                lemma_next_letter(s, k + 2);
            }
            let e = next_letter(s, k + 2);
            here + sequences_before_runs(
                s,
                if e < s.len() {
                    e + 1
                } else {
                    s.len() as int
                },
            ).map_values(|c: int| c + 1)
        }
    }
}

/// The style after the SGR sequences with parameters `ps`, applied in order.
pub open spec fn fold_sgr(ps: Seq<Seq<char>>, style: Style) -> Style
    decreases ps.len(),
{
    if ps.len() == 0 {
        style
    } else {
        fold_sgr(ps.drop_first(), sgr_style(ps[0], style))
    }
}

proof fn lemma_run_styles(s: Seq<char>, i: int, style: Style)
    requires
        0 <= i <= s.len(),
    ensures
        sequences_before_runs(s, i).len() == runs(s, i, style).len(),
        forall|j: int|
            0 <= j < runs(s, i, style).len() ==> {
                let c = #[trigger] sequences_before_runs(s, i)[j];
                &&& 0 <= c <= sequences_from(s, i).len()
                &&& runs(s, i, style)[j].1 == fold_sgr(sequences_from(s, i).take(c), style)
            },
    decreases s.len() - i,
{
    lemma_next_csi(s, i);
    let k = next_csi(s, i);
    let text = drop_escapes(s.subrange(i, k));
    assert(fold_sgr(sequences_from(s, i).take(0), style) == style) by {
        assert(sequences_from(s, i).take(0) =~= Seq::<Seq<char>>::empty());
    }
    if k < s.len() {
        lemma_next_letter(s, k + 2);
        let e = next_letter(s, k + 2);
        let resume = if e < s.len() {
            e + 1
        } else {
            s.len() as int
        };
        let params = s.subrange(k + 2, e);
        let next = sgr_style(params, style);
        lemma_run_styles(s, resume, next);
        let here: Seq<(Seq<char>, Style)> = if text.len() > 0 {
            seq![(text, style)]
        } else {
            Seq::empty()
        };
        let rest = runs(s, resume, next);
        let all = runs(s, i, style);
        let counts = sequences_before_runs(s, i);
        let rest_counts = sequences_before_runs(s, resume);
        let seqs = sequences_from(s, i);
        assert(seqs == seq![params] + sequences_from(s, resume));
        assert forall|j: int| 0 <= j < all.len() implies {
            let c = #[trigger] counts[j];
            &&& 0 <= c <= seqs.len()
            &&& all[j].1 == fold_sgr(seqs.take(c), style)
        } by {
            if j >= here.len() {
                let jj = j - here.len();
                assert(all[j] == rest[jj]);
                let c = rest_counts[jj];
                assert(counts[j] == c + 1);
                assert(seqs.take(c + 1).drop_first() =~= sequences_from(s, resume).take(c));
                assert(seqs.take(c + 1)[0] == params);
            }
        }
    }
}

/// The style of each run is built up over the control sequences before it: applied
/// in order, starting from the plain style, the parameters of the first `c` sequences
/// of the line give it, where `c` is the number of sequences before the run's first
/// character.
pub proof fn law_run_style_accumulates(s: Seq<char>)
    ensures
        sequences_before_runs(s, 0).len() == line_runs(s).len(),
        forall|j: int|
            0 <= j < line_runs(s).len() ==> {
                let c = #[trigger] sequences_before_runs(s, 0)[j];
                &&& 0 <= c <= sequences_from(s, 0).len()
                &&& line_runs(s)[j].1 == fold_sgr(sequences_from(s, 0).take(c), plain_style())
            },
{
    lemma_run_styles(s, 0, plain_style());
}

/// An empty SGR sequence, or `0`, resets to the plain style whatever came before.
pub proof fn law_sgr_reset(style: Style)
    ensures
        sgr_style(Seq::empty(), style) == plain_style(),
        sgr_style(seq!['0'], style) == plain_style(),
{
}

/// One SGR code applied to a style: each standard (30-37) and bright (90-97)
/// foreground code sets its own colour, 39 the default one, and nothing else changes.
pub proof fn law_sgr_foreground_colours(s: Style)
    ensures
        apply_codes(seq![30u8], s) == (Style { fg: Some(Color::Black), ..s }),
        apply_codes(seq![31u8], s) == (Style { fg: Some(Color::Red), ..s }),
        apply_codes(seq![32u8], s) == (Style { fg: Some(Color::Green), ..s }),
        apply_codes(seq![33u8], s) == (Style { fg: Some(Color::Yellow), ..s }),
        apply_codes(seq![34u8], s) == (Style { fg: Some(Color::Blue), ..s }),
        apply_codes(seq![35u8], s) == (Style { fg: Some(Color::Magenta), ..s }),
        apply_codes(seq![36u8], s) == (Style { fg: Some(Color::Cyan), ..s }),
        apply_codes(seq![37u8], s) == (Style { fg: Some(Color::White), ..s }),
        apply_codes(seq![39u8], s) == (Style { fg: Some(Color::Reset), ..s }),
        apply_codes(seq![90u8], s) == (Style { fg: Some(Color::DarkGray), ..s }),
        apply_codes(seq![91u8], s) == (Style { fg: Some(Color::LightRed), ..s }),
        apply_codes(seq![92u8], s) == (Style { fg: Some(Color::LightGreen), ..s }),
        apply_codes(seq![93u8], s) == (Style { fg: Some(Color::LightYellow), ..s }),
        apply_codes(seq![94u8], s) == (Style { fg: Some(Color::LightBlue), ..s }),
        apply_codes(seq![95u8], s) == (Style { fg: Some(Color::LightMagenta), ..s }),
        apply_codes(seq![96u8], s) == (Style { fg: Some(Color::LightCyan), ..s }),
        apply_codes(seq![97u8], s) == (Style { fg: Some(Color::White), ..s }),
{
    lemma_single_code(30u8, s);
    lemma_single_code(31u8, s);
    lemma_single_code(32u8, s);
    lemma_single_code(33u8, s);
    lemma_single_code(34u8, s);
    lemma_single_code(35u8, s);
    lemma_single_code(36u8, s);
    lemma_single_code(37u8, s);
    lemma_single_code(39u8, s);
    lemma_single_code(90u8, s);
    lemma_single_code(91u8, s);
    lemma_single_code(92u8, s);
    lemma_single_code(93u8, s);
    lemma_single_code(94u8, s);
    lemma_single_code(95u8, s);
    lemma_single_code(96u8, s);
    lemma_single_code(97u8, s);
}

/// One SGR code applied to a style: each standard (40-47) and bright (100-107)
/// background code sets its own colour, 49 the default one, and nothing else changes.
pub proof fn law_sgr_background_colours(s: Style)
    ensures
        apply_codes(seq![40u8], s) == (Style { bg: Some(Color::Black), ..s }),
        apply_codes(seq![41u8], s) == (Style { bg: Some(Color::Red), ..s }),
        apply_codes(seq![42u8], s) == (Style { bg: Some(Color::Green), ..s }),
        apply_codes(seq![43u8], s) == (Style { bg: Some(Color::Yellow), ..s }),
        apply_codes(seq![44u8], s) == (Style { bg: Some(Color::Blue), ..s }),
        apply_codes(seq![45u8], s) == (Style { bg: Some(Color::Magenta), ..s }),
        apply_codes(seq![46u8], s) == (Style { bg: Some(Color::Cyan), ..s }),
        apply_codes(seq![47u8], s) == (Style { bg: Some(Color::White), ..s }),
        apply_codes(seq![49u8], s) == (Style { bg: Some(Color::Reset), ..s }),
        apply_codes(seq![100u8], s) == (Style { bg: Some(Color::DarkGray), ..s }),
        apply_codes(seq![101u8], s) == (Style { bg: Some(Color::LightRed), ..s }),
        apply_codes(seq![102u8], s) == (Style { bg: Some(Color::LightGreen), ..s }),
        apply_codes(seq![103u8], s) == (Style { bg: Some(Color::LightYellow), ..s }),
        apply_codes(seq![104u8], s) == (Style { bg: Some(Color::LightBlue), ..s }),
        apply_codes(seq![105u8], s) == (Style { bg: Some(Color::LightMagenta), ..s }),
        apply_codes(seq![106u8], s) == (Style { bg: Some(Color::LightCyan), ..s }),
        apply_codes(seq![107u8], s) == (Style { bg: Some(Color::White), ..s }),
{
    lemma_single_code(40u8, s);
    lemma_single_code(41u8, s);
    lemma_single_code(42u8, s);
    lemma_single_code(43u8, s);
    lemma_single_code(44u8, s);
    lemma_single_code(45u8, s);
    lemma_single_code(46u8, s);
    lemma_single_code(47u8, s);
    lemma_single_code(49u8, s);
    lemma_single_code(100u8, s);
    lemma_single_code(101u8, s);
    lemma_single_code(102u8, s);
    lemma_single_code(103u8, s);
    lemma_single_code(104u8, s);
    lemma_single_code(105u8, s);
    lemma_single_code(106u8, s);
    lemma_single_code(107u8, s);
}

/// One SGR code applied to a style: 0 resets everything; 1, 2, 3, 4, 7 and 9 turn on
/// bold, faint, italic, underline, reverse and strike-through; 22 turns off bold and
/// faint, and 23, 24, 27 and 29 turn off the others. Colours stay as they were.
pub proof fn law_sgr_emphasis(s: Style)
    ensures
        apply_codes(seq![1u8], s) == (Style { add_modifier: s.add_modifier | BOLD, sub_modifier: s.sub_modifier & !BOLD, ..s }),
        apply_codes(seq![2u8], s) == (Style { add_modifier: s.add_modifier | DIM, sub_modifier: s.sub_modifier & !DIM, ..s }),
        apply_codes(seq![3u8], s) == (Style { add_modifier: s.add_modifier | ITALIC, sub_modifier: s.sub_modifier & !ITALIC, ..s }),
        apply_codes(seq![4u8], s) == (Style { add_modifier: s.add_modifier | UNDERLINED, sub_modifier: s.sub_modifier & !UNDERLINED, ..s }),
        apply_codes(seq![7u8], s) == (Style { add_modifier: s.add_modifier | REVERSED, sub_modifier: s.sub_modifier & !REVERSED, ..s }),
        apply_codes(seq![9u8], s) == (Style { add_modifier: s.add_modifier | CROSSED_OUT, sub_modifier: s.sub_modifier & !CROSSED_OUT, ..s }),
        apply_codes(seq![22u8], s) == (Style { add_modifier: s.add_modifier & !(BOLD | DIM), sub_modifier: s.sub_modifier | (BOLD | DIM), ..s }),
        apply_codes(seq![23u8], s) == (Style { add_modifier: s.add_modifier & !(ITALIC), sub_modifier: s.sub_modifier | (ITALIC), ..s }),
        apply_codes(seq![24u8], s) == (Style { add_modifier: s.add_modifier & !(UNDERLINED), sub_modifier: s.sub_modifier | (UNDERLINED), ..s }),
        apply_codes(seq![27u8], s) == (Style { add_modifier: s.add_modifier & !(REVERSED), sub_modifier: s.sub_modifier | (REVERSED), ..s }),
        apply_codes(seq![29u8], s) == (Style { add_modifier: s.add_modifier & !(CROSSED_OUT), sub_modifier: s.sub_modifier | (CROSSED_OUT), ..s }),
        apply_codes(seq![0u8], s) == (Style { fg: None, bg: None, add_modifier: 0, sub_modifier: 0 }),
{
    lemma_single_code(1u8, s);
    lemma_single_code(2u8, s);
    lemma_single_code(3u8, s);
    lemma_single_code(4u8, s);
    lemma_single_code(7u8, s);
    lemma_single_code(9u8, s);
    lemma_single_code(22u8, s);
    lemma_single_code(23u8, s);
    lemma_single_code(24u8, s);
    lemma_single_code(27u8, s);
    lemma_single_code(29u8, s);
    lemma_single_code(0u8, s);
}

/// `38;5;n` sets the foreground and `48;5;n` the background to the 256-colour index
/// `n`, and nothing else changes.
pub proof fn law_sgr_indexed_colours(s: Style, n: u8)
    ensures
        apply_codes(seq![38u8, 5u8, n], s) == (Style { fg: Some(Color::Indexed(n)), ..s }),
        apply_codes(seq![48u8, 5u8, n], s) == (Style { bg: Some(Color::Indexed(n)), ..s }),
{
    reveal_with_fuel(apply_codes, 2);
    assert(seq![38u8, 5u8, n].drop_first() =~= seq![5u8, n]);
    assert(seq![5u8, n].skip(2) =~= Seq::<u8>::empty());
    assert(seq![48u8, 5u8, n].drop_first() =~= seq![5u8, n]);
}

proof fn lemma_single_code(c: u8, s: Style)
    requires
        c != 38 && c != 48,
    ensures
        apply_codes(seq![c], s) == code_effect(c, s),
{
    reveal_with_fuel(apply_codes, 2);
    assert(seq![c].drop_first() =~= Seq::<u8>::empty());
}

/// A sequence of one decimal number (other than `0`, which resets) applies that one
/// code: so `ESC[34m` sets the foreground to blue, as `law_sgr_foreground_colours`
/// says of code 34.
pub proof fn law_sgr_single_number(d: Seq<char>, s: Style)
    requires
        d.len() > 0,
        all_digits(d),
        decimal(d) <= 255,
        d != seq!['0'],
    ensures
        sgr_style(d, s) == apply_codes(seq![decimal(d) as u8], s),
{
    crate::text::lemma_find_from(d, ';', 0);
    if crate::text::find_from(d, ';', 0) < d.len() {
        assert(is_digit(d[crate::text::find_from(d, ';', 0)]));
    }
    assert(d.subrange(0, d.len() as int) =~= d);
    assert(split(d, ';') =~= seq![d]);
    assert(!is_digit('+'));
    assert(is_digit(d[0]));
    assert(numeral_part(d) == d);
    reveal_with_fuel(parsed_codes, 2);
    assert(seq![d].drop_first() =~= Seq::<Seq<char>>::empty());
    assert(parsed_codes(seq![d]) =~= seq![decimal(d) as u8]);
}

/// Normal intensity (22) cancels bold (1): after `1;22` the style removes bold and
/// does not add it, whatever it was before.
pub proof fn law_normal_cancels_bold(style: Style)
    ensures
        apply_codes(seq![1u8, 22u8], style).add_modifier & BOLD == 0,
        apply_codes(seq![1u8, 22u8], style).sub_modifier & BOLD == BOLD,
{
    reveal_with_fuel(apply_codes, 3);
    let codes = seq![1u8, 22u8];
    assert(codes.drop_first() =~= seq![22u8]);
    assert(codes.drop_first().drop_first() =~= Seq::<u8>::empty());
    let a = style.add_modifier;
    let b = style.sub_modifier;
    assert(((a | 1u16) & !(1u16 | 2u16)) & 1u16 == 0u16) by (bit_vector);
    assert(((b & !1u16) | (1u16 | 2u16)) & 1u16 == 1u16) by (bit_vector);
}

/// What a list of SGR codes does to any style: whether it starts over from the plain
/// style, the colours it sets, and for each modifier set the bits it keeps and the
/// bits it sets.
pub struct SgrEffect {
    pub reset: bool,
    pub fg: Option<Color>,
    pub bg: Option<Color>,
    pub add_keep: u16,
    pub add_set: u16,
    pub sub_keep: u16,
    pub sub_set: u16,
}

/// The style `e` makes of `style`.
pub open spec fn apply_effect(e: SgrEffect, style: Style) -> Style {
    let base = if e.reset {
        plain_style()
    } else {
        style
    };
    Style {
        fg: if e.fg is Some {
            e.fg
        } else {
            base.fg
        },
        bg: if e.bg is Some {
            e.bg
        } else {
            base.bg
        },
        add_modifier: (base.add_modifier & e.add_keep) | e.add_set,
        sub_modifier: (base.sub_modifier & e.sub_keep) | e.sub_set,
    }
}

/// The effect that changes nothing.
pub open spec fn no_effect() -> SgrEffect {
    SgrEffect {
        reset: false,
        fg: None,
        bg: None,
        add_keep: 0xffff,
        add_set: 0,
        sub_keep: 0xffff,
        sub_set: 0,
    }
}

/// `e1`, then `e2`.
pub open spec fn then(e1: SgrEffect, e2: SgrEffect) -> SgrEffect {
    if e2.reset {
        e2
    } else {
        SgrEffect {
            reset: e1.reset,
            fg: if e2.fg is Some {
                e2.fg
            } else {
                e1.fg
            },
            bg: if e2.bg is Some {
                e2.bg
            } else {
                e1.bg
            },
            add_keep: e1.add_keep & e2.add_keep,
            add_set: (e1.add_set & e2.add_keep) | e2.add_set,
            sub_keep: e1.sub_keep & e2.sub_keep,
            sub_set: (e1.sub_set & e2.sub_keep) | e2.sub_set,
        }
    }
}

/// The effect of one SGR code that takes no argument.
pub open spec fn code_as_effect(code: u8) -> SgrEffect {
    let id = no_effect();
    let adding = |m: u16| SgrEffect { add_set: m, sub_keep: !m, ..id };
    let removing = |m: u16| SgrEffect { add_keep: !m, sub_set: m, ..id };
    let fg = |c: Color| SgrEffect { fg: Some(c), ..id };
    let bg = |c: Color| SgrEffect { bg: Some(c), ..id };
    match code {
        0 => SgrEffect { reset: true, ..id },
        1 => adding(BOLD),
        2 => adding(DIM),
        3 => adding(ITALIC),
        4 => adding(UNDERLINED),
        7 => adding(REVERSED),
        9 => adding(CROSSED_OUT),
        22 => removing(BOLD | DIM),
        23 => removing(ITALIC),
        24 => removing(UNDERLINED),
        27 => removing(REVERSED),
        29 => removing(CROSSED_OUT),
        30 => fg(Color::Black),
        31 => fg(Color::Red),
        32 => fg(Color::Green),
        33 => fg(Color::Yellow),
        34 => fg(Color::Blue),
        35 => fg(Color::Magenta),
        36 => fg(Color::Cyan),
        37 => fg(Color::White),
        39 => fg(Color::Reset),
        40 => bg(Color::Black),
        41 => bg(Color::Red),
        42 => bg(Color::Green),
        43 => bg(Color::Yellow),
        44 => bg(Color::Blue),
        45 => bg(Color::Magenta),
        46 => bg(Color::Cyan),
        47 => bg(Color::White),
        49 => bg(Color::Reset),
        90 => fg(Color::DarkGray),
        91 => fg(Color::LightRed),
        92 => fg(Color::LightGreen),
        93 => fg(Color::LightYellow),
        94 => fg(Color::LightBlue),
        95 => fg(Color::LightMagenta),
        96 => fg(Color::LightCyan),
        97 => fg(Color::White),
        100 => bg(Color::DarkGray),
        101 => bg(Color::LightRed),
        102 => bg(Color::LightGreen),
        103 => bg(Color::LightYellow),
        104 => bg(Color::LightBlue),
        105 => bg(Color::LightMagenta),
        106 => bg(Color::LightCyan),
        107 => bg(Color::White),
        _ => id,
    }
}

/// The effect of a list of SGR codes, read as `apply_codes` reads them.
pub open spec fn codes_effect(codes: Seq<u8>) -> SgrEffect
    decreases codes.len(),
{
    if codes.len() == 0 {
        no_effect()
    } else {
        let code = codes[0];
        let rest = codes.drop_first();
        if code == 38 || code == 48 {
            if rest.len() > 0 && rest[0] == 5 {
                if rest.len() > 1 {
                    let c = Some(Color::Indexed(rest[1]));
                    let set = if code == 38 {
                        SgrEffect { fg: c, ..no_effect() }
                    } else {
                        SgrEffect { bg: c, ..no_effect() }
                    };
                    then(set, codes_effect(rest.skip(2)))
                } else {
                    no_effect()
                }
            } else if rest.len() > 0 {
                codes_effect(rest.drop_first())
            } else {
                no_effect()
            }
        } else {
            then(code_as_effect(code), codes_effect(rest))
        }
    }
}

proof fn lemma_then(e1: SgrEffect, e2: SgrEffect, style: Style)
    ensures
        apply_effect(e2, apply_effect(e1, style)) == apply_effect(then(e1, e2), style),
{
    if !e2.reset {
        let base = if e1.reset {
            plain_style()
        } else {
            style
        };
        let (a, b) = (base.add_modifier, base.sub_modifier);
        let (k1, s1, k2, s2) = (e1.add_keep, e1.add_set, e2.add_keep, e2.add_set);
        assert((((a & k1) | s1) & k2) | s2 == (a & (k1 & k2)) | ((s1 & k2) | s2)) by (bit_vector);
        let (k1, s1, k2, s2) = (e1.sub_keep, e1.sub_set, e2.sub_keep, e2.sub_set);
        assert((((b & k1) | s1) & k2) | s2 == (b & (k1 & k2)) | ((s1 & k2) | s2)) by (bit_vector);
    }
}

proof fn lemma_no_effect(style: Style)
    ensures
        apply_effect(no_effect(), style) == style,
{
    let (a, b) = (style.add_modifier, style.sub_modifier);
    assert((a & 0xffff) | 0 == a) by (bit_vector);
    assert((b & 0xffff) | 0 == b) by (bit_vector);
}

proof fn lemma_code_as_effect(code: u8, style: Style)
    ensures
        apply_effect(code_as_effect(code), style) == code_effect(code, style),
{
    let (a, b) = (style.add_modifier, style.sub_modifier);
    assert(forall|m: u16| #![auto] (a & 0xffff) | m == a | m && (b & !m) | 0 == b & !m)
        by (bit_vector);
    assert(forall|m: u16| #![auto] (a & !m) | 0 == a & !m && (b & 0xffff) | m == b | m)
        by (bit_vector);
    assert((a & 0xffff) | 0 == a) by (bit_vector);
    assert((b & 0xffff) | 0 == b) by (bit_vector);
    assert((0u16 & 0xffff) | 0 == 0u16) by (bit_vector);
}

proof fn lemma_codes_effect(codes: Seq<u8>, style: Style)
    ensures
        apply_codes(codes, style) == apply_effect(codes_effect(codes), style),
    decreases codes.len(),
{
    if codes.len() == 0 {
        lemma_no_effect(style);
    } else {
        let code = codes[0];
        let rest = codes.drop_first();
        if code == 38 || code == 48 {
            if rest.len() > 0 && rest[0] == 5 {
                if rest.len() > 1 {
                    let c = Some(Color::Indexed(rest[1]));
                    let set = if code == 38 {
                        SgrEffect { fg: c, ..no_effect() }
                    } else {
                        SgrEffect { bg: c, ..no_effect() }
                    };
                    let next = if code == 38 {
                        with_fg(style, Color::Indexed(rest[1]))
                    } else {
                        with_bg(style, Color::Indexed(rest[1]))
                    };
                    lemma_no_effect(style);
                    assert(apply_effect(set, style) == next);
                    lemma_codes_effect(rest.skip(2), next);
                    lemma_then(set, codes_effect(rest.skip(2)), style);
                } else {
                    lemma_no_effect(style);
                }
            } else if rest.len() > 0 {
                lemma_codes_effect(rest.drop_first(), style);
            } else {
                lemma_no_effect(style);
            }
        } else {
            lemma_code_as_effect(code, style);
            lemma_codes_effect(rest, code_effect(code, style));
            lemma_then(code_as_effect(code), codes_effect(rest), style);
        }
    }
}

proof fn lemma_effect_idempotent(e: SgrEffect, style: Style)
    ensures
        apply_effect(e, apply_effect(e, style)) == apply_effect(e, style),
{
    let base = if e.reset {
        plain_style()
    } else {
        style
    };
    let (a, b) = (base.add_modifier, base.sub_modifier);
    let (k, t) = (e.add_keep, e.add_set);
    assert((((a & k) | t) & k) | t == (a & k) | t) by (bit_vector);
    let (k, t) = (e.sub_keep, e.sub_set);
    assert((((b & k) | t) & k) | t == (b & k) | t) by (bit_vector);
}

/// Applying an SGR sequence a second time changes nothing.
pub proof fn law_sgr_idempotent(params: Seq<char>, style: Style)
    ensures
        sgr_style(params, sgr_style(params, style)) == sgr_style(params, style),
{
    if !(params.len() == 0 || params == seq!['0']) {
        let codes = sgr_codes(params);
        lemma_codes_effect(codes, style);
        lemma_codes_effect(codes, apply_codes(codes, style));
        lemma_effect_idempotent(codes_effect(codes), style);
    }
}

/// Whether every `38` and `48` among `codes` has its colour arguments: a mode code,
/// and an index after a mode of `5`.
pub open spec fn codes_complete(codes: Seq<u8>) -> bool
    decreases codes.len(),
{
    if codes.len() == 0 {
        true
    } else {
        let code = codes[0];
        let rest = codes.drop_first();
        if code == 38 || code == 48 {
            if rest.len() > 0 && rest[0] == 5 {
                rest.len() > 1 && codes_complete(rest.skip(2))
            } else {
                rest.len() > 0 && codes_complete(rest.drop_first())
            }
        } else {
            codes_complete(rest)
        }
    }
}

proof fn lemma_apply_codes_concat(c1: Seq<u8>, c2: Seq<u8>, style: Style)
    requires
        codes_complete(c1),
    ensures
        apply_codes(c1 + c2, style) == apply_codes(c2, apply_codes(c1, style)),
    decreases c1.len(),
{
    if c1.len() == 0 {
        assert(c1 + c2 =~= c2);
    } else {
        let all = c1 + c2;
        let code = c1[0];
        let rest = c1.drop_first();
        assert(all[0] == code);
        assert(all.drop_first() =~= rest + c2);
        if code == 38 || code == 48 {
            if rest[0] == 5 {
                assert((rest + c2).skip(2) =~= rest.skip(2) + c2);
                assert((rest + c2)[0] == 5 && (rest + c2)[1] == rest[1]);
                let next = if code == 38 {
                    with_fg(style, Color::Indexed(rest[1]))
                } else {
                    with_bg(style, Color::Indexed(rest[1]))
                };
                lemma_apply_codes_concat(rest.skip(2), c2, next);
            } else {
                assert((rest + c2)[0] == rest[0]);
                assert((rest + c2).drop_first() =~= rest.drop_first() + c2);
                lemma_apply_codes_concat(rest.drop_first(), c2, style);
            }
        } else {
            lemma_apply_codes_concat(rest, c2, code_effect(code, style));
        }
    }
}

proof fn lemma_parsed_codes_concat(p1: Seq<Seq<char>>, p2: Seq<Seq<char>>)
    ensures
        parsed_codes(p1 + p2) == parsed_codes(p1) + parsed_codes(p2),
    decreases p1.len(),
{
    if p1.len() == 0 {
        assert(p1 + p2 =~= p2);
        assert(parsed_codes(p1) + parsed_codes(p2) =~= parsed_codes(p2));
    } else {
        assert((p1 + p2)[0] == p1[0]);
        assert((p1 + p2).drop_first() =~= p1.drop_first() + p2);
        lemma_parsed_codes_concat(p1.drop_first(), p2);
        let head: Seq<u8> = match parse_u8(p1[0]) {
            Some(v) => seq![v],
            None => Seq::empty(),
        };
        assert(head + (parsed_codes(p1.drop_first()) + parsed_codes(p2)) =~= (head + parsed_codes(
            p1.drop_first(),
        )) + parsed_codes(p2));
    }
}

proof fn lemma_sgr_style_codes(params: Seq<char>, style: Style)
    requires
        params.len() > 0,
    ensures
        sgr_style(params, style) == apply_codes(sgr_codes(params), style),
{
    if params == seq!['0'] {
        reveal_with_fuel(crate::text::find_from, 2);
        assert(params.subrange(0, 1) =~= params);
        assert(split(params, ';') =~= seq![params]);
        assert(params.drop_last() =~= Seq::<char>::empty());
        assert(decimal(Seq::<char>::empty()) == 0);
        assert(params.last() == '0');
        assert(decimal(params) == 0);
        assert(numeral_part(params) == params);
        assert(all_digits(params));
        assert(parse_u8(params) == Some(0u8));
        assert(parsed_codes(seq![params]) =~= seq![0u8]) by {
            assert(seq![params].drop_first() =~= Seq::<Seq<char>>::empty());
            assert(parsed_codes(Seq::<Seq<char>>::empty()) =~= Seq::<u8>::empty());
        }
        assert(seq![0u8].drop_first() =~= Seq::<u8>::empty());
        assert(apply_codes(Seq::<u8>::empty(), plain_style()) == plain_style());
        assert(apply_codes(seq![0u8], style) == plain_style());
    }
}

/// A sequence with parts `a` and `b` (`a;b`) acts as `a`, then `b`, when no `38` or
/// `48` of `a` waits for arguments from `b`.
pub proof fn law_sgr_concat(a: Seq<char>, b: Seq<char>, style: Style)
    requires
        a.len() > 0,
        b.len() > 0,
        codes_complete(sgr_codes(a)),
    ensures
        sgr_style(a + seq![';'] + b, style) == sgr_style(b, sgr_style(a, style)),
{
    let t = a + seq![';'] + b;
    assert(t.len() > 1);
    assert(t != seq!['0']);
    crate::text::law_split_concat(a, b, ';');
    lemma_parsed_codes_concat(split(a, ';'), split(b, ';'));
    assert(sgr_codes(t) == sgr_codes(a) + sgr_codes(b));
    lemma_apply_codes_concat(sgr_codes(a), sgr_codes(b), style);
    lemma_sgr_style_codes(a, style);
    lemma_sgr_style_codes(b, sgr_style(a, style));
}

impl Span {
    /// A copy of this run.
    pub fn copy(&self) -> (r: Span)
        ensures
            r@ == self@,
    {
        Span { content: self.content.clone(), style: self.style }
    }
}

/// Copies of the lines `v`.
pub fn copy_lines(v: &Vec<Line>) -> (r: Vec<Line>)
    ensures
        line_views(r@) == line_views(v@),
{
    let mut r: Vec<Line> = Vec::new();
    for i in 0..v.len()
        invariant
            line_views(r@) == line_views(v@).take(i as int),
    {
        let line = v[i].copy();
        let ghost before = line_views(r@);
        r.push(line);
        assert(line_views(r@) =~= before.push(line@));
        assert(line_views(v@).take(i + 1) =~= line_views(v@).take(i as int).push(v@[i as int]@));
    }
    assert(line_views(v@).take(v.len() as int) =~= line_views(v@));
    r
}

impl Line {
    /// A copy of this line.
    pub fn copy(&self) -> (r: Line)
        ensures
            r@ == self@,
    {
        let mut spans: Vec<Span> = Vec::new();
        for i in 0..self.spans.len()
            invariant
                span_views(spans@) == span_views(self.spans@).take(i as int),
        {
            let span = self.spans[i].copy();
            let ghost before = span_views(spans@);
            spans.push(span);
            assert(span_views(spans@) =~= before.push(span@));
            assert(span_views(self.spans@).take(i + 1) =~= span_views(self.spans@).take(
                i as int,
            ).push(self.spans@[i as int]@));
        }
        assert(span_views(self.spans@).take(self.spans.len() as int) =~= span_views(self.spans@));
        Line { spans }
    }

    /// A line of unstyled text: one plain run for each line of `text` (as
    /// `str::lines` cuts it).
    pub fn raw(text: &Vec<char>) -> (r: Line)
        ensures
            r@ == lines(text@).map_values(|t: Seq<char>| (t, plain_style())),
    {
        let ls = lines_of(text);
        let mut spans: Vec<Span> = Vec::new();
        for i in 0..ls.len()
            invariant
                views(ls@) == lines(text@),
                span_views(spans@) == lines(text@).take(i as int).map_values(
                    |t: Seq<char>| (t, plain_style()),
                ),
        {
            let content = string_of(&ls[i]);
            let ghost before = span_views(spans@);
            spans.push(Span { content, style: Style::new() });
            assert(span_views(spans@) =~= before.push((ls@[i as int]@, plain_style())));
            assert(lines(text@).take(i + 1).map_values(|t: Seq<char>| (t, plain_style()))
                =~= lines(text@).take(i as int).map_values(|t: Seq<char>| (t, plain_style())).push(
                (lines(text@)[i as int], plain_style()),
            ));
        }
        assert(lines(text@).take(ls.len() as int) =~= lines(text@));
        Line { spans }
    }
}

} // verus!
