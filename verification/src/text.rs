//! Character-level text helpers: splitting, line breaking, whitespace.
//!
//! Text is handled as sequences of `char`; the specifications below say what
//! `str::split`, `str::splitn`, `str::lines`, `str::trim` and `[String]::join`
//! compute, and the executable functions are proved to compute exactly that.

use vstd::prelude::*;

verus! {

/// `String::push` appends one character.
pub assume_specification[ String::push ](s: &mut String, ch: char)
    ensures
        final(s)@ == old(s)@.push(ch),
;

/// Index of the first `c` in `s` at or after `i`, or `s.len()` when there is none.
pub open spec fn find_from(s: Seq<char>, c: char, i: int) -> int
    decreases s.len() - i,
{
    if i >= s.len() {
        s.len() as int
    } else if s[i] == c {
        i
    } else {
        find_from(s, c, i + 1)
    }
}

/// `find_from` lands on `c` or on the end, and skips no `c` on the way.
pub proof fn lemma_find_from(s: Seq<char>, c: char, i: int)
    requires
        0 <= i <= s.len(),
    ensures
        i <= find_from(s, c, i) <= s.len(),
        find_from(s, c, i) < s.len() ==> s[find_from(s, c, i)] == c,
        forall|j: int| i <= j < find_from(s, c, i) ==> s[j] != c,
    decreases s.len() - i,
{
    if i < s.len() && s[i] != c {
        lemma_find_from(s, c, i + 1);
    }
}

/// The pieces of `s` from `start` on, cut at every `sep` (the separators dropped).
pub open spec fn split_from(s: Seq<char>, sep: char, start: int) -> Seq<Seq<char>>
    decreases s.len() - start,
{
    if start < 0 || start > s.len() {
        Seq::empty()
    } else {
        let k = find_from(s, sep, start);
        if k >= s.len() {
            seq![s.subrange(start, s.len() as int)]
        } else {
            proof {
                lemma_find_from(s, sep, start);
            }
            seq![s.subrange(start, k)].add(split_from(s, sep, k + 1))
        }
    }
}

/// What `str::split` with a single-character separator yields: always at least one
/// piece, and one more piece than there are separators.
pub open spec fn split(s: Seq<char>, sep: char) -> Seq<Seq<char>> {
    split_from(s, sep, 0)
}

/// What `str::splitn(n, sep)` yields from `start` on: at most `n` pieces (none for
/// `n == 0`), the last one holding the rest of the text, separators included.
pub open spec fn splitn_from(s: Seq<char>, sep: char, start: int, n: nat) -> Seq<Seq<char>>
    decreases n,
{
    if start < 0 || start > s.len() || n == 0 {
        Seq::empty()
    } else if n == 1 {
        seq![s.subrange(start, s.len() as int)]
    } else {
        let k = find_from(s, sep, start);
        if k >= s.len() {
            seq![s.subrange(start, s.len() as int)]
        } else {
            seq![s.subrange(start, k)].add(splitn_from(s, sep, k + 1, (n - 1) as nat))
        }
    }
}

/// `splitn_from` yields at most `n` pieces.
pub proof fn lemma_splitn_from_len(s: Seq<char>, sep: char, start: int, n: nat)
    ensures
        splitn_from(s, sep, start, n).len() <= n,
    decreases n,
{
    if !(start < 0 || start > s.len() || n <= 1) {
        let k = find_from(s, sep, start);
        if k < s.len() {
            lemma_splitn_from_len(s, sep, k + 1, (n - 1) as nat);
        }
    }
}

/// What `str::splitn(n, sep)` yields.
pub open spec fn splitn(s: Seq<char>, n: nat, sep: char) -> Seq<Seq<char>> {
    splitn_from(s, sep, 0, n)
}

/// A line without its final carriage return, if it has one.
pub open spec fn strip_cr(p: Seq<char>) -> Seq<char> {
    if p.len() > 0 && p.last() == '\r' {
        p.drop_last()
    } else {
        p
    }
}

/// What `str::lines` yields: the text cut at each `\n`; a line ended by `\n` loses a
/// final `\r`; an empty last piece (text that is empty or ends in `\n`) is no line.
pub open spec fn lines(s: Seq<char>) -> Seq<Seq<char>> {
    let pieces = split(s, '\n');
    let ended = pieces.drop_last().map_values(|p: Seq<char>| strip_cr(p));
    if pieces.last().len() == 0 {
        ended
    } else {
        ended.push(pieces.last())
    }
}

/// The Unicode `White_Space` property, which `char::is_whitespace` tests.
pub open spec fn is_white_space(c: char) -> bool {
    ||| ('\u{9}' <= c && c <= '\u{d}')
    ||| c == ' '
    ||| c == '\u{85}'
    ||| c == '\u{a0}'
    ||| c == '\u{1680}'
    ||| ('\u{2000}' <= c && c <= '\u{200a}')
    ||| c == '\u{2028}'
    ||| c == '\u{2029}'
    ||| c == '\u{202f}'
    ||| c == '\u{205f}'
    ||| c == '\u{3000}'
}

/// `s.trim()` is empty exactly when every character of `s` is white space.
pub open spec fn is_blank(s: Seq<char>) -> bool {
    forall|i: int| 0 <= i < s.len() ==> is_white_space(#[trigger] s[i])
}

/// The pieces that are not empty, in order.
pub open spec fn non_empty(pieces: Seq<Seq<char>>) -> Seq<Seq<char>>
    decreases pieces.len(),
{
    if pieces.len() == 0 {
        Seq::empty()
    } else {
        let head: Seq<Seq<char>> = if pieces[0].len() > 0 {
            seq![pieces[0]]
        } else {
            Seq::empty()
        };
        head + non_empty(pieces.drop_first())
    }
}

/// The first position at or after `i` whose character is not white space, or `s.len()`.
pub open spec fn trim_start(s: Seq<char>, i: int) -> int
    decreases s.len() - i,
{
    if i >= s.len() {
        s.len() as int
    } else if !is_white_space(s[i]) {
        i
    } else {
        trim_start(s, i + 1)
    }
}

/// The end of the first `j` characters of `s` once its trailing white space is removed.
pub open spec fn trim_end(s: Seq<char>, j: int) -> int
    decreases j,
{
    if j <= 0 {
        0
    } else if !is_white_space(s[j - 1]) {
        j
    } else {
        trim_end(s, j - 1)
    }
}

/// What `str::trim` yields: `s` without its leading and trailing white space.
pub open spec fn trim(s: Seq<char>) -> Seq<char> {
    let a = trim_start(s, 0);
    let b = trim_end(s, s.len() as int);
    if a < b {
        s.subrange(a, b)
    } else {
        Seq::empty()
    }
}

/// What `[s].join(sep)` yields: the pieces with `sep` between neighbours.
pub open spec fn join(pieces: Seq<Seq<char>>, sep: Seq<char>) -> Seq<char>
    decreases pieces.len(),
{
    if pieces.len() == 0 {
        Seq::empty()
    } else if pieces.len() == 1 {
        pieces[0]
    } else {
        join(pieces.drop_last(), sep) + sep + pieces.last()
    }
}

/// The character sequences held by a vector of character vectors.
pub open spec fn views(v: Seq<Vec<char>>) -> Seq<Seq<char>> {
    v.map_values(|p: Vec<char>| p@)
}

// ---------------------------------------------------------------------------
// Laws

/// `join` of a first piece and a non-empty rest.
pub proof fn lemma_join_cons(a: Seq<char>, rest: Seq<Seq<char>>, sep: Seq<char>)
    requires
        rest.len() > 0,
    ensures
        join(seq![a] + rest, sep) == a + sep + join(rest, sep),
    decreases rest.len(),
{
    let all = seq![a] + rest;
    assert(join(all, sep) == join(all.drop_last(), sep) + sep + all.last());
    if rest.len() == 1 {
        assert(all.drop_last() =~= seq![a]);
        assert(join(seq![a], sep) == a);
        assert(all.last() == rest[0]);
        assert(rest.drop_last().len() == 0);
        assert(join(rest, sep) == rest[0]);
    } else {
        assert(all.drop_last() =~= seq![a] + rest.drop_last());
        lemma_join_cons(a, rest.drop_last(), sep);
        assert(all.last() == rest.last());
        assert(a + sep + join(rest.drop_last(), sep) + sep + rest.last() =~= a + sep + (join(
            rest.drop_last(),
            sep,
        ) + sep + rest.last()));
    }
}

/// `splitn_from` yields at least one piece.
proof fn lemma_splitn_from_nonempty(s: Seq<char>, sep: char, start: int, n: nat)
    requires
        0 <= start <= s.len(),
        n >= 1,
    ensures
        splitn_from(s, sep, start, n).len() >= 1,
{
}

/// Splitting loses nothing: the pieces of `str::splitn(n, sep)` (for `n >= 1`)
/// joined with `sep` give back the text.
pub proof fn law_splitn_rejoins(s: Seq<char>, n: nat, sep: char)
    requires
        n >= 1,
    ensures
        join(splitn(s, n, sep), seq![sep]) == s,
{
    lemma_splitn_from_rejoins(s, sep, 0, n);
    assert(s.subrange(0, s.len() as int) =~= s);
}

proof fn lemma_splitn_from_rejoins(s: Seq<char>, sep: char, start: int, n: nat)
    requires
        0 <= start <= s.len(),
        n >= 1,
    ensures
        join(splitn_from(s, sep, start, n), seq![sep]) == s.subrange(start, s.len() as int),
    decreases n,
{
    if n > 1 {
        lemma_find_from(s, sep, start);
        let k = find_from(s, sep, start);
        if k < s.len() {
            lemma_splitn_from_rejoins(s, sep, k + 1, (n - 1) as nat);
            lemma_splitn_from_nonempty(s, sep, k + 1, (n - 1) as nat);
            lemma_join_cons(s.subrange(start, k), splitn_from(s, sep, k + 1, (n - 1) as nat), seq![sep]);
            assert(s.subrange(start, k) + seq![sep] + s.subrange(k + 1, s.len() as int) =~= s.subrange(
                start,
                s.len() as int,
            ));
        }
    }
}

/// No piece of `split(s, sep)` from `start` on holds `sep`.
pub proof fn lemma_split_from_pieces(s: Seq<char>, sep: char, start: int)
    requires
        0 <= start <= s.len(),
    ensures
        forall|p: int, j: int|
            0 <= p < split_from(s, sep, start).len() && 0 <= j < split_from(s, sep, start)[p].len()
                ==> #[trigger] split_from(s, sep, start)[p][j] != sep,
    decreases s.len() - start,
{
    lemma_find_from(s, sep, start);
    let k = find_from(s, sep, start);
    let pieces = split_from(s, sep, start);
    if k < s.len() {
        lemma_split_from_pieces(s, sep, k + 1);
        assert forall|p: int, j: int|
            0 <= p < pieces.len() && 0 <= j < pieces[p].len() implies #[trigger] pieces[p][j] != sep by {
            if p > 0 {
                assert(pieces[p] == split_from(s, sep, k + 1)[p - 1]);
            } else {
                assert(pieces[0][j] == s[start + j]);
            }
        }
    } else {
        assert forall|p: int, j: int|
            0 <= p < pieces.len() && 0 <= j < pieces[p].len() implies #[trigger] pieces[p][j] != sep by {
            assert(pieces[0][j] == s[start + j]);
        }
    }
}

proof fn lemma_find_from_before_sep(a: Seq<char>, b: Seq<char>, sep: char, i: int)
    requires
        0 <= i <= a.len(),
    ensures
        find_from(a + seq![sep] + b, sep, i) == find_from(a, sep, i),
    decreases a.len() - i,
{
    let t = a + seq![sep] + b;
    if i < a.len() {
        assert(t[i] == a[i]);
        lemma_find_from_before_sep(a, b, sep, i + 1);
    } else {
        assert(t[i] == sep);
    }
}

proof fn lemma_find_from_shift(x: Seq<char>, y: Seq<char>, sep: char, j: int)
    requires
        0 <= j <= y.len(),
    ensures
        find_from(x + y, sep, x.len() + j) == x.len() + find_from(y, sep, j),
    decreases y.len() - j,
{
    if j < y.len() {
        assert((x + y)[x.len() + j] == y[j]);
        lemma_find_from_shift(x, y, sep, j + 1);
    }
}

proof fn lemma_split_from_shift(x: Seq<char>, y: Seq<char>, sep: char, j: int)
    requires
        0 <= j <= y.len(),
    ensures
        split_from(x + y, sep, x.len() + j) == split_from(y, sep, j),
    decreases y.len() - j,
{
    lemma_find_from_shift(x, y, sep, j);
    lemma_find_from(y, sep, j);
    let k = find_from(y, sep, j);
    let xy = x + y;
    if k >= y.len() {
        assert(xy.subrange(x.len() + j, xy.len() as int) =~= y.subrange(j, y.len() as int));
    } else {
        assert(xy.subrange(x.len() + j, x.len() + k) =~= y.subrange(j, k));
        lemma_split_from_shift(x, y, sep, k + 1);
    }
}

proof fn lemma_split_from_concat(a: Seq<char>, b: Seq<char>, sep: char, i: int)
    requires
        0 <= i <= a.len(),
    ensures
        split_from(a + seq![sep] + b, sep, i) == split_from(a, sep, i) + split(b, sep),
    decreases a.len() - i,
{
    let t = a + seq![sep] + b;
    lemma_find_from_before_sep(a, b, sep, i);
    lemma_find_from(a, sep, i);
    let k = find_from(a, sep, i);
    assert(t.subrange(i, k) =~= a.subrange(i, k));
    if k < a.len() {
        lemma_split_from_concat(a, b, sep, k + 1);
        assert(seq![a.subrange(i, k)] + (split_from(a, sep, k + 1) + split(b, sep)) =~= (seq![
            a.subrange(i, k),
        ] + split_from(a, sep, k + 1)) + split(b, sep));
    } else {
        assert(t =~= (a + seq![sep]) + b);
        lemma_split_from_shift(a + seq![sep], b, sep, 0);
        assert(k + 1 == (a + seq![sep]).len() + 0);
    }
}

/// Splitting `a`, a separator, `b` gives the pieces of `a`, then those of `b`.
pub proof fn law_split_concat(a: Seq<char>, b: Seq<char>, sep: char)
    ensures
        split(a + seq![sep] + b, sep) == split(a, sep) + split(b, sep),
{
    lemma_split_from_concat(a, b, sep, 0);
}

/// No line of `str::lines` holds a line feed.
pub proof fn law_lines_have_no_newline(s: Seq<char>)
    ensures
        forall|p: int, j: int|
            0 <= p < lines(s).len() && 0 <= j < lines(s)[p].len() ==> #[trigger] lines(s)[p][j]
                != '\n',
{
    lemma_split_from_pieces(s, '\n', 0);
    let pieces = split(s, '\n');
    assert forall|p: int, j: int|
        0 <= p < lines(s).len() && 0 <= j < lines(s)[p].len() implies #[trigger] lines(s)[p][j]
            != '\n' by {
        if p < pieces.len() - 1 {
            assert(lines(s)[p] == strip_cr(pieces[p]));
            assert(lines(s)[p][j] == pieces[p][j]);
        } else {
            assert(lines(s)[p] == pieces.last());
        }
    }
}

/// A copy of `s`.
pub fn copy_string(s: &String) -> (r: String)
    ensures
        r@ == s@,
{
    s.clone()
}

/// The character sequences of a vector of strings.
pub open spec fn string_views(v: Seq<String>) -> Seq<Seq<char>> {
    v.map_values(|s: String| s@)
}

/// The characters of `s`, in order.
pub fn chars_of(s: &str) -> (r: Vec<char>)
    ensures
        r@ == s@,
{
    let mut r: Vec<char> = Vec::new();
    for c in it: s.chars()
        invariant
            r@ == it.seq().take(it.index() as int),
            it.seq() == s@,
    {
        r.push(c);
    }
    r
}

/// The string whose characters are `v`.
pub fn string_of(v: &Vec<char>) -> (r: String)
    ensures
        r@ == v@,
{
    let mut r = String::new();
    for i in 0..v.len()
        invariant
            r@ == v@.take(i as int),
    {
        r.push(v[i]);
        assert(v@.take(i + 1) =~= v@.take(i as int).push(v@[i as int]));
    }
    assert(v@.take(v.len() as int) =~= v@);
    r
}

/// `char::is_whitespace`.
pub fn is_whitespace(c: char) -> (r: bool)
    ensures
        r == is_white_space(c),
{
    ('\u{9}' <= c && c <= '\u{d}') || c == ' ' || c == '\u{85}' || c == '\u{a0}' || c == '\u{1680}'
        || ('\u{2000}' <= c && c <= '\u{200a}') || c == '\u{2028}' || c == '\u{2029}' || c
        == '\u{202f}' || c == '\u{205f}' || c == '\u{3000}'
}

/// Whether `s.trim()` is empty.
pub fn blank(s: &Vec<char>) -> (r: bool)
    ensures
        r == is_blank(s@),
{
    for i in 0..s.len()
        invariant
            forall|j: int| 0 <= j < i ==> is_white_space(#[trigger] s@[j]),
    {
        if !is_whitespace(s[i]) {
            return false;
        }
    }
    true
}

/// `str::trim`.
pub fn trim_chars(s: &Vec<char>) -> (r: Vec<char>)
    ensures
        r@ == trim(s@),
{
    let mut a: usize = 0;
    while a < s.len() && is_whitespace(s[a])
        invariant
            a <= s.len(),
            trim_start(s@, a as int) == trim_start(s@, 0),
        decreases s.len() - a,
    {
        a = a + 1;
    }
    let mut b: usize = s.len();
    while b > 0 && is_whitespace(s[b - 1])
        invariant
            b <= s.len(),
            trim_end(s@, b as int) == trim_end(s@, s.len() as int),
        decreases b,
    {
        b = b - 1;
    }
    if a < b {
        sub_chars(s, a, b)
    } else {
        Vec::new()
    }
}

/// Whether `a` and `b` hold the same characters.
pub fn same_chars(a: &Vec<char>, b: &Vec<char>) -> (r: bool)
    ensures
        r == (a@ == b@),
{
    if a.len() != b.len() {
        return false;
    }
    for i in 0..a.len()
        invariant
            a.len() == b.len(),
            forall|j: int| 0 <= j < i ==> a@[j] == b@[j],
    {
        if a[i] != b[i] {
            return false;
        }
    }
    assert(a@ =~= b@);
    true
}

/// The first `c` in `s` at or after `i`, or `s.len()`.
pub fn find_char(s: &Vec<char>, c: char, i: usize) -> (r: usize)
    requires
        i <= s.len(),
    ensures
        r == find_from(s@, c, i as int),
{
    let mut k = i;
    while k < s.len()
        invariant
            i <= k <= s.len(),
            find_from(s@, c, k as int) == find_from(s@, c, i as int),
        decreases s.len() - k,
    {
        if s[k] == c {
            return k;
        }
        k = k + 1;
    }
    k
}

/// The characters of `s` from `from` up to `to`.
pub fn sub_chars(s: &Vec<char>, from: usize, to: usize) -> (r: Vec<char>)
    requires
        from <= to <= s.len(),
    ensures
        r@ == s@.subrange(from as int, to as int),
{
    let mut r: Vec<char> = Vec::new();
    for k in from..to
        invariant
            from <= to <= s.len(),
            r@ == s@.subrange(from as int, k as int),
    {
        r.push(s[k]);
        assert(s@.subrange(from as int, k + 1) =~= s@.subrange(from as int, k as int).push(
            s@[k as int],
        ));
    }
    r
}

/// `str::split` with a single-character separator.
pub fn split_chars(s: &Vec<char>, sep: char) -> (r: Vec<Vec<char>>)
    ensures
        views(r@) == split(s@, sep),
{
    let mut r: Vec<Vec<char>> = Vec::new();
    let mut start: usize = 0;
    loop
        invariant_except_break
            start <= s.len(),
            views(r@) + split_from(s@, sep, start as int) == split(s@, sep),
        ensures
            views(r@) == split(s@, sep),
        decreases s.len() - start,
    {
        let k = find_char(s, sep, start);
        proof {
            lemma_find_from(s@, sep, start as int);
        }
        let piece = sub_chars(s, start, k);
        let ghost before = views(r@);
        r.push(piece);
        assert(views(r@) =~= before.push(piece@));
        if k >= s.len() {
            assert(split(s@, sep) =~= views(r@));
            break ;
        }
        assert(before + split_from(s@, sep, start as int) =~= views(r@) + split_from(
            s@,
            sep,
            k + 1,
        ));
        start = k + 1;
    }
    r
}

/// Appends the characters of `other` to `out`.
pub fn push_all(out: &mut Vec<char>, other: &Vec<char>)
    ensures
        final(out)@ == old(out)@ + other@,
{
    let ghost start = out@;
    for k in 0..other.len()
        invariant
            out@ == start + other@.take(k as int),
    {
        out.push(other[k]);
        assert(other@.take(k + 1) =~= other@.take(k as int).push(other@[k as int]));
    }
    assert(other@.take(other.len() as int) =~= other@);
}

/// `p` without a final carriage return.
pub fn strip_cr_chars(p: &Vec<char>) -> (r: Vec<char>)
    ensures
        r@ == strip_cr(p@),
{
    if p.len() > 0 && p[p.len() - 1] == '\r' {
        sub_chars(p, 0, p.len() - 1)
    } else {
        let r = sub_chars(p, 0, p.len());
        assert(r@ =~= p@);
        r
    }
}

/// `str::lines`.
pub fn lines_of(s: &Vec<char>) -> (r: Vec<Vec<char>>)
    ensures
        views(r@) == lines(s@),
{
    let pieces = split_chars(s, '\n');
    assert(views(pieces@).len() >= 1);
    let n = pieces.len();
    let mut r: Vec<Vec<char>> = Vec::new();
    for i in 0..n - 1
        invariant
            n == pieces.len() >= 1,
            views(pieces@) == split(s@, '\n'),
            views(r@) == split(s@, '\n').take(i as int).map_values(|p: Seq<char>| strip_cr(p)),
    {
        let line = strip_cr_chars(&pieces[i]);
        let ghost before = views(r@);
        r.push(line);
        assert(views(r@) =~= before.push(line@));
        assert(split(s@, '\n').take(i + 1).map_values(|p: Seq<char>| strip_cr(p))
            =~= split(s@, '\n').take(i as int).map_values(|p: Seq<char>| strip_cr(p)).push(
            strip_cr(split(s@, '\n')[i as int]),
        ));
    }
    assert(split(s@, '\n').take(n - 1) =~= split(s@, '\n').drop_last());
    let ghost ended = split(s@, '\n').drop_last().map_values(|p: Seq<char>| strip_cr(p));
    assert(views(r@) == ended);
    assert(pieces@[n - 1]@ == split(s@, '\n').last());
    if pieces[n - 1].len() > 0 {
        let last = sub_chars(&pieces[n - 1], 0, pieces[n - 1].len());
        let ghost before = views(r@);
        r.push(last);
        assert(views(r@) =~= before.push(last@));
    }
    assert(lines(s@).len() == views(r@).len());
    assert forall|i: int| 0 <= i < views(r@).len() implies views(r@)[i] == lines(s@)[i] by {
        if i < n - 1 {
            assert(views(r@)[i] == ended[i]);
        }
    }
    assert(views(r@) =~= lines(s@));
    r
}

/// `str::splitn(n, sep)`.
pub fn splitn_chars(s: &Vec<char>, n: usize, sep: char) -> (r: Vec<Vec<char>>)
    ensures
        views(r@) == splitn(s@, n as nat, sep),
        r.len() <= n,
{
    proof {
        lemma_splitn_from_len(s@, sep, 0, n as nat);
    }
    if n == 0 {
        let r: Vec<Vec<char>> = Vec::new();
        assert(views(r@) =~= splitn(s@, 0, sep));
        return r;
    }
    let mut r: Vec<Vec<char>> = Vec::new();
    let mut start: usize = 0;
    let mut left: usize = n;
    loop
        invariant_except_break
            start <= s.len(),
            left >= 1,
            views(r@) + splitn_from(s@, sep, start as int, left as nat) == splitn(s@, n as nat, sep),
        ensures
            views(r@) == splitn(s@, n as nat, sep),
        decreases left,
    {
        let k = if left == 1 {
            s.len()
        } else {
            find_char(s, sep, start)
        };
        proof {
            lemma_find_from(s@, sep, start as int);
        }
        let piece = sub_chars(s, start, k);
        let ghost before = views(r@);
        r.push(piece);
        assert(views(r@) =~= before.push(piece@));
        if k >= s.len() {
            assert(splitn(s@, n as nat, sep) =~= views(r@));
            break ;
        }
        assert(before + splitn_from(s@, sep, start as int, left as nat) =~= views(r@)
            + splitn_from(s@, sep, k + 1, (left - 1) as nat));
        start = k + 1;
        left = left - 1;
    }
    r
}

/// `[s].join(sep)`.
pub fn join_chars(pieces: &Vec<Vec<char>>, sep: &Vec<char>) -> (r: Vec<char>)
    ensures
        r@ == join(views(pieces@), sep@),
{
    let mut r: Vec<char> = Vec::new();
    for i in 0..pieces.len()
        invariant
            r@ == join(views(pieces@).take(i as int), sep@),
    {
        let ghost prev = views(pieces@).take(i as int);
        if i > 0 {
            push_all(&mut r, sep);
        }
        push_all(&mut r, &pieces[i]);
        assert(views(pieces@).take(i + 1).drop_last() =~= prev);
        assert(i == 0 ==> views(pieces@).take(i + 1) =~= seq![pieces@[0]@]);
    }
    assert(views(pieces@).take(pieces.len() as int) =~= views(pieces@));
    r
}

} // verus!
