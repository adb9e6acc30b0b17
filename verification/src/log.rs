//! Revision log entries: reading the two outputs of `jj log` (one with the fields
//! of each revision separated by `|`, one colored for display) into entries.

use vstd::prelude::*;
use crate::ansi::{line_runs, line_views, parse_ansi_chars, Line};
use crate::style::{plain_style, Style};
use crate::text::{
    blank, is_blank, join, join_chars, lines, lines_of, split, split_chars, splitn, splitn_chars,
    non_empty, string_of, string_views, sub_chars, views,
};

verus! {

/// A single revision of the log.
#[derive(Clone, Debug)]
pub struct LogEntry {
    /// The change ID (short form), the target of `jj new`.
    pub change_id: String,
    /// The commit ID (short form).
    pub commit_id: String,
    /// The bookmarks on this revision.
    pub bookmarks: Vec<String>,
    /// The first line of the description.
    pub description: String,
    /// The author's name.
    pub author: String,
    /// The commit timestamp.
    pub timestamp: String,
    /// The colored display line, as styled lines.
    pub display_lines: Vec<Line>,
    /// All searchable fields, separated by spaces.
    pub search_text: String,
}

/// The contents of a log entry.
pub struct LogEntryView {
    pub change_id: Seq<char>,
    pub commit_id: Seq<char>,
    pub bookmarks: Seq<Seq<char>>,
    pub description: Seq<char>,
    pub author: Seq<char>,
    pub timestamp: Seq<char>,
    pub display_lines: Seq<Seq<(Seq<char>, Style)>>,
    pub search_text: Seq<char>,
}

impl View for LogEntry {
    type V = LogEntryView;

    open spec fn view(&self) -> LogEntryView {
        LogEntryView {
            change_id: self.change_id@,
            commit_id: self.commit_id@,
            bookmarks: string_views(self.bookmarks@),
            description: self.description@,
            author: self.author@,
            timestamp: self.timestamp@,
            display_lines: line_views(self.display_lines@),
            search_text: self.search_text@,
        }
    }
}

/// The contents of a vector of log entries.
pub open spec fn entry_views(v: Seq<LogEntry>) -> Seq<LogEntryView> {
    v.map_values(|e: LogEntry| e@)
}

/// The bookmark names of a comma-separated list, empty names left out.
pub open spec fn bookmark_names(field: Seq<char>) -> Seq<Seq<char>> {
    non_empty(split(field, ','))
}

/// The entry read from the six fields of a log line (change ID, commit ID, bookmarks,
/// author, timestamp, description), shown by the colored line of the same index
/// when there is one, else by a plain line of change ID, commit ID and description.
pub open spec fn entry_of(
    fields: Seq<Seq<char>>,
    colored: Seq<Seq<char>>,
    i: int,
) -> LogEntryView {
    let bookmarks = bookmark_names(fields[2]);
    LogEntryView {
        change_id: fields[0],
        commit_id: fields[1],
        bookmarks: bookmarks,
        description: fields[5],
        author: fields[3],
        timestamp: fields[4],
        display_lines: if 0 <= i < colored.len() {
            lines(colored[i]).map_values(|l: Seq<char>| line_runs(l))
        } else {
            seq![
                lines(join(seq![fields[0], fields[1], fields[5]], seq![' '])).map_values(
                    |t: Seq<char>| (t, plain_style()),
                ),
            ]
        },
        search_text: join(
            seq![fields[0], fields[1], join(bookmarks, seq![' ']), fields[3], fields[4], fields[5]],
            seq![' '],
        ),
    }
}

/// The entries of the log lines from index `i` on: a line that is blank, or that has
/// fewer than six `|`-separated fields, gives no entry.
pub open spec fn entries_from(
    structured: Seq<Seq<char>>,
    colored: Seq<Seq<char>>,
    i: int,
) -> Seq<LogEntryView>
    decreases structured.len() - i,
{
    if i < 0 || i >= structured.len() {
        Seq::empty()
    } else {
        let line = structured[i];
        let fields = splitn(line, 6, '|');
        let here: Seq<LogEntryView> = if is_blank(line) || fields.len() < 6 {
            Seq::empty()
        } else {
            seq![entry_of(fields, colored, i)]
        };
        here + entries_from(structured, colored, i + 1)
    }
}

/// The entries of a structured log output, each displayed by the colored output's
/// line of the same index.
pub open spec fn log_entries(structured: Seq<char>, colored: Seq<char>) -> Seq<LogEntryView> {
    entries_from(lines(structured), lines(colored), 0)
}

// ---------------------------------------------------------------------------
// Laws

proof fn lemma_non_empty(pieces: Seq<Seq<char>>, sep: char)
    requires
        forall|p: int, j: int|
            0 <= p < pieces.len() && 0 <= j < pieces[p].len() ==> #[trigger] pieces[p][j] != sep,
    ensures
        forall|p: int|
            0 <= p < non_empty(pieces).len() ==> (#[trigger] non_empty(pieces)[p]).len() > 0
                && !non_empty(pieces)[p].contains(sep),
    decreases pieces.len(),
{
    if pieces.len() > 0 {
        let rest = pieces.drop_first();
        assert forall|p: int, j: int| 0 <= p < rest.len() && 0 <= j < rest[p].len() implies #[trigger] rest[p][j]
            != sep by {
            assert(rest[p] == pieces[p + 1]);
        }
        lemma_non_empty(rest, sep);
        let head: Seq<Seq<char>> = if pieces[0].len() > 0 {
            seq![pieces[0]]
        } else {
            Seq::empty()
        };
        assert forall|p: int| 0 <= p < non_empty(pieces).len() implies (#[trigger] non_empty(
            pieces,
        )[p]).len() > 0 && !non_empty(pieces)[p].contains(sep) by {
            if p < head.len() {
                assert(non_empty(pieces)[p] == pieces[0]);
                if pieces[0].contains(sep) {
                    let j = choose|j: int| 0 <= j < pieces[0].len() && pieces[0][j] == sep;
                    assert(pieces[0][j] != sep);
                }
            } else {
                assert(non_empty(pieces)[p] == non_empty(rest)[p - head.len()]);
            }
        }
    }
}

/// Every bookmark name of an entry is non-empty and holds no comma.
pub proof fn law_bookmark_names(field: Seq<char>)
    ensures
        forall|p: int|
            0 <= p < bookmark_names(field).len() ==> (#[trigger] bookmark_names(field)[p]).len() > 0
                && !bookmark_names(field)[p].contains(','),
{
    crate::text::lemma_split_from_pieces(field, ',', 0);
    lemma_non_empty(split(field, ','), ',');
}

proof fn lemma_entries_from_len(structured: Seq<Seq<char>>, colored: Seq<Seq<char>>, i: int)
    requires
        0 <= i <= structured.len(),
    ensures
        entries_from(structured, colored, i).len() <= structured.len() - i,
    decreases structured.len() - i,
{
    if i < structured.len() {
        lemma_entries_from_len(structured, colored, i + 1);
    }
}

/// A log output gives at most one entry per line.
pub proof fn law_at_most_one_entry_per_line(structured: Seq<char>, colored: Seq<char>)
    ensures
        log_entries(structured, colored).len() <= lines(structured).len(),
{
    lemma_entries_from_len(lines(structured), lines(colored), 0);
}

/// Whether a structured log line gives an entry: it is not blank and has six
/// `|`-separated fields.
pub open spec fn gives_entry(line: Seq<char>) -> bool {
    !is_blank(line) && splitn(line, 6, '|').len() >= 6
}

/// How many of the first `i` lines give an entry.
pub open spec fn entries_before(structured: Seq<Seq<char>>, i: int) -> int
    decreases i,
{
    if i <= 0 {
        0
    } else {
        entries_before(structured, i - 1) + if gives_entry(structured[i - 1]) {
            1int
        } else {
            0int
        }
    }
}

proof fn lemma_entry_at(structured: Seq<Seq<char>>, colored: Seq<Seq<char>>, j: int, i: int)
    requires
        0 <= j <= i < structured.len(),
        gives_entry(structured[i]),
    ensures
        0 <= entries_before(structured, i) - entries_before(structured, j) < entries_from(
            structured,
            colored,
            j,
        ).len(),
        entries_from(structured, colored, j)[entries_before(structured, i) - entries_before(
            structured,
            j,
        )] == entry_of(splitn(structured[i], 6, '|'), colored, i),
    decreases i - j,
{
    if j < i {
        lemma_entry_at(structured, colored, j + 1, i);
        assert(entries_before(structured, j + 1) == entries_before(structured, j) + if gives_entry(
            structured[j],
        ) {
            1int
        } else {
            0int
        });
        let rest = entries_from(structured, colored, j + 1);
        let all = entries_from(structured, colored, j);
        let k = entries_before(structured, i) - entries_before(structured, j + 1);
        if gives_entry(structured[j]) {
            assert(all[k + 1] == rest[k]);
        } else {
            assert(all =~= rest);
        }
    }
}

/// The entry of each log line that gives one comes in order (after the entries of the
/// lines before it), holds that line's six `|`-separated fields in order (change ID,
/// commit ID, the non-empty comma-separated bookmark names, author, timestamp,
/// description, each whole), is searched by those fields joined with spaces, and is
/// displayed by the colored
/// output's line of the same index (blank and malformed lines counted) when there
/// is one, else by a plain line of its change ID, commit ID and description.
pub proof fn law_entry_of_line(structured: Seq<char>, colored: Seq<char>, i: int)
    requires
        0 <= i < lines(structured).len(),
        gives_entry(lines(structured)[i]),
    ensures
        ({
            let sl = lines(structured);
            let cl = lines(colored);
            let fields = splitn(sl[i], 6, '|');
            let k = entries_before(sl, i);
            let e = log_entries(structured, colored)[k];
            &&& 0 <= k < log_entries(structured, colored).len()
            &&& e == entry_of(fields, cl, i)
            &&& e.change_id == fields[0]
            &&& e.commit_id == fields[1]
            &&& e.bookmarks == non_empty(split(fields[2], ','))
            &&& e.author == fields[3]
            &&& e.timestamp == fields[4]
            &&& e.description == fields[5]
            &&& e.search_text == join(
                seq![fields[0], fields[1], join(e.bookmarks, seq![' ']), fields[3], fields[4], fields[5]],
                seq![' '],
            )
            &&& e.display_lines == if i < cl.len() {
                lines(cl[i]).map_values(|l: Seq<char>| line_runs(l))
            } else {
                seq![
                    lines(join(seq![fields[0], fields[1], fields[5]], seq![' '])).map_values(
                        |t: Seq<char>| (t, plain_style()),
                    ),
                ]
            }
        }),
{
    lemma_entry_at(lines(structured), lines(colored), 0, i);
}

/// The non-empty names of a comma-separated bookmark list.
fn bookmarks_of(field: &Vec<char>) -> (r: Vec<Vec<char>>)
    ensures
        views(r@) == bookmark_names(field@),
{
    let pieces = split_chars(field, ',');
    let mut r: Vec<Vec<char>> = Vec::new();
    assert(views(pieces@).skip(0) =~= views(pieces@));
    for i in 0..pieces.len()
        invariant
            views(pieces@) == split(field@, ','),
            views(r@) + non_empty(views(pieces@).skip(i as int)) == bookmark_names(field@),
    {
        let ghost rest = views(pieces@).skip(i as int);
        assert(rest[0] == pieces@[i as int]@);
        assert(rest.drop_first() =~= views(pieces@).skip(i + 1));
        if pieces[i].len() > 0 {
            let name = copy_chars(&pieces[i]);
            let ghost before = views(r@);
            r.push(name);
            assert(views(r@) =~= before.push(name@));
            assert(before + non_empty(rest) =~= views(r@) + non_empty(rest.drop_first()));
        } else {
            assert(non_empty(rest) =~= non_empty(rest.drop_first()));
        }
    }
    assert(views(pieces@).skip(pieces.len() as int) =~= Seq::<Seq<char>>::empty());
    assert(views(r@) =~= bookmark_names(field@));
    r
}

/// The strings holding the character vectors of `v`.
fn strings_of(v: &Vec<Vec<char>>) -> (r: Vec<String>)
    ensures
        string_views(r@) == views(v@),
{
    let mut r: Vec<String> = Vec::new();
    for i in 0..v.len()
        invariant
            string_views(r@) == views(v@).take(i as int),
    {
        let s = string_of(&v[i]);
        let ghost before = string_views(r@);
        r.push(s);
        assert(string_views(r@) =~= before.push(s@));
        assert(views(v@).take(i + 1) =~= views(v@).take(i as int).push(v@[i as int]@));
    }
    assert(views(v@).take(v.len() as int) =~= views(v@));
    r
}

/// A copy of `v`.
fn copy_chars(v: &Vec<char>) -> (r: Vec<char>)
    ensures
        r@ == v@,
{
    let r = sub_chars(v, 0, v.len());
    assert(r@ =~= v@);
    r
}

/// The entry read from the six fields of the structured log line of index `i`.
fn entry_from_fields(fields: &Vec<Vec<char>>, colored: &Vec<Vec<char>>, i: usize) -> (r: LogEntry)
    requires
        fields.len() == 6,
    ensures
        r@ == entry_of(views(fields@), views(colored@), i as int),
{
    let ghost f = views(fields@);
    let names = bookmarks_of(&fields[2]);
    let space: Vec<char> = vec![' '];
    assert(space@ =~= seq![' ']);
    let joined_names = join_chars(&names, &space);
    let all: Vec<Vec<char>> = vec![
        copy_chars(&fields[0]),
        copy_chars(&fields[1]),
        joined_names,
        copy_chars(&fields[3]),
        copy_chars(&fields[4]),
        copy_chars(&fields[5]),
    ];
    assert(views(all@) =~= seq![f[0], f[1], join(bookmark_names(f[2]), seq![' ']), f[3], f[4], f[5]]);
    let search = join_chars(&all, &space);
    let display_lines = if i < colored.len() {
        parse_ansi_chars(&colored[i])
    } else {
        let short: Vec<Vec<char>> = vec![
            copy_chars(&fields[0]),
            copy_chars(&fields[1]),
            copy_chars(&fields[5]),
        ];
        assert(views(short@) =~= seq![f[0], f[1], f[5]]);
        let text = join_chars(&short, &space);
        let line = Line::raw(&text);
        let v = vec![line];
        assert(line_views(v@) =~= seq![line@]);
        v
    };
    LogEntry {
        change_id: string_of(&fields[0]),
        commit_id: string_of(&fields[1]),
        bookmarks: strings_of(&names),
        description: string_of(&fields[5]),
        author: string_of(&fields[3]),
        timestamp: string_of(&fields[4]),
        display_lines,
        search_text: string_of(&search),
    }
}

/// Reads the entries of a structured log output (one revision per line, six fields
/// separated by `|`), each displayed by the colored output's line of the same index.
pub fn parse_log_entries(structured: &str, colored: &str) -> (r: Vec<LogEntry>)
    ensures
        entry_views(r@) == log_entries(structured@, colored@),
{
    let s = crate::text::chars_of(structured);
    let c = crate::text::chars_of(colored);
    let slines = lines_of(&s);
    let clines = lines_of(&c);
    let mut r: Vec<LogEntry> = Vec::new();
    for i in 0..slines.len()
        invariant
            views(slines@) == lines(structured@),
            views(clines@) == lines(colored@),
            entry_views(r@) + entries_from(views(slines@), views(clines@), i as int) == log_entries(
                structured@,
                colored@,
            ),
    {
        let ghost before = entry_views(r@);
        let ghost line = views(slines@)[i as int];
        if !blank(&slines[i]) {
            let fields = splitn_chars(&slines[i], 6, '|');
            if fields.len() == 6 {
                let entry = entry_from_fields(&fields, &clines, i);
                r.push(entry);
                assert(entry_views(r@) =~= before.push(entry@));
            }
        }
        assert(before + entries_from(views(slines@), views(clines@), i as int) =~= entry_views(r@)
            + entries_from(views(slines@), views(clines@), i + 1));
    }
    assert(entry_views(r@) =~= log_entries(structured@, colored@));
    r
}

} // verus!
