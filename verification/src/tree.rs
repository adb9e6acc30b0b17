//! The bookmark tree: bookmarks with their recent revisions, flattened into the
//! list of rows the finder shows (a header per bookmark, followed by its revisions
//! when the bookmark is expanded).

use vstd::prelude::*;
use crate::ansi::{copy_lines, line_views, Line};
use crate::style::Style;
use crate::log::{entry_views, LogEntry, LogEntryView};
use crate::text::{
    chars_of, copy_string, lines, lines_of, non_empty, same_chars, string_of, string_views, trim,
    trim_chars, views,
};

verus! {

/// A revision shown under a bookmark.
#[derive(Clone, Debug)]
pub struct Revision {
    /// The change ID (short form), the target of `jj new` and `jj edit`.
    pub change_id: String,
    /// The commit ID (short form).
    pub commit_id: String,
    /// The first line of the description.
    pub description: String,
    /// The text the fuzzy search runs on.
    pub search_text: String,
    /// Whether this revision is the working-copy revision.
    pub is_working_copy: bool,
    /// The colored line of `jj log` that shows this revision.
    pub display_lines: Vec<Line>,
}

/// The contents of a revision.
pub struct RevisionView {
    pub change_id: Seq<char>,
    pub commit_id: Seq<char>,
    pub description: Seq<char>,
    pub search_text: Seq<char>,
    pub is_working_copy: bool,
    pub display_lines: Seq<Seq<(Seq<char>, Style)>>,
}

impl View for Revision {
    type V = RevisionView;

    open spec fn view(&self) -> RevisionView {
        RevisionView {
            change_id: self.change_id@,
            commit_id: self.commit_id@,
            description: self.description@,
            search_text: self.search_text@,
            is_working_copy: self.is_working_copy,
            display_lines: line_views(self.display_lines@),
        }
    }
}

impl Revision {
    /// A copy of this revision.
    pub fn copy(&self) -> (r: Revision)
        ensures
            r@ == self@,
    {
        Revision {
            change_id: copy_string(&self.change_id),
            commit_id: copy_string(&self.commit_id),
            description: copy_string(&self.description),
            search_text: copy_string(&self.search_text),
            is_working_copy: self.is_working_copy,
            display_lines: copy_lines(&self.display_lines),
        }
    }
}

/// A bookmark and its recent revisions.
#[derive(Clone, Debug)]
pub struct Bookmark {
    pub name: String,
    pub revisions: Vec<Revision>,
    /// Whether the revisions are shown under the bookmark.
    pub expanded: bool,
}

/// The contents of a bookmark.
pub struct BookmarkView {
    pub name: Seq<char>,
    pub revisions: Seq<RevisionView>,
    pub expanded: bool,
}

/// The contents of a vector of revisions.
pub open spec fn revision_views(v: Seq<Revision>) -> Seq<RevisionView> {
    v.map_values(|r: Revision| r@)
}

impl View for Bookmark {
    type V = BookmarkView;

    open spec fn view(&self) -> BookmarkView {
        BookmarkView {
            name: self.name@,
            revisions: revision_views(self.revisions@),
            expanded: self.expanded,
        }
    }
}

/// The contents of a vector of bookmarks.
pub open spec fn bookmark_views(v: Seq<Bookmark>) -> Seq<BookmarkView> {
    v.map_values(|b: Bookmark| b@)
}

/// A row of the tree.
#[derive(Clone, Debug)]
pub enum TreeItem {
    /// The header row of the bookmark at index `bookmark_idx`.
    BookmarkHeader { name: String, bookmark_idx: usize },
    /// A revision row under the bookmark at index `bookmark_idx`.
    Revision { revision: Revision, bookmark_idx: usize },
}

/// The contents of a row.
pub enum ItemView {
    Header { name: Seq<char>, bookmark_idx: usize },
    Rev { revision: RevisionView, bookmark_idx: usize },
}

impl View for TreeItem {
    type V = ItemView;

    open spec fn view(&self) -> ItemView {
        match self {
            TreeItem::BookmarkHeader { name, bookmark_idx } => ItemView::Header {
                name: name@,
                bookmark_idx: *bookmark_idx,
            },
            TreeItem::Revision { revision, bookmark_idx } => ItemView::Rev {
                revision: revision@,
                bookmark_idx: *bookmark_idx,
            },
        }
    }
}

/// The contents of a vector of rows.
pub open spec fn item_views(v: Seq<TreeItem>) -> Seq<ItemView> {
    v.map_values(|t: TreeItem| t@)
}

/// The bookmark a row belongs to.
pub open spec fn owner(item: ItemView) -> usize {
    match item {
        ItemView::Header { bookmark_idx, .. } => bookmark_idx,
        ItemView::Rev { bookmark_idx, .. } => bookmark_idx,
    }
}

/// The text the fuzzy search runs on for a row: a bookmark's name, a revision's
/// search text.
pub open spec fn item_search_text(item: ItemView) -> Seq<char> {
    match item {
        ItemView::Header { name, .. } => name,
        ItemView::Rev { revision, .. } => revision.search_text,
    }
}

/// The rows of bookmark `b` at index `bi`: its header, then its revisions if it is
/// expanded.
pub open spec fn rows_of(b: BookmarkView, bi: usize) -> Seq<ItemView> {
    let revs = if b.expanded {
        b.revisions.map_values(|r: RevisionView| ItemView::Rev { revision: r, bookmark_idx: bi })
    } else {
        Seq::empty()
    };
    seq![ItemView::Header { name: b.name, bookmark_idx: bi }] + revs
}

/// The rows of the bookmarks, bookmark after bookmark.
pub open spec fn flatten(bs: Seq<BookmarkView>) -> Seq<ItemView>
    decreases bs.len(),
{
    if bs.len() == 0 {
        Seq::empty()
    } else {
        flatten(bs.drop_last()) + rows_of(bs.last(), (bs.len() - 1) as usize)
    }
}

/// The number of rows when every bookmark is expanded.
pub open spec fn full_size(bs: Seq<BookmarkView>) -> nat
    decreases bs.len(),
{
    if bs.len() == 0 {
        0
    } else {
        full_size(bs.drop_last()) + 1 + bs.last().revisions.len()
    }
}

/// The bookmarks never give more rows than they have headers and revisions, and
/// every row belongs to one of them.
pub proof fn lemma_flatten_bounds(bs: Seq<BookmarkView>)
    ensures
        flatten(bs).len() <= full_size(bs),
        forall|i: int| 0 <= i < flatten(bs).len() ==> (owner(#[trigger] flatten(bs)[i]) as int)
            < bs.len(),
    decreases bs.len(),
{
    if bs.len() > 0 {
        let init = bs.drop_last();
        lemma_flatten_bounds(init);
        let rows = rows_of(bs.last(), (bs.len() - 1) as usize);
        assert forall|i: int| 0 <= i < flatten(bs).len() implies (owner(
            #[trigger] flatten(bs)[i],
        ) as int) < bs.len() by {
            if i >= flatten(init).len() {
                assert(flatten(bs)[i] == rows[i - flatten(init).len()]);
            } else {
                assert(flatten(bs)[i] == flatten(init)[i]);
            }
        }
    }
}

/// Expanding or collapsing a bookmark does not change how many rows there can be.
pub proof fn lemma_full_size_update(bs: Seq<BookmarkView>, bi: int, b: BookmarkView)
    requires
        0 <= bi < bs.len(),
        b.revisions.len() == bs[bi].revisions.len(),
    ensures
        full_size(bs.update(bi, b)) == full_size(bs),
    decreases bs.len(),
{
    if bi < bs.len() - 1 {
        assert(bs.update(bi, b).drop_last() =~= bs.drop_last().update(bi, b));
        lemma_full_size_update(bs.drop_last(), bi, b);
    } else {
        assert(bs.update(bi, b).drop_last() =~= bs.drop_last());
    }
}

/// The rows of the first `k` bookmarks begin the rows of all of them.
pub proof fn lemma_flatten_prefix(bs: Seq<BookmarkView>, k: int)
    requires
        0 <= k <= bs.len(),
    ensures
        flatten(bs.take(k)).len() <= flatten(bs).len(),
        forall|i: int| 0 <= i < flatten(bs.take(k)).len() ==> #[trigger] flatten(bs)[i] == flatten(
            bs.take(k),
        )[i],
    decreases bs.len(),
{
    if k == bs.len() {
        assert(bs.take(k) =~= bs);
    } else {
        let init = bs.drop_last();
        lemma_flatten_prefix(init, k);
        assert(init.take(k) =~= bs.take(k));
        assert forall|i: int| 0 <= i < flatten(bs.take(k)).len() implies #[trigger] flatten(bs)[i]
            == flatten(bs.take(k))[i] by {
            assert(flatten(bs)[i] == flatten(init)[i]);
        }
    }
}

/// The header of bookmark `bi` is the row right after the rows of the bookmarks
/// before it, and it shows the bookmark's name.
pub proof fn lemma_header_row(bs: Seq<BookmarkView>, bi: int)
    requires
        0 <= bi < bs.len(),
    ensures
        flatten(bs.take(bi)).len() < flatten(bs).len(),
        flatten(bs)[flatten(bs.take(bi)).len() as int] == (ItemView::Header {
            name: bs[bi].name,
            bookmark_idx: bi as usize,
        }),
{
    let upto = bs.take(bi + 1);
    assert(upto.drop_last() =~= bs.take(bi));
    assert(upto.last() == bs[bi]);
    let p = flatten(bs.take(bi)).len() as int;
    assert(flatten(upto)[p] == rows_of(bs[bi], bi as usize)[0]);
    lemma_flatten_prefix(bs, bi + 1);
}

/// With every bookmark collapsed there is one row per bookmark: row `i` is the header
/// of bookmark `i`.
pub proof fn law_collapsed_rows(bs: Seq<BookmarkView>)
    requires
        bs.len() <= usize::MAX,
        forall|b: int| 0 <= b < bs.len() ==> !(#[trigger] bs[b]).expanded,
    ensures
        flatten(bs).len() == bs.len(),
        forall|i: int| 0 <= i < bs.len() ==> #[trigger] flatten(bs)[i] == (ItemView::Header {
            name: bs[i].name,
            bookmark_idx: i as usize,
        }),
    decreases bs.len(),
{
    if bs.len() > 0 {
        let init = bs.drop_last();
        assert forall|b: int| 0 <= b < init.len() implies !(#[trigger] init[b]).expanded by {
            assert(init[b] == bs[b]);
        }
        law_collapsed_rows(init);
        assert forall|i: int| 0 <= i < bs.len() implies #[trigger] flatten(bs)[i] == (ItemView::Header {
            name: bs[i].name,
            bookmark_idx: i as usize,
        }) by {
            if i < init.len() {
                assert(flatten(bs)[i] == flatten(init)[i]);
            }
        }
    }
}

/// Under the header of an expanded bookmark come its revisions, in order, each as a
/// row of that bookmark.
pub proof fn law_expanded_rows(bs: Seq<BookmarkView>, bi: int)
    requires
        0 <= bi < bs.len() <= usize::MAX,
        bs[bi].expanded,
    ensures
        ({
            let p = flatten(bs.take(bi)).len() as int;
            &&& flatten(bs)[p] == (ItemView::Header { name: bs[bi].name, bookmark_idx: bi as usize })
            &&& p + bs[bi].revisions.len() < flatten(bs).len()
            &&& forall|j: int| 0 <= j < bs[bi].revisions.len() ==> #[trigger] flatten(bs)[p + 1 + j] == (ItemView::Rev {
                revision: bs[bi].revisions[j],
                bookmark_idx: bi as usize,
            })
        }),
{
    lemma_header_row(bs, bi);
    let upto = bs.take(bi + 1);
    assert(upto.drop_last() =~= bs.take(bi));
    assert(upto.last() == bs[bi]);
    lemma_flatten_prefix(bs, bi + 1);
    let p = flatten(bs.take(bi)).len() as int;
    assert forall|j: int| 0 <= j < bs[bi].revisions.len() implies #[trigger] flatten(bs)[p + 1 + j] == (ItemView::Rev {
        revision: bs[bi].revisions[j],
        bookmark_idx: bi as usize,
    }) by {
        assert(flatten(upto)[p + 1 + j] == rows_of(bs[bi], bi as usize)[1 + j]);
    }
}

impl TreeItem {
    /// Whether this row is a bookmark header.
    pub fn is_bookmark(&self) -> (r: bool)
        ensures
            r == (self@ is Header),
    {
        match self {
            TreeItem::BookmarkHeader { .. } => true,
            TreeItem::Revision { .. } => false,
        }
    }

    /// The text the fuzzy search runs on.
    pub fn search_text(&self) -> (r: &String)
        ensures
            r@ == item_search_text(self@),
    {
        match self {
            TreeItem::BookmarkHeader { name, .. } => name,
            TreeItem::Revision { revision, .. } => &revision.search_text,
        }
    }
}

/// The rows of the bookmark tree.
pub fn flatten_tree(bookmarks: &Vec<Bookmark>) -> (r: Vec<TreeItem>)
    ensures
        item_views(r@) == flatten(bookmark_views(bookmarks@)),
{
    let mut r: Vec<TreeItem> = Vec::new();
    for bi in 0..bookmarks.len()
        invariant
            item_views(r@) == flatten(bookmark_views(bookmarks@).take(bi as int)),
    {
        let b = &bookmarks[bi];
        let ghost before = item_views(r@);
        r.push(TreeItem::BookmarkHeader { name: copy_string(&b.name), bookmark_idx: bi });
        if b.expanded {
            for j in 0..b.revisions.len()
                invariant
                    b == &bookmarks[bi as int],
                    b.expanded,
                    item_views(r@) == before + seq![ItemView::Header { name: b.name@, bookmark_idx: bi }]
                        + revision_views(b.revisions@).take(j as int).map_values(
                        |rv: RevisionView| ItemView::Rev { revision: rv, bookmark_idx: bi },
                    ),
            {
                let ghost mid = item_views(r@);
                r.push(TreeItem::Revision { revision: b.revisions[j].copy(), bookmark_idx: bi });
                assert(item_views(r@) =~= mid.push(
                    ItemView::Rev { revision: b.revisions@[j as int]@, bookmark_idx: bi },
                ));
                assert(revision_views(b.revisions@).take(j + 1).map_values(
                    |rv: RevisionView| ItemView::Rev { revision: rv, bookmark_idx: bi },
                ) =~= revision_views(b.revisions@).take(j as int).map_values(
                    |rv: RevisionView| ItemView::Rev { revision: rv, bookmark_idx: bi },
                ).push(ItemView::Rev { revision: b.revisions@[j as int]@, bookmark_idx: bi }));
            }
            assert(revision_views(b.revisions@).take(b.revisions.len() as int) =~= revision_views(
                b.revisions@,
            ));
        } else {
            assert(item_views(r@) =~= before.push(
                ItemView::Header { name: b.name@, bookmark_idx: bi },
            ));
        }
        assert(bookmark_views(bookmarks@).take(bi + 1).drop_last() =~= bookmark_views(
            bookmarks@,
        ).take(bi as int));
        assert(item_views(r@) =~= before + rows_of(b@, bi));
    }
    assert(bookmark_views(bookmarks@).take(bookmarks.len() as int) =~= bookmark_views(bookmarks@));
    r
}

/// The bookmark names of a bookmark list, one per line: each line trimmed, empty
/// lines left out.
pub open spec fn listed_names(list: Seq<char>) -> Seq<Seq<char>> {
    non_empty(lines(list).map_values(|l: Seq<char>| trim(l)))
}

/// The names of a bookmark list (one per line, surrounding white space removed,
/// empty lines skipped).
pub fn bookmark_names(list: &str) -> (r: Vec<String>)
    ensures
        string_views(r@) == listed_names(list@),
{
    let chars = chars_of(list);
    let ls = lines_of(&chars);
    let ghost trimmed = lines(list@).map_values(|l: Seq<char>| trim(l));
    let mut r: Vec<String> = Vec::new();
    assert(trimmed.skip(0) =~= trimmed);
    for i in 0..ls.len()
        invariant
            views(ls@) == lines(list@),
            trimmed == lines(list@).map_values(|l: Seq<char>| trim(l)),
            string_views(r@) + non_empty(trimmed.skip(i as int)) == listed_names(list@),
    {
        let name = trim_chars(&ls[i]);
        let ghost rest = trimmed.skip(i as int);
        assert(rest[0] == name@);
        assert(rest.drop_first() =~= trimmed.skip(i + 1));
        if name.len() > 0 {
            let s = string_of(&name);
            let ghost before = string_views(r@);
            r.push(s);
            assert(string_views(r@) =~= before.push(s@));
            assert(before + non_empty(rest) =~= string_views(r@) + non_empty(rest.drop_first()));
        } else {
            assert(non_empty(rest) =~= non_empty(rest.drop_first()));
        }
    }
    assert(trimmed.skip(ls.len() as int) =~= Seq::<Seq<char>>::empty());
    assert(string_views(r@) =~= listed_names(list@));
    r
}

/// The revision that shows log entry `e`; it is the working-copy revision when its
/// change ID is the working copy's (`working_copy`, surrounding white space removed).
pub open spec fn revision_of(e: LogEntryView, working_copy: Seq<char>) -> RevisionView {
    RevisionView {
        change_id: e.change_id,
        commit_id: e.commit_id,
        description: e.description,
        search_text: e.search_text,
        is_working_copy: e.change_id == trim(working_copy),
        display_lines: e.display_lines,
    }
}

/// The revisions that show the log entries `entries`, in order.
pub fn revisions_of(entries: &Vec<LogEntry>, working_copy: &str) -> (r: Vec<Revision>)
    ensures
        revision_views(r@) == entry_views(entries@).map_values(
            |e: LogEntryView| revision_of(e, working_copy@),
        ),
{
    let wc = trim_chars(&chars_of(working_copy));
    let mut r: Vec<Revision> = Vec::new();
    for i in 0..entries.len()
        invariant
            wc@ == trim(working_copy@),
            revision_views(r@) == entry_views(entries@).take(i as int).map_values(
                |e: LogEntryView| revision_of(e, working_copy@),
            ),
    {
        let e = &entries[i];
        let id = chars_of(e.change_id.as_str());
        let revision = Revision {
            change_id: copy_string(&e.change_id),
            commit_id: copy_string(&e.commit_id),
            description: copy_string(&e.description),
            search_text: copy_string(&e.search_text),
            is_working_copy: same_chars(&id, &wc),
            display_lines: copy_lines(&e.display_lines),
        };
        let ghost before = revision_views(r@);
        r.push(revision);
        assert(revision_views(r@) =~= before.push(revision@));
        assert(entry_views(entries@).take(i + 1).map_values(
            |e: LogEntryView| revision_of(e, working_copy@),
        ) =~= entry_views(entries@).take(i as int).map_values(
            |e: LogEntryView| revision_of(e, working_copy@),
        ).push(revision_of(entries@[i as int]@, working_copy@)));
    }
    assert(entry_views(entries@).take(entries.len() as int) =~= entry_views(entries@));
    r
}

} // verus!
