//! Literal text search over the files of a tree, line by line, with a cap
//! on the number of results.
//!
//! The cap is exact: a search never gives more than `result_cap` results,
//! and what it gives are the first `result_cap` hits in the order of the
//! files and of their lines. Reading the files is the caller's part: a
//! `SearchSession` says which paths it wants and takes their contents one
//! by one, and `search` runs a session over a snapshot that is already in
//! memory.

use crate::paths::{file_name, file_name_chars, is_search_excluded, search_excludes};
use crate::text::{contains, contains_seq, decimal, push_decimal, split_lines, text_lines, to_chars,
    to_string, trim_bounds, trimmed};
use vstd::prelude::*;
use vstd::string::{StringExecFns, StringSliceAdditionalSpecFns};

verus! {

/// One line that holds the query.
#[derive(Clone, Debug)]
pub struct SearchResult {
    /// The path of the file.
    pub path: String,
    /// The number of the line in the file, from 1.
    pub line_number: usize,
    /// The line without the whitespace around it.
    pub line_content: String,
}

/// What a search result stands for.
pub struct SearchResultView {
    pub path: Seq<char>,
    pub line_number: nat,
    pub line_content: Seq<char>,
}

impl View for SearchResult {
    type V = SearchResultView;

    open spec fn view(&self) -> SearchResultView {
        SearchResultView {
            path: self.path@,
            line_number: self.line_number as nat,
            line_content: self.line_content@,
        }
    }
}

impl SearchResultView {
    /// The line under which a result is listed: the file name, the line
    /// number and the trimmed line, as in `main.rs:12 - let x = 1;`.
    pub open spec fn label(self) -> Seq<char> {
        file_name(self.path) + ":"@ + decimal(self.line_number) + " - "@ + self.line_content
    }
}

impl SearchResult {
    /// The line under which the result is listed.
    pub fn label(&self) -> (label: String)
        ensures
            label@ == self@.label(),
    {
        let name = file_name_chars(&to_chars(self.path.as_str()));
        let n = name.len();
        let mut label = to_string(&name, 0, n);
        assert(name@.subrange(0, n as int) =~= name@);
        label.append(":");
        push_decimal(&mut label, self.line_number);
        label.append(" - ");
        label.append(self.line_content.as_str());
        label
    }
}

/// One entry of a file-tree snapshot.
pub struct FileEntry {
    /// The path of the entry.
    pub path: String,
    /// How far below the root the entry lies; the root itself is at 0.
    pub depth: usize,
    /// The text of the file, or nothing for a directory and for a file
    /// that could not be read as text.
    pub content: Option<String>,
}

/// The views of results.
pub open spec fn result_views(results: Seq<SearchResult>) -> Seq<SearchResultView> {
    results.map_values(|r: SearchResult| r@)
}

/// A query is searched for only if it is at least two bytes long.
pub open spec fn is_searchable(query: Seq<char>) -> bool {
    vstd::utf8::encode_utf8(query).len() >= 2
}

/// At most the first `cap` items of a sequence.
pub open spec fn capped<T>(items: Seq<T>, cap: nat) -> Seq<T> {
    if items.len() <= cap {
        items
    } else {
        items.take(cap as int)
    }
}

/// The hits among the first `upto` lines of a file: one for each line
/// that holds the query, with the line's number and its trimmed text.
pub open spec fn line_hits(
    path: Seq<char>,
    lines: Seq<Seq<char>>,
    query: Seq<char>,
    upto: int,
) -> Seq<SearchResultView>
    decreases upto,
{
    if upto <= 0 {
        Seq::empty()
    } else {
        let before = line_hits(path, lines, query, upto - 1);
        if upto <= lines.len() && contains_seq(lines[upto - 1], query) {
            before.push(
                SearchResultView {
                    path,
                    line_number: upto as nat,
                    line_content: trimmed(lines[upto - 1]),
                },
            )
        } else {
            before
        }
    }
}

/// The hits in one file.
pub open spec fn file_hits(path: Seq<char>, content: Seq<char>, query: Seq<char>) -> Seq<
    SearchResultView,
> {
    line_hits(path, text_lines(content), query, text_lines(content).len() as int)
}

/// The hits that one entry of a snapshot gives: those of its text, if it
/// has one, lies no deeper than `max_depth` and is not left out by its
/// path.
pub open spec fn entry_hits(entry: FileEntry, query: Seq<char>, max_depth: nat) -> Seq<
    SearchResultView,
> {
    if entry.depth <= max_depth && !search_excludes(entry.path@) && entry.content is Some {
        file_hits(entry.path@, entry.content->0@, query)
    } else {
        Seq::empty()
    }
}

/// The hits of the first `upto` entries of a snapshot, in order.
pub open spec fn tree_hits(
    entries: Seq<FileEntry>,
    query: Seq<char>,
    max_depth: nat,
    upto: int,
) -> Seq<SearchResultView>
    decreases upto,
{
    if upto <= 0 || upto > entries.len() {
        Seq::empty()
    } else {
        tree_hits(entries, query, max_depth, upto - 1) + entry_hits(
            entries[upto - 1],
            query,
            max_depth,
        )
    }
}

/// What a search gives: nothing for a query that is too short, else the
/// first `cap` hits of the snapshot.
pub open spec fn search_results(
    entries: Seq<FileEntry>,
    query: Seq<char>,
    max_depth: nat,
    cap: nat,
) -> Seq<SearchResultView> {
    if is_searchable(query) {
        capped(tree_hits(entries, query, max_depth, entries.len() as int), cap)
    } else {
        Seq::empty()
    }
}

/// Once the cap is reached, further hits change nothing.
pub proof fn lemma_capped_full<T>(items: Seq<T>, more: Seq<T>, cap: nat)
    requires
        items.len() >= cap,
    ensures
        capped(items + more, cap) == capped(items, cap),
{
    assert((items + more).take(cap as int) =~= items.take(cap as int));
    assert(items.take(cap as int) =~= capped(items, cap));
    if more.len() == 0 {
        assert(items + more =~= items);
    }
}

/// Capping as the hits come in gives what capping them all at the end
/// gives.
pub proof fn lemma_capped_absorbs<T>(items: Seq<T>, more: Seq<T>, cap: nat)
    ensures
        capped(capped(items, cap) + more, cap) == capped(items + more, cap),
        capped(items, cap).len() <= cap,
        capped(items, cap).len() < cap ==> capped(items, cap) == items,
{
    if items.len() > cap {
        lemma_capped_full(items.take(cap as int), more, cap);
        lemma_capped_full(items, more, cap);
    }
}

/// A search never gives more results than its cap allows.
pub proof fn lemma_search_is_capped(
    entries: Seq<FileEntry>,
    query: Seq<char>,
    max_depth: nat,
    cap: nat,
)
    ensures
        search_results(entries, query, max_depth, cap).len() <= cap,
{
}

/// A query of fewer than two bytes finds nothing, whatever the tree holds.
pub proof fn lemma_short_query_finds_nothing(
    entries: Seq<FileEntry>,
    query: Seq<char>,
    max_depth: nat,
    cap: nat,
)
    requires
        !is_searchable(query),
    ensures
        search_results(entries, query, max_depth, cap) == Seq::<SearchResultView>::empty(),
{
}

/// A search in progress: the query, the cap, and the results so far.
pub struct SearchSession {
    query: Vec<char>,
    searchable: bool,
    cap: usize,
    results: Vec<SearchResult>,
}

/// What a search session stands for.
pub struct SearchSessionView {
    pub query: Seq<char>,
    pub cap: nat,
    pub results: Seq<SearchResultView>,
}

impl SearchSessionView {
    /// The session takes no more results: the query is too short to be
    /// searched for, or the cap is reached.
    pub open spec fn is_done(self) -> bool {
        !is_searchable(self.query) || self.results.len() >= self.cap
    }

    /// The session after the text of one file was handed in.
    pub open spec fn feed(self, path: Seq<char>, content: Seq<char>) -> SearchSessionView {
        if is_searchable(self.query) {
            SearchSessionView {
                results: capped(self.results + file_hits(path, content, self.query), self.cap),
                ..self
            }
        } else {
            self
        }
    }
}

impl View for SearchSession {
    type V = SearchSessionView;

    closed spec fn view(&self) -> SearchSessionView {
        SearchSessionView {
            query: self.query@,
            cap: self.cap as nat,
            results: result_views(self.results@),
        }
    }
}

impl SearchSession {
    /// The session keeps to its cap, and one whose query is too short has
    /// no results.
    pub closed spec fn wf(&self) -> bool {
        &&& self.searchable == is_searchable(self.query@)
        &&& self.results@.len() <= self.cap
        &&& !self.searchable ==> self.results@.len() == 0
    }

    /// A session with no results yet.
    pub fn new(query: &str, result_cap: usize) -> (session: SearchSession)
        ensures
            session.wf(),
            session@ == (SearchSessionView {
                query: query@,
                cap: result_cap as nat,
                results: Seq::empty(),
            }),
    {
        let session = SearchSession {
            query: to_chars(query),
            searchable: query.as_bytes().len() >= 2,
            cap: result_cap,
            results: Vec::new(),
        };
        assert(session@.results =~= Seq::<SearchResultView>::empty());
        session
    }

    /// Whether the session takes no more results, so that the walk over
    /// the tree can end. A session whose query is too short is done before
    /// any file is looked at.
    pub fn is_done(&self) -> (done: bool)
        requires
            self.wf(),
        ensures
            done == self@.is_done(),
    {
        !self.searchable || self.results.len() >= self.cap
    }

    /// Whether the file at `path` is to be read and handed in.
    pub fn wants(&self, path: &str) -> (wanted: bool)
        requires
            self.wf(),
        ensures
            wanted == (!self@.is_done() && !search_excludes(path@)),
    {
        !self.is_done() && !is_search_excluded(path)
    }

    /// Takes the text of one file: its hits follow the results so far, up
    /// to the cap.
    pub fn feed(&mut self, path: &str, content: &str)
        requires
            old(self).wf(),
        ensures
            final(self).wf(),
            final(self)@ == old(self)@.feed(path@, content@),
    {
        if self.is_done() {
            proof {
                if self.searchable {
                    lemma_capped_full(
                        self@.results,
                        file_hits(path@, content@, self@.query),
                        self@.cap,
                    );
                }
            }
            return ;
        }
        let lines = split_lines(&to_chars(content));
        let ghost wanted = text_lines(content@);
        let ghost before = self@.results;
        let mut i: usize = 0;
        while i < lines.len()
            invariant
                i <= lines.len(),
                self.wf(),
                self.searchable,
                self@.query == old(self)@.query,
                self@.cap == old(self)@.cap,
                lines@.len() == wanted.len(),
                forall|k: int| 0 <= k < lines@.len() ==> (#[trigger] lines@[k])@ == wanted[k],
                self@.results == capped(
                    before + line_hits(path@, wanted, self@.query, i as int),
                    self@.cap,
                ),
            decreases lines.len() - i,
        {
            let ghost so_far = before + line_hits(path@, wanted, self@.query, i as int);
            let ghost shown = self@.results;
            proof {
                lemma_capped_absorbs(so_far, Seq::empty(), self@.cap);
            }
            if contains(&lines[i], &self.query) {
                let ghost hit = SearchResultView {
                    path: path@,
                    line_number: (i + 1) as nat,
                    line_content: trimmed(wanted[i as int]),
                };
                assert(before + line_hits(path@, wanted, self@.query, i + 1) =~= so_far.push(hit));
                if self.results.len() < self.cap {
                    let bounds = trim_bounds(&lines[i]);
                    let found = SearchResult {
                        path: String::from_str(path),
                        line_number: i + 1,
                        line_content: to_string(&lines[i], bounds.0, bounds.1),
                    };
                    assert(found@ == hit);
                    self.results.push(found);
                    assert(self@.results =~= shown.push(hit));
                } else {
                    proof {
                        lemma_capped_full(so_far, seq![hit], self@.cap);
                        assert(so_far + seq![hit] =~= so_far.push(hit));
                    }
                }
            }
            i += 1;
        }
    }

    /// The results so far.
    pub fn results(&self) -> (results: &Vec<SearchResult>)
        ensures
            result_views(results@) == self@.results,
    {
        &self.results
    }

    /// Ends the session and hands out its results.
    pub fn into_results(self) -> (results: Vec<SearchResult>)
        ensures
            result_views(results@) == self@.results,
    {
        self.results
    }
}

/// Searches a file-tree snapshot for the lines that hold `query`.
///
/// A query of fewer than two bytes gives nothing. Otherwise every entry
/// that has a text, lies no deeper than `max_depth` and is not left out
/// by its path is searched line by line, in the order of the snapshot,
/// and the first `result_cap` hits are given, each with its path, its line
/// number from 1 and the trimmed line.
pub fn search(entries: &Vec<FileEntry>, query: &str, max_depth: usize, result_cap: usize) -> (results:
    Vec<SearchResult>)
    ensures
        result_views(results@) == search_results(
            entries@,
            query@,
            max_depth as nat,
            result_cap as nat,
        ),
        results@.len() <= result_cap,
{
    let mut session = SearchSession::new(query, result_cap);
    let mut i: usize = 0;
    while i < entries.len()
        invariant
            i <= entries.len(),
            session.wf(),
            session@.query == query@,
            session@.cap == result_cap as nat,
            is_searchable(query@) ==> session@.results == capped(
                tree_hits(entries@, query@, max_depth as nat, i as int),
                result_cap as nat,
            ),
            !is_searchable(query@) ==> session@.results == Seq::<SearchResultView>::empty(),
        decreases entries.len() - i,
    {
        let entry = &entries[i];
        let ghost so_far = tree_hits(entries@, query@, max_depth as nat, i as int);
        proof {
            lemma_capped_absorbs(so_far, entry_hits(*entry, query@, max_depth as nat), result_cap as nat);
            assert(tree_hits(entries@, query@, max_depth as nat, i + 1) == so_far + entry_hits(
                *entry,
                query@,
                max_depth as nat,
            ));
        }
        let mut fed = false;
        if entry.depth <= max_depth && session.wants(entry.path.as_str()) {
            match &entry.content {
                Some(text) => {
                    session.feed(entry.path.as_str(), text.as_str());
                    fed = true;
                },
                None => {},
            }
        }
        proof {
            if !fed && is_searchable(query@) {
                if session@.results.len() >= result_cap {
                    lemma_capped_full(so_far, entry_hits(*entry, query@, max_depth as nat), result_cap as nat);
                } else {
                    assert(entry_hits(*entry, query@, max_depth as nat) =~= Seq::<
                        SearchResultView,
                    >::empty());
                    assert(so_far + Seq::<SearchResultView>::empty() =~= so_far);
                }
            }
        }
        i += 1;
    }
    session.into_results()
}

} // verus!
