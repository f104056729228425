//! The content-search engine: filters the entries of a directory-tree
//! snapshot, classifies candidates as text or binary, scans their lines
//! against the compiled pattern, and aggregates the per-file matches under
//! a result cap and a wall-clock deadline.

use vstd::prelude::*;
use vstd::string::StrSliceExecFns;
use crate::classify::{
    SAMPLE_LIMIT, is_likely_binary_by_extension, is_text_bytes, is_text_sample,
    spec_likely_binary,
};
use crate::matches::{
    FileMatch, FileMatchView, MatchView, SearchResults, SearchResultsView, decode_lines,
    decoded_lines, scan_lines, spec_hits,
};
use crate::pattern::{
    GlobFilter, Matcher, Stopwatch, glob_accepts, glob_matches, regex_accepts, regex_escape,
    regex_escaped,
};
use crate::query::SearchQuery;
use crate::strutil::{chars_le, chars_le_exec, chars_vec};

verus! {

/// Why a search request was refused before any scanning began.
#[derive(Debug, Clone, Copy, PartialEq, Eq)]
pub enum SearchError {
    /// The content pattern is not a valid regular expression.
    InvalidPattern,
    /// The file-name filter is not a valid glob.
    InvalidGlob,
    /// The traversal itself failed (used by callers that walk a real tree).
    Io,
}

/// One entry of a directory-tree snapshot handed to the engine.
pub struct TreeEntry {
    /// The entry's path relative to the searched root, for display and
    /// ordering.
    pub rel_path: String,
    /// The bare file name.
    pub name: String,
    /// Whether the entry is a regular file.
    pub is_file: bool,
    /// Depth below the searched root; direct children are at depth 1.
    pub depth: usize,
    /// The size the traversal reported for the entry.
    pub size: u64,
    /// The entry's bytes.
    pub data: Vec<u8>,
}

/// The pattern text actually compiled: the query's own text for a regex
/// query, its escaped form for a literal query.
pub open spec fn effective_pattern(q: SearchQuery) -> Seq<char> {
    if q.is_regex {
        q.pattern@
    } else {
        regex_escaped(q.pattern@)
    }
}

/// A name beginning with the hidden-file marker.
pub open spec fn spec_hidden(name: Seq<char>) -> bool {
    name.len() > 0 && name[0] == '.'
}

/// The entry is a candidate: a visible regular file within the queried
/// depth whose name passes the glob filter and whose size is within the
/// cap.
pub open spec fn spec_selected(q: SearchQuery, e: TreeEntry) -> bool {
    &&& e.is_file
    &&& !spec_hidden(e.name@)
    &&& (q.recursive || e.depth <= 1)
    &&& glob_matches(q.file_pattern@, e.name@)
    &&& e.size <= q.max_file_size
}

/// The leading bytes the classifier samples.
pub open spec fn sample_seq(data: Seq<u8>) -> Seq<u8> {
    if data.len() <= SAMPLE_LIMIT {
        data
    } else {
        data.take(SAMPLE_LIMIT as int)
    }
}

/// The classifier's verdict on an entry: not a denylisted extension, and
/// the sampled bytes look like text.
pub open spec fn spec_text_entry(e: TreeEntry) -> bool {
    &&& !spec_likely_binary(e.name@)
    &&& is_text_sample(sample_seq(e.data@))
}

/// The matches the query finds in a file with these bytes.
pub open spec fn spec_file_hits(q: SearchQuery, data: Seq<u8>) -> Seq<MatchView> {
    spec_hits(
        decoded_lines(data),
        effective_pattern(q),
        !q.case_sensitive,
        q.context_lines as int,
        0,
    )
}

/// Addition capped at the machine word, as the running match total is.
pub open spec fn sat_add(a: int, b: int) -> int {
    if a + b > usize::MAX {
        usize::MAX as int
    } else {
        a + b
    }
}

/// The scan state after the first `n` snapshot entries: how many files
/// were scanned, the running match total, whether the result cap was
/// reached, and the per-file matches in scan order.
#[verifier::ext_equal]
pub ghost struct ScanState {
    pub searched: int,
    pub total: int,
    pub truncated: bool,
    pub fms: Seq<FileMatchView>,
}

/// Fold the scan over the first `n` entries. Once the cap is reached,
/// nothing further is scanned or counted.
pub open spec fn spec_scan(q: SearchQuery, entries: Seq<TreeEntry>, n: int) -> ScanState
    decreases n,
{
    if n <= 0 {
        ScanState { searched: 0, total: 0, truncated: false, fms: Seq::empty() }
    } else {
        let st = spec_scan(q, entries, n - 1);
        let e = entries[n - 1];
        if st.truncated {
            st
        } else if !spec_selected(q, e) || !spec_text_entry(e) {
            st
        } else {
            let hits = spec_file_hits(q, e.data@);
            if hits.len() == 0 {
                ScanState {
                    searched: st.searched + 1,
                    total: st.total,
                    truncated: false,
                    fms: st.fms,
                }
            } else {
                let total = sat_add(st.total, hits.len() as int);
                ScanState {
                    searched: st.searched + 1,
                    total,
                    truncated: total >= q.max_results,
                    fms: st.fms.push(FileMatchView { file: e.rel_path@, matches: hits }),
                }
            }
        }
    }
}

/// Order on per-file results: by relative path, code point by code point.
pub open spec fn fm_le(a: FileMatchView, b: FileMatchView) -> bool {
    chars_le(a.file, b.file)
}

/// `x` inserted into the sorted sequence `s`, after any equal keys.
pub open spec fn insert_sorted(x: FileMatchView, s: Seq<FileMatchView>) -> Seq<FileMatchView>
    decreases s.len(),
{
    if s.len() == 0 {
        seq![x]
    } else if fm_le(s[0], x) {
        seq![s[0]] + insert_sorted(x, s.drop_first())
    } else {
        seq![x] + s
    }
}

/// `s` sorted by relative path, stably, by left-to-right insertion.
pub open spec fn sort_fms(s: Seq<FileMatchView>) -> Seq<FileMatchView>
    decreases s.len(),
{
    if s.len() == 0 {
        Seq::empty()
    } else {
        insert_sorted(s.last(), sort_fms(s.drop_last()))
    }
}

/// The full search outcome on a snapshot prefix: the folded scan state,
/// with the per-file matches ordered by relative path.
pub open spec fn spec_search(q: SearchQuery, entries: Seq<TreeEntry>, stopped: bool) -> SearchResultsView {
    let st = spec_scan(q, entries, entries.len() as int);
    SearchResultsView {
        total_matches: st.total,
        files_searched: st.searched,
        files_matched: st.fms.len() as int,
        matches: sort_fms(st.fms),
        truncated: st.truncated,
        stopped_by_timeout: stopped,
    }
}

/// For a fixed snapshot, the search outcome is a function of the query
/// and the snapshot alone: any two runs that the deadline did not cut
/// short return the same ordered result.
pub proof fn lemma_search_deterministic(
    q: SearchQuery,
    entries: Seq<TreeEntry>,
    r1: SearchResultsView,
    r2: SearchResultsView,
)
    requires
        r1 == spec_search(q, entries, false),
        r2 == spec_search(q, entries, false),
    ensures
        r1 == r2,
{
}

/// The scan's counts are consistent: at most one scanned file per entry,
/// at most one reported file per scanned file, and the truncation flag
/// holds exactly when the running match total reached the result cap.
pub proof fn lemma_scan_counts(q: SearchQuery, entries: Seq<TreeEntry>, n: int)
    requires
        0 <= n,
        q.max_results > 0,
    ensures
        ({
            let st = spec_scan(q, entries, n);
            &&& 0 <= st.fms.len() <= st.searched <= n
            &&& (st.truncated <==> st.total >= q.max_results)
            &&& st.total >= 0
        }),
    decreases n,
{
    if n > 0 {
        lemma_scan_counts(q, entries, n - 1);
    }
}

/// The scan of a prefix reads nothing beyond it.
proof fn lemma_scan_take(q: SearchQuery, s: Seq<TreeEntry>, m: int, n: int)
    requires
        0 <= n <= m <= s.len(),
    ensures
        spec_scan(q, s.take(m), n) == spec_scan(q, s, n),
    decreases n,
{
    if n > 0 {
        lemma_scan_take(q, s, m, n - 1);
        assert(s.take(m)[n - 1] == s[n - 1]);
    }
}

/// Once the cap is reached, scanning further entries changes nothing.
proof fn lemma_scan_frozen(q: SearchQuery, s: Seq<TreeEntry>, i: int, j: int)
    requires
        0 <= i <= j <= s.len(),
        spec_scan(q, s, i).truncated,
    ensures
        spec_scan(q, s, j) == spec_scan(q, s, i),
    decreases j - i,
{
    if j > i {
        lemma_scan_frozen(q, s, i, j - 1);
    }
}

/// Inserting adds exactly one element.
proof fn lemma_insert_len(x: FileMatchView, s: Seq<FileMatchView>)
    ensures
        insert_sorted(x, s).len() == s.len() + 1,
    decreases s.len(),
{
    if s.len() > 0 && fm_le(s[0], x) {
        lemma_insert_len(x, s.drop_first());
    }
}

/// Sorting keeps the number of per-file results.
proof fn lemma_sort_len(s: Seq<FileMatchView>)
    ensures
        sort_fms(s).len() == s.len(),
    decreases s.len(),
{
    if s.len() > 0 {
        lemma_sort_len(s.drop_last());
        lemma_insert_len(s.last(), sort_fms(s.drop_last()));
    }
}

/// Splitting `insert_sorted` at the first position whose element exceeds
/// the key.
proof fn lemma_insert_point(x: FileMatchView, s: Seq<FileMatchView>, p: int)
    requires
        0 <= p <= s.len(),
        forall|q: int| 0 <= q < p ==> fm_le(#[trigger] s[q], x),
        p < s.len() ==> !fm_le(s[p], x),
    ensures
        insert_sorted(x, s) == s.take(p) + seq![x] + s.skip(p),
    decreases p,
{
    if s.len() == 0 {
        assert(s.take(0) + seq![x] + s.skip(0) =~= seq![x]);
    } else if p == 0 {
        assert(s.take(0) + seq![x] + s.skip(0) =~= seq![x] + s);
    } else {
        assert(fm_le(s[0], x));
        lemma_insert_point(x, s.drop_first(), p - 1);
        assert(s.drop_first().take(p - 1) =~= s.take(p).drop_first());
        assert(s.drop_first().skip(p - 1) =~= s.skip(p));
        assert(seq![s[0]] + (s.drop_first().take(p - 1) + seq![x] + s.drop_first().skip(p - 1))
            =~= s.take(p) + seq![x] + s.skip(p));
    }
}

/// The per-file results stand in non-decreasing path order.
pub open spec fn sorted_by_path(s: Seq<FileMatchView>) -> bool {
    forall|i: int, j: int| 0 <= i < j < s.len() ==> fm_le(#[trigger] s[i], #[trigger] s[j])
}

/// Every element of an insertion is the key or one of the old elements.
proof fn lemma_insert_elements(x: FileMatchView, s: Seq<FileMatchView>)
    ensures
        forall|k: int|
            0 <= k < insert_sorted(x, s).len() ==> (#[trigger] insert_sorted(x, s)[k]) == x
                || exists|j: int| 0 <= j < s.len() && insert_sorted(x, s)[k] == s[j],
    decreases s.len(),
{
    if s.len() > 0 && fm_le(s[0], x) {
        lemma_insert_elements(x, s.drop_first());
        let r = insert_sorted(x, s);
        let inner = insert_sorted(x, s.drop_first());
        assert forall|k: int| 0 <= k < r.len() implies (#[trigger] r[k]) == x || exists|j: int|
            0 <= j < s.len() && r[k] == s[j] by {
            if k == 0 {
                assert(r[k] == s[0]);
            } else {
                assert(r[k] == inner[k - 1]);
                if inner[k - 1] != x {
                    let j = choose|j: int|
                        0 <= j < s.drop_first().len() && inner[k - 1] == s.drop_first()[j];
                    assert(r[k] == s[j + 1]);
                }
            }
        }
    }
}

/// Inserting into a path-ordered sequence keeps it ordered.
proof fn lemma_insert_keeps_order(x: FileMatchView, s: Seq<FileMatchView>)
    requires
        sorted_by_path(s),
    ensures
        sorted_by_path(insert_sorted(x, s)),
    decreases s.len(),
{
    if s.len() == 0 {
    } else if fm_le(s[0], x) {
        assert(sorted_by_path(s.drop_first())) by {
            assert forall|i: int, j: int| 0 <= i < j < s.drop_first().len() implies fm_le(
                #[trigger] s.drop_first()[i],
                #[trigger] s.drop_first()[j],
            ) by {
                assert(s.drop_first()[i] == s[i + 1]);
                assert(s.drop_first()[j] == s[j + 1]);
            }
        }
        lemma_insert_keeps_order(x, s.drop_first());
        lemma_insert_elements(x, s.drop_first());
        let r = insert_sorted(x, s);
        let inner = insert_sorted(x, s.drop_first());
        assert forall|i: int, j: int| 0 <= i < j < r.len() implies fm_le(
            #[trigger] r[i],
            #[trigger] r[j],
        ) by {
            if i == 0 {
                assert(r[j] == inner[j - 1]);
                if inner[j - 1] == x {
                    assert(fm_le(s[0], x));
                } else {
                    let q = choose|q: int|
                        0 <= q < s.drop_first().len() && inner[j - 1] == s.drop_first()[q];
                    assert(inner[j - 1] == s[q + 1]);
                    assert(fm_le(s[0], s[q + 1]));
                }
            } else {
                assert(r[i] == inner[i - 1]);
                assert(r[j] == inner[j - 1]);
            }
        }
    } else {
        let r = insert_sorted(x, s);
        crate::strutil::lemma_chars_le_total(s[0].file, x.file);
        assert forall|i: int, j: int| 0 <= i < j < r.len() implies fm_le(
            #[trigger] r[i],
            #[trigger] r[j],
        ) by {
            if i == 0 {
                assert(r[j] == s[j - 1]);
                if j == 1 {
                    assert(fm_le(x, s[0]));
                } else {
                    assert(fm_le(s[0], s[j - 1]));
                    crate::strutil::lemma_chars_le_trans(x.file, s[0].file, s[j - 1].file);
                }
            } else {
                assert(r[i] == s[i - 1]);
                assert(r[j] == s[j - 1]);
            }
        }
    }
}

/// Sorting orders the per-file results by relative path.
pub proof fn lemma_sort_sorted(s: Seq<FileMatchView>)
    ensures
        sorted_by_path(sort_fms(s)),
    decreases s.len(),
{
    if s.len() > 0 {
        lemma_sort_sorted(s.drop_last());
        lemma_insert_keeps_order(s.last(), sort_fms(s.drop_last()));
    }
}

/// Every search result lists its per-file matches in non-decreasing
/// relative-path order, for any snapshot and any deadline outcome.
pub proof fn lemma_search_results_ordered(q: SearchQuery, entries: Seq<TreeEntry>, stopped: bool)
    ensures
        sorted_by_path(spec_search(q, entries, stopped).matches),
{
    lemma_sort_sorted(spec_scan(q, entries, entries.len() as int).fms);
}

/// Compare two per-file results by relative path.
fn fm_le_exec(a: &FileMatch, b: &FileMatch) -> (r: bool)
    ensures
        r == fm_le(a@, b@),
{
    let ca = chars_vec(a.file.as_str());
    let cb = chars_vec(b.file.as_str());
    chars_le_exec(&ca, &cb)
}

/// Insert one per-file result into an already sorted vector.
fn insert_by_path(v: &mut Vec<FileMatch>, x: FileMatch)
    ensures
        final(v)@.map_values(|f: FileMatch| f@) == insert_sorted(
            x@,
            old(v)@.map_values(|f: FileMatch| f@),
        ),
{
    let ghost s = v@.map_values(|f: FileMatch| f@);
    let ghost xv = x@;
    let mut p: usize = 0;
    while p < v.len() && fm_le_exec(&v[p], &x)
        invariant
            s == v@.map_values(|f: FileMatch| f@),
            xv == x@,
            p <= v@.len(),
            forall|q: int| 0 <= q < p ==> fm_le(#[trigger] s[q], xv),
        decreases v@.len() - p,
    {
        p = p + 1;
    }
    proof {
        lemma_insert_point(xv, s, p as int);
    }
    v.insert(p, x);
    proof {
        assert(v@.map_values(|f: FileMatch| f@) =~= s.take(p as int) + seq![xv] + s.skip(p as int));
    }
}

/// Sort per-file results by relative path, stably.
fn sort_by_path(v: Vec<FileMatch>) -> (r: Vec<FileMatch>)
    ensures
        r@.map_values(|f: FileMatch| f@) == sort_fms(v@.map_values(|f: FileMatch| f@)),
{
    let ghost orig = v@.map_values(|f: FileMatch| f@);
    let mut src = v;
    let mut out: Vec<FileMatch> = Vec::new();
    proof {
        assert(orig.take(0) =~= Seq::<FileMatchView>::empty());
    }
    while src.len() > 0
        invariant
            src@.map_values(|f: FileMatch| f@) == orig.skip(orig.len() - src@.len()),
            src@.len() <= orig.len(),
            out@.map_values(|f: FileMatch| f@) == sort_fms(orig.take(orig.len() - src@.len())),
        decreases src@.len(),
    {
        let ghost done = orig.len() - src@.len();
        let ghost srcv = src@.map_values(|f: FileMatch| f@);
        let x = src.remove(0);
        proof {
            assert(x@ == srcv[0]);
            assert(srcv[0] == orig[done]);
            assert(src@.map_values(|f: FileMatch| f@) =~= srcv.drop_first());
            assert(srcv.drop_first() =~= orig.skip(done + 1));
        }
        insert_by_path(&mut out, x);
        proof {
            assert(orig.take(done + 1).drop_last() =~= orig.take(done));
            assert(orig.take(done + 1).last() == orig[done]);
            assert(sort_fms(orig.take(done + 1)) == insert_sorted(
                orig[done],
                sort_fms(orig.take(done)),
            ));
        }
    }
    proof {
        assert(orig.take(orig.len() as int) =~= orig);
        assert(orig.skip(orig.len() - 0) =~= Seq::<FileMatchView>::empty());
    }
    out
}

/// A compiled search: the query together with its compiled content pattern
/// and file-name filter.
pub struct SearchEngine {
    /// The query this engine was built from.
    pub query: SearchQuery,
    pub matcher: Matcher,
    pub glob: GlobFilter,
}

impl SearchEngine {
    /// The compiled parts belong to the query: the matcher was built from
    /// the query's effective pattern and flag, the filter from its glob.
    pub closed spec fn wf(&self) -> bool {
        &&& self.matcher.pattern@ == effective_pattern(self.query)
        &&& self.matcher.ci == !self.query.case_sensitive
        &&& self.glob.pattern@ == self.query.file_pattern@
    }

    /// Compile a query: first the file-name filter, then the content
    /// pattern (escaped first for a literal query). Fails exactly when the
    /// glob or the effective pattern does not compile.
    pub fn new(query: SearchQuery) -> (r: Result<SearchEngine, SearchError>)
        ensures
            r matches Ok(e) ==> e.wf() && e.query == query,
            r is Ok <==> glob_accepts(query.file_pattern@) && regex_accepts(
                effective_pattern(query),
                !query.case_sensitive,
            ),
            r == Result::<SearchEngine, SearchError>::Err(SearchError::InvalidGlob)
                <==> !glob_accepts(query.file_pattern@),
            r == Result::<SearchEngine, SearchError>::Err(SearchError::InvalidPattern)
                <==> glob_accepts(query.file_pattern@) && !regex_accepts(
                effective_pattern(query),
                !query.case_sensitive,
            ),
    {
        let glob = match GlobFilter::new(&query.file_pattern) {
            Option::None => {
                return Result::Err(SearchError::InvalidGlob);
            },
            Option::Some(g) => g,
        };
        let eff = if query.is_regex {
            query.pattern.clone()
        } else {
            regex_escape(&query.pattern)
        };
        let ci = !query.case_sensitive;
        let matcher = match Matcher::new(&eff, ci) {
            Option::None => {
                return Result::Err(SearchError::InvalidPattern);
            },
            Option::Some(m) => m,
        };
        Result::Ok(SearchEngine { query, matcher, glob })
    }

    /// Decide whether a snapshot entry is a candidate for scanning.
    pub fn consider_entry(&self, e: &TreeEntry) -> (r: bool)
        requires
            self.wf(),
        ensures
            r == spec_selected(self.query, *e),
    {
        if !e.is_file {
            return false;
        }
        let name_len = e.name.as_str().unicode_len();
        if name_len > 0 && e.name.as_str().get_char(0) == '.' {
            return false;
        }
        if !self.query.recursive && e.depth > 1 {
            return false;
        }
        if !self.glob.matches_name(&e.name) {
            return false;
        }
        if e.size > self.query.max_file_size {
            return false;
        }
        true
    }

    /// Scan one file's bytes and report its matches, or nothing when no
    /// line matches.
    pub fn match_file(&self, rel_path: &String, data: &Vec<u8>) -> (r: Option<FileMatch>)
        requires
            self.wf(),
        ensures
            match r {
                Option::Some(fm) => fm@.file == rel_path@ && fm@.matches == spec_file_hits(
                    self.query,
                    data@,
                ) && fm@.matches.len() > 0,
                Option::None => spec_file_hits(self.query, data@).len() == 0,
            },
    {
        let lines = decode_lines(data);
        let hits = scan_lines(&lines, &self.matcher, self.query.context_lines);
        if hits.len() == 0 {
            Option::None
        } else {
            let fm = FileMatch { file: rel_path.clone(), matches: hits };
            proof {
                assert(fm@.matches =~= spec_file_hits(self.query, data@));
            }
            Option::Some(fm)
        }
    }

    /// Run the search over a snapshot of the tree: filter, classify, scan
    /// and aggregate, stopping early at the result cap or when the
    /// wall-clock deadline passes. Without a deadline stop the result is
    /// exactly the specified fold over the whole snapshot; with one, over
    /// the prefix that was reached.
    pub fn search(&self, entries: &Vec<TreeEntry>) -> (r: SearchResults)
        requires
            self.wf(),
            self.query.wf(),
        ensures
            !r.stopped_by_timeout ==> r@ == spec_search(self.query, entries@, false),
            r.stopped_by_timeout ==> exists|n: int|
                0 <= n < entries@.len() && r@ == spec_search(
                    self.query,
                    #[trigger] entries@.take(n),
                    true,
                ),
    {
        let clock = Stopwatch::start();
        let n = entries.len();
        let mut fms: Vec<FileMatch> = Vec::new();
        let mut searched: usize = 0;
        let mut total: usize = 0;
        let mut truncated = false;
        let mut stopped = false;
        let mut idx: usize = 0;
        while idx < n && !truncated && !stopped
            invariant
                n == entries@.len(),
                idx <= n,
                self.wf(),
                self.query.wf(),
                searched <= idx,
                stopped ==> idx < n,
                ({
                    let st = spec_scan(self.query, entries@, idx as int);
                    &&& searched == st.searched
                    &&& total as int == st.total
                    &&& truncated == st.truncated
                    &&& fms@.map_values(|f: FileMatch| f@) == st.fms
                }),
            decreases n - idx, (if stopped { 0int } else { 1int }),
        {
            if clock.elapsed_ms() >= self.query.timeout_ms {
                stopped = true;
            } else {
                let e = &entries[idx];
                if self.consider_entry(e) && entry_is_text(e) {
                    searched = searched + 1;
                    match self.match_file(&e.rel_path, &e.data) {
                        Option::None => {},
                        Option::Some(fm) => {
                            let hl = fm.matches.len();
                            let ghost prev = fms@.map_values(|f: FileMatch| f@);
                            fms.push(fm);
                            proof {
                                assert(fms@.map_values(|f: FileMatch| f@) =~= prev.push(
                                    FileMatchView {
                                        file: entries@[idx as int].rel_path@,
                                        matches: spec_file_hits(
                                            self.query,
                                            entries@[idx as int].data@,
                                        ),
                                    },
                                ));
                            }
                            total = if hl > usize::MAX - total {
                                usize::MAX
                            } else {
                                total + hl
                            };
                            if total >= self.query.max_results {
                                truncated = true;
                            }
                        },
                    }
                }
                idx = idx + 1;
            }
        }
        let sorted = sort_by_path(fms);
        let files_matched = sorted.len();
        let r = SearchResults {
            total_matches: total,
            files_searched: searched,
            files_matched,
            matches: sorted,
            truncated,
            stopped_by_timeout: stopped,
        };
        proof {
            let q = self.query;
            lemma_sort_len(spec_scan(q, entries@, idx as int).fms);
            if stopped {
                lemma_scan_take(q, entries@, idx as int, idx as int);
                assert(entries@.take(idx as int).len() == idx as int);
                assert(r@ =~= spec_search(q, entries@.take(idx as int), true));
                assert(exists|m: int|
                    0 <= m < entries@.len() && r@ == spec_search(q, #[trigger] entries@.take(m), true));
            } else {
                if idx < n {
                    lemma_scan_frozen(q, entries@, idx as int, n as int);
                }
                assert(r@ =~= spec_search(q, entries@, false));
            }
        }
        r
    }
}

/// Decide whether an entry's contents should be treated as text: the
/// extension denylist first, then the leading-bytes sample.
pub fn entry_is_text(e: &TreeEntry) -> (r: bool)
    ensures
        r == spec_text_entry(*e),
{
    if is_likely_binary_by_extension(e.name.as_str()) {
        return false;
    }
    let limit: usize = if e.data.len() < SAMPLE_LIMIT {
        e.data.len()
    } else {
        SAMPLE_LIMIT
    };
    let mut sample: Vec<u8> = Vec::new();
    proof {
        assert(e.data@.take(0) =~= Seq::<u8>::empty());
    }
    for i in 0..limit
        invariant
            limit <= e.data@.len(),
            sample@ == e.data@.take(i as int),
        decreases limit - i,
    {
        sample.push(e.data[i]);
        proof {
            assert(e.data@.take(i as int).push(e.data@[i as int]) =~= e.data@.take(i as int + 1));
        }
    }
    proof {
        assert(sample@ =~= sample_seq(e.data@));
    }
    is_text_bytes(&sample)
}

} // verus!
