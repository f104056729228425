//! Search hits: matched lines, their context windows, and the per-file and
//! aggregate result records.

use vstd::prelude::*;
use crate::pattern::{Matcher, regex_matches};

verus! {

/// One line of context around a match.
#[derive(Debug, PartialEq, Eq)]
pub struct Context {
    /// 1-based line number of this context line.
    pub line_number: usize,
    /// The text of the context line.
    pub content: String,
}

/// The mathematical shape of a context line.
#[verifier::ext_equal]
pub ghost struct ContextView {
    pub line_number: int,
    pub content: Seq<char>,
}

impl View for Context {
    type V = ContextView;

    open spec fn view(&self) -> ContextView {
        ContextView { line_number: self.line_number as int, content: self.content@ }
    }
}

/// One matched line, with its context window.
#[derive(Debug, PartialEq, Eq)]
pub struct Match {
    /// 1-based line number of the matched line.
    pub line_number: usize,
    /// The text of the matched line.
    pub line: String,
    /// Context lines around the match, in order of line number, never
    /// including the matched line itself.
    pub context: Vec<Context>,
}

/// The mathematical shape of a match.
#[verifier::ext_equal]
pub ghost struct MatchView {
    pub line_number: int,
    pub line: Seq<char>,
    pub context: Seq<ContextView>,
}

impl View for Match {
    type V = MatchView;

    open spec fn view(&self) -> MatchView {
        MatchView {
            line_number: self.line_number as int,
            line: self.line@,
            context: self.context@.map_values(|c: Context| c@),
        }
    }
}

/// All matches found in one file.
#[derive(Debug, PartialEq, Eq)]
pub struct FileMatch {
    /// The file's relative display path.
    pub file: String,
    /// Its matches, in order of line number.
    pub matches: Vec<Match>,
}

/// The mathematical shape of a file's matches.
#[verifier::ext_equal]
pub ghost struct FileMatchView {
    pub file: Seq<char>,
    pub matches: Seq<MatchView>,
}

impl View for FileMatch {
    type V = FileMatchView;

    open spec fn view(&self) -> FileMatchView {
        FileMatchView { file: self.file@, matches: self.matches@.map_values(|m: Match| m@) }
    }
}

/// The aggregate outcome of a search.
#[derive(Debug, PartialEq, Eq)]
pub struct SearchResults {
    /// How many matches were counted, over all reported files.
    pub total_matches: usize,
    /// How many files were actually scanned.
    pub files_searched: usize,
    /// How many files had at least one match.
    pub files_matched: usize,
    /// The per-file matches, ordered by relative path.
    pub matches: Vec<FileMatch>,
    /// The result cap cut collection short.
    pub truncated: bool,
    /// The deadline cut scanning short.
    pub stopped_by_timeout: bool,
}

/// The mathematical shape of a search result.
#[verifier::ext_equal]
pub ghost struct SearchResultsView {
    pub total_matches: int,
    pub files_searched: int,
    pub files_matched: int,
    pub matches: Seq<FileMatchView>,
    pub truncated: bool,
    pub stopped_by_timeout: bool,
}

impl View for SearchResults {
    type V = SearchResultsView;

    open spec fn view(&self) -> SearchResultsView {
        SearchResultsView {
            total_matches: self.total_matches as int,
            files_searched: self.files_searched as int,
            files_matched: self.files_matched as int,
            matches: self.matches@.map_values(|f: FileMatch| f@),
            truncated: self.truncated,
            stopped_by_timeout: self.stopped_by_timeout,
        }
    }
}

/// What decoding these bytes and splitting them into lines yields. The
/// decoder passes UTF-8 through and otherwise transcodes by sniffing, so
/// the lines are a function of the bytes alone.
pub uninterp spec fn decoded_lines(bytes: Seq<u8>) -> Seq<Seq<char>>;

/// Relies on encoding_rs_io's `DecodeReaderBytes`: decodes the bytes into
/// text, tolerating common encodings, and yields its lines; the result
/// depends on the bytes alone.
#[verifier::external_body]
pub(crate) fn decode_lines(bytes: &Vec<u8>) -> (r: Vec<String>)
    ensures
        r.deep_view() == decoded_lines(bytes@),
{
    let decoder = encoding_rs_io::DecodeReaderBytesBuilder::new().encoding(None).utf8_passthru(
        true,
    ).build(std::io::Cursor::new(bytes.as_slice()));
    let reader = std::io::BufReader::new(decoder);
    std::io::BufRead::lines(reader).filter_map(|l| l.ok()).collect()
}

/// The context window around line `idx`: up to `cl` lines on either side,
/// clamped to the file, the matched line itself left out.
pub open spec fn spec_context(lines: Seq<Seq<char>>, idx: int, cl: int) -> Seq<ContextView> {
    if cl <= 0 || lines.len() == 0 || !(0 <= idx < lines.len()) {
        Seq::empty()
    } else {
        let lo = if idx - cl >= 0 {
            idx - cl
        } else {
            0
        };
        let hi = if idx + cl <= lines.len() - 1 {
            idx + cl
        } else {
            lines.len() - 1
        };
        Seq::new(
            (idx - lo) as nat,
            |k: int| ContextView { line_number: lo + k + 1, content: lines[lo + k] },
        ) + Seq::new(
            (hi - idx) as nat,
            |k: int| ContextView { line_number: idx + 2 + k, content: lines[idx + 1 + k] },
        )
    }
}

/// Collect the context window around the matched line `line_idx`.
pub fn extract_context(lines: &Vec<String>, line_idx: usize, context_lines: usize) -> (r: Vec<
    Context,
>)
    requires
        line_idx < lines@.len(),
    ensures
        r@.map_values(|c: Context| c@) == spec_context(
            lines.deep_view(),
            line_idx as int,
            context_lines as int,
        ),
        forall|k: int|
            0 <= k < r@.len() ==> (#[trigger] r@[k])@.line_number != line_idx + 1 && 1 <= r@[k]@.line_number
                <= lines@.len(),
{
    let ghost dv = lines.deep_view();
    let mut r: Vec<Context> = Vec::new();
    if context_lines == 0 {
        proof {
            assert(r@.map_values(|c: Context| c@) =~= spec_context(dv, line_idx as int, context_lines as int));
        }
        return r;
    }
    let lo: usize = if line_idx >= context_lines {
        line_idx - context_lines
    } else {
        0
    };
    let rem: usize = lines.len() - 1 - line_idx;
    let hi: usize = if context_lines >= rem {
        lines.len() - 1
    } else {
        line_idx + context_lines
    };
    proof {
        assert(dv.len() == lines@.len());
    }
    for i in lo..line_idx
        invariant
            dv == lines.deep_view(),
            dv.len() == lines@.len(),
            lo <= i <= line_idx < lines@.len(),
            lo == if line_idx - context_lines >= 0 {
                line_idx - context_lines
            } else {
                0
            },
            context_lines > 0,
            r@.map_values(|c: Context| c@) =~= Seq::new(
                (i - lo) as nat,
                |k: int| ContextView { line_number: lo + k + 1, content: dv[lo + k] },
            ),
            forall|k: int|
                0 <= k < r@.len() ==> (#[trigger] r@[k])@.line_number != line_idx + 1 && 1 <= r@[k]@.line_number
                    <= lines@.len(),
        decreases line_idx - i,
    {
        let ghost prev = r@.map_values(|c: Context| c@);
        r.push(Context { line_number: i + 1, content: lines[i].clone() });
        proof {
            assert(r@.map_values(|c: Context| c@) =~= prev.push(
                ContextView { line_number: i as int + 1, content: dv[i as int] },
            ));
            assert(r@.map_values(|c: Context| c@) =~= Seq::new(
                (i + 1 - lo) as nat,
                |k: int| ContextView { line_number: lo + k + 1, content: dv[lo + k] },
            ));
        }
    }
    let ghost before = Seq::new(
        (line_idx - lo) as nat,
        |k: int| ContextView { line_number: lo as int + k + 1, content: dv[lo as int + k] },
    );
    proof {
        assert(r@.map_values(|c: Context| c@) =~= before);
    }
    let n_len: usize = lines.len();
    let mut j: usize = line_idx + 1;
    while j <= hi
        invariant
            dv == lines.deep_view(),
            dv.len() == lines@.len(),
            n_len == lines@.len(),
            line_idx < j <= hi + 1,
            hi < n_len,
            line_idx < lines@.len(),
            before == Seq::new(
                (line_idx - lo) as nat,
                |k: int| ContextView { line_number: lo as int + k + 1, content: dv[lo as int + k] },
            ),
            lo <= line_idx,
            r@.map_values(|c: Context| c@) =~= before + Seq::new(
                (j - line_idx - 1) as nat,
                |k: int| ContextView { line_number: line_idx + 2 + k, content: dv[line_idx + 1 + k] },
            ),
            forall|k: int|
                0 <= k < r@.len() ==> (#[trigger] r@[k])@.line_number != line_idx + 1 && 1 <= r@[k]@.line_number
                    <= lines@.len(),
        decreases hi + 1 - j,
    {
        let ghost prev = r@.map_values(|c: Context| c@);
        r.push(Context { line_number: j + 1, content: lines[j].clone() });
        proof {
            assert(r@.map_values(|c: Context| c@) =~= prev.push(
                ContextView { line_number: j as int + 1, content: dv[j as int] },
            ));
            assert(r@.map_values(|c: Context| c@) =~= before + Seq::new(
                (j + 1 - line_idx - 1) as nat,
                |k: int| ContextView { line_number: line_idx + 2 + k, content: dv[line_idx + 1 + k] },
            ));
        }
        j = j + 1;
    }
    proof {
        let cl = context_lines as int;
        let idx = line_idx as int;
        let slo = if idx - cl >= 0 {
            idx - cl
        } else {
            0
        };
        let shi = if idx + cl <= dv.len() - 1 {
            idx + cl
        } else {
            dv.len() - 1
        };
        assert(slo == lo as int);
        assert(shi == hi as int);
        assert(r@.map_values(|c: Context| c@) =~= spec_context(dv, idx, cl));
    }
    r
}


/// The matches among `lines` from line `i` on: one entry per line the
/// pattern matches, carrying the 1-based line number, the line itself, and
/// its context window.
pub open spec fn spec_hits(
    lines: Seq<Seq<char>>,
    pat: Seq<char>,
    ci: bool,
    cl: int,
    i: int,
) -> Seq<MatchView>
    decreases lines.len() - i,
{
    if i < 0 || i >= lines.len() {
        Seq::empty()
    } else {
        let rest = spec_hits(lines, pat, ci, cl, i + 1);
        if regex_matches(pat, ci, lines[i]) {
            seq![
                MatchView { line_number: i + 1, line: lines[i], context: spec_context(lines, i, cl) },
            ] + rest
        } else {
            rest
        }
    }
}

/// Scan every line against the compiled pattern and collect the matches
/// with their context windows.
pub(crate) fn scan_lines(lines: &Vec<String>, m: &Matcher, context_lines: usize) -> (r: Vec<Match>)
    ensures
        r@.map_values(|x: Match| x@) == spec_hits(
            lines.deep_view(),
            m.pattern@,
            m.ci,
            context_lines as int,
            0,
        ),
{
    let ghost dv = lines.deep_view();
    let ghost full = spec_hits(dv, m.pattern@, m.ci, context_lines as int, 0);
    let mut r: Vec<Match> = Vec::new();
    proof {
        assert(Seq::<MatchView>::empty() + full =~= full);
    }
    let n = lines.len();
    for i in 0..n
        invariant
            dv == lines.deep_view(),
            n == lines@.len(),
            dv.len() == n,
            full == spec_hits(dv, m.pattern@, m.ci, context_lines as int, 0),
            full == r@.map_values(|x: Match| x@) + spec_hits(
                dv,
                m.pattern@,
                m.ci,
                context_lines as int,
                i as int,
            ),
        decreases n - i,
    {
        proof {
            assert(dv[i as int] == lines@[i as int]@);
        }
        if m.is_match(&lines[i]) {
            let ctx = extract_context(lines, i, context_lines);
            let ghost prev = r@.map_values(|x: Match| x@);
            let ghost mv = MatchView {
                line_number: i as int + 1,
                line: dv[i as int],
                context: spec_context(dv, i as int, context_lines as int),
            };
            r.push(Match { line_number: i + 1, line: lines[i].clone(), context: ctx });
            proof {
                assert(r@.map_values(|x: Match| x@) =~= prev.push(mv));
                assert(spec_hits(dv, m.pattern@, m.ci, context_lines as int, i as int) == seq![mv]
                    + spec_hits(dv, m.pattern@, m.ci, context_lines as int, i as int + 1));
                assert(prev + (seq![mv] + spec_hits(
                    dv,
                    m.pattern@,
                    m.ci,
                    context_lines as int,
                    i as int + 1,
                )) =~= prev.push(mv) + spec_hits(dv, m.pattern@, m.ci, context_lines as int, i as int + 1));
            }
        }
    }
    proof {
        assert(spec_hits(dv, m.pattern@, m.ci, context_lines as int, n as int) =~= Seq::<MatchView>::empty());
        assert(r@.map_values(|x: Match| x@) + Seq::<MatchView>::empty() =~= r@.map_values(
            |x: Match| x@,
        ));
    }
    r
}


/// Context windows never include the matched line itself and never reach
/// outside the file: every context line number is between 1 and the line
/// count, and differs from the matched line's own number.
pub proof fn lemma_context_in_bounds(lines: Seq<Seq<char>>, idx: int, cl: int)
    ensures
        forall|k: int|
            0 <= k < spec_context(lines, idx, cl).len() ==> {
                let c = #[trigger] spec_context(lines, idx, cl)[k];
                c.line_number != idx + 1 && 1 <= c.line_number <= lines.len()
            },
{
}


/// Matches are reported in strictly increasing line-number order, and every
/// reported line number names a line of the file.
pub proof fn lemma_hits_line_order(lines: Seq<Seq<char>>, pat: Seq<char>, ci: bool, cl: int, i: int)
    ensures
        ({
            let hs = spec_hits(lines, pat, ci, cl, i);
            &&& forall|k: int|
                0 <= k < hs.len() ==> i + 1 <= (#[trigger] hs[k]).line_number <= lines.len()
            &&& forall|k: int, l: int|
                0 <= k < l < hs.len() ==> hs[k].line_number < hs[l].line_number
        }),
    decreases lines.len() - i,
{
    if 0 <= i < lines.len() {
        lemma_hits_line_order(lines, pat, ci, cl, i + 1);
        let hs = spec_hits(lines, pat, ci, cl, i);
        let rest = spec_hits(lines, pat, ci, cl, i + 1);
        if regex_matches(pat, ci, lines[i]) {
            assert forall|k: int|
                0 <= k < hs.len() implies i + 1 <= (#[trigger] hs[k]).line_number
                <= lines.len() by {
                if k > 0 {
                    assert(hs[k] == rest[k - 1]);
                }
            }
            assert forall|k: int, l: int|
                0 <= k < l < hs.len() implies hs[k].line_number < hs[l].line_number by {
                assert(hs[l] == rest[l - 1]);
                if k > 0 {
                    assert(hs[k] == rest[k - 1]);
                }
            }
        } else {
            assert forall|k: int|
                0 <= k < hs.len() implies i + 1 <= (#[trigger] hs[k]).line_number
                <= lines.len() by {
                assert(hs[k] == rest[k]);
            }
        }
    }
}

} // verus!
