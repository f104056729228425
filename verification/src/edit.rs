//! In-memory edit operations on text: replacing occurrences of a substring,
//! inserting at a position, deleting a range, and replacing a range of
//! lines. Positions and ranges are counted in characters.

use vstd::prelude::*;
use vstd::string::StrSliceExecFns;
use vstd::string::StringExecFns;
use crate::strutil::{chars_vec, spec_lines, lines_of};

verus! {

/// One edit operation to apply to a file's content.
#[derive(Debug, Clone, PartialEq, Eq)]
pub enum EditOperation {
    /// Replace the `occurrence`-th occurrence of `find` (0-based, counted
    /// left to right without overlap), or every occurrence when
    /// `occurrence` is -1.
    Replace { find: String, replace: String, occurrence: i32, case_sensitive: bool },
    /// Insert `content` at character position `position`.
    Insert { position: usize, content: String },
    /// Delete characters from `start` (inclusive) to `end` (exclusive).
    Delete { start: usize, end: usize },
    /// Replace lines `start_line` through `end_line` (0-based, inclusive)
    /// with `content`.
    ReplaceLines { start_line: usize, end_line: usize, content: String },
}

/// Why an edit operation was refused. The content is left unchanged.
#[derive(Debug, Clone, Copy, PartialEq, Eq)]
pub enum EditError {
    /// The string to find is empty.
    EmptyFind,
    /// The string to find occurs nowhere.
    NotFound,
    /// The string to find occurs, but not often enough for the requested
    /// occurrence; or the requested occurrence is negative and not -1.
    OccurrenceNotFound,
    /// The insert position is past the end of the content.
    PositionPastEnd,
    /// The delete range starts at or past the end of the content.
    StartPastEnd,
    /// The delete range ends past the end of the content.
    EndPastEnd,
    /// The delete range is empty or inverted.
    EmptyRange,
    /// The line range is inverted.
    LineRangeInverted,
    /// The first line to replace is past the last line.
    LineStartPastEnd,
}

/// Whether a textual find defaults to exact case.
pub fn default_case_sensitive() -> (r: bool)
    ensures
        r == true,
{
    true
}

/// What `str::to_lowercase` returns for a string with these characters.
pub uninterp spec fn lower_of(s: Seq<char>) -> Seq<char>;

/// Relies on `str::to_lowercase`: the result depends on the input
/// characters alone.
#[verifier::external_body]
fn lower_str(s: &str) -> (r: String)
    ensures
        r@ == lower_of(s@),
{
    s.to_lowercase()
}

/// `f` occurs in `s` at position `i`: exactly when `ci` is false, up to
/// lower-case folding when `ci` is true.
pub open spec fn occ_match(s: Seq<char>, f: Seq<char>, i: int, ci: bool) -> bool {
    &&& 0 <= i
    &&& i + f.len() <= s.len()
    &&& if ci {
        lower_of(s.subrange(i, i + f.len())) == lower_of(f)
    } else {
        s.subrange(i, i + f.len()) == f
    }
}

/// The first position at or after `i` where `f` occurs in `s`.
pub open spec fn first_occ_from(s: Seq<char>, f: Seq<char>, i: int, ci: bool) -> Option<int>
    decreases s.len() - i,
{
    if f.len() <= 0 || i < 0 || i + f.len() > s.len() {
        Option::None
    } else if occ_match(s, f, i, ci) {
        Option::Some(i)
    } else {
        first_occ_from(s, f, i + 1, ci)
    }
}

/// A found occurrence lies within bounds.
proof fn lemma_first_occ_bounds(s: Seq<char>, f: Seq<char>, i: int, ci: bool)
    requires
        first_occ_from(s, f, i, ci) is Some,
    ensures
        ({
            let p = first_occ_from(s, f, i, ci)->Some_0;
            i <= p && p + f.len() <= s.len()
        }),
    decreases s.len() - i,
{
    if !(f.len() <= 0 || i < 0 || i + f.len() > s.len()) && !occ_match(s, f, i, ci) {
        lemma_first_occ_bounds(s, f, i + 1, ci);
    }
}

/// The suffix of `s` from position `i`, with every occurrence of `f` at or
/// after `i` (scanning left to right without overlap) replaced by `r`.
pub open spec fn replace_from(s: Seq<char>, f: Seq<char>, r: Seq<char>, i: int, ci: bool) -> Seq<char>
    decreases s.len() - i,
{
    if i < 0 {
        Seq::empty()
    } else if f.len() <= 0 || i + f.len() > s.len() {
        s.skip(i)
    } else if occ_match(s, f, i, ci) {
        r + replace_from(s, f, r, i + f.len(), ci)
    } else {
        seq![s[i]] + replace_from(s, f, r, i + 1, ci)
    }
}

/// The suffix of `s` from position `i` with the `k`-th occurrence of `f` at
/// or after `i` replaced by `r`, or nothing when fewer than `k + 1`
/// occurrences remain.
pub open spec fn replace_kth_from(
    s: Seq<char>,
    f: Seq<char>,
    r: Seq<char>,
    i: int,
    k: int,
    ci: bool,
) -> Option<Seq<char>>
    decreases s.len() - i,
{
    if f.len() <= 0 || i < 0 || i + f.len() > s.len() {
        Option::None
    } else if occ_match(s, f, i, ci) {
        if k <= 0 {
            Option::Some(r + s.skip(i + f.len()))
        } else {
            match replace_kth_from(s, f, r, i + f.len(), k - 1, ci) {
                Option::None => Option::None,
                Option::Some(t) => Option::Some(s.subrange(i, i + f.len()) + t),
            }
        }
    } else {
        match replace_kth_from(s, f, r, i + 1, k, ci) {
            Option::None => Option::None,
            Option::Some(t) => Option::Some(seq![s[i]] + t),
        }
    }
}

/// The outcome of a replace operation on content `s`.
pub open spec fn replace_spec(
    s: Seq<char>,
    f: Seq<char>,
    r: Seq<char>,
    occurrence: int,
    ci: bool,
) -> Result<Seq<char>, EditError> {
    if f.len() == 0 {
        Result::Err(EditError::EmptyFind)
    } else if occurrence == -1 {
        if first_occ_from(s, f, 0, ci) is None {
            Result::Err(EditError::NotFound)
        } else {
            Result::Ok(replace_from(s, f, r, 0, ci))
        }
    } else if occurrence < 0 {
        Result::Err(EditError::OccurrenceNotFound)
    } else {
        match replace_kth_from(s, f, r, 0, occurrence, ci) {
            Option::None => Result::Err(EditError::OccurrenceNotFound),
            Option::Some(t) => Result::Ok(t),
        }
    }
}

/// The outcome of an insert operation on content `s`.
pub open spec fn insert_spec(s: Seq<char>, position: int, ins: Seq<char>) -> Result<
    Seq<char>,
    EditError,
> {
    if position > s.len() {
        Result::Err(EditError::PositionPastEnd)
    } else {
        Result::Ok(s.take(position) + ins + s.skip(position))
    }
}

/// The outcome of a delete operation on content `s`.
pub open spec fn delete_spec(s: Seq<char>, start: int, end: int) -> Result<Seq<char>, EditError> {
    if start >= s.len() {
        Result::Err(EditError::StartPastEnd)
    } else if end > s.len() {
        Result::Err(EditError::EndPastEnd)
    } else if start >= end {
        Result::Err(EditError::EmptyRange)
    } else {
        Result::Ok(s.take(start) + s.skip(end))
    }
}

/// The first `parts.len()` lines each followed by a newline.
pub open spec fn join_head(parts: Seq<Seq<char>>) -> Seq<char>
    decreases parts.len(),
{
    if parts.len() == 0 {
        Seq::empty()
    } else {
        join_head(parts.drop_last()) + parts.last() + seq!['\n']
    }
}

/// The lines from index `i` on, separated by newlines, with no trailing
/// newline.
pub open spec fn join_tail(parts: Seq<Seq<char>>, i: int) -> Seq<char>
    decreases parts.len() - i,
{
    if i < 0 || i >= parts.len() {
        Seq::empty()
    } else if i == parts.len() - 1 {
        parts[i]
    } else {
        parts[i] + seq!['\n'] + join_tail(parts, i + 1)
    }
}

/// The outcome of a replace-lines operation on content `s`: the lines
/// before the range, the replacement (followed by a newline when it does
/// not bring its own and lines follow), and the lines after the range;
/// a trailing newline is dropped again when the range ran to the last line
/// of a content that did not end in a newline.
pub open spec fn replace_lines_spec(
    s: Seq<char>,
    start_line: int,
    end_line: int,
    repl: Seq<char>,
) -> Result<Seq<char>, EditError> {
    if start_line > end_line {
        Result::Err(EditError::LineRangeInverted)
    } else {
        let ls = spec_lines(s);
        if start_line >= ls.len() {
            Result::Err(EditError::LineStartPastEnd)
        } else {
            let eff = if end_line < ls.len() - 1 {
                end_line
            } else {
                ls.len() - 1
            };
            let mid_nl: Seq<char> = if !(repl.len() > 0 && repl.last() == '\n') && eff < ls.len()
                - 1 {
                seq!['\n']
            } else {
                Seq::empty()
            };
            let candidate = join_head(ls.take(start_line)) + repl + mid_nl + join_tail(ls, eff + 1);
            if !(s.len() > 0 && s.last() == '\n') && eff == ls.len() - 1 && candidate.len() > 0
                && candidate.last() == '\n' {
                Result::Ok(candidate.drop_last())
            } else {
                Result::Ok(candidate)
            }
        }
    }
}

/// The outcome of any single edit operation on content `s`.
pub open spec fn spec_apply(op: EditOperation, s: Seq<char>) -> Result<Seq<char>, EditError> {
    match op {
        EditOperation::Replace { find, replace, occurrence, case_sensitive } => replace_spec(
            s,
            find@,
            replace@,
            occurrence as int,
            !case_sensitive,
        ),
        EditOperation::Insert { position, content } => insert_spec(s, position as int, content@),
        EditOperation::Delete { start, end } => delete_spec(s, start as int, end as int),
        EditOperation::ReplaceLines { start_line, end_line, content } => replace_lines_spec(
            s,
            start_line as int,
            end_line as int,
            content@,
        ),
    }
}

/// Decide whether `f` occurs at position `i` of the content.
fn occ_match_at(
    content: &String,
    cs: &Vec<char>,
    find: &String,
    fs: &Vec<char>,
    low_find: &String,
    ci: bool,
    i: usize,
) -> (r: bool)
    requires
        cs@ == content@,
        fs@ == find@,
        i + fs@.len() <= cs@.len(),
        ci ==> low_find@ == lower_of(find@),
    ensures
        r == occ_match(content@, find@, i as int, ci),
{
    let n = cs.len();
    let m = fs.len();
    if ci {
        let w = content.as_str().substring_char(i, i + m);
        let lw = lower_str(w);
        let r = lw == *low_find;
        proof {
            assert(w@ == content@.subrange(i as int, i as int + find@.len()));
        }
        r
    } else {
        for j in 0..m
            invariant
                !ci,
                cs@ == content@,
                fs@ == find@,
                n == cs@.len(),
                m == fs@.len(),
                i + m <= n,
                forall|q: int| 0 <= q < j ==> cs@[i + q] == fs@[q],
            decreases m - j,
        {
            if cs[i + j] != fs[j] {
                proof {
                    let sub = content@.subrange(i as int, i as int + find@.len());
                    assert(sub[j as int] == cs@[i + j as int]);
                    if sub == find@ {
                        assert(sub[j as int] == find@[j as int]);
                        assert(false);
                    }
                }
                return false;
            }
        }
        proof {
            assert(content@.subrange(i as int, i as int + find@.len()) =~= find@);
        }
        true
    }
}

/// Find the first occurrence of `f` in the content.
fn find_first(
    content: &String,
    cs: &Vec<char>,
    find: &String,
    fs: &Vec<char>,
    low_find: &String,
    ci: bool,
) -> (r: Option<usize>)
    requires
        cs@ == content@,
        fs@ == find@,
        fs@.len() > 0,
        ci ==> low_find@ == lower_of(find@),
    ensures
        match r {
            Option::Some(p) => first_occ_from(content@, find@, 0, ci) == Option::Some(p as int),
            Option::None => first_occ_from(content@, find@, 0, ci) is None,
        },
{
    let n = cs.len();
    let m = fs.len();
    if m > n {
        return Option::None;
    }
    let mut i: usize = 0;
    while i <= n - m
        invariant
            cs@ == content@,
            fs@ == find@,
            n == cs@.len(),
            m == fs@.len(),
            0 < m <= n,
            i <= n,
            ci ==> low_find@ == lower_of(find@),
            first_occ_from(content@, find@, 0, ci) == first_occ_from(content@, find@, i as int, ci),
        decreases n - i,
    {
        if occ_match_at(content, cs, find, fs, low_find, ci, i) {
            return Option::Some(i);
        }
        i = i + 1;
    }
    Option::None
}

/// Replace occurrences of `find` in the content.
fn do_replace(
    content: &String,
    find: &String,
    replace: &String,
    occurrence: i32,
    case_sensitive: bool,
) -> (r: Result<String, EditError>)
    ensures
        match replace_spec(content@, find@, replace@, occurrence as int, !case_sensitive) {
            Result::Ok(s) => r matches Ok(out) && out@ == s,
            Result::Err(e) => r == Result::<String, EditError>::Err(e),
        },
{
    let cs = chars_vec(content.as_str());
    let fs = chars_vec(find.as_str());
    let n = cs.len();
    let m = fs.len();
    if m == 0 {
        return Result::Err(EditError::EmptyFind);
    }
    let ci = !case_sensitive;
    let low_find = if ci {
        lower_str(find.as_str())
    } else {
        find.clone()
    };
    if occurrence == -1 {
        match find_first(content, &cs, find, &fs, &low_find, ci) {
            Option::None => {
                return Result::Err(EditError::NotFound);
            },
            Option::Some(_) => {},
        }
        proof {
            lemma_first_occ_bounds(content@, find@, 0, ci);
        }
        let mut out = String::new();
        let mut i: usize = 0;
        proof {
            assert(Seq::<char>::empty() + replace_from(content@, find@, replace@, 0, ci)
                =~= replace_from(content@, find@, replace@, 0, ci));
        }
        while i <= n - m
            invariant
                cs@ == content@,
                fs@ == find@,
                n == cs@.len(),
                m == fs@.len(),
                0 < m <= n,
                i <= n,
                ci ==> low_find@ == lower_of(find@),
                replace_from(content@, find@, replace@, 0, ci) == out@ + replace_from(
                    content@,
                    find@,
                    replace@,
                    i as int,
                    ci,
                ),
            decreases n - i,
        {
            if occ_match_at(content, &cs, find, &fs, &low_find, ci, i) {
                let ghost prev = out@;
                out.append(replace.as_str());
                proof {
                    assert(replace_from(content@, find@, replace@, i as int, ci) == replace@
                        + replace_from(content@, find@, replace@, i as int + m as int, ci));
                    assert(prev + (replace@ + replace_from(
                        content@,
                        find@,
                        replace@,
                        i as int + m as int,
                        ci,
                    )) =~= (prev + replace@) + replace_from(
                        content@,
                        find@,
                        replace@,
                        i as int + m as int,
                        ci,
                    ));
                }
                i = i + m;
            } else {
                let ghost prev = out@;
                out.append(content.as_str().substring_char(i, i + 1));
                proof {
                    assert(content@.subrange(i as int, i as int + 1) =~= seq![content@[i as int]]);
                    assert(replace_from(content@, find@, replace@, i as int, ci) == seq![
                        content@[i as int],
                    ] + replace_from(content@, find@, replace@, i as int + 1, ci));
                    assert(prev + (seq![content@[i as int]] + replace_from(
                        content@,
                        find@,
                        replace@,
                        i as int + 1,
                        ci,
                    )) =~= (prev + seq![content@[i as int]]) + replace_from(
                        content@,
                        find@,
                        replace@,
                        i as int + 1,
                        ci,
                    ));
                }
                i = i + 1;
            }
        }
        let ghost prev = out@;
        out.append(content.as_str().substring_char(i, n));
        proof {
            assert(replace_from(content@, find@, replace@, i as int, ci) == content@.skip(i as int));
            assert(content@.subrange(i as int, n as int) =~= content@.skip(i as int));
            assert(out@ == prev + content@.skip(i as int));
        }
        Result::Ok(out)
    } else if occurrence < 0 {
        Result::Err(EditError::OccurrenceNotFound)
    } else {
        if m > n {
            return Result::Err(EditError::OccurrenceNotFound);
        }
        let ghost k0 = occurrence as int;
        let mut remaining: u32 = occurrence as u32;
        let mut i: usize = 0;
        proof {
            assert(content@.take(0) =~= Seq::<char>::empty());
            match replace_kth_from(content@, find@, replace@, 0, k0, ci) {
                Option::Some(t) => {
                    assert(content@.take(0) + t =~= t);
                },
                Option::None => {},
            }
        }
        loop
            invariant
                cs@ == content@,
                fs@ == find@,
                n == cs@.len(),
                m == fs@.len(),
                0 < m <= n,
                i <= n,
                ci == !case_sensitive,
                ci ==> low_find@ == lower_of(find@),
                occurrence >= 0,
                k0 == occurrence as int,
                match replace_kth_from(content@, find@, replace@, i as int, remaining as int, ci) {
                    Option::None => replace_kth_from(content@, find@, replace@, 0, k0, ci) is None,
                    Option::Some(t) => replace_kth_from(content@, find@, replace@, 0, k0, ci)
                        == Option::Some(content@.take(i as int) + t),
                },
            decreases n - i,
        {
            if i > n - m {
                proof {
                    assert(replace_kth_from(content@, find@, replace@, i as int, remaining as int, ci) is None);
                }
                return Result::Err(EditError::OccurrenceNotFound);
            }
            if occ_match_at(content, &cs, find, &fs, &low_find, ci, i) {
                if remaining == 0 {
                    let mut out = String::from_str(content.as_str().substring_char(0, i));
                    out.append(replace.as_str());
                    out.append(content.as_str().substring_char(i + m, n));
                    proof {
                        assert(replace_kth_from(content@, find@, replace@, i as int, 0, ci)
                            == Option::Some(replace@ + content@.skip(i as int + m as int)));
                        assert(content@.subrange(i as int + m as int, n as int) =~= content@.skip(
                            i as int + m as int,
                        ));
                        assert(out@ =~= content@.take(i as int) + (replace@ + content@.skip(
                            i as int + m as int,
                        )));
                    }
                    return Result::Ok(out);
                } else {
                    proof {
                        let t_next = replace_kth_from(
                            content@,
                            find@,
                            replace@,
                            i as int + m as int,
                            remaining as int - 1,
                            ci,
                        );
                        match t_next {
                            Option::None => {},
                            Option::Some(t) => {
                                assert(replace_kth_from(
                                    content@,
                                    find@,
                                    replace@,
                                    i as int,
                                    remaining as int,
                                    ci,
                                ) == Option::Some(content@.subrange(i as int, i as int + m as int) + t));
                                assert(content@.take(i as int) + (content@.subrange(
                                    i as int,
                                    i as int + m as int,
                                ) + t) =~= content@.take(i as int + m as int) + t);
                            },
                        }
                    }
                    remaining = remaining - 1;
                    i = i + m;
                }
            } else {
                proof {
                    let t_next = replace_kth_from(
                        content@,
                        find@,
                        replace@,
                        i as int + 1,
                        remaining as int,
                        ci,
                    );
                    match t_next {
                        Option::None => {},
                        Option::Some(t) => {
                            assert(replace_kth_from(
                                content@,
                                find@,
                                replace@,
                                i as int,
                                remaining as int,
                                ci,
                            ) == Option::Some(seq![content@[i as int]] + t));
                            assert(content@.take(i as int) + (seq![content@[i as int]] + t)
                                =~= content@.take(i as int + 1) + t);
                        },
                    }
                }
                i = i + 1;
            }
        }
    }
}

/// Insert text at a character position of the content.
fn do_insert(content: &String, position: usize, ins: &String) -> (r: Result<String, EditError>)
    ensures
        match insert_spec(content@, position as int, ins@) {
            Result::Ok(s) => r matches Ok(out) && out@ == s,
            Result::Err(e) => r == Result::<String, EditError>::Err(e),
        },
{
    let n = content.as_str().unicode_len();
    if position > n {
        return Result::Err(EditError::PositionPastEnd);
    }
    let mut out = String::from_str(content.as_str().substring_char(0, position));
    out.append(ins.as_str());
    out.append(content.as_str().substring_char(position, n));
    proof {
        assert(content@.subrange(0, position as int) =~= content@.take(position as int));
        assert(content@.subrange(position as int, n as int) =~= content@.skip(position as int));
    }
    Result::Ok(out)
}

/// Delete a character range of the content.
fn do_delete(content: &String, start: usize, end: usize) -> (r: Result<String, EditError>)
    ensures
        match delete_spec(content@, start as int, end as int) {
            Result::Ok(s) => r matches Ok(out) && out@ == s,
            Result::Err(e) => r == Result::<String, EditError>::Err(e),
        },
{
    let n = content.as_str().unicode_len();
    if start >= n {
        return Result::Err(EditError::StartPastEnd);
    }
    if end > n {
        return Result::Err(EditError::EndPastEnd);
    }
    if start >= end {
        return Result::Err(EditError::EmptyRange);
    }
    let mut out = String::from_str(content.as_str().substring_char(0, start));
    out.append(content.as_str().substring_char(end, n));
    proof {
        assert(content@.subrange(0, start as int) =~= content@.take(start as int));
        assert(content@.subrange(end as int, n as int) =~= content@.skip(end as int));
    }
    Result::Ok(out)
}

/// Replace a range of lines of the content.
fn do_replace_lines(
    content: &String,
    start_line: usize,
    end_line: usize,
    repl: &String,
) -> (r: Result<String, EditError>)
    ensures
        match replace_lines_spec(content@, start_line as int, end_line as int, repl@) {
            Result::Ok(s) => r matches Ok(out) && out@ == s,
            Result::Err(e) => r == Result::<String, EditError>::Err(e),
        },
{
    if start_line > end_line {
        return Result::Err(EditError::LineRangeInverted);
    }
    let lines = lines_of(content.as_str());
    let count = lines.len();
    if start_line >= count {
        return Result::Err(EditError::LineStartPastEnd);
    }
    let ghost lsdv = lines.deep_view();
    let eff: usize = if end_line < count - 1 {
        end_line
    } else {
        count - 1
    };
    let mut out = String::new();
    proof {
        reveal_strlit("\n");
        assert(lsdv.take(0) =~= Seq::<Seq<char>>::empty());
    }
    for i in 0..start_line
        invariant
            lsdv == lines.deep_view(),
            count == lsdv.len(),
            start_line < count,
            out@ == join_head(lsdv.take(i as int)),
        decreases start_line - i,
    {
        out.append(lines[i].as_str());
        out.append("\n");
        proof {
            reveal_strlit("\n");
            assert("\n"@ =~= seq!['\n']);
            assert(lsdv.take(i as int + 1).drop_last() =~= lsdv.take(i as int));
            assert(lsdv.take(i as int + 1).last() == lsdv[i as int]);
        }
    }
    out.append(repl.as_str());
    let repl_n = repl.as_str().unicode_len();
    let repl_ends_nl = repl_n > 0 && repl.as_str().get_char(repl_n - 1) == '\n';
    proof {
        assert(repl_ends_nl == (repl@.len() > 0 && repl@.last() == '\n'));
    }
    if !repl_ends_nl && eff < count - 1 {
        out.append("\n");
        proof {
            reveal_strlit("\n");
            assert("\n"@ =~= seq!['\n']);
        }
    }
    let ghost mid_nl: Seq<char> = if !(repl@.len() > 0 && repl@.last() == '\n') && eff < count - 1 {
        seq!['\n']
    } else {
        Seq::<char>::empty()
    };
    let ghost candidate = join_head(lsdv.take(start_line as int)) + repl@ + mid_nl + join_tail(
        lsdv,
        eff as int + 1,
    );
    proof {
        if !(eff as int + 1 < lsdv.len()) {
            assert(join_tail(lsdv, eff as int + 1) =~= Seq::<char>::empty());
        }
        assert(out@ + join_tail(lsdv, eff as int + 1) =~= candidate);
    }
    let mut i: usize = eff + 1;
    while i < count
        invariant
            lsdv == lines.deep_view(),
            count == lsdv.len(),
            eff < count,
            eff as int + 1 <= i <= count,
            candidate == out@ + join_tail(lsdv, i as int),
        decreases count - i,
    {
        let ghost prev = out@;
        out.append(lines[i].as_str());
        if i < count - 1 {
            out.append("\n");
            proof {
                reveal_strlit("\n");
                assert("\n"@ =~= seq!['\n']);
                assert(join_tail(lsdv, i as int) == lsdv[i as int] + seq!['\n'] + join_tail(
                    lsdv,
                    i as int + 1,
                ));
                assert(prev + (lsdv[i as int] + seq!['\n'] + join_tail(lsdv, i as int + 1))
                    =~= (prev + lsdv[i as int] + seq!['\n']) + join_tail(lsdv, i as int + 1));
            }
        } else {
            proof {
                assert(join_tail(lsdv, i as int) == lsdv[i as int]);
                assert(join_tail(lsdv, i as int + 1) =~= Seq::<char>::empty());
                assert(prev + lsdv[i as int] + Seq::<char>::empty() =~= prev + lsdv[i as int]);
            }
        }
        i = i + 1;
    }
    proof {
        assert(join_tail(lsdv, count as int) =~= Seq::<char>::empty());
        assert(out@ + Seq::<char>::empty() =~= out@);
        assert(out@ == candidate);
    }
    let content_n = content.as_str().unicode_len();
    let content_ends_nl = content_n > 0 && content.as_str().get_char(content_n - 1) == '\n';
    proof {
        assert(content_ends_nl == (content@.len() > 0 && content@.last() == '\n'));
    }
    let out_n = out.as_str().unicode_len();
    if !content_ends_nl && eff == count - 1 && out_n > 0 && out.as_str().get_char(out_n - 1)
        == '\n' {
        let fixed = String::from_str(out.as_str().substring_char(0, out_n - 1));
        proof {
            assert(fixed@ =~= candidate.drop_last());
        }
        return Result::Ok(fixed);
    }
    Result::Ok(out)
}

/// Apply one edit operation to the content in place. On failure the content
/// is left exactly as it was and the error says what was wrong.
pub fn apply_operation(operation: &EditOperation, content: &mut String) -> (r: Result<
    (),
    EditError,
>)
    ensures
        match spec_apply(*operation, old(content)@) {
            Result::Ok(s) => r is Ok && final(content)@ == s,
            Result::Err(e) => r == Result::<(), EditError>::Err(e) && final(content)@ == old(
                content,
            )@,
        },
{
    let out = match operation {
        EditOperation::Replace { find, replace, occurrence, case_sensitive } => do_replace(
            content,
            find,
            replace,
            *occurrence,
            *case_sensitive,
        ),
        EditOperation::Insert { position, content: text } => do_insert(content, *position, text),
        EditOperation::Delete { start, end } => do_delete(content, *start, *end),
        EditOperation::ReplaceLines { start_line, end_line, content: text } => do_replace_lines(
            content,
            *start_line,
            *end_line,
            text,
        ),
    };
    match out {
        Result::Ok(s) => {
            *content = s;
            Result::Ok(())
        },
        Result::Err(e) => Result::Err(e),
    }
}

} // verus!
