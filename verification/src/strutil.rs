//! Verified string utilities: character extraction, lexicographic order,
//! splitting into lines and path components, and joining components.

use vstd::prelude::*;
use vstd::string::StrSliceExecFns;
use vstd::string::StringExecFns;

verus! {

/// Collect the characters of a string slice into a vector.
pub fn chars_vec(s: &str) -> (r: Vec<char>)
    ensures
        r@ == s@,
{
    let mut r: Vec<char> = Vec::new();
    for c in it: s.chars()
        invariant
            r@ == it.seq().take(it.index() as int),
            it.seq() == s@,
    {
        r.push(c);
    }
    proof {
        assert(r@ =~= s@);
    }
    r
}

/// Lexicographic order on character sequences by Unicode code point; a
/// proper prefix sorts before any of its extensions.
pub open spec fn chars_le(a: Seq<char>, b: Seq<char>) -> bool
    decreases a.len(),
{
    if a.len() == 0 {
        true
    } else if b.len() == 0 {
        false
    } else if (a[0] as u32) < (b[0] as u32) {
        true
    } else if (a[0] as u32) > (b[0] as u32) {
        false
    } else {
        chars_le(a.drop_first(), b.drop_first())
    }
}

/// Decide `chars_le` on two character vectors.
pub fn chars_le_exec(a: &Vec<char>, b: &Vec<char>) -> (r: bool)
    ensures
        r == chars_le(a@, b@),
{
    let mut i: usize = 0;
    proof {
        assert(a@.skip(0) =~= a@);
        assert(b@.skip(0) =~= b@);
    }
    loop
        invariant
            i <= a.len(),
            i <= b.len(),
            chars_le(a@, b@) == chars_le(a@.skip(i as int), b@.skip(i as int)),
            forall|j: int| 0 <= j < i ==> a@[j] == b@[j],
        decreases a.len() - i,
    {
        if i == a.len() {
            proof {
                assert(a@.skip(i as int).len() == 0);
            }
            return true;
        }
        if i == b.len() {
            proof {
                assert(b@.skip(i as int).len() == 0);
                assert(a@.skip(i as int).len() > 0);
            }
            return false;
        }
        let ca = a[i];
        let cb = b[i];
        proof {
            assert(a@.skip(i as int)[0] == a@[i as int]);
            assert(b@.skip(i as int)[0] == b@[i as int]);
            assert(a@.skip(i as int).drop_first() =~= a@.skip(i as int + 1));
            assert(b@.skip(i as int).drop_first() =~= b@.skip(i as int + 1));
        }
        if (ca as u32) < (cb as u32) {
            return true;
        }
        if (ca as u32) > (cb as u32) {
            return false;
        }
        proof {
            vstd::utf8::char_u32_cast(ca, ca as u32);
            vstd::utf8::char_u32_cast(cb, cb as u32);
        }
        i = i + 1;
    }
}

/// Components accumulated while scanning `s` from position `i` onward, with
/// `cur` holding the characters of the component currently being read.
/// Separators are `'/'`; empty components are dropped.
pub open spec fn split_from(s: Seq<char>, i: int, cur: Seq<char>) -> Seq<Seq<char>>
    decreases s.len() - i,
{
    if i < 0 || i >= s.len() {
        if cur.len() == 0 {
            Seq::empty()
        } else {
            seq![cur]
        }
    } else if s[i] == '/' {
        if cur.len() == 0 {
            split_from(s, i + 1, cur)
        } else {
            seq![cur] + split_from(s, i + 1, Seq::empty())
        }
    } else {
        split_from(s, i + 1, cur.push(s[i]))
    }
}

/// The `'/'`-separated components of a path string, empty components dropped.
pub open spec fn split_path(s: Seq<char>) -> Seq<Seq<char>> {
    split_from(s, 0, Seq::empty())
}

/// Split a path string into its non-empty `'/'`-separated components.
pub fn split_path_exec(s: &str) -> (parts: Vec<String>)
    ensures
        parts.deep_view() == split_path(s@),
{
    let cs = chars_vec(s);
    let mut parts: Vec<String> = Vec::new();
    let n = cs.len();
    let mut start: usize = 0;
    proof {
        assert(s@.subrange(0, 0) =~= Seq::<char>::empty());
    }
    for i in 0..n
        invariant
            cs@ == s@,
            n == s@.len(),
            start <= i <= n,
            split_path(s@) == parts.deep_view() + split_from(s@, i as int, s@.subrange(start as int, i as int)),
        decreases n - i,
    {
        proof {
            assert(cs@[i as int] == s@[i as int]);
        }
        if cs[i] == '/' {
            proof {
                assert(s@.subrange(i as int + 1, i as int + 1) =~= Seq::<char>::empty());
            }
            if start < i {
                let comp = String::from_str(s.substring_char(start, i));
                let ghost prev = parts.deep_view();
                let ghost cur = s@.subrange(start as int, i as int);
                parts.push(comp);
                proof {
                    assert(split_from(s@, i as int, cur)
                        == seq![cur] + split_from(s@, i as int + 1, Seq::empty()));
                    assert(parts.deep_view() =~= prev + seq![cur]);
                    assert(prev + (seq![cur] + split_from(s@, i as int + 1, Seq::empty()))
                        =~= (prev + seq![cur]) + split_from(s@, i as int + 1, Seq::empty()));
                }
            } else {
                proof {
                    assert(s@.subrange(start as int, i as int) =~= Seq::<char>::empty());
                }
            }
            start = i + 1;
        } else {
            proof {
                assert(s@.subrange(start as int, i as int).push(s@[i as int])
                    =~= s@.subrange(start as int, i as int + 1));
            }
        }
    }
    if start < n {
        let comp = String::from_str(s.substring_char(start, n));
        let ghost prev = parts.deep_view();
        parts.push(comp);
        proof {
            assert(parts.deep_view() =~= prev + seq![s@.subrange(start as int, n as int)]);
        }
    }
    proof {
        assert(parts.deep_view() =~= split_path(s@));
    }
    parts
}

/// The components joined with `'/'` separators and no leading separator.
pub open spec fn join_rel(parts: Seq<Seq<char>>) -> Seq<char>
    decreases parts.len(),
{
    if parts.len() == 0 {
        Seq::empty()
    } else if parts.len() == 1 {
        parts[0]
    } else {
        join_rel(parts.drop_last()) + seq!['/'] + parts.last()
    }
}

/// Join components with `'/'` separators.
pub fn join_rel_exec(parts: &Vec<String>) -> (r: String)
    ensures
        r@ == join_rel(parts.deep_view()),
{
    let mut r = String::new();
    proof {
        reveal_strlit("/");
        assert(parts.deep_view().take(0) =~= Seq::<Seq<char>>::empty());
    }
    for i in 0..parts.len()
        invariant
            r@ == join_rel(parts.deep_view().take(i as int)),
        decreases parts.len() - i,
    {
        if i > 0 {
            r.append("/");
        }
        r.append(parts[i].as_str());
        proof {
            reveal_strlit("/");
            let dv = parts.deep_view();
            assert(dv.take(i as int + 1).last() == dv[i as int]);
            assert(dv.take(i as int + 1).drop_last() =~= dv.take(i as int));
            assert("/"@ =~= seq!['/']);
            if i > 0 {
                assert(r@ == join_rel(dv.take(i as int)) + seq!['/'] + dv[i as int]);
            }
        }
    }
    proof {
        assert(parts.deep_view().take(parts.len() as int) =~= parts.deep_view());
    }
    r
}

/// `cur` without a single trailing carriage return.
pub open spec fn strip_cr(cur: Seq<char>) -> Seq<char> {
    if cur.len() > 0 && cur.last() == '\r' {
        cur.drop_last()
    } else {
        cur
    }
}

/// Lines accumulated while scanning `s` from position `i` onward, with `cur`
/// holding the characters of the line currently being read. A line ends at
/// `'\n'`; a carriage return immediately before the newline is dropped; a
/// final line ending is optional.
pub open spec fn lines_from(s: Seq<char>, i: int, cur: Seq<char>) -> Seq<Seq<char>>
    decreases s.len() - i,
{
    if i < 0 || i >= s.len() {
        if cur.len() == 0 {
            Seq::empty()
        } else {
            seq![cur]
        }
    } else if s[i] == '\n' {
        seq![strip_cr(cur)] + lines_from(s, i + 1, Seq::empty())
    } else {
        lines_from(s, i + 1, cur.push(s[i]))
    }
}

/// The lines of `s`, split as `lines_from` describes.
pub open spec fn spec_lines(s: Seq<char>) -> Seq<Seq<char>> {
    lines_from(s, 0, Seq::empty())
}

/// Split a string into its lines.
pub fn lines_of(s: &str) -> (lines: Vec<String>)
    ensures
        lines.deep_view() == spec_lines(s@),
{
    let cs = chars_vec(s);
    let mut lines: Vec<String> = Vec::new();
    let n = cs.len();
    let mut start: usize = 0;
    proof {
        assert(s@.subrange(0, 0) =~= Seq::<char>::empty());
    }
    for i in 0..n
        invariant
            cs@ == s@,
            n == s@.len(),
            start <= i <= n,
            spec_lines(s@) == lines.deep_view() + lines_from(s@, i as int, s@.subrange(start as int, i as int)),
        decreases n - i,
    {
        proof {
            assert(cs@[i as int] == s@[i as int]);
        }
        if cs[i] == '\n' {
            let ghost cur = s@.subrange(start as int, i as int);
            let end_excl: usize = if i > start && cs[i - 1] == '\r' {
                i - 1
            } else {
                i
            };
            proof {
                if i > start && s@[i as int - 1] == '\r' {
                    assert(cur.last() == s@[i as int - 1]);
                    assert(strip_cr(cur) =~= s@.subrange(start as int, i as int - 1));
                } else {
                    if cur.len() > 0 {
                        assert(cur.last() == s@[i as int - 1]);
                    }
                    assert(strip_cr(cur) =~= cur);
                }
            }
            let line = String::from_str(s.substring_char(start, end_excl));
            let ghost prev = lines.deep_view();
            lines.push(line);
            proof {
                assert(lines.deep_view() =~= prev + seq![strip_cr(cur)]);
                assert(lines_from(s@, i as int, cur)
                    == seq![strip_cr(cur)] + lines_from(s@, i as int + 1, Seq::empty()));
                assert(prev + (seq![strip_cr(cur)] + lines_from(s@, i as int + 1, Seq::empty()))
                    =~= (prev + seq![strip_cr(cur)]) + lines_from(s@, i as int + 1, Seq::empty()));
                assert(s@.subrange(i as int + 1, i as int + 1) =~= Seq::<char>::empty());
            }
            start = i + 1;
        } else {
            proof {
                assert(s@.subrange(start as int, i as int).push(s@[i as int])
                    =~= s@.subrange(start as int, i as int + 1));
            }
        }
    }
    if start < n {
        let line = String::from_str(s.substring_char(start, n));
        let ghost prev = lines.deep_view();
        lines.push(line);
        proof {
            assert(lines.deep_view() =~= prev + seq![s@.subrange(start as int, n as int)]);
        }
    }
    proof {
        assert(lines.deep_view() =~= spec_lines(s@));
    }
    lines
}

/// `s` with every trailing `'/'` removed.
pub open spec fn trim_trailing_slashes(s: Seq<char>) -> Seq<char>
    decreases s.len(),
{
    if s.len() > 0 && s.last() == '/' {
        trim_trailing_slashes(s.drop_last())
    } else {
        s
    }
}

/// The index of the last occurrence of `c` in `s`, if any.
pub open spec fn last_pos(s: Seq<char>, c: char) -> Option<int>
    decreases s.len(),
{
    if s.len() == 0 {
        None
    } else if s.last() == c {
        Some(s.len() - 1)
    } else {
        last_pos(s.drop_last(), c)
    }
}

/// The index of the last `'/'` in `s`, if any.
pub open spec fn last_slash(s: Seq<char>) -> Option<int> {
    last_pos(s, '/')
}

/// Find the index of the last occurrence of `c`.
pub fn last_pos_exec(s: &Vec<char>, c: char) -> (r: Option<usize>)
    ensures
        match r {
            Option::Some(k) => k < s@.len() && last_pos(s@, c) == Option::Some(k as int),
            Option::None => last_pos(s@, c) is None,
        },
{
    let mut k: usize = s.len();
    proof {
        assert(s@.take(s@.len() as int) =~= s@);
    }
    while k > 0
        invariant
            k <= s@.len(),
            last_pos(s@, c) == last_pos(s@.take(k as int), c),
        decreases k,
    {
        proof {
            assert(s@.take(k as int).last() == s@[k as int - 1]);
            assert(s@.take(k as int).drop_last() =~= s@.take(k as int - 1));
        }
        if s[k - 1] == c {
            return Option::Some(k - 1);
        }
        k = k - 1;
    }
    proof {
        assert(s@.take(0) =~= Seq::<char>::empty());
    }
    Option::None
}

/// The directory part of a path string: trailing separators are dropped, then
/// everything from the last separator on is dropped. A path consisting of a
/// single component (or of separators alone) has no directory part here.
pub open spec fn parent_path(s: Seq<char>) -> Option<Seq<char>> {
    let t = trim_trailing_slashes(s);
    match last_slash(t) {
        Option::None => Option::None,
        Option::Some(k) => if k == 0 {
            Option::Some(seq!['/'])
        } else {
            Option::Some(t.take(k))
        },
    }
}

/// Compute the directory part of a path string.
pub fn parent_of(s: &str) -> (r: Option<String>)
    ensures
        match r {
            Option::Some(p) => parent_path(s@) == Option::Some(p@),
            Option::None => parent_path(s@) is None,
        },
{
    let cs = chars_vec(s);
    let mut end: usize = cs.len();
    proof {
        assert(s@.take(end as int) =~= s@);
    }
    while end > 0 && cs[end - 1] == '/'
        invariant
            cs@ == s@,
            end <= s@.len(),
            trim_trailing_slashes(s@) == trim_trailing_slashes(s@.take(end as int)),
        decreases end,
    {
        proof {
            assert(s@.take(end as int).last() == s@[end as int - 1]);
            assert(s@.take(end as int).drop_last() =~= s@.take(end as int - 1));
        }
        end = end - 1;
    }
    let ghost t = trim_trailing_slashes(s@);
    proof {
        if end > 0 {
            assert(s@.take(end as int).last() == s@[end as int - 1]);
        }
        assert(t == s@.take(end as int));
    }
    let mut k: usize = end;
    while k > 0 && cs[k - 1] != '/'
        invariant
            cs@ == s@,
            k <= end <= s@.len(),
            t == s@.take(end as int),
            last_slash(s@.take(end as int)) == last_slash(s@.take(k as int)),
        decreases k,
    {
        proof {
            assert(s@.take(k as int).last() == s@[k as int - 1]);
            assert(s@.take(k as int).drop_last() =~= s@.take(k as int - 1));
        }
        k = k - 1;
    }
    if k == 0 {
        proof {
            assert(s@.take(0) =~= Seq::<char>::empty());
            assert(last_slash(t) is None);
        }
        return Option::None;
    }
    proof {
        assert(s@.take(k as int).last() == s@[k as int - 1]);
        assert(last_slash(s@.take(k as int)) == Option::Some(k as int - 1));
    }
    if k == 1 {
        let r = String::from_str("/");
        proof {
            reveal_strlit("/");
            assert(r@ =~= seq!['/']);
        }
        return Option::Some(r);
    }
    let p = String::from_str(s.substring_char(0, k - 1));
    proof {
        assert(p@ =~= t.take(k as int - 1));
    }
    Option::Some(p)
}

/// `root` is a component-wise prefix of `path`.
pub open spec fn is_under(path: Seq<Seq<char>>, root: Seq<Seq<char>>) -> bool {
    root.len() <= path.len() && path.take(root.len() as int) == root
}

/// Decide whether `root` is a component-wise prefix of `path`.
pub fn is_prefix_of(root: &Vec<String>, path: &Vec<String>) -> (r: bool)
    ensures
        r == is_under(path.deep_view(), root.deep_view()),
{
    if root.len() > path.len() {
        return false;
    }
    for i in 0..root.len()
        invariant
            root.len() <= path.len(),
            forall|j: int| 0 <= j < i ==> path.deep_view()[j] == root.deep_view()[j],
        decreases root.len() - i,
    {
        if !(path[i] == root[i]) {
            proof {
                assert(path.deep_view()[i as int] != root.deep_view()[i as int]);
                assert(path.deep_view().take(root.deep_view().len() as int)[i as int]
                    == path.deep_view()[i as int]);
            }
            return false;
        }
    }
    proof {
        assert(path.deep_view().take(root.deep_view().len() as int) =~= root.deep_view());
    }
    true
}


/// The order `chars_le` is reflexive.
pub proof fn lemma_chars_le_refl(a: Seq<char>)
    ensures
        chars_le(a, a),
    decreases a.len(),
{
    if a.len() > 0 {
        lemma_chars_le_refl(a.drop_first());
    }
}

/// The order `chars_le` is total.
pub proof fn lemma_chars_le_total(a: Seq<char>, b: Seq<char>)
    ensures
        chars_le(a, b) || chars_le(b, a),
    decreases a.len(),
{
    if a.len() > 0 && b.len() > 0 && a[0] as u32 == b[0] as u32 {
        lemma_chars_le_total(a.drop_first(), b.drop_first());
    }
}

/// The order `chars_le` is transitive.
pub proof fn lemma_chars_le_trans(a: Seq<char>, b: Seq<char>, c: Seq<char>)
    requires
        chars_le(a, b),
        chars_le(b, c),
    ensures
        chars_le(a, c),
    decreases a.len(),
{
    if a.len() > 0 && b.len() > 0 && c.len() > 0 {
        if a[0] as u32 == b[0] as u32 && b[0] as u32 == c[0] as u32 {
            lemma_chars_le_trans(a.drop_first(), b.drop_first(), c.drop_first());
        }
    }
}

} // verus!
