//! Text helpers: conversion between strings and character vectors, and the
//! few character-level searches that the launcher's rules are written with.
use vstd::prelude::*;

verus! {

broadcast use vstd::string::group_string_axioms;

/// Appends one character to a string (`String::push`).
/// Trusted: std documents that `push` appends the given char to the end of the string.
#[verifier::external_body]
pub(crate) fn push_char(s: &mut String, c: char)
    ensures
        final(s)@ == old(s)@.push(c),
{
    s.push(c);
}

/// The characters of a string slice, in order.
pub fn chars_of(s: &str) -> (v: Vec<char>)
    ensures
        v@ == s@,
{
    let mut v: Vec<char> = Vec::new();
    for c in it: s.chars()
        invariant
            v@ == it.seq().take(it.index() as int),
    {
        v.push(c);
    }
    v
}

/// Builds a string holding exactly the given characters.
pub fn string_of(v: &[char]) -> (s: String)
    ensures
        s@ == v@,
{
    let mut s = String::new();
    let mut i: usize = 0;
    while i < v.len()
        invariant
            i <= v.len(),
            s@ == v@.take(i as int),
        decreases v.len() - i,
    {
        push_char(&mut s, v[i]);
        assert(v@.take(i as int).push(v@[i as int]) == v@.take(i + 1));
        i = i + 1;
    }
    assert(v@.take(v.len() as int) == v@);
    s
}

/// An owned copy of a string slice.
pub fn owned(s: &str) -> (r: String)
    ensures
        r@ == s@,
{
    s.to_string()
}

/// Appends the characters of `t` to `s`.
pub fn push_str(s: &mut String, t: &str)
    ensures
        final(s)@ == old(s)@ + t@,
{
    let cs = chars_of(t);
    let mut i: usize = 0;
    while i < cs.len()
        invariant
            i <= cs.len(),
            cs@ == t@,
            s@ == old(s)@ + t@.take(i as int),
        decreases cs.len() - i,
    {
        push_char(s, cs[i]);
        assert(t@.take(i as int).push(t@[i as int]) == t@.take(i + 1));
        i = i + 1;
    }
    assert(t@.take(t@.len() as int) == t@);
}

/// Appends a character slice to `s`.
pub fn push_chars(s: &mut String, cs: &[char])
    ensures
        final(s)@ == old(s)@ + cs@,
{
    let mut i: usize = 0;
    while i < cs.len()
        invariant
            i <= cs.len(),
            s@ == old(s)@ + cs@.take(i as int),
        decreases cs.len() - i,
    {
        push_char(s, cs[i]);
        assert(cs@.take(i as int).push(cs@[i as int]) == cs@.take(i + 1));
        i = i + 1;
    }
    assert(cs@.take(cs@.len() as int) == cs@);
}

/// Whether two character sequences are equal.
pub fn chars_equal(a: &[char], b: &[char]) -> (r: bool)
    ensures
        r == (a@ == b@),
{
    if a.len() != b.len() {
        return false;
    }
    let mut i: usize = 0;
    while i < a.len()
        invariant
            i <= a.len(),
            a.len() == b.len(),
            forall|k: int| 0 <= k < i ==> a@[k] == b@[k],
        decreases a.len() - i,
    {
        if a[i] != b[i] {
            return false;
        }
        i = i + 1;
    }
    assert(a@ =~= b@);
    true
}

/// Whether two strings hold the same characters.
pub fn str_equal(a: &str, b: &str) -> (r: bool)
    ensures
        r == (a@ == b@),
{
    let x = chars_of(a);
    let y = chars_of(b);
    chars_equal(x.as_slice(), y.as_slice())
}

/// Index of the last occurrence of `c` in `s`, or -1.
pub open spec fn last_index_of(s: Seq<char>, c: char) -> int
    decreases s.len(),
{
    if s.len() == 0 {
        -1
    } else if s.last() == c {
        s.len() - 1
    } else {
        last_index_of(s.drop_last(), c)
    }
}

pub proof fn lemma_last_index_of(s: Seq<char>, c: char)
    ensures
        -1 <= last_index_of(s, c) < s.len(),
        last_index_of(s, c) >= 0 ==> s[last_index_of(s, c)] == c,
        forall|k: int| last_index_of(s, c) < k < s.len() ==> s[k] != c,
    decreases s.len(),
{
    if s.len() > 0 && s.last() != c {
        lemma_last_index_of(s.drop_last(), c);
        assert forall|k: int| last_index_of(s, c) < k < s.len() implies s[k] != c by {
            if k < s.len() - 1 {
                assert(s[k] == s.drop_last()[k]);
            }
        }
    }
}

/// Exec form of `last_index_of` (the `rfind` of one character).
pub fn rfind_char(s: &[char], c: char) -> (r: Option<usize>)
    ensures
        match r {
            Some(k) => k == last_index_of(s@, c),
            None => last_index_of(s@, c) == -1,
        },
{
    proof { lemma_last_index_of(s@, c); }
    let mut i: usize = s.len();
    while i > 0
        invariant
            i <= s.len(),
            forall|k: int| i <= k < s.len() ==> s@[k] != c,
        decreases i,
    {
        if s[i - 1] == c {
            proof { lemma_last_index_unique(s@, c, i - 1); }
            return Some(i - 1);
        }
        i = i - 1;
    }
    proof { lemma_last_index_none(s@, c); }
    None
}

proof fn lemma_last_index_unique(s: Seq<char>, c: char, k: int)
    requires
        0 <= k < s.len(),
        s[k] == c,
        forall|j: int| k < j < s.len() ==> s[j] != c,
    ensures
        last_index_of(s, c) == k,
    decreases s.len(),
{
    if s.len() - 1 != k {
        lemma_last_index_unique(s.drop_last(), c, k);
    }
}

proof fn lemma_last_index_none(s: Seq<char>, c: char)
    requires
        forall|j: int| 0 <= j < s.len() ==> s[j] != c,
    ensures
        last_index_of(s, c) == -1,
    decreases s.len(),
{
    if s.len() > 0 {
        lemma_last_index_none(s.drop_last(), c);
    }
}

/// What `str::to_lowercase` returns for a string: its lowercase form by the
/// Unicode case mapping of the std library.
pub uninterp spec fn unicode_lowercase(s: Seq<char>) -> Seq<char>;

/// `str::to_lowercase`. Trusted: the result is a function of the input
/// alone (the Unicode lowercase mapping built into std), named
/// `unicode_lowercase`; nothing more of it is stated.
#[verifier::external_body]
pub(crate) fn to_lowercase(s: &str) -> (r: String)
    ensures
        r@ == unicode_lowercase(s@),
{
    s.to_lowercase()
}

/// Whether two strings are equal when both are lowercased (the launcher's
/// comparison of hash strings).
pub fn eq_ignoring_case(a: &str, b: &str) -> (r: bool)
    ensures
        r == (unicode_lowercase(a@) == unicode_lowercase(b@)),
{
    let la = to_lowercase(a);
    let lb = to_lowercase(b);
    la == lb
}

/// The Unicode `White_Space` characters (what `char::is_whitespace` and
/// `str::trim` go by).
pub open spec fn is_white_space(c: char) -> bool {
    let u = c as u32;
    ||| 0x09 <= u <= 0x0d
    ||| u == 0x20
    ||| u == 0x85
    ||| u == 0xa0
    ||| u == 0x1680
    ||| 0x2000 <= u <= 0x200a
    ||| u == 0x2028
    ||| u == 0x2029
    ||| u == 0x202f
    ||| u == 0x205f
    ||| u == 0x3000
}

/// Whether `c` is Unicode white space.
pub fn is_white_space_char(c: char) -> (r: bool)
    ensures
        r == is_white_space(c),
{
    let u = c as u32;
    (0x09 <= u && u <= 0x0d) || u == 0x20 || u == 0x85 || u == 0xa0 || u == 0x1680
        || (0x2000 <= u && u <= 0x200a) || u == 0x2028 || u == 0x2029 || u == 0x202f
        || u == 0x205f || u == 0x3000
}

/// `s` without its leading white space.
pub open spec fn trim_start_spec(s: Seq<char>) -> Seq<char>
    decreases s.len(),
{
    if s.len() > 0 && is_white_space(s[0]) {
        trim_start_spec(s.skip(1))
    } else {
        s
    }
}

/// `s` without its trailing white space.
pub open spec fn trim_end_spec(s: Seq<char>) -> Seq<char>
    decreases s.len(),
{
    if s.len() > 0 && is_white_space(s.last()) {
        trim_end_spec(s.drop_last())
    } else {
        s
    }
}

/// `s` without leading and trailing white space (`str::trim`).
pub open spec fn trim_spec(s: Seq<char>) -> Seq<char> {
    trim_end_spec(trim_start_spec(s))
}

proof fn lemma_trim_start_at(s: Seq<char>, i: int)
    requires
        0 <= i <= s.len(),
        forall|k: int| 0 <= k < i ==> is_white_space(#[trigger] s[k]),
    ensures
        trim_start_spec(s) == trim_start_spec(s.skip(i)),
    decreases i,
{
    if i > 0 {
        assert(s.skip(1).skip(i - 1) == s.skip(i));
        assert(is_white_space(s[0]));
        assert forall|k: int| 0 <= k < i - 1 implies is_white_space(#[trigger] s.skip(1)[k]) by {
            assert(s.skip(1)[k] == s[k + 1]);
        }
        lemma_trim_start_at(s.skip(1), i - 1);
    } else {
        assert(s.skip(0) == s);
    }
}

proof fn lemma_trim_end_at(s: Seq<char>, j: int)
    requires
        0 <= j <= s.len(),
        forall|k: int| j <= k < s.len() ==> is_white_space(#[trigger] s[k]),
    ensures
        trim_end_spec(s) == trim_end_spec(s.take(j)),
    decreases s.len() - j,
{
    if j < s.len() {
        assert(s.drop_last().take(j) == s.take(j));
        lemma_trim_end_at(s.drop_last(), j);
    } else {
        assert(s.take(j) == s);
    }
}

/// `str::trim` on characters.
pub fn trim_chars(s: &[char]) -> (r: Vec<char>)
    ensures
        r@ == trim_spec(s@),
{
    let mut i: usize = 0;
    while i < s.len() && is_white_space_char(s[i])
        invariant
            i <= s.len(),
            forall|k: int| 0 <= k < i ==> is_white_space(#[trigger] s@[k]),
        decreases s.len() - i,
    {
        i = i + 1;
    }
    proof { lemma_trim_start_at(s@, i as int); }
    let ghost t = s@.skip(i as int);
    assert(trim_start_spec(t) == t);
    let mut j: usize = s.len();
    while j > i && is_white_space_char(s[j - 1])
        invariant
            i <= j <= s.len(),
            forall|k: int| j <= k < s.len() ==> is_white_space(#[trigger] s@[k]),
        decreases j,
    {
        j = j - 1;
    }
    proof {
        assert forall|k: int| j - i <= k < t.len() implies is_white_space(#[trigger] t[k]) by {
            assert(t[k] == s@[k + i]);
        }
        lemma_trim_end_at(t, j - i);
        let u = t.take(j - i);
        if u.len() > 0 {
            assert(u.last() == s@[j - 1]);
        }
        assert(trim_end_spec(u) == u);
    }
    let mut r: Vec<char> = Vec::new();
    let mut k: usize = i;
    while k < j
        invariant
            i <= k <= j,
            j <= s.len(),
            r@ == s@.subrange(i as int, k as int),
        decreases j - k,
    {
        r.push(s[k]);
        assert(s@.subrange(i as int, k + 1) == s@.subrange(i as int, k as int).push(s@[k as int]));
        k = k + 1;
    }
    assert(r@ == t.take(j - i));
    r
}

/// `s` begins with `p`.
pub open spec fn starts_with(s: Seq<char>, p: Seq<char>) -> bool {
    p.len() <= s.len() && s.take(p.len() as int) == p
}

/// Whether `s` begins with `p`.
pub fn starts_with_chars(s: &[char], p: &[char]) -> (r: bool)
    ensures
        r == starts_with(s@, p@),
{
    if p.len() > s.len() {
        return false;
    }
    let mut i: usize = 0;
    while i < p.len()
        invariant
            i <= p.len(),
            p.len() <= s.len(),
            forall|k: int| 0 <= k < i ==> s@[k] == p@[k],
        decreases p.len() - i,
    {
        if s[i] != p[i] {
            return false;
        }
        i = i + 1;
    }
    assert(s@.take(p@.len() as int) =~= p@);
    true
}

/// `t` occurs in `s` at position `i`.
pub open spec fn occurs_at(s: Seq<char>, t: Seq<char>, i: int) -> bool {
    0 <= i && i + t.len() <= s.len() && s.subrange(i, i + t.len()) == t
}

/// `t` occurs somewhere in `s` (`str::contains`).
pub open spec fn contains_seq(s: Seq<char>, t: Seq<char>) -> bool {
    exists|i: int| occurs_at(s, t, i)
}

pub(crate) fn occurs_at_exec(s: &[char], t: &[char], i: usize) -> (r: bool)
    ensures
        r == occurs_at(s@, t@, i as int),
{
    if i > s.len() || t.len() > s.len() - i {
        return false;
    }
    let mut k: usize = 0;
    while k < t.len()
        invariant
            k <= t.len(),
            i + t.len() <= s.len(),
            forall|m: int| 0 <= m < k ==> s@[i + m] == t@[m],
        decreases t.len() - k,
    {
        if s[i + k] != t[k] {
            assert(s@.subrange(i as int, i + t.len())[k as int] != t@[k as int]);
            return false;
        }
        k = k + 1;
    }
    assert(s@.subrange(i as int, i + t.len()) =~= t@);
    true
}

/// Whether `t` occurs in `s`.
pub fn contains_chars(s: &[char], t: &[char]) -> (r: bool)
    ensures
        r == contains_seq(s@, t@),
{
    if t.len() > s.len() {
        return false;
    }
    let n = s.len() - t.len();
    let mut i: usize = 0;
    while i < n
        invariant
            t.len() <= s.len(),
            n == s.len() - t.len(),
            i <= n,
            forall|k: int| 0 <= k < i ==> !occurs_at(s@, t@, k),
        decreases n - i,
    {
        if occurs_at_exec(s, t, i) {
            return true;
        }
        i = i + 1;
    }
    if occurs_at_exec(s, t, n) {
        return true;
    }
    assert forall|k: int| !occurs_at(s@, t@, k) by {
        if 0 <= k < n {
        }
    }
    false
}

/// The pieces of `s` between occurrences of `c` (`str::split(c)`): one more
/// piece than there are occurrences; empty pieces included.
pub open spec fn split_on(s: Seq<char>, c: char) -> Seq<Seq<char>>
    decreases s.len(),
{
    let k = last_index_of(s, c);
    if k < 0 {
        seq![s]
    } else {
        proof { lemma_last_index_of(s, c); }
        split_on(s.take(k), c).push(s.skip(k + 1))
    }
}

pub proof fn lemma_split_on_nonempty(s: Seq<char>, c: char)
    ensures
        split_on(s, c).len() >= 1,
    decreases s.len(),
{
    let k = last_index_of(s, c);
    lemma_last_index_of(s, c);
    if k >= 0 {
        lemma_split_on_nonempty(s.take(k), c);
    }
}

/// The views of a list of character vectors.
pub open spec fn views_of(v: Seq<Vec<char>>) -> Seq<Seq<char>> {
    v.map_values(|x: Vec<char>| x@)
}

/// `str::split(c)` on characters.
pub fn split_chars(s: &[char], c: char) -> (pieces: Vec<Vec<char>>)
    ensures
        views_of(pieces@) == split_on(s@, c),
{
    let mut pieces: Vec<Vec<char>> = Vec::new();
    let mut cur: Vec<char> = Vec::new();
    let mut i: usize = 0;
    while i < s.len()
        invariant
            i <= s.len(),
            ({
                let pre = s@.take(i as int);
                let k = last_index_of(pre, c);
                &&& cur@ == (if k < 0 { pre } else { pre.skip(k + 1) })
                &&& pieces@.len() + 1 == split_on(pre, c).len()
                &&& forall|j: int| 0 <= j < pieces@.len() ==> #[trigger] pieces@[j]@ == split_on(pre, c)[j]
            }),
        decreases s.len() - i,
    {
        let ghost pre = s@.take(i as int);
        let ghost next = s@.take(i + 1);
        proof {
            lemma_last_index_of(pre, c);
            lemma_split_on_nonempty(pre, c);
            assert(next.drop_last() == pre);
        }
        if s[i] == c {
            let piece = cur;
            cur = Vec::new();
            pieces.push(piece);
            proof {
                assert(last_index_of(next, c) == i);
                assert(next.take(i as int) == pre);
                assert(next.skip(i + 1) =~= Seq::<char>::empty());
                let k = last_index_of(pre, c);
                assert(split_on(pre, c).last() == (if k < 0 { pre } else { pre.skip(k + 1) }));
            }
        } else {
            cur.push(s[i]);
            proof {
                let k = last_index_of(pre, c);
                assert(last_index_of(next, c) == k);
                if k >= 0 {
                    assert(next.take(k) == pre.take(k));
                    assert(next.skip(k + 1) =~= pre.skip(k + 1).push(s@[i as int]));
                } else {
                    assert(split_on(next, c) == seq![next]);
                }
            }
        }
        i = i + 1;
    }
    pieces.push(cur);
    proof {
        assert(s@.take(s@.len() as int) == s@);
        lemma_last_index_of(s@, c);
        lemma_split_on_nonempty(s@, c);
        assert(views_of(pieces@) =~= split_on(s@, c));
    }
    pieces
}

/// A line without the carriage return that preceded its line feed.
pub open spec fn strip_cr(p: Seq<char>) -> Seq<char> {
    if p.len() > 0 && p.last() == '\r' { p.drop_last() } else { p }
}

/// Each piece without the carriage return before its line feed.
pub open spec fn strip_all(ps: Seq<Seq<char>>) -> Seq<Seq<char>> {
    ps.map_values(|p: Seq<char>| strip_cr(p))
}

/// The lines of `s` (`str::lines`): split at line feeds, a carriage return
/// before a line feed dropped, and no empty last line after a final line
/// feed.
pub open spec fn lines_spec(s: Seq<char>) -> Seq<Seq<char>> {
    let ps = split_on(s, '\n');
    let n = ps.len() as int;
    let body = strip_all(ps.take(n - 1));
    if ps[n - 1].len() > 0 { body.push(ps[n - 1]) } else { body }
}

/// `str::lines` on characters.
pub fn lines_of(s: &[char]) -> (lines: Vec<Vec<char>>)
    ensures
        views_of(lines@) == lines_spec(s@),
{
    let ps = split_chars(s, '\n');
    proof { lemma_split_on_nonempty(s@, '\n'); }
    let ghost pv = split_on(s@, '\n');
    let n = ps.len();
    let mut lines: Vec<Vec<char>> = Vec::new();
    let mut i: usize = 0;
    while i + 1 < n
        invariant
            n == ps@.len(),
            n >= 1,
            i + 1 <= n,
            views_of(ps@) == pv,
            views_of(lines@) == strip_all(pv.take(i as int)),
        decreases n - i,
    {
        let p = &ps[i];
        assert(p@ == pv[i as int]);
        let mut q: Vec<char> = Vec::new();
        let m: usize = if p.len() > 0 && p[p.len() - 1] == '\r' { p.len() - 1 } else { p.len() };
        let mut k: usize = 0;
        while k < m
            invariant
                k <= m,
                m <= p@.len(),
                q@ == p@.take(k as int),
            decreases m - k,
        {
            q.push(p[k]);
            assert(p@.take(k + 1) == p@.take(k as int).push(p@[k as int]));
            k = k + 1;
        }
        assert(q@ == strip_cr(p@));
        let ghost before = lines@;
        lines.push(q);
        assert(views_of(lines@) =~= views_of(before).push(q@));
        assert(pv.take(i + 1) == pv.take(i as int).push(pv[i as int]));
        assert(strip_all(pv.take(i + 1)) =~= strip_all(pv.take(i as int)).push(strip_cr(pv[i as int])));
        i = i + 1;
    }
    let last = &ps[n - 1];
    assert(last@ == pv[n - 1]);
    if last.len() > 0 {
        let mut q: Vec<char> = Vec::new();
        let mut k: usize = 0;
        while k < last.len()
            invariant
                k <= last@.len(),
                q@ == last@.take(k as int),
            decreases last.len() - k,
        {
            q.push(last[k]);
            assert(last@.take(k + 1) == last@.take(k as int).push(last@[k as int]));
            k = k + 1;
        }
        assert(q@ == last@);
        let ghost before = lines@;
        lines.push(q);
        assert(views_of(lines@) =~= views_of(before).push(q@));
    }
    lines
}

/// `s[i..]` with every occurrence of `pat` replaced by `rep`, scanning left
/// to right without overlaps (`str::replace`, for a non-empty `pat`).
pub open spec fn replace_from(s: Seq<char>, pat: Seq<char>, rep: Seq<char>, i: int) -> Seq<char>
    decreases s.len() - i,
{
    if i < 0 || i >= s.len() || pat.len() == 0 {
        if 0 <= i < s.len() { s.skip(i) } else { Seq::empty() }
    } else if occurs_at(s, pat, i) {
        rep + replace_from(s, pat, rep, i + pat.len())
    } else {
        seq![s[i]] + replace_from(s, pat, rep, i + 1)
    }
}

/// `s` with every occurrence of `pat` replaced by `rep` (`str::replace`).
pub open spec fn replace_all_spec(s: Seq<char>, pat: Seq<char>, rep: Seq<char>) -> Seq<char> {
    replace_from(s, pat, rep, 0)
}

/// `str::replace` on characters, for a non-empty pattern. Every pattern
/// the launcher replaces is a non-empty literal, so the case of an empty
/// pattern (where `str::replace` puts the replacement between all
/// characters) is left out.
pub fn replace_all(s: &[char], pat: &[char], rep: &[char]) -> (r: Vec<char>)
    requires
        pat@.len() > 0,
    ensures
        r@ == replace_all_spec(s@, pat@, rep@),
{
    let mut r: Vec<char> = Vec::new();
    let mut i: usize = 0;
    while i < s.len()
        invariant
            i <= s.len(),
            pat@.len() > 0,
            r@ + replace_from(s@, pat@, rep@, i as int) == replace_all_spec(s@, pat@, rep@),
        decreases s.len() - i,
    {
        let ghost before = r@;
        if occurs_at_exec(s, pat, i) {
            let mut k: usize = 0;
            while k < rep.len()
                invariant
                    k <= rep@.len(),
                    r@ == before + rep@.take(k as int),
                decreases rep.len() - k,
            {
                r.push(rep[k]);
                assert(rep@.take(k + 1) == rep@.take(k as int).push(rep@[k as int]));
                k = k + 1;
            }
            assert(rep@.take(rep@.len() as int) == rep@);
            assert(before + (rep@ + replace_from(s@, pat@, rep@, i + pat@.len()))
                == (before + rep@) + replace_from(s@, pat@, rep@, i + pat@.len()));
            i = i + pat.len();
        } else {
            r.push(s[i]);
            assert(before + (seq![s@[i as int]] + replace_from(s@, pat@, rep@, i + 1))
                == before.push(s@[i as int]) + replace_from(s@, pat@, rep@, i + 1));
            i = i + 1;
        }
    }
    assert(r@ + Seq::<char>::empty() == r@);
    r
}

/// `s` with every leading copy of `p` removed (`str::trim_start_matches`).
pub open spec fn strip_prefix_all(s: Seq<char>, p: Seq<char>) -> Seq<char>
    decreases s.len(),
{
    if p.len() > 0 && starts_with(s, p) {
        strip_prefix_all(s.skip(p.len() as int), p)
    } else {
        s
    }
}

/// `str::trim_start_matches` with a string pattern.
pub fn strip_prefix_all_chars(s: &[char], p: &[char]) -> (r: Vec<char>)
    ensures
        r@ == strip_prefix_all(s@, p@),
{
    let mut i: usize = 0;
    assert(s@.skip(0) == s@);
    if p.len() > 0 {
        let mut more = true;
        while more
            invariant
                i <= s.len(),
                p@.len() > 0,
                strip_prefix_all(s@, p@) == strip_prefix_all(s@.skip(i as int), p@),
                !more ==> !starts_with(s@.skip(i as int), p@),
            decreases s.len() - i, if more { 1int } else { 0int },
        {
            if p.len() <= s.len() - i && occurs_at_exec(s, p, i) {
                assert(s@.skip(i as int).take(p@.len() as int) == s@.subrange(i as int, i + p@.len()));
                assert(s@.skip(i as int).skip(p@.len() as int) == s@.skip(i + p@.len()));
                i = i + p.len();
            } else {
                proof {
                    let t = s@.skip(i as int);
                    if starts_with(t, p@) {
                        assert(t.take(p@.len() as int) == s@.subrange(i as int, i + p@.len()));
                    }
                }
                more = false;
            }
        }
    }
    let mut r: Vec<char> = Vec::new();
    let mut k: usize = i;
    while k < s.len()
        invariant
            i <= k <= s.len(),
            r@ == s@.subrange(i as int, k as int),
        decreases s.len() - k,
    {
        r.push(s[k]);
        assert(s@.subrange(i as int, k + 1) == s@.subrange(i as int, k as int).push(s@[k as int]));
        k = k + 1;
    }
    assert(r@ == s@.skip(i as int));
    r
}

} // verus!
