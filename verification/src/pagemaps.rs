//! Reading the launcher's main page: the `ACTS_MAP` and `PAGES_MAP` script
//! variables. The patterns are matched as a regular-expression engine with
//! leftmost-first semantics matches them: the leftmost match wins, greedy
//! repetitions take as much as they can, lazy ones as little; `\s` is
//! Unicode white space and `\w` a Unicode word character.
use vstd::prelude::*;
use crate::plan::opt_chars;
use crate::text::{chars_of, string_of, owned, push_chars, push_str, trim_chars, trim_spec, replace_all, replace_all_spec};
use crate::text::{is_white_space, is_white_space_char, occurs_at, occurs_at_exec};

verus! {

broadcast use vstd::string::group_string_axioms;

/// Whether `c` is a Unicode word character (the `\w` class): the result of
/// `regex_syntax::is_word_character`.
pub uninterp spec fn unicode_word_char(c: char) -> bool;

/// Whether `c` is a word character, by `regex_syntax::is_word_character`
/// (the table that the regex engine's `\w` uses). Trusted: the result is
/// that function's; of it only what its source plainly shows is stated,
/// that among ASCII characters exactly `[0-9A-Za-z_]` are word characters.
#[verifier::external_body]
fn is_word_char(c: char) -> (r: bool)
    ensures
        r == unicode_word_char(c),
        (c as u32) < 128 ==> (r <==> ('0' <= c <= '9' || 'A' <= c <= 'Z' || 'a' <= c <= 'z' || c == '_')),
{
    regex_syntax::is_word_character(c)
}

/// The end of the run of white space that starts at `i`.
pub open spec fn ws_end(t: Seq<char>, i: int) -> int
    decreases t.len() - i,
{
    if 0 <= i < t.len() && is_white_space(t[i]) { ws_end(t, i + 1) } else { i }
}

/// The end of the run of word characters that starts at `i`.
pub open spec fn word_end(t: Seq<char>, i: int) -> int
    decreases t.len() - i,
{
    if 0 <= i < t.len() && unicode_word_char(t[i]) { word_end(t, i + 1) } else { i }
}

/// The first position at or after `i` that holds `c`, or `t.len()`.
pub open spec fn find_char(t: Seq<char>, c: char, i: int) -> int
    decreases t.len() - i,
{
    if i < 0 || i >= t.len() {
        t.len() as int
    } else if t[i] == c {
        i
    } else {
        find_char(t, c, i + 1)
    }
}

/// The first position at or after `i` where `p` occurs, or `t.len()`.
pub open spec fn find_seq(t: Seq<char>, p: Seq<char>, i: int) -> int
    decreases t.len() - i,
{
    if i < 0 || i >= t.len() {
        t.len() as int
    } else if occurs_at(t, p, i) {
        i
    } else {
        find_seq(t, p, i + 1)
    }
}

proof fn lemma_ws_end(t: Seq<char>, i: int)
    requires
        0 <= i <= t.len(),
    ensures
        i <= ws_end(t, i) <= t.len(),
        forall|k: int| i <= k < ws_end(t, i) ==> is_white_space(#[trigger] t[k]),
        ws_end(t, i) < t.len() ==> !is_white_space(t[ws_end(t, i)]),
    decreases t.len() - i,
{
    if i < t.len() && is_white_space(t[i]) {
        lemma_ws_end(t, i + 1);
    }
}

proof fn lemma_word_end(t: Seq<char>, i: int)
    requires
        0 <= i <= t.len(),
    ensures
        i <= word_end(t, i) <= t.len(),
    decreases t.len() - i,
{
    if i < t.len() && unicode_word_char(t[i]) {
        lemma_word_end(t, i + 1);
    }
}

proof fn lemma_find_char(t: Seq<char>, c: char, i: int)
    requires
        0 <= i <= t.len(),
    ensures
        i <= find_char(t, c, i) <= t.len(),
        find_char(t, c, i) < t.len() ==> t[find_char(t, c, i)] == c,
    decreases t.len() - i,
{
    if i < t.len() && t[i] != c {
        lemma_find_char(t, c, i + 1);
    }
}

proof fn lemma_find_seq(t: Seq<char>, p: Seq<char>, i: int)
    requires
        0 <= i <= t.len(),
    ensures
        i <= find_seq(t, p, i) <= t.len(),
    decreases t.len() - i,
{
    if i < t.len() && !occurs_at(t, p, i) {
        lemma_find_seq(t, p, i + 1);
    }
}

fn ws_end_exec(t: &[char], i: usize) -> (r: usize)
    requires
        i <= t@.len(),
    ensures
        r == ws_end(t@, i as int),
{
    let mut j = i;
    while j < t.len() && is_white_space_char(t[j])
        invariant
            i <= j <= t@.len(),
            ws_end(t@, j as int) == ws_end(t@, i as int),
        decreases t.len() - j,
    {
        j = j + 1;
    }
    j
}

fn word_end_exec(t: &[char], i: usize) -> (r: usize)
    requires
        i <= t@.len(),
    ensures
        r == word_end(t@, i as int),
{
    let mut j = i;
    while j < t.len() && is_word_char(t[j])
        invariant
            i <= j <= t@.len(),
            word_end(t@, j as int) == word_end(t@, i as int),
        decreases t.len() - j,
    {
        j = j + 1;
    }
    j
}

fn find_char_exec(t: &[char], c: char, i: usize) -> (r: usize)
    requires
        i <= t@.len(),
    ensures
        r == find_char(t@, c, i as int),
{
    let mut j = i;
    while j < t.len() && t[j] != c
        invariant
            i <= j <= t@.len(),
            find_char(t@, c, j as int) == find_char(t@, c, i as int),
        decreases t.len() - j,
    {
        j = j + 1;
    }
    j
}

fn find_seq_exec(t: &[char], p: &[char], i: usize) -> (r: usize)
    requires
        i <= t@.len(),
    ensures
        r == find_seq(t@, p@, i as int),
{
    let mut j = i;
    while j < t.len() && !occurs_at_exec(t, p, j)
        invariant
            i <= j <= t@.len(),
            find_seq(t@, p@, j as int) == find_seq(t@, p@, i as int),
        decreases t.len() - j,
    {
        j = j + 1;
    }
    j
}

/// Where the pattern `DECL\s*=\s*(\{[\s\S]*?\});` matches at `s` (`decl`
/// being `var NAME`): the bounds of the captured object, from its `{` to the
/// first `}` followed by `;`.
pub open spec fn block_at(t: Seq<char>, decl: Seq<char>, s: int) -> Option<(int, int)> {
    if !occurs_at(t, decl, s) {
        None
    } else {
        let b = ws_end(t, s + decl.len());
        if !(b < t.len() && t[b] == '=') {
            None
        } else {
            let c = ws_end(t, b + 1);
            if !(c < t.len() && t[c] == '{') {
                None
            } else {
                let e = find_seq(t, "};"@, c + 1);
                if e < t.len() { Some((c, e + 1)) } else { None }
            }
        }
    }
}

/// The leftmost match of the block pattern at or after `s`.
pub open spec fn first_block(t: Seq<char>, decl: Seq<char>, s: int) -> Option<(int, int)>
    decreases t.len() - s,
{
    if s < 0 || s >= t.len() {
        None
    } else if block_at(t, decl, s) is Some {
        block_at(t, decl, s)
    } else {
        first_block(t, decl, s + 1)
    }
}

/// The object text assigned to the variable that `decl` declares, as the
/// pattern `DECL\s*=\s*(\{[\s\S]*?\});` captures it, if the page has one.
pub open spec fn map_block(t: Seq<char>, decl: Seq<char>) -> Option<Seq<char>> {
    match first_block(t, decl, 0) {
        Some((a, b)) => Some(t.subrange(a, b)),
        None => None,
    }
}

fn block_at_exec(t: &[char], decl: &[char], s: usize) -> (r: Option<(usize, usize)>)
    requires
        s < t@.len(),
    ensures
        match block_at(t@, decl@, s as int) {
            Some((a, b)) => r == Some((a as usize, b as usize)) && 0 <= a < b <= t@.len(),
            None => r is None,
        },
{
    if !occurs_at_exec(t, decl, s) {
        return None;
    }
    assert(s + decl.len() <= t.len());
    let b = ws_end_exec(t, s + decl.len());
    proof { lemma_ws_end(t@, s + decl@.len()); }
    if !(b < t.len() && t[b] == '=') {
        return None;
    }
    let c = ws_end_exec(t, b + 1);
    proof { lemma_ws_end(t@, b + 1); }
    if !(c < t.len() && t[c] == '{') {
        return None;
    }
    let close = ['}', ';'];
    assert(close@ == "};"@) by {
        reveal_strlit("};");
    }
    let e = find_seq_exec(t, &close, c + 1);
    proof { lemma_find_seq(t@, "};"@, c + 1); }
    if e < t.len() {
        Some((c, e + 1))
    } else {
        None
    }
}

/// Finds the block that the pattern `DECL\s*=\s*(\{[\s\S]*?\});` captures:
/// the bounds of the leftmost match's object, if there is a match.
fn find_block(t: &[char], decl: &[char]) -> (r: Option<(usize, usize)>)
    ensures
        match first_block(t@, decl@, 0) {
            Some((a, b)) => r == Some((a as usize, b as usize)) && 0 <= a < b <= t@.len(),
            None => r is None,
        },
{
    let mut s: usize = 0;
    while s < t.len()
        invariant
            s <= t@.len(),
            first_block(t@, decl@, s as int) == first_block(t@, decl@, 0),
        decreases t.len() - s,
    {
        let m = block_at_exec(t, decl, s);
        if m.is_some() {
            return m;
        }
        s = s + 1;
    }
    None
}

/// The position of the `/` that ends the shortest run of one or more
/// non-space characters starting at `j - 1` (the lazy `\S+?` followed by
/// `/`), or `t.len()` when there is none.
pub open spec fn slash_after_run(t: Seq<char>, j: int) -> int
    decreases t.len() - j,
{
    if j < 1 || j >= t.len() || is_white_space(t[j - 1]) {
        t.len() as int
    } else if t[j] == '/' {
        j
    } else {
        slash_after_run(t, j + 1)
    }
}

proof fn lemma_slash_after_run(t: Seq<char>, j: int)
    requires
        1 <= j <= t.len(),
    ensures
        j <= slash_after_run(t, j) <= t.len(),
    decreases t.len() - j,
{
    if j < t.len() && !is_white_space(t[j - 1]) && t[j] != '/' {
        lemma_slash_after_run(t, j + 1);
    }
}

/// Where the action pattern `(\w+):\s*location\.protocol\s*\+\s*"//\S+?(/[^"]*?)",?`
/// matches at `s`: the end `e` of the key `t[s..e]`, the bounds `m`, `q` of
/// the path `t[m..q]`, and the end of the match.
pub open spec fn action_at(t: Seq<char>, s: int) -> Option<(int, int, int, int)> {
    let e = word_end(t, s);
    if !(0 <= s < e < t.len() && t[e] == ':') {
        None
    } else {
        let a = ws_end(t, e + 1);
        if !occurs_at(t, "location.protocol"@, a) {
            None
        } else {
            let b = ws_end(t, a + "location.protocol"@.len());
            if !(b < t.len() && t[b] == '+') {
                None
            } else {
                let c = ws_end(t, b + 1);
                if !occurs_at(t, "\"//"@, c) {
                    None
                } else {
                    let m = slash_after_run(t, c + 4);
                    if !(c + 4 <= m < t.len()) {
                        None
                    } else {
                        let q = find_char(t, '"', m + 1);
                        if !(m < q < t.len()) {
                            None
                        } else if q + 1 < t.len() && t[q + 1] == ',' {
                            Some((e, m, q, q + 2))
                        } else {
                            Some((e, m, q, q + 1))
                        }
                    }
                }
            }
        }
    }
}

/// The leftmost match of the action pattern at or after `s`: its start and
/// what `action_at` gives there.
pub open spec fn next_action(t: Seq<char>, s: int) -> Option<(int, int, int, int, int)>
    decreases t.len() - s,
{
    if s < 0 || s >= t.len() {
        None
    } else {
        match action_at(t, s) {
            Some((e, m, q, end)) => Some((s, e, m, q, end)),
            None => next_action(t, s + 1),
        }
    }
}

/// The (key, path) pairs of the successive non-overlapping matches of the
/// action pattern in `t` from `pos` on.
pub open spec fn actions_from(t: Seq<char>, pos: int) -> Seq<(Seq<char>, Seq<char>)>
    decreases t.len() - pos,
{
    match next_action(t, pos) {
        Some((s, e, m, q, end)) => if pos < end <= t.len() {
            seq![(t.subrange(s, e), t.subrange(m, q))] + actions_from(t, end)
        } else {
            Seq::empty()
        },
        None => Seq::empty(),
    }
}

proof fn lemma_next_action(t: Seq<char>, s: int)
    requires
        0 <= s,
    ensures
        next_action(t, s) matches Some((s0, e, m, q, end)) ==> s <= s0 < end <= t.len()
            && s0 < e < t.len() && m < q < t.len() && action_at(t, s0) == Some((e, m, q, end)),
    decreases t.len() - s,
{
    if s < t.len() {
        if action_at(t, s) is None {
            lemma_next_action(t, s + 1);
        } else {
            let e = word_end(t, s);
            lemma_ws_end(t, e + 1);
            let a = ws_end(t, e + 1);
            lemma_ws_end(t, a + "location.protocol"@.len());
            let b = ws_end(t, a + "location.protocol"@.len());
            lemma_ws_end(t, b + 1);
        }
    }
}

fn action_at_exec(t: &[char], s: usize) -> (r: Option<(usize, usize, usize, usize)>)
    requires
        s < t@.len(),
    ensures
        match action_at(t@, s as int) {
            Some((e, m, q, end)) => r == Some((e as usize, m as usize, q as usize, end as usize))
                && s < e < m < q < end <= t@.len(),
            None => r is None,
        },
{
    let e = word_end_exec(t, s);
    proof { lemma_word_end(t@, s as int); }
    if !(s < e && e < t.len() && t[e] == ':') {
        return None;
    }
    let a = ws_end_exec(t, e + 1);
    proof { lemma_ws_end(t@, e + 1); }
    let lp = ['l', 'o', 'c', 'a', 't', 'i', 'o', 'n', '.', 'p', 'r', 'o', 't', 'o', 'c', 'o', 'l'];
    assert(lp@ == "location.protocol"@) by {
        reveal_strlit("location.protocol");
    }
    if !occurs_at_exec(t, &lp, a) {
        return None;
    }
    assert(a + lp.len() <= t.len());
    let b = ws_end_exec(t, a + lp.len());
    proof { lemma_ws_end(t@, a + lp@.len()); }
    if !(b < t.len() && t[b] == '+') {
        return None;
    }
    let c = ws_end_exec(t, b + 1);
    proof { lemma_ws_end(t@, b + 1); }
    let qs = ['"', '/', '/'];
    assert(qs@ == "\"//"@) by {
        reveal_strlit("\"//");
    }
    if !occurs_at_exec(t, &qs, c) {
        return None;
    }
    assert(c + 3 <= t.len());
    if c + 3 == t.len() {
        proof { assert(slash_after_run(t@, c + 4) == t@.len()); }
        return None;
    }
    let mut j: usize = c + 4;
    proof { lemma_slash_after_run(t@, c + 4); }
    while j < t.len() && !is_white_space_char(t[j - 1]) && t[j] != '/'
        invariant
            c + 4 <= j <= t@.len(),
            slash_after_run(t@, j as int) == slash_after_run(t@, c + 4),
        decreases t.len() - j,
    {
        j = j + 1;
    }
    let m: usize = if j < t.len() && !is_white_space_char(t[j - 1]) { j } else { t.len() };
    if !(m < t.len()) {
        return None;
    }
    let q = find_char_exec(t, '"', m + 1);
    proof { lemma_find_char(t@, '"', m + 1); }
    if !(q < t.len()) {
        return None;
    }
    if q + 1 < t.len() && t[q + 1] == ',' {
        Some((e, m, q, q + 2))
    } else {
        Some((e, m, q, q + 1))
    }
}

/// The leftmost match of the action pattern at or after `pos`.
fn next_action_exec(t: &[char], pos: usize) -> (r: Option<(usize, usize, usize, usize, usize)>)
    requires
        pos <= t@.len(),
    ensures
        match next_action(t@, pos as int) {
            Some((s, e, m, q, end)) => r == Some((s as usize, e as usize, m as usize, q as usize, end as usize))
                && pos <= s < e < t@.len() && m < q < t@.len() && s < end <= t@.len(),
            None => r is None,
        },
{
    proof { lemma_next_action(t@, pos as int); }
    let mut s = pos;
    while s < t.len()
        invariant
            pos <= s <= t@.len(),
            next_action(t@, s as int) == next_action(t@, pos as int),
        decreases t.len() - s,
    {
        match action_at_exec(t, s) {
            Some((e, m, q, end)) => {
                return Some((s, e, m, q, end));
            },
            None => {},
        }
        s = s + 1;
    }
    None
}

/// Appends `t[a..b]` to `r`.
fn push_range(r: &mut Vec<char>, t: &[char], a: usize, b: usize)
    requires
        a <= b <= t@.len(),
    ensures
        final(r)@ == old(r)@ + t@.subrange(a as int, b as int),
{
    let ghost before = r@;
    let mut k = a;
    while k < b
        invariant
            a <= k <= b,
            b <= t@.len(),
            r@ == before + t@.subrange(a as int, k as int),
        decreases b - k,
    {
        r.push(t[k]);
        assert(t@.subrange(a as int, k + 1) == t@.subrange(a as int, k as int).push(t@[k as int]));
        k = k + 1;
    }
}

/// The (key, path) pairs of the successive matches of the action pattern.
fn actions_exec(t: &[char]) -> (r: Vec<(Vec<char>, Vec<char>)>)
    ensures
        r@.map_values(|p: (Vec<char>, Vec<char>)| (p.0@, p.1@)) == actions_from(t@, 0),
{
    let mut r: Vec<(Vec<char>, Vec<char>)> = Vec::new();
    let mut pos: usize = 0;
    loop
        invariant
            pos <= t@.len(),
            r@.map_values(|p: (Vec<char>, Vec<char>)| (p.0@, p.1@)) + actions_from(t@, pos as int)
                == actions_from(t@, 0),
        decreases t@.len() - pos,
    {
        proof { lemma_next_action(t@, pos as int); }
        let found = next_action_exec(t, pos);
        match found {
            None => {
                assert(r@.map_values(|p: (Vec<char>, Vec<char>)| (p.0@, p.1@)) + Seq::empty()
                    == r@.map_values(|p: (Vec<char>, Vec<char>)| (p.0@, p.1@)));
                return r;
            },
            Some((s0, e, m, q, end)) => {
                assert(t@.len() == t.len());
                let mut key: Vec<char> = Vec::new();
                push_range(&mut key, t, s0, e);
                let mut path: Vec<char> = Vec::new();
                push_range(&mut path, t, m, q);
                let ghost before = r@;
                r.push((key, path));
                proof {
                    let f = |p: (Vec<char>, Vec<char>)| (p.0@, p.1@);
                    assert(r@.map_values(f) == before.map_values(f).push((t@.subrange(s0 as int, e as int), t@.subrange(m as int, q as int))));
                    assert(actions_from(t@, pos as int) == seq![(t@.subrange(s0 as int, e as int), t@.subrange(m as int, q as int))] + actions_from(t@, end as int));
                    assert(before.map_values(f) + actions_from(t@, pos as int) == r@.map_values(f) + actions_from(t@, end as int));
                }
                pos = end;
            },
        }
    }
}

/// A character of the class `[\r\n\t ]`.
pub open spec fn is_blank(c: char) -> bool {
    c == '\r' || c == '\n' || c == '\t' || c == ' '
}

/// `t[i..]` with each run of `[\r\n\t ]` replaced by one space; `in_run`
/// tells whether `t[i - 1]` belongs to a run whose space was already given.
pub open spec fn collapse_from(t: Seq<char>, i: int, in_run: bool) -> Seq<char>
    decreases t.len() - i,
{
    if i < 0 || i >= t.len() {
        Seq::empty()
    } else if is_blank(t[i]) {
        if in_run {
            collapse_from(t, i + 1, true)
        } else {
            seq![' '] + collapse_from(t, i + 1, true)
        }
    } else {
        seq![t[i]] + collapse_from(t, i + 1, false)
    }
}

/// `t` with `[\r\n\t ]+` replaced by a single space everywhere.
pub open spec fn collapse_blanks(t: Seq<char>) -> Seq<char> {
    collapse_from(t, 0, false)
}

fn collapse_exec(t: &[char]) -> (r: Vec<char>)
    ensures
        r@ == collapse_blanks(t@),
{
    let mut r: Vec<char> = Vec::new();
    let mut in_run = false;
    let mut i: usize = 0;
    while i < t.len()
        invariant
            i <= t@.len(),
            r@ + collapse_from(t@, i as int, in_run) == collapse_blanks(t@),
        decreases t.len() - i,
    {
        let c = t[i];
        let ghost before = r@;
        if c == '\r' || c == '\n' || c == '\t' || c == ' ' {
            if !in_run {
                r.push(' ');
                assert(before + (seq![' '] + collapse_from(t@, i + 1, true)) == r@ + collapse_from(t@, i + 1, true));
            }
            in_run = true;
        } else {
            r.push(c);
            assert(before + (seq![c] + collapse_from(t@, i + 1, false)) == r@ + collapse_from(t@, i + 1, false));
            in_run = false;
        }
        i = i + 1;
    }
    assert(r@ + Seq::<char>::empty() == r@);
    r
}

/// The first position at or after `i` that holds `}` or `,`, or `t.len()`.
pub open spec fn find_delim(t: Seq<char>, i: int) -> int
    decreases t.len() - i,
{
    if i < 0 || i >= t.len() {
        t.len() as int
    } else if t[i] == '}' || t[i] == ',' {
        i
    } else {
        find_delim(t, i + 1)
    }
}

/// Where `(location\.protocol[\s\S]+?)(\}|,)` matches at `s`: the position
/// of the closing `}` or `,`, or `t.len()` when it does not match there.
pub open spec fn script_value_at(t: Seq<char>, s: int) -> int {
    if occurs_at(t, "location.protocol"@, s) {
        find_delim(t, s + "location.protocol"@.len() + 1)
    } else {
        t.len() as int
    }
}

/// `t[pos..]` with each match of `(location\.protocol[\s\S]+?)(\}|,)`
/// replaced by `"/JS/EXPRESSION/REMOVED"` and the closing character.
pub open spec fn strip_script_values_from(t: Seq<char>, pos: int) -> Seq<char>
    decreases t.len() - pos,
{
    if pos < 0 || pos >= t.len() {
        Seq::empty()
    } else {
        let d = script_value_at(t, pos);
        if pos < d < t.len() {
            "\"/JS/EXPRESSION/REMOVED\""@ + seq![t[d]] + strip_script_values_from(t, d + 1)
        } else {
            seq![t[pos]] + strip_script_values_from(t, pos + 1)
        }
    }
}

/// Where `([,\s{])(\w+)(\s*?:)` matches at `s`: the end `e` of the word and
/// the position `c` of the colon.
pub open spec fn bare_key_at(t: Seq<char>, s: int) -> Option<(int, int)> {
    if 0 <= s < t.len() && (t[s] == ',' || t[s] == '{' || is_white_space(t[s])) {
        let e = word_end(t, s + 1);
        let c = ws_end(t, e);
        if s + 1 < e <= c < t.len() && t[c] == ':' {
            Some((e, c))
        } else {
            None
        }
    } else {
        None
    }
}

/// `t[pos..]` with each match of `([,\s{])(\w+)(\s*?:)` replaced by
/// `$1"$2"$3`: the word put in double quotes.
pub open spec fn quote_keys_from(t: Seq<char>, pos: int) -> Seq<char>
    decreases t.len() - pos,
{
    if pos < 0 || pos >= t.len() {
        Seq::empty()
    } else {
        match bare_key_at(t, pos) {
            Some((e, c)) => if pos < c < t.len() {
                seq![t[pos], '"'] + t.subrange(pos + 1, e) + seq!['"'] + t.subrange(e, c + 1)
                    + quote_keys_from(t, c + 1)
            } else {
                Seq::empty()
            },
            None => seq![t[pos]] + quote_keys_from(t, pos + 1),
        }
    }
}

/// Where `,\s*?\}` matches at `s`: the position of the `}`, or `t.len()`.
pub open spec fn trailing_comma_at(t: Seq<char>, s: int) -> int {
    if 0 <= s < t.len() && t[s] == ',' {
        let c = ws_end(t, s + 1);
        if s < c < t.len() && t[c] == '}' { c } else { t.len() as int }
    } else {
        t.len() as int
    }
}

/// `t[pos..]` with each match of `,\s*?\}` replaced by `}`.
pub open spec fn drop_trailing_commas_from(t: Seq<char>, pos: int) -> Seq<char>
    decreases t.len() - pos,
{
    if pos < 0 || pos >= t.len() {
        Seq::empty()
    } else {
        let c = trailing_comma_at(t, pos);
        if pos < c < t.len() {
            seq!['}'] + drop_trailing_commas_from(t, c + 1)
        } else {
            seq![t[pos]] + drop_trailing_commas_from(t, pos + 1)
        }
    }
}

proof fn lemma_find_delim(t: Seq<char>, i: int)
    requires
        0 <= i <= t.len(),
    ensures
        i <= find_delim(t, i) <= t.len(),
    decreases t.len() - i,
{
    if i < t.len() && !(t[i] == '}' || t[i] == ',') {
        lemma_find_delim(t, i + 1);
    }
}

fn find_delim_exec(t: &[char], i: usize) -> (r: usize)
    requires
        i <= t@.len(),
    ensures
        r == find_delim(t@, i as int),
{
    let mut j = i;
    while j < t.len() && t[j] != '}' && t[j] != ','
        invariant
            i <= j <= t@.len(),
            find_delim(t@, j as int) == find_delim(t@, i as int),
        decreases t.len() - j,
    {
        j = j + 1;
    }
    j
}

/// `t` with each match of `(location\.protocol[\s\S]+?)(\}|,)` replaced by
/// `"/JS/EXPRESSION/REMOVED"` and the closing character.
fn strip_script_values(t: &[char]) -> (r: Vec<char>)
    ensures
        r@ == strip_script_values_from(t@, 0),
{
    let lp = chars_of("location.protocol");
    let rep = chars_of("\"/JS/EXPRESSION/REMOVED\"");
    let mut r: Vec<char> = Vec::new();
    let mut pos: usize = 0;
    while pos < t.len()
        invariant
            pos <= t@.len(),
            lp@ == "location.protocol"@,
            rep@ == "\"/JS/EXPRESSION/REMOVED\""@,
            r@ + strip_script_values_from(t@, pos as int) == strip_script_values_from(t@, 0),
        decreases t.len() - pos,
    {
        let ghost before = r@;
        let mut d: usize = t.len();
        if occurs_at_exec(t, lp.as_slice(), pos) {
            assert(pos + lp.len() <= t.len());
            if pos + lp.len() < t.len() {
                d = find_delim_exec(t, pos + lp.len() + 1);
                proof { lemma_find_delim(t@, pos + lp@.len() + 1); }
            }
        }
        assert(d == script_value_at(t@, pos as int));
        if pos < d && d < t.len() {
            push_range(&mut r, rep.as_slice(), 0, rep.len());
            r.push(t[d]);
            assert(rep@.subrange(0, rep@.len() as int) == rep@);
            assert(before + ("\"/JS/EXPRESSION/REMOVED\""@ + seq![t@[d as int]] + strip_script_values_from(t@, d + 1))
                == r@ + strip_script_values_from(t@, d + 1));
            pos = d + 1;
        } else {
            r.push(t[pos]);
            assert(before + (seq![t@[pos as int]] + strip_script_values_from(t@, pos + 1))
                == r@ + strip_script_values_from(t@, pos + 1));
            pos = pos + 1;
        }
    }
    assert(r@ + Seq::<char>::empty() == r@);
    r
}

/// `t` with each match of `([,\s{])(\w+)(\s*?:)` replaced by `$1"$2"$3`.
fn quote_keys(t: &[char]) -> (r: Vec<char>)
    ensures
        r@ == quote_keys_from(t@, 0),
{
    let mut r: Vec<char> = Vec::new();
    let mut pos: usize = 0;
    while pos < t.len()
        invariant
            pos <= t@.len(),
            r@ + quote_keys_from(t@, pos as int) == quote_keys_from(t@, 0),
        decreases t.len() - pos,
    {
        let ghost before = r@;
        let c0 = t[pos];
        let mut matched = false;
        if c0 == ',' || c0 == '{' || is_white_space_char(c0) {
            let e = word_end_exec(t, pos + 1);
            proof { lemma_word_end(t@, pos + 1); }
            let c = ws_end_exec(t, e);
            proof { lemma_ws_end(t@, e as int); }
            if pos + 1 < e && c < t.len() && t[c] == ':' {
                assert(bare_key_at(t@, pos as int) == Some((e as int, c as int)));
                r.push(c0);
                r.push('"');
                push_range(&mut r, t, pos + 1, e);
                r.push('"');
                push_range(&mut r, t, e, c + 1);
                assert(before + (seq![c0, '"'] + t@.subrange(pos + 1, e as int) + seq!['"']
                    + t@.subrange(e as int, c + 1) + quote_keys_from(t@, c + 1))
                    == r@ + quote_keys_from(t@, c + 1));
                pos = c + 1;
                matched = true;
            } else {
                assert(bare_key_at(t@, pos as int) is None);
            }
        } else {
            assert(bare_key_at(t@, pos as int) is None);
        }
        if !matched {
            r.push(c0);
            assert(before + (seq![c0] + quote_keys_from(t@, pos + 1)) == r@ + quote_keys_from(t@, pos + 1));
            pos = pos + 1;
        }
    }
    assert(r@ + Seq::<char>::empty() == r@);
    r
}

/// `t` with each match of `,\s*?\}` replaced by `}`.
fn drop_trailing_commas(t: &[char]) -> (r: Vec<char>)
    ensures
        r@ == drop_trailing_commas_from(t@, 0),
{
    let mut r: Vec<char> = Vec::new();
    let mut pos: usize = 0;
    while pos < t.len()
        invariant
            pos <= t@.len(),
            r@ + drop_trailing_commas_from(t@, pos as int) == drop_trailing_commas_from(t@, 0),
        decreases t.len() - pos,
    {
        let ghost before = r@;
        let mut c: usize = t.len();
        if t[pos] == ',' {
            let w = ws_end_exec(t, pos + 1);
            proof { lemma_ws_end(t@, pos + 1); }
            if w < t.len() && t[w] == '}' {
                c = w;
            }
        }
        assert(c == trailing_comma_at(t@, pos as int));
        if pos < c && c < t.len() {
            r.push('}');
            assert(before + (seq!['}'] + drop_trailing_commas_from(t@, c + 1)) == r@ + drop_trailing_commas_from(t@, c + 1));
            pos = c + 1;
        } else {
            r.push(t[pos]);
            assert(before + (seq![t@[pos as int]] + drop_trailing_commas_from(t@, pos + 1))
                == r@ + drop_trailing_commas_from(t@, pos + 1));
            pos = pos + 1;
        }
    }
    assert(r@ + Seq::<char>::empty() == r@);
    r
}

/// A JSON value (`serde_json::Value`), carried through unread.
#[verifier::external_type_specification]
#[verifier::external_body]
pub struct ExJsonValue(serde_json::Value);

/// What `serde_json` reads from a text: its error message where the text
/// is not JSON; otherwise the parsed value and, where that value is an
/// object, its members in the order `serde_json` keeps them (by key), each
/// with its text where the member is a string.
pub uninterp spec fn json_members(text: Seq<char>) -> Result<(serde_json::Value, Option<Seq<(Seq<char>, Option<Seq<char>>)>>), Seq<char>>;

/// The error message with which `serde_json` refuses a text as JSON, or
/// `None` where the text is JSON.
pub open spec fn json_parse_error(text: Seq<char>) -> Option<Seq<char>> {
    match json_members(text) {
        Err(m) => Some(m),
        Ok(_) => None,
    }
}

/// The view of a list of object members.
pub open spec fn member_views(ms: Option<Vec<(String, Option<String>)>>) -> Option<Seq<(Seq<char>, Option<Seq<char>>)>> {
    match ms {
        Some(v) => Some(v@.map_values(|m: (String, Option<String>)| (m.0@, opt_chars(m.1)))),
        None => None,
    }
}

/// `serde_json::from_str::<serde_json::Value>`, then, for an object, each
/// member's key with `as_str` of its value. Trusted: the result depends on
/// the text alone and is named `json_members`; nothing is stated of the
/// JSON grammar or of the parsed value beyond that.
#[verifier::external_body]
fn parse_json(text: &str) -> (r: Result<(serde_json::Value, Option<Vec<(String, Option<String>)>>), String>)
    ensures
        match r {
            Ok((v, ms)) => json_members(text@) == Ok::<(serde_json::Value, Option<Seq<(Seq<char>, Option<Seq<char>>)>>), Seq<char>>((v, member_views(ms))),
            Err(m) => json_members(text@) == Err::<(serde_json::Value, Option<Seq<(Seq<char>, Option<Seq<char>>)>>), Seq<char>>(m@),
        },
{
    match serde_json::from_str::<serde_json::Value>(text) {
        Ok(v) => {
            let ms = v.as_object().map(|o| o.iter().map(|(k, x)| (k.clone(), x.as_str().map(|t| t.to_string()))).collect());
            Ok((v, ms))
        },
        Err(e) => Err(e.to_string()),
    }
}

/// The members whose value is a string, with that string, in order.
pub open spec fn string_members(ms: Seq<(Seq<char>, Option<Seq<char>>)>) -> Seq<(Seq<char>, Seq<char>)>
    decreases ms.len(),
{
    if ms.len() == 0 {
        Seq::empty()
    } else {
        let prev = string_members(ms.drop_last());
        match ms.last().1 {
            Some(v) => prev.push((ms.last().0, v)),
            None => prev,
        }
    }
}

fn string_members_exec(ms: &Vec<(String, Option<String>)>) -> (r: Vec<(String, String)>)
    ensures
        pair_views(r@) == string_members(member_views(Some(*ms))->0),
{
    let ghost all = member_views(Some(*ms))->0;
    let mut r: Vec<(String, String)> = Vec::new();
    let mut i: usize = 0;
    while i < ms.len()
        invariant
            i <= ms@.len(),
            all == member_views(Some(*ms))->0,
            all.len() == ms@.len(),
            pair_views(r@) == string_members(all.take(i as int)),
        decreases ms.len() - i,
    {
        let ghost before = r@;
        assert(all.take(i + 1).drop_last() == all.take(i as int));
        assert(all[i as int] == (ms@[i as int].0@, opt_chars(ms@[i as int].1)));
        match &ms[i].1 {
            Some(v) => {
                r.push((ms[i].0.clone(), v.clone()));
                assert(pair_views(r@) == pair_views(before).push((ms@[i as int].0@, v@)));
            },
            None => {},
        }
        i = i + 1;
    }
    assert(all.take(all.len() as int) == all);
    r
}

/// What the parsed page map gives, for a cleaned page-map text that is
/// JSON: the parsed value, and the string members where it is an object.
pub open spec fn pages_agree(pages: serde_json::Value, entries: Option<Vec<(String, String)>>, text: Seq<char>) -> bool {
    match json_members(text) {
        Ok((v, ms)) => pages == v && match ms {
            None => entries is None,
            Some(m) => entries matches Some(e) && pair_views(e@) == string_members(m),
        },
        Err(_) => false,
    }
}

/// What the launcher reads from its main page.
pub struct PageMaps {
    /// The action addresses: each action's key with the launcher's base
    /// address followed by the action's path, in the order of the page
    /// (a later entry for a key replaces an earlier one).
    pub acts: Vec<(String, String)>,
    /// The page map's object text, cleaned into JSON.
    pub pages_json: String,
    /// That text, parsed.
    pub pages: serde_json::Value,
    /// The members of the parsed page map whose value is a string, in the
    /// order `serde_json` keeps them; `None` where the page map is not an
    /// object.
    pub page_entries: Option<Vec<(String, String)>>,
}

/// The page map's object text made into JSON: blank runs collapsed to one
/// space, the ends trimmed, the spaces inside the braces dropped, script
/// values replaced by a placeholder string, bare keys quoted and trailing
/// commas removed.
pub open spec fn pages_cleanup(raw: Seq<char>) -> Seq<char> {
    let a = trim_spec(collapse_blanks(raw));
    let b = replace_all_spec(replace_all_spec(a, "{ "@, "{"@), " }"@, "}"@);
    drop_trailing_commas_from(quote_keys_from(strip_script_values_from(b, 0), 0), 0)
}

/// The action entries of the action map's object text: each match's key
/// with `base_url` followed by its path.
pub open spec fn acts_entries(raw: Seq<char>, base_url: Seq<char>) -> Seq<(Seq<char>, Seq<char>)> {
    actions_from(raw, 0).map_values(|kp: (Seq<char>, Seq<char>)| (kp.0, base_url + kp.1))
}

/// The view of a list of string pairs.
pub open spec fn pair_views(v: Seq<(String, String)>) -> Seq<(Seq<char>, Seq<char>)> {
    v.map_values(|p: (String, String)| (p.0@, p.1@))
}

fn sub_chars(t: &[char], a: usize, b: usize) -> (r: Vec<char>)
    requires
        a <= b <= t@.len(),
    ensures
        r@ == t@.subrange(a as int, b as int),
{
    let mut r: Vec<char> = Vec::new();
    push_range(&mut r, t, a, b);
    r
}

/// Reads the action and page maps from the launcher's main page: the
/// objects assigned to `var ACTS_MAP` and `var PAGES_MAP`. Each action's
/// address is rebuilt as `base_url` followed by its path; the page map's
/// text is cleaned into JSON and parsed. Fails when either variable is
/// missing, or when the cleaned page map is not JSON.
pub fn extract_maps_from_html(html: &str, base_url: &str) -> (r: Result<PageMaps, String>)
    ensures
        map_block(html@, "var ACTS_MAP"@) is None ==> (r matches Err(e) && e@ == "Could not find ACTS_MAP in HTML"@),
        map_block(html@, "var ACTS_MAP"@) is Some && map_block(html@, "var PAGES_MAP"@) is None
            ==> (r matches Err(e) && e@ == "Could not find PAGES_MAP in HTML"@),
        map_block(html@, "var ACTS_MAP"@) is Some && map_block(html@, "var PAGES_MAP"@) is Some
            ==> match json_parse_error(pages_cleanup(map_block(html@, "var PAGES_MAP"@)->0)) {
                Some(m) => r matches Err(e) && e@ == "Failed to parse pagesMap JSON: "@ + m,
                None => r matches Ok(pm)
                    && pair_views(pm.acts@) == acts_entries(map_block(html@, "var ACTS_MAP"@)->0, base_url@)
                    && pm.pages_json@ == pages_cleanup(map_block(html@, "var PAGES_MAP"@)->0)
                    && pages_agree(pm.pages, pm.page_entries, pages_cleanup(map_block(html@, "var PAGES_MAP"@)->0)),
            },
{
    let t = chars_of(html);
    assert(t@.len() == t.len());
    let acts_decl = chars_of("var ACTS_MAP");
    let acts_raw = match find_block(t.as_slice(), acts_decl.as_slice()) {
        Some((a, b)) => sub_chars(t.as_slice(), a, b),
        None => {
            return Err(owned("Could not find ACTS_MAP in HTML"));
        },
    };
    let pages_decl = chars_of("var PAGES_MAP");
    let pages_raw = match find_block(t.as_slice(), pages_decl.as_slice()) {
        Some((a, b)) => sub_chars(t.as_slice(), a, b),
        None => {
            return Err(owned("Could not find PAGES_MAP in HTML"));
        },
    };
    // The actions, with their full addresses.
    let items = actions_exec(acts_raw.as_slice());
    let ghost want = acts_entries(acts_raw@, base_url@);
    let mut acts: Vec<(String, String)> = Vec::new();
    let mut i: usize = 0;
    while i < items.len()
        invariant
            i <= items@.len(),
            items@.map_values(|p: (Vec<char>, Vec<char>)| (p.0@, p.1@)) == actions_from(acts_raw@, 0),
            want == acts_entries(acts_raw@, base_url@),
            pair_views(acts@) == want.take(i as int),
        decreases items.len() - i,
    {
        let key = string_of(items[i].0.as_slice());
        let mut url = owned(base_url);
        push_chars(&mut url, items[i].1.as_slice());
        let ghost before = acts@;
        acts.push((key, url));
        proof {
            let f = |p: (Vec<char>, Vec<char>)| (p.0@, p.1@);
            assert(items@.map_values(f)[i as int] == (items@[i as int].0@, items@[i as int].1@));
            assert(pair_views(acts@) == pair_views(before).push(want[i as int]));
            assert(want.take(i + 1) == want.take(i as int).push(want[i as int]));
        }
        i = i + 1;
    }
    assert(want.take(items@.len() as int) == want);
    // The page map, cleaned into JSON.
    let collapsed = collapse_exec(pages_raw.as_slice());
    let trimmed = trim_chars(collapsed.as_slice());
    let open_pat = chars_of("{ ");
    let open_rep = chars_of("{");
    let close_pat = chars_of(" }");
    let close_rep = chars_of("}");
    proof {
        reveal_strlit("{ ");
        reveal_strlit(" }");
    }
    let opened = replace_all(trimmed.as_slice(), open_pat.as_slice(), open_rep.as_slice());
    let closed = replace_all(opened.as_slice(), close_pat.as_slice(), close_rep.as_slice());
    let stripped = strip_script_values(closed.as_slice());
    let quoted = quote_keys(stripped.as_slice());
    let cleaned = drop_trailing_commas(quoted.as_slice());
    let pages_json = string_of(cleaned.as_slice());
    match parse_json(pages_json.as_str()) {
        Ok((pages, members)) => {
            let page_entries = match &members {
                Some(ms) => Some(string_members_exec(ms)),
                None => None,
            };
            Ok(PageMaps { acts, pages_json, pages, page_entries })
        },
        Err(m) => {
            let mut e = owned("Failed to parse pagesMap JSON: ");
            push_str(&mut e, m.as_str());
            Err(e)
        },
    }
}

} // verus!
