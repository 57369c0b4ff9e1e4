//! Launcher version strings: parsing, comparison, and the update decision.
use vstd::prelude::*;
use std::cmp::Ordering;
use crate::text::{chars_of, last_index_of, lemma_last_index_of};

verus! {

/// The pieces of `s` between dots (`str::split('.')`): one more piece than
/// there are dots; empty pieces included.
pub open spec fn split_dots(s: Seq<char>) -> Seq<Seq<char>>
    decreases s.len(),
{
    let k = last_index_of(s, '.');
    if k < 0 {
        seq![s]
    } else {
        proof { lemma_last_index_of(s, '.'); }
        split_dots(s.take(k)).push(s.skip(k + 1))
    }
}

/// The value of a string of decimal digits.
pub open spec fn digits_value(s: Seq<char>) -> nat
    decreases s.len(),
{
    if s.len() == 0 {
        0
    } else {
        digits_value(s.drop_last()) * 10 + (s.last() as nat - 48) as nat
    }
}

pub open spec fn is_digit(c: char) -> bool {
    '0' <= c && c <= '9'
}

/// The text after an optional leading `+`.
pub open spec fn unsigned_digits(s: Seq<char>) -> Seq<char> {
    if s.len() > 0 && s[0] == '+' { s.skip(1) } else { s }
}

pub open spec fn all_digits(d: Seq<char>) -> bool {
    forall|i: int| 0 <= i < d.len() ==> is_digit(#[trigger] d[i])
}

/// What `str::parse::<u32>` gives: an optional `+`, then one or more
/// decimal digits whose value fits in a `u32`; anything else fails.
pub open spec fn parse_u32_spec(s: Seq<char>) -> Option<u32> {
    let d = unsigned_digits(s);
    if d.len() > 0 && all_digits(d) && digits_value(d) <= u32::MAX {
        Some(digits_value(d) as u32)
    } else {
        None
    }
}

/// The numeric parts of a version string: its dot-separated pieces that
/// parse as `u32`, in order; the others are dropped.
pub open spec fn numeric_parts(pieces: Seq<Seq<char>>) -> Seq<u32>
    decreases pieces.len(),
{
    if pieces.len() == 0 {
        Seq::empty()
    } else {
        let prev = numeric_parts(pieces.drop_last());
        match parse_u32_spec(pieces.last()) {
            Some(v) => prev.push(v),
            None => prev,
        }
    }
}

pub open spec fn version_parts(s: Seq<char>) -> Seq<u32> {
    numeric_parts(split_dots(s))
}

/// Part `i` of a version, 0 past its end.
pub open spec fn part_or_zero(p: Seq<u32>, i: int) -> u32 {
    if 0 <= i < p.len() { p[i] } else { 0 }
}

/// Comparison of two part lists from index `i` on, the shorter padded with
/// zeros: -1, 0 or 1.
pub open spec fn compare_parts_from(a: Seq<u32>, b: Seq<u32>, i: int) -> int
    decreases (if a.len() > b.len() { a.len() } else { b.len() }) - i,
{
    let n = if a.len() > b.len() { a.len() } else { b.len() };
    if i >= n || i < 0 {
        0
    } else if part_or_zero(a, i) < part_or_zero(b, i) {
        -1
    } else if part_or_zero(a, i) > part_or_zero(b, i) {
        1
    } else {
        compare_parts_from(a, b, i + 1)
    }
}

/// How version `a` compares with version `b`: -1 older, 0 same, 1 newer.
pub open spec fn version_order(a: Seq<char>, b: Seq<char>) -> int {
    compare_parts_from(version_parts(a), version_parts(b), 0)
}

proof fn lemma_digits_value_grows(s: Seq<char>)
    requires
        s.len() > 0,
        forall|i: int| 0 <= i < s.len() ==> is_digit(#[trigger] s[i]),
    ensures
        digits_value(s) >= digits_value(s.drop_last()),
{
}

proof fn lemma_digits_prefix_bound(s: Seq<char>, n: int)
    requires
        0 <= n <= s.len(),
        forall|i: int| 0 <= i < s.len() ==> is_digit(#[trigger] s[i]),
    ensures
        digits_value(s) >= digits_value(s.take(n)),
    decreases s.len() - n,
{
    if n < s.len() {
        let t = s.drop_last();
        assert forall|i: int| 0 <= i < t.len() implies is_digit(#[trigger] t[i]) by {
            assert(t[i] == s[i]);
        }
        lemma_digits_prefix_bound(t, n);
        assert(t.take(n) == s.take(n));
        assert(is_digit(s[s.len() - 1]));
        lemma_digits_value_grows(s);
    } else {
        assert(s.take(n) == s);
    }
}

/// `str::parse::<u32>` on a character sequence, by the rule of `parse_u32_spec`.
pub fn parse_u32(s: &[char]) -> (r: Option<u32>)
    ensures
        r == parse_u32_spec(s@),
{
    let start: usize = if s.len() > 0 && s[0] == '+' { 1 } else { 0 };
    let ghost d = unsigned_digits(s@);
    assert(d == s@.skip(start as int));
    if start >= s.len() {
        return None;
    }
    let mut v: u64 = 0;
    let mut i: usize = start;
    while i < s.len()
        invariant
            start <= i <= s.len(),
            d == s@.skip(start as int),
            d == unsigned_digits(s@),
            forall|k: int| 0 <= k < i - start ==> is_digit(#[trigger] d[k]),
            v == digits_value(d.take(i - start)),
            v <= u32::MAX,
        decreases s.len() - i,
    {
        let c = s[i];
        assert(d[i - start] == c);
        if !('0' <= c && c <= '9') {
            assert(!is_digit(d[i - start]));
            return None;
        }
        let digit = (c as u32 - 48) as u64;
        assert(d.take(i - start + 1).drop_last() == d.take(i - start));
        assert(d.take(i - start + 1).last() == c);
        let nv = v * 10 + digit;
        assert(digit == c as nat - 48);
        assert(digits_value(d.take(i - start + 1)) == v * 10 + digit);
        if nv > 4294967295 {
            proof {
                if all_digits(d) {
                    lemma_digits_prefix_bound(d, i - start + 1);
                }
            }
            return None;
        }
        v = nv;
        i = i + 1;
    }
    assert(d.take(d.len() as int) == d);
    Some(v as u32)
}

proof fn lemma_split_dots_nonempty(s: Seq<char>)
    ensures
        split_dots(s).len() >= 1,
    decreases s.len(),
{
    let k = last_index_of(s, '.');
    lemma_last_index_of(s, '.');
    if k >= 0 {
        lemma_split_dots_nonempty(s.take(k));
    }
}

/// The numeric parts of a version string.
pub fn parse_version_parts(s: &str) -> (parts: Vec<u32>)
    ensures
        parts@ == version_parts(s@),
{
    let cs = chars_of(s);
    // Split on dots, keeping the pieces in order.
    let mut pieces: Vec<Vec<char>> = Vec::new();
    let mut cur: Vec<char> = Vec::new();
    let mut last_dot: usize = 0;
    let mut seen_dot = false;
    let mut i: usize = 0;
    let ghost mut done: Seq<char> = Seq::empty();
    while i < cs.len()
        invariant
            i <= cs.len(),
            cs@ == s@,
            ({
                let pre = cs@.take(i as int);
                let k = last_index_of(pre, '.');
                &&& cur@ == (if k < 0 { pre } else { pre.skip(k + 1) })
                &&& pieces@.len() + 1 == split_dots(pre).len()
                &&& forall|j: int| 0 <= j < pieces@.len() ==> #[trigger] pieces@[j]@ == split_dots(pre)[j]
            }),
        decreases cs.len() - i,
    {
        let ghost pre = cs@.take(i as int);
        let ghost next = cs@.take(i + 1);
        proof {
            lemma_last_index_of(pre, '.');
            lemma_split_dots_nonempty(pre);
            assert(next.drop_last() == pre);
        }
        if cs[i] == '.' {
            let piece = cur;
            cur = Vec::new();
            pieces.push(piece);
            proof {
                assert(last_index_of(next, '.') == i);
                assert(next.take(i as int) == pre);
                assert(next.skip(i + 1) =~= Seq::<char>::empty());
                let k = last_index_of(pre, '.');
                assert(split_dots(pre).last() == (if k < 0 { pre } else { pre.skip(k + 1) }));
            }
        } else {
            cur.push(cs[i]);
            proof {
                let k = last_index_of(pre, '.');
                assert(last_index_of(next, '.') == k);
                if k >= 0 {
                    assert(next.take(k) == pre.take(k));
                    assert(next.skip(k + 1) =~= pre.skip(k + 1).push(cs@[i as int]));
                } else {
                    assert(split_dots(next) == seq![next]);
                }
            }
        }
        i = i + 1;
    }
    pieces.push(cur);
    let ghost all = split_dots(s@);
    proof {
        assert(cs@.take(cs@.len() as int) == s@);
        lemma_last_index_of(s@, '.');
    }
    let mut parts: Vec<u32> = Vec::new();
    let mut j: usize = 0;
    while j < pieces.len()
        invariant
            j <= pieces@.len(),
            pieces@.len() == all.len(),
            forall|t: int| 0 <= t < pieces@.len() ==> #[trigger] pieces@[t]@ == all[t],
            parts@ == numeric_parts(all.take(j as int)),
        decreases pieces.len() - j,
    {
        assert(all.take(j + 1).drop_last() == all.take(j as int));
        match parse_u32(pieces[j].as_slice()) {
            Some(v) => parts.push(v),
            None => {},
        }
        j = j + 1;
    }
    assert(all.take(all.len() as int) == all);
    parts
}

/// Compares two part lists, the shorter padded with zeros: -1, 0 or 1.
fn compare_part_lists(a: &Vec<u32>, b: &Vec<u32>) -> (r: i8)
    ensures
        r == compare_parts_from(a@, b@, 0),
{
    let n = if a.len() > b.len() { a.len() } else { b.len() };
    let mut i: usize = 0;
    while i < n
        invariant
            i <= n,
            n == (if a@.len() > b@.len() { a@.len() } else { b@.len() }),
            compare_parts_from(a@, b@, 0) == compare_parts_from(a@, b@, i as int),
        decreases n - i,
    {
        let x: u32 = if i < a.len() { a[i] } else { 0 };
        let y: u32 = if i < b.len() { b[i] } else { 0 };
        if x < y {
            return -1;
        }
        if x > y {
            return 1;
        }
        i = i + 1;
    }
    0
}

/// Compares two version strings part by part, numerically, the shorter
/// padded with zeros; pieces that are not numbers are dropped first.
pub fn compare_versions(current: &str, latest: &str) -> (o: Ordering)
    ensures
        match o {
            Ordering::Less => version_order(current@, latest@) == -1,
            Ordering::Equal => version_order(current@, latest@) == 0,
            Ordering::Greater => version_order(current@, latest@) == 1,
        },
{
    let a = parse_version_parts(current);
    let b = parse_version_parts(latest);
    let r = compare_part_lists(&a, &b);
    proof { lemma_compare_range(a@, b@, 0); }
    if r < 0 {
        Ordering::Less
    } else if r > 0 {
        Ordering::Greater
    } else {
        Ordering::Equal
    }
}

proof fn lemma_compare_reflexive(a: Seq<u32>, i: int)
    requires
        i >= 0,
    ensures
        compare_parts_from(a, a, i) == 0,
    decreases a.len() - i,
{
    if i < a.len() {
        lemma_compare_reflexive(a, i + 1);
    }
}

proof fn lemma_compare_antisymmetric(a: Seq<u32>, b: Seq<u32>, i: int)
    requires
        i >= 0,
    ensures
        compare_parts_from(a, b, i) == -compare_parts_from(b, a, i),
    decreases (if a.len() > b.len() { a.len() } else { b.len() }) - i,
{
    let n = if a.len() > b.len() { a.len() } else { b.len() };
    if i < n {
        lemma_compare_antisymmetric(a, b, i + 1);
    }
}

proof fn lemma_compare_range(a: Seq<u32>, b: Seq<u32>, i: int)
    ensures
        -1 <= compare_parts_from(a, b, i) <= 1,
    decreases (if a.len() > b.len() { a.len() } else { b.len() }) - i,
{
    let n = if a.len() > b.len() { a.len() } else { b.len() };
    if 0 <= i < n {
        lemma_compare_range(a, b, i + 1);
    }
}

/// The padded parts agree at every index exactly when the comparison says 0.
proof fn lemma_compare_zero_iff(a: Seq<u32>, b: Seq<u32>, i: int)
    requires
        i >= 0,
    ensures
        compare_parts_from(a, b, i) == 0 <==> forall|k: int| k >= i ==> part_or_zero(a, k) == part_or_zero(b, k),
    decreases (if a.len() > b.len() { a.len() } else { b.len() }) - i,
{
    let n = if a.len() > b.len() { a.len() } else { b.len() };
    if i < n {
        lemma_compare_zero_iff(a, b, i + 1);
        if part_or_zero(a, i) == part_or_zero(b, i) {
            assert forall|k: int| k >= i && (forall|k2: int| k2 >= i + 1 ==> part_or_zero(a, k2) == part_or_zero(b, k2))
                implies part_or_zero(a, k) == part_or_zero(b, k) by {
                if k > i {
                }
            }
        }
    } else {
        assert forall|k: int| k >= i implies part_or_zero(a, k) == part_or_zero(b, k) by {}
    }
}

/// -1 exactly when at the first index at or after `i` where the padded
/// parts differ, `a`'s is the smaller.
proof fn lemma_compare_less_witness(a: Seq<u32>, b: Seq<u32>, i: int)
    requires
        i >= 0,
    ensures
        compare_parts_from(a, b, i) == -1 <==> exists|j: int| j >= i
            && (forall|k: int| i <= k < j ==> part_or_zero(a, k) == part_or_zero(b, k))
            && part_or_zero(a, j) < part_or_zero(b, j),
    decreases (if a.len() > b.len() { a.len() } else { b.len() }) - i,
{
    let n = if a.len() > b.len() { a.len() } else { b.len() };
    if i < n {
        lemma_compare_less_witness(a, b, i + 1);
        if part_or_zero(a, i) < part_or_zero(b, i) {
            assert(forall|k: int| i <= k < i ==> part_or_zero(a, k) == part_or_zero(b, k));
        } else if part_or_zero(a, i) > part_or_zero(b, i) {
            if exists|j: int| j >= i
                && (forall|k: int| i <= k < j ==> part_or_zero(a, k) == part_or_zero(b, k))
                && part_or_zero(a, j) < part_or_zero(b, j) {
                let j = choose|j: int| j >= i
                    && (forall|k: int| i <= k < j ==> part_or_zero(a, k) == part_or_zero(b, k))
                    && part_or_zero(a, j) < part_or_zero(b, j);
                if j > i {
                    assert(part_or_zero(a, i) == part_or_zero(b, i));
                }
            }
        } else {
            if exists|j: int| j >= i
                && (forall|k: int| i <= k < j ==> part_or_zero(a, k) == part_or_zero(b, k))
                && part_or_zero(a, j) < part_or_zero(b, j) {
                let j = choose|j: int| j >= i
                    && (forall|k: int| i <= k < j ==> part_or_zero(a, k) == part_or_zero(b, k))
                    && part_or_zero(a, j) < part_or_zero(b, j);
                assert(j != i);
                assert(forall|k: int| i + 1 <= k < j ==> part_or_zero(a, k) == part_or_zero(b, k));
            }
            if exists|j: int| j >= i + 1
                && (forall|k: int| i + 1 <= k < j ==> part_or_zero(a, k) == part_or_zero(b, k))
                && part_or_zero(a, j) < part_or_zero(b, j) {
                let j = choose|j: int| j >= i + 1
                    && (forall|k: int| i + 1 <= k < j ==> part_or_zero(a, k) == part_or_zero(b, k))
                    && part_or_zero(a, j) < part_or_zero(b, j);
                assert(forall|k: int| i <= k < j ==> part_or_zero(a, k) == part_or_zero(b, k));
            }
        }
    } else {
        if exists|j: int| j >= i
            && (forall|k: int| i <= k < j ==> part_or_zero(a, k) == part_or_zero(b, k))
            && part_or_zero(a, j) < part_or_zero(b, j) {
            let j = choose|j: int| j >= i
                && (forall|k: int| i <= k < j ==> part_or_zero(a, k) == part_or_zero(b, k))
                && part_or_zero(a, j) < part_or_zero(b, j);
            assert(false);
        }
    }
}

/// Every version is the same as itself.
pub proof fn law_version_reflexive(v: Seq<char>)
    ensures
        version_order(v, v) == 0,
{
    lemma_compare_reflexive(version_parts(v), 0);
}

/// Swapping the two versions reverses the comparison.
pub proof fn law_version_antisymmetric(a: Seq<char>, b: Seq<char>)
    ensures
        version_order(a, b) == -version_order(b, a),
        -1 <= version_order(a, b) <= 1,
{
    lemma_compare_antisymmetric(version_parts(a), version_parts(b), 0);
    lemma_compare_range(version_parts(a), version_parts(b), 0);
}

/// Being older is transitive.
pub proof fn law_version_older_transitive(a: Seq<char>, b: Seq<char>, c: Seq<char>)
    requires
        version_order(a, b) == -1,
        version_order(b, c) == -1,
    ensures
        version_order(a, c) == -1,
{
    let pa = version_parts(a);
    let pb = version_parts(b);
    let pc = version_parts(c);
    lemma_compare_less_witness(pa, pb, 0);
    lemma_compare_less_witness(pb, pc, 0);
    lemma_compare_less_witness(pa, pc, 0);
    let j1 = choose|j: int| j >= 0
        && (forall|k: int| 0 <= k < j ==> part_or_zero(pa, k) == part_or_zero(pb, k))
        && part_or_zero(pa, j) < part_or_zero(pb, j);
    let j2 = choose|j: int| j >= 0
        && (forall|k: int| 0 <= k < j ==> part_or_zero(pb, k) == part_or_zero(pc, k))
        && part_or_zero(pb, j) < part_or_zero(pc, j);
    let j = if j1 < j2 { j1 } else { j2 };
    assert(forall|k: int| 0 <= k < j ==> part_or_zero(pa, k) == part_or_zero(pc, k));
    assert(part_or_zero(pa, j) < part_or_zero(pc, j));
}

/// Being the same version is transitive.
pub proof fn law_version_same_transitive(a: Seq<char>, b: Seq<char>, c: Seq<char>)
    requires
        version_order(a, b) == 0,
        version_order(b, c) == 0,
    ensures
        version_order(a, c) == 0,
{
    let pa = version_parts(a);
    let pb = version_parts(b);
    let pc = version_parts(c);
    lemma_compare_zero_iff(pa, pb, 0);
    lemma_compare_zero_iff(pb, pc, 0);
    lemma_compare_zero_iff(pa, pc, 0);
    assert forall|k: int| k >= 0 implies part_or_zero(pa, k) == part_or_zero(pc, k) by {
        assert(part_or_zero(pa, k) == part_or_zero(pb, k));
        assert(part_or_zero(pb, k) == part_or_zero(pc, k));
    }
}

/// A version with `.0` appended is the same version ("1.2" and "1.2.0").
pub proof fn law_version_trailing_zero(v: Seq<char>)
    ensures
        version_order(v + ".0"@, v) == 0,
{
    reveal_strlit(".0");
    let w = v + ".0"@;
    lemma_last_index_of(w, '.');
    assert(w[v.len() as int] == '.');
    assert(w[v.len() as int + 1] == '0');
    assert(last_index_of(w, '.') == v.len()) by {
        lemma_last_is(w, v.len() as int);
    }
    assert(w.take(v.len() as int) == v);
    assert(w.skip(v.len() as int + 1) =~= seq!['0']);
    assert(split_dots(w) == split_dots(v).push(seq!['0']));
    let z = seq!['0'];
    assert(unsigned_digits(z) == z);
    assert(z.drop_last() =~= Seq::<char>::empty());
    assert(z.last() == '0');
    assert(digits_value(z.drop_last()) == 0);
    assert(('0' as nat) == 48);
    assert(digits_value(z) == 0);
    assert(parse_u32_spec(z) == Some(0u32));
    assert(numeric_parts(split_dots(w)) == numeric_parts(split_dots(v)).push(0u32)) by {
        assert(split_dots(w).drop_last() == split_dots(v));
    }
    let p = version_parts(v);
    let q = p.push(0u32);
    lemma_compare_zero_iff(q, p, 0);
    assert forall|k: int| k >= 0 implies part_or_zero(q, k) == part_or_zero(p, k) by {}
}

proof fn lemma_last_is(s: Seq<char>, k: int)
    requires
        0 <= k < s.len(),
        s[k] == '.',
        forall|j: int| k < j < s.len() ==> s[j] != '.',
    ensures
        last_index_of(s, '.') == k,
    decreases s.len(),
{
    if s.len() - 1 != k {
        lemma_last_is(s.drop_last(), k);
    }
}

/// The server's description of the newest launcher.
pub struct LauncherUpdateManifest {
    pub version: String,
    pub download_url: String,
    pub changelog: Option<String>,
    pub hash: Option<String>,
    pub file_name: String,
    pub release_date: Option<String>,
    pub mandatory: Option<bool>,
}

/// What the launcher tells its user about an update.
pub struct LauncherUpdateInfo {
    pub update_available: bool,
    pub current_version: String,
    pub latest_version: String,
    pub download_url: Option<String>,
    pub changelog: Option<String>,
    pub mandatory: bool,
}

/// The update decision: an update is available exactly when the running
/// version is older than the server's; only then is the download address
/// given. An absent `mandatory` flag means not mandatory.
pub fn launcher_update_info(current_version: String, manifest: LauncherUpdateManifest) -> (info: LauncherUpdateInfo)
    ensures
        info.update_available == (version_order(current_version@, manifest.version@) == -1),
        info.current_version == current_version,
        info.latest_version == manifest.version,
        info.download_url == (if info.update_available { Some(manifest.download_url) } else { None }),
        info.changelog == manifest.changelog,
        info.mandatory == (manifest.mandatory == Some(true)),
{
    let update_available = match compare_versions(current_version.as_str(), manifest.version.as_str()) {
        Ordering::Less => true,
        _ => false,
    };
    let mandatory = match manifest.mandatory {
        Some(b) => b,
        None => false,
    };
    LauncherUpdateInfo {
        update_available,
        current_version,
        latest_version: manifest.version,
        download_url: if update_available { Some(manifest.download_url) } else { None },
        changelog: manifest.changelog,
        mandatory,
    }
}

proof fn lemma_first_difference(a: Seq<u32>, b: Seq<u32>, i: int, j: int)
    requires
        0 <= i <= j,
        forall|k: int| 0 <= k < j ==> (if k < a.len() { a[k] } else { 0u32 }) == (if k < b.len() { b[k] } else { 0u32 }),
        (if j < a.len() { a[j] } else { 0u32 }) < (if j < b.len() { b[j] } else { 0u32 }),
    ensures
        compare_parts_from(a, b, i) == -1,
    decreases j - i,
{
    if i < j {
        lemma_first_difference(a, b, i + 1, j);
        assert((if i < a.len() { a[i] } else { 0u32 }) == (if i < b.len() { b[i] } else { 0u32 }));
    }
}

/// Law: the first part in which two versions differ decides, however far
/// along it is: if the numeric parts of `a` and `b` (a missing part counting
/// as 0) agree before index `j` and part `j` of `a` is the smaller, `a` is
/// older than `b` and `b` newer than `a`.
pub proof fn law_version_first_difference_decides(a: Seq<char>, b: Seq<char>, j: int)
    requires
        0 <= j,
        forall|k: int| 0 <= k < j ==>
            (if k < version_parts(a).len() { version_parts(a)[k] } else { 0u32 })
                == (if k < version_parts(b).len() { version_parts(b)[k] } else { 0u32 }),
        (if j < version_parts(a).len() { version_parts(a)[j] } else { 0u32 })
            < (if j < version_parts(b).len() { version_parts(b)[j] } else { 0u32 }),
    ensures
        version_order(a, b) == -1,
        version_order(b, a) == 1,
{
    lemma_first_difference(version_parts(a), version_parts(b), 0, j);
    lemma_compare_antisymmetric(version_parts(a), version_parts(b), 0);
}

} // verus!
