//! Ordering file entries by path, as `String`'s order does (lexicographic
//! by character), ties kept in the order in which they came.
use vstd::prelude::*;
use vstd::relations::{sorted_by, total_ordering};
use vstd::seq_lib::{lemma_multiset_commutative, lemma_sorted_unique};
use crate::text::views_of;

verus! {

broadcast use vstd::seq_lib::group_to_multiset_ensures;

/// `a` comes before `b` in lexicographic order of their characters.
pub open spec fn chars_lt(a: Seq<char>, b: Seq<char>) -> bool
    decreases a.len(),
{
    if a.len() == 0 {
        b.len() > 0
    } else if b.len() == 0 {
        false
    } else if (a[0] as u32) < (b[0] as u32) {
        true
    } else if (a[0] as u32) > (b[0] as u32) {
        false
    } else {
        chars_lt(a.skip(1), b.skip(1))
    }
}

proof fn lemma_char_u32_inj(x: char, y: char)
    ensures
        (x as u32) == (y as u32) ==> x == y,
{
}

pub proof fn lemma_chars_lt_irreflexive(a: Seq<char>)
    ensures
        !chars_lt(a, a),
    decreases a.len(),
{
    if a.len() > 0 {
        lemma_chars_lt_irreflexive(a.skip(1));
    }
}

pub proof fn lemma_chars_lt_trichotomy(a: Seq<char>, b: Seq<char>)
    ensures
        chars_lt(a, b) || a == b || chars_lt(b, a),
        !(chars_lt(a, b) && chars_lt(b, a)),
        !(chars_lt(a, b) && a == b),
    decreases a.len(),
{
    lemma_chars_lt_irreflexive(a);
    if a.len() > 0 && b.len() > 0 {
        lemma_chars_lt_trichotomy(a.skip(1), b.skip(1));
        if (a[0] as u32) == (b[0] as u32) {
            lemma_char_u32_inj(a[0], b[0]);
            if a.skip(1) == b.skip(1) {
                assert(a =~= seq![a[0]] + a.skip(1));
                assert(b =~= seq![b[0]] + b.skip(1));
            }
        }
    } else if a.len() == 0 && b.len() == 0 {
        assert(a =~= b);
    }
}

pub proof fn lemma_chars_lt_transitive(a: Seq<char>, b: Seq<char>, c: Seq<char>)
    requires
        chars_lt(a, b),
        chars_lt(b, c),
    ensures
        chars_lt(a, c),
    decreases a.len(),
{
    if a.len() > 0 && b.len() > 0 && c.len() > 0 {
        if (a[0] as u32) == (b[0] as u32) && (b[0] as u32) == (c[0] as u32) {
            lemma_chars_lt_transitive(a.skip(1), b.skip(1), c.skip(1));
        }
    }
}

/// Entry `i` comes no later than entry `j`: its path is smaller, or the
/// paths are equal and `i` is not after `j`.
pub open spec fn entry_le(paths: Seq<Seq<char>>, i: usize, j: usize) -> bool {
    chars_lt(paths[i as int], paths[j as int]) || (paths[i as int] == paths[j as int] && i <= j)
}

/// The order of entries by path, ties by position.
pub open spec fn path_order(paths: Seq<Seq<char>>) -> spec_fn(usize, usize) -> bool {
    |i: usize, j: usize| entry_le(paths, i, j)
}

pub proof fn lemma_path_order_total(paths: Seq<Seq<char>>)
    ensures
        total_ordering(path_order(paths)),
{
    let leq = path_order(paths);
    assert forall|x: usize| #[trigger] leq(x, x) by {}
    assert forall|x: usize, y: usize| #[trigger] leq(x, y) && #[trigger] leq(y, x) implies x == y by {
        lemma_chars_lt_trichotomy(paths[x as int], paths[y as int]);
    }
    assert forall|x: usize, y: usize, z: usize| #[trigger] leq(x, y) && #[trigger] leq(y, z) implies leq(x, z) by {
        lemma_chars_lt_trichotomy(paths[x as int], paths[y as int]);
        lemma_chars_lt_trichotomy(paths[y as int], paths[z as int]);
        lemma_chars_lt_trichotomy(paths[x as int], paths[z as int]);
        if chars_lt(paths[x as int], paths[y as int]) && chars_lt(paths[y as int], paths[z as int]) {
            lemma_chars_lt_transitive(paths[x as int], paths[y as int], paths[z as int]);
        }
    }
    assert forall|x: usize, y: usize| #[trigger] leq(x, y) || #[trigger] leq(y, x) by {
        lemma_chars_lt_trichotomy(paths[x as int], paths[y as int]);
    }
}

/// Compares two character sequences: -1, 0 or 1.
pub fn compare_chars(a: &[char], b: &[char]) -> (r: i8)
    ensures
        r == -1 <==> chars_lt(a@, b@),
        r == 0 <==> a@ == b@,
        r == 1 <==> chars_lt(b@, a@),
{
    proof { lemma_chars_lt_trichotomy(a@, b@); }
    let mut i: usize = 0;
    assert(a@.skip(0) == a@);
    assert(b@.skip(0) == b@);
    while i < a.len() && i < b.len()
        invariant
            i <= a.len(),
            i <= b.len(),
            forall|k: int| 0 <= k < i ==> a@[k] == b@[k],
            chars_lt(a@, b@) == chars_lt(a@.skip(i as int), b@.skip(i as int)),
            chars_lt(b@, a@) == chars_lt(b@.skip(i as int), a@.skip(i as int)),
        decreases a.len() - i,
    {
        let x = a[i] as u32;
        let y = b[i] as u32;
        let ghost sa = a@.skip(i as int);
        let ghost sb = b@.skip(i as int);
        assert(sa[0] == a@[i as int]);
        assert(sb[0] == b@[i as int]);
        if x < y {
            return -1;
        }
        if x > y {
            return 1;
        }
        proof { lemma_char_u32_inj(a@[i as int], b@[i as int]); }
        assert(sa.skip(1) == a@.skip(i + 1));
        assert(sb.skip(1) == b@.skip(i + 1));
        i = i + 1;
    }
    if a.len() == b.len() {
        assert(a@ =~= b@);
        0
    } else if i == a.len() {
        assert(a@.skip(i as int).len() == 0);
        -1
    } else {
        assert(b@.skip(i as int).len() == 0);
        1
    }
}

fn merge(paths: &Vec<Vec<char>>, a: Vec<usize>, b: Vec<usize>) -> (r: Vec<usize>)
    requires
        forall|k: int| 0 <= k < a@.len() ==> #[trigger] a@[k] < paths@.len(),
        forall|k: int| 0 <= k < b@.len() ==> #[trigger] b@[k] < paths@.len(),
        sorted_by(a@, path_order(views_of(paths@))),
        sorted_by(b@, path_order(views_of(paths@))),
    ensures
        r@.to_multiset() == (a@ + b@).to_multiset(),
        sorted_by(r@, path_order(views_of(paths@))),
        forall|k: int| 0 <= k < r@.len() ==> #[trigger] r@[k] < paths@.len(),
{
    let ghost ps = views_of(paths@);
    let ghost leq = path_order(ps);
    proof { lemma_path_order_total(ps); }
    let mut r: Vec<usize> = Vec::new();
    let mut i: usize = 0;
    let mut j: usize = 0;
    while i < a.len() || j < b.len()
        invariant
            i <= a@.len(),
            j <= b@.len(),
            ps == views_of(paths@),
            leq == path_order(ps),
            total_ordering(leq),
            forall|k: int| 0 <= k < a@.len() ==> #[trigger] a@[k] < paths@.len(),
            forall|k: int| 0 <= k < b@.len() ==> #[trigger] b@[k] < paths@.len(),
            sorted_by(a@, leq),
            sorted_by(b@, leq),
            sorted_by(r@, leq),
            r@.to_multiset() == (a@.take(i as int) + b@.take(j as int)).to_multiset(),
            forall|k: int| 0 <= k < r@.len() ==> #[trigger] r@[k] < paths@.len(),
            forall|k: int, m: int| 0 <= k < r@.len() && i <= m < a@.len() ==> leq(#[trigger] r@[k], #[trigger] a@[m]),
            forall|k: int, m: int| 0 <= k < r@.len() && j <= m < b@.len() ==> leq(#[trigger] r@[k], #[trigger] b@[m]),
        decreases a@.len() + b@.len() - i - j,
    {
        let take_a = if i >= a.len() {
            false
        } else if j >= b.len() {
            true
        } else {
            let c = compare_chars(paths[a[i]].as_slice(), paths[b[j]].as_slice());
            assert(paths@[a@[i as int] as int]@ == ps[a@[i as int] as int]);
            assert(paths@[b@[j as int] as int]@ == ps[b@[j as int] as int]);
            c == -1 || (c == 0 && a[i] <= b[j])
        };
        let ghost before = r@;
        if take_a {
            let x = a[i];
            proof {
                if j < b@.len() {
                    assert(leq(x, b@[j as int]));
                }
                assert forall|m: int| j <= m < b@.len() implies leq(x, #[trigger] b@[m]) by {
                    if m > j {
                        assert(leq(b@[j as int], b@[m]));
                    }
                }
                assert forall|m: int| i < m < a@.len() implies leq(x, #[trigger] a@[m]) by {
                    assert(leq(a@[i as int], a@[m]));
                }
            }
            r.push(x);
            proof {
                assert(a@.take(i + 1) == a@.take(i as int).push(x));
                lemma_multiset_commutative(a@.take(i + 1), b@.take(j as int));
                lemma_multiset_commutative(a@.take(i as int), b@.take(j as int));
                assert(r@ == before.push(x));
                assert(r@.to_multiset() =~= (a@.take(i + 1) + b@.take(j as int)).to_multiset());
                assert forall|k: int, m: int| 0 <= k < r@.len() && 0 <= m < r@.len() && k < m implies leq(#[trigger] r@[k], #[trigger] r@[m]) by {
                    if m == r@.len() - 1 && k < before.len() {
                        assert(i < a@.len());
                        assert(leq(before[k], a@[i as int]));
                    } else if m < before.len() {
                        assert(sorted_by(before, leq));
                        assert(leq(before[k], before[m]));
                    }
                }
            }
            i = i + 1;
        } else {
            let x = b[j];
            proof {
                if i < a@.len() {
                    lemma_chars_lt_trichotomy(ps[a@[i as int] as int], ps[b@[j as int] as int]);
                    assert(leq(x, a@[i as int]));
                }
                assert forall|m: int| i <= m < a@.len() implies leq(x, #[trigger] a@[m]) by {
                    if m > i {
                        assert(leq(a@[i as int], a@[m]));
                    }
                }
                assert forall|m: int| j < m < b@.len() implies leq(x, #[trigger] b@[m]) by {
                    assert(leq(b@[j as int], b@[m]));
                }
            }
            r.push(x);
            proof {
                assert(b@.take(j + 1) == b@.take(j as int).push(x));
                lemma_multiset_commutative(a@.take(i as int), b@.take(j + 1));
                lemma_multiset_commutative(a@.take(i as int), b@.take(j as int));
                assert(r@ == before.push(x));
                assert(r@.to_multiset() =~= (a@.take(i as int) + b@.take(j + 1)).to_multiset());
                assert forall|k: int, m: int| 0 <= k < r@.len() && 0 <= m < r@.len() && k < m implies leq(#[trigger] r@[k], #[trigger] r@[m]) by {
                    if m == r@.len() - 1 && k < before.len() {
                        assert(j < b@.len());
                        assert(leq(before[k], b@[j as int]));
                    } else if m < before.len() {
                        assert(sorted_by(before, leq));
                        assert(leq(before[k], before[m]));
                    }
                }
            }
            j = j + 1;
        }
    }
    assert(a@.take(a@.len() as int) == a@);
    assert(b@.take(b@.len() as int) == b@);
    r
}

fn sort_range(paths: &Vec<Vec<char>>, v: &Vec<usize>, lo: usize, hi: usize) -> (r: Vec<usize>)
    requires
        lo <= hi <= v@.len(),
        forall|k: int| 0 <= k < v@.len() ==> #[trigger] v@[k] < paths@.len(),
    ensures
        r@.to_multiset() == v@.subrange(lo as int, hi as int).to_multiset(),
        sorted_by(r@, path_order(views_of(paths@))),
        forall|k: int| 0 <= k < r@.len() ==> #[trigger] r@[k] < paths@.len(),
    decreases hi - lo,
{
    if hi - lo <= 1 {
        let mut r: Vec<usize> = Vec::new();
        if hi > lo {
            r.push(v[lo]);
            assert(r@ == v@.subrange(lo as int, hi as int));
        } else {
            assert(v@.subrange(lo as int, hi as int) =~= Seq::<usize>::empty());
        }
        return r;
    }
    let mid = lo + (hi - lo) / 2;
    let left = sort_range(paths, v, lo, mid);
    let right = sort_range(paths, v, mid, hi);
    let r = merge(paths, left, right);
    proof {
        assert(v@.subrange(lo as int, hi as int) =~= v@.subrange(lo as int, mid as int) + v@.subrange(mid as int, hi as int));
        lemma_multiset_commutative(v@.subrange(lo as int, mid as int), v@.subrange(mid as int, hi as int));
        lemma_multiset_commutative(left@, right@);
    }
    r
}

/// The positions `items`, ordered by the paths they name (`paths[i]` is the
/// path of position `i`), equal paths in the order of the positions: the
/// result is `items` sorted by `path_order`.
pub fn sort_by_path(paths: &Vec<Vec<char>>, items: &Vec<usize>) -> (r: Vec<usize>)
    requires
        forall|k: int| 0 <= k < items@.len() ==> #[trigger] items@[k] < paths@.len(),
    ensures
        r@ == items@.sort_by(path_order(views_of(paths@))),
        r@.len() == items@.len(),
        forall|q: int| 0 <= q < r@.len() ==> items@.contains(#[trigger] r@[q]),
{
    let r = sort_range(paths, items, 0, items.len());
    proof {
        let leq = path_order(views_of(paths@));
        lemma_path_order_total(views_of(paths@));
        assert(items@.subrange(0, items@.len() as int) == items@);
        items@.lemma_sort_by_ensures(leq);
        lemma_sorted_unique(r@, items@.sort_by(leq), leq);
        vstd::seq_lib::to_multiset_len(items@);
        vstd::seq_lib::to_multiset_len(r@);
        assert forall|q: int| 0 <= q < r@.len() implies items@.contains(#[trigger] r@[q]) by {
            assert(r@.contains(r@[q]));
        }
    }
    r
}

} // verus!
