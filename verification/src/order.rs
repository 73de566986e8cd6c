//! Stable ranking of items by a key.

use vstd::prelude::*;
use vstd::slice::slice_subrange;

use crate::text::is_before;

verus! {

broadcast use {
    vstd::seq_lib::group_to_multiset_ensures,
    vstd::multiset::group_multiset_axioms,
};

// ── Models ────────────────────────────────────────────────────────────────────

/// Item `i` stands before item `j` in a stable ranking: its key says so, or the keys
/// are level and it came first.
pub open spec fn comes_first(before: spec_fn(int, int) -> bool, i: int, j: int) -> bool {
    before(i, j) || (!before(j, i) && i < j)
}

/// `r` lists exactly the items below `n` that `keep` picks, each once, those that
/// `before` puts first in front, level ones in their original order.
pub open spec fn is_ranking(
    r: Seq<usize>,
    n: int,
    keep: spec_fn(int) -> bool,
    before: spec_fn(int, int) -> bool,
) -> bool {
    &&& forall|a: int| 0 <= a < r.len() ==> (#[trigger] r[a]) < n && keep(r[a] as int)
    &&& forall|k: usize| k < n && keep(k as int) ==> #[trigger] r.contains(k)
    &&& forall|a: int, b: int|
        0 <= a < b < r.len() ==> comes_first(before, #[trigger] r[a] as int, #[trigger] r[b] as int)
}

/// The ranking of the items below `n` that `keep` picks; see [`law_ranking_unique`].
pub open spec fn ranked(
    n: int,
    keep: spec_fn(int) -> bool,
    before: spec_fn(int, int) -> bool,
) -> Seq<usize> {
    choose|r: Seq<usize>| is_ranking(r, n, keep, before)
}

/// `before` never goes both ways.
pub open spec fn asymmetric(before: spec_fn(int, int) -> bool) -> bool {
    forall|i: int, j: int| #[trigger] before(i, j) ==> !before(j, i)
}

/// There is one ranking only: keys, choice of items and the stability rule leave no
/// freedom in the result.
pub proof fn law_ranking_unique(
    r: Seq<usize>,
    n: int,
    keep: spec_fn(int) -> bool,
    before: spec_fn(int, int) -> bool,
)
    requires
        is_ranking(r, n, keep, before),
        asymmetric(before),
    ensures
        r == ranked(n, keep, before),
{
    let q = ranked(n, keep, before);
    assert(is_ranking(q, n, keep, before));
    let lt = |i: usize, j: usize| comes_first(before, i as int, j as int);
    assert forall|x: usize| r.contains(x) <==> q.contains(x) by {
        if r.contains(x) {
            let a = choose|a: int| 0 <= a < r.len() && r[a] == x;
            assert(r[a] == x);
        }
        if q.contains(x) {
            let a = choose|a: int| 0 <= a < q.len() && q[a] == x;
            assert(q[a] == x);
        }
    }
    assert forall|i: usize, j: usize| #[trigger] lt(i, j) implies !lt(j, i) by {
        assert(before(i as int, j as int) ==> !before(j as int, i as int));
        assert(before(j as int, i as int) ==> !before(i as int, j as int));
    }
    lemma_same_order(r, q, lt);
}

/// A ranking stays one under another way to say which items are kept and which stand in
/// front, as long as both ways agree on the items there are.
pub proof fn lemma_ranking_agrees(
    r: Seq<usize>,
    n: int,
    keep: spec_fn(int) -> bool,
    before: spec_fn(int, int) -> bool,
    keep2: spec_fn(int) -> bool,
    before2: spec_fn(int, int) -> bool,
)
    requires
        is_ranking(r, n, keep, before),
        forall|i: int| 0 <= i < n ==> #[trigger] keep(i) == keep2(i),
        forall|i: int, j: int|
            0 <= i < n && 0 <= j < n ==> #[trigger] before(i, j) == before2(i, j),
        asymmetric(before2),
    ensures
        is_ranking(r, n, keep2, before2),
        r == ranked(n, keep2, before2),
{
    assert forall|a: int| 0 <= a < r.len() implies (#[trigger] r[a]) < n && keep2(
        r[a] as int,
    ) by {
        assert(keep(r[a] as int) == keep2(r[a] as int));
    }
    assert forall|k: usize| k < n && keep2(k as int) implies #[trigger] r.contains(k) by {
        assert(keep(k as int) == keep2(k as int));
    }
    assert forall|a: int, b: int| 0 <= a < b < r.len() implies comes_first(
        before2,
        #[trigger] r[a] as int,
        #[trigger] r[b] as int,
    ) by {
        assert(comes_first(before, r[a] as int, r[b] as int));
        assert(before(r[a] as int, r[b] as int) == before2(r[a] as int, r[b] as int));
        assert(before(r[b] as int, r[a] as int) == before2(r[b] as int, r[a] as int));
    }
    law_ranking_unique(r, n, keep2, before2);
}

/// Items that `before` leaves level with one another are level with the same items.
pub open spec fn weak(before: spec_fn(int, int) -> bool) -> bool {
    forall|i: int, j: int, k: int| #[trigger]
        before(i, k) ==> #[trigger] before(i, j) || before(j, k)
}

/// There is always a ranking, so [`ranked`] is one.
pub proof fn law_ranking_exists(
    n: int,
    keep: spec_fn(int) -> bool,
    before: spec_fn(int, int) -> bool,
)
    requires
        0 <= n <= usize::MAX,
        asymmetric(before),
        weak(before),
    ensures
        is_ranking(ranked(n, keep, before), n, keep, before),
    decreases n,
{
    if n == 0 {
        let r: Seq<usize> = seq![];
        assert(is_ranking(r, n, keep, before));
    } else {
        law_ranking_exists(n - 1, keep, before);
        let q = ranked(n - 1, keep, before);
        let x = (n - 1) as usize;
        if !keep(x as int) {
            assert(is_ranking(q, n, keep, before));
        } else {
            let later = |a: int| before(x as int, q[a] as int);
            let p = first_where(q.len() as int, later);
            lemma_first_where_bounds(q.len() as int, later);
            let r = q.insert(p, x);
            assert forall|a: int| 0 <= a < r.len() implies (#[trigger] r[a]) < n && keep(
                r[a] as int,
            ) by {
                if a < p {
                    assert(r[a] == q[a]);
                } else if a > p {
                    assert(r[a] == q[a - 1]);
                }
            }
            assert forall|k: usize| k < n && keep(k as int) implies #[trigger] r.contains(k) by {
                if k == x {
                    assert(r[p] == k);
                } else {
                    assert(q.contains(k));
                    let a = choose|a: int| 0 <= a < q.len() && q[a] == k;
                    if a < p {
                        assert(r[a] == k);
                    } else {
                        assert(r[a + 1] == k);
                    }
                }
            }
            assert forall|a: int, b: int| 0 <= a < b < r.len() implies comes_first(
                before,
                #[trigger] r[a] as int,
                #[trigger] r[b] as int,
            ) by {
                let a2 = if a < p { a } else { a - 1 };
                let b2 = if b < p { b } else { b - 1 };
                if b == p {
                    assert(r[a] == q[a]);
                    assert(!later(a));
                } else if a == p {
                    assert(r[b] == q[b2]);
                    assert(later(p));
                    if b2 > p {
                        let (y, z) = (q[p] as int, q[b2] as int);
                        assert(comes_first(before, y, z));
                        assert(before(x as int, y));
                        assert(before(x as int, y) ==> before(x as int, z) || before(z, y));
                        assert(before(y, z) ==> !before(z, y));
                    }
                } else {
                    assert(r[a] == q[a2] && r[b] == q[b2]);
                }
            }
            assert(is_ranking(r, n, keep, before));
        }
    }
}

/// A ranking that keeps every item has as many places as there are items.
pub proof fn lemma_ranking_len(r: Seq<usize>, n: int, before: spec_fn(int, int) -> bool)
    requires
        0 <= n <= usize::MAX,
        is_ranking(r, n, |i: int| true, before),
        asymmetric(before),
    ensures
        r.len() == n,
{
    let keep = |i: int| true;
    let ids = Seq::new(n as nat, |i: int| i as usize);
    assert(r.no_duplicates()) by {
        assert forall|a: int, b: int| 0 <= a < b < r.len() implies r[a] != r[b] by {
            assert(comes_first(before, r[a] as int, r[b] as int));
            if r[a] == r[b] {
                assert(before(r[a] as int, r[a] as int) ==> !before(r[a] as int, r[a] as int));
            }
        }
    }
    assert(ids.no_duplicates());
    assert(r.to_set() =~= ids.to_set()) by {
        assert forall|x: usize| r.contains(x) <==> ids.contains(x) by {
            if r.contains(x) {
                let a = choose|a: int| 0 <= a < r.len() && r[a] == x;
                assert(r[a] < n);
                assert(ids[x as int] == x);
            }
            if ids.contains(x) {
                assert(keep(x as int));
            }
        }
    }
    r.unique_seq_to_set();
    ids.unique_seq_to_set();
}

/// The items below `n` that `keep` picks, in ascending order.
pub open spec fn picked(n: int, keep: spec_fn(int) -> bool) -> Seq<usize> {
    ranked(n, keep, |i: int, j: int| false)
}

/// An ascending list of exactly the kept items is what [`picked`] stands for.
pub proof fn lemma_picked(r: Seq<usize>, n: int, keep: spec_fn(int) -> bool)
    requires
        forall|a: int| 0 <= a < r.len() ==> (#[trigger] r[a]) < n && keep(r[a] as int),
        forall|k: usize| k < n && keep(k as int) ==> #[trigger] r.contains(k),
        forall|a: int, b: int| 0 <= a < b < r.len() ==> r[a] < r[b],
    ensures
        r == picked(n, keep),
        is_ranking(r, n, keep, |i: int, j: int| false),
{
    law_ranking_unique(r, n, keep, |i: int, j: int| false);
}

/// Not more items are picked than there are.
pub proof fn lemma_picked_len(n: int, keep: spec_fn(int) -> bool)
    requires
        0 <= n <= usize::MAX,
    ensures
        picked(n, keep).len() <= n,
{
    let r = picked(n, keep);
    let level = |i: int, j: int| false;
    law_ranking_exists(n, keep, level);
    let ids = Seq::new(n as nat, |i: int| i as usize);
    assert(r.no_duplicates()) by {
        assert forall|a: int, b: int| 0 <= a < b < r.len() implies r[a] != r[b] by {
            assert(comes_first(level, r[a] as int, r[b] as int));
        }
    }
    assert(ids.no_duplicates());
    assert(r.to_set().subset_of(ids.to_set())) by {
        assert forall|x: usize| r.contains(x) implies ids.contains(x) by {
            let a = choose|a: int| 0 <= a < r.len() && r[a] == x;
            assert(r[a] < n);
            assert(ids[x as int] == x);
        }
    }
    r.unique_seq_to_set();
    ids.unique_seq_to_set();
    vstd::set_lib::lemma_len_subset(r.to_set(), ids.to_set());
}

/// The first number below `n` that `p` holds of, or `n` where there is none.
pub open spec fn first_where(n: int, p: spec_fn(int) -> bool) -> int
    decreases n,
{
    if n <= 0 {
        0
    } else if first_where(n - 1, p) < n - 1 {
        first_where(n - 1, p)
    } else if p(n - 1) {
        n - 1
    } else {
        n
    }
}

/// [`first_where`] is the only position with none before it.
pub proof fn lemma_first_where(n: int, p: spec_fn(int) -> bool, i: int)
    requires
        0 <= i <= n,
        i < n ==> p(i),
        forall|k: int| 0 <= k < i ==> !(#[trigger] p(k)),
    ensures
        first_where(n, p) == i,
    decreases n,
{
    if n > 0 {
        if i < n {
            if i == n - 1 {
                lemma_first_where(n - 1, p, n - 1);
            } else {
                lemma_first_where(n - 1, p, i);
            }
        } else {
            lemma_first_where(n - 1, p, n - 1);
        }
    }
}

/// Where `p` holds of some number below `n`, [`first_where`] is one of them.
pub proof fn lemma_first_where_found(n: int, p: spec_fn(int) -> bool, i: int)
    requires
        0 <= i < n,
        p(i),
    ensures
        0 <= first_where(n, p) <= i,
        p(first_where(n, p)),
    decreases n,
{
    if i < n - 1 {
        lemma_first_where_found(n - 1, p, i);
    } else {
        lemma_first_where_bounds(n - 1, p);
    }
}

/// [`first_where`] stays in range and points at a number that `p` holds of.
pub proof fn lemma_first_where_bounds(n: int, p: spec_fn(int) -> bool)
    requires
        0 <= n,
    ensures
        0 <= first_where(n, p) <= n,
        first_where(n, p) < n ==> p(first_where(n, p)),
        forall|k: int| 0 <= k < first_where(n, p) ==> !(#[trigger] p(k)),
    decreases n,
{
    if n > 0 {
        lemma_first_where_bounds(n - 1, p);
    }
}

/// Two strictly ordered sequences with the same elements are equal.
proof fn lemma_same_order(r: Seq<usize>, q: Seq<usize>, lt: spec_fn(usize, usize) -> bool)
    requires
        forall|x: usize| r.contains(x) <==> q.contains(x),
        forall|i: usize, j: usize| #[trigger] lt(i, j) ==> !lt(j, i),
        forall|a: int, b: int| 0 <= a < b < r.len() ==> lt(#[trigger] r[a], #[trigger] r[b]),
        forall|a: int, b: int| 0 <= a < b < q.len() ==> lt(#[trigger] q[a], #[trigger] q[b]),
    ensures
        r == q,
    decreases r.len(),
{
    if r.len() == 0 {
        if q.len() > 0 {
            assert(q.contains(q[0]));
            assert(r.contains(q[0]));
        }
        assert(r =~= q);
    } else {
        assert(r.contains(r[0]));
        assert(q.contains(r[0]));
        let p = choose|p: int| 0 <= p < q.len() && q[p] == r[0];
        assert(q.contains(q[0]));
        assert(r.contains(q[0]));
        let m = choose|m: int| 0 <= m < r.len() && r[m] == q[0];
        if p > 0 && m > 0 {
            assert(lt(q[0], q[p]));
            assert(lt(r[0], r[m]));
        }
        assert(r[0] == q[0]);
        let r1 = r.skip(1);
        let q1 = q.skip(1);
        assert forall|x: usize| r1.contains(x) <==> q1.contains(x) by {
            if r1.contains(x) {
                let a = choose|a: int| 0 <= a < r1.len() && r1[a] == x;
                assert(r[a + 1] == x);
                assert(lt(r[0], r[a + 1]));
                assert(r.contains(x));
                let b = choose|b: int| 0 <= b < q.len() && q[b] == x;
                assert(b != 0);
                assert(q1[b - 1] == x);
            }
            if q1.contains(x) {
                let a = choose|a: int| 0 <= a < q1.len() && q1[a] == x;
                assert(q[a + 1] == x);
                assert(lt(q[0], q[a + 1]));
                assert(q.contains(x));
                let b = choose|b: int| 0 <= b < r.len() && r[b] == x;
                assert(b != 0);
                assert(r1[b - 1] == x);
            }
        }
        lemma_same_order(r1, q1, lt);
        assert(r =~= seq![r[0]] + r1);
        assert(q =~= seq![q[0]] + q1);
    }
}

// ── Keys ──────────────────────────────────────────────────────────────────────

/// A key that items can be ranked by.
pub trait SortKey: Sized {
    /// This key stands in front of the other.
    spec fn before(&self, other: &Self) -> bool;

    /// The order never goes both ways.
    proof fn asymmetric(a: &Self, b: &Self)
        ensures
            !(a.before(b) && b.before(a)),
    ;

    /// Being not behind carries over a key in the middle.
    proof fn transitive(a: &Self, b: &Self, c: &Self)
        requires
            !b.before(a),
            !c.before(b),
        ensures
            !c.before(a),
    ;

    /// Whether this key stands in front of the other.
    fn precedes(&self, other: &Self) -> (r: bool)
        ensures
            r == self.before(other),
    ;
}

/// Larger numbers stand in front.
pub struct Descending(pub i64);

impl SortKey for Descending {
    open spec fn before(&self, other: &Self) -> bool {
        self.0 > other.0
    }

    proof fn asymmetric(a: &Self, b: &Self) {
    }

    proof fn transitive(a: &Self, b: &Self, c: &Self) {
    }

    fn precedes(&self, other: &Self) -> (r: bool) {
        self.0 > other.0
    }
}

/// Larger unsigned numbers stand in front.
pub struct DescendingUnsigned(pub u64);

impl SortKey for DescendingUnsigned {
    open spec fn before(&self, other: &Self) -> bool {
        self.0 > other.0
    }

    proof fn asymmetric(a: &Self, b: &Self) {
    }

    proof fn transitive(a: &Self, b: &Self, c: &Self) {
    }

    fn precedes(&self, other: &Self) -> (r: bool) {
        self.0 > other.0
    }
}

/// Texts in the order of their code points.
pub struct Alphabetical(pub Vec<char>);

impl SortKey for Alphabetical {
    open spec fn before(&self, other: &Self) -> bool {
        crate::text::text_before(self.0@, other.0@)
    }

    proof fn asymmetric(a: &Self, b: &Self) {
        crate::text::lemma_text_asymmetric(a.0@, b.0@);
    }

    proof fn transitive(a: &Self, b: &Self, c: &Self) {
        crate::text::lemma_text_transitive(a.0@, b.0@, c.0@);
    }

    fn precedes(&self, other: &Self) -> (r: bool) {
        is_before(self.0.as_slice(), other.0.as_slice())
    }
}

// ── Sorting ───────────────────────────────────────────────────────────────────

/// Item `i` stands before item `j` by their keys.
pub open spec fn key_before<K: SortKey>(keys: Seq<K>, i: int, j: int) -> bool {
    keys[i].before(&keys[j])
}

spec fn item_first<K: SortKey>(keys: Seq<K>, i: usize, j: usize) -> bool {
    key_before(keys, i as int, j as int) || (!key_before(keys, j as int, i as int) && i < j)
}

spec fn in_order<K: SortKey>(keys: Seq<K>, s: Seq<usize>) -> bool {
    forall|a: int, b: int| 0 <= a < b < s.len() ==> item_first(keys, #[trigger] s[a], #[trigger] s[b])
}

proof fn lemma_item_first_transitive<K: SortKey>(keys: Seq<K>, i: usize, j: usize, k: usize)
    requires
        item_first(keys, i, j),
        item_first(keys, j, k),
    ensures
        item_first(keys, i, k),
{
    let a = &keys[i as int];
    let b = &keys[j as int];
    let c = &keys[k as int];
    K::asymmetric(a, b);
    K::asymmetric(b, c);
    K::transitive(a, b, c);
    if !a.before(c) {
        if a.before(b) {
            K::transitive(b, c, a);
        }
        if b.before(c) {
            K::transitive(c, a, b);
        }
    }
}

/// Puts two ranked lists together.
fn merge<K: SortKey>(keys: &Vec<K>, a: &Vec<usize>, b: &Vec<usize>) -> (r: Vec<usize>)
    requires
        forall|x: int| 0 <= x < a@.len() ==> (#[trigger] a@[x]) < keys@.len(),
        forall|y: int| 0 <= y < b@.len() ==> (#[trigger] b@[y]) < keys@.len(),
        forall|x: int, y: int|
            0 <= x < a@.len() && 0 <= y < b@.len() ==> #[trigger] a@[x] != #[trigger] b@[y],
        in_order(keys@, a@),
        in_order(keys@, b@),
    ensures
        in_order(keys@, r@),
        r@.to_multiset() == a@.to_multiset().add(b@.to_multiset()),
{
    let mut r: Vec<usize> = Vec::new();
    let mut i: usize = 0;
    let mut j: usize = 0;
    assert(a@.take(0) =~= Seq::<usize>::empty());
    assert(b@.take(0) =~= Seq::<usize>::empty());
    assert(r@.to_multiset() =~= a@.take(0).to_multiset().add(b@.take(0).to_multiset()));
    while i < a.len() || j < b.len()
        invariant
            i <= a@.len(),
            j <= b@.len(),
            forall|x: int| 0 <= x < a@.len() ==> (#[trigger] a@[x]) < keys@.len(),
            forall|y: int| 0 <= y < b@.len() ==> (#[trigger] b@[y]) < keys@.len(),
            forall|x: int, y: int|
                0 <= x < a@.len() && 0 <= y < b@.len() ==> #[trigger] a@[x] != #[trigger] b@[y],
            in_order(keys@, a@),
            in_order(keys@, b@),
            in_order(keys@, r@),
            forall|z: int, x: int|
                0 <= z < r@.len() && i <= x < a@.len() ==> item_first(
                    keys@,
                    #[trigger] r@[z],
                    #[trigger] a@[x],
                ),
            forall|z: int, y: int|
                0 <= z < r@.len() && j <= y < b@.len() ==> item_first(
                    keys@,
                    #[trigger] r@[z],
                    #[trigger] b@[y],
                ),
            r@.to_multiset() == a@.take(i as int).to_multiset().add(
                b@.take(j as int).to_multiset(),
            ),
        decreases a@.len() - i + b@.len() - j,
    {
        let take_a: bool = if i >= a.len() {
            false
        } else if j >= b.len() {
            true
        } else {
            let x: usize = a[i];
            let y: usize = b[j];
            !(keys[y].precedes(&keys[x]) || (!keys[x].precedes(&keys[y]) && y < x))
        };
        let ghost before = r@;
        if take_a {
            let x: usize = a[i];
            r.push(x);
            assert(a@.take(i + 1) =~= a@.take(i as int).push(x));
            proof {
                assert forall|z: int, w: int|
                    0 <= z < r@.len() && i + 1 <= w < a@.len() implies item_first(
                    keys@,
                    #[trigger] r@[z],
                    #[trigger] a@[w],
                ) by {
                    if z < before.len() {
                        assert(before[z] == r@[z]);
                    } else {
                        assert(item_first(keys@, a@[i as int], a@[w]));
                    }
                }
                assert forall|z: int, w: int|
                    0 <= z < r@.len() && j <= w < b@.len() implies item_first(
                    keys@,
                    #[trigger] r@[z],
                    #[trigger] b@[w],
                ) by {
                    if z < before.len() {
                        assert(before[z] == r@[z]);
                    } else {
                        assert(item_first(keys@, x, b@[j as int])) by {
                            assert(a@[i as int] != b@[j as int]);
                            K::asymmetric(&keys@[x as int], &keys@[b@[j as int] as int]);
                        }
                        if w > j {
                            assert(item_first(keys@, b@[j as int], b@[w]));
                            lemma_item_first_transitive(keys@, x, b@[j as int], b@[w]);
                        }
                    }
                }
                assert forall|z: int, w: int|
                    0 <= z < w < r@.len() implies item_first(
                    keys@,
                    #[trigger] r@[z],
                    #[trigger] r@[w],
                ) by {
                    assert(before[z] == r@[z]);
                    if w < before.len() {
                        assert(before[w] == r@[w]);
                    } else {
                        assert(item_first(keys@, before[z], a@[i as int]));
                    }
                }
                assert(r@.to_multiset() =~= a@.take(i + 1).to_multiset().add(
                    b@.take(j as int).to_multiset(),
                ));
            }
            i = i + 1;
        } else {
            let y: usize = b[j];
            r.push(y);
            assert(b@.take(j + 1) =~= b@.take(j as int).push(y));
            proof {
                assert forall|z: int, w: int|
                    0 <= z < r@.len() && j + 1 <= w < b@.len() implies item_first(
                    keys@,
                    #[trigger] r@[z],
                    #[trigger] b@[w],
                ) by {
                    if z < before.len() {
                        assert(before[z] == r@[z]);
                    } else {
                        assert(item_first(keys@, b@[j as int], b@[w]));
                    }
                }
                assert forall|z: int, w: int|
                    0 <= z < r@.len() && i <= w < a@.len() implies item_first(
                    keys@,
                    #[trigger] r@[z],
                    #[trigger] a@[w],
                ) by {
                    if z < before.len() {
                        assert(before[z] == r@[z]);
                    } else {
                        assert(item_first(keys@, y, a@[i as int]));
                        if w > i {
                            assert(item_first(keys@, a@[i as int], a@[w]));
                            lemma_item_first_transitive(keys@, y, a@[i as int], a@[w]);
                        }
                    }
                }
                assert forall|z: int, w: int|
                    0 <= z < w < r@.len() implies item_first(
                    keys@,
                    #[trigger] r@[z],
                    #[trigger] r@[w],
                ) by {
                    assert(before[z] == r@[z]);
                    if w < before.len() {
                        assert(before[w] == r@[w]);
                    } else {
                        assert(item_first(keys@, before[z], b@[j as int]));
                    }
                }
                assert(r@.to_multiset() =~= a@.take(i as int).to_multiset().add(
                    b@.take(j + 1).to_multiset(),
                ));
            }
            j = j + 1;
        }
    }
    assert(a@.take(i as int) =~= a@);
    assert(b@.take(j as int) =~= b@);
    r
}

/// Ranks the items listed in `ids` by their keys.
fn sort_ids<K: SortKey>(keys: &Vec<K>, ids: &[usize]) -> (r: Vec<usize>)
    requires
        forall|x: int| 0 <= x < ids@.len() ==> (#[trigger] ids@[x]) < keys@.len(),
        ids@.no_duplicates(),
    ensures
        in_order(keys@, r@),
        r@.to_multiset() == ids@.to_multiset(),
    decreases ids@.len(),
{
    if ids.len() <= 1 {
        let mut r: Vec<usize> = Vec::new();
        if ids.len() == 1 {
            r.push(ids[0]);
        }
        assert(r@ =~= ids@);
        return r;
    }
    let mid: usize = ids.len() / 2;
    let left_ids = slice_subrange(ids, 0, mid);
    let right_ids = slice_subrange(ids, mid, ids.len());
    let left = sort_ids(keys, left_ids);
    let right = sort_ids(keys, right_ids);
    proof {
        assert(ids@ =~= left_ids@ + right_ids@);
        vstd::seq_lib::lemma_multiset_commutative(left_ids@, right_ids@);
        assert forall|x: int| 0 <= x < left@.len() implies left_ids@.contains(#[trigger] left@[x]) by {
            assert(left@.contains(left@[x]));
            assert(left@.to_multiset().count(left@[x]) > 0);
        }
        assert forall|y: int|
            0 <= y < right@.len() implies right_ids@.contains(#[trigger] right@[y]) by {
            assert(right@.contains(right@[y]));
            assert(right@.to_multiset().count(right@[y]) > 0);
        }
        assert forall|x: int, y: int|
            0 <= x < left@.len() && 0 <= y < right@.len() implies #[trigger] left@[x]
            != #[trigger] right@[y] by {
            let p = choose|p: int| 0 <= p < left_ids@.len() && left_ids@[p] == left@[x];
            let q = choose|q: int| 0 <= q < right_ids@.len() && right_ids@[q] == right@[y];
            assert(left_ids@.contains(left@[x]));
            assert(right_ids@.contains(right@[y]));
            assert(ids@[p] == left@[x]);
            assert(ids@[mid + q] == right@[y]);
        }
        assert forall|x: int| 0 <= x < left@.len() implies (#[trigger] left@[x]) < keys@.len() by {
            assert(left_ids@.contains(left@[x]));
            let p = choose|p: int| 0 <= p < left_ids@.len() && left_ids@[p] == left@[x];
            assert(ids@[p] == left@[x]);
        }
        assert forall|y: int| 0 <= y < right@.len() implies (#[trigger] right@[y])
            < keys@.len() by {
            assert(right_ids@.contains(right@[y]));
            let q = choose|q: int| 0 <= q < right_ids@.len() && right_ids@[q] == right@[y];
            assert(ids@[mid + q] == right@[y]);
        }
    }
    let r = merge(keys, &left, &right);
    assert(r@.to_multiset() =~= ids@.to_multiset());
    r
}

/// Ranks the items listed in `ids`, which are those that `keep` picks in ascending
/// order, by their keys.
pub(crate) fn rank<K: SortKey>(
    keys: &Vec<K>,
    ids: &Vec<usize>,
    Ghost(keep): Ghost<spec_fn(int) -> bool>,
) -> (r: Vec<usize>)
    requires
        forall|x: int|
            0 <= x < ids@.len() ==> (#[trigger] ids@[x]) < keys@.len() && keep(ids@[x] as int),
        forall|k: usize| k < keys@.len() && keep(k as int) ==> #[trigger] ids@.contains(k),
        forall|x: int, y: int| 0 <= x < y < ids@.len() ==> ids@[x] < ids@[y],
    ensures
        is_ranking(r@, keys@.len() as int, keep, |i: int, j: int| key_before(keys@, i, j)),
        r@ == ranked(keys@.len() as int, keep, |i: int, j: int| key_before(keys@, i, j)),
{
    let r = sort_ids(keys, ids.as_slice());
    proof {
        let before = |i: int, j: int| key_before(keys@, i, j);
        assert forall|a: int| 0 <= a < r@.len() implies (#[trigger] r@[a]) < keys@.len() && keep(
            r@[a] as int,
        ) by {
            assert(r@.contains(r@[a]));
            assert(r@.to_multiset().count(r@[a]) > 0);
            assert(ids@.contains(r@[a]));
            let x = choose|x: int| 0 <= x < ids@.len() && ids@[x] == r@[a];
            assert(ids@[x] == r@[a]);
        }
        assert forall|k: usize| k < keys@.len() && keep(k as int) implies #[trigger] r@.contains(
            k,
        ) by {
            assert(ids@.contains(k));
            assert(ids@.to_multiset().count(k) > 0);
        }
        assert forall|a: int, b: int| 0 <= a < b < r@.len() implies comes_first(
            before,
            #[trigger] r@[a] as int,
            #[trigger] r@[b] as int,
        ) by {
            assert(item_first(keys@, r@[a], r@[b]));
        }
        assert forall|i: int, j: int| #[trigger] before(i, j) implies !before(j, i) by {
            K::asymmetric(&keys@[i], &keys@[j]);
        }
        law_ranking_unique(r@, keys@.len() as int, keep, before);
    }
    r
}

/// Ranks all items by their keys.
pub fn rank_all<K: SortKey>(keys: &Vec<K>) -> (r: Vec<usize>)
    ensures
        is_ranking(
            r@,
            keys@.len() as int,
            |i: int| true,
            |i: int, j: int| key_before(keys@, i, j),
        ),
        r@ == ranked(
            keys@.len() as int,
            |i: int| true,
            |i: int, j: int| key_before(keys@, i, j),
        ),
{
    let mut ids: Vec<usize> = Vec::new();
    let mut i: usize = 0;
    while i < keys.len()
        invariant
            i <= keys@.len(),
            ids@.len() == i,
            forall|x: int| 0 <= x < i ==> ids@[x] == x,
        decreases keys@.len() - i,
    {
        ids.push(i);
        i = i + 1;
    }
    assert forall|k: usize| k < keys@.len() implies #[trigger] ids@.contains(k) by {
        assert(ids@[k as int] == k);
    }
    rank(keys, &ids, Ghost(|i: int| true))
}

} // verus!
