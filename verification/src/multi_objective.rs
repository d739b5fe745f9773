//! Multi-objective ranking of candidate parents: Pareto dominance over
//! the objectives of the candidates and their sorting into fronts of
//! mutually non-dominated candidates.
use vstd::prelude::*;

use crate::ranking::{lemma_ranking_sorted, rank_descending, ranked};

verus! {

/// The objectives of a candidate as integer keys that order as the
/// objectives do, higher being better: survival, efficiency and
/// contribution to diversity.
#[derive(Debug, Clone, Copy, PartialEq, Eq, Structural)]
pub struct ObjectiveKeys {
    pub survival: u64,
    pub efficiency: u64,
    pub diversity: u64,
}

/// `a` dominates `b`: it is at least as good in every objective and
/// better in one.
pub open spec fn dominates_spec(a: ObjectiveKeys, b: ObjectiveKeys) -> bool {
    &&& a.survival >= b.survival
    &&& a.efficiency >= b.efficiency
    &&& a.diversity >= b.diversity
    &&& (a.survival > b.survival || a.efficiency > b.efficiency || a.diversity > b.diversity)
}

impl ObjectiveKeys {
    /// Whether these objectives dominate `other`'s (see `dominates_spec`).
    pub fn dominates(&self, other: &ObjectiveKeys) -> (r: bool)
        ensures
            r == dominates_spec(*self, *other),
    {
        let at_least = self.survival >= other.survival && self.efficiency >= other.efficiency
            && self.diversity >= other.diversity;
        let better = self.survival > other.survival || self.efficiency > other.efficiency
            || self.diversity > other.diversity;
        at_least && better
    }
}

/// Candidate `i` dominates candidate `j`.
pub open spec fn dom(objs: Seq<ObjectiveKeys>, i: int, j: int) -> bool {
    dominates_spec(objs[i], objs[j])
}

/// No candidate dominates candidate `j`.
pub open spec fn undominated(objs: Seq<ObjectiveKeys>, j: int) -> bool {
    forall|i: int| 0 <= i < objs.len() ==> !#[trigger] dom(objs, i, j)
}

/// The candidates below `k` that no candidate dominates, in increasing
/// order.
pub open spec fn undominated_below(objs: Seq<ObjectiveKeys>, k: int) -> Seq<usize>
    decreases k,
{
    if k <= 0 {
        Seq::empty()
    } else if undominated(objs, k - 1) {
        undominated_below(objs, k - 1).push((k - 1) as usize)
    } else {
        undominated_below(objs, k - 1)
    }
}

/// The candidates below `k` that candidate `i` dominates, in increasing
/// order.
pub open spec fn dominated_below(objs: Seq<ObjectiveKeys>, i: int, k: int) -> Seq<usize>
    decreases k,
{
    if k <= 0 {
        Seq::empty()
    } else if dom(objs, i, k - 1) {
        dominated_below(objs, i, k - 1).push((k - 1) as usize)
    } else {
        dominated_below(objs, i, k - 1)
    }
}

/// The number of candidates below `k` that dominate `j` and are not
/// marked done.
pub open spec fn open_dominators(objs: Seq<ObjectiveKeys>, done: Seq<bool>, j: int, k: int) -> nat
    decreases k,
{
    if k <= 0 {
        0
    } else {
        open_dominators(objs, done, j, k - 1) + if dom(objs, k - 1, j) && !done[k - 1] {
            1nat
        } else {
            0nat
        }
    }
}

/// The sum of a candidate's keys; a dominating candidate has a larger one.
pub open spec fn key_sum(o: ObjectiveKeys) -> int {
    o.survival + o.efficiency + o.diversity
}

/// The fronts and ranks of a non-dominated sorting: the fronts hold every
/// candidate exactly once, a candidate's rank is the number of its front,
/// the first front holds the undominated candidates in increasing order,
/// every dominator of a candidate has a lower rank, and a candidate of a
/// later front is dominated by one of the front before.
pub open spec fn sorted_into_fronts(objs: Seq<ObjectiveKeys>, fronts: Seq<Seq<usize>>, ranks: Seq<usize>) -> bool {
    let n = objs.len() as int;
    &&& ranks.len() == n
    &&& (n == 0 <==> fronts.len() == 0)
    &&& n > 0 ==> fronts[0] == undominated_below(objs, n)
    &&& forall|k: int| 0 <= k < fronts.len() ==> (#[trigger] fronts[k]).len() > 0
    &&& forall|k: int, m: int|
        0 <= k < fronts.len() && 0 <= m < fronts[k].len() ==> (#[trigger] fronts[k][m]) < n
            && ranks[fronts[k][m] as int] == k
    &&& forall|k: int, m1: int, m2: int|
        0 <= k < fronts.len() && 0 <= m1 < m2 < fronts[k].len() ==> #[trigger] fronts[k][m1]
            != #[trigger] fronts[k][m2]
    &&& forall|j: int| 0 <= j < n ==> (#[trigger] ranks[j]) < fronts.len() && fronts[ranks[j] as int].contains(j as usize)
    &&& forall|i: int, j: int| 0 <= i < n && 0 <= j < n && #[trigger] dom(objs, i, j) ==> ranks[i] < ranks[j]
    &&& forall|j: int|
        0 <= j < n && #[trigger] ranks[j] > 0 ==> exists|i: int|
            0 <= i < n && ranks[i] == ranks[j] - 1 && #[trigger] dom(objs, i, j)
}

proof fn lemma_dom_sum(a: ObjectiveKeys, b: ObjectiveKeys)
    requires
        dominates_spec(a, b),
    ensures
        key_sum(a) > key_sum(b),
        !dominates_spec(b, a),
        a != b,
{
}

proof fn lemma_open_dominators_zero(objs: Seq<ObjectiveKeys>, done: Seq<bool>, j: int, k: int)
    requires
        0 <= k <= done.len(),
        k <= objs.len(),
    ensures
        open_dominators(objs, done, j, k) == 0 <==> forall|i: int|
            0 <= i < k && #[trigger] dom(objs, i, j) ==> done[i],
    decreases k,
{
    if k > 0 {
        lemma_open_dominators_zero(objs, done, j, k - 1);
    }
}

proof fn lemma_open_dominators_mark(objs: Seq<ObjectiveKeys>, done: Seq<bool>, i: int, j: int, k: int)
    requires
        0 <= i < done.len(),
        0 <= k <= done.len(),
        !done[i],
    ensures
        open_dominators(objs, done, j, k) == open_dominators(objs, done.update(i, true), j, k) + if i < k
            && dom(objs, i, j) {
            1nat
        } else {
            0nat
        },
    decreases k,
{
    if k > 0 {
        lemma_open_dominators_mark(objs, done, i, j, k - 1);
    }
}

proof fn lemma_dominated_below(objs: Seq<ObjectiveKeys>, i: int, k: int)
    requires
        0 <= k <= usize::MAX,
    ensures
        forall|m: int|
            0 <= m < dominated_below(objs, i, k).len() ==> (#[trigger] dominated_below(objs, i, k)[m]) < k
                && dom(objs, i, dominated_below(objs, i, k)[m] as int),
        forall|m1: int, m2: int|
            0 <= m1 < m2 < dominated_below(objs, i, k).len() ==> #[trigger] dominated_below(objs, i, k)[m1]
                < #[trigger] dominated_below(objs, i, k)[m2],
        forall|j: int| 0 <= j < k && #[trigger] dom(objs, i, j) ==> dominated_below(objs, i, k).contains(j as usize),
        dominated_below(objs, i, k).len() <= k,
    decreases k,
{
    if k > 0 {
        lemma_dominated_below(objs, i, k - 1);
        let prev = dominated_below(objs, i, k - 1);
        if dom(objs, i, k - 1) {
            let cur = prev.push((k - 1) as usize);
            assert(cur == dominated_below(objs, i, k));
            assert forall|m: int| 0 <= m < cur.len() implies (#[trigger] cur[m]) < k && dom(objs, i, cur[m] as int) by {
                if m < prev.len() {
                    assert(cur[m] == prev[m]);
                }
            }
            assert forall|m1: int, m2: int| 0 <= m1 < m2 < cur.len() implies #[trigger] cur[m1] < #[trigger] cur[m2] by {
                assert(cur[m1] == prev[m1]);
                if m2 < prev.len() {
                    assert(cur[m2] == prev[m2]);
                }
            }
            assert forall|j: int| 0 <= j < k && #[trigger] dom(objs, i, j) implies cur.contains(j as usize) by {
                if j < k - 1 {
                    let m = choose|m: int| 0 <= m < prev.len() && prev[m] == j as usize;
                    assert(cur[m] == j as usize);
                } else {
                    assert(cur[prev.len() as int] == j as usize);
                }
            }
        }
    }
}

/// Some candidate satisfying `p` has the largest key sum among them.
proof fn lemma_max_sum(objs: Seq<ObjectiveKeys>, p: spec_fn(int) -> bool, k: int) -> (best: int)
    requires
        0 <= k <= objs.len(),
        exists|j: int| 0 <= j < k && #[trigger] p(j),
    ensures
        0 <= best < k,
        p(best),
        forall|j: int| 0 <= j < k && #[trigger] p(j) ==> key_sum(objs[j]) <= key_sum(objs[best]),
    decreases k,
{
    if exists|j: int| 0 <= j < k - 1 && #[trigger] p(j) {
        let b = lemma_max_sum(objs, p, k - 1);
        if p(k - 1) && key_sum(objs[k - 1]) > key_sum(objs[b]) {
            k - 1
        } else {
            b
        }
    } else {
        k - 1
    }
}

/// The number of candidates below `k` that have a rank (`usize::MAX`
/// marks none).
pub open spec fn ranked_count(ranks: Seq<usize>, k: int) -> nat
    decreases k,
{
    if k <= 0 {
        0
    } else {
        ranked_count(ranks, k - 1) + if ranks[k - 1] != usize::MAX {
            1nat
        } else {
            0nat
        }
    }
}

proof fn lemma_ranked_count_bound(ranks: Seq<usize>, k: int)
    requires
        0 <= k,
    ensures
        ranked_count(ranks, k) <= k,
    decreases k,
{
    if k > 0 {
        lemma_ranked_count_bound(ranks, k - 1);
    }
}

proof fn lemma_ranked_count_none(ranks: Seq<usize>, k: int)
    requires
        0 <= k <= ranks.len(),
        forall|x: int| 0 <= x < ranks.len() ==> #[trigger] ranks[x] == usize::MAX,
    ensures
        ranked_count(ranks, k) == 0,
    decreases k,
{
    if k > 0 {
        lemma_ranked_count_none(ranks, k - 1);
    }
}

proof fn lemma_ranked_count_set(ranks: Seq<usize>, j: int, r: usize, k: int)
    requires
        0 <= j < ranks.len(),
        0 <= k <= ranks.len(),
        ranks[j] == usize::MAX,
        r != usize::MAX,
    ensures
        ranked_count(ranks.update(j, r), k) == ranked_count(ranks, k) + if j < k {
            1nat
        } else {
            0nat
        },
    decreases k,
{
    if k > 0 {
        lemma_ranked_count_set(ranks, j, r, k - 1);
    }
}

proof fn lemma_undominated_below(objs: Seq<ObjectiveKeys>, k: int)
    requires
        0 <= k <= usize::MAX,
    ensures
        forall|m: int|
            0 <= m < undominated_below(objs, k).len() ==> (#[trigger] undominated_below(objs, k)[m]) < k
                && undominated(objs, undominated_below(objs, k)[m] as int),
        forall|m1: int, m2: int|
            0 <= m1 < m2 < undominated_below(objs, k).len() ==> #[trigger] undominated_below(objs, k)[m1]
                < #[trigger] undominated_below(objs, k)[m2],
        forall|j: int| 0 <= j < k && #[trigger] undominated(objs, j) ==> undominated_below(objs, k).contains(j as usize),
    decreases k,
{
    if k > 0 {
        lemma_undominated_below(objs, k - 1);
        let prev = undominated_below(objs, k - 1);
        if undominated(objs, k - 1) {
            let cur = prev.push((k - 1) as usize);
            assert forall|m: int| 0 <= m < cur.len() implies (#[trigger] cur[m]) < k && undominated(objs, cur[m] as int) by {
                if m < prev.len() {
                    assert(cur[m] == prev[m]);
                }
            }
            assert forall|m1: int, m2: int| 0 <= m1 < m2 < cur.len() implies #[trigger] cur[m1] < #[trigger] cur[m2] by {
                assert(cur[m1] == prev[m1]);
                if m2 < prev.len() {
                    assert(cur[m2] == prev[m2]);
                }
            }
            assert forall|j: int| 0 <= j < k && #[trigger] undominated(objs, j) implies cur.contains(j as usize) by {
                if j < k - 1 {
                    let m = choose|m: int| 0 <= m < prev.len() && prev[m] == j as usize;
                    assert(cur[m] == j as usize);
                } else {
                    assert(cur[prev.len() as int] == j as usize);
                }
            }
        }
    }
}

/// For each candidate, the candidates it dominates (in increasing order)
/// and the number of candidates that dominate it.
fn domination_tables(objs: &Vec<ObjectiveKeys>) -> (r: (Vec<Vec<usize>>, Vec<usize>))
    ensures
        r.0.len() == objs.len(),
        r.1.len() == objs.len(),
        forall|i: int| 0 <= i < objs.len() ==> (#[trigger] r.0[i])@ == dominated_below(objs@, i, objs.len() as int),
        forall|j: int|
            0 <= j < objs.len() ==> #[trigger] r.1[j] == open_dominators(
                objs@,
                Seq::new(objs.len() as nat, |x: int| false),
                j,
                objs.len() as int,
            ),
{
    let n = objs.len();
    let ghost none = Seq::new(n as nat, |x: int| false);
    let mut dominated_by: Vec<Vec<usize>> = Vec::new();
    let mut count: Vec<usize> = Vec::new();
    let mut i: usize = 0;
    while i < n
        invariant
            i <= n == objs.len(),
            none == Seq::new(n as nat, |x: int| false),
            dominated_by.len() == i,
            count.len() == i,
            forall|x: int| 0 <= x < i ==> (#[trigger] dominated_by[x])@ == dominated_below(objs@, x, n as int),
            forall|x: int| 0 <= x < i ==> #[trigger] count[x] == open_dominators(objs@, none, x, n as int),
        decreases n - i,
    {
        let mut list: Vec<usize> = Vec::new();
        let mut c: usize = 0;
        let mut j: usize = 0;
        while j < n
            invariant
                i < n == objs.len(),
                j <= n,
                none == Seq::new(n as nat, |x: int| false),
                list@ == dominated_below(objs@, i as int, j as int),
                c == open_dominators(objs@, none, i as int, j as int),
                c <= j,
            decreases n - j,
        {
            if i != j {
                if objs[i].dominates(&objs[j]) {
                    list.push(j);
                    proof {
                        lemma_dom_sum(objs@[i as int], objs@[j as int]);
                    }
                } else if objs[j].dominates(&objs[i]) {
                    c = c + 1;
                }
            }
            j = j + 1;
        }
        dominated_by.push(list);
        count.push(c);
        i = i + 1;
    }
    (dominated_by, count)
}

/// The candidate `i` is done: every candidate it dominates loses an open
/// dominator, and those left with none get rank `rank` and join `next`,
/// in increasing order.
fn release(
    i: usize,
    dominated_by: &Vec<Vec<usize>>,
    count: &mut Vec<usize>,
    ranks: &mut Vec<usize>,
    next: &mut Vec<usize>,
    rank: usize,
    Ghost(objs): Ghost<Seq<ObjectiveKeys>>,
    Ghost(done): Ghost<Seq<bool>>,
)
    requires
        objs.len() < usize::MAX,
        i < objs.len(),
        done.len() == objs.len(),
        rank < usize::MAX,
        dominated_by.len() == objs.len(),
        forall|x: int|
            0 <= x < objs.len() ==> (#[trigger] dominated_by[x])@ == dominated_below(objs, x, objs.len() as int),
        old(count).len() == objs.len(),
        old(ranks).len() == objs.len(),
        forall|j: int|
            0 <= j < objs.len() ==> #[trigger] old(count)[j] == open_dominators(objs, done, j, objs.len() as int)
                + if dom(objs, i as int, j) {
                1nat
            } else {
                0nat
            },
        forall|j: int| 0 <= j < objs.len() ==> (#[trigger] old(ranks)[j] != usize::MAX) == (old(count)[j] == 0),
    ensures
        final(count).len() == objs.len(),
        final(ranks).len() == objs.len(),
        forall|j: int| 0 <= j < objs.len() ==> #[trigger] final(count)[j] == open_dominators(objs, done, j, objs.len() as int),
        forall|j: int| 0 <= j < objs.len() ==> (#[trigger] final(ranks)[j] != usize::MAX) == (final(count)[j] == 0),
        forall|j: int| 0 <= j < objs.len() && old(ranks)[j] != usize::MAX ==> #[trigger] final(ranks)[j] == old(ranks)[j],
        forall|j: int|
            0 <= j < objs.len() && old(ranks)[j] == usize::MAX && #[trigger] final(ranks)[j] != usize::MAX ==> final(ranks)[j]
                == rank && dom(objs, i as int, j),
        final(next)@.len() >= old(next)@.len(),
        final(next)@.subrange(0, old(next)@.len() as int) == old(next)@,
        forall|m: int|
            old(next)@.len() <= m < final(next)@.len() ==> (#[trigger] final(next)@[m]) < objs.len() && old(ranks)[final(next)@[m] as int]
                == usize::MAX && final(ranks)[final(next)@[m] as int] == rank,
        forall|m1: int, m2: int|
            old(next)@.len() <= m1 < m2 < final(next)@.len() ==> #[trigger] final(next)@[m1] < #[trigger] final(next)@[m2],
        forall|j: int|
            0 <= j < objs.len() && old(ranks)[j] == usize::MAX && #[trigger] final(ranks)[j] != usize::MAX ==> final(next)@.subrange(
                old(next)@.len() as int,
                final(next)@.len() as int,
            ).contains(j as usize),
        ranked_count(final(ranks)@, objs.len() as int) == ranked_count(old(ranks)@, objs.len() as int) + (final(next)@.len()
            - old(next)@.len()),
{
    let n = dominated_by.len();
    let list = &dominated_by[i];
    let ghost l = list@;
    proof {
        lemma_dominated_below(objs, i as int, n as int);
        assert(l.subrange(0, l.len() as int) =~= l);
        assert forall|j: int| 0 <= j < n implies #[trigger] l.contains(j as usize) == dom(objs, i as int, j) by {
            if l.contains(j as usize) {
                let m = choose|m: int| 0 <= m < l.len() && #[trigger] l[m] == j as usize;
                assert(dom(objs, i as int, l[m] as int));
            }
        }
    }
    let ghost next0 = next@;
    let ghost ranks0 = ranks@;
    let mut q: usize = 0;
    while q < list.len()
        invariant
            n == objs.len() < usize::MAX,
            i < n,
            rank < usize::MAX,
            l == list@,
            l == dominated_below(objs, i as int, n as int),
            forall|m: int| 0 <= m < l.len() ==> (#[trigger] l[m]) < n && dom(objs, i as int, l[m] as int),
            forall|m1: int, m2: int| 0 <= m1 < m2 < l.len() ==> #[trigger] l[m1] < #[trigger] l[m2],
            forall|j: int| 0 <= j < n && #[trigger] dom(objs, i as int, j) ==> l.contains(j as usize),
            q <= l.len(),
            count.len() == n,
            ranks.len() == n,
            ranks0.len() == n,
            forall|j: int|
                0 <= j < n ==> #[trigger] count[j] == open_dominators(objs, done, j, n as int) + if l.subrange(
                    q as int,
                    l.len() as int,
                ).contains(j as usize) {
                    1nat
                } else {
                    0nat
                },
            forall|j: int| 0 <= j < n ==> (#[trigger] ranks[j] != usize::MAX) == (count[j] == 0),
            forall|j: int| 0 <= j < n && ranks0[j] != usize::MAX ==> #[trigger] ranks[j] == ranks0[j],
            forall|j: int|
                0 <= j < n && ranks0[j] == usize::MAX && #[trigger] ranks[j] != usize::MAX ==> ranks[j] == rank
                    && dom(objs, i as int, j) && l.subrange(0, q as int).contains(j as usize),
            next@.len() >= next0.len(),
            next@.subrange(0, next0.len() as int) == next0,
            forall|m: int|
                next0.len() <= m < next@.len() ==> (#[trigger] next@[m]) < n && ranks0[next@[m] as int]
                    == usize::MAX && ranks[next@[m] as int] == rank && l.subrange(0, q as int).contains(next@[m]),
            forall|m1: int, m2: int| next0.len() <= m1 < m2 < next@.len() ==> #[trigger] next@[m1] < #[trigger] next@[m2],
            forall|j: int|
                0 <= j < n && ranks0[j] == usize::MAX && #[trigger] ranks[j] != usize::MAX ==> next@.subrange(
                    next0.len() as int,
                    next@.len() as int,
                ).contains(j as usize),
            ranked_count(ranks@, n as int) == ranked_count(ranks0, n as int) + (next@.len() - next0.len()),
        decreases l.len() - q,
    {
        let j = list[q];
        let ghost cnt = count@;
        let ghost rk = ranks@;
        let ghost nx = next@;
        proof {
            assert(l.subrange(q as int, l.len() as int)[0] == j);
            assert(count[j as int] >= 1);
        }
        let c = count[j];
        count.set(j, c - 1);
        if c == 1 {
            proof {
                lemma_ranked_count_set(rk, j as int, rank, n as int);
            }
            ranks.set(j, rank);
            next.push(j);
        }
        q = q + 1;
        proof {
            assert forall|x: int| 0 <= x < n implies #[trigger] count[x] == open_dominators(objs, done, x, n as int)
                + if l.subrange(q as int, l.len() as int).contains(x as usize) {
                1nat
            } else {
                0nat
            } by {
                let before = l.subrange(q - 1, l.len() as int);
                let after = l.subrange(q as int, l.len() as int);
                if x == j as int {
                    if after.contains(x as usize) {
                        let m = choose|m: int| 0 <= m < after.len() && #[trigger] after[m] == x as usize;
                        assert(l[q + m] == l[q - 1]);
                        assert(l[q - 1] < l[q + m]);
                    }
                } else {
                    if before.contains(x as usize) {
                        let m = choose|m: int| 0 <= m < before.len() && #[trigger] before[m] == x as usize;
                        assert(m > 0);
                        assert(after[m - 1] == x as usize);
                    }
                    if after.contains(x as usize) {
                        let m = choose|m: int| 0 <= m < after.len() && #[trigger] after[m] == x as usize;
                        assert(before[m + 1] == x as usize);
                    }
                }
            }
            assert forall|x: int|
                0 <= x < n && ranks0[x] == usize::MAX && #[trigger] ranks[x] != usize::MAX implies ranks[x] == rank
                    && dom(objs, i as int, x) && l.subrange(0, q as int).contains(x as usize) by {
                if x == j as int {
                    assert(l.subrange(0, q as int)[q - 1] == j);
                } else {
                    assert(rk[x] != usize::MAX);
                    let m = choose|m: int| 0 <= m < q - 1 && #[trigger] l.subrange(0, q - 1)[m] == x as usize;
                    assert(l.subrange(0, q as int)[m] == x as usize);
                }
            }
            assert forall|m: int| next0.len() <= m < next@.len() implies (#[trigger] next@[m]) < n && ranks0[next@[m] as int]
                == usize::MAX && ranks[next@[m] as int] == rank && l.subrange(0, q as int).contains(next@[m]) by {
                if m < nx.len() {
                    assert(next@[m] == nx[m]);
                    let y = nx[m];
                    let w = choose|w: int| 0 <= w < q - 1 && #[trigger] l.subrange(0, q - 1)[w] == y;
                    assert(l.subrange(0, q as int)[w] == y);
                    assert(y != j) by {
                        assert(l[w] < l[q - 1]);
                    }
                } else {
                    assert(next@[m] == j);
                    assert(l.subrange(0, q as int)[q - 1] == j);
                    assert(rk[j as int] == usize::MAX);
                    if ranks0[j as int] != usize::MAX {
                        assert(rk[j as int] == ranks0[j as int]);
                    }
                }
            }
            assert forall|m1: int, m2: int| next0.len() <= m1 < m2 < next@.len() implies #[trigger] next@[m1] < #[trigger] next@[m2] by {
                if m2 >= nx.len() {
                    let y = nx[m1];
                    let w = choose|w: int| 0 <= w < q - 1 && #[trigger] l.subrange(0, q - 1)[w] == y;
                    assert(l[w] < l[q - 1]);
                } else {
                    assert(next@[m1] == nx[m1] && next@[m2] == nx[m2]);
                }
            }
            assert(next@.subrange(0, next0.len() as int) =~= next0) by {
                assert(nx.subrange(0, next0.len() as int) == next0);
            }
            assert forall|x: int|
                0 <= x < n && ranks0[x] == usize::MAX && #[trigger] ranks[x] != usize::MAX implies next@.subrange(
                    next0.len() as int,
                    next@.len() as int,
                ).contains(x as usize) by {
                if x == j as int {
                    assert(next@.subrange(next0.len() as int, next@.len() as int)[next@.len() - 1 - next0.len()] == j);
                } else {
                    assert(rk[x] != usize::MAX);
                    let sub0 = nx.subrange(next0.len() as int, nx.len() as int);
                    let w = choose|w: int| 0 <= w < sub0.len() && #[trigger] sub0[w] == x as usize;
                    assert(next@.subrange(next0.len() as int, next@.len() as int)[w] == x as usize);
                }
            }
        }
    }
    proof {
        assert forall|j: int| 0 <= j < n implies #[trigger] count[j] == open_dominators(objs, done, j, n as int) by {
            assert(!l.subrange(q as int, l.len() as int).contains(j as usize));
        }
    }
}

/// The fronts as sequences.
pub open spec fn fronts_view(f: Seq<Vec<usize>>) -> Seq<Seq<usize>> {
    f.map_values(|v: Vec<usize>| v@)
}

/// Sorts the candidates into fronts of mutually non-dominated candidates
/// and gives each its rank, the number of its front (see
/// `sorted_into_fronts`): the first front holds the candidates no one
/// dominates, in increasing order; each further front holds the candidates
/// whose dominators are all in earlier fronts, in the order in which
/// their last dominator of the previous front released them.
pub fn non_dominated_sort(objs: &Vec<ObjectiveKeys>) -> (r: (Vec<Vec<usize>>, Vec<usize>))
    requires
        objs.len() < usize::MAX,
    ensures
        sorted_into_fronts(objs@, fronts_view(r.0@), r.1@),
{
    let n = objs.len();
    if n == 0 {
        let fronts: Vec<Vec<usize>> = Vec::new();
        let ranks: Vec<usize> = Vec::new();
        assert(fronts_view(fronts@) =~= Seq::<Seq<usize>>::empty());
        return (fronts, ranks);
    }
    let ghost o = objs@;
    let (dominated_by, mut count) = domination_tables(objs);
    let ghost none = Seq::new(n as nat, |x: int| false);
    proof {
        lemma_undominated_below(o, n as int);
        assert forall|x: int| 0 <= x < n implies (#[trigger] count[x] == 0) == undominated(o, x) by {
            lemma_open_dominators_zero(o, none, x, n as int);
        }
    }
    let mut ranks: Vec<usize> = Vec::new();
    let mut k: usize = 0;
    while k < n
        invariant
            k <= n,
            ranks@ == Seq::new(k as nat, |x: int| usize::MAX),
        decreases n - k,
    {
        ranks.push(usize::MAX);
        k = k + 1;
        assert(ranks@ =~= Seq::new(k as nat, |x: int| usize::MAX));
    }
    proof {
        lemma_ranked_count_none(ranks@, n as int);
    }
    let mut front0: Vec<usize> = Vec::new();
    let mut i: usize = 0;
    while i < n
        invariant
            i <= n == objs.len() < usize::MAX,
            o == objs@,
            count.len() == n,
            ranks.len() == n,
            forall|x: int| 0 <= x < n ==> (#[trigger] count[x] == 0) == undominated(o, x),
            forall|x: int|
                0 <= x < n ==> #[trigger] ranks[x] == if x < i && undominated(o, x) {
                    0
                } else {
                    usize::MAX
                },
            front0@ == undominated_below(o, i as int),
            ranked_count(ranks@, n as int) == front0.len(),
        decreases n - i,
    {
        if count[i] == 0 {
            proof {
                lemma_ranked_count_set(ranks@, i as int, 0, n as int);
            }
            ranks.set(i, 0);
            front0.push(i);
        }
        i = i + 1;
    }
    proof {
        let any = |x: int| true;
        assert(any(0));
        let best = lemma_max_sum(o, any, n as int);
        assert forall|x: int| 0 <= x < n implies !#[trigger] dom(o, x, best) by {
            if dom(o, x, best) {
                lemma_dom_sum(o[x], o[best]);
                assert(any(x));
            }
        }
        assert(undominated(o, best));
        assert(front0@.contains(best as usize));
        lemma_ranked_count_bound(ranks@, n as int);
    }
    let mut fronts: Vec<Vec<usize>> = Vec::new();
    fronts.push(front0);
    let mut fi: usize = 0;
    let mut finished = false;
    let ghost mut done = none;
    while !finished
        invariant
            n == objs.len() < usize::MAX,
            n > 0,
            o == objs@,
            dominated_by.len() == n,
            forall|x: int| 0 <= x < n ==> (#[trigger] dominated_by[x])@ == dominated_below(o, x, n as int),
            count.len() == n,
            ranks.len() == n,
            done.len() == n,
            fronts.len() == fi + 1,
            fronts[0]@ == undominated_below(o, n as int),
            forall|q: int| 0 <= q < fronts.len() ==> (#[trigger] fronts[q])@.len() > 0,
            forall|q: int, m: int|
                0 <= q < fronts.len() && 0 <= m < fronts[q]@.len() ==> (#[trigger] fronts[q]@[m]) < n
                    && ranks[fronts[q]@[m] as int] == q,
            forall|q: int, m1: int, m2: int|
                0 <= q < fronts.len() && 0 <= m1 < m2 < fronts[q]@.len() ==> #[trigger] fronts[q]@[m1]
                    != #[trigger] fronts[q]@[m2],
            forall|j: int|
                0 <= j < n && #[trigger] ranks[j] != usize::MAX ==> ranks[j] <= fi && fronts[ranks[j] as int]@.contains(
                    j as usize,
                ),
            forall|j: int| 0 <= j < n ==> (#[trigger] ranks[j] != usize::MAX) == (count[j] == 0),
            forall|j: int| 0 <= j < n ==> #[trigger] count[j] == open_dominators(o, done, j, n as int),
            forall|x: int|
                0 <= x < n ==> #[trigger] done[x] == (ranks[x] != usize::MAX && (ranks[x] < fi || finished)),
            forall|a: int, j: int|
                0 <= a < n && 0 <= j < n && ranks[j] != usize::MAX && #[trigger] dom(o, a, j) ==> ranks[a]
                    != usize::MAX && ranks[a] < ranks[j],
            forall|j: int|
                0 <= j < n && #[trigger] ranks[j] != usize::MAX && ranks[j] > 0 ==> exists|a: int|
                    0 <= a < n && ranks[a] == ranks[j] - 1 && #[trigger] dom(o, a, j),
            fi + 1 <= ranked_count(ranks@, n as int) <= n,
        decreases n - ranked_count(ranks@, n as int) + if finished {
            0int
        } else {
            1int
        },
    {
        let mut next: Vec<usize> = Vec::new();
        let ghost rc0 = ranked_count(ranks@, n as int);
        let mut p: usize = 0;
        while p < fronts[fi].len()
            invariant
                n == objs.len() < usize::MAX,
                n > 0,
                o == objs@,
                !finished,
                dominated_by.len() == n,
                forall|x: int| 0 <= x < n ==> (#[trigger] dominated_by[x])@ == dominated_below(o, x, n as int),
                count.len() == n,
                ranks.len() == n,
                done.len() == n,
                fronts.len() == fi + 1,
                p <= fronts[fi as int]@.len(),
                forall|q: int, m: int|
                    0 <= q < fronts.len() && 0 <= m < fronts[q]@.len() ==> (#[trigger] fronts[q]@[m]) < n
                        && ranks[fronts[q]@[m] as int] == q,
                forall|q: int, m1: int, m2: int|
                    0 <= q < fronts.len() && 0 <= m1 < m2 < fronts[q]@.len() ==> #[trigger] fronts[q]@[m1]
                        != #[trigger] fronts[q]@[m2],
                forall|j: int|
                    0 <= j < n && #[trigger] ranks[j] != usize::MAX ==> (ranks[j] <= fi && fronts[ranks[j] as int]@.contains(
                        j as usize,
                    )) || (ranks[j] == fi + 1 && next@.contains(j as usize)),
                forall|m: int| 0 <= m < next@.len() ==> (#[trigger] next@[m]) < n && ranks[next@[m] as int] == fi + 1,
                forall|m1: int, m2: int| 0 <= m1 < m2 < next@.len() ==> #[trigger] next@[m1] != #[trigger] next@[m2],
                forall|j: int| 0 <= j < n ==> (#[trigger] ranks[j] != usize::MAX) == (count[j] == 0),
                forall|j: int| 0 <= j < n ==> #[trigger] count[j] == open_dominators(o, done, j, n as int),
                forall|x: int|
                    0 <= x < n ==> #[trigger] done[x] == ((ranks[x] != usize::MAX && ranks[x] < fi)
                        || fronts[fi as int]@.subrange(0, p as int).contains(x as usize)),
                forall|a: int, j: int|
                    0 <= a < n && 0 <= j < n && ranks[j] != usize::MAX && #[trigger] dom(o, a, j) ==> ranks[a]
                        != usize::MAX && ranks[a] < ranks[j],
                forall|j: int|
                    0 <= j < n && #[trigger] ranks[j] != usize::MAX && ranks[j] > 0 ==> exists|a: int|
                        0 <= a < n && ranks[a] == ranks[j] - 1 && #[trigger] dom(o, a, j),
                fi + 1 <= rc0,
                ranked_count(ranks@, n as int) == rc0 + next@.len(),
            decreases fronts[fi as int]@.len() - p,
        {
            let i = fronts[fi][p];
            proof {
                lemma_ranked_count_bound(ranks@, n as int);
            }
            let ghost before = done;
            proof {
                let f = fronts[fi as int]@;
                assert(ranks[i as int] == fi);
                if f.subrange(0, p as int).contains(i) {
                    let m = choose|m: int| 0 <= m < p && #[trigger] f.subrange(0, p as int)[m] == i;
                    assert(f[m] == f[p as int]);
                }
                assert(!before[i as int]);
                done = before.update(i as int, true);
                assert forall|j: int| 0 <= j < n implies #[trigger] count[j] == open_dominators(o, done, j, n as int)
                    + if dom(o, i as int, j) {
                    1nat
                } else {
                    0nat
                } by {
                    lemma_open_dominators_mark(o, before, i as int, j, n as int);
                }
            }
            let ghost r0 = ranks@;
            let ghost nx0 = next@;
            release(i, &dominated_by, &mut count, &mut ranks, &mut next, fi + 1, Ghost(o), Ghost(done));
            p = p + 1;
            proof {
                let f = fronts[fi as int]@;
                assert forall|x: int|
                    0 <= x < n implies #[trigger] done[x] == ((ranks[x] != usize::MAX && ranks[x] < fi)
                        || f.subrange(0, p as int).contains(x as usize)) by {
                    if r0[x] != usize::MAX {
                        assert(ranks[x] == r0[x]);
                    } else if ranks[x] != usize::MAX {
                        assert(ranks[x] == fi + 1);
                    }
                    if f.subrange(0, p - 1).contains(x as usize) {
                        let m = choose|m: int| 0 <= m < p - 1 && #[trigger] f.subrange(0, p - 1)[m] == x as usize;
                        assert(f.subrange(0, p as int)[m] == x as usize);
                    }
                    if f.subrange(0, p as int).contains(x as usize) && x != i as int {
                        let m = choose|m: int| 0 <= m < p && #[trigger] f.subrange(0, p as int)[m] == x as usize;
                        assert(m < p - 1);
                        assert(f.subrange(0, p - 1)[m] == x as usize);
                    }
                    if x == i as int {
                        assert(f.subrange(0, p as int)[p - 1] == i);
                    }
                }
                assert forall|q: int, m: int|
                    0 <= q < fronts.len() && 0 <= m < fronts[q]@.len() implies (#[trigger] fronts[q]@[m]) < n
                        && ranks[fronts[q]@[m] as int] == q by {
                    assert(r0[fronts[q]@[m] as int] == q);
                }
                assert forall|j: int|
                    0 <= j < n && #[trigger] ranks[j] != usize::MAX implies (ranks[j] <= fi
                        && fronts[ranks[j] as int]@.contains(j as usize)) || (ranks[j] == fi + 1 && next@.contains(
                        j as usize,
                    )) by {
                    if r0[j] != usize::MAX {
                        assert(ranks[j] == r0[j]);
                        if r0[j] == fi + 1 {
                            let m = choose|m: int| 0 <= m < nx0.len() && #[trigger] nx0[m] == j as usize;
                            assert(next@.subrange(0, nx0.len() as int)[m] == j as usize);
                            assert(next@[m] == j as usize);
                        }
                    } else {
                        let sub = next@.subrange(nx0.len() as int, next@.len() as int);
                        assert(sub.contains(j as usize));
                        let m = choose|m: int| 0 <= m < sub.len() && #[trigger] sub[m] == j as usize;
                        assert(next@[nx0.len() + m] == j as usize);
                    }
                }
                assert forall|m: int| 0 <= m < next@.len() implies (#[trigger] next@[m]) < n && ranks[next@[m] as int]
                    == fi + 1 by {
                    if m < nx0.len() {
                        assert(next@.subrange(0, nx0.len() as int)[m] == nx0[m]);
                        assert(r0[nx0[m] as int] == fi + 1);
                    }
                }
                assert forall|m1: int, m2: int| 0 <= m1 < m2 < next@.len() implies #[trigger] next@[m1]
                    != #[trigger] next@[m2] by {
                    if m2 < nx0.len() {
                        assert(next@.subrange(0, nx0.len() as int)[m1] == nx0[m1]);
                        assert(next@.subrange(0, nx0.len() as int)[m2] == nx0[m2]);
                    } else if m1 < nx0.len() {
                        assert(next@.subrange(0, nx0.len() as int)[m1] == nx0[m1]);
                        assert(r0[nx0[m1] as int] == fi + 1);
                        assert(r0[next@[m2] as int] == usize::MAX);
                    }
                }
                assert forall|a: int, j: int|
                    0 <= a < n && 0 <= j < n && ranks[j] != usize::MAX && #[trigger] dom(o, a, j) implies ranks[a]
                        != usize::MAX && ranks[a] < ranks[j] by {
                    if r0[j] != usize::MAX {
                        assert(r0[a] != usize::MAX);
                        assert(ranks[a] == r0[a]);
                    } else {
                        lemma_open_dominators_zero(o, done, j, n as int);
                        assert(done[a]);
                        if a != i as int {
                            assert(before[a]);
                        }
                        assert(r0[a] != usize::MAX);
                        assert(ranks[a] == r0[a]);
                    }
                }
                assert forall|j: int|
                    0 <= j < n && #[trigger] ranks[j] != usize::MAX && ranks[j] > 0 implies exists|a: int|
                        0 <= a < n && ranks[a] == ranks[j] - 1 && #[trigger] dom(o, a, j) by {
                    if r0[j] != usize::MAX {
                        let a = choose|a: int| 0 <= a < n && r0[a] == r0[j] - 1 && #[trigger] dom(o, a, j);
                        assert(ranks[a] == r0[a]);
                    } else {
                        assert(dom(o, i as int, j));
                        assert(ranks[i as int] == r0[i as int]);
                    }
                }
            }
        }
        proof {
            let f = fronts[fi as int]@;
            assert(f.subrange(0, p as int) =~= f);
            lemma_ranked_count_bound(ranks@, n as int);
        }
        if next.len() == 0 {
            finished = true;
            proof {
                let f = fronts[fi as int]@;
                assert forall|x: int|
                    0 <= x < n implies #[trigger] done[x] == (ranks[x] != usize::MAX && (ranks[x] < fi || finished)) by {
                    if ranks[x] != usize::MAX {
                        if ranks[x] == fi {
                            assert(f.contains(x as usize));
                        }
                    }
                    if f.contains(x as usize) {
                        let m = choose|m: int| 0 <= m < f.len() && #[trigger] f[m] == x as usize;
                        assert(ranks[f[m] as int] == fi);
                    }
                }
            }
        } else {
            let ghost nxt = next@;
            fronts.push(next);
            proof {
                let f = fronts[fi as int]@;
                assert forall|x: int|
                    0 <= x < n implies #[trigger] done[x] == (ranks[x] != usize::MAX && (ranks[x] < fi + 1 || finished)) by {
                    if ranks[x] != usize::MAX && ranks[x] == fi {
                        assert(f.contains(x as usize));
                    }
                    if f.contains(x as usize) {
                        let m = choose|m: int| 0 <= m < f.len() && #[trigger] f[m] == x as usize;
                        assert(ranks[f[m] as int] == fi);
                    }
                }
            }
            fi = fi + 1;
            proof {
                assert(fronts[fi as int]@ == nxt);
            }
        }
    }
    proof {
        if exists|j: int| 0 <= j < n && #[trigger] ranks[j] == usize::MAX {
            let unplaced = |x: int| ranks[x] == usize::MAX;
            let w = choose|j: int| 0 <= j < n && #[trigger] ranks[j] == usize::MAX;
            assert(unplaced(w));
            let best = lemma_max_sum(o, unplaced, n as int);
            assert(count[best] != 0);
            lemma_open_dominators_zero(o, done, best, n as int);
            let a = choose|a: int| 0 <= a < n && #[trigger] dom(o, a, best) && !done[a];
            lemma_dom_sum(o[a], o[best]);
            assert(unplaced(a));
            assert(false);
        }
        let fv = fronts_view(fronts@);
        assert forall|q: int| 0 <= q < fv.len() implies #[trigger] fv[q] == fronts[q]@ by {}
        assert forall|j: int|
            0 <= j < n && #[trigger] ranks@[j] > 0 implies exists|a: int|
                0 <= a < n && ranks@[a] == ranks@[j] - 1 && #[trigger] dom(o, a, j) by {
            assert(ranks[j] != usize::MAX);
        }
    }
    (fronts, ranks)
}

/// A front's candidates tagged with their position in the front and
/// keyed by their crowding.
pub open spec fn crowding_keyed(front: Seq<usize>, crowding: Seq<u64>) -> Seq<(u16, u64)> {
    Seq::new(front.len(), |m: int| (m as u16, crowding[front[m] as int]))
}

/// The candidates picked from front `k` on with `remaining` places left:
/// whole fronts in order while they fit, then the front that does not fit
/// by descending crowding (equal crowding keeping the front's order) up to
/// the places left.
pub open spec fn nsga_picked(fronts: Seq<Seq<usize>>, crowding: Seq<u64>, remaining: int, k: int) -> Seq<usize>
    decreases fronts.len() - k,
{
    if k < 0 || k >= fronts.len() || remaining <= 0 {
        Seq::empty()
    } else if fronts[k].len() <= remaining {
        fronts[k] + nsga_picked(fronts, crowding, remaining - fronts[k].len(), k + 1)
    } else {
        ranked(crowding_keyed(fronts[k], crowding)).take(remaining).map_values(|p: (u16, u64)| fronts[k][p.0 as int])
    }
}

/// Picks `num_parents` candidates front by front (see `nsga_picked`),
/// given the fronts of `non_dominated_sort` and a crowding key per
/// candidate (higher keys for more isolated candidates).
pub fn nsga2_selection(fronts: &Vec<Vec<usize>>, crowding: &Vec<u64>, num_parents: usize) -> (selected: Vec<usize>)
    requires
        forall|k: int| 0 <= k < fronts.len() ==> (#[trigger] fronts[k])@.len() <= 65536,
        forall|k: int, m: int|
            0 <= k < fronts.len() && 0 <= m < fronts[k]@.len() ==> (#[trigger] fronts[k]@[m]) < crowding.len(),
    ensures
        selected@ == nsga_picked(fronts_view(fronts@), crowding@, num_parents as int, 0),
{
    let ghost fv = fronts_view(fronts@);
    let ghost want = nsga_picked(fv, crowding@, num_parents as int, 0);
    let mut selected: Vec<usize> = Vec::new();
    let mut remaining: usize = num_parents;
    let mut k: usize = 0;
    while k < fronts.len() && remaining > 0
        invariant
            k <= fronts.len(),
            fv == fronts_view(fronts@),
            forall|q: int| 0 <= q < fronts.len() ==> (#[trigger] fronts[q])@.len() <= 65536,
            forall|q: int, m: int|
                0 <= q < fronts.len() && 0 <= m < fronts[q]@.len() ==> (#[trigger] fronts[q]@[m]) < crowding.len(),
            want == nsga_picked(fv, crowding@, num_parents as int, 0),
            selected@ + nsga_picked(fv, crowding@, remaining as int, k as int) == want,
        decreases fronts.len() - k,
    {
        let f = &fronts[k];
        assert(fv[k as int] == f@);
        let ghost rest = nsga_picked(fv, crowding@, remaining as int, k as int);
        if f.len() <= remaining {
            let ghost sel0 = selected@;
            let mut m: usize = 0;
            while m < f.len()
                invariant
                    m <= f@.len(),
                    selected@ == sel0 + f@.take(m as int),
                decreases f@.len() - m,
            {
                selected.push(f[m]);
                m = m + 1;
                assert(selected@ =~= sel0 + f@.take(m as int));
            }
            assert(f@.take(m as int) =~= f@);
            assert(rest == f@ + nsga_picked(fv, crowding@, remaining - f.len(), k + 1));
            assert(selected@ + nsga_picked(fv, crowding@, remaining - f.len(), k + 1) =~= sel0 + rest);
            remaining = remaining - f.len();
        } else {
            let mut keyed: Vec<(u16, u64)> = Vec::new();
            let ghost want_keyed = crowding_keyed(f@, crowding@);
            let mut m: usize = 0;
            while m < f.len()
                invariant
                    m <= f@.len() <= 65536,
                    forall|x: int| 0 <= x < f@.len() ==> (#[trigger] f@[x]) < crowding.len(),
                    want_keyed == crowding_keyed(f@, crowding@),
                    keyed@ == want_keyed.take(m as int),
                decreases f@.len() - m,
            {
                keyed.push((m as u16, crowding[f[m]]));
                m = m + 1;
                assert(keyed@ =~= want_keyed.take(m as int));
            }
            assert(keyed@ =~= want_keyed);
            let order = rank_descending(&keyed);
            proof {
                lemma_ranking_sorted(want_keyed);
                ranked(want_keyed).to_multiset_ensures();
                want_keyed.to_multiset_ensures();
            }
            let ghost sel0 = selected@;
            let ghost pick = |p: (u16, u64)| f@[p.0 as int];
            let mut t: usize = 0;
            while t < remaining
                invariant
                    remaining < f@.len() <= 65536,
                    t <= remaining,
                    order@ == ranked(want_keyed),
                    order@.len() == want_keyed.len() == f@.len(),
                    want_keyed == crowding_keyed(f@, crowding@),
                    forall|a: (u16, u64)| order@.contains(a) <==> #[trigger] order@.to_multiset().count(a) > 0,
                    forall|a: (u16, u64)| want_keyed.contains(a) <==> #[trigger] want_keyed.to_multiset().count(a) > 0,
                    order@.to_multiset() == want_keyed.to_multiset(),
                    pick == (|p: (u16, u64)| f@[p.0 as int]),
                    selected@ == sel0 + order@.take(t as int).map_values(pick),
                decreases remaining - t,
            {
                let tag = order[t].0;
                proof {
                    let e = order@[t as int];
                    assert(order@.contains(e));
                    assert(order@.to_multiset().count(e) > 0);
                    assert(want_keyed.to_multiset().count(e) > 0);
                    assert(want_keyed.contains(e));
                    let w = choose|w: int| 0 <= w < want_keyed.len() && #[trigger] want_keyed[w] == e;
                    assert(tag as int == w);
                }
                selected.push(f[tag as usize]);
                t = t + 1;
                assert(selected@ =~= sel0 + order@.take(t as int).map_values(pick));
            }
            proof {
                assert(rest == ranked(want_keyed).take(remaining as int).map_values(pick));
                assert(nsga_picked(fv, crowding@, 0, k + 1) =~= Seq::<usize>::empty());
                assert(selected@ + nsga_picked(fv, crowding@, 0, k + 1) =~= sel0 + rest);
            }
            remaining = 0;
        }
        k = k + 1;
    }
    selected
}

/// The candidates of fronts `k` on, front after front.
pub open spec fn fronts_from(fronts: Seq<Seq<usize>>, k: int) -> Seq<usize>
    decreases fronts.len() - k,
{
    if k < 0 || k >= fronts.len() {
        Seq::empty()
    } else {
        fronts[k] + fronts_from(fronts, k + 1)
    }
}

/// The ranked positions of a front that is not taken whole name distinct
/// candidates of it.
proof fn lemma_ranked_positions_distinct(front: Seq<usize>, crowding: Seq<u64>)
    requires
        front.len() <= 65536,
    ensures
        ranked(crowding_keyed(front, crowding)).len() == front.len(),
        forall|i: int|
            0 <= i < front.len() ==> (#[trigger] ranked(crowding_keyed(front, crowding))[i]).0 < front.len(),
        forall|i: int, j: int|
            0 <= i < front.len() && 0 <= j < front.len() && i != j ==> (#[trigger] ranked(
                crowding_keyed(front, crowding),
            )[i]).0 != (#[trigger] ranked(crowding_keyed(front, crowding))[j]).0,
{
    broadcast use vstd::seq_lib::group_to_multiset_ensures;

    let keyed = crowding_keyed(front, crowding);
    let r = ranked(keyed);
    lemma_ranking_sorted(keyed);
    assert forall|m: int| 0 <= m < keyed.len() implies (#[trigger] keyed[m]).0 == m by {}
    assert(keyed.no_duplicates());
    keyed.lemma_multiset_has_no_duplicates();
    r.lemma_multiset_has_no_duplicates_conv();
    assert forall|i: int| 0 <= i < r.len() implies keyed.contains(#[trigger] r[i]) by {
        assert(r.to_multiset().count(r[i]) > 0);
    }
    assert forall|i: int| 0 <= i < front.len() implies (#[trigger] r[i]).0 < front.len() by {
        let m = choose|m: int| 0 <= m < keyed.len() && keyed[m] == r[i];
    }
    assert forall|i: int, j: int| 0 <= i < front.len() && 0 <= j < front.len() && i != j implies (#[trigger] r[i]).0
        != (#[trigger] r[j]).0 by {
        let a = choose|m: int| 0 <= m < keyed.len() && keyed[m] == r[i];
        let b = choose|m: int| 0 <= m < keyed.len() && keyed[m] == r[j];
        assert(r[i] != r[j]);
    }
}

/// NSGA-II selection fills every place it is given, or takes every
/// candidate of the fronts when they hold fewer; it picks only candidates
/// of the fronts, and none twice when no candidate stands twice in them.
pub proof fn lemma_nsga_picked_count_distinct(fronts: Seq<Seq<usize>>, crowding: Seq<u64>, remaining: int, k: int)
    requires
        0 <= k,
        forall|q: int| 0 <= q < fronts.len() ==> (#[trigger] fronts[q]).len() <= 65536,
    ensures
        nsga_picked(fronts, crowding, remaining, k).len() == if remaining <= 0 {
            0
        } else if remaining < fronts_from(fronts, k).len() {
            remaining
        } else {
            fronts_from(fronts, k).len() as int
        },
        forall|i: int|
            0 <= i < nsga_picked(fronts, crowding, remaining, k).len() ==> fronts_from(fronts, k).contains(
                #[trigger] nsga_picked(fronts, crowding, remaining, k)[i],
            ),
        fronts_from(fronts, k).no_duplicates() ==> nsga_picked(fronts, crowding, remaining, k).no_duplicates(),
    decreases fronts.len() - k,
{
    let p = nsga_picked(fronts, crowding, remaining, k);
    let all = fronts_from(fronts, k);
    if k >= fronts.len() || remaining <= 0 {
    } else if fronts[k].len() <= remaining {
        let f = fronts[k];
        let rest = fronts_from(fronts, k + 1);
        let sub = nsga_picked(fronts, crowding, remaining - f.len(), k + 1);
        lemma_nsga_picked_count_distinct(fronts, crowding, remaining - f.len(), k + 1);
        assert(p == f + sub);
        assert(all == f + rest);
        assert forall|i: int| 0 <= i < p.len() implies all.contains(#[trigger] p[i]) by {
            if i < f.len() {
                assert(all[i] == p[i]);
            } else {
                assert(rest.contains(sub[i - f.len()]));
                let j = choose|j: int| 0 <= j < rest.len() && rest[j] == sub[i - f.len()];
                assert(all[j + f.len()] == p[i]);
            }
        }
        if all.no_duplicates() {
            assert forall|j: int| 0 <= j < rest.len() implies rest[j] == #[trigger] all[j + f.len()] by {}
            assert(rest.no_duplicates()) by {
                assert forall|a: int, b: int| 0 <= a < rest.len() && 0 <= b < rest.len() && a != b implies rest[a]
                    != rest[b] by {
                    assert(rest[a] == all[a + f.len()]);
                    assert(rest[b] == all[b + f.len()]);
                }
            }
            assert forall|a: int, b: int| 0 <= a < p.len() && 0 <= b < p.len() && a != b implies p[a] != p[b] by {
                if a < f.len() && b < f.len() {
                    assert(p[a] == all[a] && p[b] == all[b]);
                } else if a >= f.len() && b >= f.len() {
                    assert(p[a] == sub[a - f.len()] && p[b] == sub[b - f.len()]);
                } else if a < f.len() {
                    assert(rest.contains(sub[b - f.len()]));
                    let j = choose|j: int| 0 <= j < rest.len() && rest[j] == sub[b - f.len()];
                    assert(all[j + f.len()] == p[b]);
                    assert(all[a] == p[a]);
                } else {
                    assert(rest.contains(sub[a - f.len()]));
                    let j = choose|j: int| 0 <= j < rest.len() && rest[j] == sub[a - f.len()];
                    assert(all[j + f.len()] == p[a]);
                    assert(all[b] == p[b]);
                }
            }
        }
    } else {
        let f = fronts[k];
        let rest = fronts_from(fronts, k + 1);
        let r = ranked(crowding_keyed(f, crowding));
        lemma_ranked_positions_distinct(f, crowding);
        assert(all == f + rest);
        assert(p == r.take(remaining).map_values(|x: (u16, u64)| f[x.0 as int]));
        assert forall|i: int| 0 <= i < p.len() implies all.contains(#[trigger] p[i]) by {
            assert(p[i] == f[r[i].0 as int]);
            assert(all[r[i].0 as int] == p[i]);
        }
        if all.no_duplicates() {
            assert forall|a: int, b: int| 0 <= a < p.len() && 0 <= b < p.len() && a != b implies p[a] != p[b] by {
                assert(p[a] == f[r[a].0 as int]);
                assert(p[b] == f[r[b].0 as int]);
                assert(all[r[a].0 as int] == p[a]);
                assert(all[r[b].0 as int] == p[b]);
            }
        }
    }
}

/// The fronts of a non-dominated sorting from front `k` on name distinct
/// candidates, each of rank `k` or more, and every candidate of those fronts.
proof fn lemma_fronts_from_sorted(objs: Seq<ObjectiveKeys>, fronts: Seq<Seq<usize>>, ranks: Seq<usize>, k: int)
    requires
        sorted_into_fronts(objs, fronts, ranks),
        0 <= k <= fronts.len(),
    ensures
        fronts_from(fronts, k).no_duplicates(),
        forall|i: int|
            0 <= i < fronts_from(fronts, k).len() ==> (#[trigger] fronts_from(fronts, k)[i]) < objs.len()
                && ranks[fronts_from(fronts, k)[i] as int] >= k,
        forall|q: int, x: usize|
            k <= q < fronts.len() && #[trigger] fronts[q].contains(x) ==> fronts_from(fronts, k).contains(x),
    decreases fronts.len() - k,
{
    if k < fronts.len() {
        lemma_fronts_from_sorted(objs, fronts, ranks, k + 1);
        let f = fronts[k];
        let rest = fronts_from(fronts, k + 1);
        let all = fronts_from(fronts, k);
        assert(all == f + rest);
        assert forall|i: int| 0 <= i < all.len() implies (#[trigger] all[i]) < objs.len() && ranks[all[i] as int]
            >= k by {
            if i < f.len() {
                assert(all[i] == fronts[k][i]);
            } else {
                assert(all[i] == rest[i - f.len()]);
            }
        }
        assert forall|a: int, b: int| 0 <= a < all.len() && 0 <= b < all.len() && a != b implies all[a]
            != all[b] by {
            if a < f.len() && b < f.len() {
                if a < b {
                    assert(fronts[k][a] != fronts[k][b]);
                } else {
                    assert(fronts[k][b] != fronts[k][a]);
                }
            } else if a >= f.len() && b >= f.len() {
                assert(all[a] == rest[a - f.len()] && all[b] == rest[b - f.len()]);
            } else if a < f.len() {
                assert(ranks[fronts[k][a] as int] == k);
                assert(all[b] == rest[b - f.len()]);
            } else {
                assert(ranks[fronts[k][b] as int] == k);
                assert(all[a] == rest[a - f.len()]);
            }
        }
        assert forall|q: int, x: usize| k <= q < fronts.len() && #[trigger] fronts[q].contains(x) implies all.contains(
            x,
        ) by {
            if q == k {
                let m = choose|m: int| 0 <= m < f.len() && f[m] == x;
                assert(all[m] == x);
            } else {
                let j = choose|j: int| 0 <= j < rest.len() && rest[j] == x;
                assert(all[j + f.len()] == x);
            }
        }
    }
}

/// The fronts of a non-dominated sorting hold every candidate exactly once.
pub proof fn lemma_sorted_fronts_hold_each_candidate_once(
    objs: Seq<ObjectiveKeys>,
    fronts: Seq<Seq<usize>>,
    ranks: Seq<usize>,
)
    requires
        sorted_into_fronts(objs, fronts, ranks),
        objs.len() <= usize::MAX,
    ensures
        fronts_from(fronts, 0).no_duplicates(),
        fronts_from(fronts, 0).len() == objs.len(),
        forall|j: usize| j < objs.len() ==> #[trigger] fronts_from(fronts, 0).contains(j),
        forall|i: int|
            0 <= i < fronts_from(fronts, 0).len() ==> (#[trigger] fronts_from(fronts, 0)[i]) < objs.len(),
{
    let n = objs.len() as int;
    let all = fronts_from(fronts, 0);
    lemma_fronts_from_sorted(objs, fronts, ranks, 0);
    assert forall|j: usize| j < objs.len() implies #[trigger] all.contains(j) by {
        assert(fronts[ranks[j as int] as int].contains(j));
    }
    let as_int = |x: usize| x as int;
    let t = all.map_values(as_int);
    assert(vstd::relations::injective(as_int));
    all.lemma_no_duplicates_injective(as_int);
    t.unique_seq_to_set();
    assert(t.to_set() =~= vstd::set_lib::set_int_range(0, n)) by {
        assert forall|v: int| #[trigger] t.to_set().contains(v) implies 0 <= v < n by {
            let i = choose|i: int| 0 <= i < t.len() && t[i] == v;
            assert(all[i] < n);
        }
        assert forall|v: int| 0 <= v < n implies #[trigger] t.to_set().contains(v) by {
            let j = v as usize;
            assert(all.contains(j));
            let i = choose|i: int| 0 <= i < all.len() && all[i] == j;
            assert(t[i] == v);
        }
    }
    vstd::set_lib::lemma_int_range(0, n);
}

/// Choosing `num_parents` parents from the fronts of a non-dominated
/// sorting picks that many distinct candidates, or every candidate once
/// when there are fewer.
pub proof fn lemma_nsga_selection_of_sorted_fronts(
    objs: Seq<ObjectiveKeys>,
    fronts: Seq<Seq<usize>>,
    ranks: Seq<usize>,
    crowding: Seq<u64>,
    num_parents: int,
)
    requires
        sorted_into_fronts(objs, fronts, ranks),
        objs.len() <= usize::MAX,
        forall|q: int| 0 <= q < fronts.len() ==> (#[trigger] fronts[q]).len() <= 65536,
    ensures
        nsga_picked(fronts, crowding, num_parents, 0).len() == if num_parents <= 0 {
            0
        } else if num_parents < objs.len() {
            num_parents
        } else {
            objs.len() as int
        },
        nsga_picked(fronts, crowding, num_parents, 0).no_duplicates(),
        forall|i: int|
            0 <= i < nsga_picked(fronts, crowding, num_parents, 0).len() ==> (#[trigger] nsga_picked(
                fronts,
                crowding,
                num_parents,
                0,
            )[i]) < objs.len(),
{
    lemma_sorted_fronts_hold_each_candidate_once(objs, fronts, ranks);
    lemma_nsga_picked_count_distinct(fronts, crowding, num_parents, 0);
    let p = nsga_picked(fronts, crowding, num_parents, 0);
    let all = fronts_from(fronts, 0);
    assert forall|i: int| 0 <= i < p.len() implies (#[trigger] p[i]) < objs.len() by {
        assert(all.contains(p[i]));
        let j = choose|j: int| 0 <= j < all.len() && all[j] == p[i];
        assert(all[j] < objs.len());
    }
}

} // verus!
