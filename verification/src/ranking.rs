//! Ranking individuals by a score, best first: a stable sort by
//! descending integer key, where the key orders scores as the scores
//! themselves are ordered.
use vstd::prelude::*;

verus! {

/// Where an item with key `k` goes in a list ranked by descending key:
/// before the first item, from position `i` on, whose key is smaller.
pub open spec fn insertion_point(s: Seq<(u16, u64)>, k: u64, i: int) -> int
    decreases s.len() - i,
{
    if i < 0 || i >= s.len() {
        s.len() as int
    } else if s[i].1 < k {
        i
    } else {
        insertion_point(s, k, i + 1)
    }
}

/// The items ranked by descending key, items of equal key keeping their
/// order: each item in turn goes after every earlier item whose key is at
/// least its own.
pub open spec fn ranked(s: Seq<(u16, u64)>) -> Seq<(u16, u64)>
    decreases s.len(),
{
    if s.len() == 0 {
        Seq::empty()
    } else {
        let r = ranked(s.drop_last());
        r.insert(insertion_point(r, s.last().1, 0), s.last())
    }
}

/// Keys never increase along the sequence.
pub open spec fn descending(s: Seq<(u16, u64)>) -> bool {
    forall|i: int, j: int| 0 <= i < j < s.len() ==> #[trigger] s[i].1 >= #[trigger] s[j].1
}

proof fn lemma_insertion_point(s: Seq<(u16, u64)>, k: u64, i: int)
    requires
        0 <= i <= s.len(),
    ensures
        i <= insertion_point(s, k, i) <= s.len(),
        forall|j: int| i <= j < insertion_point(s, k, i) ==> #[trigger] s[j].1 >= k,
        insertion_point(s, k, i) < s.len() ==> s[insertion_point(s, k, i)].1 < k,
    decreases s.len() - i,
{
    if i < s.len() {
        lemma_insertion_point(s, k, i + 1);
    }
}

/// The ranking holds the same items and is descending.
proof fn lemma_ranked(s: Seq<(u16, u64)>)
    ensures
        ranked(s).len() == s.len(),
        ranked(s).to_multiset() == s.to_multiset(),
        descending(ranked(s)),
    decreases s.len(),
{
    if s.len() == 0 {
        assert(ranked(s) =~= s);
    } else {
        let r = ranked(s.drop_last());
        lemma_ranked(s.drop_last());
        let x = s.last();
        let p = insertion_point(r, x.1, 0);
        lemma_insertion_point(r, x.1, 0);
        let q = r.insert(p, x);
        vstd::seq_lib::to_multiset_insert(r, p, x);
        vstd::seq_lib::to_multiset_build(s.drop_last(), x);
        assert(s.drop_last().push(x) == s);
        assert forall|i: int, j: int| 0 <= i < j < q.len() implies #[trigger] q[i].1 >= #[trigger] q[j].1 by {
            if j < p {
                assert(q[i] == r[i] && q[j] == r[j]);
            } else if j == p {
                assert(q[i] == r[i]);
            } else if i < p {
                assert(q[i] == r[i] && q[j] == r[j - 1]);
                if p < r.len() {
                    assert(r[p].1 < x.1);
                }
            } else if i == p {
                assert(q[j] == r[j - 1]);
                assert(r[p].1 < x.1);
            } else {
                assert(q[i] == r[i - 1] && q[j] == r[j - 1]);
            }
        }
    }
}

/// Ranks items by descending key, keeping the order of items of equal key
/// (see `ranked`).
pub fn rank_descending(items: &Vec<(u16, u64)>) -> (r: Vec<(u16, u64)>)
    ensures
        r@ == ranked(items@),
{
    let mut out: Vec<(u16, u64)> = Vec::new();
    let mut k: usize = 0;
    while k < items.len()
        invariant
            k <= items@.len(),
            out@ == ranked(items@.take(k as int)),
        decreases items.len() - k,
    {
        let x = items[k];
        proof {
            lemma_ranked(items@.take(k as int));
        }
        let mut p: usize = 0;
        while p < out.len() && out[p].1 >= x.1
            invariant
                p <= out@.len(),
                insertion_point(out@, x.1, 0) == insertion_point(out@, x.1, p as int),
            decreases out.len() - p,
        {
            p = p + 1;
        }
        proof {
            assert(items@.take(k + 1).drop_last() == items@.take(k as int));
            assert(items@.take(k + 1).last() == x);
        }
        out.insert(p, x);
        k = k + 1;
    }
    assert(items@.take(items@.len() as int) == items@);
    out
}

/// A ranking holds the same items, each as often, and puts higher keys
/// first.
pub proof fn lemma_ranking_sorted(items: Seq<(u16, u64)>)
    ensures
        ranked(items).len() == items.len(),
        ranked(items).to_multiset() == items.to_multiset(),
        descending(ranked(items)),
{
    lemma_ranked(items);
}

} // verus!
