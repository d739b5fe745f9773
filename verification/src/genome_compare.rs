//! Genome comparison: the counts the similarity measures are computed
//! from (a Jaro-Winkler match of genes, and bit or byte agreement).
use vstd::prelude::*;

use crate::genome_neurons::{Gene, Genome};
use crate::params::Params;
use crate::peeps::Peeps;
use crate::random::{random_uint_range, RandomUintGenerator, RngState};

verus! {

/// Two genes match: same source, sink and weight.
pub fn genes_match(g1: &Gene, g2: &Gene) -> (b: bool)
    ensures
        b == (*g1 == *g2),
{
    g1.sink_num == g2.sink_num && g1.source_num == g2.source_num && g1.sink_type == g2.sink_type
        && g1.source_type == g2.source_type && g1.weight == g2.weight
}

/// How many genes the Jaro-Winkler comparison looks at.
pub const MAX_NUM_GENES_TO_COMPARE: usize = 20;

/// The counts of a Jaro-Winkler comparison.
#[derive(Debug, Clone, Copy, PartialEq, Eq, Structural)]
pub struct JaroCounts {
    /// Genes compared of the first and second genome.
    pub len_s: i32,
    pub len_a: i32,
    /// Matched genes.
    pub matches: i32,
    /// Half the matched genes out of order.
    pub transpositions: i32,
    /// Leading genes (up to 4) that agree.
    pub matching_prefix: i32,
}

/// The first `j` in `lo..hi` at which `g` matches an unflagged gene of `s`.
pub open spec fn find_free(g: Gene, s: Seq<Gene>, sflags: Seq<bool>, j: int, hi: int) -> Option<int>
    decreases hi - j,
{
    if j >= hi {
        None
    } else if g == s[j] && !sflags[j] {
        Some(j)
    } else {
        find_free(g, s, sflags, j + 1, hi)
    }
}

/// The flags of `s` and `a` and the match count after matching the first
/// `i` genes of `a`, each against the free genes of `s` within `range`
/// positions.
pub open spec fn match_rows(a: Seq<Gene>, s: Seq<Gene>, sl: int, al: int, range: int, i: int) -> (
    Seq<bool>,
    Seq<bool>,
    int,
)
    decreases i,
{
    if i <= 0 {
        (Seq::new(sl as nat, |j: int| false), Seq::new(al as nat, |j: int| false), 0)
    } else {
        let prev = match_rows(a, s, sl, al, range, i - 1);
        let r = i - 1;
        let lo = if r - range > 0 {
            r - range
        } else {
            0
        };
        let hi = if r + range + 1 < sl {
            r + range + 1
        } else {
            sl
        };
        match find_free(a[r], s, prev.0, lo, hi) {
            Some(j) => (prev.0.update(j, true), prev.1.update(r, true), prev.2 + 1),
            None => prev,
        }
    }
}

/// The first flagged position of `sflags` from `l` on, or `sl`.
pub open spec fn next_flag(sflags: Seq<bool>, l: int, sl: int) -> int
    decreases sl - l,
{
    if l >= sl {
        sl
    } else if sflags[l] {
        l
    } else {
        next_flag(sflags, l + 1, sl)
    }
}

/// The scan position and transposition count after the first `i` genes
/// of `a`: each matched gene of `a` is paired with the next flagged gene
/// of `s`, and a pair that does not match counts.
pub open spec fn transpositions(a: Seq<Gene>, s: Seq<Gene>, sflags: Seq<bool>, aflags: Seq<bool>, sl: int, i: int) -> (
    int,
    int,
)
    decreases i,
{
    if i <= 0 {
        (0, 0)
    } else {
        let prev = transpositions(a, s, sflags, aflags, sl, i - 1);
        if aflags[i - 1] {
            let j = next_flag(sflags, prev.0, sl);
            (
                if j < sl {
                    j + 1
                } else {
                    prev.0
                },
                if j < sl && a[i - 1] != s[j] {
                    prev.1 + 1
                } else {
                    prev.1
                },
            )
        } else {
            prev
        }
    }
}

/// How many of the first `n` genes of `s` and `a` agree before the first
/// disagreement.
pub open spec fn prefix_matches(s: Seq<Gene>, a: Seq<Gene>, n: int) -> int
    decreases n,
{
    if n <= 0 {
        0
    } else if prefix_matches(s, a, n - 1) == n - 1 && s[n - 1] == a[n - 1] {
        n
    } else {
        prefix_matches(s, a, n - 1)
    }
}

/// The counts of the Jaro-Winkler comparison of `s` and `a`.
pub open spec fn jaro_counts(s: Seq<Gene>, a: Seq<Gene>) -> JaroCounts {
    let sl = if s.len() < 20 {
        s.len() as int
    } else {
        20
    };
    let al = if a.len() < 20 {
        a.len() as int
    } else {
        20
    };
    let mx = if sl >= al {
        sl
    } else {
        al
    };
    let range = if mx / 2 - 1 > 0 {
        mx / 2 - 1
    } else {
        0
    };
    let m = match_rows(a, s, sl, al, range, al);
    let t = transpositions(a, s, m.0, m.1, sl, al);
    let p = if sl <= al {
        sl
    } else {
        al
    };
    let plen = if p < 4 {
        p
    } else {
        4
    };
    JaroCounts {
        len_s: sl as i32,
        len_a: al as i32,
        matches: m.2 as i32,
        transpositions: (t.1 / 2) as i32,
        matching_prefix: prefix_matches(s, a, plen) as i32,
    }
}

/// The match flags stay the right length and the count stays below the
/// genes matched.
proof fn lemma_match_rows(a: Seq<Gene>, s: Seq<Gene>, sl: int, al: int, range: int, i: int)
    requires
        0 <= sl <= s.len(),
        0 <= i <= al <= a.len(),
    ensures
        match_rows(a, s, sl, al, range, i).0.len() == sl,
        match_rows(a, s, sl, al, range, i).1.len() == al,
        0 <= match_rows(a, s, sl, al, range, i).2 <= i,
    decreases i,
{
    if i > 0 {
        lemma_match_rows(a, s, sl, al, range, i - 1);
        let prev = match_rows(a, s, sl, al, range, i - 1);
        let r = i - 1;
        let lo = if r - range > 0 { r - range } else { 0 };
        let hi = if r + range + 1 < sl { r + range + 1 } else { sl };
        lemma_find_free(a[r], s, prev.0, lo, hi);
    }
}

proof fn lemma_find_free(g: Gene, s: Seq<Gene>, sflags: Seq<bool>, j: int, hi: int)
    requires
        0 <= j,
    ensures
        find_free(g, s, sflags, j, hi) matches Some(k) ==> j <= k < hi,
    decreases hi - j,
{
    if j < hi {
        lemma_find_free(g, s, sflags, j + 1, hi);
    }
}

proof fn lemma_next_flag(sflags: Seq<bool>, l: int, sl: int)
    requires
        0 <= l,
    ensures
        l <= sl ==> l <= next_flag(sflags, l, sl) <= sl,
        l > sl ==> next_flag(sflags, l, sl) == sl,
    decreases sl - l,
{
    if l < sl {
        lemma_next_flag(sflags, l + 1, sl);
    }
}

proof fn lemma_transpositions(a: Seq<Gene>, s: Seq<Gene>, sflags: Seq<bool>, aflags: Seq<bool>, sl: int, i: int)
    requires
        0 <= sl,
    ensures
        i >= 0 ==> 0 <= transpositions(a, s, sflags, aflags, sl, i).0 <= sl,
        i >= 0 ==> 0 <= transpositions(a, s, sflags, aflags, sl, i).1 <= i,
    decreases i,
{
    if i > 0 {
        lemma_transpositions(a, s, sflags, aflags, sl, i - 1);
        let prev = transpositions(a, s, sflags, aflags, sl, i - 1);
        lemma_next_flag(sflags, prev.0, sl);
    }
}

proof fn lemma_prefix_matches(s: Seq<Gene>, a: Seq<Gene>, n: int)
    ensures
        n >= 0 ==> 0 <= prefix_matches(s, a, n) <= n,
    decreases n,
{
    if n > 0 {
        lemma_prefix_matches(s, a, n - 1);
    }
}


/// Matches the first `al` genes of `a` against those of `s` (see
/// `match_rows`).
fn match_genes(s: &Genome, a: &Genome, sl: usize, al: usize, range: usize) -> (r: (Vec<bool>, Vec<bool>, u32))
    requires
        sl <= s.len(),
        al <= a.len(),
        sl <= 20,
        al <= 20,
        range <= 20,
    ensures
        (r.0@, r.1@, r.2 as int) == match_rows(a@, s@, sl as int, al as int, range as int, al as int),
{
    let mut sflags: Vec<bool> = vec![false; sl];
    let mut aflags: Vec<bool> = vec![false; al];
    let mut m: u32 = 0;
    assert(sflags@ == Seq::new(sl as nat, |j: int| false));
    assert(aflags@ == Seq::new(al as nat, |j: int| false));
    let mut i: usize = 0;
    while i < al
        invariant
            i <= al <= a.len(),
            sl <= s.len(),
            sl <= 20,
            al <= 20,
            range <= 20,
            (sflags@, aflags@, m as int) == match_rows(a@, s@, sl as int, al as int, range as int, i as int),
        decreases al - i,
    {
        proof {
            lemma_match_rows(a@, s@, sl as int, al as int, range as int, i as int);
        }
        let lo: usize = if i > range {
            i - range
        } else {
            0
        };
        let hi: usize = if i + range + 1 < sl {
            i + range + 1
        } else {
            sl
        };
        let ghost before = sflags@;
        let mut j = lo;
        let mut found = false;
        while j < hi && !found
            invariant
                lo <= j,
                j <= hi || j == lo,
                hi <= sl <= s.len(),
                i < al <= a.len(),
                sflags@ == before,
                before.len() == sl,
                !found ==> find_free(a@[i as int], s@, before, lo as int, hi as int) == find_free(
                    a@[i as int],
                    s@,
                    before,
                    j as int,
                    hi as int,
                ),
                found ==> j < hi && j < sl && find_free(a@[i as int], s@, before, lo as int, hi as int) == Some(
                    j as int,
                ),
            decreases hi - j + if found {
                0int
            } else {
                1int
            },
        {
            if genes_match(&a[i], &s[j]) && !sflags[j] {
                found = true;
            } else {
                j = j + 1;
            }
        }
        if found {
            sflags.set(j, true);
            aflags.set(i, true);
            m = m + 1;
        }
        i = i + 1;
    }
    (sflags, aflags, m)
}

/// The counts of the Jaro-Winkler comparison of the first (up to 20)
/// genes of the two genomes (see `jaro_counts`): the similarity is
/// `(m / ls + m / la + (m - t) / m) / 3` plus the prefix bonus, or 0 when
/// a genome is empty or nothing matches.
pub fn jaro_winkler_distance(genome1: &Genome, genome2: &Genome) -> (c: JaroCounts)
    ensures
        c == jaro_counts(genome1@, genome2@),
{
    let s = genome1;
    let a = genome2;
    let sl: usize = if s.len() < 20 {
        s.len()
    } else {
        20
    };
    let al: usize = if a.len() < 20 {
        a.len()
    } else {
        20
    };
    let mx = if sl >= al {
        sl
    } else {
        al
    };
    let range: usize = if mx / 2 > 1 {
        mx / 2 - 1
    } else {
        0
    };
    let (sflags, aflags, m) = match_genes(s, a, sl, al, range);
    proof {
        lemma_match_rows(a@, s@, sl as int, al as int, range as int, al as int);
    }
    let mut l: usize = 0;
    let mut t: u32 = 0;
    let mut i: usize = 0;
    while i < al
        invariant
            i <= al <= a.len(),
            sl <= s.len(),
            sl <= 20,
            sflags.len() == sl,
            aflags.len() == al,
            (l as int, t as int) == transpositions(a@, s@, sflags@, aflags@, sl as int, i as int),
            t <= i,
            al <= 20,
        decreases al - i,
    {
        proof {
            lemma_transpositions(a@, s@, sflags@, aflags@, sl as int, i as int);
        }
        if aflags[i] {
            let ghost l0 = l;
            proof {
                lemma_next_flag(sflags@, l0 as int, sl as int);
            }
            let mut j = l;
            let mut hit = false;
            while j < sl && !hit
                invariant
                    l0 <= j <= sl,
                    sflags.len() == sl,
                    sl <= s.len(),
                    !hit ==> next_flag(sflags@, l0 as int, sl as int) == next_flag(
                        sflags@,
                        j as int,
                        sl as int,
                    ),
                    hit ==> j < sl && next_flag(sflags@, l0 as int, sl as int) == j,
                decreases sl - j + if hit {
                    0int
                } else {
                    1int
                },
            {
                if sflags[j] {
                    hit = true;
                } else {
                    j = j + 1;
                }
            }
            if hit {
                l = j + 1;
            }
            if j < sl && !genes_match(&a[i], &s[j]) {
                t = t + 1;
            }
        }
        i = i + 1;
    }
    proof {
        lemma_transpositions(a@, s@, sflags@, aflags@, sl as int, al as int);
    }
    let p = if sl <= al {
        sl
    } else {
        al
    };
    let plen = if p < 4 {
        p
    } else {
        4
    };
    let mut matching_prefix: usize = 0;
    let mut k: usize = 0;
    let mut stopped = false;
    while k < plen && !stopped
        invariant
            k <= plen <= 4,
            plen <= sl <= s.len(),
            plen <= al <= a.len(),
            !stopped ==> matching_prefix == k && prefix_matches(s@, a@, k as int) == k,
            stopped ==> prefix_matches(s@, a@, plen as int) == matching_prefix,
        decreases plen - k + if stopped {
            0int
        } else {
            1int
        },
    {
        if genes_match(&s[k], &a[k]) {
            matching_prefix = matching_prefix + 1;
            k = k + 1;
        } else {
            proof {
                lemma_prefix_stays(s@, a@, k as int, plen as int);
            }
            stopped = true;
        }
    }
    JaroCounts {
        len_s: sl as i32,
        len_a: al as i32,
        matches: m as i32,
        transpositions: (t / 2) as i32,
        matching_prefix: matching_prefix as i32,
    }
}

/// After the first disagreement the prefix count stays.
proof fn lemma_prefix_stays(s: Seq<Gene>, a: Seq<Gene>, k: int, n: int)
    requires
        0 <= k < n,
        prefix_matches(s, a, k) == k,
        s[k] != a[k],
    ensures
        prefix_matches(s, a, n) == k,
    decreases n,
{
    if n > k + 1 {
        lemma_prefix_stays(s, a, k, n - 1);
        lemma_prefix_matches(s, a, n - 1);
    }
}


/// The bytes of a gene in memory: the four type and number fields, then
/// the weight, low byte first.
pub open spec fn gene_bytes(g: Gene) -> Seq<u8> {
    seq![
        g.source_type,
        g.source_num,
        g.sink_type,
        g.sink_num,
        ((g.weight as u16) % 256) as u8,
        ((g.weight as u16) / 256) as u8,
    ]
}

/// The number of set bits of `b`.
pub open spec fn popcount(b: u8) -> nat
    decreases b,
{
    if b == 0 {
        0
    } else {
        (b % 2) as nat + popcount(b / 2)
    }
}

/// The bits that differ between the `k` first bytes of two genes.
pub open spec fn differing_bits_in(x: Seq<u8>, y: Seq<u8>, k: int) -> nat
    decreases k,
{
    if k <= 0 {
        0
    } else {
        differing_bits_in(x, y, k - 1) + popcount(x[k - 1] ^ y[k - 1])
    }
}

/// The bytes that agree among the `k` first bytes of two genes.
pub open spec fn equal_bytes_in(x: Seq<u8>, y: Seq<u8>, k: int) -> nat
    decreases k,
{
    if k <= 0 {
        0
    } else {
        equal_bytes_in(x, y, k - 1) + if x[k - 1] == y[k - 1] {
            1nat
        } else {
            0nat
        }
    }
}

/// The bits that differ between the first `k` genes of two genomes.
pub open spec fn differing_bits(g1: Seq<Gene>, g2: Seq<Gene>, k: int) -> nat
    decreases k,
{
    if k <= 0 {
        0
    } else {
        differing_bits(g1, g2, k - 1) + differing_bits_in(
            gene_bytes(g1[k - 1]),
            gene_bytes(g2[k - 1]),
            6,
        )
    }
}

/// The bytes that agree between the first `k` genes of two genomes.
pub open spec fn equal_bytes(g1: Seq<Gene>, g2: Seq<Gene>, k: int) -> nat
    decreases k,
{
    if k <= 0 {
        0
    } else {
        equal_bytes(g1, g2, k - 1) + equal_bytes_in(gene_bytes(g1[k - 1]), gene_bytes(g2[k - 1]), 6)
    }
}

/// A count out of a total.
#[derive(Debug, Clone, Copy, PartialEq, Eq, Structural)]
pub struct Tally {
    pub count: u64,
    pub total: u64,
}

/// The number of set bits of `b`.
fn count_ones(b: u8) -> (c: u64)
    ensures
        c == popcount(b),
        c <= 8,
{
    proof {
        lemma_popcount_bound(b);
    }
    let mut x = b;
    let mut c: u64 = 0;
    while x != 0
        invariant
            c + popcount(x) == popcount(b),
            popcount(b) <= 8,
        decreases x,
    {
        assert(x & 1 == x % 2) by (bit_vector);
        assert(x >> 1 == x / 2) by (bit_vector);
        c = c + (x & 1) as u64;
        x = x >> 1;
    }
    c
}

proof fn lemma_popcount_bound(b: u8)
    ensures
        popcount(b) <= 8,
        b < 128 ==> popcount(b) <= 7,
        b < 64 ==> popcount(b) <= 6,
        b < 32 ==> popcount(b) <= 5,
        b < 16 ==> popcount(b) <= 4,
        b < 8 ==> popcount(b) <= 3,
        b < 4 ==> popcount(b) <= 2,
        b < 2 ==> popcount(b) <= 1,
    decreases b,
{
    if b > 0 {
        lemma_popcount_bound(b / 2);
    }
}

/// The bytes of a gene (see `gene_bytes`).
fn bytes_of(g: &Gene) -> (b: [u8; 6])
    ensures
        b@ == gene_bytes(*g),
{
    let w = g.weight as u16;
    let b = [g.source_type, g.source_num, g.sink_type, g.sink_num, (w % 256) as u8, (w / 256) as u8];
    assert(b@ =~= gene_bytes(*g));
    b
}

/// The bits that differ between two genomes of equal length, out of all
/// their bits; the similarity is `1 - min(2 * count / total, 1)`.
pub fn hamming_distance_bits(genome1: &Genome, genome2: &Genome) -> (t: Tally)
    requires
        genome1.len() == genome2.len(),
        genome1.len() <= u32::MAX,
    ensures
        t.count == differing_bits(genome1@, genome2@, genome1.len() as int),
        t.total == genome1.len() * 48,
        t.count <= t.total,
{
    let n = genome1.len();
    let mut count: u64 = 0;
    let mut i: usize = 0;
    while i < n
        invariant
            i <= n == genome1.len() == genome2.len(),
            n <= u32::MAX,
            count == differing_bits(genome1@, genome2@, i as int),
            count <= 48 * i,
        decreases n - i,
    {
        let b1 = bytes_of(&genome1[i]);
        let b2 = bytes_of(&genome2[i]);
        let mut k: usize = 0;
        let mut gc: u64 = 0;
        while k < 6
            invariant
                k <= 6,
                gc == differing_bits_in(b1@, b2@, k as int),
                gc <= 8 * k,
            decreases 6 - k,
        {
            let c = count_ones(b1[k] ^ b2[k]);
            gc = gc + c;
            k = k + 1;
        }
        count = count + gc;
        i = i + 1;
    }
    Tally { count, total: n as u64 * 48 }
}

/// The bytes that agree between two genomes of equal length, out of all
/// their bytes; the similarity is `count / total`.
pub fn hamming_distance_bytes(genome1: &Genome, genome2: &Genome) -> (t: Tally)
    requires
        genome1.len() == genome2.len(),
        genome1.len() <= u32::MAX,
    ensures
        t.count == equal_bytes(genome1@, genome2@, genome1.len() as int),
        t.total == genome1.len() * 6,
        t.count <= t.total,
{
    let n = genome1.len();
    let mut count: u64 = 0;
    let mut i: usize = 0;
    while i < n
        invariant
            i <= n == genome1.len() == genome2.len(),
            n <= u32::MAX,
            count == equal_bytes(genome1@, genome2@, i as int),
            count <= 6 * i,
        decreases n - i,
    {
        let b1 = bytes_of(&genome1[i]);
        let b2 = bytes_of(&genome2[i]);
        let mut k: usize = 0;
        let mut gc: u64 = 0;
        while k < 6
            invariant
                k <= 6,
                gc == equal_bytes_in(b1@, b2@, k as int),
                gc <= k,
            decreases 6 - k,
        {
            if b1[k] == b2[k] {
                gc = gc + 1;
            }
            k = k + 1;
        }
        count = count + gc;
        i = i + 1;
    }
    Tally { count, total: n as u64 * 6 }
}

/// The counts a genome similarity is computed from.
#[derive(Debug, Clone, Copy, PartialEq, Eq, Structural)]
pub enum SimilarityCounts {
    Jaro(JaroCounts),
    Bits(Tally),
    Bytes(Tally),
}

/// The counts two genomes are compared by: Jaro-Winkler when their
/// lengths differ or for method 0, differing bits for method 1, agreeing
/// bytes for method 2; other methods fall back to bits and are flagged.
pub open spec fn similarity_of(g1: Seq<Gene>, g2: Seq<Gene>, method: u32) -> (SimilarityCounts, bool) {
    let n = g1.len() as int;
    let bits = SimilarityCounts::Bits(
        Tally { count: differing_bits(g1, g2, n) as u64, total: (n * 48) as u64 },
    );
    if g1.len() != g2.len() || method == 0 {
        (SimilarityCounts::Jaro(jaro_counts(g1, g2)), false)
    } else if method == 1 {
        (bits, false)
    } else if method == 2 {
        (SimilarityCounts::Bytes(Tally { count: equal_bytes(g1, g2, n) as u64, total: (n * 6) as u64 }), false)
    } else {
        (bits, true)
    }
}

/// The counts two genomes are compared by (see `similarity_of`), with a
/// flag for an unknown comparison method.
pub fn genome_similarity(g1: &Genome, g2: &Genome, params: &Params) -> (r: (SimilarityCounts, bool))
    requires
        g1.len() <= u32::MAX,
    ensures
        r == similarity_of(g1@, g2@, params.genome_comparison_method),
        similarity_bounded(r.0),
{
    proof {
        lemma_jaro_counts_bounded(g1@, g2@);
    }
    if g1.len() != g2.len() {
        return (SimilarityCounts::Jaro(jaro_winkler_distance(g1, g2)), false);
    }
    let method = params.genome_comparison_method;
    if method == 0 {
        (SimilarityCounts::Jaro(jaro_winkler_distance(g1, g2)), false)
    } else if method == 1 {
        (SimilarityCounts::Bits(hamming_distance_bits(g1, g2)), false)
    } else if method == 2 {
        (SimilarityCounts::Bytes(hamming_distance_bytes(g1, g2)), false)
    } else {
        (SimilarityCounts::Bits(hamming_distance_bits(g1, g2)), true)
    }
}

/// A fraction `num / den`.
#[derive(Debug, Clone, Copy, PartialEq, Eq, Structural)]
pub struct Ratio {
    pub num: i64,
    pub den: i64,
}

/// Counts in the ranges a Jaro-Winkler comparison produces.
pub open spec fn jaro_bounded(c: JaroCounts) -> bool {
    &&& 0 <= c.len_s <= 20
    &&& 0 <= c.len_a <= 20
    &&& 0 <= c.matches <= 20
    &&& 0 <= c.transpositions <= 20
    &&& 0 <= c.matching_prefix <= 4
}

/// The Jaro-Winkler similarity as a fraction: the Jaro similarity
/// `dw = (m / ls + m / la + (m - t) / m) / 3` over the common denominator
/// `3 * ls * la * m`, plus the prefix bonus `p / 10 * (1 - dw)`, at most 1;
/// 0 when a genome is empty or nothing matches.
pub open spec fn jaro_ratio(c: JaroCounts) -> (int, int) {
    if c.len_s == 0 || c.len_a == 0 || c.matches == 0 {
        (0, 1)
    } else {
        let sl = c.len_s as int;
        let al = c.len_a as int;
        let m = c.matches as int;
        let t = c.transpositions as int;
        let p = c.matching_prefix as int;
        let d = 3 * sl * al * m;
        let n = m * m * al + m * m * sl + (m - t) * sl * al;
        let num = 10 * n + p * (d - n);
        if num > 10 * d {
            (1, 1)
        } else {
            (num, 10 * d)
        }
    }
}

/// The similarity of the counts as a fraction: Jaro-Winkler (see
/// `jaro_ratio`); for bits `1 - min(2 * count / total, 1)`, 0 when there are
/// none; for bytes `count / total`.
pub open spec fn similarity_value(c: SimilarityCounts) -> (int, int) {
    match c {
        SimilarityCounts::Jaro(j) => jaro_ratio(j),
        SimilarityCounts::Bits(t) => if t.total == 0 || 2 * t.count >= t.total {
            (0, 1)
        } else {
            (t.total - 2 * t.count, t.total as int)
        },
        SimilarityCounts::Bytes(t) => if t.total == 0 {
            (0, 1)
        } else {
            (t.count as int, t.total as int)
        },
    }
}

/// Counts that `similarity_ratio` can compute with.
pub open spec fn similarity_bounded(c: SimilarityCounts) -> bool {
    match c {
        SimilarityCounts::Jaro(j) => jaro_bounded(j),
        SimilarityCounts::Bits(t) => t.count <= t.total <= 0x100_0000_0000,
        SimilarityCounts::Bytes(t) => t.count <= t.total <= 0x100_0000_0000,
    }
}

/// The similarity of two genomes, from 0 to 1, as a fraction (see
/// `similarity_value`).
pub fn similarity_ratio(c: SimilarityCounts) -> (r: Ratio)
    requires
        similarity_bounded(c),
    ensures
        (r.num as int, r.den as int) == similarity_value(c),
{
    match c {
        SimilarityCounts::Jaro(j) => {
            if j.len_s == 0 || j.len_a == 0 || j.matches == 0 {
                return Ratio { num: 0, den: 1 };
            }
            let sl = j.len_s as i64;
            let al = j.len_a as i64;
            let m = j.matches as i64;
            let t = j.transpositions as i64;
            let p = j.matching_prefix as i64;
            assert(0 <= sl * al <= 400) by (nonlinear_arith)
                requires 0 <= sl <= 20, 0 <= al <= 20;
            assert(0 <= sl * al * m <= 8000) by (nonlinear_arith)
                requires 0 <= sl * al <= 400, 0 <= m <= 20;
            assert(0 <= m * m <= 400) by (nonlinear_arith)
                requires 0 <= m <= 20;
            assert(0 <= m * m * al <= 8000) by (nonlinear_arith)
                requires 0 <= m * m <= 400, 0 <= al <= 20;
            assert(0 <= m * m * sl <= 8000) by (nonlinear_arith)
                requires 0 <= m * m <= 400, 0 <= sl <= 20;
            assert(-8000 <= (m - t) * (sl * al) <= 8000) by (nonlinear_arith)
                requires 0 <= sl * al <= 400, -20 <= m - t <= 20;
            let d = 3 * (sl * al * m);
            let n = m * m * al + m * m * sl + (m - t) * (sl * al);
            assert(-240000 <= p * (d - n) <= 240000) by (nonlinear_arith)
                requires 0 <= p <= 4, -60000 <= d - n <= 60000;
            let num = 10 * n + p * (d - n);
            proof {
                assert((m - t) * (sl * al) == (m - t) * sl * al) by (nonlinear_arith);
                assert(3 * (sl * al * m) == 3 * sl * al * m) by (nonlinear_arith);
            }
            if num > 10 * d {
                Ratio { num: 1, den: 1 }
            } else {
                Ratio { num, den: 10 * d }
            }
        },
        SimilarityCounts::Bits(t) => {
            if t.total == 0 || t.count >= t.total - t.count {
                Ratio { num: 0, den: 1 }
            } else {
                Ratio { num: (t.total - 2 * t.count) as i64, den: t.total as i64 }
            }
        },
        SimilarityCounts::Bytes(t) => {
            if t.total == 0 {
                Ratio { num: 0, den: 1 }
            } else {
                Ratio { num: t.count as i64, den: t.total as i64 }
            }
        },
    }
}

/// The counts of `jaro_counts` lie in the ranges `similarity_ratio` takes.
pub proof fn lemma_jaro_counts_bounded(s: Seq<Gene>, a: Seq<Gene>)
    ensures
        jaro_bounded(jaro_counts(s, a)),
{
    let c = jaro_counts(s, a);
    let sl = if s.len() < 20 { s.len() as int } else { 20 };
    let al = if a.len() < 20 { a.len() as int } else { 20 };
    let mx = if sl >= al { sl } else { al };
    let range = if mx / 2 - 1 > 0 { mx / 2 - 1 } else { 0 };
    lemma_match_rows(a, s, sl, al, range, al);
    let m = match_rows(a, s, sl, al, range, al);
    lemma_transpositions(a, s, m.0, m.1, sl, al);
    let p = if sl <= al { sl } else { al };
    let plen = if p < 4 { p } else { 4 };
    lemma_prefix_matches(s, a, plen);
}

/// The similarity of two genomes, from 0 to 1, as a fraction (see
/// `similarity_of` and `similarity_value`), with a flag for an unknown
/// comparison method.
pub fn genome_similarity_ratio(g1: &Genome, g2: &Genome, params: &Params) -> (r: (Ratio, bool))
    requires
        g1.len() <= u32::MAX,
    ensures
        (r.0.num as int, r.0.den as int) == similarity_value(
            similarity_of(g1@, g2@, params.genome_comparison_method).0,
        ),
        r.1 == similarity_of(g1@, g2@, params.genome_comparison_method).1,
{
    let (c, bad) = genome_similarity(g1, g2, params);
    (similarity_ratio(c), bad)
}

/// The pairs of neighboring indices the diversity estimate samples from
/// `count` draws starting in state `s`: each draw picks a first index in
/// `1..population`, and the pair is kept when both indices name
/// individuals.
pub open spec fn diversity_pairs(len: int, population: u32, s: RngState, count: nat) -> Seq<(u16, u16)>
    decreases count,
{
    if count == 0 {
        Seq::empty()
    } else {
        let prev = diversity_pairs(len, population, s, (count - 1) as nat);
        let i0 = s.advance((count - 1) as nat).next_output() % ((population - 1) as u32) + 1;
        let i1 = i0 + 1;
        let a = i0 as u16;
        let b = i1 as u16;
        if a != 0 && a < len && b != 0 && b < len {
            prev.push((a, b))
        } else {
            prev
        }
    }
}

/// The pairs of individuals a genetic diversity estimate compares (see
/// `diversity_pairs`), from up to 1000 draws; none for a population below
/// 2. The diversity is one minus their mean similarity.
pub fn genetic_diversity(peeps: &Peeps, params: &Params, rng: &mut RandomUintGenerator) -> (pairs: Vec<(u16, u16)>)
    ensures
        params.population < 2 ==> pairs@.len() == 0 && final(rng)@ == old(rng)@,
        params.population >= 2 ==> {
            let count: nat = if params.population < 1000 {
                params.population as nat
            } else {
                1000
            };
            &&& pairs@ == diversity_pairs(
                peeps.individuals.len() as int,
                params.population,
                old(rng)@,
                count,
            )
            &&& final(rng)@ == old(rng)@.advance(count)
        },
{
    let mut pairs: Vec<(u16, u16)> = Vec::new();
    if params.population < 2 {
        return pairs;
    }
    let count: u32 = if params.population < 1000 {
        params.population
    } else {
        1000
    };
    let ghost s = old(rng)@;
    let mut k: u32 = 0;
    while k < count
        invariant
            k <= count,
            params.population >= 2,
            count == (if params.population < 1000 { params.population } else { 1000 }),
            pairs@ == diversity_pairs(peeps.individuals.len() as int, params.population, s, k as nat),
            rng@ == s.advance(k as nat),
        decreases count - k,
    {
        let index0 = random_uint_range(rng, 1, params.population - 1);
        let index1 = index0 + 1;
        proof {
            crate::genome_neurons::lemma_advance_next(s, k as nat);
        }
        let a = index0 as u16;
        let b = index1 as u16;
        if peeps.get(a).is_some() && peeps.get(b).is_some() {
            pairs.push((a, b));
        }
        k = k + 1;
    }
    pairs
}

} // verus!
verus! {

proof fn lemma_find_free_first(g: Gene, s: Seq<Gene>, flags: Seq<bool>, j: int, r: int, hi: int)
    requires
        0 <= j <= r < hi,
        forall|k: int| j <= k < r ==> #[trigger] flags[k],
        s[r] == g,
        !flags[r],
    ensures
        find_free(g, s, flags, j, hi) == Some(r),
    decreases r - j,
{
    if j < r {
        lemma_find_free_first(g, s, flags, j + 1, r, hi);
    }
}

/// Matching a genome against itself pairs every position with itself.
proof fn lemma_self_match_rows(s: Seq<Gene>, sl: int, range: int, i: int)
    requires
        0 <= i <= sl <= s.len(),
        0 <= range,
    ensures
        match_rows(s, s, sl, sl, range, i).0 == Seq::new(sl as nat, |j: int| j < i),
        match_rows(s, s, sl, sl, range, i).1 == Seq::new(sl as nat, |j: int| j < i),
        match_rows(s, s, sl, sl, range, i).2 == i,
    decreases i,
{
    if i == 0 {
        assert(Seq::new(sl as nat, |j: int| false) =~= Seq::new(sl as nat, |j: int| j < 0));
    } else {
        lemma_self_match_rows(s, sl, range, i - 1);
        let prev = match_rows(s, s, sl, sl, range, i - 1);
        let r = i - 1;
        let lo = if r - range > 0 { r - range } else { 0 };
        let hi = if r + range + 1 < sl { r + range + 1 } else { sl };
        lemma_find_free_first(s[r], s, prev.0, lo, r, hi);
        assert(prev.0.update(r, true) =~= Seq::new(sl as nat, |j: int| j < i));
        assert(prev.1.update(r, true) =~= Seq::new(sl as nat, |j: int| j < i));
    }
}

/// With every position flagged on both sides, no pair is out of order.
proof fn lemma_self_transpositions(s: Seq<Gene>, sl: int, i: int)
    requires
        0 <= i <= sl <= s.len(),
    ensures
        transpositions(
            s,
            s,
            Seq::new(sl as nat, |j: int| j < sl),
            Seq::new(sl as nat, |j: int| j < sl),
            sl,
            i,
        ) == (i, 0int),
    decreases i,
{
    if i > 0 {
        lemma_self_transpositions(s, sl, i - 1);
    }
}

proof fn lemma_self_prefix(s: Seq<Gene>, n: int)
    requires
        0 <= n <= s.len(),
    ensures
        prefix_matches(s, s, n) == n,
    decreases n,
{
    if n > 0 {
        lemma_self_prefix(s, n - 1);
    }
}

proof fn lemma_self_bits(g: Seq<Gene>, k: int)
    requires
        0 <= k <= g.len(),
    ensures
        differing_bits(g, g, k) == 0,
        equal_bytes(g, g, k) == 6 * k,
    decreases k,
{
    if k > 0 {
        lemma_self_bits(g, k - 1);
        let b = gene_bytes(g[k - 1]);
        assert forall|j: int| 0 <= j < 6 implies #[trigger] popcount(b[j] ^ b[j]) == 0 by {
            let x = b[j];
            assert(x ^ x == 0) by (bit_vector);
        }
        lemma_self_bytes_in(b, 6);
    }
}

proof fn lemma_self_bytes_in(b: Seq<u8>, k: int)
    requires
        0 <= k <= b.len(),
        forall|j: int| 0 <= j < b.len() ==> #[trigger] popcount(b[j] ^ b[j]) == 0,
    ensures
        differing_bits_in(b, b, k) == 0,
        equal_bytes_in(b, b, k) == k,
    decreases k,
{
    if k > 0 {
        lemma_self_bytes_in(b, k - 1);
    }
}

/// A genome is fully similar to itself: whatever the comparison method,
/// the similarity of a nonempty genome with itself is exactly 1.
pub proof fn lemma_self_similarity(g: Seq<Gene>, method: u32)
    requires
        0 < g.len() <= u32::MAX,
    ensures
        similarity_value(similarity_of(g, g, method).0).0 == similarity_value(similarity_of(g, g, method).0).1,
        similarity_value(similarity_of(g, g, method).0).1 > 0,
{
    let n = g.len() as int;
    lemma_self_bits(g, n);
    let sl = if g.len() < 20 { g.len() as int } else { 20 };
    let range = if sl / 2 - 1 > 0 { sl / 2 - 1 } else { 0 };
    lemma_self_match_rows(g, sl, range, sl);
    lemma_self_transpositions(g, sl, sl);
    let plen = if sl < 4 { sl } else { 4 };
    lemma_self_prefix(g, plen);
    let c = jaro_counts(g, g);
    assert(c.len_s == sl && c.len_a == sl && c.matches == sl && c.transpositions == 0);
    let m = sl;
    assert(m * m * m + m * m * m + (m - 0) * m * m == 3 * m * m * m) by (nonlinear_arith);
    assert(3 * m * m * m > 0) by (nonlinear_arith)
        requires
            m > 0,
    ;
}

/// The Jaro-Winkler similarity of a nonempty genome with itself is exactly 1.
pub proof fn lemma_jaro_of_identical_genomes(g: Seq<Gene>)
    requires
        0 < g.len() <= u32::MAX,
    ensures
        jaro_ratio(jaro_counts(g, g)).0 == jaro_ratio(jaro_counts(g, g)).1,
        jaro_ratio(jaro_counts(g, g)).1 > 0,
{
    lemma_self_similarity(g, 0);
}

} // verus!
verus! {

/// How many of the first `k` flags are set.
pub open spec fn flags_set(f: Seq<bool>, k: int) -> nat
    decreases k,
{
    if k <= 0 {
        0
    } else {
        flags_set(f, k - 1) + if f[k - 1] {
            1nat
        } else {
            0nat
        }
    }
}

proof fn lemma_flags_set_update(f: Seq<bool>, j: int, k: int)
    requires
        0 <= j < k <= f.len(),
        !f[j],
    ensures
        flags_set(f.update(j, true), k) == flags_set(f, k) + 1,
    decreases k,
{
    if k - 1 == j {
        lemma_flags_set_same(f.update(j, true), f, k - 1);
    } else {
        lemma_flags_set_update(f, j, k - 1);
    }
}

proof fn lemma_flags_set_same(f: Seq<bool>, g: Seq<bool>, k: int)
    requires
        k <= f.len(),
        k <= g.len(),
        forall|j: int| 0 <= j < k ==> f[j] == g[j],
    ensures
        flags_set(f, k) == flags_set(g, k),
    decreases k,
{
    if k > 0 {
        lemma_flags_set_same(f, g, k - 1);
    }
}

proof fn lemma_flags_set_none(n: int)
    requires
        0 <= n,
    ensures
        flags_set(Seq::new(n as nat, |j: int| false), n) == 0,
    decreases n,
{
    if n > 0 {
        lemma_flags_set_none(n - 1);
        lemma_flags_set_same(Seq::new(n as nat, |j: int| false), Seq::new((n - 1) as nat, |j: int| false), n - 1);
    }
}

/// Each match sets one new flag of `a`: the count is the number of flags
/// set, and rows not yet matched are unflagged.
proof fn lemma_match_rows_flags(a: Seq<Gene>, s: Seq<Gene>, sl: int, al: int, range: int, i: int)
    requires
        0 <= sl <= s.len(),
        0 <= i <= al <= a.len(),
    ensures
        flags_set(match_rows(a, s, sl, al, range, i).1, al) == match_rows(a, s, sl, al, range, i).2,
        forall|j: int| i <= j < al ==> !#[trigger] match_rows(a, s, sl, al, range, i).1[j],
    decreases i,
{
    lemma_match_rows(a, s, sl, al, range, i);
    if i == 0 {
        lemma_flags_set_none(al);
    } else {
        lemma_match_rows_flags(a, s, sl, al, range, i - 1);
        lemma_match_rows(a, s, sl, al, range, i - 1);
        let prev = match_rows(a, s, sl, al, range, i - 1);
        let r = i - 1;
        let lo = if r - range > 0 { r - range } else { 0 };
        let hi = if r + range + 1 < sl { r + range + 1 } else { sl };
        match find_free(a[r], s, prev.0, lo, hi) {
            Some(j) => {
                lemma_flags_set_update(prev.1, r, al);
            },
            None => {},
        }
    }
}

/// A pair out of order counts only at a flagged row.
proof fn lemma_transpositions_flags(a: Seq<Gene>, s: Seq<Gene>, sflags: Seq<bool>, aflags: Seq<bool>, sl: int, i: int)
    requires
        0 <= sl,
        0 <= i <= aflags.len(),
    ensures
        transpositions(a, s, sflags, aflags, sl, i).1 <= flags_set(aflags, i),
    decreases i,
{
    if i > 0 {
        lemma_transpositions_flags(a, s, sflags, aflags, sl, i - 1);
    }
}

proof fn lemma_bits_bounds(g1: Seq<Gene>, g2: Seq<Gene>, k: int)
    requires
        0 <= k <= g1.len(),
        k <= g2.len(),
    ensures
        differing_bits(g1, g2, k) <= 48 * k,
        equal_bytes(g1, g2, k) <= 6 * k,
    decreases k,
{
    if k > 0 {
        lemma_bits_bounds(g1, g2, k - 1);
        lemma_bytes_in_bounds(gene_bytes(g1[k - 1]), gene_bytes(g2[k - 1]), 6);
    }
}

proof fn lemma_bytes_in_bounds(x: Seq<u8>, y: Seq<u8>, k: int)
    requires
        0 <= k <= x.len(),
        k <= y.len(),
    ensures
        differing_bits_in(x, y, k) <= 8 * k,
        equal_bytes_in(x, y, k) <= k,
    decreases k,
{
    if k > 0 {
        lemma_bytes_in_bounds(x, y, k - 1);
        lemma_popcount_bound(x[k - 1] ^ y[k - 1]);
    }
}

/// A similarity is a fraction from 0 to 1 with a positive denominator,
/// whatever the comparison method; genomes with no genes to compare have
/// similarity 0.
pub proof fn lemma_similarity_in_unit_range(g1: Seq<Gene>, g2: Seq<Gene>, method: u32)
    requires
        g1.len() <= u32::MAX,
    ensures
        ({
            let v = similarity_value(similarity_of(g1, g2, method).0);
            0 <= v.0 <= v.1 && v.1 > 0
        }),
{
    let n = g1.len() as int;
    if g1.len() == g2.len() {
        lemma_bits_bounds(g1, g2, n);
    }
    let sl = if g1.len() < 20 { g1.len() as int } else { 20 };
    let al = if g2.len() < 20 { g2.len() as int } else { 20 };
    let mx = if sl >= al { sl } else { al };
    let range = if mx / 2 - 1 > 0 { mx / 2 - 1 } else { 0 };
    lemma_match_rows(g2, g1, sl, al, range, al);
    lemma_match_rows_flags(g2, g1, sl, al, range, al);
    let m = match_rows(g2, g1, sl, al, range, al);
    lemma_transpositions_flags(g2, g1, m.0, m.1, sl, al);
    lemma_jaro_counts_bounded(g1, g2);
    let c = jaro_counts(g1, g2);
    let tt = transpositions(g2, g1, m.0, m.1, sl, al);
    lemma_transpositions(g2, g1, m.0, m.1, sl, al);
    assert(tt.1 <= m.2);
    assert(c.matches == m.2);
    assert(c.transpositions == tt.1 / 2);
    assert(c.transpositions <= c.matches);
    if c.len_s != 0 && c.len_a != 0 && c.matches != 0 {
        let s = c.len_s as int;
        let a = c.len_a as int;
        let mm = c.matches as int;
        let t = c.transpositions as int;
        let p = c.matching_prefix as int;
        let d = 3 * s * a * mm;
        let nn = mm * mm * a + mm * mm * s + (mm - t) * s * a;
        assert(nn >= 0 && d > 0) by (nonlinear_arith)
            requires
                s > 0,
                a > 0,
                mm > 0,
                0 <= t <= mm,
                d == 3 * s * a * mm,
                nn == mm * mm * a + mm * mm * s + (mm - t) * s * a,
        ;
        assert(10 * nn + p * (d - nn) >= 0) by (nonlinear_arith)
            requires
                nn >= 0,
                d > 0,
                0 <= p <= 4,
        ;
    }
}

} // verus!
