//! Species of compatible genomes: the gene matching that their
//! compatibility distance is computed from, the species records, and the
//! registry that hands out species ids.
use vstd::prelude::*;

use crate::genome_neurons::{copy_genome, Gene, Genome};
use crate::peeps::Peeps;
use crate::ranking::{lemma_ranking_sorted, rank_descending, ranked};
use std::collections::HashMap;

verus! {

/// Two genes connect the same source to the same sink.
pub open spec fn same_topology(g1: Gene, g2: Gene) -> bool {
    g1.source_type == g2.source_type && g1.source_num == g2.source_num && g1.sink_type
        == g2.sink_type && g1.sink_num == g2.sink_num
}

/// Two genes match in topology (source and sink), whatever their weights.
pub fn genes_match_topology(g1: &Gene, g2: &Gene) -> (b: bool)
    ensures
        b == same_topology(*g1, *g2),
{
    g1.source_type == g2.source_type && g1.source_num == g2.source_num && g1.sink_type
        == g2.sink_type && g1.sink_num == g2.sink_num
}

/// The first position from `j` on whose gene of `b` is not yet used and
/// has the topology of `g`.
pub open spec fn first_unused_match(g: Gene, b: Seq<Gene>, used: Seq<bool>, j: int) -> Option<int>
    decreases b.len() - j,
{
    if j >= b.len() || j < 0 {
        None
    } else if !used[j] && same_topology(g, b[j]) {
        Some(j)
    } else {
        first_unused_match(g, b, used, j + 1)
    }
}

/// The weight difference of two genes, in units of 1/8192.
pub open spec fn weight_gap(g1: Gene, g2: Gene) -> int {
    if g1.weight >= g2.weight {
        g1.weight - g2.weight
    } else {
        g2.weight - g1.weight
    }
}

/// After the first `i` genes of `a` have each taken the first unused gene
/// of `b` with their topology: which genes of `b` are used, how many pairs
/// matched, and the sum of the weight differences of the pairs.
pub open spec fn topology_pairs(a: Seq<Gene>, b: Seq<Gene>, i: int) -> (Seq<bool>, nat, nat)
    decreases i,
{
    if i <= 0 {
        (Seq::new(b.len(), |j: int| false), 0, 0)
    } else {
        let prev = topology_pairs(a, b, i - 1);
        match first_unused_match(a[i - 1], b, prev.0, 0) {
            Some(j) => (prev.0.update(j, true), prev.1 + 1, prev.2 + weight_gap(a[i - 1], b[j]) as nat),
            None => prev,
        }
    }
}

/// The counts a compatibility distance `c1 * E / N + c2 * D / N + c3 * W`
/// is computed from.
#[derive(Debug, Clone, Copy, PartialEq, Eq, Structural)]
pub struct CompatibilityCounts {
    /// `N`: the length of the longer genome.
    pub longer: u64,
    /// Genes of the first genome paired with a gene of the second.
    pub matches: u64,
    /// `E`: unpaired genes of the longer genome (0 for equal lengths).
    pub excess: u64,
    /// `D`: unpaired genes of the shorter genome.
    pub disjoint: u64,
    /// Sum of the weight differences of the pairs in units of 1/8192; `W`
    /// is its mean over the pairs.
    pub weight_gap_sum: u64,
}

/// The compatibility counts of two genomes (see `topology_pairs`).
pub open spec fn compatibility_of(a: Seq<Gene>, b: Seq<Gene>) -> CompatibilityCounts {
    let p = topology_pairs(a, b, a.len() as int);
    let m = p.1;
    let longer = if a.len() >= b.len() {
        a.len()
    } else {
        b.len()
    };
    let shorter = if a.len() <= b.len() {
        a.len()
    } else {
        b.len()
    };
    CompatibilityCounts {
        longer: longer as u64,
        matches: m as u64,
        excess: if a.len() == b.len() {
            0
        } else {
            (longer - m) as u64
        },
        disjoint: (shorter - m) as u64,
        weight_gap_sum: p.2 as u64,
    }
}

proof fn lemma_first_unused_match(g: Gene, b: Seq<Gene>, used: Seq<bool>, j: int)
    requires
        0 <= j,
    ensures
        first_unused_match(g, b, used, j) matches Some(k) ==> j <= k < b.len() && !used[k],
    decreases b.len() - j,
{
    if j < b.len() {
        lemma_first_unused_match(g, b, used, j + 1);
    }
}

/// The used flags keep their length; each pair uses one more gene of `b`,
/// so at most `min(i, |b|)` pairs form, each adding at most 65535.
proof fn lemma_topology_pairs(a: Seq<Gene>, b: Seq<Gene>, i: int)
    requires
        0 <= i <= a.len(),
    ensures
        topology_pairs(a, b, i).0.len() == b.len(),
        topology_pairs(a, b, i).1 <= i,
        topology_pairs(a, b, i).1 == used_count(topology_pairs(a, b, i).0, b.len() as int),
        topology_pairs(a, b, i).2 <= 65535 * topology_pairs(a, b, i).1,
    decreases i,
{
    if i > 0 {
        lemma_topology_pairs(a, b, i - 1);
        let prev = topology_pairs(a, b, i - 1);
        lemma_first_unused_match(a[i - 1], b, prev.0, 0);
        match first_unused_match(a[i - 1], b, prev.0, 0) {
            Some(j) => {
                lemma_used_count_update(prev.0, j, b.len() as int);
            },
            None => {},
        }
    } else {
        lemma_used_count_none(b.len() as int);
    }
}

/// How many of the first `k` flags are set.
pub open spec fn used_count(f: Seq<bool>, k: int) -> nat
    decreases k,
{
    if k <= 0 {
        0
    } else {
        used_count(f, k - 1) + if f[k - 1] {
            1nat
        } else {
            0nat
        }
    }
}

proof fn lemma_used_count_none(n: int)
    ensures
        used_count(Seq::new(n as nat, |j: int| false), n) == 0,
    decreases n,
{
    if n > 0 {
        lemma_used_count_none(n - 1);
        assert(used_count(Seq::new(n as nat, |j: int| false), n - 1) == used_count(
            Seq::new((n - 1) as nat, |j: int| false),
            n - 1,
        )) by {
            lemma_used_count_prefix(Seq::new(n as nat, |j: int| false), Seq::new((n - 1) as nat, |j: int| false), n - 1);
        }
    }
}

proof fn lemma_used_count_prefix(f: Seq<bool>, g: Seq<bool>, k: int)
    requires
        k <= f.len(),
        k <= g.len(),
        forall|j: int| 0 <= j < k ==> f[j] == g[j],
    ensures
        used_count(f, k) == used_count(g, k),
    decreases k,
{
    if k > 0 {
        lemma_used_count_prefix(f, g, k - 1);
    }
}

proof fn lemma_used_count_bound(f: Seq<bool>, k: int)
    requires
        0 <= k,
    ensures
        used_count(f, k) <= k,
    decreases k,
{
    if k > 0 {
        lemma_used_count_bound(f, k - 1);
    }
}

proof fn lemma_used_count_update(f: Seq<bool>, j: int, k: int)
    requires
        0 <= j < k <= f.len(),
        !f[j],
    ensures
        used_count(f.update(j, true), k) == used_count(f, k) + 1,
    decreases k,
{
    if k - 1 == j {
        lemma_used_count_prefix(f.update(j, true), f, k - 1);
    } else {
        lemma_used_count_update(f, j, k - 1);
    }
}

/// Pairs each gene of `genome1`, in order, with the first unused gene of
/// `genome2` that has its topology, and counts the pairs, the genes left
/// over and the weight differences of the pairs (see `compatibility_of`).
pub fn compatibility_counts(genome1: &Genome, genome2: &Genome) -> (c: CompatibilityCounts)
    requires
        genome1.len() <= u32::MAX,
        genome2.len() <= u32::MAX,
    ensures
        c == compatibility_of(genome1@, genome2@),
{
    let a = genome1;
    let b = genome2;
    let mut used: Vec<bool> = vec![false; b.len()];
    assert(used@ == Seq::new(b.len() as nat, |j: int| false));
    let mut m: u64 = 0;
    let mut wsum: u64 = 0;
    let mut i: usize = 0;
    while i < a.len()
        invariant
            i <= a.len() <= u32::MAX,
            b.len() <= u32::MAX,
            (used@, m as nat, wsum as nat) == topology_pairs(a@, b@, i as int),
            m <= i,
            wsum <= 65535 * m,
        decreases a.len() - i,
    {
        proof {
            lemma_topology_pairs(a@, b@, i as int);
            lemma_first_unused_match(a@[i as int], b@, used@, 0);
        }
        let ghost before = used@;
        let mut j: usize = 0;
        let mut found = false;
        while j < b.len() && !found
            invariant
                j <= b.len(),
                i < a.len(),
                used@ == before,
                before.len() == b.len(),
                !found ==> first_unused_match(a@[i as int], b@, before, 0) == first_unused_match(
                    a@[i as int],
                    b@,
                    before,
                    j as int,
                ),
                found ==> j < b.len() && first_unused_match(a@[i as int], b@, before, 0) == Some(
                    j as int,
                ),
            decreases b.len() - j + if found {
                0int
            } else {
                1int
            },
        {
            if !used[j] && genes_match_topology(&a[i], &b[j]) {
                found = true;
            } else {
                j = j + 1;
            }
        }
        if found {
            used.set(j, true);
            let w1 = a[i].weight as i32;
            let w2 = b[j].weight as i32;
            let gap: u64 = if w1 >= w2 {
                (w1 - w2) as u64
            } else {
                (w2 - w1) as u64
            };
            m = m + 1;
            wsum = wsum + gap;
        }
        i = i + 1;
    }
    proof {
        lemma_topology_pairs(a@, b@, a.len() as int);
        lemma_used_count_bound(used@, b.len() as int);
    }
    let longer: u64 = if a.len() >= b.len() {
        a.len() as u64
    } else {
        b.len() as u64
    };
    let shorter: u64 = if a.len() <= b.len() {
        a.len() as u64
    } else {
        b.len() as u64
    };
    CompatibilityCounts {
        longer,
        matches: m,
        excess: if a.len() == b.len() {
            0
        } else {
            longer - m
        },
        disjoint: shorter - m,
        weight_gap_sum: wsum,
    }
}

/// A group of compatible genomes. Its best fitness is a float and is kept
/// beside it by the caller, who tells `update_stats` whether it improved.
#[derive(Debug)]
pub struct Species {
    /// Unique species id.
    pub id: u32,
    /// The genome new genomes are compared with.
    pub representative_genome: Genome,
    /// Indices of the individuals in this species.
    pub members: Vec<u16>,
    /// Generations since the species was created.
    pub age: u32,
    /// Generations without improvement.
    pub stagnation: u32,
    /// The generation of the last improvement.
    pub last_improved_generation: u32,
}

/// The age bookkeeping of `update_species_stats`: the age is the
/// generation minus the generation the species started in.
pub open spec fn aged(generation: u32, last_improved: u32, age: u32) -> u32 {
    let started: int = if last_improved >= age {
        last_improved - age
    } else {
        0
    };
    if generation >= started {
        (generation - started) as u32
    } else {
        0
    }
}

impl Species {
    /// A new species with a representative genome and no members.
    pub fn new(id: u32, representative_genome: Genome, generation: u32) -> (s: Species)
        ensures
            s.id == id,
            s.representative_genome@ == representative_genome@,
            s.members@ == Seq::<u16>::empty(),
            s.age == 0,
            s.stagnation == 0,
            s.last_improved_generation == generation,
    {
        Species {
            id,
            representative_genome,
            members: Vec::new(),
            age: 0,
            stagnation: 0,
            last_improved_generation: generation,
        }
    }

    /// Adds a member unless it is one already.
    pub fn add_member(&mut self, individual_index: u16)
        ensures
            old(self).members@.contains(individual_index) ==> final(self).members@ == old(self).members@,
            !old(self).members@.contains(individual_index) ==> final(self).members@ == old(
                self,
            ).members@.push(individual_index),
            final(self).id == old(self).id,
            final(self).representative_genome == old(self).representative_genome,
            final(self).age == old(self).age,
            final(self).stagnation == old(self).stagnation,
            final(self).last_improved_generation == old(self).last_improved_generation,
    {
        let mut i: usize = 0;
        let mut present = false;
        while i < self.members.len()
            invariant
                i <= self.members.len(),
                self.members@ == old(self).members@,
                present == (exists|k: int| 0 <= k < i && old(self).members@[k] == individual_index),
            decreases self.members.len() - i,
        {
            if self.members[i] == individual_index {
                present = true;
            }
            i = i + 1;
        }
        if !present {
            self.members.push(individual_index);
        }
    }

    /// Removes every occurrence of a member, keeping the others in order.
    pub fn remove_member(&mut self, individual_index: u16)
        ensures
            final(self).members@ == old(self).members@.filter(|m: u16| m != individual_index),
            final(self).id == old(self).id,
            final(self).representative_genome == old(self).representative_genome,
            final(self).age == old(self).age,
            final(self).stagnation == old(self).stagnation,
            final(self).last_improved_generation == old(self).last_improved_generation,
    {
        let ghost orig = self.members@;
        let mut kept: Vec<u16> = Vec::new();
        let mut i: usize = 0;
        while i < self.members.len()
            invariant
                i <= self.members.len(),
                self.members@ == orig,
                kept@ == orig.subrange(0, i as int).filter(|m: u16| m != individual_index),
            decreases self.members.len() - i,
        {
            let v = self.members[i];
            proof {
                assert(orig.subrange(0, i + 1) == orig.subrange(0, i as int).push(v));
                orig.subrange(0, i as int).lemma_filter_push(v, |m: u16| m != individual_index);
            }
            if v != individual_index {
                kept.push(v);
            }
            i = i + 1;
        }
        assert(orig.subrange(0, i as int) == orig);
        self.members = kept;
    }

    /// Removes all members.
    pub fn clear_members(&mut self)
        ensures
            final(self).members@ == Seq::<u16>::empty(),
            final(self).id == old(self).id,
            final(self).representative_genome == old(self).representative_genome,
            final(self).age == old(self).age,
            final(self).stagnation == old(self).stagnation,
            final(self).last_improved_generation == old(self).last_improved_generation,
    {
        self.members.clear();
    }

    /// Ages the species to `generation`; an improvement of its best fitness
    /// resets the stagnation and marks the generation, otherwise the
    /// stagnation grows by one.
    pub fn update_stats(&mut self, generation: u32, improved: bool)
        requires
            old(self).age <= old(self).last_improved_generation,
            old(self).last_improved_generation - old(self).age <= generation,
            !improved ==> old(self).stagnation < u32::MAX,
        ensures
            final(self).age == generation - (old(self).last_improved_generation - old(self).age),
            improved ==> final(self).stagnation == 0 && final(self).last_improved_generation == generation,
            !improved ==> final(self).stagnation == old(self).stagnation + 1
                && final(self).last_improved_generation == old(self).last_improved_generation,
            final(self).id == old(self).id,
            final(self).representative_genome == old(self).representative_genome,
            final(self).members == old(self).members,
    {
        self.age = generation - (self.last_improved_generation - self.age);
        if improved {
            self.stagnation = 0;
            self.last_improved_generation = generation;
        } else {
            self.stagnation = self.stagnation + 1;
        }
    }
}

/// Ages a species to `generation` with saturating subtraction (see
/// `aged`); an improvement resets the stagnation and marks the generation,
/// otherwise the stagnation grows by one.
pub fn update_species_stats(species: &mut Species, generation: u32, improved: bool)
    requires
        !improved ==> old(species).stagnation < u32::MAX,
    ensures
        final(species).age == aged(generation, old(species).last_improved_generation, old(species).age),
        improved ==> final(species).stagnation == 0 && final(species).last_improved_generation
            == generation,
        !improved ==> final(species).stagnation == old(species).stagnation + 1
            && final(species).last_improved_generation == old(species).last_improved_generation,
        final(species).id == old(species).id,
        final(species).representative_genome == old(species).representative_genome,
        final(species).members == old(species).members,
{
    let started = species.last_improved_generation.saturating_sub(species.age);
    species.age = generation.saturating_sub(started);
    if improved {
        species.stagnation = 0;
        species.last_improved_generation = generation;
    } else {
        species.stagnation = species.stagnation + 1;
    }
}


/// The species records of a run and the id the next new species gets.
#[derive(Debug)]
pub struct SpeciesRegistry {
    pub species: Vec<Species>,
    pub next_id: u32,
}

impl SpeciesRegistry {
    /// No species yet; the first id is 1.
    pub fn new() -> (r: SpeciesRegistry)
        ensures
            r.species@.len() == 0,
            r.next_id == 1,
    {
        SpeciesRegistry { species: Vec::new(), next_id: 1 }
    }
}

/// Forgets all species and starts the ids at 1 again.
pub fn reset_species_list(registry: &mut SpeciesRegistry)
    ensures
        final(registry).species@.len() == 0,
        final(registry).next_id == 1,
{
    registry.species = Vec::new();
    registry.next_id = 1;
}

/// The id `get_next_species_id` hands out: the next id, or 1 again when it
/// comes within 1000 of the largest `u32`.
pub open spec fn issued_id(next_id: u32) -> u32 {
    if next_id >= u32::MAX - 1000 {
        1
    } else {
        next_id
    }
}

/// Hands out the next species id (see `issued_id`) and advances the
/// counter past it.
pub fn get_next_species_id(registry: &mut SpeciesRegistry) -> (id: u32)
    ensures
        id == issued_id(old(registry).next_id),
        final(registry).next_id == id + 1,
        final(registry).species == old(registry).species,
{
    if registry.next_id >= u32::MAX - 1000 {
        registry.next_id = 1;
    }
    let id = registry.next_id;
    registry.next_id = registry.next_id + 1;
    id
}

/// The species of the registry, to read or change in place.
pub fn get_species_list(registry: &mut SpeciesRegistry) -> (list: &mut Vec<Species>)
    ensures
        *list == old(registry).species,
        final(registry).species == *final(list),
        final(registry).next_id == old(registry).next_id,
{
    &mut registry.species
}

/// The coefficients and threshold of the compatibility distance
/// `c1 * E / N + c2 * D / N + c3 * W`, each in thousandths.
#[derive(Debug, Clone, Copy, PartialEq, Eq, Structural)]
pub struct CompatibilityWeights {
    pub excess_milli: u32,
    pub disjoint_milli: u32,
    pub weight_milli: u32,
    pub threshold_milli: u32,
}

/// The distance of the counts is within the threshold: with `N` the longer
/// length, `M` the pairs and `W = weight_gap_sum / 8192 / M` (0 without
/// pairs), `c1 * E / N + c2 * D / N + c3 * W <= T`, compared exactly by
/// clearing the denominators; genomes that are both empty are at distance
/// 0.
pub open spec fn compatible(c: CompatibilityCounts, w: CompatibilityWeights) -> bool {
    let n = c.longer as int;
    let m = c.matches as int;
    if n == 0 {
        true
    } else if m == 0 {
        w.excess_milli * c.excess + w.disjoint_milli * c.disjoint <= w.threshold_milli * n
    } else {
        (w.excess_milli * c.excess + w.disjoint_milli * c.disjoint) * 8192 * m + w.weight_milli
            * c.weight_gap_sum * n <= w.threshold_milli * n * 8192 * m
    }
}

/// Whether counts of genomes of at most `u32::MAX` genes are within the
/// threshold (see `compatible`).
pub fn is_compatible(c: &CompatibilityCounts, w: &CompatibilityWeights) -> (b: bool)
    requires
        c.longer <= u32::MAX,
        c.matches <= u32::MAX,
        c.excess <= u32::MAX,
        c.disjoint <= u32::MAX,
        c.weight_gap_sum <= 65535 * c.matches,
    ensures
        b == compatible(*c, *w),
{
    let n = c.longer as u128;
    let m = c.matches as u128;
    let e = c.excess as u128;
    let d = c.disjoint as u128;
    let g = c.weight_gap_sum as u128;
    let c1 = w.excess_milli as u128;
    let c2 = w.disjoint_milli as u128;
    let c3 = w.weight_milli as u128;
    let t = w.threshold_milli as u128;
    if n == 0 {
        return true;
    }
    assert(c1 * e <= 0xffff_ffff * 0xffff_ffff) by (nonlinear_arith)
        requires c1 <= 0xffff_ffff, e <= 0xffff_ffff;
    assert(c2 * d <= 0xffff_ffff * 0xffff_ffff) by (nonlinear_arith)
        requires c2 <= 0xffff_ffff, d <= 0xffff_ffff;
    assert(t * n <= 0xffff_ffff * 0xffff_ffff) by (nonlinear_arith)
        requires t <= 0xffff_ffff, n <= 0xffff_ffff;
    let lhs0 = c1 * e + c2 * d;
    if m == 0 {
        return lhs0 <= t * n;
    }
    assert(lhs0 * 8192 * m <= 0x2_0000_0000_0000_0000 * 8192 * 0xffff_ffff) by (nonlinear_arith)
        requires lhs0 <= 0x2_0000_0000_0000_0000, m <= 0xffff_ffff;
    assert(g <= 65535 * 0xffff_ffff) by (nonlinear_arith)
        requires g <= 65535 * m, m <= 0xffff_ffff;
    assert(c3 * g <= 0xffff_ffff * (65535 * 0xffff_ffff)) by (nonlinear_arith)
        requires c3 <= 0xffff_ffff, g <= 65535 * 0xffff_ffff;
    assert(c3 * g * n <= 0xffff_ffff * (65535 * 0xffff_ffff) * 0xffff_ffff) by (nonlinear_arith)
        requires c3 * g <= 0xffff_ffff * (65535 * 0xffff_ffff), n <= 0xffff_ffff;
    assert(t * n * 8192 * m <= 0xffff_ffff * 0xffff_ffff * 8192 * 0xffff_ffff) by (nonlinear_arith)
        requires t * n <= 0xffff_ffff * 0xffff_ffff, m <= 0xffff_ffff;
    lhs0 * 8192 * m + c3 * g * n <= t * n * 8192 * m
}

/// A compatibility distance, the fraction `num / den`.
#[derive(Debug, Clone, Copy, PartialEq, Eq, Structural)]
pub struct Distance {
    pub num: u128,
    pub den: u128,
}

/// The distance `c1 * E / N + c2 * D / N + c3 * W` of the counts as an
/// exact fraction `(numerator, denominator)`, with the coefficients in
/// thousandths, `N` the longer length, `M` the pairs and
/// `W = weight_gap_sum / 8192 / M` (0 without pairs); genomes that are both
/// empty are at distance 0.
pub open spec fn distance_of(c: CompatibilityCounts, w: CompatibilityWeights) -> (int, int) {
    let n = c.longer as int;
    let m = c.matches as int;
    let lengths = w.excess_milli * c.excess + w.disjoint_milli * c.disjoint;
    if n == 0 {
        (0, 1)
    } else if m == 0 {
        (lengths, 1000 * n)
    } else {
        (lengths * 8192 * m + w.weight_milli * c.weight_gap_sum * n, 1000 * n * 8192 * m)
    }
}

/// The distance of counts of genomes of at most `u32::MAX` genes (see
/// `distance_of`).
pub fn compatibility_distance(c: &CompatibilityCounts, w: &CompatibilityWeights) -> (d: Distance)
    requires
        c.longer <= u32::MAX,
        c.matches <= u32::MAX,
        c.excess <= u32::MAX,
        c.disjoint <= u32::MAX,
        c.weight_gap_sum <= 65535 * c.matches,
    ensures
        d.num == distance_of(*c, *w).0,
        d.den == distance_of(*c, *w).1,
{
    let n = c.longer as u128;
    let m = c.matches as u128;
    let e = c.excess as u128;
    let dj = c.disjoint as u128;
    let g = c.weight_gap_sum as u128;
    let c1 = w.excess_milli as u128;
    let c2 = w.disjoint_milli as u128;
    let c3 = w.weight_milli as u128;
    if n == 0 {
        return Distance { num: 0, den: 1 };
    }
    assert(c1 * e <= 0xffff_ffff * 0xffff_ffff) by (nonlinear_arith)
        requires c1 <= 0xffff_ffff, e <= 0xffff_ffff;
    assert(c2 * dj <= 0xffff_ffff * 0xffff_ffff) by (nonlinear_arith)
        requires c2 <= 0xffff_ffff, dj <= 0xffff_ffff;
    let lengths = c1 * e + c2 * dj;
    if m == 0 {
        return Distance { num: lengths, den: 1000 * n };
    }
    assert(lengths * 8192 * m <= 0x2_0000_0000_0000_0000 * 8192 * 0xffff_ffff) by (nonlinear_arith)
        requires lengths <= 0x2_0000_0000_0000_0000, m <= 0xffff_ffff;
    assert(g <= 65535 * 0xffff_ffff) by (nonlinear_arith)
        requires g <= 65535 * m, m <= 0xffff_ffff;
    assert(c3 * g <= 0xffff_ffff * (65535 * 0xffff_ffff)) by (nonlinear_arith)
        requires c3 <= 0xffff_ffff, g <= 65535 * 0xffff_ffff;
    assert(c3 * g * n <= 0xffff_ffff * (65535 * 0xffff_ffff) * 0xffff_ffff) by (nonlinear_arith)
        requires c3 * g <= 0xffff_ffff * (65535 * 0xffff_ffff), n <= 0xffff_ffff;
    assert(1000 * n * 8192 * m <= 1000 * 0xffff_ffff * 8192 * 0xffff_ffff) by (nonlinear_arith)
        requires n <= 0xffff_ffff, m <= 0xffff_ffff;
    Distance { num: lengths * 8192 * m + c3 * g * n, den: 1000 * n * 8192 * m }
}

/// The compatibility distance of two genomes: each gene of `genome1` is
/// paired with the first unused gene of `genome2` of its topology (see
/// `compatibility_of`), and the distance of those counts is returned as an
/// exact fraction (see `distance_of`).
pub fn genetic_compatibility_distance(genome1: &Genome, genome2: &Genome, weights: &CompatibilityWeights) -> (d: Distance)
    requires
        genome1.len() <= u32::MAX,
        genome2.len() <= u32::MAX,
    ensures
        d.num == distance_of(compatibility_of(genome1@, genome2@), *weights).0,
        d.den == distance_of(compatibility_of(genome1@, genome2@), *weights).1,
{
    let c = compatibility_counts(genome1, genome2);
    proof {
        lemma_compatibility_bounds(genome1@, genome2@);
    }
    compatibility_distance(&c, weights)
}

/// A distance has a positive denominator, and the counts are compatible
/// exactly when their distance is at most the threshold:
/// `num / den <= threshold_milli / 1000`.
pub proof fn lemma_distance_within_threshold(c: CompatibilityCounts, w: CompatibilityWeights)
    ensures
        distance_of(c, w).1 > 0,
        compatible(c, w) <==> distance_of(c, w).0 * 1000 <= w.threshold_milli * distance_of(c, w).1,
{
    let n = c.longer as int;
    let m = c.matches as int;
    let t = w.threshold_milli as int;
    let lengths = w.excess_milli * c.excess + w.disjoint_milli * c.disjoint;
    if n > 0 && m == 0 {
        assert(t * (1000 * n) == (t * n) * 1000) by (nonlinear_arith);
    } else if n > 0 {
        assert(1000 * n * 8192 * m > 0) by (nonlinear_arith)
            requires n > 0, m > 0;
        assert(t * (1000 * n * 8192 * m) == (t * n * 8192 * m) * 1000) by (nonlinear_arith);
        assert(lengths * 8192 * m == (w.excess_milli * c.excess + w.disjoint_milli * c.disjoint) * 8192 * m);
    }
}

/// The first species from position `i` on whose representative the genome
/// is compatible with.
pub open spec fn first_compatible(genome: Seq<Gene>, l: Seq<Species>, w: CompatibilityWeights, i: int) -> Option<int>
    decreases l.len() - i,
{
    if i < 0 || i >= l.len() {
        None
    } else if compatible(compatibility_of(genome, l[i].representative_genome@), w) {
        Some(i)
    } else {
        first_compatible(genome, l, w, i + 1)
    }
}

/// Counts of genomes of at most `u32::MAX` genes are in the ranges that
/// `is_compatible` takes.
proof fn lemma_compatibility_bounds(a: Seq<Gene>, b: Seq<Gene>)
    requires
        a.len() <= u32::MAX,
        b.len() <= u32::MAX,
    ensures
        ({
            let c = compatibility_of(a, b);
            &&& c.longer <= u32::MAX
            &&& c.matches <= u32::MAX
            &&& c.excess <= u32::MAX
            &&& c.disjoint <= u32::MAX
            &&& c.weight_gap_sum <= 65535 * c.matches
        }),
{
    lemma_topology_pairs(a, b, a.len() as int);
    lemma_used_count_bound(topology_pairs(a, b, a.len() as int).0, b.len() as int);
}

/// No new species can be created: there are already more than 10000
/// (a list in that state signals a broken threshold), or the ids ran out.
pub open spec fn species_overflow(len: int, next: u32) -> bool {
    len > 10000 || next == u32::MAX
}

/// Assigns a genome to the first species whose representative it is
/// compatible with (see `compatible`); when there is none, a new species
/// with the genome as representative is appended under the next id, which
/// then advances. No species is created on overflow (see
/// `species_overflow`): the result is then `None` and nothing changes.
pub fn assign_to_species(
    genome: &Genome,
    species_list: &mut Vec<Species>,
    weights: &CompatibilityWeights,
    next_species_id: &mut u32,
) -> (id: Option<u32>)
    requires
        genome.len() <= u32::MAX,
        genomes_bounded(old(species_list)@),
    ensures
        match first_compatible(genome@, old(species_list)@, *weights, 0) {
            Some(k) => {
                &&& id == Some(old(species_list)@[k].id)
                &&& final(species_list)@ == old(species_list)@
                &&& *final(next_species_id) == *old(next_species_id)
            },
            None => if species_overflow(old(species_list)@.len() as int, *old(next_species_id)) {
                &&& id is None
                &&& final(species_list)@ == old(species_list)@
                &&& *final(next_species_id) == *old(next_species_id)
            } else {
                let s = final(species_list)@.last();
                &&& id == Some(*old(next_species_id))
                &&& *final(next_species_id) == *old(next_species_id) + 1
                &&& final(species_list)@.drop_last() == old(species_list)@
                &&& final(species_list)@.len() == old(species_list)@.len() + 1
                &&& s.id == *old(next_species_id)
                &&& s.representative_genome@ == genome@
                &&& s.members@.len() == 0
                &&& s.age == 0
                &&& s.stagnation == 0
                &&& s.last_improved_generation == 0
            },
        },
{
    let mut i: usize = 0;
    while i < species_list.len()
        invariant
            i <= species_list@.len(),
            species_list@ == old(species_list)@,
            genome.len() <= u32::MAX,
            genomes_bounded(species_list@),
            first_compatible(genome@, species_list@, *weights, 0) == first_compatible(
                genome@,
                species_list@,
                *weights,
                i as int,
            ),
        decreases species_list.len() - i,
    {
        let rep = &species_list[i].representative_genome;
        proof {
            lemma_compatibility_bounds(genome@, rep@);
        }
        let c = compatibility_counts(genome, rep);
        if is_compatible(&c, weights) {
            return Some(species_list[i].id);
        }
        i = i + 1;
    }
    if species_list.len() > 10000 || *next_species_id == u32::MAX {
        return None;
    }
    let new_id = *next_species_id;
    *next_species_id = *next_species_id + 1;
    species_list.push(Species::new(new_id, copy_genome(genome), 0));
    assert(species_list@.drop_last() == old(species_list)@);
    Some(new_id)
}

/// The plain contents of a species record.
pub struct SpeciesModel {
    pub id: u32,
    pub representative: Seq<Gene>,
    pub members: Seq<u16>,
    pub age: u32,
    pub stagnation: u32,
    pub last_improved_generation: u32,
}

/// The contents of a species record.
pub open spec fn model_of(s: Species) -> SpeciesModel {
    SpeciesModel {
        id: s.id,
        representative: s.representative_genome@,
        members: s.members@,
        age: s.age,
        stagnation: s.stagnation,
        last_improved_generation: s.last_improved_generation,
    }
}

/// The contents of a list of species records.
pub open spec fn models(l: Seq<Species>) -> Seq<SpeciesModel> {
    l.map_values(|s: Species| model_of(s))
}

/// `first_compatible` over the contents of the records.
pub open spec fn first_compatible_model(genome: Seq<Gene>, l: Seq<SpeciesModel>, w: CompatibilityWeights, i: int) -> Option<int>
    decreases l.len() - i,
{
    if i < 0 || i >= l.len() {
        None
    } else if compatible(compatibility_of(genome, l[i].representative), w) {
        Some(i)
    } else {
        first_compatible_model(genome, l, w, i + 1)
    }
}

proof fn lemma_first_compatible_model(genome: Seq<Gene>, l: Seq<Species>, w: CompatibilityWeights, i: int)
    requires
        0 <= i,
    ensures
        first_compatible(genome, l, w, i) == first_compatible_model(genome, models(l), w, i),
    decreases l.len() - i,
{
    if i < l.len() {
        lemma_first_compatible_model(genome, l, w, i + 1);
    }
}

proof fn lemma_first_compatible_bounds(genome: Seq<Gene>, l: Seq<SpeciesModel>, w: CompatibilityWeights, i: int)
    requires
        0 <= i,
    ensures
        first_compatible_model(genome, l, w, i) matches Some(k) ==> i <= k < l.len(),
    decreases l.len() - i,
{
    if i < l.len() {
        lemma_first_compatible_bounds(genome, l, w, i + 1);
    }
}

/// The first position from `i` on whose species has id `id`.
pub open spec fn first_with_id(l: Seq<SpeciesModel>, id: u32, i: int) -> Option<int>
    decreases l.len() - i,
{
    if i < 0 || i >= l.len() {
        None
    } else if l[i].id == id {
        Some(i)
    } else {
        first_with_id(l, id, i + 1)
    }
}

proof fn lemma_first_with_id(l: Seq<SpeciesModel>, id: u32, i: int)
    requires
        0 <= i,
    ensures
        first_with_id(l, id, i) matches Some(k) ==> i <= k < l.len() && l[k].id == id,
        first_with_id(l, id, i) is None ==> forall|k: int| i <= k < l.len() ==> l[k].id != id,
    decreases l.len() - i,
{
    if i < l.len() {
        lemma_first_with_id(l, id, i + 1);
    }
}

/// A species with `idx` added as a member unless it is one already.
pub open spec fn with_member(m: SpeciesModel, idx: u16) -> SpeciesModel {
    if m.members.contains(idx) {
        m
    } else {
        SpeciesModel { members: m.members.push(idx), ..m }
    }
}

/// Joining a species (see `join_species`): the list after the genome of
/// individual `idx` is assigned as by `assign_to_species` and `idx` is
/// added to the first species with the assigned id; the next id; the
/// assigned id.
pub open spec fn joined(l: Seq<SpeciesModel>, genome: Seq<Gene>, idx: u16, w: CompatibilityWeights, next: u32) -> Option<(Seq<SpeciesModel>, u32, u32)> {
    match joined_assigned(l, genome, w, next) {
        None => None,
        Some(assigned) => match first_with_id(assigned.0, assigned.2, 0) {
            Some(j) => Some((assigned.0.update(j, with_member(assigned.0[j], idx)), assigned.1, assigned.2)),
            None => Some(assigned),
        },
    }
}

/// Genomes of at most `u32::MAX` genes.
pub open spec fn genomes_bounded(l: Seq<Species>) -> bool {
    forall|i: int| 0 <= i < l.len() ==> #[trigger] l[i].representative_genome@.len() <= u32::MAX
}

/// Assigns the genome of individual `idx` to a species (see
/// `assign_to_species`) and adds `idx` to the first species with the
/// assigned id (see `joined`); `None`, with nothing changed, on overflow.
pub fn join_species(
    genome: &Genome,
    idx: u16,
    species_list: &mut Vec<Species>,
    weights: &CompatibilityWeights,
    next_species_id: &mut u32,
) -> (id: Option<u32>)
    requires
        genome.len() <= u32::MAX,
        genomes_bounded(old(species_list)@),
    ensures
        match joined(models(old(species_list)@), genome@, idx, *weights, *old(next_species_id)) {
            Some(j) => {
                &&& models(final(species_list)@) == j.0
                &&& *final(next_species_id) == j.1
                &&& id == Some(j.2)
            },
            None => {
                &&& id is None
                &&& final(species_list)@ == old(species_list)@
                &&& *final(next_species_id) == *old(next_species_id)
            },
        },
        genomes_bounded(final(species_list)@),
{
    let ghost l0 = species_list@;
    proof {
        lemma_first_compatible_model(genome@, l0, *weights, 0);
    }
    let r = assign_to_species(genome, species_list, weights, next_species_id);
    let id = match r {
        None => {
            return None;
        },
        Some(id) => id,
    };
    let ghost l1 = species_list@;
    let ghost a = joined_assigned(models(l0), genome@, *weights, *old(next_species_id)).unwrap();
    proof {
        match first_compatible(genome@, l0, *weights, 0) {
            Some(k) => {
                assert(models(l1) =~= models(l0));
                assert(first_compatible_model(genome@, models(l0), *weights, 0) == Some(k));
                lemma_first_compatible_bounds(genome@, models(l0), *weights, 0);
                assert(a == (models(l0), *old(next_species_id), models(l0)[k].id));
                assert(models(l0)[k].id == l0[k].id);
            },
            None => {
                let s = l1.last();
                assert(s.members@ =~= Seq::<u16>::empty());
                assert(model_of(s) == SpeciesModel {
                    id: *old(next_species_id),
                    representative: genome@,
                    members: Seq::empty(),
                    age: 0,
                    stagnation: 0,
                    last_improved_generation: 0,
                });
                assert(l1 =~= l0.push(s));
                assert(models(l1) =~= models(l0).push(model_of(s)));
                assert(first_compatible_model(genome@, models(l0), *weights, 0) is None);
            },
        }
    }
    assert(models(l1) == a.0 && id == a.2 && *next_species_id == a.1);
    let mut j: usize = 0;
    let mut found = false;
    proof {
        lemma_first_with_id(models(l1), id, 0);
    }
    while j < species_list.len() && !found
        invariant
            species_list@ == l1,
            j <= l1.len(),
            !found ==> first_with_id(models(l1), id, 0) == first_with_id(models(l1), id, j as int),
            found ==> j < l1.len() && first_with_id(models(l1), id, 0) == Some(j as int),
        decreases l1.len() - j + if found { 0int } else { 1int },
    {
        if species_list[j].id == id {
            found = true;
        } else {
            j = j + 1;
        }
    }
    if found {
        let ghost before = species_list@[j as int];
        species_list[j].add_member(idx);
        proof {
            assert(models(species_list@) =~= models(l1).update(j as int, with_member(model_of(before), idx)));
        }
    }
    proof {
        assert(genomes_bounded(species_list@)) by {
            assert forall|i: int| 0 <= i < species_list@.len() implies #[trigger] species_list@[i].representative_genome@.len() <= u32::MAX by {
                assert(models(species_list@)[i].representative == species_list@[i].representative_genome@);
                if i < l0.len() {
                    assert(models(l0)[i].representative == l0[i].representative_genome@);
                }
            }
        }
    }
    Some(id)
}

/// The first half of `joined`: the list, next id and assigned id after
/// assigning as `assign_to_species` does; none on overflow.
pub open spec fn joined_assigned(l: Seq<SpeciesModel>, genome: Seq<Gene>, w: CompatibilityWeights, next: u32) -> Option<(Seq<SpeciesModel>, u32, u32)> {
    match first_compatible_model(genome, l, w, 0) {
        Some(k) => Some((l, next, l[k].id)),
        None => if species_overflow(l.len() as int, next) {
            None
        } else {
            Some(
                (
                    l.push(
                        SpeciesModel {
                            id: next,
                            representative: genome,
                            members: Seq::empty(),
                            age: 0,
                            stagnation: 0,
                            last_improved_generation: 0,
                        },
                    ),
                    (next + 1) as u32,
                    next,
                ),
            )
        },
    }
}

/// A species with no members.
pub open spec fn without_members(m: SpeciesModel) -> SpeciesModel {
    SpeciesModel { members: Seq::empty(), ..m }
}

/// The species with their members cleared.
pub open spec fn cleared(l: Seq<SpeciesModel>) -> Seq<SpeciesModel> {
    l.map_values(|m: SpeciesModel| without_members(m))
}

/// The species after each survivor among the first `k` that names an
/// individual has joined a species (see `joined`), from list `l0` and
/// next id `next0`; the next id; and the survivors with their species
/// ids, in order. None once a join overflows.
pub open spec fn survivors_joined(
    sv: Seq<u16>,
    inds: Seq<crate::indiv::Indiv>,
    l0: Seq<SpeciesModel>,
    w: CompatibilityWeights,
    next0: u32,
    k: int,
) -> Option<(Seq<SpeciesModel>, u32, Seq<(u16, u32)>)>
    decreases k,
{
    if k <= 0 {
        Some((l0, next0, Seq::empty()))
    } else {
        match survivors_joined(sv, inds, l0, w, next0, k - 1) {
            None => None,
            Some(p) => {
                let idx = sv[k - 1];
                if idx != 0 && idx < inds.len() {
                    match joined(p.0, inds[idx as int].genome@, idx, w, p.1) {
                        None => None,
                        Some(j) => Some((j.0, j.1, p.2.push((idx, j.2)))),
                    }
                } else {
                    Some(p)
                }
            },
        }
    }
}

/// Starts the species of a new generation: takes the next species id,
/// clears every species' members, and lets each survivor that names an
/// individual join a species (see `survivors_joined`), counting new ids
/// from the id taken. Returns the survivors with their species ids, or
/// `None` when a join overflows (see `species_overflow`); the registry's
/// counter stays one past the id taken.
pub fn assign_survivors_to_species(
    survivors: &[u16],
    peeps: &Peeps,
    registry: &mut SpeciesRegistry,
    weights: &CompatibilityWeights,
) -> (pairs: Option<Vec<(u16, u32)>>)
    requires
        genomes_bounded(old(registry).species@),
        forall|i: int|
            0 <= i < peeps.individuals@.len() ==> #[trigger] peeps.individuals@[i].genome@.len()
                <= u32::MAX,
    ensures
        match survivors_joined(
            survivors@,
            peeps.individuals@,
            cleared(models(old(registry).species@)),
            *weights,
            issued_id(old(registry).next_id),
            survivors@.len() as int,
        ) {
            Some(f) => pairs matches Some(p) && models(final(registry).species@) == f.0 && p@ == f.2,
            None => pairs is None,
        },
        final(registry).next_id == issued_id(old(registry).next_id) + 1,
{
    let mut next_id = get_next_species_id(registry);
    let ghost orig = registry.species@;
    let ghost start = cleared(models(orig));
    let n = registry.species.len();
    let mut i: usize = 0;
    while i < n
        invariant
            n == orig.len(),
            i <= n,
            registry.species@.len() == n,
            genomes_bounded(orig),
            forall|j: int| 0 <= j < i ==> #[trigger] model_of(registry.species@[j]) == without_members(model_of(orig[j])),
            forall|j: int| i <= j < n ==> #[trigger] registry.species@[j] == orig[j],
            registry.next_id == issued_id(old(registry).next_id) + 1,
            next_id == issued_id(old(registry).next_id),
        decreases n - i,
    {
        registry.species[i].clear_members();
        proof {
            assert(registry.species@[i as int].members@ =~= Seq::<u16>::empty());
        }
        i = i + 1;
    }
    proof {
        assert(models(registry.species@) =~= start);
        assert(genomes_bounded(registry.species@)) by {
            assert forall|j: int| 0 <= j < registry.species@.len() implies #[trigger] registry.species@[j].representative_genome@.len() <= u32::MAX by {
                assert(model_of(registry.species@[j]).representative == model_of(orig[j]).representative);
            }
        }
    }
    let mut pairs: Vec<(u16, u32)> = Vec::new();
    let mut k: usize = 0;
    while k < survivors.len()
        invariant
            k <= survivors@.len(),
            genomes_bounded(registry.species@),
            forall|i: int|
                0 <= i < peeps.individuals@.len() ==> #[trigger] peeps.individuals@[i].genome@.len()
                    <= u32::MAX,
            start == cleared(models(old(registry).species@)),
            survivors_joined(survivors@, peeps.individuals@, start, *weights, issued_id(old(registry).next_id), k as int)
                matches Some(st) && models(registry.species@) == st.0 && next_id == st.1 && pairs@ == st.2,
            registry.next_id == issued_id(old(registry).next_id) + 1,
        decreases survivors.len() - k,
    {
        let idx = survivors[k];
        match peeps.get(idx) {
            Some(indiv) => {
                match join_species(&indiv.genome, idx, &mut registry.species, weights, &mut next_id) {
                    Some(id) => {
                        pairs.push((idx, id));
                    },
                    None => {
                        proof {
                            lemma_survivors_joined_none(survivors@, peeps.individuals@, start, *weights, issued_id(old(registry).next_id), k as int + 1, survivors@.len() as int);
                        }
                        return None;
                    },
                }
            },
            None => {},
        }
        k = k + 1;
    }
    Some(pairs)
}

/// Once a join overflows, the whole assignment does.
proof fn lemma_survivors_joined_none(
    sv: Seq<u16>,
    inds: Seq<crate::indiv::Indiv>,
    l0: Seq<SpeciesModel>,
    w: CompatibilityWeights,
    next0: u32,
    k: int,
    n: int,
)
    requires
        0 <= k <= n,
        survivors_joined(sv, inds, l0, w, next0, k) is None,
    ensures
        survivors_joined(sv, inds, l0, w, next0, n) is None,
    decreases n - k,
{
    if k < n {
        lemma_survivors_joined_none(sv, inds, l0, w, next0, k + 1, n);
    }
}

/// A species is culled once it has stagnated for `stagnation_threshold`
/// generations and has fewer than `min_species_size` members.
pub open spec fn is_culled(s: Species, stagnation_threshold: u32, min_species_size: usize) -> bool {
    s.stagnation >= stagnation_threshold && s.members@.len() < min_species_size
}

/// The `k`-th species (counting from 1) is removed: it is stagnant and
/// small (see `is_culled`), and it is not the last species left, which is
/// never removed, so that the list never dies out.
pub open spec fn removed_at(l: Seq<Species>, thr: u32, min: usize, k: int) -> bool
    decreases k, 0int,
{
    &&& 0 < k <= l.len()
    &&& is_culled(l[k - 1], thr, min)
    &&& (k < l.len() || species_kept(l, thr, min, k - 1).len() > 0)
}

/// The species of the first `k` that are not removed (see `removed_at`),
/// in order.
pub open spec fn species_kept(l: Seq<Species>, thr: u32, min: usize, k: int) -> Seq<Species>
    decreases k, 1int,
{
    if k <= 0 {
        Seq::empty()
    } else if removed_at(l, thr, min, k) {
        species_kept(l, thr, min, k - 1)
    } else {
        species_kept(l, thr, min, k - 1).push(l[k - 1])
    }
}

/// The members of the removed species among the first `k`, in order.
pub open spec fn species_orphans(l: Seq<Species>, thr: u32, min: usize, k: int) -> Seq<u16>
    decreases k,
{
    if k <= 0 {
        Seq::empty()
    } else if removed_at(l, thr, min, k) {
        species_orphans(l, thr, min, k - 1) + l[k - 1].members@
    } else {
        species_orphans(l, thr, min, k - 1)
    }
}

/// Culling never empties a list of species: the last species left stays.
pub proof fn lemma_culling_keeps_a_species(l: Seq<Species>, thr: u32, min: usize)
    requires
        l.len() >= 1,
    ensures
        species_kept(l, thr, min, l.len() as int).len() >= 1,
{
    let n = l.len() as int;
    assert(species_kept(l, thr, min, n) == if removed_at(l, thr, min, n) {
        species_kept(l, thr, min, n - 1)
    } else {
        species_kept(l, thr, min, n - 1).push(l[n - 1])
    });
}

/// Removes the stagnant small species (see `is_culled`) but never the last
/// one left (see `removed_at`), and returns the members of the removed
/// species to be reassigned; a list of at most one species is left alone.
pub fn cull_stagnant_species(
    species_list: &mut Vec<Species>,
    stagnation_threshold: u32,
    min_species_size: usize,
) -> (orphans: Vec<u16>)
    ensures
        old(species_list)@.len() <= 1 ==> final(species_list)@ == old(species_list)@ && orphans@.len()
            == 0,
        old(species_list)@.len() > 1 ==> {
            &&& final(species_list)@ == species_kept(
                old(species_list)@,
                stagnation_threshold,
                min_species_size,
                old(species_list)@.len() as int,
            )
            &&& orphans@ == species_orphans(
                old(species_list)@,
                stagnation_threshold,
                min_species_size,
                old(species_list)@.len() as int,
            )
        },
        old(species_list)@.len() >= 1 ==> final(species_list)@.len() >= 1,
{
    let mut orphans: Vec<u16> = Vec::new();
    if species_list.len() <= 1 {
        return orphans;
    }
    let ghost orig = species_list@;
    let n = species_list.len();
    let mut rest: Vec<Species> = Vec::new();
    std::mem::swap(&mut rest, species_list);
    let mut kept: Vec<Species> = Vec::new();
    let mut k: usize = 0;
    while k < n
        invariant
            k <= n == orig.len(),
            rest@ == orig.subrange(k as int, n as int),
            kept@ == species_kept(orig, stagnation_threshold, min_species_size, k as int),
            orphans@ == species_orphans(orig, stagnation_threshold, min_species_size, k as int),
        decreases n - k,
    {
        let s = rest.remove(0);
        assert(s == orig[k as int]);
        let removed = s.stagnation >= stagnation_threshold && s.members.len() < min_species_size && (k
            + 1 < n || kept.len() > 0);
        assert(removed == removed_at(orig, stagnation_threshold, min_species_size, k + 1));
        if removed {
            let ghost before = orphans@;
            let mut j: usize = 0;
            while j < s.members.len()
                invariant
                    j <= s.members@.len(),
                    orphans@ == before + s.members@.subrange(0, j as int),
                decreases s.members.len() - j,
            {
                orphans.push(s.members[j]);
                assert(before + s.members@.subrange(0, j + 1) == (before + s.members@.subrange(
                    0,
                    j as int,
                )).push(s.members@[j as int]));
                j = j + 1;
            }
            assert(s.members@.subrange(0, j as int) == s.members@);
        } else {
            kept.push(s);
        }
        assert(rest@ == orig.subrange(k + 1, n as int));
        k = k + 1;
    }
    proof {
        lemma_culling_keeps_a_species(orig, stagnation_threshold, min_species_size);
    }
    *species_list = kept;
    orphans
}

/// The score of a member: its key in `scores`, or `absent` when it has
/// none.
pub open spec fn score_of(scores: Map<u16, u64>, idx: u16, absent: u64) -> u64 {
    if scores.contains_key(idx) {
        scores[idx]
    } else {
        absent
    }
}

/// The members paired with their scores, in member order.
pub open spec fn keyed_members(members: Seq<u16>, scores: Map<u16, u64>, absent: u64) -> Seq<(u16, u64)> {
    Seq::new(members.len(), |i: int| (members[i], score_of(scores, members[i], absent)))
}

/// The members a species keeps under a size limit: all of them when they
/// fit, else the `max` best by score (see `ranked`: ties keep the member
/// order).
pub open spec fn limited_members(members: Seq<u16>, scores: Map<u16, u64>, absent: u64, max: int) -> Seq<u16> {
    if members.len() <= max {
        members
    } else {
        ranked(keyed_members(members, scores, absent)).take(max).map_values(|p: (u16, u64)| p.0)
    }
}

fn score_lookup(scores: &HashMap<u16, u64>, idx: u16, absent: u64) -> (k: u64)
    ensures
        k == score_of(scores@, idx, absent),
{
    proof {
        broadcast use vstd::std_specs::hash::group_hash_axioms;

        assert(vstd::std_specs::hash::obeys_key_model::<u16>());
        assert(vstd::std_specs::hash::builds_valid_hashers::<std::hash::RandomState>());
    }
    match scores.get(&idx) {
        Some(v) => *v,
        None => absent,
    }
}

/// Limits a species to its `max_species_size` best members by score, in
/// descending score order, members of equal score keeping their order; a
/// member without a score in `fitness_scores` ranks by `absent_key`. A
/// species within the limit is left as it is.
pub fn limit_species_size(
    species: &mut Species,
    fitness_scores: &HashMap<u16, u64>,
    absent_key: u64,
    max_species_size: usize,
)
    ensures
        final(species).members@ == limited_members(
            old(species).members@,
            fitness_scores@,
            absent_key,
            max_species_size as int,
        ),
        final(species).id == old(species).id,
        final(species).representative_genome == old(species).representative_genome,
        final(species).age == old(species).age,
        final(species).stagnation == old(species).stagnation,
        final(species).last_improved_generation == old(species).last_improved_generation,
{
    if species.members.len() <= max_species_size {
        return;
    }
    let ghost members = species.members@;
    let ghost want = keyed_members(members, fitness_scores@, absent_key);
    let mut keyed: Vec<(u16, u64)> = Vec::new();
    let mut i: usize = 0;
    while i < species.members.len()
        invariant
            i <= species.members.len(),
            species.members@ == members,
            want == keyed_members(members, fitness_scores@, absent_key),
            keyed@ == want.take(i as int),
        decreases species.members.len() - i,
    {
        let m = species.members[i];
        let k = score_lookup(fitness_scores, m, absent_key);
        keyed.push((m, k));
        i = i + 1;
        assert(keyed@ =~= want.take(i as int));
    }
    assert(keyed@ =~= want);
    let order = rank_descending(&keyed);
    proof {
        lemma_ranking_sorted(keyed@);
    }
    let mut kept: Vec<u16> = Vec::new();
    let mut j: usize = 0;
    while j < max_species_size
        invariant
            j <= max_species_size < order@.len(),
            order@ == ranked(want),
            kept@ == order@.take(j as int).map_values(|p: (u16, u64)| p.0),
        decreases max_species_size - j,
    {
        kept.push(order[j].0);
        j = j + 1;
        assert(kept@ =~= order@.take(j as int).map_values(|p: (u16, u64)| p.0));
    }
    species.members = kept;
}

/// The representative each species takes in a renewal: the genome of its
/// first member when that names an individual, otherwise its old one.
pub open spec fn renewed_representative(s: Species, inds: Seq<crate::indiv::Indiv>) -> Seq<Gene> {
    if s.members@.len() > 0 && s.members@[0] != 0 && s.members@[0] < inds.len() {
        inds[s.members@[0] as int].genome@
    } else {
        s.representative_genome@
    }
}

/// Every `update_interval` generations, gives each species the genome of
/// its first member as its new representative (see
/// `renewed_representative`); nothing else changes.
pub fn update_species_representatives(
    species_list: &mut Vec<Species>,
    peeps: &Peeps,
    generation: u32,
    update_interval: u32,
)
    requires
        update_interval > 0,
    ensures
        final(species_list)@.len() == old(species_list)@.len(),
        forall|i: int|
            #![trigger final(species_list)@[i]]
            0 <= i < old(species_list)@.len() ==> {
                let o = old(species_list)@[i];
                let f = final(species_list)@[i];
                &&& f.id == o.id
                &&& f.members == o.members
                &&& f.age == o.age
                &&& f.stagnation == o.stagnation
                &&& f.last_improved_generation == o.last_improved_generation
                &&& f.representative_genome@ == if generation % update_interval == 0 {
                    renewed_representative(o, peeps.individuals@)
                } else {
                    o.representative_genome@
                }
            },
{
    if generation % update_interval != 0 {
        return;
    }
    let ghost orig = species_list@;
    let n = species_list.len();
    let mut rest: Vec<Species> = Vec::new();
    std::mem::swap(&mut rest, species_list);
    let mut done: Vec<Species> = Vec::new();
    let mut k: usize = 0;
    while k < n
        invariant
            k <= n == orig.len(),
            rest@ == orig.subrange(k as int, n as int),
            done@.len() == k,
            generation % update_interval == 0,
            forall|i: int|
                #![trigger done@[i]]
                0 <= i < k ==> {
                    let o = orig[i];
                    let f = done@[i];
                    &&& f.id == o.id
                    &&& f.members == o.members
                    &&& f.age == o.age
                    &&& f.stagnation == o.stagnation
                    &&& f.last_improved_generation == o.last_improved_generation
                    &&& f.representative_genome@ == renewed_representative(o, peeps.individuals@)
                },
        decreases n - k,
    {
        let mut s = rest.remove(0);
        assert(s == orig[k as int]);
        if s.members.len() > 0 {
            match peeps.get(s.members[0]) {
                Some(indiv) => {
                    s.representative_genome = copy_genome(&indiv.genome);
                },
                None => {},
            }
        }
        done.push(s);
        assert(rest@ == orig.subrange(k + 1, n as int));
        k = k + 1;
    }
    *species_list = done;
}

/// The integer tallies of the species statistics; the averages are the
/// sums divided by the number of species.
#[derive(Debug, Clone, Copy, PartialEq, Eq, Structural)]
pub struct SpeciesTallies {
    pub num_species: u32,
    pub total_members: u128,
    pub largest_species: u64,
    pub smallest_species: u64,
    /// Species of age 0.
    pub new_species: u32,
    /// How many fewer species there are than before.
    pub extinct_species: u32,
    pub total_age: u64,
    pub total_stagnation: u64,
}

/// All tallies zero: the statistics of no species.
pub open spec fn no_tallies() -> SpeciesTallies {
    SpeciesTallies {
        num_species: 0,
        total_members: 0,
        largest_species: 0,
        smallest_species: 0,
        new_species: 0,
        extinct_species: 0,
        total_age: 0,
        total_stagnation: 0,
    }
}

/// The sum of the member counts of the first `k` species.
pub open spec fn members_total(l: Seq<Species>, k: int) -> int
    decreases k,
{
    if k <= 0 {
        0
    } else {
        members_total(l, k - 1) + l[k - 1].members@.len()
    }
}

/// The sum of the ages of the first `k` species.
pub open spec fn age_total(l: Seq<Species>, k: int) -> int
    decreases k,
{
    if k <= 0 {
        0
    } else {
        age_total(l, k - 1) + l[k - 1].age
    }
}

/// The sum of the stagnations of the first `k` species.
pub open spec fn stagnation_total(l: Seq<Species>, k: int) -> int
    decreases k,
{
    if k <= 0 {
        0
    } else {
        stagnation_total(l, k - 1) + l[k - 1].stagnation
    }
}

/// How many of the first `k` species are of age 0.
pub open spec fn new_total(l: Seq<Species>, k: int) -> int
    decreases k,
{
    if k <= 0 {
        0
    } else {
        new_total(l, k - 1) + if l[k - 1].age == 0 {
            1int
        } else {
            0int
        }
    }
}

/// The tallies of the species statistics: all zero for no species or for
/// more than 10000 of them (a list in that state is not reported);
/// otherwise the count, the sums, the largest and smallest member count,
/// the species of age 0, and how many fewer species there are than the
/// `previous_species_count`.
pub fn calculate_species_statistics(species_list: &Vec<Species>, previous_species_count: u32) -> (t: SpeciesTallies)
    ensures
        species_list@.len() == 0 || species_list@.len() > 10000 ==> t == no_tallies(),
        0 < species_list@.len() <= 10000 ==> {
            let l = species_list@;
            let n = l.len() as int;
            &&& t.num_species == n
            &&& t.total_members == members_total(l, n)
            &&& t.total_age == age_total(l, n)
            &&& t.total_stagnation == stagnation_total(l, n)
            &&& t.new_species == new_total(l, n)
            &&& t.extinct_species == if previous_species_count > n {
                previous_species_count - n
            } else {
                0
            }
            &&& exists|i: int| 0 <= i < n && l[i].members@.len() == t.largest_species
            &&& exists|i: int| 0 <= i < n && l[i].members@.len() == t.smallest_species
            &&& forall|i: int|
                #![trigger l[i]]
                0 <= i < n ==> t.smallest_species <= l[i].members@.len() <= t.largest_species
        },
{
    let n = species_list.len();
    if n == 0 || n > 10000 {
        return SpeciesTallies {
            num_species: 0,
            total_members: 0,
            largest_species: 0,
            smallest_species: 0,
            new_species: 0,
            extinct_species: 0,
            total_age: 0,
            total_stagnation: 0,
        };
    }
    let ghost l = species_list@;
    let mut total_members: u128 = 0;
    let mut total_age: u64 = 0;
    let mut total_stagnation: u64 = 0;
    let mut new_species: u32 = 0;
    let first = species_list[0].members.len();
    let mut largest: usize = first;
    let mut smallest: usize = first;
    let mut k: usize = 0;
    while k < n
        invariant
            0 < n <= 10000,
            n == l.len(),
            species_list@ == l,
            k <= n,
            total_members == members_total(l, k as int),
            total_members <= k * 0x1_0000_0000_0000_0000,
            total_age == age_total(l, k as int),
            total_age <= k * 0x1_0000_0000,
            total_stagnation == stagnation_total(l, k as int),
            total_stagnation <= k * 0x1_0000_0000,
            new_species == new_total(l, k as int),
            new_species <= k,
            exists|i: int| 0 <= i < n && l[i].members@.len() == largest,
            exists|i: int| 0 <= i < n && l[i].members@.len() == smallest,
            forall|i: int| #![trigger l[i]] 0 <= i < k ==> smallest <= l[i].members@.len() <= largest,
            smallest <= largest,
        decreases n - k,
    {
        let s = &species_list[k];
        let size = s.members.len();
        total_members = total_members + size as u128;
        total_age = total_age + s.age as u64;
        total_stagnation = total_stagnation + s.stagnation as u64;
        if s.age == 0 {
            new_species = new_species + 1;
        }
        if size > largest {
            largest = size;
        }
        if size < smallest {
            smallest = size;
        }
        k = k + 1;
    }
    SpeciesTallies {
        num_species: n as u32,
        total_members,
        largest_species: largest as u64,
        smallest_species: smallest as u64,
        new_species,
        extinct_species: if previous_species_count > n as u32 {
            previous_species_count - n as u32
        } else {
            0
        },
        total_age,
        total_stagnation,
    }
}


} // verus!
verus! {

proof fn lemma_first_unused_self(g: Seq<Gene>, used: Seq<bool>, j: int, i: int)
    requires
        0 <= j <= i < g.len(),
        used.len() == g.len(),
        forall|k: int| j <= k < i ==> #[trigger] used[k],
        !used[i],
    ensures
        first_unused_match(g[i], g, used, j) == Some(i),
    decreases i - j,
{
    if j < i {
        lemma_first_unused_self(g, used, j + 1, i);
    }
}

/// Pairing a genome with itself pairs every gene with itself.
proof fn lemma_self_pairs(g: Seq<Gene>, i: int)
    requires
        0 <= i <= g.len(),
    ensures
        topology_pairs(g, g, i) == (Seq::new(g.len(), |j: int| j < i), i as nat, 0nat),
    decreases i,
{
    if i == 0 {
        assert(Seq::new(g.len(), |j: int| false) =~= Seq::new(g.len(), |j: int| j < 0));
    } else {
        lemma_self_pairs(g, i - 1);
        let prev = topology_pairs(g, g, i - 1);
        lemma_first_unused_self(g, prev.0, 0, i - 1);
        assert(prev.0.update(i - 1, true) =~= Seq::new(g.len(), |j: int| j < i));
    }
}

/// A genome is compatible with itself, whatever the weights: every gene
/// pairs with itself, leaving no excess or disjoint genes and no weight
/// difference.
pub proof fn lemma_self_compatible(g: Seq<Gene>, w: CompatibilityWeights)
    ensures
        compatible(compatibility_of(g, g), w),
{
    lemma_self_pairs(g, g.len() as int);
    let c = compatibility_of(g, g);
    assert(c.excess == 0 && c.disjoint == 0 && c.weight_gap_sum == 0);
    let n = c.longer as int;
    let m = c.matches as int;
    if n > 0 {
        assert(0 <= w.threshold_milli * n * 8192 * m) by (nonlinear_arith)
            requires
                n > 0,
                m >= 0,
        ;
        assert(w.weight_milli * 0 * n == 0) by (nonlinear_arith);
    }
}

} // verus!
