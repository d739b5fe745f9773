//! Genomes, their mutation and recombination, and the neural nets wired
//! from them.
use vstd::prelude::*;

use crate::params::Params;
use crate::random::{random_uint, random_uint_range, RandomUintGenerator, RngState};

verus! {

/// Source type of a sensor (a source only).
pub const SENSOR: u8 = 1;

/// Sink type of an action (a sink only).
pub const ACTION: u8 = 1;

/// Source or sink type of an internal neuron.
pub const NEURON: u8 = 0;

/// Draws below this value are those that, scaled into [0, 1] as `f32`,
/// fall below 0.2.
pub const CHANCE_BELOW_0_2: u64 = 858993441;

/// Draws below this value fall below 0.4 when scaled into [0, 1] as `f32`.
pub const CHANCE_BELOW_0_4: u64 = 1717986881;

/// Draws below this value fall below 0.5 when scaled into [0, 1] as `f32`.
pub const CHANCE_BELOW_0_5: u64 = 2147483584;

/// Draws below this value fall below 0.6 when scaled into [0, 1] as `f32`.
pub const CHANCE_BELOW_0_6: u64 = 2576980352;

/// Draws below this value fall below 0.8 when scaled into [0, 1] as `f32`.
pub const CHANCE_BELOW_0_8: u64 = 3435973761;

/// One connection of the brain: from a sensor or neuron to a neuron or
/// action, with a signed fixed-point weight (units of 1/8192).
#[derive(Debug, Clone, Copy, PartialEq, Eq, Structural)]
pub struct Gene {
    /// `SENSOR` or `NEURON` (one bit).
    pub source_type: u8,
    /// Seven bits.
    pub source_num: u8,
    /// `NEURON` or `ACTION` (one bit).
    pub sink_type: u8,
    /// Seven bits.
    pub sink_num: u8,
    pub weight: i16,
}

pub type Genome = Vec<Gene>;

/// The gene `make_random_gene` builds from the generator state `s`: five
/// consecutive draws give source type, source number, sink type, sink
/// number and weight; the numbers keep the low seven bits of their draws.
pub open spec fn random_gene(s: RngState) -> Gene {
    Gene {
        source_type: (s.next_output() % 2) as u8,
        source_num: ((s.advance(1).next_output() % 0x8000) % 128) as u8,
        sink_type: (s.advance(2).next_output() % 2) as u8,
        sink_num: ((s.advance(3).next_output() % 0x8000) % 128) as u8,
        weight: (s.advance(4).next_output() % 0x10000 - 0x8000) as i16,
    }
}

/// One more step of the generator.
pub proof fn lemma_advance_next(s: RngState, n: nat)
    ensures
        s.advance(n + 1) == s.advance(n).next_state(),
{
}

/// Steps of the generator add up.
pub proof fn lemma_advance_add(s: RngState, m: nat, n: nat)
    ensures
        s.advance(m).advance(n) == s.advance(m + n),
    decreases n,
{
    if n > 0 {
        lemma_advance_add(s, m, (n - 1) as nat);
        assert(s.advance(m).advance(n) == s.advance(m).advance((n - 1) as nat).next_state());
        assert(s.advance(m + n) == s.advance((m + n - 1) as nat).next_state());
    }
}

fn low_bit(v: u32) -> (r: u8)
    ensures
        r == v % 2,
{
    (v % 2) as u8
}

impl Gene {
    /// A weight drawn uniformly from the whole `i16` range.
    pub fn make_random_weight(rng: &mut RandomUintGenerator) -> (w: i16)
        ensures
            final(rng)@ == old(rng)@.next_state(),
            w == old(rng)@.next_output() % 0x10000 - 0x8000,
    {
        let v = random_uint_range(rng, 0, 0xffff);
        (v as i32 - 0x8000) as i16
    }
}

/// A gene with every field drawn from `rng` (see `random_gene`).
pub fn make_random_gene(rng: &mut RandomUintGenerator) -> (g: Gene)
    ensures
        final(rng)@ == old(rng)@.advance(5),
        g == random_gene(old(rng)@),
        g.source_type <= 1 && g.sink_type <= 1,
        g.source_num < 128 && g.sink_num < 128,
{
    let ghost s = old(rng)@;
    let source_type = low_bit(random_uint(rng));
    let source_num = (random_uint_range(rng, 0, 0x7fff) % 128) as u8;
    let sink_type = low_bit(random_uint(rng));
    let sink_num = (random_uint_range(rng, 0, 0x7fff) % 128) as u8;
    let weight = Gene::make_random_weight(rng);
    proof {
        lemma_advance_next(s, 0);
        lemma_advance_next(s, 1);
        lemma_advance_next(s, 2);
        lemma_advance_next(s, 3);
        lemma_advance_next(s, 4);
    }
    Gene { source_type, source_num, sink_type, sink_num, weight }
}

/// The genome `make_random_genome` draws from the state `s`: a length in
/// `length_min..=length_max`, then that many genes of five draws each.
pub open spec fn random_genome(s: RngState, length_min: u32, length_max: u32) -> Seq<Gene> {
    let len = s.next_output() % ((length_max - length_min + 1) as u32) + length_min;
    Seq::new(len as nat, |i: int| random_gene(s.advance((1 + 5 * i) as nat)))
}

/// A genome of random length between the initial minimum and maximum,
/// with every gene drawn by `make_random_gene`.
pub fn make_random_genome(rng: &mut RandomUintGenerator, params: &Params) -> (g: Genome)
    requires
        params.genome_initial_length_min <= params.genome_initial_length_max,
        params.genome_initial_length_max - params.genome_initial_length_min < u32::MAX,
    ensures
        g@ == random_genome(
            old(rng)@,
            params.genome_initial_length_min,
            params.genome_initial_length_max,
        ),
        final(rng)@ == old(rng)@.advance(1 + 5 * g.len() as nat),
{
    let ghost s = old(rng)@;
    let length = random_uint_range(
        rng,
        params.genome_initial_length_min,
        params.genome_initial_length_max,
    );
    proof {
        lemma_advance_next(s, 0);
    }
    let mut genome: Genome = Vec::new();
    let mut i: u32 = 0;
    while i < length
        invariant
            i <= length,
            genome.len() == i,
            rng@ == s.advance(1 + 5 * i as nat),
            forall|j: int|
                0 <= j < i ==> #[trigger] genome@[j] == random_gene(s.advance((1 + 5 * j) as nat)),
        decreases length - i,
    {
        let g = make_random_gene(rng);
        proof {
            lemma_advance_add(s, 1 + 5 * i as nat, 5);
            assert(1 + 5 * i as nat + 5 == 1 + 5 * (i + 1) as nat);
        }
        genome.push(g);
        i = i + 1;
    }
    assert(genome@ =~= random_genome(
        s,
        params.genome_initial_length_min,
        params.genome_initial_length_max,
    ));
    genome
}

/// The weight `w` with bit `k` inverted.
pub open spec fn flip_weight_bit(w: i16, k: u32) -> i16 {
    ((w as u16) ^ (1u16 << k)) as i16
}

/// The gene `g` after one point mutation: the draw `chance` picks the
/// field (each of source type, sink type, source number and sink number
/// with probability 0.2, else the weight), `bit8` is the bit inverted in a
/// number, which keeps its seven bits, and `weight_bit` the bit inverted
/// in the weight.
pub open spec fn flipped_gene(g: Gene, chance: u32, bit8: u8, weight_bit: u32) -> Gene {
    if chance < CHANCE_BELOW_0_2 {
        Gene { source_type: g.source_type ^ 1u8, ..g }
    } else if chance < CHANCE_BELOW_0_4 {
        Gene { sink_type: g.sink_type ^ 1u8, ..g }
    } else if chance < CHANCE_BELOW_0_6 {
        Gene { source_num: (g.source_num ^ bit8) & 0x7f, ..g }
    } else if chance < CHANCE_BELOW_0_8 {
        Gene { sink_num: (g.sink_num ^ bit8) & 0x7f, ..g }
    } else {
        Gene { weight: flip_weight_bit(g.weight, weight_bit), ..g }
    }
}

/// A point mutation keeps the source and sink numbers within seven bits.
pub proof fn lemma_flipped_gene_seven_bits(g: Gene, chance: u32, bit8: u8, weight_bit: u32)
    requires
        g.source_num < 128,
        g.sink_num < 128,
    ensures
        flipped_gene(g, chance, bit8, weight_bit).source_num < 128,
        flipped_gene(g, chance, bit8, weight_bit).sink_num < 128,
{
    let a = g.source_num;
    let b = g.sink_num;
    assert((a ^ bit8) & 0x7f < 128) by (bit_vector);
    assert((b ^ bit8) & 0x7f < 128) by (bit_vector);
}

/// How many draws `random_bit_flip` takes from the state `s`.
pub open spec fn bit_flip_draws(s: RngState) -> nat {
    if s.advance(2).next_output() < CHANCE_BELOW_0_8 {
        3
    } else {
        4
    }
}

/// The genome `g` after `random_bit_flip` with the generator in state `s`:
/// the draws pick a gene, a bit of a byte, the field, and for the weight a
/// bit from 1 to 15.
pub open spec fn bit_flipped(g: Seq<Gene>, s: RngState) -> Seq<Gene> {
    let idx = (s.next_output() % (g.len() as u32)) as int;
    let bit8 = 1u8 << ((s.advance(1).next_output() % 8) as u8);
    let chance = s.advance(2).next_output();
    let weight_bit = s.advance(3).next_output() % 15 + 1;
    g.update(idx, flipped_gene(g[idx], chance, bit8, weight_bit as u32))
}

/// Mutates one bit of one gene of `genome`.
pub fn random_bit_flip(rng: &mut RandomUintGenerator, genome: &mut Genome)
    requires
        1 <= old(genome).len() <= u32::MAX,
    ensures
        final(genome)@ == bit_flipped(old(genome)@, old(rng)@),
        final(rng)@ == old(rng)@.advance(bit_flip_draws(old(rng)@)),
{
    let ghost s = old(rng)@;
    let n = genome.len() as u32;
    let element_index = random_uint_range(rng, 0, n - 1) as usize;
    let bit_index8: u8 = 1u8 << (random_uint_range(rng, 0, 7) as u8);
    let chance = random_uint(rng);
    proof {
        lemma_advance_next(s, 0);
        lemma_advance_next(s, 1);
        lemma_advance_next(s, 2);
        lemma_advance_next(s, 3);
    }
    let mut g = genome[element_index];
    if (chance as u64) < CHANCE_BELOW_0_2 {
        g.source_type = g.source_type ^ 1;
    } else if (chance as u64) < CHANCE_BELOW_0_4 {
        g.sink_type = g.sink_type ^ 1;
    } else if (chance as u64) < CHANCE_BELOW_0_6 {
        g.source_num = (g.source_num ^ bit_index8) & 0x7f;
    } else if (chance as u64) < CHANCE_BELOW_0_8 {
        g.sink_num = (g.sink_num ^ bit_index8) & 0x7f;
    } else {
        let k = random_uint_range(rng, 1, 15);
        g.weight = ((g.weight as u16) ^ (1u16 << k)) as i16;
    }
    genome.set(element_index, g);
}

/// The genome `g` cut to `length` genes with the generator in state `s`,
/// and the state after: a genome longer than a nonzero `length` loses its
/// front or its back, as one draw decides (probability 0.5 for the front).
pub open spec fn cropped(g: Seq<Gene>, s: RngState, length: nat) -> (Seq<Gene>, RngState) {
    if g.len() > length && length > 0 {
        if s.next_output() < CHANCE_BELOW_0_5 {
            (g.subrange(g.len() - length, g.len() as int), s.next_state())
        } else {
            (g.subrange(0, length as int), s.next_state())
        }
    } else {
        (g, s)
    }
}

/// Shortens `genome` to `length` genes (see `cropped`).
pub fn crop_length(rng: &mut RandomUintGenerator, genome: &mut Genome, length: usize)
    ensures
        (final(genome)@, final(rng)@) == cropped(old(genome)@, old(rng)@, length as nat),
{
    if genome.len() > length && length > 0 {
        let u = random_uint(rng);
        if (u as u64) < CHANCE_BELOW_0_5 {
            let number_to_trim = genome.len() - length;
            let tail = genome.split_off(number_to_trim);
            *genome = tail;
        } else {
            genome.truncate(length);
        }
    }
}

/// The genome `g` after `random_insert_deletion` with the generator in
/// state `s`, and the state after.
pub open spec fn inserted_deleted(g: Seq<Gene>, s: RngState, p: Params) -> (Seq<Gene>, RngState) {
    if s.next_output() < p.gene_insertion_deletion_threshold {
        let s1 = s.next_state();
        if s1.next_output() < p.deletion_threshold {
            let s2 = s1.next_state();
            if g.len() > 1 {
                let idx = (s2.next_output() % (g.len() as u32)) as int;
                (g.remove(idx), s2.next_state())
            } else {
                (g, s2)
            }
        } else if g.len() < p.genome_max_length {
            (g.push(random_gene(s1.next_state())), s1.next_state().advance(5))
        } else {
            (g, s1.next_state())
        }
    } else {
        (g, s.next_state())
    }
}

/// With the insertion-deletion probability, either deletes a random gene
/// (with the deletion share, when more than one is left) or appends a
/// random gene (when the genome is below its maximum length).
pub fn random_insert_deletion(rng: &mut RandomUintGenerator, genome: &mut Genome, params: &Params)
    requires
        old(genome).len() <= u32::MAX,
    ensures
        (final(genome)@, final(rng)@) == inserted_deleted(old(genome)@, old(rng)@, *params),
{
    let ghost s = old(rng)@;
    let u = random_uint(rng);
    if (u as u64) < params.gene_insertion_deletion_threshold {
        let v = random_uint(rng);
        if (v as u64) < params.deletion_threshold {
            if genome.len() > 1 {
                let n = genome.len() as u32;
                let index = random_uint_range(rng, 0, n - 1) as usize;
                genome.remove(index);
            }
        } else if genome.len() < params.genome_max_length as usize {
            let g = make_random_gene(rng);
            genome.push(g);
        }
    }
}

/// The genome `g` and generator state after `n` rounds of
/// `apply_point_mutations`, each of which draws once and, below the
/// threshold `t`, flips a bit.
pub open spec fn point_mutated(g: Seq<Gene>, s: RngState, t: u64, n: nat) -> (Seq<Gene>, RngState)
    decreases n,
{
    if n == 0 {
        (g, s)
    } else {
        let prev = point_mutated(g, s, t, (n - 1) as nat);
        let s1 = prev.1.next_state();
        if prev.1.next_output() < t {
            (bit_flipped(prev.0, s1), s1.advance(bit_flip_draws(s1)))
        } else {
            (prev.0, s1)
        }
    }
}

/// A bit flip keeps the length.
pub proof fn lemma_point_mutated_len(g: Seq<Gene>, s: RngState, t: u64, n: nat)
    requires
        0 < g.len() <= u32::MAX,
    ensures
        point_mutated(g, s, t, n).0.len() == g.len(),
    decreases n,
{
    if n > 0 {
        lemma_point_mutated_len(g, s, t, (n - 1) as nat);
        let prev = point_mutated(g, s, t, (n - 1) as nat);
        let s1 = prev.1.next_state();
        let idx = (s1.next_output() % (prev.0.len() as u32)) as int;
        assert(0 <= idx < prev.0.len());
    }
}

/// Once per gene, with the point mutation probability, flips a bit.
pub fn apply_point_mutations(rng: &mut RandomUintGenerator, genome: &mut Genome, params: &Params)
    requires
        old(genome).len() <= u32::MAX,
    ensures
        (final(genome)@, final(rng)@) == point_mutated(
            old(genome)@,
            old(rng)@,
            params.point_mutation_threshold,
            old(genome)@.len(),
        ),
{
    let ghost g0 = genome@;
    let ghost s0 = rng@;
    let number_of_genes = genome.len();
    let mut i: usize = 0;
    while i < number_of_genes
        invariant
            i <= number_of_genes,
            number_of_genes == g0.len(),
            number_of_genes <= u32::MAX,
            (genome@, rng@) == point_mutated(g0, s0, params.point_mutation_threshold, i as nat),
        decreases number_of_genes - i,
    {
        proof {
            lemma_point_mutated_len(g0, s0, params.point_mutation_threshold, i as nat);
        }
        let u = random_uint(rng);
        if (u as u64) < params.point_mutation_threshold {
            random_bit_flip(rng, genome);
        }
        i = i + 1;
    }
}


/// The parent indices `generate_child_genome` draws from the state `s` for
/// `n` parents: with selection by fitness (and more than one parent) the
/// first in `1..n` and the second below it, else both in `0..n`.
pub open spec fn parent_indices(n: nat, s: RngState, by_fitness: bool) -> (int, int) {
    if by_fitness && n > 1 {
        let p1 = s.next_output() % ((n - 1) as u32) + 1;
        let p2 = s.advance(1).next_output() % (p1 as u32);
        (p1 as int, p2 as int)
    } else {
        (
            (s.next_output() % (n as u32)) as int,
            (s.advance(1).next_output() % (n as u32)) as int,
        )
    }
}

/// `long` with the genes of a random slice of `short` copied over it, at
/// the same positions; two draws from `s` give the slice bounds.
pub open spec fn overlaid(long: Seq<Gene>, short: Seq<Gene>, s: RngState) -> Seq<Gene> {
    let index0 = s.next_output() % (short.len() as u32);
    let index1 = s.advance(1).next_output() % ((short.len() + 1) as u32);
    let start = if index0 < index1 {
        index0
    } else {
        index1
    };
    let end = if index0 < index1 {
        index1
    } else {
        index0
    };
    Seq::new(long.len(), |i: int| if start <= i < end { short[i] } else { long[i] })
}

/// The recombination of the parents `g1` and `g2` from the state `s`, and
/// the state after: the longer parent overlaid with a slice of the
/// shorter, cut to the parents' mean length (an odd total rounds up or
/// down as one draw decides).
pub open spec fn recombined(g1: Seq<Gene>, g2: Seq<Gene>, s: RngState) -> (Seq<Gene>, RngState) {
    let merged = if g1.len() > g2.len() {
        overlaid(g1, g2, s)
    } else {
        overlaid(g2, g1, s)
    };
    let s3 = s.advance(2);
    let sum = g1.len() + g2.len();
    let sum_state: (nat, RngState) = if sum % 2 == 1 {
        (if s3.next_output() % 2 == 1 {
            sum + 1
        } else {
            sum
        }, s3.next_state())
    } else {
        (sum, s3)
    };
    cropped(merged, sum_state.1, sum_state.0 / 2)
}

/// The child genome `generate_child_genome` builds from the parents with
/// the generator in state `s`, and the state after.
pub open spec fn child_genome(parents: Seq<Genome>, s: RngState, p: Params) -> (Seq<Gene>, RngState) {
    if parents.len() == 0 {
        let g = random_genome(s, p.genome_initial_length_min, p.genome_initial_length_max);
        (g, s.advance(1 + 5 * g.len()))
    } else {
        let picks = parent_indices(parents.len(), s, p.choose_parents_by_fitness);
        let g1 = parents[picks.0]@;
        let g2 = parents[picks.1]@;
        let base = if p.sexual_reproduction {
            recombined(g1, g2, s.advance(2))
        } else {
            (g2, s.advance(2))
        };
        let changed = inserted_deleted(base.0, base.1, p);
        point_mutated(changed.0, changed.1, p.point_mutation_threshold, changed.0.len())
    }
}

/// Whether both parents that `generate_child_genome` picks from the state
/// `s` have genes.
pub open spec fn picked_parents_nonempty(parents: Seq<Genome>, s: RngState, p: Params) -> bool {
    let picks = parent_indices(parents.len(), s, p.choose_parents_by_fitness);
    parents[picks.0].len() > 0 && parents[picks.1].len() > 0
}

/// A copy of `g`.
pub fn copy_genome(g: &Genome) -> (r: Genome)
    ensures
        r@ == g@,
{
    let mut r: Genome = Vec::new();
    let mut i: usize = 0;
    while i < g.len()
        invariant
            i <= g.len(),
            r@ == g@.subrange(0, i as int),
        decreases g.len() - i,
    {
        r.push(g[i]);
        i = i + 1;
    }
    assert(r@ =~= g@);
    r
}

/// Copies a random slice of `g_shorter` over `genome` (see `overlaid`).
fn overlay_with_slice_of(rng: &mut RandomUintGenerator, genome: &mut Genome, g_shorter: &Genome)
    requires
        1 <= g_shorter.len() < u32::MAX,
        g_shorter.len() <= old(genome).len(),
    ensures
        final(genome)@ == overlaid(old(genome)@, g_shorter@, old(rng)@),
        final(rng)@ == old(rng)@.advance(2),
{
    let ghost s = old(rng)@;
    let ghost g0 = old(genome)@;
    let n = g_shorter.len() as u32;
    let index0 = random_uint_range(rng, 0, n - 1) as usize;
    let index1 = random_uint_range(rng, 0, n) as usize;
    proof {
        lemma_advance_next(s, 0);
        lemma_advance_next(s, 1);
    }
    let start = if index0 < index1 {
        index0
    } else {
        index1
    };
    let end = if index0 < index1 {
        index1
    } else {
        index0
    };
    let mut i = start;
    while i < end
        invariant
            start <= i <= end <= g_shorter.len() <= g0.len(),
            genome.len() == g0.len(),
            forall|j: int|
                0 <= j < g0.len() ==> #[trigger] genome@[j] == (if start <= j < i {
                    g_shorter@[j]
                } else {
                    g0[j]
                }),
        decreases end - i,
    {
        if i < genome.len() {
            genome.set(i, g_shorter[i]);
        }
        i = i + 1;
    }
    assert(genome@ =~= overlaid(g0, g_shorter@, s));
}

/// Draws the indices of the two parents (see `parent_indices`).
fn pick_parents(rng: &mut RandomUintGenerator, n: u32, by_fitness: bool) -> (r: (usize, usize))
    requires
        n >= 1,
    ensures
        (r.0 as int, r.1 as int) == parent_indices(n as nat, old(rng)@, by_fitness),
        r.0 < n && r.1 < n,
        final(rng)@ == old(rng)@.advance(2),
{
    let ghost s = old(rng)@;
    let by_fit = by_fitness && n > 1;
    let parent1_idx = if by_fit {
        random_uint_range(rng, 1, n - 1)
    } else {
        random_uint_range(rng, 0, n - 1)
    };
    let parent2_idx = if by_fit {
        random_uint_range(rng, 0, parent1_idx - 1)
    } else {
        random_uint_range(rng, 0, n - 1)
    };
    proof {
        lemma_advance_next(s, 0);
        lemma_advance_next(s, 1);
    }
    (parent1_idx as usize, parent2_idx as usize)
}

/// Recombines two parents (see `recombined`).
fn recombine(rng: &mut RandomUintGenerator, g1: &Genome, g2: &Genome) -> (genome: Genome)
    requires
        1 <= g1.len() < u32::MAX,
        1 <= g2.len() < u32::MAX,
    ensures
        (genome@, final(rng)@) == recombined(g1@, g2@, old(rng)@),
        genome.len() < u32::MAX,
{
    let ghost s = old(rng)@;
    let mut genome = if g1.len() > g2.len() {
        let mut new_genome = copy_genome(g1);
        overlay_with_slice_of(rng, &mut new_genome, g2);
        new_genome
    } else {
        let mut new_genome = copy_genome(g2);
        overlay_with_slice_of(rng, &mut new_genome, g1);
        new_genome
    };
    let mut sum: u64 = g1.len() as u64 + g2.len() as u64;
    if sum % 2 != 0 {
        let u = random_uint(rng);
        if u % 2 != 0 {
            sum = sum + 1;
        }
    }
    crop_length(rng, &mut genome, (sum / 2) as usize);
    genome
}

/// A child genome: a random one without parents; otherwise two parents
/// are picked, recombined when reproduction is sexual (else the second
/// parent is copied), and the result undergoes an insertion or deletion
/// and point mutations.
pub fn generate_child_genome(
    rng: &mut RandomUintGenerator,
    parent_genomes: &[Genome],
    params: &Params,
) -> (genome: Genome)
    requires
        parent_genomes.len() <= u32::MAX,
        forall|i: int| 0 <= i < parent_genomes.len() ==> #[trigger] parent_genomes[i].len() < u32::MAX,
        parent_genomes.len() == 0 ==> {
            &&& params.genome_initial_length_min <= params.genome_initial_length_max
            &&& params.genome_initial_length_max - params.genome_initial_length_min < u32::MAX
        },
        parent_genomes.len() > 0 ==> {
            &&& picked_parents_nonempty(parent_genomes@, old(rng)@, *params)
            &&& 1 <= child_genome(parent_genomes@, old(rng)@, *params).0.len()
            &&& child_genome(parent_genomes@, old(rng)@, *params).0.len() <= params.genome_max_length
        },
    ensures
        (genome@, final(rng)@) == child_genome(parent_genomes@, old(rng)@, *params),
{
    if parent_genomes.len() == 0 {
        return make_random_genome(rng, params);
    }
    let n = parent_genomes.len() as u32;
    let picks = pick_parents(rng, n, params.choose_parents_by_fitness);
    let g1 = &parent_genomes[picks.0];
    let g2 = &parent_genomes[picks.1];
    let mut genome = if params.sexual_reproduction {
        recombine(rng, g1, g2)
    } else {
        copy_genome(g2)
    };
    random_insert_deletion(rng, &mut genome, params);
    apply_point_mutations(rng, &mut genome, params);
    genome
}


/// A cut keeps between one gene and the uncut length when the target
/// length is positive.
proof fn lemma_cropped_len(g: Seq<Gene>, s: RngState, length: nat)
    requires
        length > 0,
        g.len() > 0,
    ensures
        1 <= cropped(g, s, length).0.len() <= g.len(),
        cropped(g, s, length).0.len() <= length || cropped(g, s, length).0.len() == g.len(),
{
}

/// With every parent between one gene and the maximum length, the picked
/// parents have genes and the child's length stays between one gene and
/// the maximum.
pub proof fn lemma_child_genome_bounds(parents: Seq<Genome>, s: RngState, p: Params)
    requires
        0 < parents.len() <= u32::MAX,
        p.genome_max_length < u32::MAX,
        forall|i: int|
            0 <= i < parents.len() ==> 1 <= (#[trigger] parents[i]).len() <= p.genome_max_length,
    ensures
        picked_parents_nonempty(parents, s, p),
        1 <= child_genome(parents, s, p).0.len() <= p.genome_max_length,
{
    let n = parents.len();
    let picks = parent_indices(n, s, p.choose_parents_by_fitness);
    assert(0 <= picks.0 < n && 0 <= picks.1 < n);
    let g1 = parents[picks.0]@;
    let g2 = parents[picks.1]@;
    let base = if p.sexual_reproduction {
        recombined(g1, g2, s.advance(2))
    } else {
        (g2, s.advance(2))
    };
    if p.sexual_reproduction {
        let merged = if g1.len() > g2.len() {
            overlaid(g1, g2, s.advance(2))
        } else {
            overlaid(g2, g1, s.advance(2))
        };
        let s3 = s.advance(2).advance(2);
        let sum = g1.len() + g2.len();
        let sum_state: (nat, RngState) = if sum % 2 == 1 {
            (if s3.next_output() % 2 == 1 {
                sum + 1
            } else {
                sum
            }, s3.next_state())
        } else {
            (sum, s3)
        };
        lemma_cropped_len(merged, sum_state.1, sum_state.0 / 2);
    }
    assert(1 <= base.0.len() <= p.genome_max_length);
    let changed = inserted_deleted(base.0, base.1, p);
    assert(1 <= changed.0.len() <= p.genome_max_length);
    lemma_point_mutated_len(changed.0, changed.1, p.point_mutation_threshold, changed.0.len());
}

} // verus!
