//! One individual: its place in the world, its genome and the brain wired
//! from it.
use vstd::prelude::*;

use crate::basic_types::{random8_choice, Compass, Coord, Dir};
use crate::genome_neurons::Genome;
use crate::neural_net::{
    create_wiring_from_genome, first_keys, merged_connection, renumbered_list, survivor_neurons,
    wired_genes, NeuralNet,
};
use crate::params::Params;
use crate::random::RandomUintGenerator;

verus! {

/// An individual. Index 0 is never used by a living individual.
pub struct Indiv {
    pub alive: bool,
    pub index: u16,
    pub loc: Coord,
    pub birth_loc: Coord,
    pub age: u32,
    pub genome: Genome,
    pub nnet: NeuralNet,
    /// Period of the oscillator sensor, in simulation steps.
    pub osc_period: u32,
    /// Reach of the long forward probes.
    pub long_probe_dist: u32,
    pub last_move_dir: Dir,
    /// Set when the individual accomplishes a challenge's task.
    pub challenge_bits: u32,
}

/// The brain of `nnet` is the one wired from `genome` under `params`.
pub open spec fn wired_from(nnet: NeuralNet, genome: Seq<crate::genome_neurons::Gene>, params: Params) -> bool {
    let e = wired_genes(genome, params.max_number_neurons);
    let cs = nnet.connections@;
    &&& nnet.neurons@ == survivor_neurons(renumbered_list(genome, params.max_number_neurons), 256)
    &&& if params.allow_duplicate_connections {
        &&& cs.len() == e.len()
        &&& forall|i: int|
            0 <= i < e.len() ==> {
                &&& (#[trigger] cs[i]).dendrite_id < first_keys(e).len()
                &&& cs[i] == crate::neural_net::connection_of(e[i], cs[i].dendrite_id)
                &&& first_keys(e)[cs[i].dendrite_id as int] == crate::neural_net::key_of(e[i])
            }
    } else {
        &&& cs.len() == first_keys(e).len()
        &&& forall|j: int| 0 <= j < cs.len() ==> #[trigger] cs[j] == merged_connection(e, j)
    }
}

/// The conditions under which a genome can be wired.
pub open spec fn wirable(genome: Seq<crate::genome_neurons::Gene>, params: Params) -> bool {
    &&& params.max_number_neurons > 0
    &&& genome.len() <= u32::MAX
    &&& first_keys(wired_genes(genome, params.max_number_neurons)).len() <= 65535
}

impl Indiv {
    /// A dead individual with an empty genome and brain.
    pub fn new() -> (i: Indiv)
        ensures
            !i.alive,
            i.index == 0,
            i.loc == (Coord { x: 0, y: 0 }),
            i.birth_loc == (Coord { x: 0, y: 0 }),
            i.age == 0,
            i.genome@.len() == 0,
            i.nnet.connections@.len() == 0,
            i.nnet.neurons@.len() == 0,
            i.osc_period == 34,
            i.long_probe_dist == 0,
            i.last_move_dir.dir9 == Compass::Center,
            i.challenge_bits == 0,
    {
        Indiv {
            alive: false,
            index: 0,
            loc: Coord { x: 0, y: 0 },
            birth_loc: Coord { x: 0, y: 0 },
            age: 0,
            genome: Vec::new(),
            nnet: NeuralNet { connections: Vec::new(), neurons: Vec::new() },
            osc_period: 34,
            long_probe_dist: 0,
            last_move_dir: Dir { dir9: Compass::Center },
            challenge_bits: 0,
        }
    }

    /// Brings the individual to life at `loc` with `genome`, facing a
    /// random direction drawn from `rng`, and wires its brain.
    pub fn initialize(
        &mut self,
        index: u16,
        loc: Coord,
        genome: Genome,
        params: &Params,
        rng: &mut RandomUintGenerator,
    )
        requires
            wirable(genome@, *params),
        ensures
            final(self).alive,
            final(self).index == index,
            final(self).loc == loc,
            final(self).birth_loc == loc,
            final(self).age == 0,
            final(self).osc_period == 34,
            final(self).long_probe_dist == params.long_probe_distance,
            final(self).challenge_bits == 0,
            final(self).genome@ == genome@,
            final(self).last_move_dir.dir9 == random8_choice((old(rng)@.next_output() % 8) as int),
            final(rng)@ == old(rng)@.next_state(),
            wired_from(final(self).nnet, genome@, *params),
    {
        self.index = index;
        self.loc = loc;
        self.birth_loc = loc;
        self.age = 0;
        self.osc_period = 34;
        self.alive = true;
        self.last_move_dir = Dir::random8(rng);
        self.long_probe_dist = params.long_probe_distance;
        self.challenge_bits = 0;
        self.genome = genome;
        self.create_wiring_from_genome(params);
    }

    /// Rewires the brain from the genome.
    pub fn create_wiring_from_genome(&mut self, params: &Params)
        requires
            wirable(old(self).genome@, *params),
        ensures
            wired_from(final(self).nnet, old(self).genome@, *params),
            final(self).genome == old(self).genome,
            final(self).alive == old(self).alive,
            final(self).index == old(self).index,
            final(self).loc == old(self).loc,
            final(self).birth_loc == old(self).birth_loc,
            final(self).age == old(self).age,
            final(self).osc_period == old(self).osc_period,
            final(self).long_probe_dist == old(self).long_probe_dist,
            final(self).last_move_dir == old(self).last_move_dir,
            final(self).challenge_bits == old(self).challenge_bits,
    {
        create_wiring_from_genome(&mut self.nnet, &self.genome, params);
    }
}

impl Default for Indiv {
    fn default() -> (i: Indiv)
        ensures
            !i.alive,
            i.index == 0,
            i.genome@.len() == 0,
            i.nnet.connections@.len() == 0,
            i.nnet.neurons@.len() == 0,
    {
        Indiv::new()
    }
}


/// A genome of at most 65535 genes can be wired under any positive
/// neuron limit.
pub proof fn lemma_short_genome_wirable(genome: Seq<crate::genome_neurons::Gene>, params: Params)
    requires
        params.max_number_neurons > 0,
        genome.len() <= 65535,
    ensures
        wirable(genome, params),
{
    let conns = renumbered_list(genome, params.max_number_neurons);
    crate::neural_net::lemma_pass_lengths(conns, conns.len() as int);
    crate::neural_net::lemma_first_keys_distinct(wired_genes(genome, params.max_number_neurons));
}

} // verus!
