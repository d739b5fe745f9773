//! What a video frame shows: the living individuals with a colour derived
//! from their genomes, and the barriers; and the colours themselves.
use vstd::prelude::*;

use crate::basic_types::Coord;
use crate::genome_neurons::{Gene, Genome};
use crate::grid::Grid;
use crate::params::Params;
use crate::peeps::Peeps;

verus! {

/// The contents of one frame.
#[derive(Debug)]
pub struct ImageFrameData {
    pub sim_step: u32,
    pub generation: u32,
    /// Locations of the living individuals, in index order.
    pub indiv_locs: Vec<Coord>,
    /// Their genetic colours, in the same order.
    pub indiv_colors: Vec<u8>,
    pub barrier_locs: Vec<Coord>,
    /// Signal levels by layer, column and row (not filled in).
    pub signal_layers: Vec<Vec<Vec<u8>>>,
}

/// The colour of a genome: eight bits taken from its length and from the
/// types and numbers of its first and last genes; 0 for an empty genome.
pub open spec fn genetic_color(g: Seq<Gene>) -> u8 {
    if g.len() == 0 {
        0
    } else {
        let first = g[0];
        let last = g[g.len() - 1];
        ((g.len() % 2) as u8) | (first.source_type << 1u8) | (last.source_type << 2u8) | (
        first.sink_type << 3u8) | (last.sink_type << 4u8) | ((first.source_num & 1) << 5u8) | ((
        first.sink_num & 1) << 6u8) | ((last.source_num & 1) << 7u8)
    }
}

/// Each bit of a genome's colour comes from one place: bit 0 is the parity
/// of its length, bits 1 and 2 the source types of its first and last
/// genes, bits 3 and 4 their sink types, and bits 5, 6 and 7 the low bits
/// of the first gene's source and sink numbers and of the last gene's
/// source number (for genes whose types are 0 or 1). An empty genome is
/// colour 0.
pub proof fn lemma_genetic_color_bits(g: Seq<Gene>)
    requires
        g.len() > 0 ==> g[0].source_type <= 1 && g[0].sink_type <= 1 && g[g.len() - 1].source_type <= 1
            && g[g.len() - 1].sink_type <= 1,
    ensures
        g.len() == 0 ==> genetic_color(g) == 0,
        g.len() > 0 ==> {
            let c = genetic_color(g);
            let (first, last) = (g[0], g[g.len() - 1]);
            &&& c & 1 == g.len() % 2
            &&& (c >> 1u8) & 1 == first.source_type
            &&& (c >> 2u8) & 1 == last.source_type
            &&& (c >> 3u8) & 1 == first.sink_type
            &&& (c >> 4u8) & 1 == last.sink_type
            &&& (c >> 5u8) & 1 == first.source_num & 1
            &&& (c >> 6u8) & 1 == first.sink_num & 1
            &&& (c >> 7u8) & 1 == last.source_num & 1
        },
{
    if g.len() > 0 {
        let p = (g.len() % 2) as u8;
        let a = g[0].source_type;
        let b = g[g.len() - 1].source_type;
        let d = g[0].sink_type;
        let e = g[g.len() - 1].sink_type;
        let f = g[0].source_num;
        let h = g[0].sink_num;
        let k = g[g.len() - 1].source_num;
        let c = p | (a << 1u8) | (b << 2u8) | (d << 3u8) | (e << 4u8) | ((f & 1) << 5u8) | ((h & 1) << 6u8) | ((k
            & 1) << 7u8);
        assert(c == genetic_color(g));
        assert({
            &&& c & 1 == p
            &&& (c >> 1u8) & 1 == a
            &&& (c >> 2u8) & 1 == b
            &&& (c >> 3u8) & 1 == d
            &&& (c >> 4u8) & 1 == e
            &&& (c >> 5u8) & 1 == f & 1
            &&& (c >> 6u8) & 1 == h & 1
            &&& (c >> 7u8) & 1 == k & 1
        }) by (bit_vector)
            requires
                p <= 1,
                a <= 1,
                b <= 1,
                d <= 1,
                e <= 1,
                c == p | (a << 1u8) | (b << 2u8) | (d << 3u8) | (e << 4u8) | ((f & 1) << 5u8) | ((h & 1) << 6u8) | ((
                k & 1) << 7u8),
        ;
    }
}

/// The colour of a genome (see `genetic_color`).
pub fn make_genetic_color(genome: &Genome) -> (c: u8)
    ensures
        c == genetic_color(genome@),
{
    if genome.len() == 0 {
        return 0;
    }
    let first = genome[0];
    let last = genome[genome.len() - 1];
    ((genome.len() % 2) as u8) | (first.source_type << 1u8) | (last.source_type << 2u8) | (
    first.sink_type << 3u8) | (last.sink_type << 4u8) | ((first.source_num & 1) << 5u8) | ((
    first.sink_num & 1) << 6u8) | ((last.source_num & 1) << 7u8)
}

/// Channels above this are dimmed in a too bright colour.
pub const MAX_COLOR_VAL: u8 = 0xb0;

/// Colours brighter than this are dimmed.
pub const MAX_LUMA_VAL: u8 = 0xb0;

/// The brightness of a colour: `(3 r + 4 g + b) / 8`.
pub open spec fn luma(r: u8, g: u8, b: u8) -> int {
    (3 * r + 4 * g + b) / 8
}

/// A channel of a too bright colour is taken modulo `MAX_COLOR_VAL` when
/// it is above it.
pub open spec fn dimmed(v: u8) -> u8 {
    if v > MAX_COLOR_VAL {
        (v % MAX_COLOR_VAL) as u8
    } else {
        v
    }
}

/// The RGB colour of a genetic colour: red is the colour itself, green its
/// low five bits shifted up by three, blue its low three bits shifted up by
/// five; each channel is dimmed when the brightness exceeds `MAX_LUMA_VAL`.
pub open spec fn color_rgb(c: u8) -> (u8, u8, u8) {
    let r = c;
    let g = ((c & 0x1f) << 3u8) as u8;
    let b = ((c & 7) << 5u8) as u8;
    if luma(r, g, b) > MAX_LUMA_VAL {
        (dimmed(r), dimmed(g), dimmed(b))
    } else {
        (r, g, b)
    }
}

/// The RGB colour shown for a genetic colour (see `color_rgb`).
pub fn genetic_color_to_rgb(color: u8) -> (rgb: (u8, u8, u8))
    ensures
        rgb == color_rgb(color),
{
    let r = color;
    let g: u8 = (color & 0x1f) << 3u8;
    let b: u8 = (color & 7) << 5u8;
    let luma: u16 = (r as u16 + r as u16 + r as u16 + b as u16 + g as u16 + g as u16 + g as u16
        + g as u16) / 8;
    let mut r = r;
    let mut g = g;
    let mut b = b;
    if luma > MAX_LUMA_VAL as u16 {
        if r > MAX_COLOR_VAL {
            r = r % MAX_COLOR_VAL;
        }
        if g > MAX_COLOR_VAL {
            g = g % MAX_COLOR_VAL;
        }
        if b > MAX_COLOR_VAL {
            b = b % MAX_COLOR_VAL;
        }
    }
    (r, g, b)
}

/// The locations and colours of the living individuals among the indices
/// `1..=k` (each taken as a `u16`), in index order.
pub open spec fn living_shown(inds: Seq<crate::indiv::Indiv>, k: int) -> Seq<(Coord, u8)>
    decreases k,
{
    if k <= 0 {
        Seq::empty()
    } else {
        let prev = living_shown(inds, k - 1);
        let index = k as u16;
        if index != 0 && index < inds.len() && inds[index as int].alive {
            prev.push((inds[index as int].loc, genetic_color(inds[index as int].genome@)))
        } else {
            prev
        }
    }
}

/// The contents of the frame of a simulation step: the location and
/// genetic colour of each living individual among the indices
/// `1..=population`, and the barrier locations of the grid.
pub fn collect_frame_data(sim_step: u32, generation: u32, grid: &Grid, peeps: &Peeps, params: &Params) -> (data: ImageFrameData)
    requires
        grid.wf(),
    ensures
        data.sim_step == sim_step,
        data.generation == generation,
        data.indiv_locs@.len() == data.indiv_colors@.len(),
        data.indiv_locs@.len() == living_shown(peeps.individuals@, params.population as int).len(),
        forall|i: int|
            #![trigger data.indiv_locs@[i]]
            0 <= i < data.indiv_locs@.len() ==> (data.indiv_locs@[i], data.indiv_colors@[i])
                == living_shown(peeps.individuals@, params.population as int)[i],
        data.barrier_locs@ == grid.barrier_locations_view(),
        data.signal_layers@.len() == 0,
{
    let mut locs: Vec<Coord> = Vec::new();
    let mut colors: Vec<u8> = Vec::new();
    let mut index: u64 = 1;
    while index <= params.population as u64
        invariant
            1 <= index,
            index <= params.population + 1,
            locs@.len() == colors@.len(),
            locs@.len() == living_shown(peeps.individuals@, index - 1).len(),
            forall|i: int|
                #![trigger locs@[i]]
                0 <= i < locs@.len() ==> (locs@[i], colors@[i]) == living_shown(
                    peeps.individuals@,
                    index - 1,
                )[i],
        decreases params.population + 1 - index,
    {
        let k = index as u16;
        assert(k == index as u16);
        match peeps.get(k) {
            Some(indiv) => {
                if indiv.alive {
                    locs.push(indiv.loc);
                    colors.push(make_genetic_color(&indiv.genome));
                }
            },
            None => {},
        }
        index = index + 1;
    }
    let barriers = grid.get_barrier_locations();
    let mut barrier_locs: Vec<Coord> = Vec::new();
    let mut j: usize = 0;
    while j < barriers.len()
        invariant
            j <= barriers@.len(),
            barrier_locs@ == barriers@.subrange(0, j as int),
        decreases barriers.len() - j,
    {
        barrier_locs.push(barriers[j]);
        j = j + 1;
    }
    ImageFrameData {
        sim_step,
        generation,
        indiv_locs: locs,
        indiv_colors: colors,
        barrier_locs,
        signal_layers: Vec::new(),
    }
}

} // verus!
