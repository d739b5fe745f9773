//! The end of a simulation step: the challenges that act every step,
//! queued deaths and moves, fading signals, and whether to keep a video
//! frame; and the end of a generation.
use vstd::prelude::*;

use crate::basic_types::{distance, distance_between, wrap_i16, Coord};
use crate::grid::Grid;
use crate::indiv::Indiv;
use crate::params::Params;
use crate::peeps::Peeps;
use crate::random::{random_uint, RandomUintGenerator, RngState};
use crate::signals::Signals;
use crate::simulator::{
    CHALLENGE_LOCATION_SEQUENCE, CHALLENGE_RADIOACTIVE_WALLS, CHALLENGE_TOUCH_ANY_WALL,
};

verus! {

/// The column of the radioactive wall at `sim_step`: the west wall in the
/// first half of a generation, the east wall after.
pub open spec fn radioactive_x(sim_step: u32, params: Params) -> int {
    if sim_step < params.steps_per_generation / 2 {
        0
    } else {
        wrap_i16(params.size_x as int - 1)
    }
}

/// The distance of an individual at column `x` from the wall at `wx`.
pub open spec fn wall_distance(x: int, wx: int) -> int {
    if x >= wx {
        x - wx
    } else {
        wx - x
    }
}

/// The deaths queued by the radioactive walls over the individuals with
/// indices 1 to `k` (within the list), with the generator state: an alive
/// individual closer than half the width to the wall dies when a draw
/// falls below the threshold for its distance.
pub open spec fn radioactive_deaths(
    inds: Seq<Indiv>,
    wx: int,
    half_width: int,
    thresholds: Seq<u64>,
    s: RngState,
    k: int,
) -> (Seq<u16>, RngState)
    decreases k,
{
    if k <= 0 {
        (Seq::empty(), s)
    } else {
        let prev = radioactive_deaths(inds, wx, half_width, thresholds, s, k - 1);
        if k < inds.len() && inds[k].alive && wall_distance(inds[k].loc.x as int, wx) < half_width {
            let d = wall_distance(inds[k].loc.x as int, wx);
            let u = prev.1.next_output();
            (
                if u < thresholds[d] {
                    prev.0.push(inds[k].index)
                } else {
                    prev.0
                },
                prev.1.next_state(),
            )
        } else {
            prev
        }
    }
}

/// The radioactive wall is the west column `x == 0` during the first half
/// of a generation's steps and the east column `x == size_x - 1` after;
/// an individual's distance from it is the absolute difference of their
/// columns.
pub proof fn lemma_radioactive_wall_side(sim_step: u32, params: Params)
    requires
        params.size_x <= 32768,
    ensures
        radioactive_x(sim_step, params) == if sim_step < params.steps_per_generation / 2 {
            0
        } else {
            params.size_x - 1
        },
        forall|x: int, wx: int|
            #[trigger] wall_distance(x, wx) >= 0 && (wall_distance(x, wx) == x - wx || wall_distance(x, wx) == wx
                - x),
{
    assert(wrap_i16(params.size_x as int - 1) == params.size_x - 1);
}

/// `index` is the index of a living individual among those numbered 1 to
/// `k` that stands closer than `half_width` columns to the wall at `wx`.
pub open spec fn alive_near_wall(inds: Seq<Indiv>, wx: int, half_width: int, k: int, index: u16) -> bool {
    exists|m: int|
        1 <= m <= k && m < inds.len() && (#[trigger] inds[m]).alive && inds[m].loc.x - wx < half_width && wx
            - inds[m].loc.x < half_width && inds[m].index == index
}

/// The radioactive walls kill only living individuals (with indices 1 to
/// `k`) that stand closer than `half_width` columns to the wall, at most
/// one death per individual.
pub proof fn lemma_radioactive_deaths_near_wall(
    inds: Seq<Indiv>,
    wx: int,
    half_width: int,
    thresholds: Seq<u64>,
    s: RngState,
    k: int,
)
    requires
        0 <= k,
    ensures
        radioactive_deaths(inds, wx, half_width, thresholds, s, k).0.len() <= k,
        forall|j: int|
            0 <= j < radioactive_deaths(inds, wx, half_width, thresholds, s, k).0.len() ==> alive_near_wall(
                inds,
                wx,
                half_width,
                k,
                #[trigger] radioactive_deaths(inds, wx, half_width, thresholds, s, k).0[j],
            ),
    decreases k,
{
    if k > 0 {
        lemma_radioactive_deaths_near_wall(inds, wx, half_width, thresholds, s, k - 1);
        let prev = radioactive_deaths(inds, wx, half_width, thresholds, s, k - 1);
        let r = radioactive_deaths(inds, wx, half_width, thresholds, s, k);
        assert forall|j: int| 0 <= j < r.0.len() implies alive_near_wall(inds, wx, half_width, k, #[trigger] r.0[j]) by {
            if j < prev.0.len() {
                assert(r.0[j] == prev.0[j]);
                assert(alive_near_wall(inds, wx, half_width, k - 1, prev.0[j]));
                let m = choose|m: int|
                    1 <= m <= k - 1 && m < inds.len() && (#[trigger] inds[m]).alive && inds[m].loc.x - wx
                        < half_width && wx - inds[m].loc.x < half_width && inds[m].index == prev.0[j];
                assert(inds[m].alive);
            } else {
                assert(inds[k].alive);
            }
        }
    }
}

/// The radioactive walls act: each alive individual within half the width
/// of the wall dies with the probability (given by its draw threshold in
/// `thresholds`, indexed by distance) for its distance.
pub fn radioactive_walls_step(
    sim_step: u32,
    params: &Params,
    peeps: &mut Peeps,
    rng: &mut RandomUintGenerator,
    thresholds: &[u64],
)
    requires
        params.size_x >= 1,
        params.population < u32::MAX,
        thresholds.len() >= params.size_x / 2,
        forall|i: int|
            1 <= i <= params.population && i < old(peeps).individuals.len() && (#[trigger] old(
                peeps,
            ).individuals@[i]).alive ==> -32767 <= old(peeps).individuals@[i].loc.x - radioactive_x(
                sim_step,
                *params,
            ) <= 32767,
    ensures
        ({
            let r = radioactive_deaths(
                old(peeps).individuals@,
                radioactive_x(sim_step, *params),
                params.size_x as int / 2,
                thresholds@,
                old(rng)@,
                params.population as int,
            );
            &&& final(peeps).death_queue@ == old(peeps).death_queue@ + r.0
            &&& final(rng)@ == r.1
        }),
        final(peeps).individuals@ == old(peeps).individuals@,
        final(peeps).move_queue@ == old(peeps).move_queue@,
{
    let rx: i32 = if sim_step < params.steps_per_generation / 2 {
        0
    } else {
        crate::grid::wrap_u16_to_i16(params.size_x - 1) as i32
    };
    let half: u32 = params.size_x as u32 / 2;
    let ghost inds = peeps.individuals@;
    let ghost q0 = peeps.death_queue@;
    let ghost s0 = rng@;
    let mut index: u32 = 1;
    while index <= params.population
        invariant
            1 <= index <= params.population + 1,
            params.population < u32::MAX,
            rx == radioactive_x(sim_step, *params),
            half == params.size_x / 2,
            thresholds.len() >= half,
            peeps.individuals@ == inds,
            inds == old(peeps).individuals@,
            q0 == old(peeps).death_queue@,
            s0 == old(rng)@,
            peeps.move_queue@ == old(peeps).move_queue@,
            forall|i: int|
                1 <= i <= params.population && i < inds.len() && (#[trigger] inds[i]).alive ==> -32767
                    <= inds[i].loc.x - rx <= 32767,
            ({
                let r = radioactive_deaths(inds, rx as int, half as int, thresholds@, s0, index - 1);
                &&& peeps.death_queue@ == q0 + r.0
                &&& rng@ == r.1
            }),
        decreases params.population + 1 - index,
    {
        let ghost prev = radioactive_deaths(inds, rx as int, half as int, thresholds@, s0, index - 1);
        if (index as usize) < peeps.individuals.len() {
            let alive = peeps.individuals[index as usize].alive;
            if alive {
                let x = peeps.individuals[index as usize].loc.x as i32;
                let dist: i32 = if x >= rx {
                    x - rx
                } else {
                    rx - x
                };
                if (dist as u32) < half {
                    let u = random_uint(rng);
                    if (u as u64) < thresholds[dist as usize] {
                        let target = peeps.individuals[index as usize].index;
                        peeps.death_queue.push(target);
                        assert(peeps.death_queue@ == q0 + prev.0.push(target));
                    }
                }
            }
        }
        index = index + 1;
    }
}

/// On the outer edge of the arena.
pub open spec fn on_arena_edge(loc: Coord, params: Params) -> bool {
    loc.x == 0 || loc.x == wrap_i16(params.size_x as int - 1) || loc.y == 0 || loc.y == wrap_i16(
        params.size_y as int - 1,
    )
}

/// The edge of an arena whose coordinates fit in `i16` is its outer ring:
/// the first and last column (`x == 0`, `x == size_x - 1`) and the first
/// and last row (`y == 0`, `y == size_y - 1`).
pub proof fn lemma_arena_edge_is_outer_ring(params: Params)
    requires
        params.size_x <= 32768,
        params.size_y <= 32768,
    ensures
        forall|loc: Coord|
            #[trigger] on_arena_edge(loc, params) <==> (loc.x == 0 || loc.x == params.size_x - 1 || loc.y
                == 0 || loc.y == params.size_y - 1),
{
    assert(wrap_i16(params.size_x as int - 1) == params.size_x - 1);
    assert(wrap_i16(params.size_y as int - 1) == params.size_y - 1);
}

/// Marks the individuals on the edge of the arena as having touched a
/// wall.
pub fn touch_any_wall_step(params: &Params, peeps: &mut Peeps)
    requires
        params.size_x >= 1,
        params.size_y >= 1,
        params.population < u32::MAX,
    ensures
        final(peeps).individuals.len() == old(peeps).individuals.len(),
        forall|i: int|
            0 <= i < old(peeps).individuals.len() ==> #[trigger] final(peeps).individuals@[i] == if 1
                <= i <= params.population && on_arena_edge(old(peeps).individuals@[i].loc, *params) {
                Indiv { challenge_bits: 1, ..old(peeps).individuals@[i] }
            } else {
                old(peeps).individuals@[i]
            },
        final(peeps).death_queue@ == old(peeps).death_queue@,
        final(peeps).move_queue@ == old(peeps).move_queue@,
        params.size_x <= 32768 && params.size_y <= 32768 ==> forall|i: int|
            1 <= i <= params.population && i < old(peeps).individuals.len() ==> {
                let was = old(peeps).individuals@[i];
                (#[trigger] final(peeps).individuals@[i]).challenge_bits == if was.loc.x == 0 || was.loc.x
                    == params.size_x - 1 || was.loc.y == 0 || was.loc.y == params.size_y - 1 {
                    1
                } else {
                    was.challenge_bits
                }
            },
{
    proof {
        if params.size_x <= 32768 && params.size_y <= 32768 {
            lemma_arena_edge_is_outer_ring(*params);
        }
    }
    let last_x = crate::grid::wrap_u16_to_i16(params.size_x - 1);
    let last_y = crate::grid::wrap_u16_to_i16(params.size_y - 1);
    let ghost inds = peeps.individuals@;
    let mut index: u32 = 1;
    while index <= params.population
        invariant
            1 <= index <= params.population + 1,
            params.population < u32::MAX,
            last_x == wrap_i16(params.size_x as int - 1),
            last_y == wrap_i16(params.size_y as int - 1),
            inds == old(peeps).individuals@,
            peeps.individuals.len() == inds.len(),
            forall|i: int|
                0 <= i < inds.len() ==> #[trigger] peeps.individuals@[i] == if 1 <= i < index
                    && on_arena_edge(inds[i].loc, *params) {
                    Indiv { challenge_bits: 1, ..inds[i] }
                } else {
                    inds[i]
                },
            peeps.death_queue@ == old(peeps).death_queue@,
            peeps.move_queue@ == old(peeps).move_queue@,
        decreases params.population + 1 - index,
    {
        if (index as usize) < peeps.individuals.len() {
            let loc = peeps.individuals[index as usize].loc;
            if loc.x == 0 || loc.x == last_x || loc.y == 0 || loc.y == last_y {
                let mut placeholder = Indiv::new();
                peeps.individuals.set_and_swap(index as usize, &mut placeholder);
                placeholder.challenge_bits = 1;
                peeps.individuals.set_and_swap(index as usize, &mut placeholder);
            }
        }
        index = index + 1;
    }
}

/// Bit `m` of `bits` is set.
pub open spec fn bit_set(bits: u32, m: int) -> bool {
    bits & (1u32 << (m as u32)) != 0
}

/// The challenge bits after the location-sequence test of the first `k`
/// barrier centers: the first center whose bit is not yet set is the
/// next target; reaching it (within distance 9) sets its bit.
pub open spec fn sequence_bits(bits: u32, loc: Coord, centers: Seq<Coord>, k: int) -> u32
    decreases k,
{
    if k <= 0 {
        bits
    } else {
        let n = k - 1;
        let prev = sequence_bits(bits, loc, centers, k - 1);
        if exists|m: int| 0 <= m < n && !#[trigger] bit_set(bits, m) {
            prev
        } else if bits & (1u32 << (n as u32)) == 0 {
            if distance(loc, centers[n]) <= 9 {
                bits | (1u32 << (n as u32))
            } else {
                bits
            }
        } else {
            prev
        }
    }
}

/// The challenge bits after the location-sequence test.
fn next_sequence_bits(bits: u32, loc: Coord, centers: &[Coord]) -> (r: u32)
    requires
        centers.len() <= 32,
    ensures
        r == sequence_bits(bits, loc, centers@, centers.len() as int),
{
    let mut n: usize = 0;
    while n < centers.len()
        invariant
            n <= centers.len() <= 32,
            forall|m: int| 0 <= m < n ==> #[trigger] bit_set(bits, m),
            sequence_bits(bits, loc, centers@, n as int) == bits,
        decreases centers.len() - n,
    {
        let bit: u32 = 1u32 << (n as u32);
        if bits & bit == 0 {
            let d = distance_between(loc, centers[n]);
            let r = if d <= 9 {
                bits | bit
            } else {
                bits
            };
            proof {
                lemma_sequence_bits_after(bits, loc, centers@, n as int, centers.len() as int);
            }
            return r;
        }
        n = n + 1;
    }
    bits
}

/// Once the first unset bit has been found, the later centers change
/// nothing.
proof fn lemma_sequence_bits_after(bits: u32, loc: Coord, centers: Seq<Coord>, n: int, k: int)
    requires
        0 <= n < k,
        forall|m: int| 0 <= m < n ==> #[trigger] bit_set(bits, m),
        bits & (1u32 << (n as u32)) == 0,
        sequence_bits(bits, loc, centers, n) == bits,
    ensures
        sequence_bits(bits, loc, centers, k) == (if distance(loc, centers[n]) <= 9 {
            bits | (1u32 << (n as u32))
        } else {
            bits
        }),
    decreases k,
{
    if k > n + 1 {
        lemma_sequence_bits_after(bits, loc, centers, n, k - 1);
        assert(exists|m: int| 0 <= m < k - 1 && !#[trigger] bit_set(bits, m)) by {
            assert(!bit_set(bits, n));
        }
    } else {
        assert(!exists|m: int| 0 <= m < n && !#[trigger] bit_set(bits, m));
    }
}

/// While every bit below `k` is set, the test of the first `k` centers
/// changes nothing.
proof fn lemma_sequence_bits_all_set(bits: u32, loc: Coord, centers: Seq<Coord>, k: int)
    requires
        forall|m: int| 0 <= m < k ==> #[trigger] bit_set(bits, m),
    ensures
        sequence_bits(bits, loc, centers, k) == bits,
    decreases k,
{
    if k > 0 {
        lemma_sequence_bits_all_set(bits, loc, centers, k - 1);
        assert(bit_set(bits, k - 1));
        assert(!exists|m: int| 0 <= m < k - 1 && !#[trigger] bit_set(bits, m));
    }
}

/// The location-sequence test aims at the first barrier center `n` whose
/// bit is not yet set: an individual within distance 9 of it gets bit `n`
/// set and keeps all others; one farther away keeps its bits. When the
/// bits of all centers are set, nothing changes.
pub proof fn lemma_location_sequence_targets_first_unreached(bits: u32, loc: Coord, centers: Seq<Coord>, n: int)
    requires
        centers.len() <= 32,
    ensures
        (forall|m: int| 0 <= m < centers.len() ==> #[trigger] bit_set(bits, m)) ==> sequence_bits(
            bits,
            loc,
            centers,
            centers.len() as int,
        ) == bits,
        0 <= n < centers.len() && (forall|m: int| 0 <= m < n ==> #[trigger] bit_set(bits, m)) && !bit_set(
            bits,
            n,
        ) ==> sequence_bits(bits, loc, centers, centers.len() as int) == if distance(loc, centers[n]) <= 9 {
            bits | (1u32 << (n as u32))
        } else {
            bits
        },
{
    if forall|m: int| 0 <= m < centers.len() ==> #[trigger] bit_set(bits, m) {
        lemma_sequence_bits_all_set(bits, loc, centers, centers.len() as int);
    }
    if 0 <= n < centers.len() && (forall|m: int| 0 <= m < n ==> #[trigger] bit_set(bits, m)) && !bit_set(bits, n) {
        lemma_sequence_bits_all_set(bits, loc, centers, n);
        lemma_sequence_bits_after(bits, loc, centers, n, centers.len() as int);
    }
}

/// Every individual tests the location sequence (see `sequence_bits`).
pub fn location_sequence_step(params: &Params, peeps: &mut Peeps, grid: &Grid)
    requires
        grid.wf(),
        grid.barrier_centers_view().len() <= 32,
        params.population < u32::MAX,
    ensures
        final(peeps).individuals.len() == old(peeps).individuals.len(),
        forall|i: int|
            0 <= i < old(peeps).individuals.len() ==> #[trigger] final(peeps).individuals@[i] == if 1
                <= i <= params.population {
                Indiv {
                    challenge_bits: sequence_bits(
                        old(peeps).individuals@[i].challenge_bits,
                        old(peeps).individuals@[i].loc,
                        grid.barrier_centers_view(),
                        grid.barrier_centers_view().len() as int,
                    ),
                    ..old(peeps).individuals@[i]
                }
            } else {
                old(peeps).individuals@[i]
            },
        final(peeps).death_queue@ == old(peeps).death_queue@,
        final(peeps).move_queue@ == old(peeps).move_queue@,
{
    let centers = grid.get_barrier_centers();
    let ghost inds = peeps.individuals@;
    let mut index: u32 = 1;
    while index <= params.population
        invariant
            1 <= index <= params.population + 1,
            params.population < u32::MAX,
            centers@ == grid.barrier_centers_view(),
            centers.len() <= 32,
            inds == old(peeps).individuals@,
            peeps.individuals.len() == inds.len(),
            forall|i: int|
                0 <= i < inds.len() ==> #[trigger] peeps.individuals@[i] == if 1 <= i < index {
                    Indiv {
                        challenge_bits: sequence_bits(
                            inds[i].challenge_bits,
                            inds[i].loc,
                            centers@,
                            centers@.len() as int,
                        ),
                        ..inds[i]
                    }
                } else {
                    inds[i]
                },
            peeps.death_queue@ == old(peeps).death_queue@,
            peeps.move_queue@ == old(peeps).move_queue@,
        decreases params.population + 1 - index,
    {
        if (index as usize) < peeps.individuals.len() {
            let mut ind = Indiv::new();
            peeps.individuals.set_and_swap(index as usize, &mut ind);
            ind.challenge_bits = next_sequence_bits(ind.challenge_bits, ind.loc, centers);
            peeps.individuals.set_and_swap(index as usize, &mut ind);
        }
        index = index + 1;
    }
}

/// Whether the video parameters can be evaluated for `generation` (see
/// `video_params_ok`).
pub fn video_params_valid(generation: u32, params: &Params) -> (b: bool)
    ensures
        b == video_params_ok(generation, *params),
{
    if !params.save_video {
        return true;
    }
    if params.video_stride == 0 {
        return false;
    }
    if generation % params.video_stride != 0 && generation > params.video_save_first_frames
        && generation >= params.parameter_change_generation_number {
        (params.parameter_change_generation_number as u64 + params.video_save_first_frames as u64)
            <= u32::MAX as u64
    } else {
        true
    }
}

/// Whether generation `generation` is recorded on video: every
/// `video_stride`-th generation, the first ones, and the first ones after
/// a parameter change.
pub open spec fn video_generation(generation: u32, params: Params) -> bool {
    params.save_video && (generation % params.video_stride == 0 || generation
        <= params.video_save_first_frames || (generation >= params.parameter_change_generation_number
        && generation <= params.parameter_change_generation_number
        + params.video_save_first_frames))
}

/// The parameters' video settings can be evaluated for `generation`.
pub open spec fn video_params_ok(generation: u32, params: Params) -> bool {
    params.save_video ==> {
        &&& params.video_stride > 0
        &&& (generation % params.video_stride != 0 && generation > params.video_save_first_frames
            && generation >= params.parameter_change_generation_number)
            ==> params.parameter_change_generation_number + params.video_save_first_frames
            <= u32::MAX
    }
}

/// Whether generation `generation` is recorded on video (see
/// `video_generation`).
pub fn should_save_video(generation: u32, params: &Params) -> (b: bool)
    requires
        video_params_ok(generation, *params),
    ensures
        b == video_generation(generation, *params),
{
    params.save_video && (generation % params.video_stride == 0 || generation
        <= params.video_save_first_frames || (generation >= params.parameter_change_generation_number
        && generation <= params.parameter_change_generation_number
        + params.video_save_first_frames))
}

/// Ends a simulation step: the challenges that act every step, the
/// queued deaths and then moves, one fading of signal layer 0. Returns
/// whether to produce a video frame (a recorded generation, or a display).
pub fn end_of_sim_step(
    sim_step: u32,
    generation: u32,
    params: &Params,
    peeps: &mut Peeps,
    grid: &mut Grid,
    signals: &mut Signals,
    rng: &mut RandomUintGenerator,
    death_thresholds: &[u64],
) -> (frame: bool)
    requires
        old(grid).wf(),
        old(signals).wf(),
        params.size_x >= 1,
        params.size_y >= 1,
        params.population < u32::MAX,
        video_params_ok(generation, *params),
        params.challenge == CHALLENGE_RADIOACTIVE_WALLS ==> {
            &&& death_thresholds.len() >= params.size_x / 2
            &&& forall|i: int|
                1 <= i <= params.population && i < old(peeps).individuals.len() && (#[trigger] old(
                    peeps,
                ).individuals@[i]).alive ==> -32767 <= old(peeps).individuals@[i].loc.x
                    - radioactive_x(sim_step, *params) <= 32767
        },
        params.challenge == CHALLENGE_LOCATION_SEQUENCE ==> old(grid).barrier_centers_view().len() <= 32,
        forall|j: int|
            0 <= j < old(peeps).death_queue@.len() ==> (#[trigger] old(peeps).death_queue@[j])
                < old(peeps).individuals.len(),
        forall|j: int|
            0 <= j < old(peeps).move_queue@.len() ==> (#[trigger] old(peeps).move_queue@[j]).0
                < old(peeps).individuals.len(),
        forall|i: int|
            1 <= i <= params.population && i < old(peeps).individuals.len() ==> (#[trigger] old(
                peeps,
            ).individuals@[i]).index < old(peeps).individuals.len(),
    ensures
        frame == (video_generation(generation, *params) || params.display_enabled),
        final(grid).wf(),
        final(signals).wf(),
        final(peeps).death_queue@.len() == 0,
        final(peeps).move_queue@.len() == 0,
{
    if params.challenge == CHALLENGE_RADIOACTIVE_WALLS {
        radioactive_walls_step(sim_step, params, peeps, rng, death_thresholds);
        proof {
            lemma_radioactive_deaths_valid(
                old(peeps).individuals@,
                radioactive_x(sim_step, *params),
                params.size_x as int / 2,
                death_thresholds@,
                old(rng)@,
                params.population as int,
            );
        }
    }
    if params.challenge == CHALLENGE_TOUCH_ANY_WALL {
        touch_any_wall_step(params, peeps);
    }
    if params.challenge == CHALLENGE_LOCATION_SEQUENCE {
        location_sequence_step(params, peeps, grid);
    }
    peeps.drain_death_queue(grid);
    peeps.drain_move_queue(grid);
    signals.fade(0, params.size_x, params.size_y);
    let save = should_save_video(generation, params);
    save || params.display_enabled
}

/// The radioactive deaths name valid individuals.
proof fn lemma_radioactive_deaths_valid(
    inds: Seq<Indiv>,
    wx: int,
    half_width: int,
    thresholds: Seq<u64>,
    s: RngState,
    k: int,
)
    requires
        forall|i: int| 1 <= i <= k && i < inds.len() ==> (#[trigger] inds[i]).index < inds.len(),
    ensures
        forall|j: int|
            0 <= j < radioactive_deaths(inds, wx, half_width, thresholds, s, k).0.len() ==> (
            #[trigger] radioactive_deaths(inds, wx, half_width, thresholds, s, k).0[j]) < inds.len(),
    decreases k,
{
    if k > 0 {
        lemma_radioactive_deaths_valid(inds, wx, half_width, thresholds, s, k - 1);
        let prev = radioactive_deaths(inds, wx, half_width, thresholds, s, k - 1);
        let cur = radioactive_deaths(inds, wx, half_width, thresholds, s, k);
        assert forall|j: int| 0 <= j < cur.0.len() implies (#[trigger] cur.0[j]) < inds.len() by {
            if j < prev.0.len() {
                assert(cur.0[j] == prev.0[j]);
            } else {
                assert(cur.0[j] == inds[k].index);
            }
        }
    }
}

/// What the end of a generation does: record the generation's video,
/// and update the graph log.
pub struct GenerationEnd {
    pub save_video: bool,
    pub update_graph_log: bool,
}

/// The decisions at the end of generation `generation`: the video is
/// saved for recorded generations (see `video_generation`), and the
/// graph log is updated after generation 1 and every
/// `update_graph_log_stride`-th generation, when enabled.
pub fn end_of_generation(generation: u32, params: &Params) -> (r: GenerationEnd)
    requires
        video_params_ok(generation, *params),
        params.update_graph_log && generation != 1 ==> params.update_graph_log_stride > 0,
    ensures
        r.save_video == video_generation(generation, *params),
        r.update_graph_log == (params.update_graph_log && (generation == 1 || generation
            % params.update_graph_log_stride == 0)),
{
    let save_video = should_save_video(generation, params);
    let update_graph_log = params.update_graph_log && (generation == 1 || generation
        % params.update_graph_log_stride == 0);
    GenerationEnd { save_video, update_graph_log }
}

} // verus!
