//! Starting a generation: a fresh arena populated with random genomes or
//! with children of the previous generation's chosen parents.
use vstd::prelude::*;

use crate::basic_types::{wrap_i16, Coord};
use crate::create_barrier::{barrier_fits, barrier_lists, create_barrier};
use crate::genome_neurons::{
    child_genome, copy_genome, generate_child_genome, lemma_child_genome_bounds, make_random_genome,
    random_genome, Genome,
};
use crate::grid::{
    empty_cells, lemma_empty_is_open, lemma_fill_one_cell, lemma_full_has_no_empty_cells, open_cells, Grid, BARRIER,
    EMPTY,
};
use crate::indiv::{lemma_short_genome_wirable, wired_from, Indiv};
use crate::params::Params;
use crate::peeps::{cells_of, cells_set, consistent, CellsView, Peeps};
use crate::random::{RandomUintGenerator, RngState};
use crate::signals::Signals;

verus! {

/// The parameters allow a generation to be started: a nonempty arena that
/// the barrier fits into, individuals numbered by a `u16` index, and
/// genomes no longer than the range of the `u16` dendrite counter.
///
/// Wiring a brain gives each distinct connection of a genome the next
/// value of a `u16` counter, which overflows at connection number
/// `u16::MAX + 1`. How many distinct connections a new genome holds depends
/// on the genes that are drawn for it, so no condition on the parameters
/// alone decides whether a longer genome stays within the counter; a genome
/// of at most `u16::MAX` genes always does, and that is the bound asked of
/// the lengths here.
pub open spec fn generation_params_ok(params: Params) -> bool {
    &&& params.size_x >= 1
    &&& params.size_y >= 1
    &&& params.population <= u16::MAX
    &&& params.max_number_neurons > 0
    &&& params.genome_initial_length_min <= params.genome_initial_length_max
    &&& params.genome_initial_length_max <= u16::MAX
    &&& params.genome_max_length <= u16::MAX
    &&& barrier_fits(params.barrier_type, params.size_x as int, params.size_y as int)
}

/// Whether the parameters allow a generation to be populated (see
/// `generation_params_ok`).
pub fn generation_params_valid(params: &Params) -> (b: bool)
    ensures
        b == generation_params_ok(*params),
{
    let sx = params.size_x as i64;
    let sy = params.size_y as i64;
    let t = params.barrier_type;
    let w = sy / 2 + sy / 4;
    let wrapped: i64 = if w % 65536 >= 32768 {
        w % 65536 - 65536
    } else {
        w % 65536
    };
    assert(wrapped == wrap_i16(sy / 2 + sy / 4));
    let fits = t <= 6 && (t != 1 || (sx / 2 < 32767 && sy / 4 + sy / 2 <= 32767)) && (t != 2 || (sx
        >= 40 && sy / 2 >= 40 && sx - 20 < 32767 && sy / 2 - 20 + sy / 2 <= 32767)) && (t != 3 || (sx
        / 4 + sx / 2 + 1 <= 32767 && sy / 4 - (sx / 3) / 2 + sy / 2 + sx / 3 <= 32767 && sy / 2 - (sx
        / 3) / 2 + sx / 3 <= 32767)) && (t != 4 || (sx / 4 + sx / 2 <= 32767 && wrapped + 2 <= 32767))
        && (t != 5 || (sx >= 12 && sy >= 12));
    params.size_x >= 1 && params.size_y >= 1 && params.population < 65536 && params.max_number_neurons
        > 0 && params.genome_initial_length_min <= params.genome_initial_length_max
        && params.genome_initial_length_max <= 65535 && params.genome_max_length <= 65535 && fits
}

/// The state of a populated arena: every index from 1 to the population
/// (within the list) holds a living individual with that index, inside
/// the arena, wired from its genome, whose genome satisfies `genome_ok`.
pub open spec fn populated(peeps: &Peeps, params: Params, upto: int, genome_ok: spec_fn(Seq<crate::genome_neurons::Gene>) -> bool) -> bool {
    forall|i: int|
        1 <= i <= upto && i < peeps.individuals.len() ==> {
            let ind = #[trigger] peeps.individuals@[i];
            &&& ind.alive
            &&& ind.index == i
            &&& ind.age == 0
            &&& ind.birth_loc == ind.loc
            &&& exists|vx: int, vy: int|
                0 <= vx < params.size_x && 0 <= vy < params.size_y && ind.loc.x == wrap_i16(vx)
                    && ind.loc.y == wrap_i16(vy)
            &&& wired_from(ind.nnet, ind.genome@, params)
            &&& genome_ok(ind.genome@)
        }
}

/// A genome `make_random_genome` can draw.
pub open spec fn is_random_genome(params: Params) -> spec_fn(Seq<crate::genome_neurons::Gene>) -> bool {
    |g: Seq<crate::genome_neurons::Gene>|
        exists|s: RngState|
            g == #[trigger] random_genome(
                s,
                params.genome_initial_length_min,
                params.genome_initial_length_max,
            )
}

/// A genome `generate_child_genome` can build from `parents`.
pub open spec fn is_child_genome(parents: Seq<Genome>, params: Params) -> spec_fn(Seq<crate::genome_neurons::Gene>) -> bool {
    |g: Seq<crate::genome_neurons::Gene>| exists|s: RngState| g == (#[trigger] child_genome(parents, s, params)).0
}

/// The arena has no empty location left.
pub open spec fn arena_full(grid: &Grid) -> bool {
    forall|x: int, y: int| grid.contains(x, y) ==> #[trigger] grid.value_at(x, y) != EMPTY
}

/// The arena has the size the parameters give, which coordinates can
/// hold, and there is one individual per index from 0 to the population.
pub open spec fn placement_fits(grid: &Grid, peeps: &Peeps, params: Params) -> bool {
    &&& grid.width() == params.size_x
    &&& grid.height() == params.size_y
    &&& params.size_x <= 32767
    &&& params.size_y <= 32767
    &&& peeps.individuals.len() == params.population + 1
    &&& params.population < BARRIER
}

/// The arena's barrier cells are exactly its recorded barrier locations
/// that lie inside it.
pub open spec fn barrier_cells(grid: &Grid) -> bool {
    forall|x: int, y: int|
        grid.contains(x, y) ==> (#[trigger] grid.value_at(x, y) == BARRIER <==> exists|i: int|
            0 <= i < grid.barrier_locations_view().len() && grid.barrier_locations_view()[i].x == x
                && grid.barrier_locations_view()[i].y == y)
}

/// Every cell of the arena is empty or a barrier.
pub open spec fn only_barriers(grid: &Grid) -> bool {
    forall|x: int, y: int| #[trigger] grid.value_at(x, y) == EMPTY || grid.value_at(x, y) == BARRIER
}

proof fn lemma_only_barriers_consistent(inds: Seq<Indiv>, grid: &Grid)
    requires
        only_barriers(grid),
        inds.len() == 1,
    ensures
        consistent(inds, cells_of(grid)),
{
    let c = cells_of(grid);
    assert forall|x: int, y: int|
        0 <= x < c.width && 0 <= y < c.height && #[trigger] (c.cells)(x, y) != EMPTY && (c.cells)(x, y)
            != BARRIER implies false by {
        assert(grid.value_at(x, y) == EMPTY || grid.value_at(x, y) == BARRIER);
    }
}

/// Placing the next individual on an empty cell inside the arena keeps
/// the placed ones and the cells in agreement.
proof fn lemma_place_keeps_consistency(inds: Seq<Indiv>, c: CellsView, ind: Indiv)
    requires
        consistent(inds, c),
        1 <= inds.len() <= 0xffff,
        ind.alive,
        ind.index == inds.len(),
        0 <= ind.loc.x < c.width,
        0 <= ind.loc.y < c.height,
        (c.cells)(ind.loc.x as int, ind.loc.y as int) == EMPTY,
    ensures
        consistent(inds.push(ind), cells_set(c, ind.loc, ind.index)),
{
    let n = inds.push(ind);
    let i = inds.len() as int;
    let loc = ind.loc;
    let c2 = cells_set(c, loc, ind.index);
    assert forall|j: int| 1 <= j < n.len() && #[trigger] n[j].alive implies {
        &&& n[j].index == j
        &&& 0 <= n[j].loc.x < c2.width
        &&& 0 <= n[j].loc.y < c2.height
        &&& (c2.cells)(n[j].loc.x as int, n[j].loc.y as int) == j
    } by {
        if j != i {
            assert(n[j] == inds[j]);
            assert(inds[j].alive);
            let l = inds[j].loc;
            assert((c.cells)(l.x as int, l.y as int) == j);
        }
    }
    assert forall|x: int, y: int|
        0 <= x < c2.width && 0 <= y < c2.height && #[trigger] (c2.cells)(x, y) != EMPTY && (c2.cells)(x, y)
            != BARRIER implies {
        let k = (c2.cells)(x, y) as int;
        &&& 1 <= k < n.len()
        &&& n[k].alive
        &&& n[k].loc.x == x
        &&& n[k].loc.y == y
    } by {
        if !(x == loc.x && y == loc.y) {
            assert((c2.cells)(x, y) == (c.cells)(x, y));
            let k = (c.cells)(x, y) as int;
            assert(1 <= k < inds.len());
            assert(n[k] == inds[k]);
        }
    }
}

proof fn lemma_placement_step(
    before: Seq<Indiv>,
    g0: Grid,
    g1: Grid,
    after: Seq<Indiv>,
    i: int,
    loc: Coord,
    params: Params,
)
    requires
        1 <= i < before.len() <= 0x10000,
        after == before.update(i, after[i]),
        after[i].alive,
        after[i].index == i,
        after[i].loc == loc,
        g1.same_except(&g0, loc.x as int, loc.y as int, i as u16),
        g0.width() == params.size_x <= 32767,
        g0.height() == params.size_y <= 32767,
        exists|vx: int, vy: int|
            0 <= vx < params.size_x && 0 <= vy < params.size_y && loc.x == wrap_i16(vx) && loc.y
                == wrap_i16(vy),
        g0.value_at(loc.x as int, loc.y as int) == EMPTY || forall|x: int, y: int|
            0 <= x < wrap_i16(params.size_x as int) && 0 <= y < wrap_i16(params.size_y as int)
                ==> #[trigger] g0.value_at(x, y) != EMPTY,
        i < BARRIER,
        (consistent(before.take(i), cells_of(&g0)) && barrier_cells(&g0)) || arena_full(&g0),
    ensures
        (consistent(after.take(i + 1), cells_of(&g1)) && barrier_cells(&g1)) || arena_full(&g1),
        g0.contains(loc.x as int, loc.y as int),
        !arena_full(&g0) ==> g0.value_at(loc.x as int, loc.y as int) == EMPTY && consistent(
            after.take(i + 1),
            cells_of(&g1),
        ) && barrier_cells(&g1),
{
    let (vx, vy) = choose|vx: int, vy: int|
        0 <= vx < params.size_x && 0 <= vy < params.size_y && loc.x == wrap_i16(vx) && loc.y == wrap_i16(vy);
    assert(loc.x == vx && loc.y == vy);
    assert(wrap_i16(params.size_x as int) == params.size_x);
    assert(wrap_i16(params.size_y as int) == params.size_y);
    if arena_full(&g0) || g0.value_at(loc.x as int, loc.y as int) != EMPTY {
        assert forall|x: int, y: int| g1.contains(x, y) implies #[trigger] g1.value_at(x, y) != EMPTY by {
            assert(g0.contains(x, y));
            assert(g0.value_at(x, y) != EMPTY);
        }
    } else {
        let c0 = cells_of(&g0);
        let prefix = before.take(i);
        assert(prefix.len() == i);
        lemma_place_keeps_consistency(prefix, c0, after[i]);
        assert(after.take(i + 1) =~= prefix.push(after[i]));
        assert(cells_of(&g1).cells =~= cells_set(c0, loc, i as u16).cells);
        assert(cells_of(&g1) == cells_set(c0, loc, i as u16));
        assert forall|x: int, y: int| g1.contains(x, y) implies (#[trigger] g1.value_at(x, y) == BARRIER
            <==> exists|k: int|
            0 <= k < g1.barrier_locations_view().len() && g1.barrier_locations_view()[k].x == x
                && g1.barrier_locations_view()[k].y == y) by {
            assert(g0.contains(x, y));
            if x == loc.x && y == loc.y {
                assert(g0.value_at(x, y) == EMPTY);
            }
        }
    }
}

/// Clears the arena, draws the barrier, clears the signals, and places
/// the population: each index from 1 gets an empty location and a genome
/// from the parents (random ones when there are none).
fn populate(
    grid: &mut Grid,
    signals: &mut Signals,
    peeps: &mut Peeps,
    params: &Params,
    rng: &mut RandomUintGenerator,
    parent_genomes: &[Genome],
)
    requires
        old(grid).wf(),
        old(signals).wf(),
        generation_params_ok(*params),
        parent_genomes.len() <= u32::MAX,
        forall|i: int|
            0 <= i < parent_genomes.len() ==> 1 <= (#[trigger] parent_genomes[i]).len()
                <= params.genome_max_length,
    ensures
        final(grid).wf(),
        final(grid).width() == old(grid).width(),
        final(grid).height() == old(grid).height(),
        final(signals).wf(),
        final(signals).same_shape(&*old(signals)),
        forall|l: int, x: int, y: int| #[trigger] final(signals).magnitude_at(l, x, y) == 0,
        final(peeps).individuals.len() == old(peeps).individuals.len(),
        forall|i: int|
            params.population < i < old(peeps).individuals.len() ==> #[trigger] final(peeps).individuals@[i]
                == old(peeps).individuals@[i],
        parent_genomes.len() == 0 ==> populated(
            &*final(peeps),
            *params,
            params.population as int,
            is_random_genome(*params),
        ),
        parent_genomes.len() > 0 ==> populated(
            &*final(peeps),
            *params,
            params.population as int,
            is_child_genome(parent_genomes@, *params),
        ),
        final(peeps).death_queue@ == old(peeps).death_queue@,
        final(peeps).move_queue@ == old(peeps).move_queue@,
        barrier_lists(
            params.barrier_type,
            params.size_x as int,
            params.size_y as int,
            old(rng)@,
            final(grid).barrier_locations_view(),
            final(grid).barrier_centers_view(),
        ),
        placement_fits(&*old(grid), &*old(peeps), *params) ==> (consistent(
            final(peeps).individuals@,
            cells_of(&*final(grid)),
        ) && barrier_cells(&*final(grid))) || (arena_full(&*final(grid)) && open_cells(*final(grid)) < params.population),
        placement_fits(&*old(grid), &*old(peeps), *params) && open_cells(*final(grid)) >= params.population
            ==> consistent(final(peeps).individuals@, cells_of(&*final(grid))) && barrier_cells(&*final(grid)),
{
    let ghost fits = placement_fits(&*old(grid), &*old(peeps), *params);
    let ghost gen_ok = if parent_genomes.len() == 0 {
        is_random_genome(*params)
    } else {
        is_child_genome(parent_genomes@, *params)
    };
    grid.zero_fill();
    let ghost cleared = *grid;
    let ghost s0 = rng@;
    create_barrier(grid, params.barrier_type, params, rng);
    let ghost barriers = *grid;
    proof {
        assert forall|x: int, y: int| #[trigger] grid.value_at(x, y) == EMPTY || grid.value_at(x, y) == BARRIER by {
            assert(cleared.value_at(x, y) == EMPTY);
        }
        assert forall|x: int, y: int| grid.contains(x, y) implies (#[trigger] grid.value_at(x, y) == BARRIER
            <==> exists|k: int|
            0 <= k < grid.barrier_locations_view().len() && grid.barrier_locations_view()[k].x == x
                && grid.barrier_locations_view()[k].y == y) by {
            assert(cleared.value_at(x, y) == EMPTY);
        }
        assert(barrier_lists(
            params.barrier_type,
            params.size_x as int,
            params.size_y as int,
            s0,
            grid.barrier_locations_view(),
            grid.barrier_centers_view(),
        ));
        lemma_empty_is_open(*grid);
        if fits {
            assert(peeps.individuals@.take(1).len() == 1);
            lemma_only_barriers_consistent(peeps.individuals@.take(1), &*grid);
        }
    }
    signals.zero_fill();
    let mut index: u32 = 1;
    while index <= params.population
        invariant
            1 <= index <= params.population + 1,
            grid.wf(),
            grid.width() == old(grid).width(),
            grid.height() == old(grid).height(),
            generation_params_ok(*params),
            parent_genomes.len() <= u32::MAX,
            forall|i: int|
                0 <= i < parent_genomes.len() ==> 1 <= (#[trigger] parent_genomes[i]).len()
                    <= params.genome_max_length,
            gen_ok == (if parent_genomes.len() == 0 {
                is_random_genome(*params)
            } else {
                is_child_genome(parent_genomes@, *params)
            }),
            peeps.individuals.len() == old(peeps).individuals.len(),
            forall|i: int|
                index <= i < old(peeps).individuals.len() ==> #[trigger] peeps.individuals@[i]
                    == old(peeps).individuals@[i],
            populated(&*peeps, *params, index - 1, gen_ok),
            peeps.death_queue@ == old(peeps).death_queue@,
            peeps.move_queue@ == old(peeps).move_queue@,
            fits == placement_fits(&*old(grid), &*old(peeps), *params),
            fits ==> (consistent(peeps.individuals@.take(index as int), cells_of(&*grid)) && barrier_cells(
                &*grid,
            )) || arena_full(&*grid),
            open_cells(*grid) == open_cells(barriers),
            fits && open_cells(barriers) >= params.population ==> consistent(
                peeps.individuals@.take(index as int),
                cells_of(&*grid),
            ) && barrier_cells(&*grid) && empty_cells(*grid) + (index - 1) == open_cells(barriers),
            s0 == old(rng)@,
            grid.barrier_locations_view() == barriers.barrier_locations_view(),
            grid.barrier_centers_view() == barriers.barrier_centers_view(),
            barrier_lists(
                params.barrier_type,
                params.size_x as int,
                params.size_y as int,
                s0,
                barriers.barrier_locations_view(),
                barriers.barrier_centers_view(),
            ),
        decreases params.population + 1 - index,
    {
        let loc = grid.find_empty_location(params, rng);
        let ghost s_g = rng@;
        let genome = if parent_genomes.len() == 0 {
            make_random_genome(rng, params)
        } else {
            proof {
                lemma_child_genome_bounds(parent_genomes@, rng@, *params);
            }
            generate_child_genome(rng, parent_genomes, params)
        };
        proof {
            if parent_genomes.len() == 0 {
                assert(genome@ == random_genome(
                    s_g,
                    params.genome_initial_length_min,
                    params.genome_initial_length_max,
                ));
            } else {
                lemma_child_genome_bounds(parent_genomes@, s_g, *params);
                assert(genome@ == child_genome(parent_genomes@, s_g, *params).0);
            }
            assert(gen_ok(genome@));
            lemma_short_genome_wirable(genome@, *params);
        }
        let idx = index as u16;
        if (index as usize) < peeps.individuals.len() {
            let ghost g = genome@;
            let ghost before = peeps.individuals@;
            let ghost grid0 = *grid;
            let mut ind = Indiv::new();
            ind.initialize(idx, loc, genome, params, rng);
            assert(gen_ok(ind.genome@));
            peeps.individuals.set(index as usize, ind);
            grid.set(loc, idx);
            proof {
                if fits {
                    lemma_placement_step(before, grid0, *grid, peeps.individuals@, index as int, loc, *params);
                    if open_cells(barriers) >= params.population {
                        if arena_full(&grid0) {
                            lemma_full_has_no_empty_cells(grid0);
                        }
                        lemma_fill_one_cell(grid0, *grid, loc.x as int, loc.y as int, idx);
                    }
                }
            }
        }
        index = index + 1;
    }
    proof {
        if fits {
            assert(peeps.individuals@.take(index as int) =~= peeps.individuals@);
        }
    }
}


/// The child genome depends on the parents' genes only.
proof fn lemma_child_genome_views(pa: Seq<Genome>, pb: Seq<Genome>, s: RngState, p: Params)
    requires
        pa.len() == pb.len(),
        pa.len() <= u32::MAX,
        forall|i: int| 0 <= i < pa.len() ==> (#[trigger] pa[i])@ == pb[i]@,
    ensures
        child_genome(pa, s, p) == child_genome(pb, s, p),
{
    if pa.len() > 0 {
        let picks = crate::genome_neurons::parent_indices(pa.len(), s, p.choose_parents_by_fitness);
        assert(0 <= picks.0 < pa.len() && 0 <= picks.1 < pa.len());
        assert(pa[picks.0]@ == pb[picks.0]@);
        assert(pa[picks.1]@ == pb[picks.1]@);
    }
}

/// Being a child genome depends on the parents' genes only.
proof fn lemma_is_child_genome_views(pa: Seq<Genome>, pb: Seq<Genome>, p: Params)
    requires
        pa.len() == pb.len(),
        pa.len() <= u32::MAX,
        forall|i: int| 0 <= i < pa.len() ==> (#[trigger] pa[i])@ == pb[i]@,
    ensures
        is_child_genome(pa, p) == is_child_genome(pb, p),
{
    assert forall|g: Seq<crate::genome_neurons::Gene>|
        #[trigger] is_child_genome(pa, p)(g) == is_child_genome(pb, p)(g) by {
        if is_child_genome(pa, p)(g) {
            let st = choose|st: RngState| g == (#[trigger] child_genome(pa, st, p)).0;
            lemma_child_genome_views(pa, pb, st, p);
            assert(g == child_genome(pb, st, p).0);
        }
        if is_child_genome(pb, p)(g) {
            let st = choose|st: RngState| g == (#[trigger] child_genome(pb, st, p)).0;
            lemma_child_genome_views(pa, pb, st, p);
            assert(g == child_genome(pa, st, p).0);
        }
    }
    assert(is_child_genome(pa, p) =~= is_child_genome(pb, p));
}

/// Starts generation 0: the arena is cleared and populated with random
/// genomes.
pub fn initialize_generation_0(
    grid: &mut Grid,
    signals: &mut Signals,
    peeps: &mut Peeps,
    params: &Params,
    rng: &mut RandomUintGenerator,
)
    requires
        old(grid).wf(),
        old(signals).wf(),
        generation_params_ok(*params),
    ensures
        final(grid).wf(),
        final(grid).width() == old(grid).width(),
        final(grid).height() == old(grid).height(),
        final(signals).wf(),
        final(signals).same_shape(&*old(signals)),
        forall|l: int, x: int, y: int| #[trigger] final(signals).magnitude_at(l, x, y) == 0,
        final(peeps).individuals.len() == old(peeps).individuals.len(),
        populated(&*final(peeps), *params, params.population as int, is_random_genome(*params)),
        barrier_lists(
            params.barrier_type,
            params.size_x as int,
            params.size_y as int,
            old(rng)@,
            final(grid).barrier_locations_view(),
            final(grid).barrier_centers_view(),
        ),
        placement_fits(&*old(grid), &*old(peeps), *params) ==> (consistent(
            final(peeps).individuals@,
            cells_of(&*final(grid)),
        ) && barrier_cells(&*final(grid))) || (arena_full(&*final(grid)) && open_cells(*final(grid)) < params.population),
        placement_fits(&*old(grid), &*old(peeps), *params) && open_cells(*final(grid)) >= params.population
            ==> consistent(final(peeps).individuals@, cells_of(&*final(grid))) && barrier_cells(&*final(grid)),
{
    let no_parents: Vec<Genome> = Vec::new();
    populate(grid, signals, peeps, params, rng, no_parents.as_slice());
}

/// Starts a new generation: the arena is cleared and populated with
/// children of `parent_genomes`.
pub fn initialize_new_generation(
    parent_genomes: &[Genome],
    generation: u32,
    grid: &mut Grid,
    signals: &mut Signals,
    peeps: &mut Peeps,
    params: &Params,
    rng: &mut RandomUintGenerator,
)
    requires
        old(grid).wf(),
        old(signals).wf(),
        generation_params_ok(*params),
        0 < parent_genomes.len() <= u32::MAX,
        forall|i: int|
            0 <= i < parent_genomes.len() ==> 1 <= (#[trigger] parent_genomes[i]).len()
                <= params.genome_max_length,
    ensures
        final(grid).wf(),
        final(grid).width() == old(grid).width(),
        final(grid).height() == old(grid).height(),
        final(signals).wf(),
        final(signals).same_shape(&*old(signals)),
        forall|l: int, x: int, y: int| #[trigger] final(signals).magnitude_at(l, x, y) == 0,
        final(peeps).individuals.len() == old(peeps).individuals.len(),
        populated(
            &*final(peeps),
            *params,
            params.population as int,
            is_child_genome(parent_genomes@, *params),
        ),
        barrier_lists(
            params.barrier_type,
            params.size_x as int,
            params.size_y as int,
            old(rng)@,
            final(grid).barrier_locations_view(),
            final(grid).barrier_centers_view(),
        ),
        placement_fits(&*old(grid), &*old(peeps), *params) ==> (consistent(
            final(peeps).individuals@,
            cells_of(&*final(grid)),
        ) && barrier_cells(&*final(grid))) || (arena_full(&*final(grid)) && open_cells(*final(grid)) < params.population),
        placement_fits(&*old(grid), &*old(peeps), *params) && open_cells(*final(grid)) >= params.population
            ==> consistent(final(peeps).individuals@, cells_of(&*final(grid))) && barrier_cells(&*final(grid)),
{
    populate(grid, signals, peeps, params, rng, parent_genomes);
}

/// The genomes of the listed parents that are individuals of `peeps`, in
/// order.
pub open spec fn parent_genomes_of(peeps: &Peeps, parents: Seq<u16>) -> Seq<Genome>
    decreases parents.len(),
{
    if parents.len() == 0 {
        Seq::empty()
    } else {
        let rest = parent_genomes_of(peeps, parents.drop_last());
        let i = parents.last();
        if i != 0 && i < peeps.individuals.len() {
            rest.push(peeps.individuals@[i as int].genome)
        } else {
            rest
        }
    }
}

/// Every genome of `parent_genomes_of` is one of a listed individual.
proof fn lemma_parent_genomes_of(peeps: &Peeps, parents: Seq<u16>)
    ensures
        parent_genomes_of(peeps, parents).len() <= parents.len(),
        forall|j: int|
            0 <= j < parent_genomes_of(peeps, parents).len() ==> exists|k: int|
                0 <= k < parents.len() && parents[k] != 0 && parents[k] < peeps.individuals.len()
                    && (#[trigger] parent_genomes_of(peeps, parents)[j]) == peeps.individuals@[parents[k] as int].genome,
    decreases parents.len(),
{
    if parents.len() > 0 {
        lemma_parent_genomes_of(peeps, parents.drop_last());
        let rest = parent_genomes_of(peeps, parents.drop_last());
        assert forall|j: int|
            0 <= j < parent_genomes_of(peeps, parents).len() implies exists|k: int|
                0 <= k < parents.len() && parents[k] != 0 && parents[k] < peeps.individuals.len()
                    && (#[trigger] parent_genomes_of(peeps, parents)[j]) == peeps.individuals@[parents[k] as int].genome by {
            if j < rest.len() {
                let k = choose|k: int|
                    0 <= k < parents.drop_last().len() && parents.drop_last()[k] != 0
                        && parents.drop_last()[k] < peeps.individuals.len() && (
                    #[trigger] rest[j]) == peeps.individuals@[parents.drop_last()[k] as int].genome;
                assert(parents[k] == parents.drop_last()[k]);
            } else {
                assert(parents[parents.len() - 1] == parents.last());
            }
        }
    }
}

/// Starts the next generation from the chosen parents, in order of
/// preference: their genomes are collected (indices that name no
/// individual are skipped), and the arena is populated with their
/// children, or with random genomes when there are none. Returns the
/// number of parents.
pub fn spawn_new_generation(
    parents: &[u16],
    grid: &mut Grid,
    signals: &mut Signals,
    peeps: &mut Peeps,
    params: &Params,
    rng: &mut RandomUintGenerator,
) -> (n: u32)
    requires
        old(grid).wf(),
        old(signals).wf(),
        generation_params_ok(*params),
        parents.len() <= u32::MAX,
        forall|k: int|
            0 <= k < parents.len() && #[trigger] parents[k] != 0 && parents[k] < old(
                peeps,
            ).individuals.len() ==> 1 <= old(peeps).individuals@[parents[k] as int].genome.len()
                <= params.genome_max_length,
    ensures
        n == parent_genomes_of(&*old(peeps), parents@).len(),
        final(grid).wf(),
        final(grid).width() == old(grid).width(),
        final(grid).height() == old(grid).height(),
        final(signals).wf(),
        final(signals).same_shape(&*old(signals)),
        forall|l: int, x: int, y: int| #[trigger] final(signals).magnitude_at(l, x, y) == 0,
        final(peeps).individuals.len() == old(peeps).individuals.len(),
        n == 0 ==> populated(
            &*final(peeps),
            *params,
            params.population as int,
            is_random_genome(*params),
        ),
        n > 0 ==> populated(
            &*final(peeps),
            *params,
            params.population as int,
            is_child_genome(parent_genomes_of(&*old(peeps), parents@), *params),
        ),
        barrier_lists(
            params.barrier_type,
            params.size_x as int,
            params.size_y as int,
            old(rng)@,
            final(grid).barrier_locations_view(),
            final(grid).barrier_centers_view(),
        ),
        placement_fits(&*old(grid), &*old(peeps), *params) ==> (consistent(
            final(peeps).individuals@,
            cells_of(&*final(grid)),
        ) && barrier_cells(&*final(grid))) || (arena_full(&*final(grid)) && open_cells(*final(grid)) < params.population),
        placement_fits(&*old(grid), &*old(peeps), *params) && open_cells(*final(grid)) >= params.population
            ==> consistent(final(peeps).individuals@, cells_of(&*final(grid))) && barrier_cells(&*final(grid)),
{
    let mut parent_genomes: Vec<Genome> = Vec::new();
    let mut k: usize = 0;
    while k < parents.len()
        invariant
            k <= parents.len(),
            parents.len() <= u32::MAX,
            parent_genomes@.len() == parent_genomes_of(&*peeps, parents@.take(k as int)).len(),
            forall|j: int|
                0 <= j < parent_genomes@.len() ==> (#[trigger] parent_genomes@[j])@ == parent_genomes_of(
                    &*peeps,
                    parents@.take(k as int),
                )[j]@,
        decreases parents.len() - k,
    {
        let index = parents[k];
        assert(parents@.take(k + 1).drop_last() == parents@.take(k as int));
        assert(parents@.take(k + 1).last() == index);
        match peeps.get(index) {
            Some(indiv) => {
                let g = copy_genome(&indiv.genome);
                parent_genomes.push(g);
            },
            None => {},
        }
        k = k + 1;
    }
    assert(parents@.take(parents.len() as int) == parents@);
    let ghost pg = parent_genomes_of(&*peeps, parents@);
    proof {
        lemma_parent_genomes_of(&*peeps, parents@);
        assert(parent_genomes@.map_values(|g: Genome| g@) =~= pg.map_values(|g: Genome| g@));
    }
    let n = parent_genomes.len() as u32;
    if parent_genomes.len() > 0 {
        proof {
            assert forall|i: int|
                0 <= i < parent_genomes@.len() implies 1 <= (#[trigger] parent_genomes@[i]).len()
                    <= params.genome_max_length by {
                assert(parent_genomes@[i]@ == pg[i]@);
            }
        }
        initialize_new_generation(parent_genomes.as_slice(), 0, grid, signals, peeps, params, rng);
        proof {
            lemma_is_child_genome_views(parent_genomes@, pg, *params);
        }
    } else {
        initialize_generation_0(grid, signals, peeps, params, rng);
    }
    n
}

} // verus!
