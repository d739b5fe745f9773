//! The effects of an individual's actions on the world: random choices
//! against a probability, killing the individual ahead, and moving.
use vstd::prelude::*;

use crate::basic_types::{distance, distance_between, unit_x, unit_y, wrap_i16, Coord};
use crate::get_sensor::{occupied, step, unit};
use crate::grid::{Grid, BARRIER, EMPTY};
use crate::indiv::Indiv;
use crate::peeps::Peeps;
use crate::random::{random_uint, RandomUintGenerator};

verus! {

/// A random choice with the probability whose draw threshold is
/// `threshold`: one draw, true when it falls below the threshold.
pub fn prob2bool(rng: &mut RandomUintGenerator, threshold: u64) -> (b: bool)
    ensures
        b == (old(rng)@.next_output() < threshold),
        final(rng)@ == old(rng)@.next_state(),
{
    (random_uint(rng) as u64) < threshold
}

/// The index of the individual a kill by `indiv` hits: the one standing
/// on the cell ahead (in the direction of the last move), when that is a
/// valid index and it stands next to `indiv`.
pub open spec fn kill_target(indiv: &Indiv, peeps: &Peeps, grid: &Grid) -> Option<u16> {
    let ahead = step(indiv.loc, unit(indiv.last_move_dir));
    let index = grid.value_at(ahead.x as int, ahead.y as int);
    if grid.contains(ahead.x as int, ahead.y as int) && occupied(grid, ahead) && index != 0 && index
        < peeps.individuals.len() && distance(indiv.loc, peeps.individuals@[index as int].loc) == 1 {
        Some(index)
    } else {
        None
    }
}

/// A kill hits the cell one step ahead of the killer, in the direction of
/// its last move: the index it hits is the one stored in that cell, inside
/// the arena, naming an individual (neither empty nor a barrier) that
/// stands next to the killer; and whenever that cell holds such an index,
/// the kill hits it.
pub proof fn lemma_kill_hits_the_cell_ahead(indiv: &Indiv, peeps: &Peeps, grid: &Grid)
    requires
        i16::MIN < indiv.loc.x < i16::MAX,
        i16::MIN < indiv.loc.y < i16::MAX,
    ensures
        ({
            let ax = indiv.loc.x + unit_x(indiv.last_move_dir.dir9);
            let ay = indiv.loc.y + unit_y(indiv.last_move_dir.dir9);
            let v = grid.value_at(ax, ay);
            &&& kill_target(indiv, peeps, grid) matches Some(i) ==> {
                &&& grid.contains(ax, ay)
                &&& v == i
                &&& i != EMPTY
                &&& i != BARRIER
                &&& i < peeps.individuals.len()
                &&& distance(indiv.loc, peeps.individuals@[i as int].loc) == 1
            }
            &&& (grid.contains(ax, ay) && v != EMPTY && v != BARRIER && v < peeps.individuals.len()
                && distance(indiv.loc, peeps.individuals@[v as int].loc) == 1) ==> kill_target(
                indiv,
                peeps,
                grid,
            ) == Some(v)
        }),
{
    let ax = indiv.loc.x + unit_x(indiv.last_move_dir.dir9);
    let ay = indiv.loc.y + unit_y(indiv.last_move_dir.dir9);
    assert(wrap_i16(ax) == ax);
    assert(wrap_i16(ay) == ay);
}

/// Queues the death of the individual ahead (see `kill_target`).
pub fn kill_forward(indiv: &Indiv, peeps: &mut Peeps, grid: &Grid)
    requires
        grid.wf(),
        kill_target(indiv, &*old(peeps), grid) matches Some(i) ==> old(peeps).individuals@[i as int].alive,
    ensures
        final(peeps).individuals == old(peeps).individuals,
        final(peeps).move_queue@ == old(peeps).move_queue@,
        final(peeps).death_queue@ == match kill_target(indiv, &*old(peeps), grid) {
            Some(i) => old(peeps).death_queue@.push(old(peeps).individuals@[i as int].index),
            None => old(peeps).death_queue@,
        },
{
    let other_loc = indiv.loc.add(indiv.last_move_dir.as_normalized_coord());
    assert(other_loc == step(indiv.loc, unit(indiv.last_move_dir)));
    if grid.is_in_bounds(other_loc) && grid.is_occupied_at(other_loc) {
        let index = grid.at(other_loc);
        if index != 0 && (index as usize) < peeps.individuals.len() {
            let target_loc = peeps.individuals[index as usize].loc;
            let d = distance_between(indiv.loc, target_loc);
            if d == 1 {
                let target_index = peeps.individuals[index as usize].index;
                peeps.death_queue.push(target_index);
            }
        }
    }
}

/// The step of a move: a unit in each axis where the draw said to move,
/// negative where the urge was negative.
pub fn movement_offset(move_x: bool, negative_x: bool, move_y: bool, negative_y: bool) -> (c: Coord)
    ensures
        c.x == (if !move_x {
            0
        } else if negative_x {
            -1
        } else {
            1
        }),
        c.y == (if !move_y {
            0
        } else if negative_y {
            -1
        } else {
            1
        }),
{
    let prob_x: i16 = if move_x {
        1
    } else {
        0
    };
    let prob_y: i16 = if move_y {
        1
    } else {
        0
    };
    let signum_x: i16 = if negative_x {
        -1
    } else {
        1
    };
    let signum_y: i16 = if negative_y {
        -1
    } else {
        1
    };
    Coord { x: prob_x * signum_x, y: prob_y * signum_y }
}

/// Queues a move of `indiv` by `offset` when the target cell is inside
/// the grid and empty and the offset is not zero.
pub fn queue_movement(indiv: &Indiv, offset: Coord, peeps: &mut Peeps, grid: &Grid)
    requires
        grid.wf(),
        indiv.alive,
    ensures
        ({
            let new_loc = Coord {
                x: wrap_i16(indiv.loc.x + offset.x) as i16,
                y: wrap_i16(indiv.loc.y + offset.y) as i16,
            };
            final(peeps).move_queue@ == if grid.contains(new_loc.x as int, new_loc.y as int)
                && grid.value_at(new_loc.x as int, new_loc.y as int) == EMPTY && (offset.x != 0
                || offset.y != 0) {
                old(peeps).move_queue@.push((indiv.index, new_loc))
            } else {
                old(peeps).move_queue@
            }
        }),
        final(peeps).individuals == old(peeps).individuals,
        final(peeps).death_queue@ == old(peeps).death_queue@,
{
    let new_loc = indiv.loc.add(offset);
    if grid.is_in_bounds(new_loc) && grid.is_empty_at(new_loc) {
        if offset.x != 0 || offset.y != 0 {
            peeps.queue_for_move(indiv, new_loc);
        }
    }
}

} // verus!
