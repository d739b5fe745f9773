//! The population: the individuals, and the deaths and moves queued
//! during a simulation step, applied at its end.
use vstd::prelude::*;

use crate::basic_types::{direction_of, lemma_unit_step_direction, unit_x, unit_y, wrap_i16, Compass, Coord, Dir};
use crate::grid::{Grid, BARRIER, EMPTY};
use crate::indiv::Indiv;

verus! {

/// The individuals (index 0 is reserved) and the queued deaths and moves.
pub struct Peeps {
    pub individuals: Vec<Indiv>,
    pub death_queue: Vec<u16>,
    pub move_queue: Vec<(u16, Coord)>,
}

/// The cells of a grid as a function of location, with the grid's size.
pub struct CellsView {
    pub cells: spec_fn(int, int) -> u16,
    pub width: int,
    pub height: int,
}

/// The cells of `grid`.
pub open spec fn cells_of(grid: &Grid) -> CellsView {
    CellsView {
        cells: |x: int, y: int| grid.value_at(x, y),
        width: grid.width() as int,
        height: grid.height() as int,
    }
}

/// `c` with the cell at `loc` holding `val` (nothing changes outside the
/// grid).
pub open spec fn cells_set(c: CellsView, loc: Coord, val: u16) -> CellsView {
    CellsView {
        cells: |x: int, y: int|
            if x == loc.x && y == loc.y && 0 <= x < c.width && 0 <= y < c.height {
                val
            } else {
                (c.cells)(x, y)
            },
        ..c
    }
}

/// The individuals and cells after one queued move: an alive individual
/// moves when the target reads as empty, vacating its cell, taking the
/// target, and facing the direction of the move.
pub open spec fn move_applied(inds: Seq<Indiv>, c: CellsView, mv: (u16, Coord)) -> (
    Seq<Indiv>,
    CellsView,
) {
    let i = mv.0 as int;
    let to = mv.1;
    let ind = inds[i];
    if ind.alive && (c.cells)(to.x as int, to.y as int) == EMPTY {
        let from = ind.loc;
        let c2 = cells_set(cells_set(c, from, EMPTY), to, ind.index);
        let dx = wrap_i16(to.x - from.x);
        let dy = wrap_i16(to.y - from.y);
        (
            inds.update(
                i,
                Indiv { loc: to, last_move_dir: Dir { dir9: direction_of(dx, dy) }, ..ind },
            ),
            c2,
        )
    } else {
        (inds, c)
    }
}

/// A queued move of a living individual onto an empty cell puts it there
/// and turns it the way it moved: for a move to a neighbouring cell, one
/// step in its new direction leads from the cell it left to the cell it
/// took (a move one cell east makes it face east); the cell it left
/// becomes empty and the target names it, and no other individual
/// changes. Any other queued move changes nothing.
pub proof fn lemma_move_faces_its_way(inds: Seq<Indiv>, c: CellsView, mv: (u16, Coord))
    requires
        mv.0 < inds.len(),
    ensures
        ({
            let i = mv.0 as int;
            let (from, to) = (inds[i].loc, mv.1);
            let r = move_applied(inds, c, mv);
            if inds[i].alive && (c.cells)(to.x as int, to.y as int) == EMPTY {
                &&& r.0.len() == inds.len()
                &&& r.0[i].loc == to
                &&& forall|j: int| 0 <= j < inds.len() && j != i ==> #[trigger] r.0[j] == inds[j]
                &&& (0 <= to.x < c.width && 0 <= to.y < c.height ==> (r.1.cells)(to.x as int, to.y as int)
                    == inds[i].index)
                &&& (from != to && 0 <= from.x < c.width && 0 <= from.y < c.height ==> (r.1.cells)(
                    from.x as int,
                    from.y as int,
                ) == EMPTY)
                &&& (-1 <= to.x - from.x <= 1 && -1 <= to.y - from.y <= 1 ==> {
                    &&& unit_x(r.0[i].last_move_dir.dir9) == to.x - from.x
                    &&& unit_y(r.0[i].last_move_dir.dir9) == to.y - from.y
                })
            } else {
                r == (inds, c)
            }
        }),
{
    lemma_unit_step_direction(Compass::SW);
    lemma_unit_step_direction(Compass::S);
    lemma_unit_step_direction(Compass::SE);
    lemma_unit_step_direction(Compass::W);
    lemma_unit_step_direction(Compass::Center);
    lemma_unit_step_direction(Compass::E);
    lemma_unit_step_direction(Compass::NW);
    lemma_unit_step_direction(Compass::N);
    lemma_unit_step_direction(Compass::NE);
}

/// The individuals and cells after the first `k` queued moves.
pub open spec fn moves_applied(inds: Seq<Indiv>, c: CellsView, q: Seq<(u16, Coord)>, k: int) -> (
    Seq<Indiv>,
    CellsView,
)
    decreases k,
{
    if k <= 0 {
        (inds, c)
    } else {
        let prev = moves_applied(inds, c, q, k - 1);
        move_applied(prev.0, prev.1, q[k - 1])
    }
}

/// Moves keep the number of individuals.
pub proof fn lemma_moves_applied_len(inds: Seq<Indiv>, c: CellsView, q: Seq<(u16, Coord)>, k: int)
    requires
        k <= q.len(),
        forall|j: int| 0 <= j < q.len() ==> (#[trigger] q[j]).0 < inds.len(),
    ensures
        moves_applied(inds, c, q, k).0.len() == inds.len(),
    decreases k,
{
    if k > 0 {
        lemma_moves_applied_len(inds, c, q, k - 1);
    }
}

/// The cells agree.
pub open spec fn same_cells(a: CellsView, b: CellsView) -> bool {
    &&& a.width == b.width
    &&& a.height == b.height
    &&& forall|x: int, y: int| #[trigger] (a.cells)(x, y) == (b.cells)(x, y)
}

impl Peeps {
    /// The queued deaths, in order.
    pub open spec fn death_queue_view(&self) -> Seq<u16> {
        self.death_queue@
    }

    /// The queued moves, in order.
    pub open spec fn move_queue_view(&self) -> Seq<(u16, Coord)> {
        self.move_queue@
    }

    /// An empty population with empty queues.
    pub fn new() -> (p: Peeps)
        ensures
            p.individuals@.len() == 0,
            p.death_queue_view().len() == 0,
            p.move_queue_view().len() == 0,
    {
        Peeps { individuals: Vec::new(), death_queue: Vec::new(), move_queue: Vec::new() }
    }

    /// Makes room for `population` individuals after the reserved index 0,
    /// adding dead, empty ones.
    pub fn init(&mut self, population: u32)
        requires
            population < u32::MAX,
            old(self).individuals.len() <= population + 1,
        ensures
            final(self).individuals.len() == population + 1,
            forall|i: int|
                0 <= i < old(self).individuals.len() ==> #[trigger] final(self).individuals@[i]
                    == old(self).individuals@[i],
            forall|i: int|
                old(self).individuals.len() <= i < population + 1 ==> !(
                #[trigger] final(self).individuals@[i]).alive && final(self).individuals@[i].index
                    == 0,
            final(self).death_queue_view() == old(self).death_queue_view(),
            final(self).move_queue_view() == old(self).move_queue_view(),
    {
        let target = population as usize + 1;
        while self.individuals.len() < target
            invariant
                old(self).individuals.len() <= self.individuals.len() <= target,
                target == population + 1,
                forall|i: int|
                    0 <= i < old(self).individuals.len() ==> #[trigger] self.individuals@[i]
                        == old(self).individuals@[i],
                forall|i: int|
                    old(self).individuals.len() <= i < self.individuals.len() ==> !(
                    #[trigger] self.individuals@[i]).alive && self.individuals@[i].index == 0,
                self.death_queue@ == old(self).death_queue@,
                self.move_queue@ == old(self).move_queue@,
            decreases target - self.individuals.len(),
        {
            self.individuals.push(Indiv::new());
        }
    }

    /// Queues the death of a living individual, applied at the end of the
    /// step.
    pub fn queue_for_death(&mut self, indiv: &Indiv)
        requires
            indiv.alive,
        ensures
            final(self).death_queue_view() == old(self).death_queue_view().push(indiv.index),
            final(self).move_queue_view() == old(self).move_queue_view(),
            final(self).individuals == old(self).individuals,
    {
        self.death_queue.push(indiv.index);
    }

    /// Kills every queued individual, emptying its cell, and empties the
    /// queue.
    pub fn drain_death_queue(&mut self, grid: &mut Grid)
        requires
            old(grid).wf(),
            forall|j: int|
                0 <= j < old(self).death_queue_view().len() ==> (
                #[trigger] old(self).death_queue_view()[j]) < old(self).individuals.len(),
        ensures
            final(grid).wf(),
            final(grid).width() == old(grid).width(),
            final(grid).height() == old(grid).height(),
            final(grid).barrier_locations_view() == old(grid).barrier_locations_view(),
            final(grid).barrier_centers_view() == old(grid).barrier_centers_view(),
            final(self).individuals.len() == old(self).individuals.len(),
            forall|i: int|
                0 <= i < old(self).individuals.len() ==> #[trigger] final(self).individuals@[i] == if exists|j: int|
                    0 <= j < old(self).death_queue_view().len() && #[trigger] old(self).death_queue_view()[j] as int == i {
                    Indiv { alive: false, ..old(self).individuals@[i] }
                } else {
                    old(self).individuals@[i]
                },
            forall|x: int, y: int| #[trigger]
                final(grid).value_at(x, y) == if exists|j: int|
                    0 <= j < old(self).death_queue_view().len() && #[trigger] old(
                        self,
                    ).individuals@[old(self).death_queue_view()[j] as int].loc.x == x && old(
                        self,
                    ).individuals@[old(self).death_queue_view()[j] as int].loc.y == y && old(
                        grid,
                    ).contains(x, y) {
                    EMPTY
                } else {
                    old(grid).value_at(x, y)
                },
            final(self).death_queue_view().len() == 0,
            final(self).move_queue_view() == old(self).move_queue_view(),
            final(self).individuals@ == deaths_applied(old(self).individuals@, old(self).death_queue_view()),
            same_cells(
                cells_of(&*final(grid)),
                deaths_cleared(old(self).individuals@, cells_of(&*old(grid)), old(self).death_queue_view()),
            ),
    {
        let ghost inds0 = self.individuals@;
        let ghost q = self.death_queue@;
        let ghost g0 = *grid;
        let mut k: usize = 0;
        while k < self.death_queue.len()
            invariant
                k <= q.len(),
                self.death_queue@ == q,
                self.move_queue@ == old(self).move_queue@,
                inds0 == old(self).individuals@,
                q == old(self).death_queue@,
                g0 == *old(grid),
                grid.wf(),
                grid.width() == g0.width(),
                grid.height() == g0.height(),
                grid.barrier_locations_view() == g0.barrier_locations_view(),
                grid.barrier_centers_view() == g0.barrier_centers_view(),
                forall|j: int| 0 <= j < q.len() ==> (#[trigger] q[j]) < inds0.len(),
                self.individuals.len() == inds0.len(),
                forall|i: int|
                    0 <= i < inds0.len() ==> #[trigger] self.individuals@[i] == if exists|j: int|
                        0 <= j < k && #[trigger] q[j] as int == i {
                        Indiv { alive: false, ..inds0[i] }
                    } else {
                        inds0[i]
                    },
                forall|x: int, y: int| #[trigger]
                    grid.value_at(x, y) == if exists|j: int|
                        0 <= j < k && #[trigger] inds0[q[j] as int].loc.x == x && inds0[q[
                            j] as int].loc.y == y && g0.contains(x, y) {
                        EMPTY
                    } else {
                        g0.value_at(x, y)
                    },
            decreases q.len() - k,
        {
            let index = self.death_queue[k] as usize;
            let loc = self.individuals[index].loc;
            grid.set(loc, EMPTY);
            let ghost before = self.individuals@;
            let mut ind = self.individuals.remove(index);
            ind.alive = false;
            self.individuals.insert(index, ind);
            assert(self.individuals@ =~= before.update(index as int, ind));
            proof {
                assert forall|i: int| 0 <= i < inds0.len() implies #[trigger] self.individuals@[i]
                    == if exists|j: int| 0 <= j < k + 1 && #[trigger] q[j] as int == i {
                    Indiv { alive: false, ..inds0[i] }
                } else {
                    inds0[i]
                } by {
                    if i == index {
                        assert(q[k as int] as int == i);
                    }
                }
                assert forall|x: int, y: int| #[trigger]
                    grid.value_at(x, y) == if exists|j: int|
                        0 <= j < k + 1 && #[trigger] inds0[q[j] as int].loc.x == x && inds0[q[
                            j] as int].loc.y == y && g0.contains(x, y) {
                        EMPTY
                    } else {
                        g0.value_at(x, y)
                    } by {
                    assert(inds0[q[k as int] as int].loc == loc);
                    if x == loc.x && y == loc.y && g0.contains(x, y) {
                        assert(inds0[q[k as int] as int].loc.x == x);
                    } else if exists|j: int|
                        0 <= j < k + 1 && #[trigger] inds0[q[j] as int].loc.x == x && inds0[q[
                            j] as int].loc.y == y && g0.contains(x, y) {
                        let j = choose|j: int|
                            0 <= j < k + 1 && #[trigger] inds0[q[j] as int].loc.x == x && inds0[q[
                                j] as int].loc.y == y && g0.contains(x, y);
                        assert(j < k);
                    }
                }
            }
            k = k + 1;
        }
        assert(self.individuals@ =~= deaths_applied(inds0, q));
        proof {
            let c2 = deaths_cleared(inds0, cells_of(&g0), q);
            assert forall|x: int, y: int| #[trigger] (cells_of(&*grid).cells)(x, y) == (c2.cells)(x, y) by {
                assert(grid.value_at(x, y) == (cells_of(&*grid).cells)(x, y));
            }
        }
        self.death_queue.clear();
    }

    /// Queues a move of a living individual to `new_loc`, applied at the
    /// end of the step.
    pub fn queue_for_move(&mut self, indiv: &Indiv, new_loc: Coord)
        requires
            indiv.alive,
        ensures
            final(self).move_queue_view() == old(self).move_queue_view().push((indiv.index, new_loc)),
            final(self).death_queue_view() == old(self).death_queue_view(),
            final(self).individuals == old(self).individuals,
    {
        self.move_queue.push((indiv.index, new_loc));
    }

    /// Applies the queued moves in order (see `move_applied`) and empties
    /// the queue.
    pub fn drain_move_queue(&mut self, grid: &mut Grid)
        requires
            old(grid).wf(),
            forall|j: int|
                0 <= j < old(self).move_queue@.len() ==> (#[trigger] old(self).move_queue@[j]).0
                    < old(self).individuals.len(),
        ensures
            final(grid).wf(),
            final(grid).barrier_locations_view() == old(grid).barrier_locations_view(),
            final(grid).barrier_centers_view() == old(grid).barrier_centers_view(),
            ({
                let r = moves_applied(
                    old(self).individuals@,
                    cells_of(&*old(grid)),
                    old(self).move_queue@,
                    old(self).move_queue@.len() as int,
                );
                &&& final(self).individuals@ == r.0
                &&& same_cells(cells_of(&*final(grid)), r.1)
            }),
            final(self).move_queue@.len() == 0,
            final(self).death_queue@ == old(self).death_queue@,
    {
        let ghost inds0 = self.individuals@;
        let ghost q = self.move_queue@;
        let ghost g0 = *grid;
        let mut k: usize = 0;
        while k < self.move_queue.len()
            invariant
                k <= q.len(),
                self.move_queue@ == q,
                self.death_queue@ == old(self).death_queue@,
                inds0 == old(self).individuals@,
                q == old(self).move_queue@,
                g0 == *old(grid),
                grid.wf(),
                grid.barrier_locations_view() == g0.barrier_locations_view(),
                grid.barrier_centers_view() == g0.barrier_centers_view(),
                forall|j: int| 0 <= j < q.len() ==> (#[trigger] q[j]).0 < inds0.len(),
                self.individuals@ == moves_applied(inds0, cells_of(&g0), q, k as int).0,
                same_cells(cells_of(&*grid), moves_applied(inds0, cells_of(&g0), q, k as int).1),
            decreases q.len() - k,
        {
            let ghost prev = moves_applied(inds0, cells_of(&g0), q, k as int);
            proof {
                lemma_moves_applied_len(inds0, cells_of(&g0), q, k as int);
            }
            let (index, new_loc) = self.move_queue[k];
            let idx = index as usize;
            proof {
                assert((cells_of(&*grid).cells)(new_loc.x as int, new_loc.y as int) == grid.value_at(
                    new_loc.x as int,
                    new_loc.y as int,
                ));
                assert(q[k as int] == (index, new_loc));
            }
            if self.individuals[idx].alive {
                if grid.is_empty_at(new_loc) {
                    let ghost gb = *grid;
                    let old_loc = self.individuals[idx].loc;
                    let ind_index = self.individuals[idx].index;
                    grid.set(old_loc, EMPTY);
                    let ghost gm = *grid;
                    grid.set(new_loc, ind_index);
                    let ghost before = self.individuals@;
                    let mut ind = self.individuals.remove(idx);
                    ind.loc = new_loc;
                    let move_offset = new_loc.sub(old_loc);
                    ind.last_move_dir = move_offset.as_dir();
                    self.individuals.insert(idx, ind);
                    assert(self.individuals@ =~= before.update(idx as int, ind));
                    proof {
                        let c1 = cells_set(prev.1, old_loc, EMPTY);
                        let c2 = cells_set(c1, new_loc, ind_index);
                        assert forall|x: int, y: int| #[trigger] gm.value_at(x, y) == (c1.cells)(x, y) by {
                            assert((cells_of(&gb).cells)(x, y) == gb.value_at(x, y));
                        }
                        assert forall|x: int, y: int| #[trigger] grid.value_at(x, y) == (c2.cells)(x, y) by {
                            assert(gm.value_at(x, y) == (c1.cells)(x, y));
                        }
                        assert forall|x: int, y: int| #[trigger] (cells_of(&*grid).cells)(x, y) == (c2.cells)(x, y) by {
                            assert((cells_of(&*grid).cells)(x, y) == grid.value_at(x, y));
                        }
                    }
                }
            }
            k = k + 1;
        }
        self.move_queue.clear();
    }

    /// How many deaths are queued.
    pub fn death_queue_size(&self) -> (n: usize)
        ensures
            n == self.death_queue_view().len(),
    {
        self.death_queue.len()
    }

    /// The individual whose index is stored at `loc`, if that is a valid
    /// nonzero index.
    pub fn get_indiv(&self, loc: Coord, grid: &Grid) -> (r: Option<&Indiv>)
        requires
            grid.wf(),
        ensures
            ({
                let index = grid.value_at(loc.x as int, loc.y as int);
                match r {
                    Some(ind) => index != 0 && index < self.individuals.len() && *ind
                        == self.individuals@[index as int],
                    None => index == 0 || index >= self.individuals.len(),
                }
            }),
    {
        let index = grid.at(loc);
        self.get(index)
    }

    /// The individual whose index is stored at `loc`, to change in place,
    /// if that is a valid nonzero index.
    pub fn get_indiv_mut(&mut self, loc: Coord, grid: &Grid) -> (r: Option<&mut Indiv>)
        requires
            grid.wf(),
        ensures
            ({
                let index = grid.value_at(loc.x as int, loc.y as int);
                &&& index == 0 || index >= old(self).individuals.len() ==> r is None && *final(self)
                    == *old(self)
                &&& index != 0 && index < old(self).individuals.len() ==> r is Some && *r->0
                    == old(self).individuals@[index as int] && final(self).individuals@ == old(
                    self,
                ).individuals@.update(index as int, *final(r->0)) && final(self).death_queue
                    == old(self).death_queue && final(self).move_queue == old(self).move_queue
            }),
    {
        let index = grid.at(loc);
        self.get_mut(index)
    }

    /// The individual with the given index, to change in place, if it is a
    /// valid nonzero one.
    pub fn get_mut(&mut self, index: u16) -> (r: Option<&mut Indiv>)
        ensures
            index == 0 || index >= old(self).individuals.len() ==> r is None && *final(self) == *old(
                self,
            ),
            index != 0 && index < old(self).individuals.len() ==> r is Some && *r->0
                == old(self).individuals@[index as int] && final(self).individuals@ == old(
                self,
            ).individuals@.update(index as int, *final(r->0)) && final(self).death_queue
                == old(self).death_queue && final(self).move_queue == old(self).move_queue,
    {
        if index == 0 || index as usize >= self.individuals.len() {
            return None;
        }
        Some(&mut self.individuals[index as usize])
    }

    /// The individual with the given index, if it is a valid nonzero one.
    pub fn get(&self, index: u16) -> (r: Option<&Indiv>)
        ensures
            match r {
                Some(ind) => index != 0 && index < self.individuals.len() && *ind
                    == self.individuals@[index as int],
                None => index == 0 || index >= self.individuals.len(),
            },
    {
        if index == 0 || index as usize >= self.individuals.len() {
            return None;
        }
        Some(&self.individuals[index as usize])
    }
}

impl Default for Peeps {
    fn default() -> (p: Peeps)
        ensures
            p.individuals@.len() == 0,
            p.death_queue_view().len() == 0,
            p.move_queue_view().len() == 0,
    {
        Peeps::new()
    }
}

} // verus!
verus! {

/// The grid and the population agree: every living individual (index 1
/// and up) carries its index and stands inside the grid on a cell holding
/// that index, and every cell holding neither `EMPTY` nor `BARRIER` holds
/// the index of a living individual standing there.
pub open spec fn consistent(inds: Seq<Indiv>, c: CellsView) -> bool {
    &&& forall|i: int|
        1 <= i < inds.len() && #[trigger] inds[i].alive ==> {
            &&& inds[i].index == i
            &&& 0 <= inds[i].loc.x < c.width
            &&& 0 <= inds[i].loc.y < c.height
            &&& (c.cells)(inds[i].loc.x as int, inds[i].loc.y as int) == i
        }
    &&& forall|x: int, y: int|
        0 <= x < c.width && 0 <= y < c.height && #[trigger] (c.cells)(x, y) != EMPTY && (c.cells)(x, y)
            != BARRIER ==> {
            let i = (c.cells)(x, y) as int;
            &&& 1 <= i < inds.len()
            &&& inds[i].alive
            &&& inds[i].loc.x == x
            &&& inds[i].loc.y == y
        }
}

/// A queued move names an individual (index 1 and up) and a target inside
/// the grid, as `queue_movement` queues them.
pub open spec fn move_in_grid(inds: Seq<Indiv>, c: CellsView, mv: (u16, Coord)) -> bool {
    &&& 1 <= mv.0 < inds.len()
    &&& 0 <= mv.1.x < c.width
    &&& 0 <= mv.1.y < c.height
}

proof fn lemma_move_keeps_consistency(inds: Seq<Indiv>, c: CellsView, mv: (u16, Coord))
    requires
        consistent(inds, c),
        move_in_grid(inds, c, mv),
        inds.len() <= 0xffff,
    ensures
        consistent(move_applied(inds, c, mv).0, move_applied(inds, c, mv).1),
        move_applied(inds, c, mv).0.len() == inds.len(),
        move_applied(inds, c, mv).1.width == c.width,
        move_applied(inds, c, mv).1.height == c.height,
{
    let i = mv.0 as int;
    let to = mv.1;
    let ind = inds[i];
    if ind.alive && (c.cells)(to.x as int, to.y as int) == EMPTY {
        let r = move_applied(inds, c, mv);
        let from = ind.loc;
        assert((c.cells)(from.x as int, from.y as int) == i);
        let n = r.0;
        let c2 = r.1;
        assert forall|j: int| 1 <= j < n.len() && #[trigger] n[j].alive implies {
            &&& n[j].index == j
            &&& 0 <= n[j].loc.x < c2.width
            &&& 0 <= n[j].loc.y < c2.height
            &&& (c2.cells)(n[j].loc.x as int, n[j].loc.y as int) == j
        } by {
            if j != i {
                assert(n[j] == inds[j]);
                assert(inds[j].alive);
                let l = inds[j].loc;
                assert((c.cells)(l.x as int, l.y as int) == j);
            }
        }
        assert forall|x: int, y: int|
            0 <= x < c2.width && 0 <= y < c2.height && #[trigger] (c2.cells)(x, y) != EMPTY && (c2.cells)(
                x,
                y,
            ) != BARRIER implies {
            let k = (c2.cells)(x, y) as int;
            &&& 1 <= k < n.len()
            &&& n[k].alive
            &&& n[k].loc.x == x
            &&& n[k].loc.y == y
        } by {
            if !(x == to.x && y == to.y) && !(x == from.x && y == from.y) {
                assert((c2.cells)(x, y) == (c.cells)(x, y));
                let k = (c.cells)(x, y) as int;
                assert(1 <= k < inds.len() && inds[k].alive && inds[k].loc.x == x && inds[k].loc.y == y);
                assert(k != i);
                assert(n[k] == inds[k]);
            }
        }
    }
}

/// Moves keep the grid and the population in agreement (see
/// `consistent`): an individual leaves its cell empty and its index moves
/// with it to the empty target, which lies inside the grid.
pub proof fn lemma_moves_keep_consistency(inds: Seq<Indiv>, c: CellsView, q: Seq<(u16, Coord)>, k: int)
    requires
        consistent(inds, c),
        0 <= k <= q.len(),
        forall|j: int| 0 <= j < q.len() ==> move_in_grid(inds, c, #[trigger] q[j]),
        inds.len() <= 0xffff,
    ensures
        consistent(moves_applied(inds, c, q, k).0, moves_applied(inds, c, q, k).1),
        moves_applied(inds, c, q, k).0.len() == inds.len(),
        moves_applied(inds, c, q, k).1.width == c.width,
        moves_applied(inds, c, q, k).1.height == c.height,
    decreases k,
{
    if k > 0 {
        lemma_moves_keep_consistency(inds, c, q, k - 1);
        let prev = moves_applied(inds, c, q, k - 1);
        assert(move_in_grid(inds, c, q[k - 1]));
        lemma_move_keeps_consistency(prev.0, prev.1, q[k - 1]);
    }
}

/// The individuals after the queued deaths: each queued one is dead.
pub open spec fn deaths_applied(inds: Seq<Indiv>, q: Seq<u16>) -> Seq<Indiv> {
    Seq::new(
        inds.len(),
        |i: int|
            if exists|j: int| 0 <= j < q.len() && #[trigger] q[j] as int == i {
                Indiv { alive: false, ..inds[i] }
            } else {
                inds[i]
            },
    )
}

/// The cells after the queued deaths: the cell inside the grid where a
/// queued individual stands is empty.
pub open spec fn deaths_cleared(inds: Seq<Indiv>, c: CellsView, q: Seq<u16>) -> CellsView {
    CellsView {
        cells: |x: int, y: int|
            if exists|j: int|
                0 <= j < q.len() && #[trigger] inds[q[j] as int].loc.x == x && inds[q[j] as int].loc.y == y
                    && 0 <= x < c.width && 0 <= y < c.height {
                EMPTY
            } else {
                (c.cells)(x, y)
            },
        ..c
    }
}

/// The queued deaths kill exactly the queued individuals: each one that
/// is listed is dead afterwards, standing where it stood, and the cell
/// inside the arena where it stands is empty; an individual that is not
/// queued is unchanged, and so is a cell where no queued one stands.
pub proof fn lemma_deaths_kill_the_queued(inds: Seq<Indiv>, c: CellsView, q: Seq<u16>)
    ensures
        deaths_applied(inds, q).len() == inds.len(),
        forall|j: int|
            0 <= j < q.len() && q[j] < inds.len() ==> #[trigger] deaths_applied(inds, q)[q[j] as int] == (Indiv {
                alive: false,
                ..inds[q[j] as int]
            }),
        forall|j: int|
            0 <= j < q.len() && q[j] < inds.len() && 0 <= inds[q[j] as int].loc.x < c.width && 0 <= inds[q[j] as int].loc.y
                < c.height ==> (deaths_cleared(inds, c, q).cells)(
                (#[trigger] inds[q[j] as int]).loc.x as int,
                inds[q[j] as int].loc.y as int,
            ) == EMPTY,
        forall|i: int|
            0 <= i < inds.len() && (forall|j: int| 0 <= j < q.len() ==> q[j] != i) ==> #[trigger] deaths_applied(
                inds,
                q,
            )[i] == inds[i],
        forall|x: int, y: int|
            (forall|j: int| 0 <= j < q.len() ==> !(inds[q[j] as int].loc.x == x && inds[q[j] as int].loc.y == y))
                ==> #[trigger] (deaths_cleared(inds, c, q).cells)(x, y) == (c.cells)(x, y),
{
    assert forall|j: int| 0 <= j < q.len() && q[j] < inds.len() implies #[trigger] deaths_applied(inds, q)[q[j] as int]
        == (Indiv { alive: false, ..inds[q[j] as int] }) by {
        assert(exists|k: int| 0 <= k < q.len() && #[trigger] q[k] as int == q[j] as int);
    }
}

/// Deaths keep the grid and the population in agreement (see
/// `consistent`): when every queued individual is a living one, the dead
/// leave their cells empty and the others keep theirs.
pub proof fn lemma_deaths_keep_consistency(inds: Seq<Indiv>, c: CellsView, q: Seq<u16>)
    requires
        consistent(inds, c),
        forall|j: int| 0 <= j < q.len() ==> 1 <= #[trigger] q[j] < inds.len() && inds[q[j] as int].alive,
    ensures
        consistent(deaths_applied(inds, q), deaths_cleared(inds, c, q)),
        deaths_applied(inds, q).len() == inds.len(),
{
    let n = deaths_applied(inds, q);
    let c2 = deaths_cleared(inds, c, q);
    assert forall|i: int| 1 <= i < n.len() && #[trigger] n[i].alive implies {
        &&& n[i].index == i
        &&& 0 <= n[i].loc.x < c2.width
        &&& 0 <= n[i].loc.y < c2.height
        &&& (c2.cells)(n[i].loc.x as int, n[i].loc.y as int) == i
    } by {
        assert(!exists|j: int| 0 <= j < q.len() && #[trigger] q[j] as int == i);
        assert(n[i] == inds[i]);
        let l = inds[i].loc;
        assert((c.cells)(l.x as int, l.y as int) == i);
        if exists|j: int|
            0 <= j < q.len() && #[trigger] inds[q[j] as int].loc.x == l.x && inds[q[j] as int].loc.y == l.y
                && 0 <= l.x < c.width && 0 <= l.y < c.height {
            let j = choose|j: int|
                0 <= j < q.len() && #[trigger] inds[q[j] as int].loc.x == l.x && inds[q[j] as int].loc.y == l.y
                    && 0 <= l.x < c.width && 0 <= l.y < c.height;
            let k = q[j] as int;
            assert(inds[k].alive);
            assert((c.cells)(l.x as int, l.y as int) == k);
        }
    }
    assert forall|x: int, y: int|
        0 <= x < c2.width && 0 <= y < c2.height && #[trigger] (c2.cells)(x, y) != EMPTY && (c2.cells)(x, y)
            != BARRIER implies {
        let k = (c2.cells)(x, y) as int;
        &&& 1 <= k < n.len()
        &&& n[k].alive
        &&& n[k].loc.x == x
        &&& n[k].loc.y == y
    } by {
        assert((c2.cells)(x, y) == (c.cells)(x, y));
        let k = (c.cells)(x, y) as int;
        assert(1 <= k < inds.len() && inds[k].alive && inds[k].loc.x == x && inds[k].loc.y == y);
        if exists|j: int| 0 <= j < q.len() && #[trigger] q[j] as int == k {
            let j = choose|j: int| 0 <= j < q.len() && #[trigger] q[j] as int == k;
            assert(inds[q[j] as int].loc.x == x);
        }
        assert(n[k] == inds[k]);
    }
}

/// The end of a simulation step keeps the grid and the population in
/// agreement (see `consistent`): the queued deaths of living individuals
/// are applied, then the queued moves within the grid.
pub proof fn lemma_step_end_keeps_consistency(
    inds: Seq<Indiv>,
    c: CellsView,
    deaths: Seq<u16>,
    moves: Seq<(u16, Coord)>,
)
    requires
        consistent(inds, c),
        inds.len() <= 0xffff,
        forall|j: int| 0 <= j < deaths.len() ==> 1 <= #[trigger] deaths[j] < inds.len() && inds[deaths[j] as int].alive,
        forall|j: int| 0 <= j < moves.len() ==> move_in_grid(inds, c, #[trigger] moves[j]),
    ensures
        ({
            let after = moves_applied(deaths_applied(inds, deaths), deaths_cleared(inds, c, deaths), moves, moves.len() as int);
            consistent(after.0, after.1)
        }),
{
    lemma_deaths_keep_consistency(inds, c, deaths);
    let n = deaths_applied(inds, deaths);
    let c2 = deaths_cleared(inds, c, deaths);
    assert forall|j: int| 0 <= j < moves.len() implies move_in_grid(n, c2, #[trigger] moves[j]) by {
        assert(move_in_grid(inds, c, moves[j]));
    }
    lemma_moves_keep_consistency(n, c2, moves, moves.len() as int);
}

} // verus!
