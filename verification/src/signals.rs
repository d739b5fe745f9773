//! Pheromone layers laid over the arena: one 8-bit level per layer and location.
use vstd::prelude::*;

use crate::basic_types::Coord;
use crate::grid::{
    coord_before, in_neighborhood, in_neighborhood_xy, lemma_cell_index, lemma_cell_index_injective, visit_neighborhood,
};

verus! {

pub const SIGNAL_MIN: u8 = 0;

pub const SIGNAL_MAX: u8 = 255;

/// Pheromone levels. Layer `l`, location (x, y) is element
/// `(l * width + x) * height + y` of `data`.
pub struct Signals {
    data: Vec<u8>,
    layers: u16,
    sx: u16,
    sy: u16,
}

/// `v + k`, capped at `SIGNAL_MAX`.
pub open spec fn raised(v: u8, k: int) -> u8 {
    if v + k > 255 {
        255
    } else {
        (v + k) as u8
    }
}

/// Raising a level adds to it up to the maximum 255: the result is
/// `v + k` when that fits, else 255, and never below `v`.
pub proof fn lemma_raised_saturates(v: u8, k: int)
    requires
        k >= 0,
    ensures
        v <= raised(v, k) <= 255,
        v + k <= 255 ==> raised(v, k) == v + k,
        v + k > 255 ==> raised(v, k) == 255,
{
}

impl Signals {
    /// The storage holds one level per layer and location.
    pub closed spec fn wf(&self) -> bool {
        self.data.len() == (self.layers as int * self.sx as int) * self.sy as int
    }

    pub closed spec fn num_layers(&self) -> nat {
        self.layers as nat
    }

    pub closed spec fn width(&self) -> nat {
        self.sx as nat
    }

    pub closed spec fn height(&self) -> nat {
        self.sy as nat
    }

    /// The stored level of layer `l` at the in-bounds location (x, y).
    pub closed spec fn level(&self, l: int, x: int, y: int) -> u8 {
        self.data@[(l * self.sx + x) * self.sy + y]
    }

    pub open spec fn contains(&self, l: int, x: int, y: int) -> bool {
        0 <= l < self.num_layers() && 0 <= x < self.width() && 0 <= y < self.height()
    }

    /// The level of layer `l` at (x, y); 0 outside the layers.
    pub open spec fn magnitude_at(&self, l: int, x: int, y: int) -> u8 {
        if self.contains(l, x, y) {
            self.level(l, x, y)
        } else {
            0
        }
    }

    /// Same dimensions as `other`.
    pub open spec fn same_shape(&self, other: &Signals) -> bool {
        &&& self.num_layers() == other.num_layers()
        &&& self.width() == other.width()
        &&& self.height() == other.height()
    }

    /// No layers.
    pub fn new() -> (s: Signals)
        ensures
            s.wf(),
            s.num_layers() == 0,
            s.width() == 0,
            s.height() == 0,
    {
        Signals { data: Vec::new(), layers: 0, sx: 0, sy: 0 }
    }

    /// `num_layers` layers of `size_x` by `size_y`, every level 0.
    pub fn init(&mut self, num_layers: u16, size_x: u16, size_y: u16)
        ensures
            final(self).wf(),
            final(self).num_layers() == num_layers,
            final(self).width() == size_x,
            final(self).height() == size_y,
            forall|l: int, x: int, y: int| #[trigger] final(self).magnitude_at(l, x, y) == 0,
    {
        assert(num_layers as int * size_x as int <= 0xfffe_0001) by (nonlinear_arith)
            requires
                num_layers <= 0xffff,
                size_x <= 0xffff,
        ;
        assert((num_layers as int * size_x as int) * size_y as int <= 0xfffd_0002_ffff) by (nonlinear_arith)
            requires
                num_layers as int * size_x as int <= 0xfffe_0001,
                size_y <= 0xffff,
        ;
        let n: u64 = (num_layers as u64 * size_x as u64) * size_y as u64;
        let mut data: Vec<u8> = Vec::new();
        while (data.len() as u64) < n
            invariant
                data.len() <= n,
                forall|i: int| 0 <= i < data.len() ==> data@[i] == 0,
            decreases n - data.len(),
        {
            data.push(0);
        }
        *self = Signals { data, layers: num_layers, sx: size_x, sy: size_y };
        assert forall|l: int, x: int, y: int| #[trigger] self.magnitude_at(l, x, y) == 0 by {
            if self.contains(l, x, y) {
                self.lemma_index(l, x, y);
            }
        }
    }

    proof fn lemma_index(&self, l: int, x: int, y: int)
        requires
            self.wf(),
            self.contains(l, x, y),
        ensures
            0 <= (l * self.sx + x) * self.sy + y < self.data.len(),
    {
        lemma_cell_index(l, x, self.layers as int, self.sx as int);
        lemma_cell_index(l * self.sx + x, y, self.layers as int * self.sx as int, self.sy as int);
    }

    proof fn lemma_index_injective(&self, l1: int, x1: int, y1: int, l2: int, x2: int, y2: int)
        requires
            self.wf(),
            self.contains(l1, x1, y1),
            self.contains(l2, x2, y2),
            (l1 * self.sx + x1) * self.sy + y1 == (l2 * self.sx + x2) * self.sy + y2,
        ensures
            l1 == l2 && x1 == x2 && y1 == y2,
    {
        lemma_cell_index(l1, x1, self.layers as int, self.sx as int);
        lemma_cell_index(l2, x2, self.layers as int, self.sx as int);
        lemma_cell_index_injective(l1 * self.sx + x1, y1, l2 * self.sx + x2, y2, self.sy as int);
        lemma_cell_index_injective(l1, x1, l2, x2, self.sx as int);
    }

    /// The position in `data` of layer `l` at the in-bounds location (x, y).
    fn flat_index(&self, l: u16, x: u16, y: u16) -> (i: usize)
        requires
            self.wf(),
            self.contains(l as int, x as int, y as int),
        ensures
            i == (l * self.sx + x) * self.sy + y,
            i < self.data.len(),
    {
        proof {
            self.lemma_index(l as int, x as int, y as int);
            assert(l as int * self.sx as int + x as int <= 0xffff_0000) by (nonlinear_arith)
                requires
                    l <= 0xffff,
                    x < self.sx <= 0xffff,
            ;
            assert((l as int * self.sx as int + x as int) * self.sy as int + y as int
                <= 0xffff_ffff_ffff) by (nonlinear_arith)
                requires
                    l as int * self.sx as int + x as int <= 0xffff_0000,
                    y < self.sy <= 0xffff,
            ;
        }
        let i: u64 = (l as u64 * self.sx as u64 + x as u64) * self.sy as u64 + y as u64;
        i as usize
    }

    /// The position in `data` of layer `layer_num` at `loc`, if inside.
    fn slot(&self, layer_num: u16, loc: Coord) -> (r: Option<usize>)
        requires
            self.wf(),
        ensures
            r is Some <==> self.contains(layer_num as int, loc.x as int, loc.y as int),
            r matches Some(i) ==> i == (layer_num * self.sx + loc.x) * self.sy + loc.y && i
                < self.data.len(),
    {
        if layer_num >= self.layers || loc.x < 0 || loc.x as u16 >= self.sx || loc.y < 0 || loc.y as u16
            >= self.sy {
            return None;
        }
        Some(self.flat_index(layer_num, loc.x as u16, loc.y as u16))
    }

    /// The level of layer `layer_num` at `loc` (0 outside).
    pub fn get_magnitude(&self, layer_num: u16, loc: Coord) -> (r: u8)
        requires
            self.wf(),
        ensures
            r == self.magnitude_at(layer_num as int, loc.x as int, loc.y as int),
    {
        match self.slot(layer_num, loc) {
            Some(i) => self.data[i],
            None => 0,
        }
    }

    /// `self` is `old` with the level of layer `l` at (x, y) set to `v`.
    pub closed spec fn level_set(&self, old: &Signals, l: int, x: int, y: int, v: u8) -> bool {
        &&& self.layers == old.layers
        &&& self.sx == old.sx
        &&& self.sy == old.sy
        &&& old.wf()
        &&& old.contains(l, x, y)
        &&& self.data@ == old.data@.update((l * old.sx + x) * old.sy + y, v)
    }

    /// A level set in place leaves the storage well formed and changes that
    /// level alone.
    pub proof fn lemma_level_set(&self, old: &Signals, l: int, x: int, y: int, v: u8)
        requires
            self.level_set(old, l, x, y, v),
        ensures
            self.wf(),
            self.same_shape(old),
            forall|l2: int, x2: int, y2: int| #[trigger]
                self.magnitude_at(l2, x2, y2) == if l2 == l && x2 == x && y2 == y {
                    v
                } else {
                    old.magnitude_at(l2, x2, y2)
                },
    {
        old.lemma_index(l, x, y);
        assert forall|l2: int, x2: int, y2: int| #[trigger]
            self.magnitude_at(l2, x2, y2) == if l2 == l && x2 == x && y2 == y {
                v
            } else {
                old.magnitude_at(l2, x2, y2)
            } by {
            if old.contains(l2, x2, y2) {
                old.lemma_index(l2, x2, y2);
                if (l2 * old.sx + x2) * old.sy + y2 == (l * old.sx + x) * old.sy + y {
                    old.lemma_index_injective(l2, x2, y2, l, x, y);
                }
            }
        }
    }

    /// The level of layer `layer_num` at `loc`, to change in place, if
    /// inside; `lemma_level_set` tells what the change does.
    pub fn get_mut(&mut self, layer_num: u16, loc: Coord) -> (r: Option<&mut u8>)
        requires
            old(self).wf(),
        ensures
            !old(self).contains(layer_num as int, loc.x as int, loc.y as int) ==> r is None
                && *final(self) == *old(self),
            old(self).contains(layer_num as int, loc.x as int, loc.y as int) ==> r is Some
                && *r->0 == old(self).magnitude_at(layer_num as int, loc.x as int, loc.y as int)
                && final(self).level_set(
                old(self),
                layer_num as int,
                loc.x as int,
                loc.y as int,
                *final(r->0),
            ),
    {
        match self.slot(layer_num, loc) {
            Some(i) => Some(&mut self.data[i]),
            None => None,
        }
    }

    /// Raises by `k` (capped at `SIGNAL_MAX`) the level of layer
    /// `layer_num` at `loc`, if inside.
    fn raise(&mut self, layer_num: u16, loc: Coord, k: u8)
        requires
            old(self).wf(),
        ensures
            final(self).wf(),
            final(self).same_shape(old(self)),
            forall|l: int, x: int, y: int| #[trigger]
                final(self).magnitude_at(l, x, y) == if l == layer_num && x == loc.x && y == loc.y
                    && old(self).contains(l, x, y) {
                    raised(old(self).magnitude_at(l, x, y), k as int)
                } else {
                    old(self).magnitude_at(l, x, y)
                },
    {
        match self.slot(layer_num, loc) {
            Some(i) => {
                let v = self.data[i];
                if v < SIGNAL_MAX {
                    let nv: u16 = v as u16 + k as u16;
                    let nv: u8 = if nv > 255 {
                        255
                    } else {
                        nv as u8
                    };
                    self.data.set(i, nv);
                }
                proof {
                    assert forall|l: int, x: int, y: int| #[trigger]
                        self.magnitude_at(l, x, y) == if l == layer_num && x == loc.x && y == loc.y
                            && old(self).contains(l, x, y) {
                            raised(old(self).magnitude_at(l, x, y), k as int)
                        } else {
                            old(self).magnitude_at(l, x, y)
                        } by {
                        if self.contains(l, x, y) {
                            self.lemma_index(l, x, y);
                            if (l * self.sx + x) * self.sy + y == i {
                                self.lemma_index_injective(
                                    l,
                                    x,
                                    y,
                                    layer_num as int,
                                    loc.x as int,
                                    loc.y as int,
                                );
                            }
                        }
                    }
                }
            },
            None => {},
        }
    }

    /// Emits pheromone at `loc`: every location of layer `layer_num` within
    /// distance 1.5 of `loc` inside the `size_x` by `size_y` area gains 1,
    /// and `loc` itself gains 2 more; levels are capped at `SIGNAL_MAX`.
    pub fn increment(&mut self, layer_num: u16, loc: Coord, size_x: u16, size_y: u16)
        requires
            old(self).wf(),
        ensures
            final(self).wf(),
            final(self).same_shape(old(self)),
            forall|l: int, x: int, y: int| #[trigger]
                final(self).magnitude_at(l, x, y) == ({
                    let v1 = if l == layer_num && x <= 32767 && y <= 32767 && in_neighborhood_xy(
                        loc,
                        x,
                        y,
                        3,
                        2,
                        size_x as int,
                        size_y as int,
                    ) && old(self).contains(l, x, y) {
                        raised(old(self).magnitude_at(l, x, y), 1)
                    } else {
                        old(self).magnitude_at(l, x, y)
                    };
                    if l == layer_num && x == loc.x && y == loc.y && old(self).contains(l, x, y) {
                        raised(v1, 2)
                    } else {
                        v1
                    }
                }),
    {
        let hood = visit_neighborhood(loc, 3, 2, size_x, size_y);
        let ghost start = *self;
        let mut i: usize = 0;
        while i < hood.len()
            invariant
                i <= hood.len(),
                self.wf(),
                self.same_shape(&start),
                start.wf(),
                forall|a: int, b: int| 0 <= a < b < hood.len() ==> coord_before(#[trigger] hood@[a], #[trigger] hood@[b]),
                forall|a: int| 0 <= a < hood.len() ==> in_neighborhood(loc, #[trigger] hood@[a], 3, 2, size_x as int, size_y as int),
                forall|c: Coord| in_neighborhood(loc, c, 3, 2, size_x as int, size_y as int) ==> #[trigger] hood@.contains(c),
                forall|l: int, x: int, y: int| #[trigger]
                    self.magnitude_at(l, x, y) == if l == layer_num && start.contains(l, x, y) && exists|a: int| 0 <= a < i && hood@[a].x == x && hood@[a].y == y {
                        raised(start.magnitude_at(l, x, y), 1)
                    } else {
                        start.magnitude_at(l, x, y)
                    },
            decreases hood.len() - i,
        {
            let c = hood[i];
            let ghost before = *self;
            self.raise(layer_num, c, 1);
            proof {
                assert forall|l: int, x: int, y: int| #[trigger]
                    self.magnitude_at(l, x, y) == if l == layer_num && start.contains(l, x, y) && exists|a: int| 0 <= a < i + 1 && hood@[a].x == x && hood@[a].y == y {
                        raised(start.magnitude_at(l, x, y), 1)
                    } else {
                        start.magnitude_at(l, x, y)
                    } by {
                    if l == layer_num && x == c.x && y == c.y {
                        assert(hood@[i as int].x == x && hood@[i as int].y == y);
                        if exists|a: int| 0 <= a < i && hood@[a].x == x && hood@[a].y == y {
                            let a = choose|a: int| 0 <= a < i && hood@[a].x == x && hood@[a].y == y;
                            assert(coord_before(hood@[a], hood@[i as int]));
                        }
                    } else if l == layer_num && start.contains(l, x, y) && exists|a: int| 0 <= a < i + 1 && hood@[a].x == x && hood@[a].y == y {
                        let a = choose|a: int| 0 <= a < i + 1 && hood@[a].x == x && hood@[a].y == y;
                        if a == i {
                            assert(x == c.x && y == c.y);
                        }
                        assert(exists|a: int| 0 <= a < i && hood@[a].x == x && hood@[a].y == y);
                    }
                }
            }
            i = i + 1;
        }
        let ghost mid = *self;
        self.raise(layer_num, loc, 2);
        proof {
            assert forall|l: int, x: int, y: int| #[trigger]
                self.magnitude_at(l, x, y) == ({
                    let v1 = if l == layer_num && x <= 32767 && y <= 32767 && in_neighborhood_xy(
                        loc,
                        x,
                        y,
                        3,
                        2,
                        size_x as int,
                        size_y as int,
                    ) && start.contains(l, x, y) {
                        raised(start.magnitude_at(l, x, y), 1)
                    } else {
                        start.magnitude_at(l, x, y)
                    };
                    if l == layer_num && x == loc.x && y == loc.y && old(self).contains(l, x, y) {
                        raised(v1, 2)
                    } else {
                        v1
                    }
                }) by {
                assert(mid.magnitude_at(l, x, y) == if l == layer_num && start.contains(l, x, y) && exists|a: int| 0 <= a < hood.len() && hood@[a].x == x && hood@[a].y == y {
                        raised(start.magnitude_at(l, x, y), 1)
                    } else {
                        start.magnitude_at(l, x, y)
                    });
                if l == layer_num && start.contains(l, x, y) {
                    if x <= 32767 && y <= 32767 && in_neighborhood_xy(loc, x, y, 3, 2, size_x as int, size_y as int) {
                        let cc = Coord { x: x as i16, y: y as i16 };
                        assert(cc.x == x && cc.y == y);
                        assert(in_neighborhood(loc, cc, 3, 2, size_x as int, size_y as int));
                        assert(hood@.contains(cc));
                        let a = choose|a: int| 0 <= a < hood.len() && hood@[a] == cc;
                        assert(hood@[a].x == x && hood@[a].y == y);
                    }
                    if exists|a: int| 0 <= a < hood.len() && hood@[a].x == x && hood@[a].y == y {
                        let a = choose|a: int| 0 <= a < hood.len() && hood@[a].x == x && hood@[a].y == y;
                        assert(in_neighborhood(loc, hood@[a], 3, 2, size_x as int, size_y as int));
                    }
                }
            }
        }
    }

    /// Sets every level of every layer to 0.
    pub fn zero_fill(&mut self)
        requires
            old(self).wf(),
        ensures
            final(self).wf(),
            final(self).same_shape(old(self)),
            forall|l: int, x: int, y: int| #[trigger] final(self).magnitude_at(l, x, y) == 0,
    {
        let l = self.layers;
        let w = self.sx;
        let h = self.sy;
        self.init(l, w, h);
    }

    /// Lowers by 1 (not below 0) the level of layer `layer` at (x, y), if inside.
    fn dim(&mut self, layer: u16, x: u16, y: u16)
        requires
            old(self).wf(),
        ensures
            final(self).wf(),
            final(self).same_shape(old(self)),
            forall|l: int, a: int, b: int| #[trigger]
                final(self).magnitude_at(l, a, b) == if l == layer && a == x && b == y
                    && old(self).magnitude_at(l, a, b) > 0 {
                    (old(self).magnitude_at(l, a, b) - 1) as u8
                } else {
                    old(self).magnitude_at(l, a, b)
                },
    {
        if let Some(i) = self.slot_xy(layer, x, y) {
            let v = self.data[i];
            if v >= 1 {
                self.data.set(i, v - 1);
            }
            proof {
                assert forall|l: int, a: int, b: int| #[trigger]
                    self.magnitude_at(l, a, b) == if l == layer && a == x && b == y
                        && old(self).magnitude_at(l, a, b) > 0 {
                        (old(self).magnitude_at(l, a, b) - 1) as u8
                    } else {
                        old(self).magnitude_at(l, a, b)
                    } by {
                    if self.contains(l, a, b) {
                        self.lemma_index(l, a, b);
                        if (l * self.sx + a) * self.sy + b == i {
                            self.lemma_index_injective(l, a, b, layer as int, x as int, y as int);
                        }
                    }
                }
            }
        }
    }

    /// Lowers by 1 (not below 0) every level of layer `layer_num` within
    /// the `size_x` by `size_y` area; other layers are unchanged.
    pub fn fade(&mut self, layer_num: usize, size_x: u16, size_y: u16)
        requires
            old(self).wf(),
        ensures
            final(self).wf(),
            final(self).same_shape(old(self)),
            forall|l: int, x: int, y: int| #[trigger]
                final(self).magnitude_at(l, x, y) == if l == layer_num && x < size_x && y < size_y
                    && old(self).magnitude_at(l, x, y) > 0 {
                    (old(self).magnitude_at(l, x, y) - 1) as u8
                } else {
                    old(self).magnitude_at(l, x, y)
                },
    {
        if layer_num >= self.layers as usize {
            return;
        }
        let layer = layer_num as u16;
        let ghost start = *self;
        let mut x: u16 = 0;
        while x < size_x
            invariant
                self.wf(),
                self.same_shape(&start),
                start.wf(),
                layer == layer_num,
                x <= size_x,
                forall|l: int, a: int, b: int| #[trigger]
                    self.magnitude_at(l, a, b) == if l == layer_num && a < x && b < size_y
                        && start.magnitude_at(l, a, b) > 0 {
                        (start.magnitude_at(l, a, b) - 1) as u8
                    } else {
                        start.magnitude_at(l, a, b)
                    },
            decreases size_x - x,
        {
            let mut y: u16 = 0;
            while y < size_y
                invariant
                    self.wf(),
                    self.same_shape(&start),
                    start.wf(),
                    x < size_x,
                    y <= size_y,
                    layer == layer_num,
                    forall|l: int, a: int, b: int| #[trigger]
                        self.magnitude_at(l, a, b) == if l == layer_num && (a < x || (a == x && b < y))
                            && b < size_y && start.magnitude_at(l, a, b) > 0 {
                            (start.magnitude_at(l, a, b) - 1) as u8
                        } else {
                            start.magnitude_at(l, a, b)
                        },
                decreases size_y - y,
            {
                self.dim(layer, x, y);
                y = y + 1;
            }
            x = x + 1;
        }
    }

    /// The position in `data` of layer `layer` at (x, y), if inside.
    fn slot_xy(&self, layer: u16, x: u16, y: u16) -> (r: Option<usize>)
        requires
            self.wf(),
        ensures
            r is Some <==> self.contains(layer as int, x as int, y as int),
            r matches Some(i) ==> i == (layer * self.sx + x) * self.sy + y && i < self.data.len(),
    {
        if layer >= self.layers || x >= self.sx || y >= self.sy {
            return None;
        }
        Some(self.flat_index(layer, x, y))
    }
}

impl Default for Signals {
    fn default() -> (s: Signals)
        ensures
            s.wf(),
            s.num_layers() == 0,
    {
        Signals::new()
    }
}

} // verus!
