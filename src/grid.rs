use rand::rngs::StdRng;
use vstd::prelude::*;

use crate::material::{valid_base_lifetime, Strain};

verus! {

/// One cell's content.
#[derive(Clone, Copy, Debug, PartialEq, Eq, Structural)]
pub struct Particle {
    pub strain: Strain,
    /// Parity of the tick that last processed this particle.
    pub update: bool,
    /// Ticks left before decay; negative means the particle never decays.
    pub lifetime: i16,
}

pub open spec fn empty_particle() -> Particle {
    Particle { strain: Strain::Empty, update: false, lifetime: -1i16 }
}

impl Default for Particle {
    fn default() -> (r: Particle)
        ensures
            r == empty_particle(),
    {
        Particle { strain: Strain::Empty, update: false, lifetime: -1 }
    }
}

/// Flat index of the cell `(x, y)` in a grid `w` cells wide.
pub open spec fn idx(w: int, x: int, y: int) -> int {
    x + w * y
}

pub open spec fn in_bounds(w: int, h: int, x: int, y: int) -> bool {
    0 <= x < w && 0 <= y < h
}

/// `g` with the contents of cells `i` and `j` exchanged.
pub open spec fn swap_cells(g: Seq<Particle>, i: int, j: int) -> Seq<Particle> {
    g.update(i, g[j]).update(j, g[i])
}

/// Every cell in bounds has an index inside the flat buffer.
pub proof fn lemma_index_in_range(w: int, h: int, x: int, y: int)
    requires
        in_bounds(w, h, x, y),
    ensures
        0 <= w * y <= idx(w, x, y) < w * h,
{
    assert(0 <= w * y && x + w * y < w * h) by (nonlinear_arith)
        requires
            0 <= x < w,
            0 <= y < h,
    ;
}

/// Distinct cells in bounds have distinct indices.
pub proof fn lemma_index_injective(w: int, h: int, x1: int, y1: int, x2: int, y2: int)
    requires
        in_bounds(w, h, x1, y1),
        in_bounds(w, h, x2, y2),
        idx(w, x1, y1) == idx(w, x2, y2),
    ensures
        x1 == x2 && y1 == y2,
{
    if y1 < y2 {
        assert(x1 + w * y1 < x2 + w * y2) by (nonlinear_arith)
            requires
                0 <= x1 < w,
                0 <= x2,
                y1 < y2,
        ;
    } else if y2 < y1 {
        assert(x2 + w * y2 < x1 + w * y1) by (nonlinear_arith)
            requires
                0 <= x2 < w,
                0 <= x1,
                y2 < y1,
        ;
    }
}

/// Column of the `i`-th cell of a brush stroke centred at column `x`; the
/// cells are the centre, left, right, above and below.
pub open spec fn brush_x(x: int, i: int) -> int {
    if i == 1 {
        x - 1
    } else if i == 2 {
        x + 1
    } else {
        x
    }
}

/// Row of the `i`-th cell of a brush stroke centred at row `y`.
pub open spec fn brush_y(y: int, i: int) -> int {
    if i == 3 {
        y - 1
    } else if i == 4 {
        y + 1
    } else {
        y
    }
}

/// The simulation: a `width × height` grid of particles and the tick parity.
pub struct FallingSand {
    grid: Vec<Particle>,
    grid_width: usize,
    grid_height: usize,
    update: bool,
    particles_updated: u64,
}

impl FallingSand {
    /// The cells, row by row from the top.
    pub closed spec fn cells(&self) -> Seq<Particle> {
        self.grid@
    }

    pub closed spec fn cols(&self) -> int {
        self.grid_width as int
    }

    pub closed spec fn rows(&self) -> int {
        self.grid_height as int
    }

    /// The tick parity: a particle is due this tick when its flag equals it.
    pub closed spec fn parity(&self) -> bool {
        self.update
    }

    /// Particles processed by the last tick.
    pub closed spec fn last_updated(&self) -> int {
        self.particles_updated as int
    }

    pub open spec fn wf(&self) -> bool {
        self.cells().len() == self.cols() * self.rows()
    }

    /// Same dimensions, parity and counter as `o`.
    pub open spec fn same_frame(&self, o: FallingSand) -> bool {
        &&& self.cols() == o.cols()
        &&& self.rows() == o.rows()
        &&& self.parity() == o.parity()
        &&& self.last_updated() == o.last_updated()
    }

    pub open spec fn cell(&self, x: int, y: int) -> Particle {
        self.cells()[idx(self.cols(), x, y)]
    }

    /// A grid of `x × y` empty cells.
    pub fn new(x: usize, y: usize) -> (r: FallingSand)
        requires
            x * y <= usize::MAX,
        ensures
            r.wf(),
            r.cols() == x,
            r.rows() == y,
            r.cells() == Seq::new((x * y) as nat, |i: int| empty_particle()),
            !r.parity(),
            r.last_updated() == 0,
    {
        let grid = vec![Particle::default(); x * y];
        let r = FallingSand {
            grid,
            grid_width: x,
            grid_height: y,
            update: false,
            particles_updated: 0,
        };
        assert(r.cells() =~= Seq::new((x * y) as nat, |i: int| empty_particle()));
        r
    }

    /// Closes a tick: records its count and flips the parity.
    pub(crate) fn end_tick(&mut self, count: u64)
        ensures
            final(self).cells() == old(self).cells(),
            final(self).cols() == old(self).cols(),
            final(self).rows() == old(self).rows(),
            final(self).parity() == !old(self).parity(),
            final(self).last_updated() == count,
    {
        self.particles_updated = count;
        self.update = !self.update;
    }

    /// Number of cells, `width × height`.
    pub fn cell_count(&self) -> (r: usize)
        ensures
            r == self.cells().len(),
    {
        self.grid.len()
    }

    pub fn width(&self) -> (r: usize)
        ensures
            r == self.cols(),
    {
        self.grid_width
    }

    pub fn height(&self) -> (r: usize)
        ensures
            r == self.rows(),
    {
        self.grid_height
    }

    /// The current tick parity.
    pub fn parity_flag(&self) -> (r: bool)
        ensures
            r == self.parity(),
    {
        self.update
    }

    /// Number of particles the last tick processed.
    pub fn particles_updated(&self) -> (r: u64)
        ensures
            r == self.last_updated(),
    {
        self.particles_updated
    }

    pub fn index(&self, x: usize, y: usize) -> (r: usize)
        requires
            self.wf(),
            x < self.cols(),
            y < self.rows(),
        ensures
            r == idx(self.cols(), x as int, y as int),
            r < self.cells().len(),
    {
        proof {
            lemma_index_in_range(self.cols(), self.rows(), x as int, y as int);
        }
        let n = self.grid.len();
        assert(n == self.cols() * self.rows());
        x + self.grid_width * y
    }

    pub fn get(&self, x: usize, y: usize) -> (r: Particle)
        requires
            self.wf(),
            x < self.cols(),
            y < self.rows(),
        ensures
            r == self.cell(x as int, y as int),
    {
        let i = self.index(x, y);
        self.grid[i]
    }

    pub fn set(&mut self, x: usize, y: usize, p: Particle)
        requires
            old(self).wf(),
            x < old(self).cols(),
            y < old(self).rows(),
        ensures
            final(self).cells() == old(self).cells().update(idx(old(self).cols(), x as int, y as int), p),
            final(self).cols() == old(self).cols(),
            final(self).rows() == old(self).rows(),
            final(self).parity() == old(self).parity(),
            final(self).last_updated() == old(self).last_updated(),
            final(self).wf(),
    {
        let i = self.index(x, y);
        self.grid.set(i, p);
    }

    /// Changes the material of a cell, keeping its flag and lifetime.
    pub fn set_strain(&mut self, x: usize, y: usize, s: Strain)
        requires
            old(self).wf(),
            x < old(self).cols(),
            y < old(self).rows(),
        ensures
            final(self).cells() == old(self).cells().update(
                idx(old(self).cols(), x as int, y as int),
                Particle { strain: s, ..old(self).cell(x as int, y as int) },
            ),
            final(self).cols() == old(self).cols(),
            final(self).rows() == old(self).rows(),
            final(self).parity() == old(self).parity(),
            final(self).last_updated() == old(self).last_updated(),
            final(self).wf(),
    {
        let p = self.get(x, y);
        self.set(x, y, Particle { strain: s, ..p });
    }

    pub fn is_particle_empty(&self, x: usize, y: usize) -> (r: bool)
        requires
            self.wf(),
            x < self.cols(),
            y < self.rows(),
        ensures
            r == (self.cell(x as int, y as int).strain == Strain::Empty),
    {
        self.get(x, y).strain == Strain::Empty
    }

    /// The material at `(x, y)`.
    pub fn material_at(&self, x: usize, y: usize) -> (r: Strain)
        requires
            self.wf(),
            x < self.cols(),
            y < self.rows(),
        ensures
            r == self.cell(x as int, y as int).strain,
    {
        self.get(x, y).strain
    }

    /// Exchanges the whole contents of two cells.
    pub fn swap(&mut self, x1: usize, y1: usize, x2: usize, y2: usize)
        requires
            old(self).wf(),
            x1 < old(self).cols(),
            y1 < old(self).rows(),
            x2 < old(self).cols(),
            y2 < old(self).rows(),
        ensures
            final(self).cells() == swap_cells(
                old(self).cells(),
                idx(old(self).cols(), x1 as int, y1 as int),
                idx(old(self).cols(), x2 as int, y2 as int),
            ),
            final(self).cols() == old(self).cols(),
            final(self).rows() == old(self).rows(),
            final(self).parity() == old(self).parity(),
            final(self).last_updated() == old(self).last_updated(),
            final(self).wf(),
    {
        let cur = self.get(x1, y1);
        let other = self.get(x2, y2);
        self.set(x1, y1, other);
        self.set(x2, y2, cur);
    }

    /// Writes `p` at `(x, y)`; a cell out of bounds is ignored.
    pub fn spawn_particle(&mut self, x: usize, y: usize, p: Particle)
        requires
            old(self).wf(),
        ensures
            final(self).cells() == (if in_bounds(old(self).cols(), old(self).rows(), x as int, y as int) {
                old(self).cells().update(idx(old(self).cols(), x as int, y as int), p)
            } else {
                old(self).cells()
            }),
            final(self).cols() == old(self).cols(),
            final(self).rows() == old(self).rows(),
            final(self).parity() == old(self).parity(),
            final(self).last_updated() == old(self).last_updated(),
            final(self).wf(),
    {
        if x < self.grid_width && y < self.grid_height {
            self.set(x, y, p);
        }
    }

    /// Places a fresh particle of `m` at `(x, y)`, with a flag that keeps it
    /// out of the next tick and a freshly drawn lifetime; a cell out of bounds
    /// is ignored.
    pub fn spawn_at(&mut self, x: usize, y: usize, m: Strain, rng: &mut StdRng)
        requires
            old(self).wf(),
        ensures
            in_bounds(old(self).cols(), old(self).rows(), x as int, y as int) ==> {
                let p = final(self).cell(x as int, y as int);
                &&& final(self).cells() == old(self).cells().update(
                    idx(old(self).cols(), x as int, y as int),
                    p,
                )
                &&& p.strain == m
                &&& p.update == !old(self).parity()
                &&& valid_base_lifetime(m, p.lifetime as int)
            },
            !in_bounds(old(self).cols(), old(self).rows(), x as int, y as int) ==> final(self).cells()
                == old(self).cells(),
            final(self).cols() == old(self).cols(),
            final(self).rows() == old(self).rows(),
            final(self).parity() == old(self).parity(),
            final(self).last_updated() == old(self).last_updated(),
            final(self).wf(),
    {
        if x < self.grid_width && y < self.grid_height {
            let lifetime = m.base_lifetime(rng);
            let p = Particle { strain: m, update: !self.update, lifetime };
            self.set(x, y, p);
            proof {
                lemma_index_in_range(self.cols(), self.rows(), x as int, y as int);
            }
        }
    }

    /// Fills row `row` with `strain`: each cell of the row gets the material
    /// and a freshly drawn lifetime for it, and keeps its flag.
    pub fn set_row(&mut self, strain: Strain, row: usize, rng: &mut StdRng)
        requires
            old(self).wf(),
            row < old(self).rows(),
        ensures
            forall|x: int, y: int|
                in_bounds(old(self).cols(), old(self).rows(), x, y) && y != row ==> #[trigger] final(self).cell(x, y)
                    == old(self).cell(x, y),
            forall|x: int|
                0 <= x < old(self).cols() ==> {
                    let p = #[trigger] final(self).cell(x, row as int);
                    &&& p.strain == strain
                    &&& p.update == old(self).cell(x, row as int).update
                    &&& valid_base_lifetime(strain, p.lifetime as int)
                },
            final(self).same_frame(*old(self)),
            final(self).wf(),
    {
        let w = self.width();
        let mut x: usize = 0;
        while x < w
            invariant
                self.wf(),
                self.same_frame(*old(self)),
                w == self.cols(),
                row < self.rows(),
                x <= w,
                forall|cx: int, cy: int|
                    in_bounds(self.cols(), self.rows(), cx, cy) && !(cy == row && cx < x) ==> #[trigger] self.cell(
                        cx,
                        cy,
                    ) == old(self).cell(cx, cy),
                forall|cx: int|
                    0 <= cx < x ==> {
                        let p = #[trigger] self.cell(cx, row as int);
                        &&& p.strain == strain
                        &&& p.update == old(self).cell(cx, row as int).update
                        &&& valid_base_lifetime(strain, p.lifetime as int)
                    },
            decreases w - x,
        {
            let ghost before = *self;
            proof {
                lemma_index_in_range(self.cols(), self.rows(), x as int, row as int);
                assert(before.cell(x as int, row as int) == old(self).cell(x as int, row as int));
            }
            let p = self.get(x, row);
            let lifetime = strain.base_lifetime(rng);
            self.set(x, row, Particle { strain, update: p.update, lifetime });
            proof {
                assert forall|cx: int, cy: int|
                    in_bounds(self.cols(), self.rows(), cx, cy) && !(cx == x && cy == row) implies #[trigger] self.cell(
                    cx,
                    cy,
                ) == before.cell(cx, cy) by {
                    lemma_index_in_range(self.cols(), self.rows(), cx, cy);
                    if idx(self.cols(), cx, cy) == idx(self.cols(), x as int, row as int) {
                        lemma_index_injective(self.cols(), self.rows(), cx, cy, x as int, row as int);
                    }
                }
                assert forall|cx: int| 0 <= cx < x + 1 implies {
                    let p = #[trigger] self.cell(cx, row as int);
                    &&& p.strain == strain
                    &&& p.update == old(self).cell(cx, row as int).update
                    &&& valid_base_lifetime(strain, p.lifetime as int)
                } by {
                    if cx < x {
                        assert(self.cell(cx, row as int) == before.cell(cx, row as int));
                    }
                }
            }
            x = x + 1;
        }
    }

    /// Brush stroke on one cell: spawns `m` at `(x, y)` when the cell is in
    /// the grid and empty, or always when `m` is `Empty` (the eraser).
    pub fn paint_cell(&mut self, x: usize, y: usize, m: Strain, rng: &mut StdRng)
        requires
            old(self).wf(),
        ensures
            ({
                let hit = in_bounds(old(self).cols(), old(self).rows(), x as int, y as int) && (m
                    == Strain::Empty || old(self).cell(x as int, y as int).strain == Strain::Empty);
                let p = final(self).cell(x as int, y as int);
                &&& hit ==> final(self).cells() == old(self).cells().update(
                    idx(old(self).cols(), x as int, y as int),
                    p,
                ) && p.strain == m && p.update == !old(self).parity() && valid_base_lifetime(
                    m,
                    p.lifetime as int,
                )
                &&& !hit ==> final(self).cells() == old(self).cells()
            }),
            forall|cx: int, cy: int|
                in_bounds(old(self).cols(), old(self).rows(), cx, cy) && !(cx == x && cy == y)
                    ==> #[trigger] final(self).cell(cx, cy) == old(self).cell(cx, cy),
            final(self).same_frame(*old(self)),
            final(self).wf(),
    {
        if x < self.grid_width && y < self.grid_height {
            if m == Strain::Empty || self.is_particle_empty(x, y) {
                let ghost start = *self;
                self.spawn_at(x, y, m, rng);
                proof {
                    assert forall|cx: int, cy: int|
                        in_bounds(start.cols(), start.rows(), cx, cy) && !(cx == x && cy == y)
                            implies #[trigger] self.cell(cx, cy) == start.cell(cx, cy) by {
                        lemma_index_in_range(start.cols(), start.rows(), cx, cy);
                        lemma_index_in_range(start.cols(), start.rows(), x as int, y as int);
                        if idx(start.cols(), cx, cy) == idx(start.cols(), x as int, y as int) {
                            lemma_index_injective(start.cols(), start.rows(), cx, cy, x as int, y as int);
                        }
                    }
                }
            }
        }
    }

    /// One cell of a brush stroke from `a` to `b`: a cell in the grid that
    /// was empty, or any cell in the grid when `m` is `Empty`, now holds a
    /// fresh particle of `m` flagged out of the next tick; any other cell in
    /// the grid is unchanged.
    pub open spec fn brushed(a: FallingSand, b: FallingSand, cx: int, cy: int, m: Strain) -> bool {
        in_bounds(a.cols(), a.rows(), cx, cy) ==> {
            let hit = m == Strain::Empty || a.cell(cx, cy).strain == Strain::Empty;
            let p = b.cell(cx, cy);
            &&& hit ==> p.strain == m && p.update == !a.parity() && valid_base_lifetime(
                m,
                p.lifetime as int,
            )
            &&& !hit ==> p == a.cell(cx, cy)
        }
    }

    /// Brush stroke: paints `(x, y)` and its four axis neighbours that lie
    /// in the grid.
    pub fn paint(&mut self, x: usize, y: usize, m: Strain, rng: &mut StdRng)
        requires
            old(self).wf(),
        ensures
            final(self).same_frame(*old(self)),
            final(self).wf(),
            Self::brushed(*old(self), *final(self), x as int, y as int, m),
            Self::brushed(*old(self), *final(self), x - 1, y as int, m),
            Self::brushed(*old(self), *final(self), x + 1, y as int, m),
            Self::brushed(*old(self), *final(self), x as int, y - 1, m),
            Self::brushed(*old(self), *final(self), x as int, y + 1, m),
            forall|cx: int, cy: int|
                in_bounds(old(self).cols(), old(self).rows(), cx, cy) && !(cx == x && cy == y) && !(
                cx == x - 1 && cy == y) && !(cx == x + 1 && cy == y) && !(cx == x && cy == y - 1)
                    && !(cx == x && cy == y + 1) ==> #[trigger] final(self).cell(cx, cy) == old(self).cell(cx, cy),
    {
        let ghost start = *self;
        let mut j: usize = 0;
        while j < 5
            invariant
                self.wf(),
                self.same_frame(start),
                start == *old(self),
                j <= 5,
                forall|i: int|
                    0 <= i < j ==> #[trigger] Self::brushed(start, *self, brush_x(x as int, i), brush_y(y as int, i), m),
                forall|i: int|
                    j <= i < 5 && in_bounds(start.cols(), start.rows(), brush_x(x as int, i), brush_y(y as int, i))
                        ==> #[trigger] self.cell(brush_x(x as int, i), brush_y(y as int, i)) == start.cell(
                        brush_x(x as int, i),
                        brush_y(y as int, i),
                    ),
                forall|cx: int, cy: int|
                    in_bounds(start.cols(), start.rows(), cx, cy) && !(cx == x && cy == y) && !(cx == x - 1
                        && cy == y) && !(cx == x + 1 && cy == y) && !(cx == x && cy == y - 1) && !(cx == x
                        && cy == y + 1) ==> #[trigger] self.cell(cx, cy) == start.cell(cx, cy),
            decreases 5 - j,
        {
            let target: Option<(usize, usize)> = if j == 0 {
                Some((x, y))
            } else if j == 1 {
                if x > 0 { Some((x - 1, y)) } else { None }
            } else if j == 2 {
                if x < usize::MAX { Some((x + 1, y)) } else { None }
            } else if j == 3 {
                if y > 0 { Some((x, y - 1)) } else { None }
            } else {
                if y < usize::MAX { Some((x, y + 1)) } else { None }
            };
            let ghost before = *self;
            match target {
                Some((px, py)) => {
                    self.paint_cell(px, py, m, rng);
                },
                None => {},
            }
            proof {
                let (bx, by) = (brush_x(x as int, j as int), brush_y(y as int, j as int));
                assert(Self::brushed(start, *self, bx, by, m));
                assert forall|i: int| 0 <= i < j + 1 implies #[trigger] Self::brushed(
                    start,
                    *self,
                    brush_x(x as int, i),
                    brush_y(y as int, i),
                    m,
                ) by {
                    if i < j {
                        assert(Self::brushed(start, before, brush_x(x as int, i), brush_y(y as int, i), m));
                    }
                }
            }
            j = j + 1;
        }
        proof {
            assert(Self::brushed(start, *self, brush_x(x as int, 0), brush_y(y as int, 0), m));
            assert(Self::brushed(start, *self, brush_x(x as int, 1), brush_y(y as int, 1), m));
            assert(Self::brushed(start, *self, brush_x(x as int, 2), brush_y(y as int, 2), m));
            assert(Self::brushed(start, *self, brush_x(x as int, 3), brush_y(y as int, 3), m));
            assert(Self::brushed(start, *self, brush_x(x as int, 4), brush_y(y as int, 4), m));
        }
    }


}

} // verus!
