use rand::rngs::StdRng;
use vstd::prelude::*;

use crate::dice::{draw_cell, CellDraws};
use crate::grid::{idx, swap_cells, FallingSand, Particle};
use crate::material::{spec_death_strain, spec_density, spec_ignite_chance, spec_reaction, Strain};

verus! {

// ---------------------------------------------------------------------
// Movement primitives, on the flat cell sequence `g` of a `w × h` grid.
// ---------------------------------------------------------------------

/// The particle at `(x, y)` may move to `(x, y + dir)`: that cell is in the
/// grid and is empty or holds something strictly lighter.
pub open spec fn can_fall(g: Seq<Particle>, w: int, h: int, x: int, y: int, dir: int) -> bool {
    let t = g[idx(w, x, y + dir)].strain;
    0 <= y + dir < h && (t == Strain::Empty || spec_density(t) < spec_density(
        g[idx(w, x, y)].strain,
    ))
}

pub open spec fn fallen(g: Seq<Particle>, w: int, h: int, x: int, y: int, dir: int) -> Seq<Particle> {
    if can_fall(g, w, h, x, y, dir) {
        swap_cells(g, idx(w, x, y), idx(w, x, y + dir))
    } else {
        g
    }
}

/// Horizontal step of a diagonal tumble: -1 down-left, 1 down-right, 0 when
/// neither diagonal below is an empty cell of the grid.
pub open spec fn tumble_dx(g: Seq<Particle>, w: int, h: int, x: int, y: int) -> int {
    if y + 1 < h && x > 0 && g[idx(w, x - 1, y + 1)].strain == Strain::Empty {
        -1
    } else if y + 1 < h && x + 1 < w && g[idx(w, x + 1, y + 1)].strain == Strain::Empty {
        1
    } else {
        0
    }
}

pub open spec fn tumbled(g: Seq<Particle>, w: int, h: int, x: int, y: int) -> Seq<Particle> {
    let dx = tumble_dx(g, w, h, x, y);
    if dx != 0 {
        swap_cells(g, idx(w, x, y), idx(w, x + dx, y + 1))
    } else {
        g
    }
}

pub open spec fn side_dx(go_left: bool) -> int {
    if go_left {
        -1
    } else {
        1
    }
}

/// The side neighbour in the chosen direction is an empty cell of the grid.
pub open spec fn can_spread(g: Seq<Particle>, w: int, h: int, x: int, y: int, go_left: bool) -> bool {
    let nx = x + side_dx(go_left);
    0 <= nx < w && g[idx(w, nx, y)].strain == Strain::Empty
}

pub open spec fn spread(g: Seq<Particle>, w: int, h: int, x: int, y: int, go_left: bool) -> Seq<
    Particle,
> {
    if can_spread(g, w, h, x, y, go_left) {
        swap_cells(g, idx(w, x, y), idx(w, x + side_dx(go_left), y))
    } else {
        g
    }
}

/// The particle at `(x, y)` is strictly denser than the one below it.
pub open spec fn can_sink(g: Seq<Particle>, w: int, h: int, x: int, y: int) -> bool {
    y + 1 < h && spec_density(g[idx(w, x, y)].strain) > spec_density(g[idx(w, x, y + 1)].strain)
}

pub open spec fn sunk(g: Seq<Particle>, w: int, h: int, x: int, y: int) -> Seq<Particle> {
    if can_sink(g, w, h, x, y) {
        swap_cells(g, idx(w, x, y), idx(w, x, y + 1))
    } else {
        g
    }
}

// ---------------------------------------------------------------------
// Contact rules: reactions and ignition.
// ---------------------------------------------------------------------

/// Index of the `k`-th axis neighbour of `(x, y)` (left, right, up, down),
/// when it lies in the grid.
pub open spec fn neighbor(w: int, h: int, x: int, y: int, k: int) -> Option<int> {
    if k == 0 {
        if x > 0 { Some(idx(w, x - 1, y)) } else { None }
    } else if k == 1 {
        if x + 1 < w { Some(idx(w, x + 1, y)) } else { None }
    } else if k == 2 {
        if y > 0 { Some(idx(w, x, y - 1)) } else { None }
    } else if k == 3 {
        if y + 1 < h { Some(idx(w, x, y + 1)) } else { None }
    } else {
        None
    }
}

/// First neighbour, from the `k`-th on, that holds material `t`.
pub open spec fn first_with(g: Seq<Particle>, w: int, h: int, x: int, y: int, t: Strain, k: int) -> Option<int>
    decreases 4 - k,
{
    if 4 <= k {
        None
    } else {
        match neighbor(w, h, x, y, k) {
            Some(j) if g[j].strain == t => Some(j),
            _ => first_with(g, w, h, x, y, t, k + 1),
        }
    }
}

/// First neighbour, from the `k`-th on, that fire can set alight.
pub open spec fn first_ignitable(g: Seq<Particle>, w: int, h: int, x: int, y: int, k: int) -> Option<int>
    decreases 4 - k,
{
    if 4 <= k {
        None
    } else {
        match neighbor(w, h, x, y, k) {
            Some(j) if spec_ignite_chance(g[j].strain) > 0 => Some(j),
            _ => first_ignitable(g, w, h, x, y, k + 1),
        }
    }
}

/// What material `m` at `(x, y)` turns into by its contact rule, given the
/// percent roll: its trigger must touch the cell and the roll fall below
/// the chance.
pub open spec fn reaction_result(g: Seq<Particle>, w: int, h: int, x: int, y: int, m: Strain, roll: u8) -> Option<Strain> {
    match spec_reaction(m) {
        Some(r) => if first_with(g, w, h, x, y, r.trigger, 0).is_some() && roll < r.chance {
            Some(r.result)
        } else {
            None
        },
        None => None,
    }
}

/// Fire at `(x, y)` tries the first ignitable neighbour: on a roll below
/// its chance, that neighbour becomes fire with a fresh lifetime.
pub open spec fn ignited(g: Seq<Particle>, w: int, h: int, x: int, y: int, d: CellDraws) -> Seq<Particle> {
    match first_ignitable(g, w, h, x, y, 0) {
        Some(j) => if d.ignite_roll < spec_ignite_chance(g[j].strain) {
            g.update(j, Particle { strain: Strain::Fire, lifetime: d.fire_lifetime, ..g[j] })
        } else {
            g
        },
        None => g,
    }
}

// ---------------------------------------------------------------------
// One cell's update.
// ---------------------------------------------------------------------

/// Tumble, or failing that spread.
pub open spec fn slid(g: Seq<Particle>, w: int, h: int, x: int, y: int, go_left: bool) -> Seq<Particle> {
    if tumble_dx(g, w, h, x, y) != 0 {
        tumbled(g, w, h, x, y)
    } else {
        spread(g, w, h, x, y, go_left)
    }
}

/// The movement of a particle of material `m` standing at `(x, y)`. Fire
/// may rise, then drift sideways from the cell it rose to, then tries to
/// set alight a neighbour of the cell where it ends.
pub open spec fn behave(g: Seq<Particle>, w: int, h: int, x: int, y: int, m: Strain, d: CellDraws) -> Seq<Particle> {
    match m {
        Strain::Sand => if can_fall(g, w, h, x, y, 1) {
            fallen(g, w, h, x, y, 1)
        } else {
            tumbled(g, w, h, x, y)
        },
        Strain::Water => if can_fall(g, w, h, x, y, 1) {
            fallen(g, w, h, x, y, 1)
        } else {
            slid(g, w, h, x, y, d.go_left)
        },
        Strain::Fire => {
            let g1 = if d.rise { fallen(g, w, h, x, y, -1) } else { g };
            let fy = if d.rise && can_fall(g, w, h, x, y, -1) { y - 1 } else { y };
            let g2 = if d.drift { spread(g1, w, h, x, fy, d.go_left) } else { g1 };
            let fx = if d.drift && can_spread(g1, w, h, x, fy, d.go_left) {
                x + side_dx(d.go_left)
            } else {
                x
            };
            ignited(g2, w, h, fx, fy, d)
        },
        Strain::MoltenGlass => if can_fall(g, w, h, x, y, 1) {
            fallen(g, w, h, x, y, 1)
        } else if d.ooze {
            slid(g, w, h, x, y, d.go_left)
        } else {
            g
        },
        _ => g,
    }
}

/// A particle is due this tick when its flag equals the parity and it is
/// not empty.
pub open spec fn eligible(p: Particle, par: bool) -> bool {
    p.update == par && p.strain != Strain::Empty
}

/// The processed particle after decay or reaction, before it moves.
pub open spec fn renewed(g: Seq<Particle>, w: int, h: int, x: int, y: int, par: bool, d: CellDraws) -> Particle {
    let p = g[idx(w, x, y)];
    match reaction_result(g, w, h, x, y, p.strain, d.react_roll) {
        Some(m) => Particle { strain: m, update: !par, lifetime: d.spec_lifetime_for(m) },
        None => Particle {
            strain: p.strain,
            update: !par,
            lifetime: if p.lifetime > 0 { (p.lifetime - 1) as i16 } else { p.lifetime },
        },
    }
}

/// The grid after the cell `(x, y)` is visited with parity `par` and the
/// draws `d`.
pub open spec fn step(g: Seq<Particle>, w: int, h: int, par: bool, x: int, y: int, d: CellDraws) -> Seq<Particle> {
    let i = idx(w, x, y);
    let p = g[i];
    if !eligible(p, par) {
        g
    } else if p.lifetime == 0 {
        let m = spec_death_strain(p.strain);
        g.update(i, Particle { strain: m, update: !par, lifetime: d.spec_lifetime_for(m) })
    } else {
        let q = renewed(g, w, h, x, y, par, d);
        behave(g.update(i, q), w, h, x, y, q.strain, d)
    }
}

// ---------------------------------------------------------------------
// A whole tick: rows from the bottom up, each row left to right; cell
// `(x, y)` uses the draws `ds[idx(w, x, y)]`.
// ---------------------------------------------------------------------

/// The grid after the first `n` cells of row `y` are visited.
pub open spec fn row_run(g: Seq<Particle>, w: int, h: int, par: bool, ds: Seq<CellDraws>, y: int, n: int) -> Seq<Particle>
    decreases n,
{
    if n <= 0 {
        g
    } else {
        step(row_run(g, w, h, par, ds, y, n - 1), w, h, par, n - 1, y, ds[idx(w, n - 1, y)])
    }
}

/// How many of the first `n` cells of row `y` held a due particle when
/// visited.
pub open spec fn row_count(g: Seq<Particle>, w: int, h: int, par: bool, ds: Seq<CellDraws>, y: int, n: int) -> nat
    decreases n,
{
    if n <= 0 {
        0
    } else {
        row_count(g, w, h, par, ds, y, n - 1) + if eligible(
            row_run(g, w, h, par, ds, y, n - 1)[idx(w, n - 1, y)],
            par,
        ) {
            1nat
        } else {
            0nat
        }
    }
}

/// The grid after the bottom `r` rows are visited.
pub open spec fn rows_run(g: Seq<Particle>, w: int, h: int, par: bool, ds: Seq<CellDraws>, r: int) -> Seq<Particle>
    decreases r,
{
    if r <= 0 {
        g
    } else {
        row_run(rows_run(g, w, h, par, ds, r - 1), w, h, par, ds, h - r, w)
    }
}

pub open spec fn rows_count(g: Seq<Particle>, w: int, h: int, par: bool, ds: Seq<CellDraws>, r: int) -> nat
    decreases r,
{
    if r <= 0 {
        0
    } else {
        rows_count(g, w, h, par, ds, r - 1) + row_count(rows_run(g, w, h, par, ds, r - 1), w, h, par, ds, h - r, w)
    }
}

/// The grid after one tick with parity `par` and draws `ds`.
pub open spec fn tick_result(g: Seq<Particle>, w: int, h: int, par: bool, ds: Seq<CellDraws>) -> Seq<Particle> {
    rows_run(g, w, h, par, ds, h)
}

/// How many particles one tick processes.
pub open spec fn tick_count(g: Seq<Particle>, w: int, h: int, par: bool, ds: Seq<CellDraws>) -> nat {
    rows_count(g, w, h, par, ds, h)
}

proof fn lemma_row_count_bound(g: Seq<Particle>, w: int, h: int, par: bool, ds: Seq<CellDraws>, y: int, n: int)
    requires
        0 <= n,
    ensures
        row_count(g, w, h, par, ds, y, n) <= n,
    decreases n,
{
    if n > 0 {
        lemma_row_count_bound(g, w, h, par, ds, y, n - 1);
    }
}

proof fn lemma_rows_count_bound(g: Seq<Particle>, w: int, h: int, par: bool, ds: Seq<CellDraws>, r: int)
    requires
        0 <= r,
        0 <= w,
    ensures
        rows_count(g, w, h, par, ds, r) <= r * w,
    decreases r,
{
    if r > 0 {
        lemma_rows_count_bound(g, w, h, par, ds, r - 1);
        lemma_row_count_bound(rows_run(g, w, h, par, ds, r - 1), w, h, par, ds, h - r, w);
        assert((r - 1) * w + w == r * w) by (nonlinear_arith);
    }
}

/// What one tick reports.
#[derive(Clone, Copy, Debug, PartialEq, Eq, Structural)]
pub struct TickStats {
    /// Particles processed in the tick.
    pub particles_updated: u64,
}

impl FallingSand {
    /// Moves the particle at `(x, y)` one row down (`val == 1`) or up
    /// (`val == -1`) when that cell is empty or lighter.
    pub fn apply_gravity(&mut self, x: usize, y: usize, val: isize) -> (r: bool)
        requires
            old(self).wf(),
            x < old(self).cols(),
            y < old(self).rows(),
            val == 1 || val == -1,
        ensures
            r == can_fall(old(self).cells(), old(self).cols(), old(self).rows(), x as int, y as int, val as int),
            final(self).cells() == fallen(old(self).cells(), old(self).cols(), old(self).rows(), x as int, y as int, val as int),
            final(self).same_frame(*old(self)),
            final(self).wf(),
    {
        let ty: usize;
        if val == 1 {
            if y >= self.height() - 1 {
                return false;
            }
            ty = y + 1;
        } else {
            if y == 0 {
                return false;
            }
            ty = y - 1;
        }
        let dx = self.get(x, y).strain.density();
        let target = self.get(x, ty).strain;
        if target == Strain::Empty || target.density() < dx {
            self.swap(x, y, x, ty);
            true
        } else {
            false
        }
    }

    /// Moves the particle at `(x, y)` into an empty diagonal below it,
    /// down-left first.
    pub fn apply_tumble(&mut self, x: usize, y: usize) -> (r: bool)
        requires
            old(self).wf(),
            x < old(self).cols(),
            y < old(self).rows(),
        ensures
            r == (tumble_dx(old(self).cells(), old(self).cols(), old(self).rows(), x as int, y as int) != 0),
            final(self).cells() == tumbled(old(self).cells(), old(self).cols(), old(self).rows(), x as int, y as int),
            final(self).same_frame(*old(self)),
            final(self).wf(),
    {
        let w = self.width();
        let h = self.height();
        if y + 1 < h && x > 0 && self.is_particle_empty(x - 1, y + 1) {
            self.swap(x, y, x - 1, y + 1);
            true
        } else if y + 1 < h && x + 1 < w && self.is_particle_empty(x + 1, y + 1) {
            self.swap(x, y, x + 1, y + 1);
            true
        } else {
            false
        }
    }

    /// Moves the particle at `(x, y)` one cell sideways, in the given
    /// direction, when that cell is empty.
    pub fn apply_spread(&mut self, x: usize, y: usize, go_left: bool) -> (r: bool)
        requires
            old(self).wf(),
            x < old(self).cols(),
            y < old(self).rows(),
        ensures
            r == can_spread(old(self).cells(), old(self).cols(), old(self).rows(), x as int, y as int, go_left),
            final(self).cells() == spread(old(self).cells(), old(self).cols(), old(self).rows(), x as int, y as int, go_left),
            final(self).same_frame(*old(self)),
            final(self).wf(),
    {
        if go_left {
            if x > 0 && self.is_particle_empty(x - 1, y) {
                self.swap(x, y, x - 1, y);
                return true;
            }
        } else {
            if x < self.width() - 1 && self.is_particle_empty(x + 1, y) {
                self.swap(x, y, x + 1, y);
                return true;
            }
        }
        false
    }

    /// Exchanges the particle at `(x, y)` with the one below it when it is
    /// strictly denser.
    pub fn apply_density(&mut self, x: usize, y: usize) -> (r: bool)
        requires
            old(self).wf(),
            x < old(self).cols(),
            y < old(self).rows(),
        ensures
            r == can_sink(old(self).cells(), old(self).cols(), old(self).rows(), x as int, y as int),
            final(self).cells() == sunk(old(self).cells(), old(self).cols(), old(self).rows(), x as int, y as int),
            final(self).same_frame(*old(self)),
            final(self).wf(),
    {
        if y < self.height() - 1 {
            let cur = self.get(x, y);
            let bel = self.get(x, y + 1);
            if cur.strain.density() > bel.strain.density() {
                self.swap(x, y, x, y + 1);
                return true;
            }
        }
        false
    }

    /// Coordinates of the `k`-th axis neighbour of `(x, y)`, when in the grid.
    fn neighbor_at(&self, x: usize, y: usize, k: usize) -> (r: Option<(usize, usize)>)
        requires
            self.wf(),
            x < self.cols(),
            y < self.rows(),
        ensures
            match r {
                Some((nx, ny)) => nx < self.cols() && ny < self.rows() && neighbor(self.cols(), self.rows(), x as int, y as int, k as int) == Some(idx(self.cols(), nx as int, ny as int)),
                None => neighbor(self.cols(), self.rows(), x as int, y as int, k as int).is_none(),
            },
    {
        if k == 0 {
            if x > 0 { Some((x - 1, y)) } else { None }
        } else if k == 1 {
            if x < self.width() - 1 { Some((x + 1, y)) } else { None }
        } else if k == 2 {
            if y > 0 { Some((x, y - 1)) } else { None }
        } else if k == 3 {
            if y < self.height() - 1 { Some((x, y + 1)) } else { None }
        } else {
            None
        }
    }

    /// Whether some neighbour of `(x, y)` holds material `t`.
    pub fn touches(&self, x: usize, y: usize, t: Strain) -> (r: bool)
        requires
            self.wf(),
            x < self.cols(),
            y < self.rows(),
        ensures
            r == first_with(self.cells(), self.cols(), self.rows(), x as int, y as int, t, 0).is_some(),
    {
        let mut k: usize = 0;
        while k < 4
            invariant
                self.wf(),
                x < self.cols(),
                y < self.rows(),
                k <= 4,
                first_with(self.cells(), self.cols(), self.rows(), x as int, y as int, t, 0)
                    == first_with(self.cells(), self.cols(), self.rows(), x as int, y as int, t, k as int),
            decreases 4 - k,
        {
            match self.neighbor_at(x, y, k) {
                Some((nx, ny)) => {
                    if self.get(nx, ny).strain == t {
                        return true;
                    }
                },
                None => {},
            }
            k = k + 1;
        }
        false
    }

    /// The first neighbour of `(x, y)` that fire can set alight.
    fn find_ignitable(&self, x: usize, y: usize) -> (r: Option<(usize, usize)>)
        requires
            self.wf(),
            x < self.cols(),
            y < self.rows(),
        ensures
            match r {
                Some((nx, ny)) => nx < self.cols() && ny < self.rows() && first_ignitable(self.cells(), self.cols(), self.rows(), x as int, y as int, 0) == Some(idx(self.cols(), nx as int, ny as int)),
                None => first_ignitable(self.cells(), self.cols(), self.rows(), x as int, y as int, 0).is_none(),
            },
    {
        let mut k: usize = 0;
        while k < 4
            invariant
                self.wf(),
                x < self.cols(),
                y < self.rows(),
                k <= 4,
                first_ignitable(self.cells(), self.cols(), self.rows(), x as int, y as int, 0)
                    == first_ignitable(self.cells(), self.cols(), self.rows(), x as int, y as int, k as int),
            decreases 4 - k,
        {
            match self.neighbor_at(x, y, k) {
                Some((nx, ny)) => {
                    if self.get(nx, ny).strain.ignite_chance() > 0 {
                        return Some((nx, ny));
                    }
                },
                None => {},
            }
            k = k + 1;
        }
        None
    }

    /// What material `m` at `(x, y)` becomes by its contact rule, given the
    /// percent roll; `None` when it stays as it is.
    pub fn reaction_outcome(&self, x: usize, y: usize, m: Strain, roll: u8) -> (r: Option<Strain>)
        requires
            self.wf(),
            x < self.cols(),
            y < self.rows(),
        ensures
            r == reaction_result(self.cells(), self.cols(), self.rows(), x as int, y as int, m, roll),
    {
        match m.reaction() {
            Some(rule) => {
                if self.touches(x, y, rule.trigger) && roll < rule.chance {
                    Some(rule.result)
                } else {
                    None
                }
            },
            None => None,
        }
    }

    /// Fire at `(x, y)` tries to set its first ignitable neighbour alight.
    pub fn ignite_neighbors(&mut self, x: usize, y: usize, d: &CellDraws)
        requires
            old(self).wf(),
            x < old(self).cols(),
            y < old(self).rows(),
        ensures
            final(self).cells() == ignited(old(self).cells(), old(self).cols(), old(self).rows(), x as int, y as int, *d),
            final(self).same_frame(*old(self)),
            final(self).wf(),
    {
        match self.find_ignitable(x, y) {
            Some((nx, ny)) => {
                let q = self.get(nx, ny);
                if d.ignite_roll < q.strain.ignite_chance() {
                    self.set(nx, ny, Particle { strain: Strain::Fire, lifetime: d.fire_lifetime, ..q });
                }
            },
            None => {},
        }
    }

    fn slide(&mut self, x: usize, y: usize, go_left: bool)
        requires
            old(self).wf(),
            x < old(self).cols(),
            y < old(self).rows(),
        ensures
            final(self).cells() == slid(old(self).cells(), old(self).cols(), old(self).rows(), x as int, y as int, go_left),
            final(self).same_frame(*old(self)),
            final(self).wf(),
    {
        if !self.apply_tumble(x, y) {
            self.apply_spread(x, y, go_left);
        }
    }

    /// Moves the particle of material `m` standing at `(x, y)` by the rules
    /// of its material.
    pub fn behave(&mut self, x: usize, y: usize, m: Strain, d: &CellDraws)
        requires
            old(self).wf(),
            x < old(self).cols(),
            y < old(self).rows(),
        ensures
            final(self).cells() == behave(old(self).cells(), old(self).cols(), old(self).rows(), x as int, y as int, m, *d),
            final(self).same_frame(*old(self)),
            final(self).wf(),
    {
        match m {
            Strain::Sand => {
                if !self.apply_gravity(x, y, 1) {
                    self.apply_tumble(x, y);
                }
            },
            Strain::Water => {
                if !self.apply_gravity(x, y, 1) {
                    self.slide(x, y, d.go_left);
                }
            },
            Strain::Fire => {
                // the fire may rise, then drift from where it stands, then
                // set alight what touches its final cell
                let mut fy = y;
                if d.rise {
                    if self.apply_gravity(x, y, -1) {
                        fy = y - 1;
                    }
                }
                let mut fx = x;
                if d.drift {
                    let w = self.width();
                    if self.apply_spread(x, fy, d.go_left) {
                        assert(0 <= x + side_dx(d.go_left) < w);
                        fx = if d.go_left { x - 1 } else { x + 1 };
                    }
                }
                self.ignite_neighbors(fx, fy, d);
            },
            Strain::MoltenGlass => {
                if !self.apply_gravity(x, y, 1) {
                    if d.ooze {
                        self.slide(x, y, d.go_left);
                    }
                }
            },
            _ => {},
        }
    }

    /// Visits the cell `(x, y)`: a due particle is flagged, then decays, or
    /// counts down, reacts and moves. Returns whether it was due.
    pub fn update_cell(&mut self, x: usize, y: usize, d: &CellDraws) -> (processed: bool)
        requires
            old(self).wf(),
            x < old(self).cols(),
            y < old(self).rows(),
        ensures
            processed == eligible(old(self).cell(x as int, y as int), old(self).parity()),
            final(self).cells() == step(old(self).cells(), old(self).cols(), old(self).rows(), old(self).parity(), x as int, y as int, *d),
            final(self).same_frame(*old(self)),
            final(self).wf(),
    {
        let p = self.get(x, y);
        let par = self.parity_flag();
        if p.update != par || p.strain == Strain::Empty {
            return false;
        }
        if p.lifetime == 0 {
            let m = p.strain.death_strain();
            self.set(x, y, Particle { strain: m, update: !par, lifetime: d.lifetime_for(m) });
            return true;
        }
        let q = match self.reaction_outcome(x, y, p.strain, d.react_roll) {
            Some(m) => Particle { strain: m, update: !par, lifetime: d.lifetime_for(m) },
            None => Particle {
                strain: p.strain,
                update: !par,
                lifetime: if p.lifetime > 0 { p.lifetime - 1 } else { p.lifetime },
            },
        };
        self.set(x, y, q);
        self.behave(x, y, q.strain, d);
        true
    }

    /// Runs one tick with the given draws, one per cell: visits every cell,
    /// bottom row first and each row left to right, then flips the parity.
    pub fn tick_with(&mut self, draws: &Vec<CellDraws>) -> (r: TickStats)
        requires
            old(self).wf(),
            draws@.len() == old(self).cells().len(),
        ensures
            final(self).cells() == tick_result(old(self).cells(), old(self).cols(), old(self).rows(), old(self).parity(), draws@),
            r.particles_updated == tick_count(old(self).cells(), old(self).cols(), old(self).rows(), old(self).parity(), draws@),
            final(self).last_updated() == r.particles_updated,
            final(self).parity() == !old(self).parity(),
            final(self).cols() == old(self).cols(),
            final(self).rows() == old(self).rows(),
            final(self).wf(),
    {
        let ghost g0 = self.cells();
        let ghost par = self.parity();
        let w = self.width();
        let h = self.height();
        let ghost wi = w as int;
        let ghost hi = h as int;
        let n = self.cell_count();
        let mut count: usize = 0;
        let mut r: usize = 0;
        while r < h
            invariant
                self.wf(),
                self.same_frame(*old(self)),
                w == self.cols(),
                h == self.rows(),
                par == self.parity(),
                g0 == old(self).cells(),
                draws@.len() == self.cells().len(),
                wi == w,
                hi == h,
                n == self.cells().len(),
                r <= h,
                self.cells() == rows_run(g0, wi, hi, par, draws@, r as int),
                count == rows_count(g0, wi, hi, par, draws@, r as int),
            decreases h - r,
        {
            let y = h - 1 - r;
            let ghost base = self.cells();
            let ghost before = count as int;
            proof {
                lemma_rows_count_bound(g0, wi, hi, par, draws@, r as int);
                assert(r * w + w <= h * w) by (nonlinear_arith)
                    requires
                        r < h,
                ;
                assert(h * w == self.cells().len());
            }
            let mut x: usize = 0;
            while x < w
                invariant
                    self.wf(),
                    self.same_frame(*old(self)),
                    w == self.cols(),
                    h == self.rows(),
                    par == self.parity(),
                    draws@.len() == self.cells().len(),
                    wi == w,
                    hi == h,
                    x <= w,
                    y < h,
                    self.cells() == row_run(base, wi, hi, par, draws@, y as int, x as int),
                    count == before + row_count(base, wi, hi, par, draws@, y as int, x as int),
                    before + w <= usize::MAX,
                decreases w - x,
            {
                proof {
                    lemma_row_count_bound(base, wi, hi, par, draws@, y as int, x as int);
                }
                let i = self.index(x, y);
                if self.update_cell(x, y, &draws[i]) {
                    count = count + 1;
                }
                x = x + 1;
            }
            r = r + 1;
        }
        let stats = TickStats { particles_updated: count as u64 };
        self.end_tick(stats.particles_updated);
        stats
    }

    /// Runs one tick, drawing each cell's random values from `rng`.
    pub fn tick(&mut self, rng: &mut StdRng) -> (r: TickStats)
        requires
            old(self).wf(),
        ensures
            exists|ds: Seq<CellDraws>|
                {
                    &&& ds.len() == old(self).cells().len()
                    &&& forall|i: int| 0 <= i < ds.len() ==> (#[trigger] ds[i]).valid()
                    &&& final(self).cells() == tick_result(old(self).cells(), old(self).cols(), old(self).rows(), old(self).parity(), ds)
                    &&& r.particles_updated == tick_count(old(self).cells(), old(self).cols(), old(self).rows(), old(self).parity(), ds)
                },
            final(self).last_updated() == r.particles_updated,
            final(self).parity() == !old(self).parity(),
            final(self).cols() == old(self).cols(),
            final(self).rows() == old(self).rows(),
            final(self).wf(),
    {
        let n = self.cell_count();
        let mut draws: Vec<CellDraws> = Vec::new();
        let mut i: usize = 0;
        while i < n
            invariant
                i <= n,
                draws@.len() == i,
                forall|j: int| 0 <= j < i ==> (#[trigger] draws@[j]).valid(),
            decreases n - i,
        {
            draws.push(draw_cell(rng));
            i = i + 1;
        }
        let r = self.tick_with(&draws);
        assert(forall|j: int| 0 <= j < draws@.len() ==> (#[trigger] draws@[j]).valid());
        r
    }
}

} // verus!
