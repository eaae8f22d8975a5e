use vstd::prelude::*;

use crate::dice::{lemma_valid_lifetime, CellDraws};
use crate::grid::{idx, in_bounds, lemma_index_in_range, lemma_index_injective, swap_cells, Particle};
use crate::material::{spec_death_strain, spec_decays, spec_density, valid_base_lifetime, Strain};
use crate::rules::{
    behave, can_fall, can_spread, fallen, renewed, side_dx, spread, tumble_dx, eligible, first_with, ignited, row_count, row_run, rows_count, rows_run, step,
    tick_count, tick_result,
};

verus! {

// ---------------------------------------------------------------------
// Counting particles.
// ---------------------------------------------------------------------

/// Number of cells of `s` whose particle satisfies `pred`.
pub open spec fn count_where(s: Seq<Particle>, pred: spec_fn(Particle) -> bool) -> nat
    decreases s.len(),
{
    if s.len() == 0 {
        0
    } else {
        count_where(s.drop_last(), pred) + if pred(s.last()) {
            1nat
        } else {
            0nat
        }
    }
}

/// Materials grouped by what they can turn into: 1 for sand, glass and
/// molten glass, 2 for water, 3 for wood and fire, 0 for empty cells.
pub open spec fn family(m: Strain) -> int {
    match m {
        Strain::Empty => 0,
        Strain::Sand | Strain::Glass | Strain::MoltenGlass => 1,
        Strain::Water => 2,
        Strain::Wood | Strain::Fire => 3,
    }
}

pub open spec fn of_family(f: int) -> spec_fn(Particle) -> bool {
    |p: Particle| family(p.strain) == f
}

/// Particles due under parity `par`.
pub open spec fn due(par: bool) -> spec_fn(Particle) -> bool {
    |p: Particle| eligible(p, par)
}

/// Every particle of a material that never decays carries a negative
/// lifetime, as spawned particles do.
pub open spec fn lifetimes_ok(g: Seq<Particle>) -> bool {
    forall|i: int| 0 <= i < g.len() && !spec_decays(#[trigger] g[i].strain) ==> g[i].lifetime < 0
}

pub open spec fn ind(b: bool) -> int {
    if b {
        1
    } else {
        0
    }
}

proof fn lemma_count_update(s: Seq<Particle>, i: int, v: Particle, pred: spec_fn(Particle) -> bool)
    requires
        0 <= i < s.len(),
    ensures
        count_where(s.update(i, v), pred) == count_where(s, pred) - ind(pred(s[i])) + ind(pred(v)),
    decreases s.len(),
{
    let t = s.update(i, v);
    if i == s.len() - 1 {
        assert(t.drop_last() =~= s.drop_last());
    } else {
        assert(t.drop_last() =~= s.drop_last().update(i, v));
        lemma_count_update(s.drop_last(), i, v, pred);
    }
}

proof fn lemma_count_swap(s: Seq<Particle>, i: int, j: int, pred: spec_fn(Particle) -> bool)
    requires
        0 <= i < s.len(),
        0 <= j < s.len(),
    ensures
        count_where(swap_cells(s, i, j), pred) == count_where(s, pred),
{
    lemma_count_update(s, i, s[j], pred);
    lemma_count_update(s.update(i, s[j]), j, s[i], pred);
}

/// What the conservation and due-count arguments need of one change of
/// the grid: same length, lifetimes consistent, family counts and the
/// number of due particles unchanged.
pub open spec fn tallies_kept(a: Seq<Particle>, b: Seq<Particle>, par: bool) -> bool {
    &&& b.len() == a.len()
    &&& (lifetimes_ok(a) ==> lifetimes_ok(b))
    &&& count_where(b, of_family(1)) == count_where(a, of_family(1))
    &&& count_where(b, of_family(2)) == count_where(a, of_family(2))
    &&& count_where(b, of_family(3)) == count_where(a, of_family(3))
    &&& count_where(b, due(par)) == count_where(a, due(par))
}

/// From `a` to `b`: lifetimes stay consistent, the sand-glass and the
/// water families keep their counts, and the wood-fire family does not grow.
pub open spec fn conserved(a: Seq<Particle>, b: Seq<Particle>) -> bool {
    &&& lifetimes_ok(b)
    &&& count_where(b, of_family(1)) == count_where(a, of_family(1))
    &&& count_where(b, of_family(2)) == count_where(a, of_family(2))
    &&& count_where(b, of_family(3)) <= count_where(a, of_family(3))
}

proof fn lemma_swap_tallies(g: Seq<Particle>, i: int, j: int, par: bool)
    requires
        0 <= i < g.len(),
        0 <= j < g.len(),
    ensures
        tallies_kept(g, swap_cells(g, i, j), par),
{
    lemma_count_swap(g, i, j, of_family(1));
    lemma_count_swap(g, i, j, of_family(2));
    lemma_count_swap(g, i, j, of_family(3));
    lemma_count_swap(g, i, j, due(par));
    let t = swap_cells(g, i, j);
    assert forall|k: int| 0 <= k < t.len() && !spec_decays(#[trigger] t[k].strain) && lifetimes_ok(g) implies t[k].lifetime
        < 0 by {
        if k == j {
        } else if k == i {
        } else {
        }
    }
}

proof fn lemma_cells_in_range(w: int, h: int, x: int, y: int)
    requires
        in_bounds(w, h, x, y),
    ensures
        0 <= idx(w, x, y) < w * h,
        x > 0 ==> 0 <= idx(w, x - 1, y) < w * h,
        x + 1 < w ==> 0 <= idx(w, x + 1, y) < w * h,
        y > 0 ==> 0 <= idx(w, x, y - 1) < w * h,
        y + 1 < h ==> 0 <= idx(w, x, y + 1) < w * h,
        y + 1 < h && x > 0 ==> 0 <= idx(w, x - 1, y + 1) < w * h,
        y + 1 < h && x + 1 < w ==> 0 <= idx(w, x + 1, y + 1) < w * h,
{
    lemma_index_in_range(w, h, x, y);
    if x > 0 {
        lemma_index_in_range(w, h, x - 1, y);
    }
    if x + 1 < w {
        lemma_index_in_range(w, h, x + 1, y);
    }
    if y > 0 {
        lemma_index_in_range(w, h, x, y - 1);
    }
    if y + 1 < h {
        lemma_index_in_range(w, h, x, y + 1);
        if x > 0 {
            lemma_index_in_range(w, h, x - 1, y + 1);
        }
        if x + 1 < w {
            lemma_index_in_range(w, h, x + 1, y + 1);
        }
    }
}

proof fn lemma_first_with_in_range(g: Seq<Particle>, w: int, h: int, x: int, y: int, t: Strain, k: int)
    requires
        in_bounds(w, h, x, y),
        g.len() == w * h,
    ensures
        first_with(g, w, h, x, y, t, k) matches Some(j) ==> 0 <= j < g.len() && g[j].strain == t,
    decreases 4 - k,
{
    lemma_cells_in_range(w, h, x, y);
    if k < 4 {
        lemma_first_with_in_range(g, w, h, x, y, t, k + 1);
    }
}

proof fn lemma_first_ignitable_in_range(g: Seq<Particle>, w: int, h: int, x: int, y: int, k: int)
    requires
        in_bounds(w, h, x, y),
        g.len() == w * h,
    ensures
        crate::rules::first_ignitable(g, w, h, x, y, k) matches Some(j) ==> 0 <= j < g.len()
            && g[j].strain == Strain::Wood,
    decreases 4 - k,
{
    lemma_cells_in_range(w, h, x, y);
    if k < 4 {
        lemma_first_ignitable_in_range(g, w, h, x, y, k + 1);
    }
}

proof fn lemma_ignited_tallies(g: Seq<Particle>, w: int, h: int, x: int, y: int, d: CellDraws, par: bool)
    requires
        in_bounds(w, h, x, y),
        g.len() == w * h,
    ensures
        tallies_kept(g, ignited(g, w, h, x, y, d), par),
{
    lemma_first_ignitable_in_range(g, w, h, x, y, 0);
    match crate::rules::first_ignitable(g, w, h, x, y, 0) {
        Some(j) => {
            let v = Particle { strain: Strain::Fire, lifetime: d.fire_lifetime, ..g[j] };
            lemma_count_update(g, j, v, of_family(1));
            lemma_count_update(g, j, v, of_family(2));
            lemma_count_update(g, j, v, of_family(3));
            lemma_count_update(g, j, v, due(par));
        },
        None => {},
    }
}

proof fn lemma_behave_tallies(g: Seq<Particle>, w: int, h: int, x: int, y: int, m: Strain, d: CellDraws, par: bool)
    requires
        in_bounds(w, h, x, y),
        g.len() == w * h,
    ensures
        tallies_kept(g, behave(g, w, h, x, y, m, d), par),
{
    lemma_cells_in_range(w, h, x, y);
    let i = idx(w, x, y);
    if y + 1 < h {
        lemma_swap_tallies(g, i, idx(w, x, y + 1), par);
        if x > 0 {
            lemma_swap_tallies(g, i, idx(w, x - 1, y + 1), par);
        }
        if x + 1 < w {
            lemma_swap_tallies(g, i, idx(w, x + 1, y + 1), par);
        }
    }
    if x > 0 {
        lemma_swap_tallies(g, i, idx(w, x - 1, y), par);
    }
    if x + 1 < w {
        lemma_swap_tallies(g, i, idx(w, x + 1, y), par);
    }
    if m == Strain::Fire {
        let g1 = if d.rise { fallen(g, w, h, x, y, -1) } else { g };
        let fy = if d.rise && can_fall(g, w, h, x, y, -1) { y - 1 } else { y };
        if y > 0 {
            lemma_swap_tallies(g, i, idx(w, x, y - 1), par);
        }
        lemma_cells_in_range(w, h, x, fy);
        let j = idx(w, x, fy);
        if x > 0 {
            lemma_swap_tallies(g1, j, idx(w, x - 1, fy), par);
        }
        if x + 1 < w {
            lemma_swap_tallies(g1, j, idx(w, x + 1, fy), par);
        }
        let g2 = if d.drift { spread(g1, w, h, x, fy, d.go_left) } else { g1 };
        let fx = if d.drift && can_spread(g1, w, h, x, fy, d.go_left) {
            x + side_dx(d.go_left)
        } else {
            x
        };
        lemma_ignited_tallies(g2, w, h, fx, fy, d, par);
    }
}

proof fn lemma_step_tallies(g: Seq<Particle>, w: int, h: int, par: bool, x: int, y: int, d: CellDraws)
    requires
        in_bounds(w, h, x, y),
        g.len() == w * h,
    ensures
        ({
            let s = step(g, w, h, par, x, y, d);
            &&& s.len() == g.len()
            &&& lifetimes_ok(g) ==> conserved(g, s)
            &&& count_where(s, due(par)) + ind(eligible(g[idx(w, x, y)], par)) == count_where(g, due(par))
        }),
{
    lemma_cells_in_range(w, h, x, y);
    let i = idx(w, x, y);
    let p = g[i];
    if eligible(p, par) {
        let q = if p.lifetime == 0 {
            let m = spec_death_strain(p.strain);
            Particle { strain: m, update: !par, lifetime: d.spec_lifetime_for(m) }
        } else {
            crate::rules::renewed(g, w, h, x, y, par, d)
        };
        lemma_count_update(g, i, q, of_family(1));
        lemma_count_update(g, i, q, of_family(2));
        lemma_count_update(g, i, q, of_family(3));
        lemma_count_update(g, i, q, due(par));
        let g1 = g.update(i, q);
        assert(lifetimes_ok(g) ==> lifetimes_ok(g1));
        if p.lifetime != 0 {
            lemma_behave_tallies(g1, w, h, x, y, q.strain, d, par);
        }
    }
}

proof fn lemma_row_tallies(g: Seq<Particle>, w: int, h: int, par: bool, ds: Seq<CellDraws>, y: int, n: int)
    requires
        0 <= y < h,
        0 <= n <= w,
        g.len() == w * h,
    ensures
        ({
            let s = row_run(g, w, h, par, ds, y, n);
            &&& s.len() == g.len()
            &&& lifetimes_ok(g) ==> conserved(g, s)
            &&& count_where(s, due(par)) + row_count(g, w, h, par, ds, y, n) == count_where(g, due(par))
        }),
    decreases n,
{
    if n > 0 {
        lemma_row_tallies(g, w, h, par, ds, y, n - 1);
        let s = row_run(g, w, h, par, ds, y, n - 1);
        lemma_step_tallies(s, w, h, par, n - 1, y, ds[idx(w, n - 1, y)]);
    }
}

proof fn lemma_rows_tallies(g: Seq<Particle>, w: int, h: int, par: bool, ds: Seq<CellDraws>, r: int)
    requires
        0 <= r <= h,
        0 <= w,
        g.len() == w * h,
    ensures
        ({
            let s = rows_run(g, w, h, par, ds, r);
            &&& s.len() == g.len()
            &&& lifetimes_ok(g) ==> conserved(g, s)
            &&& count_where(s, due(par)) + rows_count(g, w, h, par, ds, r) == count_where(g, due(par))
        }),
    decreases r,
{
    if r > 0 {
        lemma_rows_tallies(g, w, h, par, ds, r - 1);
        lemma_row_tallies(rows_run(g, w, h, par, ds, r - 1), w, h, par, ds, h - r, w);
    }
}

// ---------------------------------------------------------------------
// Laws of the engine.
// ---------------------------------------------------------------------

/// Conservation: over one tick no particle appears from nothing or
/// vanishes but by decay. Where every particle of a material that never
/// decays carries a negative lifetime, the number of sand, glass and molten
/// glass particles is unchanged, so is the number of water particles, the
/// number of wood and fire particles does not grow (fire burns out into
/// empty cells), and lifetimes stay consistent.
pub proof fn law_tick_conserves(g: Seq<Particle>, w: int, h: int, par: bool, ds: Seq<CellDraws>)
    requires
        0 <= w,
        0 <= h,
        g.len() == w * h,
        lifetimes_ok(g),
    ensures
        conserved(g, tick_result(g, w, h, par, ds)),
{
    lemma_rows_tallies(g, w, h, par, ds, h);
}

/// One visit per due particle: each particle that a tick processes uses up
/// its due flag, and nothing else changes how many particles are due. So
/// the particles processed plus those still due at the end equal those due
/// at the start, and no tick processes more particles than were due.
pub proof fn law_tick_uses_each_due_flag_once(g: Seq<Particle>, w: int, h: int, par: bool, ds: Seq<CellDraws>)
    requires
        0 <= w,
        0 <= h,
        g.len() == w * h,
    ensures
        tick_count(g, w, h, par, ds) + count_where(tick_result(g, w, h, par, ds), due(par))
            == count_where(g, due(par)),
        tick_count(g, w, h, par, ds) <= count_where(g, due(par)),
{
    lemma_rows_tallies(g, w, h, par, ds, h);
}

/// Decay: a due particle whose lifetime is zero becomes its death material
/// in place, with that material's fresh lifetime, and nothing moves.
pub proof fn law_decay_in_place(g: Seq<Particle>, w: int, h: int, par: bool, x: int, y: int, d: CellDraws)
    requires
        in_bounds(w, h, x, y),
        g.len() == w * h,
        eligible(g[idx(w, x, y)], par),
        g[idx(w, x, y)].lifetime == 0,
        d.valid(),
    ensures
        ({
            let m = spec_death_strain(g[idx(w, x, y)].strain);
            let l = d.spec_lifetime_for(m);
            &&& step(g, w, h, par, x, y, d) == g.update(
                idx(w, x, y),
                Particle { strain: m, update: !par, lifetime: l },
            )
            &&& valid_base_lifetime(m, l as int)
        }),
{
    lemma_valid_lifetime(d, spec_death_strain(g[idx(w, x, y)].strain));
}

/// Density ordering: a due sand or water particle, not decaying, above a
/// strictly lighter particle trades places with it: afterwards the lighter
/// one stands above and the denser one, flagged as processed, below.
pub proof fn law_heavier_sinks(g: Seq<Particle>, w: int, h: int, par: bool, x: int, y: int, d: CellDraws)
    requires
        in_bounds(w, h, x, y),
        y + 1 < h,
        g.len() == w * h,
        eligible(g[idx(w, x, y)], par),
        g[idx(w, x, y)].lifetime != 0,
        g[idx(w, x, y)].strain == Strain::Sand || g[idx(w, x, y)].strain == Strain::Water,
        spec_density(g[idx(w, x, y + 1)].strain) < spec_density(g[idx(w, x, y)].strain),
    ensures
        ({
            let s = step(g, w, h, par, x, y, d);
            &&& s[idx(w, x, y)] == g[idx(w, x, y + 1)]
            &&& s[idx(w, x, y + 1)].update == !par
            &&& spec_density(s[idx(w, x, y + 1)].strain) == spec_density(g[idx(w, x, y)].strain)
            &&& spec_density(s[idx(w, x, y + 1)].strain) > spec_density(s[idx(w, x, y)].strain)
        }),
{
    lemma_cells_in_range(w, h, x, y);
    if idx(w, x, y) == idx(w, x, y + 1) {
        lemma_index_injective(w, h, x, y, x, y + 1);
    }
}

/// Settling: a due sand particle that rests on sand or on the bottom row,
/// with both cells diagonally below it filled or outside the grid and no
/// fire beside it, stays where it is; its visit only sets its flag.
pub proof fn law_sand_at_rest(g: Seq<Particle>, w: int, h: int, par: bool, x: int, y: int, d: CellDraws)
    requires
        in_bounds(w, h, x, y),
        g.len() == w * h,
        eligible(g[idx(w, x, y)], par),
        g[idx(w, x, y)].strain == Strain::Sand,
        g[idx(w, x, y)].lifetime < 0,
        y + 1 == h || g[idx(w, x, y + 1)].strain == Strain::Sand,
        x == 0 || y + 1 == h || g[idx(w, x - 1, y + 1)].strain != Strain::Empty,
        x + 1 == w || y + 1 == h || g[idx(w, x + 1, y + 1)].strain != Strain::Empty,
        first_with(g, w, h, x, y, Strain::Fire, 0).is_none(),
    ensures
        step(g, w, h, par, x, y, d) == g.update(
            idx(w, x, y),
            Particle { update: !par, ..g[idx(w, x, y)] },
        ),
{
    lemma_cells_in_range(w, h, x, y);
    let i = idx(w, x, y);
    if y + 1 < h {
        if i == idx(w, x, y + 1) {
            lemma_index_injective(w, h, x, y, x, y + 1);
        }
        if x > 0 && i == idx(w, x - 1, y + 1) {
            lemma_index_injective(w, h, x, y, x - 1, y + 1);
        }
        if x + 1 < w && i == idx(w, x + 1, y + 1) {
            lemma_index_injective(w, h, x, y, x + 1, y + 1);
        }
    }
}

// ---------------------------------------------------------------------
// Following particles through a tick by labels.
// ---------------------------------------------------------------------

pub open spec fn swap_labels(l: Seq<int>, i: int, j: int) -> Seq<int> {
    l.update(i, l[j]).update(j, l[i])
}

/// The labels `l` after the particle of material `m` at `(x, y)` moves by
/// `behave`: every swap of cells is applied to the labels as well.
pub open spec fn behave_labels(g: Seq<Particle>, l: Seq<int>, w: int, h: int, x: int, y: int, m: Strain, d: CellDraws) -> Seq<int> {
    let i = idx(w, x, y);
    let down = if can_fall(g, w, h, x, y, 1) { swap_labels(l, i, idx(w, x, y + 1)) } else { l };
    let dx = tumble_dx(g, w, h, x, y);
    let tumble = if dx != 0 { swap_labels(l, i, idx(w, x + dx, y + 1)) } else { l };
    let side = if can_spread(g, w, h, x, y, d.go_left) {
        swap_labels(l, i, idx(w, x + side_dx(d.go_left), y))
    } else {
        l
    };
    let slide = if dx != 0 { tumble } else { side };
    match m {
        Strain::Sand => if can_fall(g, w, h, x, y, 1) { down } else { tumble },
        Strain::Water => if can_fall(g, w, h, x, y, 1) { down } else { slide },
        Strain::Fire => {
            let l1 = if d.rise && can_fall(g, w, h, x, y, -1) { swap_labels(l, i, idx(w, x, y - 1)) } else { l };
            let g1 = if d.rise { fallen(g, w, h, x, y, -1) } else { g };
            let fy = if d.rise && can_fall(g, w, h, x, y, -1) { y - 1 } else { y };
            if d.drift && can_spread(g1, w, h, x, fy, d.go_left) {
                swap_labels(l1, idx(w, x, fy), idx(w, x + side_dx(d.go_left), fy))
            } else {
                l1
            }
        },
        Strain::MoltenGlass => if can_fall(g, w, h, x, y, 1) {
            down
        } else if d.ooze {
            slide
        } else {
            l
        },
        _ => l,
    }
}

/// The labels after the visit of `(x, y)`.
pub open spec fn step_labels(g: Seq<Particle>, l: Seq<int>, w: int, h: int, par: bool, x: int, y: int, d: CellDraws) -> Seq<int> {
    let i = idx(w, x, y);
    let p = g[i];
    if !eligible(p, par) || p.lifetime == 0 {
        l
    } else {
        let q = renewed(g, w, h, x, y, par, d);
        behave_labels(g.update(i, q), l, w, h, x, y, q.strain, d)
    }
}

/// Labels and the set of labels processed so far, after the first `n`
/// cells of row `y`, starting from labels `l` and processed set `done`.
pub open spec fn row_labels(g: Seq<Particle>, w: int, h: int, par: bool, ds: Seq<CellDraws>, l: Seq<int>, done: Set<int>, y: int, n: int) -> (Seq<int>, Set<int>)
    decreases n,
{
    if n <= 0 {
        (l, done)
    } else {
        let prev = row_labels(g, w, h, par, ds, l, done, y, n - 1);
        let cur = row_run(g, w, h, par, ds, y, n - 1);
        let i = idx(w, n - 1, y);
        (
            step_labels(cur, prev.0, w, h, par, n - 1, y, ds[i]),
            if eligible(cur[i], par) { prev.1.insert(prev.0[i]) } else { prev.1 },
        )
    }
}

/// Every visit among the first `n` of row `y` that processes a particle
/// processes one whose label is not yet processed.
pub open spec fn row_fresh(g: Seq<Particle>, w: int, h: int, par: bool, ds: Seq<CellDraws>, l: Seq<int>, done: Set<int>, y: int, n: int) -> bool
    decreases n,
{
    n <= 0 || {
        let prev = row_labels(g, w, h, par, ds, l, done, y, n - 1);
        let cur = row_run(g, w, h, par, ds, y, n - 1);
        let i = idx(w, n - 1, y);
        &&& row_fresh(g, w, h, par, ds, l, done, y, n - 1)
        &&& eligible(cur[i], par) ==> !prev.1.contains(prev.0[i])
    }
}

/// Labels and processed labels after the bottom `r` rows, each particle
/// labelled at the start by its cell index.
pub open spec fn rows_labels(g: Seq<Particle>, w: int, h: int, par: bool, ds: Seq<CellDraws>, r: int) -> (Seq<int>, Set<int>)
    decreases r,
{
    if r <= 0 {
        (Seq::new(g.len(), |k: int| k), Set::empty())
    } else {
        let prev = rows_labels(g, w, h, par, ds, r - 1);
        row_labels(rows_run(g, w, h, par, ds, r - 1), w, h, par, ds, prev.0, prev.1, h - r, w)
    }
}

pub open spec fn rows_fresh(g: Seq<Particle>, w: int, h: int, par: bool, ds: Seq<CellDraws>, r: int) -> bool
    decreases r,
{
    r <= 0 || {
        let prev = rows_labels(g, w, h, par, ds, r - 1);
        &&& rows_fresh(g, w, h, par, ds, r - 1)
        &&& row_fresh(rows_run(g, w, h, par, ds, r - 1), w, h, par, ds, prev.0, prev.1, h - r, w)
    }
}

/// Labels `l` are distinct, one per cell, and every particle whose label
/// is processed carries a flag that is no longer due.
pub open spec fn labels_ok(g: Seq<Particle>, l: Seq<int>, done: Set<int>, par: bool) -> bool {
    &&& l.len() == g.len()
    &&& forall|a: int, b: int| 0 <= a < l.len() && 0 <= b < l.len() && a != b ==> l[a] != l[b]
    &&& forall|k: int| 0 <= k < g.len() && #[trigger] done.contains(l[k]) ==> g[k].update != par
}

proof fn lemma_swap_labels(g: Seq<Particle>, l: Seq<int>, done: Set<int>, par: bool, a: int, b: int)
    requires
        labels_ok(g, l, done, par),
        0 <= a < g.len(),
        0 <= b < g.len(),
    ensures
        labels_ok(swap_cells(g, a, b), swap_labels(l, a, b), done, par),
{
    let g2 = swap_cells(g, a, b);
    let l2 = swap_labels(l, a, b);
    assert forall|k: int| 0 <= k < g2.len() && #[trigger] done.contains(l2[k]) implies g2[k].update != par by {
        if k == b {
            assert(done.contains(l[a]));
        } else if k == a {
            assert(done.contains(l[b]));
        } else {
            assert(done.contains(l[k]));
        }
    }
}

proof fn lemma_ignited_labels(g: Seq<Particle>, l: Seq<int>, done: Set<int>, w: int, h: int, x: int, y: int, d: CellDraws, par: bool)
    requires
        in_bounds(w, h, x, y),
        g.len() == w * h,
        labels_ok(g, l, done, par),
    ensures
        labels_ok(ignited(g, w, h, x, y, d), l, done, par),
{
    lemma_first_ignitable_in_range(g, w, h, x, y, 0);
    let g2 = ignited(g, w, h, x, y, d);
    assert forall|k: int| 0 <= k < g2.len() && #[trigger] done.contains(l[k]) implies g2[k].update != par by {
        assert(g2[k].update == g[k].update);
    }
}

proof fn lemma_behave_labels(g: Seq<Particle>, l: Seq<int>, done: Set<int>, w: int, h: int, x: int, y: int, m: Strain, d: CellDraws, par: bool)
    requires
        in_bounds(w, h, x, y),
        g.len() == w * h,
        labels_ok(g, l, done, par),
    ensures
        labels_ok(behave(g, w, h, x, y, m, d), behave_labels(g, l, w, h, x, y, m, d), done, par),
{
    lemma_cells_in_range(w, h, x, y);
    let i = idx(w, x, y);
    if y + 1 < h {
        lemma_swap_labels(g, l, done, par, i, idx(w, x, y + 1));
        if x > 0 {
            lemma_swap_labels(g, l, done, par, i, idx(w, x - 1, y + 1));
        }
        if x + 1 < w {
            lemma_swap_labels(g, l, done, par, i, idx(w, x + 1, y + 1));
        }
    }
    if x > 0 {
        lemma_swap_labels(g, l, done, par, i, idx(w, x - 1, y));
    }
    if x + 1 < w {
        lemma_swap_labels(g, l, done, par, i, idx(w, x + 1, y));
    }
    if m == Strain::Fire {
        let g1 = if d.rise { fallen(g, w, h, x, y, -1) } else { g };
        let l1 = if d.rise && can_fall(g, w, h, x, y, -1) { swap_labels(l, i, idx(w, x, y - 1)) } else { l };
        let fy = if d.rise && can_fall(g, w, h, x, y, -1) { y - 1 } else { y };
        if y > 0 {
            lemma_swap_labels(g, l, done, par, i, idx(w, x, y - 1));
        }
        assert(labels_ok(g1, l1, done, par));
        lemma_cells_in_range(w, h, x, fy);
        let j = idx(w, x, fy);
        if x > 0 {
            lemma_swap_labels(g1, l1, done, par, j, idx(w, x - 1, fy));
        }
        if x + 1 < w {
            lemma_swap_labels(g1, l1, done, par, j, idx(w, x + 1, fy));
        }
        let g2 = if d.drift { spread(g1, w, h, x, fy, d.go_left) } else { g1 };
        let l2 = if d.drift && can_spread(g1, w, h, x, fy, d.go_left) {
            swap_labels(l1, j, idx(w, x + side_dx(d.go_left), fy))
        } else {
            l1
        };
        let fx = if d.drift && can_spread(g1, w, h, x, fy, d.go_left) {
            x + side_dx(d.go_left)
        } else {
            x
        };
        assert(labels_ok(g2, l2, done, par));
        lemma_ignited_labels(g2, l2, done, w, h, fx, fy, d, par);
    }
}

proof fn lemma_step_labels(g: Seq<Particle>, l: Seq<int>, done: Set<int>, w: int, h: int, par: bool, x: int, y: int, d: CellDraws)
    requires
        in_bounds(w, h, x, y),
        g.len() == w * h,
        labels_ok(g, l, done, par),
    ensures
        ({
            let i = idx(w, x, y);
            let done2 = if eligible(g[i], par) { done.insert(l[i]) } else { done };
            &&& labels_ok(step(g, w, h, par, x, y, d), step_labels(g, l, w, h, par, x, y, d), done2, par)
            &&& eligible(g[i], par) ==> !done.contains(l[i])
        }),
{
    lemma_cells_in_range(w, h, x, y);
    let i = idx(w, x, y);
    let p = g[i];
    if eligible(p, par) {
        let done2 = done.insert(l[i]);
        let q = if p.lifetime == 0 {
            let m = spec_death_strain(p.strain);
            Particle { strain: m, update: !par, lifetime: d.spec_lifetime_for(m) }
        } else {
            renewed(g, w, h, x, y, par, d)
        };
        let g1 = g.update(i, q);
        assert forall|k: int| 0 <= k < g1.len() && #[trigger] done2.contains(l[k]) implies g1[k].update != par by {
            if k != i {
                assert(l[k] != l[i]);
                assert(done.contains(l[k]));
            }
        }
        assert(labels_ok(g1, l, done2, par));
        if p.lifetime != 0 {
            lemma_behave_labels(g1, l, done2, w, h, x, y, q.strain, d, par);
        }
    }
}

proof fn lemma_row_labels(g: Seq<Particle>, w: int, h: int, par: bool, ds: Seq<CellDraws>, l: Seq<int>, done: Set<int>, y: int, n: int)
    requires
        0 <= y < h,
        0 <= n <= w,
        g.len() == w * h,
        labels_ok(g, l, done, par),
    ensures
        ({
            let r = row_labels(g, w, h, par, ds, l, done, y, n);
            &&& labels_ok(row_run(g, w, h, par, ds, y, n), r.0, r.1, par)
            &&& row_run(g, w, h, par, ds, y, n).len() == g.len()
            &&& row_fresh(g, w, h, par, ds, l, done, y, n)
        }),
    decreases n,
{
    if n > 0 {
        lemma_row_labels(g, w, h, par, ds, l, done, y, n - 1);
        let prev = row_labels(g, w, h, par, ds, l, done, y, n - 1);
        let cur = row_run(g, w, h, par, ds, y, n - 1);
        lemma_step_labels(cur, prev.0, prev.1, w, h, par, n - 1, y, ds[idx(w, n - 1, y)]);
        lemma_step_tallies(cur, w, h, par, n - 1, y, ds[idx(w, n - 1, y)]);
    }
}

proof fn lemma_rows_labels(g: Seq<Particle>, w: int, h: int, par: bool, ds: Seq<CellDraws>, r: int)
    requires
        0 <= r <= h,
        0 <= w,
        g.len() == w * h,
    ensures
        ({
            let lr = rows_labels(g, w, h, par, ds, r);
            &&& labels_ok(rows_run(g, w, h, par, ds, r), lr.0, lr.1, par)
            &&& rows_fresh(g, w, h, par, ds, r)
        }),
    decreases r,
{
    if r > 0 {
        lemma_rows_labels(g, w, h, par, ds, r - 1);
        lemma_rows_tallies(g, w, h, par, ds, r - 1);
        let prev = rows_labels(g, w, h, par, ds, r - 1);
        lemma_row_labels(rows_run(g, w, h, par, ds, r - 1), w, h, par, ds, prev.0, prev.1, h - r, w);
    }
}

/// No double update: label every particle by its cell at the start of a
/// tick and let each label follow its particle as cells are swapped. Then
/// every visit that processes a particle processes one whose label was not
/// processed earlier in the same tick.
pub proof fn law_no_double_update(g: Seq<Particle>, w: int, h: int, par: bool, ds: Seq<CellDraws>)
    requires
        0 <= w,
        0 <= h,
        g.len() == w * h,
    ensures
        rows_fresh(g, w, h, par, ds, h),
{
    lemma_rows_labels(g, w, h, par, ds, h);
}

// ---------------------------------------------------------------------
// A grid of sand alone.
// ---------------------------------------------------------------------

/// Every cell is empty or holds sand, with a negative lifetime.
pub open spec fn sand_only(g: Seq<Particle>) -> bool {
    forall|k: int|
        0 <= k < g.len() ==> ((#[trigger] g[k]).strain == Strain::Empty || g[k].strain == Strain::Sand)
            && g[k].lifetime < 0
}

pub open spec fn is_sand() -> spec_fn(Particle) -> bool {
    |p: Particle| p.strain == Strain::Sand
}

proof fn lemma_count_agree(s: Seq<Particle>, p: spec_fn(Particle) -> bool, q: spec_fn(Particle) -> bool)
    requires
        forall|k: int| 0 <= k < s.len() ==> p(#[trigger] s[k]) == q(s[k]),
    ensures
        count_where(s, p) == count_where(s, q),
    decreases s.len(),
{
    if s.len() > 0 {
        assert(p(s[s.len() - 1]) == q(s[s.len() - 1]));
        lemma_count_agree(s.drop_last(), p, q);
    }
}

proof fn lemma_step_sand_only(g: Seq<Particle>, w: int, h: int, par: bool, x: int, y: int, d: CellDraws)
    requires
        in_bounds(w, h, x, y),
        g.len() == w * h,
        sand_only(g),
    ensures
        sand_only(step(g, w, h, par, x, y, d)),
        step(g, w, h, par, x, y, d).len() == g.len(),
{
    lemma_cells_in_range(w, h, x, y);
    lemma_first_with_in_range(g, w, h, x, y, Strain::Fire, 0);
    let i = idx(w, x, y);
    if eligible(g[i], par) {
        let q = renewed(g, w, h, x, y, par, d);
        assert(q.strain == Strain::Sand && q.lifetime < 0);
        let g1 = g.update(i, q);
        assert(sand_only(g1));
        let dx = tumble_dx(g1, w, h, x, y);
        let t = if can_fall(g1, w, h, x, y, 1) { idx(w, x, y + 1) } else { idx(w, x + dx, y + 1) };
        if can_fall(g1, w, h, x, y, 1) || dx != 0 {
            let g2 = swap_cells(g1, i, t);
            assert forall|k: int| 0 <= k < g2.len() implies ((#[trigger] g2[k]).strain == Strain::Empty
                || g2[k].strain == Strain::Sand) && g2[k].lifetime < 0 by {
                if k == t {
                    assert(g1[i] == g2[k]);
                } else if k == i {
                    assert(g1[t] == g2[k]);
                } else {
                    assert(g1[k] == g2[k]);
                }
            }
        }
    }
}

proof fn lemma_rows_sand_only(g: Seq<Particle>, w: int, h: int, par: bool, ds: Seq<CellDraws>, r: int, n: int)
    requires
        0 <= r < h,
        0 <= n <= w,
        g.len() == w * h,
        sand_only(g),
    ensures
        sand_only(row_run(g, w, h, par, ds, h - 1 - r, n)),
        row_run(g, w, h, par, ds, h - 1 - r, n).len() == g.len(),
    decreases n,
{
    if n > 0 {
        lemma_rows_sand_only(g, w, h, par, ds, r, n - 1);
        lemma_step_sand_only(row_run(g, w, h, par, ds, h - 1 - r, n - 1), w, h, par, n - 1, h - 1 - r, ds[idx(w, n - 1, h - 1 - r)]);
    }
}

proof fn lemma_tick_sand_only(g: Seq<Particle>, w: int, h: int, par: bool, ds: Seq<CellDraws>, r: int)
    requires
        0 <= r <= h,
        0 <= w,
        g.len() == w * h,
        sand_only(g),
    ensures
        sand_only(rows_run(g, w, h, par, ds, r)),
        rows_run(g, w, h, par, ds, r).len() == g.len(),
    decreases r,
{
    if r > 0 {
        lemma_tick_sand_only(g, w, h, par, ds, r - 1);
        lemma_rows_sand_only(rows_run(g, w, h, par, ds, r - 1), w, h, par, ds, r - 1, w);
    }
}

/// Sand alone is conserved: on a grid holding only sand and empty cells,
/// all with negative lifetimes, a tick leaves only sand and empty cells, and
/// exactly as many sand particles as before: none vanishes or duplicates.
pub proof fn law_sand_grid_conserved(g: Seq<Particle>, w: int, h: int, par: bool, ds: Seq<CellDraws>)
    requires
        0 <= w,
        0 <= h,
        g.len() == w * h,
        sand_only(g),
    ensures
        sand_only(tick_result(g, w, h, par, ds)),
        count_where(tick_result(g, w, h, par, ds), is_sand()) == count_where(g, is_sand()),
{
    let t = tick_result(g, w, h, par, ds);
    lemma_tick_sand_only(g, w, h, par, ds, h);
    assert forall|i: int| 0 <= i < g.len() && !spec_decays(#[trigger] g[i].strain) implies g[i].lifetime < 0 by {
        assert(g[i].lifetime < 0);
    }
    law_tick_conserves(g, w, h, par, ds);
    lemma_count_agree(g, of_family(1), is_sand());
    lemma_count_agree(t, of_family(1), is_sand());
}

} // verus!
