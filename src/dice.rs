use rand::rngs::StdRng;
use rand::Rng;
use vstd::prelude::*;

use crate::material::{valid_base_lifetime, Strain};

verus! {

#[verifier::external_type_specification]
#[verifier::external_body]
pub struct ExStdRng(StdRng);

/// Relies on rand's `Rng::gen_range(low, high)`: a value in `[low, high)`;
/// it panics when `low >= high`, which `requires` rules out.
#[verifier::external_body]
fn roll_range(rng: &mut StdRng, lo: i16, hi: i16) -> (r: i16)
    requires
        lo < hi,
    ensures
        lo <= r < hi,
{
    rng.gen_range(lo, hi)
}

/// Relies on rand's `Rng::gen::<bool>()`: a fair coin; nothing is promised
/// of which side comes up.
#[verifier::external_body]
fn flip(rng: &mut StdRng) -> (r: bool) {
    rng.gen::<bool>()
}

/// Every random value that one cell's update may consume.
#[derive(Clone, Copy, Debug, PartialEq, Eq, Structural)]
pub struct CellDraws {
    /// Lifetime given to a particle that becomes fire in this update.
    pub fire_lifetime: i16,
    /// Lifetime given to a particle that becomes molten glass in this update.
    pub molten_lifetime: i16,
    /// Percent roll against the cell's reaction chance, in `[0, 100)`.
    pub react_roll: u8,
    /// Percent roll against a neighbour's ignition chance, in `[0, 100)`.
    pub ignite_roll: u8,
    /// Fire tries to rise.
    pub rise: bool,
    /// Fire tries to drift sideways.
    pub drift: bool,
    /// Direction of a sideways move: left when set, right otherwise.
    pub go_left: bool,
    /// Molten glass, blocked below, tries to slide.
    pub ooze: bool,
}

impl CellDraws {
    /// Lifetime that a particle turning into `m` is given.
    pub open spec fn spec_lifetime_for(self, m: Strain) -> i16 {
        match m {
            Strain::Fire => self.fire_lifetime,
            Strain::MoltenGlass => self.molten_lifetime,
            _ => -1i16,
        }
    }

    /// The draws are ones that a uniform source could produce.
    pub open spec fn valid(self) -> bool {
        &&& valid_base_lifetime(Strain::Fire, self.fire_lifetime as int)
        &&& valid_base_lifetime(Strain::MoltenGlass, self.molten_lifetime as int)
        &&& self.react_roll < 100
        &&& self.ignite_roll < 100
    }

    pub fn lifetime_for(&self, m: Strain) -> (r: i16)
        ensures
            r == self.spec_lifetime_for(m),
    {
        match m {
            Strain::Fire => self.fire_lifetime,
            Strain::MoltenGlass => self.molten_lifetime,
            _ => -1,
        }
    }
}

/// A valid draw holds, for every material, a lifetime within its range.
pub proof fn lemma_valid_lifetime(d: CellDraws, m: Strain)
    requires
        d.valid(),
    ensures
        valid_base_lifetime(m, d.spec_lifetime_for(m) as int),
{
}

impl Strain {
    /// A fresh lifetime for this material, drawn uniformly from its range;
    /// -1 for materials that never decay.
    pub fn base_lifetime(&self, rng: &mut StdRng) -> (r: i16)
        ensures
            valid_base_lifetime(*self, r as int),
    {
        match self.lifetime_range() {
            Some((lo, hi)) => roll_range(rng, lo, hi),
            None => -1,
        }
    }
}

/// A percent roll in `[0, 100)`.
fn roll_percent(rng: &mut StdRng) -> (r: u8)
    ensures
        r < 100,
{
    roll_range(rng, 0, 100) as u8
}

/// Draws everything one cell's update may need.
pub fn draw_cell(rng: &mut StdRng) -> (d: CellDraws)
    ensures
        d.valid(),
{
    let fire_lifetime = Strain::Fire.base_lifetime(rng);
    let molten_lifetime = Strain::MoltenGlass.base_lifetime(rng);
    let react_roll = roll_percent(rng);
    let ignite_roll = roll_percent(rng);
    let rise = flip(rng);
    let drift = flip(rng);
    let go_left = flip(rng);
    let ooze = flip(rng);
    CellDraws { fire_lifetime, molten_lifetime, react_roll, ignite_roll, rise, drift, go_left, ooze }
}

} // verus!
