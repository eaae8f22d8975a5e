use vstd::prelude::*;

verus! {

/// The closed set of particle kinds.
#[derive(Clone, Copy, Debug, PartialEq, Eq, Structural)]
pub enum Strain {
    Empty,
    Sand,
    Water,
    Wood,
    Fire,
    Glass,
    MoltenGlass,
}

/// A contact rule: next to `trigger`, a particle becomes `result` with
/// probability `chance` percent.
#[derive(Clone, Copy, Debug, PartialEq, Eq, Structural)]
pub struct Reaction {
    pub trigger: Strain,
    pub chance: u8,
    pub result: Strain,
}

pub open spec fn spec_density(m: Strain) -> int {
    match m {
        Strain::Empty => 0,
        Strain::Sand => 1600,
        Strain::Water => 1000,
        Strain::Wood => 9999,
        Strain::Fire => 600,
        Strain::Glass => 9999,
        Strain::MoltenGlass => 1600,
    }
}

/// Whether particles of `m` live for a finite number of ticks.
pub open spec fn spec_decays(m: Strain) -> bool {
    m == Strain::Fire || m == Strain::MoltenGlass
}

/// Lower bound (inclusive) of a fresh lifetime of `m`.
pub open spec fn lifetime_lo(m: Strain) -> int {
    match m {
        Strain::Fire => 60,
        Strain::MoltenGlass => 240,
        _ => -1,
    }
}

/// Upper bound (exclusive) of a fresh lifetime of `m`.
pub open spec fn lifetime_hi(m: Strain) -> int {
    match m {
        Strain::Fire => 100,
        Strain::MoltenGlass => 480,
        _ => 0,
    }
}

/// `l` is a lifetime that a fresh particle of `m` may be born with:
/// within the material's range, or the sentinel -1 for unbounded materials.
pub open spec fn valid_base_lifetime(m: Strain, l: int) -> bool {
    lifetime_lo(m) <= l < lifetime_hi(m)
}

pub open spec fn spec_death_strain(m: Strain) -> Strain {
    match m {
        Strain::MoltenGlass => Strain::Glass,
        _ => Strain::Empty,
    }
}

pub open spec fn spec_ignite_chance(m: Strain) -> int {
    match m {
        Strain::Wood => 5,
        _ => 0,
    }
}

pub open spec fn spec_reaction(m: Strain) -> Option<Reaction> {
    match m {
        Strain::Sand => Some(Reaction { trigger: Strain::Fire, chance: 1, result: Strain::MoltenGlass }),
        Strain::MoltenGlass => Some(Reaction { trigger: Strain::Water, chance: 50, result: Strain::Glass }),
        Strain::Glass => Some(Reaction { trigger: Strain::Fire, chance: 10, result: Strain::MoltenGlass }),
        _ => None,
    }
}

pub open spec fn spec_colour_id(m: Strain) -> int {
    match m {
        Strain::Empty => 0,
        Strain::Sand => 1,
        Strain::Water => 2,
        Strain::Wood => 3,
        Strain::Fire => 4,
        Strain::Glass => 5,
        Strain::MoltenGlass => 6,
    }
}

pub open spec fn spec_name(m: Strain) -> Seq<char> {
    match m {
        Strain::Empty => "Empty"@,
        Strain::Sand => "Sand"@,
        Strain::Water => "Water"@,
        Strain::Wood => "Wood"@,
        Strain::Fire => "Fire"@,
        Strain::Glass => "Glass"@,
        Strain::MoltenGlass => "Molten Glass"@,
    }
}

impl Strain {
    /// Index of the material's colour in the display palette.
    pub fn to_colour_id(&self) -> (r: u16)
        ensures
            r as int == spec_colour_id(*self),
    {
        match self {
            Strain::Empty => 0,
            Strain::Sand => 1,
            Strain::Water => 2,
            Strain::Wood => 3,
            Strain::Fire => 4,
            Strain::Glass => 5,
            Strain::MoltenGlass => 6,
        }
    }

    pub fn density(&self) -> (r: u16)
        ensures
            r as int == spec_density(*self),
    {
        match self {
            Strain::Empty => 0,
            Strain::Sand => 1600,
            Strain::Water => 1000,
            Strain::Wood => 9999,
            Strain::Fire => 600,
            Strain::Glass => 9999,
            Strain::MoltenGlass => 1600,
        }
    }

    /// Display name of the material.
    pub fn to_str(&self) -> (r: &'static str)
        ensures
            r@ == spec_name(*self),
    {
        let r = match self {
            Strain::Empty => "Empty",
            Strain::Sand => "Sand",
            Strain::Water => "Water",
            Strain::Wood => "Wood",
            Strain::Fire => "Fire",
            Strain::Glass => "Glass",
            Strain::MoltenGlass => "Molten Glass",
        };
        proof {
            reveal_strlit("Empty");
            reveal_strlit("Sand");
            reveal_strlit("Water");
            reveal_strlit("Wood");
            reveal_strlit("Fire");
            reveal_strlit("Glass");
            reveal_strlit("Molten Glass");
        }
        r
    }

    /// Range `[lo, hi)` of fresh lifetimes, or `None` for materials that
    /// never decay.
    pub fn lifetime_range(&self) -> (r: Option<(i16, i16)>)
        ensures
            r.is_some() == spec_decays(*self),
            r matches Some((lo, hi)) ==> lo as int == lifetime_lo(*self) && hi as int
                == lifetime_hi(*self) && lo < hi,
    {
        match self {
            Strain::Fire => Some((60, 100)),
            Strain::MoltenGlass => Some((240, 480)),
            _ => None,
        }
    }

    /// What the material becomes when its lifetime runs out.
    pub fn death_strain(&self) -> (r: Strain)
        ensures
            r == spec_death_strain(*self),
    {
        match self {
            Strain::MoltenGlass => Strain::Glass,
            _ => Strain::Empty,
        }
    }

    /// Percent chance, per check, that fire next to it sets it alight.
    pub fn ignite_chance(&self) -> (r: u8)
        ensures
            r as int == spec_ignite_chance(*self),
    {
        match self {
            Strain::Wood => 5,
            _ => 0,
        }
    }

    /// The material's contact rule, if it has one.
    pub fn reaction(&self) -> (r: Option<Reaction>)
        ensures
            r == spec_reaction(*self),
    {
        match self {
            Strain::Sand => Some(Reaction { trigger: Strain::Fire, chance: 1, result: Strain::MoltenGlass }),
            Strain::MoltenGlass => Some(Reaction { trigger: Strain::Water, chance: 50, result: Strain::Glass }),
            Strain::Glass => Some(Reaction { trigger: Strain::Fire, chance: 10, result: Strain::MoltenGlass }),
            _ => None,
        }
    }
}

} // verus!
