use falling_sand::dice::{draw_cell, CellDraws};
use falling_sand::grid::{FallingSand, Particle};
use falling_sand::material::{Reaction, Strain};
use rand::rngs::StdRng;
use rand::SeedableRng;

/// Draws under which nothing random happens: no reaction, no ignition, fire
/// stays put, spreading goes right.
fn calm() -> CellDraws {
    CellDraws {
        fire_lifetime: 80,
        molten_lifetime: 300,
        react_roll: 99,
        ignite_roll: 99,
        rise: false,
        drift: false,
        go_left: false,
        ooze: false,
    }
}

fn draws_for(s: &FallingSand, d: CellDraws) -> Vec<CellDraws> {
    vec![d; s.cell_count()]
}

fn particle(strain: Strain, update: bool, lifetime: i16) -> Particle {
    Particle { strain, update, lifetime }
}

fn count_of(s: &FallingSand, m: Strain) -> usize {
    let mut n = 0;
    for y in 0..s.height() {
        for x in 0..s.width() {
            if s.material_at(x, y) == m {
                n += 1;
            }
        }
    }
    n
}

#[test]
fn new_grid_is_empty() {
    let s = FallingSand::new(4, 3);
    assert_eq!(s.width(), 4);
    assert_eq!(s.height(), 3);
    assert_eq!(s.cell_count(), 12);
    assert!(!s.parity_flag());
    assert_eq!(s.particles_updated(), 0);
    for y in 0..3 {
        for x in 0..4 {
            assert_eq!(s.get(x, y), particle(Strain::Empty, false, -1));
            assert!(s.is_particle_empty(x, y));
        }
    }
    assert_eq!(Particle::default(), particle(Strain::Empty, false, -1));
}

#[test]
fn index_is_row_major() {
    let s = FallingSand::new(5, 4);
    assert_eq!(s.index(0, 0), 0);
    assert_eq!(s.index(3, 0), 3);
    assert_eq!(s.index(2, 3), 17);
}

#[test]
fn material_table() {
    assert_eq!(Strain::Sand.density(), 1600);
    assert_eq!(Strain::Water.density(), 1000);
    assert_eq!(Strain::Fire.density(), 600);
    assert_eq!(Strain::Wood.density(), 9999);
    assert_eq!(Strain::Empty.density(), 0);
    assert_eq!(Strain::MoltenGlass.death_strain(), Strain::Glass);
    assert_eq!(Strain::Fire.death_strain(), Strain::Empty);
    assert_eq!(Strain::Wood.ignite_chance(), 5);
    assert_eq!(Strain::Sand.ignite_chance(), 0);
    assert_eq!(Strain::Fire.lifetime_range(), Some((60, 100)));
    assert_eq!(Strain::MoltenGlass.lifetime_range(), Some((240, 480)));
    assert_eq!(Strain::Sand.lifetime_range(), None);
    assert_eq!(
        Strain::Sand.reaction(),
        Some(Reaction { trigger: Strain::Fire, chance: 1, result: Strain::MoltenGlass })
    );
    assert_eq!(Strain::Water.reaction(), None);
    assert_eq!(Strain::MoltenGlass.to_str(), "Molten Glass");
    assert_eq!(Strain::Empty.to_str(), "Empty");
    assert_eq!(Strain::Fire.to_colour_id(), 4);
    assert_eq!(Strain::Empty.to_colour_id(), 0);
}

#[test]
fn base_lifetimes_are_drawn_from_the_range() {
    let mut rng = StdRng::seed_from_u64(11);
    let mut seen_other_than_low = false;
    for _ in 0..200 {
        let l = Strain::Fire.base_lifetime(&mut rng);
        assert!((60..100).contains(&l));
        if l != 60 {
            seen_other_than_low = true;
        }
        assert_eq!(Strain::Water.base_lifetime(&mut rng), -1);
    }
    assert!(seen_other_than_low);
    for _ in 0..50 {
        let d = draw_cell(&mut rng);
        assert!(d.react_roll < 100 && d.ignite_roll < 100);
        assert!((240..480).contains(&d.molten_lifetime));
        assert_eq!(d.lifetime_for(Strain::Fire), d.fire_lifetime);
        assert_eq!(d.lifetime_for(Strain::Sand), -1);
    }
}

#[test]
fn set_swap_and_set_row() {
    let mut s = FallingSand::new(3, 3);
    s.set(1, 1, particle(Strain::Sand, true, -1));
    s.swap(1, 1, 2, 2);
    assert_eq!(s.get(2, 2), particle(Strain::Sand, true, -1));
    assert!(s.is_particle_empty(1, 1));
    s.set_strain(0, 0, Strain::Water);
    assert_eq!(s.get(0, 0), particle(Strain::Water, false, -1));
    s.set_row(Strain::Wood, 1, &mut StdRng::seed_from_u64(9));
    for x in 0..3 {
        assert_eq!(s.material_at(x, 1), Strain::Wood);
    }
    assert_eq!(s.material_at(0, 0), Strain::Water);
    assert_eq!(s.material_at(2, 2), Strain::Sand);
}

#[test]
fn set_row_gives_fresh_lifetimes() {
    let mut rng = StdRng::seed_from_u64(4);
    let mut s = FallingSand::new(3, 2);
    s.set(1, 1, particle(Strain::Fire, true, 12));
    s.set_row(Strain::Wood, 1, &mut rng);
    assert_eq!(s.get(1, 1), particle(Strain::Wood, true, -1));
    assert_eq!(s.get(0, 1), particle(Strain::Wood, false, -1));
    s.set_row(Strain::Fire, 0, &mut rng);
    for x in 0..3 {
        let p = s.get(x, 0);
        assert_eq!(p.strain, Strain::Fire);
        assert!((60..100).contains(&p.lifetime));
    }
}

#[test]
fn spawn_out_of_bounds_is_ignored() {
    let mut rng = StdRng::seed_from_u64(1);
    let mut s = FallingSand::new(4, 4);
    s.spawn_at(4, 0, Strain::Sand, &mut rng);
    s.spawn_at(0, 4, Strain::Sand, &mut rng);
    s.spawn_at(usize::MAX, usize::MAX, Strain::Sand, &mut rng);
    s.spawn_particle(9, 9, particle(Strain::Sand, false, -1));
    assert_eq!(count_of(&s, Strain::Sand), 0);
    s.spawn_at(3, 3, Strain::Fire, &mut rng);
    let p = s.get(3, 3);
    assert_eq!(p.strain, Strain::Fire);
    assert!(p.update);
    assert!((60..100).contains(&p.lifetime));
}

#[test]
fn primitives_at_edges_are_blocked() {
    let mut s = FallingSand::new(3, 3);
    s.set(0, 2, particle(Strain::Sand, false, -1));
    assert!(!s.apply_gravity(0, 2, 1));
    assert!(!s.apply_tumble(0, 2));
    assert!(!s.apply_spread(0, 2, true));
    assert!(!s.apply_density(0, 2));
    s.set(2, 0, particle(Strain::Fire, false, 70));
    assert!(!s.apply_gravity(2, 0, -1));
    assert!(!s.apply_spread(2, 0, false));
    assert!(s.apply_spread(2, 0, true));
    assert_eq!(s.material_at(1, 0), Strain::Fire);
    assert!(s.apply_spread(0, 2, false));
    assert_eq!(s.material_at(1, 2), Strain::Sand);
}

#[test]
fn gravity_and_tumble() {
    let mut s = FallingSand::new(3, 3);
    s.set(1, 0, particle(Strain::Sand, false, -1));
    assert!(s.apply_gravity(1, 0, 1));
    assert_eq!(s.material_at(1, 1), Strain::Sand);
    s.set(1, 2, particle(Strain::Wood, false, -1));
    assert!(!s.apply_gravity(1, 1, 1));
    assert!(s.apply_tumble(1, 1));
    assert_eq!(s.material_at(0, 2), Strain::Sand);
    s.set(1, 1, particle(Strain::Sand, false, -1));
    assert!(s.apply_tumble(1, 1));
    assert_eq!(s.material_at(2, 2), Strain::Sand);
    s.set(1, 1, particle(Strain::Sand, false, -1));
    assert!(!s.apply_tumble(1, 1));
    assert_eq!(s.material_at(1, 1), Strain::Sand);
}

#[test]
fn density_swap_primitive() {
    let mut s = FallingSand::new(1, 2);
    s.set(0, 0, particle(Strain::Sand, false, -1));
    s.set(0, 1, particle(Strain::Water, false, -1));
    assert!(s.apply_density(0, 0));
    assert_eq!(s.material_at(0, 1), Strain::Sand);
    assert_eq!(s.material_at(0, 0), Strain::Water);
    assert!(!s.apply_density(0, 0));
}

#[test]
fn water_falls_to_the_floor() {
    let mut s = FallingSand::new(8, 8);
    s.spawn_particle(4, 0, particle(Strain::Water, !s.parity_flag(), -1));
    s.set_row(Strain::Wood, 7, &mut StdRng::seed_from_u64(9));
    let draws = draws_for(&s, calm());
    let mut counts = Vec::new();
    for _ in 0..7 {
        counts.push(s.tick_with(&draws).particles_updated);
    }
    assert_eq!(s.material_at(4, 6), Strain::Water);
    assert_eq!(count_of(&s, Strain::Water), 1);
    // The freshly spawned water waits out the first tick; the wood floor is
    // visited on every tick.
    assert_eq!(counts, vec![8, 9, 9, 9, 9, 9, 9]);
    assert_eq!(s.particles_updated(), 9);
}

#[test]
fn water_falls_to_the_floor_with_random_draws() {
    let mut rng = StdRng::seed_from_u64(42);
    let mut s = FallingSand::new(8, 8);
    s.spawn_at(4, 0, Strain::Water, &mut rng);
    s.set_row(Strain::Wood, 7, &mut rng);
    for _ in 0..7 {
        s.tick(&mut rng);
    }
    assert_eq!(s.material_at(4, 6), Strain::Water);
}

#[test]
fn parity_flips_each_tick() {
    let mut s = FallingSand::new(2, 2);
    let draws = draws_for(&s, calm());
    s.tick_with(&draws);
    assert!(s.parity_flag());
    s.tick_with(&draws);
    assert!(!s.parity_flag());
}

#[test]
fn sand_is_conserved() {
    let mut rng = StdRng::seed_from_u64(3);
    let mut s = FallingSand::new(16, 16);
    for x in 0..16 {
        s.spawn_at(x, x % 5, Strain::Sand, &mut rng);
        s.spawn_at(x, 6 + x % 3, Strain::Water, &mut rng);
    }
    s.spawn_at(3, 12, Strain::Sand, &mut rng);
    for _ in 0..60 {
        s.tick(&mut rng);
        assert_eq!(count_of(&s, Strain::Sand), 17);
        assert_eq!(count_of(&s, Strain::Water), 16);
    }
}

#[test]
fn sand_settles_on_a_sand_floor() {
    let mut s = FallingSand::new(5, 6);
    s.set_row(Strain::Sand, 5, &mut StdRng::seed_from_u64(9));
    s.spawn_particle(2, 0, particle(Strain::Sand, false, -1));
    let draws = draws_for(&s, calm());
    for _ in 0..4 {
        s.tick_with(&draws);
    }
    assert_eq!(s.material_at(2, 4), Strain::Sand);
    // the particle now stays put, tick after tick
    for _ in 0..5 {
        s.tick_with(&draws);
        assert_eq!(s.material_at(2, 4), Strain::Sand);
        assert_eq!(count_of(&s, Strain::Sand), 6);
    }
}

#[test]
fn heavier_particle_sinks_through_lighter() {
    let mut s = FallingSand::new(3, 2);
    s.set_row(Strain::Wood, 1, &mut StdRng::seed_from_u64(9));
    s.set(1, 1, particle(Strain::Water, false, -1));
    s.set(1, 0, particle(Strain::Sand, false, -1));
    let draws = draws_for(&s, calm());
    s.tick_with(&draws);
    assert_eq!(s.material_at(1, 1), Strain::Sand);
    assert_eq!(s.material_at(1, 0), Strain::Water);
}

#[test]
fn decay_happens_in_place() {
    let mut s = FallingSand::new(3, 3);
    s.set(1, 1, particle(Strain::Fire, false, 0));
    s.set(1, 0, particle(Strain::MoltenGlass, false, 0));
    let mut d = calm();
    d.rise = true;
    let draws = draws_for(&s, d);
    let stats = s.tick_with(&draws);
    assert_eq!(stats.particles_updated, 2);
    assert_eq!(s.get(1, 1), particle(Strain::Empty, true, -1));
    assert_eq!(s.get(1, 0), particle(Strain::Glass, true, -1));
}

#[test]
fn lifetime_counts_down() {
    let mut s = FallingSand::new(3, 3);
    s.set(1, 2, particle(Strain::MoltenGlass, false, 5));
    s.set_row(Strain::Wood, 2, &mut StdRng::seed_from_u64(9));
    s.set(1, 2, particle(Strain::MoltenGlass, false, 5));
    let draws = draws_for(&s, calm());
    s.tick_with(&draws);
    assert_eq!(s.get(1, 2), particle(Strain::MoltenGlass, true, 4));
}

#[test]
fn reaction_follows_the_roll() {
    let mut s = FallingSand::new(2, 1);
    s.set(0, 0, particle(Strain::MoltenGlass, false, 300));
    s.set(1, 0, particle(Strain::Water, false, -1));
    assert_eq!(s.reaction_outcome(0, 0, Strain::MoltenGlass, 49), Some(Strain::Glass));
    assert_eq!(s.reaction_outcome(0, 0, Strain::MoltenGlass, 50), None);
    assert_eq!(s.reaction_outcome(0, 0, Strain::Sand, 0), None);
    assert!(s.touches(0, 0, Strain::Water));
    assert!(!s.touches(1, 0, Strain::Water));
    let mut d = calm();
    d.react_roll = 10;
    let draws = draws_for(&s, d);
    s.tick_with(&draws);
    assert_eq!(s.get(0, 0), particle(Strain::Glass, true, -1));
}

#[test]
fn failed_roll_keeps_material() {
    let mut s = FallingSand::new(2, 1);
    s.set(0, 0, particle(Strain::Glass, false, -1));
    s.set(1, 0, particle(Strain::Fire, true, 80));
    let draws = draws_for(&s, calm());
    s.tick_with(&draws);
    assert_eq!(s.get(0, 0), particle(Strain::Glass, true, -1));
}

#[test]
fn fire_ignites_wood() {
    let mut s = FallingSand::new(3, 1);
    s.set(0, 0, particle(Strain::Fire, false, 80));
    s.set(1, 0, particle(Strain::Wood, true, -1));
    let mut d = calm();
    d.ignite_roll = 4;
    d.fire_lifetime = 65;
    let mut t = FallingSand::new(3, 1);
    t.set(0, 0, particle(Strain::Fire, false, 80));
    t.set(1, 0, particle(Strain::Wood, true, -1));
    s.ignite_neighbors(0, 0, &d);
    assert_eq!(s.get(1, 0), particle(Strain::Fire, true, 65));
    d.ignite_roll = 5;
    t.ignite_neighbors(0, 0, &d);
    assert_eq!(t.get(1, 0), particle(Strain::Wood, true, -1));
}

#[test]
fn fire_rises_into_empty() {
    let mut s = FallingSand::new(1, 3);
    s.set(0, 2, particle(Strain::Fire, false, 80));
    let mut d = calm();
    d.rise = true;
    let draws = draws_for(&s, d);
    // the fire moves into a row visited later in the tick, yet is
    // processed once: one count, one lifetime step
    let stats = s.tick_with(&draws);
    assert_eq!(stats.particles_updated, 1);
    assert_eq!(s.get(0, 1), particle(Strain::Fire, true, 79));
    assert!(s.is_particle_empty(0, 2));
}

#[test]
fn fire_drifts_and_ignites_from_where_it_rose() {
    // fire at (1,2) rises to (1,1), drifts to (0,1), and lights the wood
    // at (0,0) above its final cell
    let mut s = FallingSand::new(3, 3);
    s.set(1, 2, particle(Strain::Fire, false, 80));
    s.set(0, 0, particle(Strain::Wood, true, -1));
    let mut d = calm();
    d.rise = true;
    d.drift = true;
    d.go_left = true;
    d.ignite_roll = 0;
    d.fire_lifetime = 70;
    assert!(s.update_cell(1, 2, &d));
    assert_eq!(s.get(0, 1), particle(Strain::Fire, true, 79));
    assert_eq!(s.get(0, 0), particle(Strain::Fire, true, 70));
    assert!(s.is_particle_empty(1, 2));
    assert!(s.is_particle_empty(1, 1));
}

#[test]
fn water_spreads_sideways() {
    let mut s = FallingSand::new(3, 1);
    s.set(1, 0, particle(Strain::Water, false, -1));
    let mut d = calm();
    d.go_left = true;
    assert!(s.update_cell(1, 0, &d));
    assert_eq!(s.material_at(0, 0), Strain::Water);
    assert!(!s.update_cell(0, 0, &d));
}

#[test]
fn paint_fills_a_plus_shape() {
    let mut rng = StdRng::seed_from_u64(5);
    let mut s = FallingSand::new(5, 5);
    s.set(2, 1, particle(Strain::Wood, false, -1));
    s.paint(2, 2, Strain::Sand, &mut rng);
    assert_eq!(count_of(&s, Strain::Sand), 4);
    assert_eq!(s.material_at(2, 1), Strain::Wood);
    s.paint(0, 0, Strain::Water, &mut rng);
    assert_eq!(count_of(&s, Strain::Water), 3);
    s.paint(2, 2, Strain::Empty, &mut rng);
    assert_eq!(count_of(&s, Strain::Sand), 0);
    assert_eq!(count_of(&s, Strain::Wood), 0);
    s.paint_cell(4, 4, Strain::Fire, &mut rng);
    assert_eq!(s.material_at(4, 4), Strain::Fire);
    let p = s.get(4, 4);
    assert_eq!(p.update, !s.parity_flag());
    assert!((60..100).contains(&p.lifetime));
    // a filled cell is left alone by a brush of another material
    s.paint(4, 4, Strain::Sand, &mut rng);
    assert_eq!(s.get(4, 4), p);
    assert_eq!(s.material_at(3, 4), Strain::Sand);
}
