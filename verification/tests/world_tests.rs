use evolenia::world::{target_total_mass, WorldState};
use evolenia::worldgen::{blank_world, generate_world, Genome};
use evolenia::total_pixels;

#[test]
fn default_grid_constants() {
    assert_eq!(total_pixels(), 512 * 512);
    assert_eq!(target_total_mass(), 512 * 512 * 150_000);
}

#[test]
fn swap_flips_parity_and_counts_steps() {
    let mut ws = WorldState::new();
    assert_eq!(ws.cur(), 0);
    assert_eq!(ws.next(), 1);
    ws.swap();
    // After exactly one swap, current is the prior next.
    assert_eq!(ws.cur(), 1);
    assert_eq!(ws.next(), 0);
    assert_eq!(ws.frame, 1);
    ws.swap();
    // An even number of swaps returns to the original parity.
    assert_eq!(ws.cur(), 0);
    assert_eq!(ws.frame, 2);
    for _ in 0..10 {
        ws.swap();
    }
    assert_eq!(ws.cur(), 0);
    assert_eq!(ws.frame, 12);
}

#[test]
fn render_uniforms_carry_the_visualization_mode() {
    let ws = WorldState::new();
    let p = ws.render_uniforms(3);
    assert_eq!(p.width, 512);
    assert_eq!(p.height, 512);
    assert_eq!(p.visualization_mode, 3);
}

#[test]
fn normalize_uniforms_carry_the_milli_unit_target() {
    let ws = WorldState::new();
    let p = ws.normalize_uniforms();
    assert_eq!(p.width, 512);
    assert_eq!(p.height, 512);
    assert_eq!(p.target_mass_x1000, 39_321_600);
}

#[test]
fn step_uniforms_name_the_grid_and_frame() {
    let mut ws = WorldState::new();
    ws.swap();
    ws.swap();
    let (sim, vel, res) = ws.step_uniforms();
    assert_eq!(sim.width, 512);
    assert_eq!(sim.height, 512);
    assert_eq!(sim.frame, 2);
    assert_eq!(sim.dt, 100_000);
    assert_eq!(vel.frame, 2);
    assert_eq!(res.frame, 2);
}

#[test]
fn generated_world_satisfies_the_field_invariants() {
    let snap = generate_world(42, 64, 64);
    assert_eq!(snap.width, 64);
    assert_eq!(snap.height, 64);
    let n = 64 * 64;
    assert_eq!(snap.mass.len(), n);
    assert_eq!(snap.genome_a.len(), 4 * n);
    let mut any_mass = false;
    for i in 0..n {
        // Mass clamped to one unit after every stamp.
        assert!(snap.mass[i] <= 1_000_000);
        // Energy in the band the seed patterns write.
        assert!(snap.energy[i] >= 400_000 && snap.energy[i] <= 800_000);
        // Every genome trait within the generator's drawn ranges,
        // defaults included; in particular the growth width is nonzero.
        assert!(snap.genome_a[4 * i] >= 3_000_000 && snap.genome_a[4 * i] < 9_000_000);
        assert!(snap.genome_a[4 * i + 1] >= 120_000 && snap.genome_a[4 * i + 1] <= 500_000);
        assert!(snap.genome_a[4 * i + 2] >= 40_000 && snap.genome_a[4 * i + 2] < 180_000);
        assert!(snap.genome_a[4 * i + 3] < 1_000_000);
        assert!(snap.genome_b[i] >= 500 && snap.genome_b[i] <= 10_000);
        // The nutrient landscape stays within its clamp band.
        assert!(snap.resource[i] >= 50_000);
        assert!(snap.resource[i] <= 1_000_000);
        if snap.mass[i] > 0 {
            any_mass = true;
        }
    }
    assert!(any_mass, "a seeded world holds organisms");
    // The generator provably saturates at least one cell.
    assert!(snap.mass.iter().any(|&m| m == 1_000_000));
}

#[test]
fn generation_is_a_function_of_the_seed() {
    let a = generate_world(1234, 48, 48);
    let b = generate_world(1234, 48, 48);
    assert_eq!(a.mass, b.mass);
    assert_eq!(a.energy, b.energy);
    assert_eq!(a.genome_a, b.genome_a);
    assert_eq!(a.genome_b, b.genome_b);
    assert_eq!(a.resource, b.resource);

    let c = generate_world(1235, 48, 48);
    // On a small grid the mass field can saturate everywhere, so compare
    // the drawn genomes and the nutrient landscape.
    assert_ne!(a.genome_a, c.genome_a, "different seeds give different worlds");
    assert_ne!(a.resource, c.resource, "different seeds give different landscapes");
}

#[test]
fn stamp_blends_additively_and_clamps() {
    let mut snap = blank_world(8, 8);
    let g = Genome {
        radius: 5_000_000,
        mu: 200_000,
        sigma: 100_000,
        aggression: 0,
        mutation_rate: 2_000,
    };
    snap.stamp(3, 700_000, 450_000, &g);
    assert_eq!(snap.mass[3], 700_000);
    assert_eq!(snap.energy[3], 450_000);
    assert_eq!(snap.genome_a[12], 5_000_000);
    assert_eq!(snap.genome_a[14], 100_000);
    assert_eq!(snap.genome_b[3], 2_000);
    // A second stamp blends into the mass and clamps at one unit.
    snap.stamp(3, 700_000, 450_000, &g);
    assert_eq!(snap.mass[3], 1_000_000);
    // Other cells stay untouched.
    assert_eq!(snap.mass[4], 0);
}

#[test]
fn generated_mutation_rates_stay_inside_the_drawn_ranges() {
    let snap = generate_world(5, 64, 64);
    for i in 0..(64 * 64) {
        let gb = snap.genome_b[i];
        // Either the untouched default, or a value drawn from one of the
        // pattern ranges, all of which sit strictly below 8000.
        assert!(gb == 10_000 || gb < 8_000);
    }
}
