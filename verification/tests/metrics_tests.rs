use evolenia::metrics::{
    compute_genetic_entropy, compute_genome_stats, detect_species, SimDiagnostics,
};
use evolenia::world::BufferSnapshot;
use evolenia::worldgen::{blank_world, Genome};

fn flat_genomes(cells: usize, r: u32, mu: u32, sigma: u32, agg: u32) -> Vec<u32> {
    let mut ga = Vec::with_capacity(4 * cells);
    for _ in 0..cells {
        ga.push(r);
        ga.push(mu);
        ga.push(sigma);
        ga.push(agg);
    }
    ga
}

#[test]
fn entropy_is_zero_when_all_mass_shares_one_bin() {
    let ga = flat_genomes(6, 4_000_000, 200_000, 100_000, 0);
    let mass = vec![900_000, 500_000, 0, 20_000, 11_000, 5_000];
    assert_eq!(compute_genetic_entropy(&ga, &mass, 10), 0);
}

#[test]
fn entropy_is_zero_with_no_live_cells() {
    let ga = flat_genomes(4, 4_000_000, 200_000, 100_000, 0);
    let mass = vec![0, 10_000, 9_999, 0];
    assert_eq!(compute_genetic_entropy(&ga, &mass, 10), 0);
}

#[test]
fn entropy_of_an_even_two_way_split_is_one_bit() {
    // Two live cells, equal mass, radii two bins apart.
    let mut ga = flat_genomes(2, 0, 200_000, 100_000, 0);
    ga[4] = 3_200_000; // radius bin 2 instead of 0
    let mass = vec![500_000, 500_000];
    assert_eq!(compute_genetic_entropy(&ga, &mass, 10), 1_000_000);
}

#[test]
fn entropy_of_an_even_four_way_split_is_two_bits() {
    let mut ga = flat_genomes(4, 0, 200_000, 100_000, 0);
    ga[4] = 1_600_000;
    ga[8] = 3_200_000;
    ga[12] = 4_800_000;
    let mass = vec![250_000, 250_000, 250_000, 250_000];
    assert_eq!(compute_genetic_entropy(&ga, &mass, 10), 2_000_000);
}

#[test]
fn entropy_of_a_three_way_split_is_close_to_log2_of_three() {
    let mut ga = flat_genomes(3, 0, 200_000, 100_000, 0);
    ga[4] = 1_600_000;
    ga[8] = 3_200_000;
    let mass = vec![300_000, 300_000, 300_000];
    let h = compute_genetic_entropy(&ga, &mass, 10);
    assert!(h > 1_580_000 && h < 1_590_000, "entropy {h} should be near log2(3)");
}

#[test]
fn species_count_is_capped_and_zero_without_significant_mass() {
    // Twenty-five well-separated genomes, cap at twenty.
    let cells = 25usize;
    let mut ga = Vec::new();
    for i in 0..cells {
        ga.push((i as u32) * 16_000_000);
        ga.push(200_000);
        ga.push(100_000);
        ga.push(0);
    }
    let mass = vec![100_000u32; cells];
    assert_eq!(detect_species(&ga, &mass, 20), 20);

    // Nothing above the significance threshold: no species at all.
    let faint = vec![50_000u32; cells];
    assert_eq!(detect_species(&ga, &faint, 20), 0);
    assert_eq!(detect_species(&ga, &faint, 0), 0);
}

#[test]
fn identical_genomes_are_one_species() {
    let ga = flat_genomes(9, 4_000_000, 200_000, 100_000, 0);
    let mass = vec![1_000_000u32; 9];
    assert_eq!(detect_species(&ga, &mass, 20), 1);
}

#[test]
fn single_cluster_scenario_has_zero_entropy_and_one_species() {
    // A single 3x3 stamped cluster of full mass at one known genome.
    let mut snap = blank_world(16, 16);
    let g = Genome {
        radius: 5_000_000,
        mu: 200_000,
        sigma: 120_000,
        aggression: 100_000,
        mutation_rate: 2_000,
    };
    for dy in 0..3i64 {
        for dx in 0..3i64 {
            let idx = evolenia::grid::pixel_idx(6 + dx, 6 + dy, 16, 16);
            snap.stamp(idx, 1_000_000, 600_000, &g);
        }
    }
    let diag = SimDiagnostics::from_snapshot(&snap);
    assert_eq!(diag.genetic_entropy, 0);
    assert_eq!(diag.species_count, 1);
    assert_eq!(diag.live_pixels, 9);
    assert_eq!(diag.max_mass, 1_000_000);
}

#[test]
fn diagnostics_of_a_small_snapshot_are_exact() {
    let snap = BufferSnapshot {
        width: 2,
        height: 2,
        mass: vec![0, 20_000, 1_000_000, 5_000],
        energy: vec![0, 10_000, 600_000, 0],
        genome_a: vec![
            0, 0, 1, 0, // dead cell, genome irrelevant but width nonzero
            2_000_000, 200_000, 100_000, 800_000, // live, predator
            2_000_000, 200_000, 100_000, 0, // live, significant
            0, 0, 1, 0, // dead
        ],
        genome_b: vec![0, 5_000, 1_000, 0],
        resource: vec![1_000_000, 1_000_000, 1_000_000, 1_000_000],
    };
    let d = SimDiagnostics::from_snapshot(&snap);
    assert_eq!(d.total_mass, 1_025_000);
    assert_eq!(d.live_pixels, 2);
    assert_eq!(d.live_fraction, 500_000);
    assert_eq!(d.max_mass, 1_000_000);
    assert_eq!(d.avg_mass_live, 510_000);
    assert_eq!(d.avg_energy, 305_000);
    assert_eq!(d.min_energy_live, 10_000);
    assert_eq!(d.starving_fraction, 500_000);
    assert_eq!(d.avg_resource, 1_000_000);
    assert_eq!(d.min_resource, 1_000_000);
    assert_eq!(d.depleted_fraction, 0);
    assert_eq!(d.genetic_entropy, 0); // both live cells share one bin
    assert_eq!(d.species_count, 1); // only one cell is significant
    assert_eq!(d.mass_std_dev, 429_467);
    assert_eq!(d.genome_stats.avg_radius, 2_000_000);
    assert_eq!(d.genome_stats.avg_mu, 200_000);
    assert_eq!(d.genome_stats.avg_sigma, 100_000);
    assert_eq!(d.genome_stats.avg_aggressivity, 15_686);
    assert_eq!(d.genome_stats.avg_mutation_rate, 1_078);
    assert_eq!(d.genome_stats.predator_fraction, 19_607);
}

#[test]
fn genome_stats_are_zero_with_no_live_mass() {
    let ga = flat_genomes(3, 1, 2, 3, 4);
    let gb = vec![5u32; 3];
    let mass = vec![0u32, 10_000, 0];
    let st = compute_genome_stats(&ga, &gb, &mass);
    assert_eq!(st.avg_radius, 0);
    assert_eq!(st.avg_mutation_rate, 0);
    assert_eq!(st.predator_fraction, 0);
}

#[test]
fn depleted_and_starving_thresholds_are_strict() {
    let snap = BufferSnapshot {
        width: 2,
        height: 1,
        mass: vec![500_000, 500_000],
        energy: vec![10_000, 10_001],
        genome_a: flat_genomes(2, 2_000_000, 200_000, 100_000, 0),
        genome_b: vec![1_000, 1_000],
        resource: vec![99_999, 100_000],
    };
    let d = SimDiagnostics::from_snapshot(&snap);
    // Energy exactly at the bound starves; resource exactly at the bound
    // does not count as depleted.
    assert_eq!(d.starving_fraction, 500_000);
    assert_eq!(d.depleted_fraction, 500_000);
    assert_eq!(d.min_resource, 99_999);
}
