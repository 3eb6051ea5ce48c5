use evolenia::config::{
    visualization_mode_name, AppConfig, HeadlessConfig, PerturbationType, SimulationParams,
    VIS_MODE_COUNT,
};
use evolenia::world::WorldState;

#[test]
fn default_parameters_match_the_engine_defaults() {
    let p = SimulationParams::default();
    assert!(!p.paused);
    assert_eq!(p.simulation_speed, 1);
    assert_eq!(p.time_step, 1_000_000);
    assert_eq!(p.mutation_rate, 1_000_000);
    assert_eq!(p.resource_diffusion, 80_000);
    assert_eq!(p.resource_feed_rate, 10_000);
    assert_eq!(p.resource_consumption, 80_000);
    assert!(p.mass_normalization_enabled);
    assert_eq!(p.mass_damping, 300_000);
    assert_eq!(p.target_mass_multiplier, 1_000_000);
    assert_eq!(p.perturbation_type, PerturbationType::Inactive);
    assert_eq!(p.num_seed_clusters, 30);
    assert_eq!(p.initial_mass_fill, 150_000);
    assert_eq!(p.seed, None);
    assert!(!p.use_fixed_seed);
    assert_eq!(p.fixed_seed_value, 42);
}

#[test]
fn effective_seed_prefers_the_pinned_seed() {
    let mut p = SimulationParams::default();
    assert_eq!(p.effective_seed(), None);
    p.seed = Some(7);
    assert_eq!(p.effective_seed(), Some(7));
    p.use_fixed_seed = true;
    assert_eq!(p.effective_seed(), Some(42));
}

#[test]
fn perturbation_catalogue_and_names() {
    let all = PerturbationType::all();
    assert_eq!(all.len(), 5);
    assert_eq!(all[0], PerturbationType::Inactive);
    assert_eq!(all[0].name(), "None");
    assert_eq!(all[1].name(), "Drought");
    assert_eq!(all[2].name(), "Nutrient Pulse");
    assert_eq!(all[3].name(), "Mass Storm");
    assert_eq!(all[4].name(), "Mutation Burst");
}

#[test]
fn visualization_modes_are_named() {
    assert_eq!(visualization_mode_name(0), "Species Color");
    assert_eq!(visualization_mode_name(2), "Mass Density");
    assert_eq!(visualization_mode_name(7), "Trophic Roles");
    assert_eq!(visualization_mode_name(VIS_MODE_COUNT), "Unknown");
    assert_eq!(visualization_mode_name(999), "Unknown");
}

#[test]
fn driver_defaults() {
    let a = AppConfig::default();
    assert_eq!(a.initial_state_path, None);
    assert_eq!(a.diag_interval, 300);
    let h = HeadlessConfig::default();
    assert_eq!(h.frames, 10_000);
    assert_eq!(h.load_state_path, None);
    assert_eq!(h.save_state_path, None);
    assert_eq!(h.progress_interval, 5000);
}

#[test]
fn the_accumulator_is_zeroed_before_each_reduction() {
    let ws = WorldState::new();
    assert_eq!(ws.mass_sum_reset(), (0, 0));
}
