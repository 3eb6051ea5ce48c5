//! Runtime configuration: the adjustable simulation parameters, the
//! perturbation catalogue, visualization modes, and driver settings.
//! Fractional parameters are fixed-point values in millionths.

use vstd::prelude::*;

verus! {

/// Runtime simulation parameters. Every field feeds either a per-step
/// uniform block or engine state.
#[derive(Clone, Debug)]
pub struct SimulationParams {
    pub paused: bool,
    /// Steps issued per host tick.
    pub simulation_speed: u32,
    /// Time-step scale, in millionths.
    pub time_step: u32,
    pub vsync: bool,
    pub visualization_mode: u32,
    pub show_extended_ui: bool,
    /// Mutation-rate scale, in millionths.
    pub mutation_rate: u32,
    /// Predation scale, in millionths.
    pub predation_factor: u32,
    pub resource_diffusion: u32,
    pub resource_feed_rate: u32,
    pub resource_consumption: u32,
    pub mass_normalization_enabled: bool,
    /// Normalization damping, in millionths; below one whole unit the
    /// correction is gradual.
    pub mass_damping: u32,
    pub target_mass_multiplier: u32,
    pub radius_cost_exponent: u32,
    pub agg_mobility_tradeoff: u32,
    pub starvation_severity: u32,
    pub perturbation_type: PerturbationType,
    pub perturbation_intensity: u32,
    pub perturbation_radius: u32,
    pub perturbation_active: bool,
    pub perturbation_center_x: u32,
    pub perturbation_center_y: u32,
    pub num_seed_clusters: u32,
    pub seed_cluster_size: u32,
    pub initial_mass_fill: u32,
    pub seed: Option<u64>,
    pub use_fixed_seed: bool,
    pub fixed_seed_value: u64,
}

impl Default for SimulationParams {
    /// The defaults the engine starts with.
    fn default() -> (s: Self)
        ensures
            !s.paused,
            s.simulation_speed == 1,
            s.time_step == 1_000_000,
            !s.vsync,
            s.visualization_mode == 0,
            !s.show_extended_ui,
            s.mutation_rate == 1_000_000,
            s.predation_factor == 1_000_000,
            s.resource_diffusion == 80_000,
            s.resource_feed_rate == 10_000,
            s.resource_consumption == 80_000,
            s.mass_normalization_enabled,
            s.mass_damping == 300_000,
            s.target_mass_multiplier == 1_000_000,
            s.radius_cost_exponent == 1_500_000,
            s.agg_mobility_tradeoff == 300_000,
            s.starvation_severity == 50_000,
            s.perturbation_type == PerturbationType::Inactive,
            s.perturbation_intensity == 500_000,
            s.perturbation_radius == 150_000,
            !s.perturbation_active,
            s.perturbation_center_x == 500_000,
            s.perturbation_center_y == 500_000,
            s.num_seed_clusters == 30,
            s.seed_cluster_size == 1_000_000,
            s.initial_mass_fill == 150_000,
            s.seed == Option::<u64>::None,
            !s.use_fixed_seed,
            s.fixed_seed_value == 42,
    {
        SimulationParams {
            paused: false,
            simulation_speed: 1,
            time_step: 1_000_000,
            vsync: false,
            visualization_mode: 0,
            show_extended_ui: false,
            mutation_rate: 1_000_000,
            predation_factor: 1_000_000,
            resource_diffusion: 80_000,
            resource_feed_rate: 10_000,
            resource_consumption: 80_000,
            mass_normalization_enabled: true,
            mass_damping: 300_000,
            target_mass_multiplier: 1_000_000,
            radius_cost_exponent: 1_500_000,
            agg_mobility_tradeoff: 300_000,
            starvation_severity: 50_000,
            perturbation_type: PerturbationType::Inactive,
            perturbation_intensity: 500_000,
            perturbation_radius: 150_000,
            perturbation_active: false,
            perturbation_center_x: 500_000,
            perturbation_center_y: 500_000,
            num_seed_clusters: 30,
            seed_cluster_size: 1_000_000,
            initial_mass_fill: 150_000,
            seed: None,
            use_fixed_seed: false,
            fixed_seed_value: 42,
        }
    }
}

impl SimulationParams {
    /// The seed a restart uses: the fixed seed when one is pinned, else
    /// whatever seed is configured.
    pub fn effective_seed(&self) -> (r: Option<u64>)
        ensures
            r == if self.use_fixed_seed {
                Some(self.fixed_seed_value)
            } else {
                self.seed
            },
    {
        if self.use_fixed_seed {
            Some(self.fixed_seed_value)
        } else {
            self.seed
        }
    }
}

/// One-shot ecological perturbations applied between steps.
#[derive(Clone, Copy, Debug, PartialEq, Eq, Structural)]
pub enum PerturbationType {
    /// No perturbation pending.
    Inactive,
    /// Reduces resources in an area.
    Drought,
    /// Boosts resources in an area.
    NutrientPulse,
    /// Randomizes mass and energy in an area.
    MassStorm,
    /// Locally amplifies the mutation rate.
    MutationBurst,
}

impl PerturbationType {
    /// Every perturbation, in menu order.
    pub fn all() -> (v: Vec<PerturbationType>)
        ensures
            v@ == seq![
                PerturbationType::Inactive,
                PerturbationType::Drought,
                PerturbationType::NutrientPulse,
                PerturbationType::MassStorm,
                PerturbationType::MutationBurst,
            ],
    {
        let mut v: Vec<PerturbationType> = Vec::new();
        v.push(PerturbationType::Inactive);
        v.push(PerturbationType::Drought);
        v.push(PerturbationType::NutrientPulse);
        v.push(PerturbationType::MassStorm);
        v.push(PerturbationType::MutationBurst);
        proof {
            assert(v@ =~= seq![
                PerturbationType::Inactive,
                PerturbationType::Drought,
                PerturbationType::NutrientPulse,
                PerturbationType::MassStorm,
                PerturbationType::MutationBurst,
            ]);
        }
        v
    }

    /// Display name of the perturbation.
    pub fn name(&self) -> (s: &'static str)
        ensures
            match self {
                PerturbationType::Inactive => s@ == "None"@,
                PerturbationType::Drought => s@ == "Drought"@,
                PerturbationType::NutrientPulse => s@ == "Nutrient Pulse"@,
                PerturbationType::MassStorm => s@ == "Mass Storm"@,
                PerturbationType::MutationBurst => s@ == "Mutation Burst"@,
            },
    {
        match self {
            PerturbationType::Inactive => "None",
            PerturbationType::Drought => "Drought",
            PerturbationType::NutrientPulse => "Nutrient Pulse",
            PerturbationType::MassStorm => "Mass Storm",
            PerturbationType::MutationBurst => "Mutation Burst",
        }
    }
}

/// Total number of visualization modes.
pub const VIS_MODE_COUNT: u32 = 8;

/// Display name of a visualization mode index.
pub fn visualization_mode_name(mode: u32) -> (s: &'static str)
    ensures
        mode == 0 ==> s@ == "Species Color"@,
        mode == 1 ==> s@ == "Energy Heatmap"@,
        mode == 2 ==> s@ == "Mass Density"@,
        mode == 3 ==> s@ == "Genetic Diversity"@,
        mode == 4 ==> s@ == "Predator/Prey"@,
        mode == 5 ==> s@ == "Metabolic Stress"@,
        mode == 6 ==> s@ == "Advection Flux"@,
        mode == 7 ==> s@ == "Trophic Roles"@,
        mode >= VIS_MODE_COUNT ==> s@ == "Unknown"@,
{
    match mode {
        0 => "Species Color",
        1 => "Energy Heatmap",
        2 => "Mass Density",
        3 => "Genetic Diversity",
        4 => "Predator/Prey",
        5 => "Metabolic Stress",
        6 => "Advection Flux",
        7 => "Trophic Roles",
        _ => "Unknown",
    }
}

/// Settings of the interactive driver.
#[derive(Clone, Debug)]
pub struct AppConfig {
    /// Snapshot file to load at startup, if any.
    pub initial_state_path: Option<String>,
    /// Steps between diagnostics readbacks.
    pub diag_interval: u32,
}

impl Default for AppConfig {
    fn default() -> (c: Self)
        ensures
            c.initial_state_path == Option::<String>::None,
            c.diag_interval == 300,
    {
        AppConfig { initial_state_path: None, diag_interval: 300 }
    }
}

/// Settings of the headless batch driver.
#[derive(Clone, Debug)]
pub struct HeadlessConfig {
    pub frames: u32,
    pub load_state_path: Option<String>,
    pub save_state_path: Option<String>,
    pub progress_interval: u32,
}

impl Default for HeadlessConfig {
    fn default() -> (c: Self)
        ensures
            c.frames == 10_000,
            c.load_state_path == Option::<String>::None,
            c.save_state_path == Option::<String>::None,
            c.progress_interval == 5000,
    {
        HeadlessConfig {
            frames: 10_000,
            load_state_path: None,
            save_state_path: None,
            progress_interval: 5000,
        }
    }
}

} // verus!
