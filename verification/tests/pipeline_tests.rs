use evolenia::pipeline::{
    advance, normalize_total, readback_copy_list, render_source_index, simulation_pass_list,
    BufferRef, PassKind,
};
use evolenia::world::WorldState;

#[test]
fn one_step_issues_five_passes_in_order() {
    for cur in 0..2usize {
        let plan = simulation_pass_list(cur);
        assert_eq!(plan.len(), 5);
        assert_eq!(plan[0].kind, PassKind::Velocity);
        assert_eq!(plan[1].kind, PassKind::Evolution);
        assert_eq!(plan[2].kind, PassKind::Resources);
        assert_eq!(plan[3].kind, PassKind::SumMass);
        assert_eq!(plan[4].kind, PassKind::Normalize);
    }
}

#[test]
fn evolution_reads_current_and_writes_next() {
    let plan = simulation_pass_list(0);
    let evo = &plan[1];
    assert_eq!(evo.bindings.len(), 11);
    assert_eq!(evo.bindings[1].buffer, BufferRef::Mass(0));
    assert!(!evo.bindings[1].writable);
    assert_eq!(evo.bindings[5].buffer, BufferRef::ResourceMap);
    assert_eq!(evo.bindings[7].buffer, BufferRef::Mass(1));
    assert!(evo.bindings[7].writable);
    assert_eq!(evo.bindings[10].buffer, BufferRef::GenomeB(1));

    // The wiring is mirrored under the other parity.
    let plan1 = simulation_pass_list(1);
    assert_eq!(plan1[1].bindings[1].buffer, BufferRef::Mass(1));
    assert_eq!(plan1[1].bindings[7].buffer, BufferRef::Mass(0));
}

#[test]
fn no_pass_writes_a_current_generation_buffer() {
    for cur in 0..2usize {
        let plan = simulation_pass_list(cur);
        for pass in &plan {
            for b in &pass.bindings {
                if b.writable {
                    let touches_current = match b.buffer {
                        BufferRef::Mass(i)
                        | BufferRef::Energy(i)
                        | BufferRef::GenomeA(i)
                        | BufferRef::GenomeB(i) => i == cur,
                        _ => false,
                    };
                    assert!(!touches_current, "pass writes the readable generation");
                }
            }
        }
    }
}

#[test]
fn workgroup_counts_cover_the_grid() {
    let plan = simulation_pass_list(0);
    assert_eq!(plan[0].workgroups, (32, 32, 1)); // 512 / 16
    assert_eq!(plan[3].workgroups, (1024, 1, 1)); // 512 * 512 / 256
}

#[test]
fn resources_and_normalization_follow_the_fresh_mass() {
    let plan = simulation_pass_list(0);
    assert_eq!(plan[2].bindings[1].buffer, BufferRef::Mass(1));
    assert_eq!(plan[3].bindings[1].buffer, BufferRef::Mass(1));
    assert_eq!(plan[4].bindings[2].buffer, BufferRef::MassSum);
}

#[test]
fn advance_plans_against_the_old_parity_then_swaps() {
    let mut ws = WorldState::new();
    let plan = advance(&mut ws);
    assert_eq!(plan[1].bindings[1].buffer, BufferRef::Mass(0));
    assert_eq!(ws.cur(), 1);
    assert_eq!(ws.frame, 1);
    let plan2 = advance(&mut ws);
    assert_eq!(plan2[1].bindings[1].buffer, BufferRef::Mass(1));
    assert_eq!(ws.cur(), 0);
}

#[test]
fn render_and_readback_pick_the_right_generation() {
    assert_eq!(render_source_index(0), 1);
    assert_eq!(render_source_index(1), 0);
    let l = readback_copy_list(1);
    assert_eq!(
        l,
        vec![
            BufferRef::Mass(1),
            BufferRef::Energy(1),
            BufferRef::GenomeA(1),
            BufferRef::GenomeB(1),
            BufferRef::ResourceMap,
        ]
    );
}

#[test]
fn normalization_converges_monotonically_without_overshoot() {
    let target: u64 = 39_321_600_000;
    let damping: u32 = 300_000;

    // From below: the total climbs, never passes the target.
    let mut t: u64 = 1_000_000;
    let mut prev = t;
    for _ in 0..100 {
        t = normalize_total(t, target, damping);
        assert!(t >= prev, "no oscillation from below");
        assert!(t <= target, "no overshoot from below");
        prev = t;
    }
    assert!(target - t <= 100, "converged within tolerance, gap {}", target - t);

    // From above: the total falls, never passes the target.
    let mut t2: u64 = 4 * target;
    let mut prev2 = t2;
    for _ in 0..100 {
        t2 = normalize_total(t2, target, damping);
        assert!(t2 <= prev2, "no oscillation from above");
        assert!(t2 >= target, "no overshoot from above");
        prev2 = t2;
    }
    assert!(t2 - target <= 100, "converged within tolerance, gap {}", t2 - target);

    // At the target the correction is a fixed point.
    assert_eq!(normalize_total(target, target, damping), target);
}

#[test]
fn zero_damping_leaves_the_total_alone() {
    assert_eq!(normalize_total(123_456, 999_999_999, 0), 123_456);
}
