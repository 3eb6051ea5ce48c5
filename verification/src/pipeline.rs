//! The step pipeline: the five ordered compute dispatches that advance one
//! simulation step, with the exact buffer each pass binds under either
//! generation parity, and the mass-conservation feedback rule. A driver
//! executes the returned plan against a device verbatim; everything the
//! plan decides is fixed here.

use vstd::prelude::*;

verus! {

use crate::{WORLD_WIDTH, WORLD_HEIGHT, WORKGROUP_X, WORKGROUP_Y, FIX_ONE};
use crate::world::WorldState;
use crate::fixed::lemma_scale_le_one;

/// The compute passes of one step, in dispatch order.
#[derive(Clone, Copy, Debug, PartialEq, Eq, Structural)]
pub enum PassKind {
    Velocity,
    Evolution,
    Resources,
    SumMass,
    Normalize,
}

/// A simulation buffer as a pass binds it; double-buffered fields carry
/// the physical index (0 or 1) bound for this step.
#[derive(Clone, Copy, Debug, PartialEq, Eq, Structural)]
pub enum BufferRef {
    Mass(usize),
    Energy(usize),
    GenomeA(usize),
    GenomeB(usize),
    ResourceMap,
    VelocityField,
    MassSum,
    Uniforms,
}

/// One bind-slot entry of a pass.
#[derive(Clone, Copy, Debug, PartialEq, Eq, Structural)]
pub struct Binding {
    pub slot: u32,
    pub buffer: BufferRef,
    pub writable: bool,
}

/// One compute dispatch: which pass, what it binds, how many workgroups.
pub struct PassDispatch {
    pub kind: PassKind,
    pub bindings: Vec<Binding>,
    pub workgroups: (u32, u32, u32),
}

/// Whether a buffer reference names a double-buffered field of
/// generation `g`.
pub open spec fn refers_to_generation(b: BufferRef, g: int) -> bool {
    match b {
        BufferRef::Mass(i) => i == g,
        BufferRef::Energy(i) => i == g,
        BufferRef::GenomeA(i) => i == g,
        BufferRef::GenomeB(i) => i == g,
        _ => false,
    }
}

pub open spec fn ro(slot: u32, buffer: BufferRef) -> Binding {
    Binding { slot, buffer, writable: false }
}

pub open spec fn rw(slot: u32, buffer: BufferRef) -> Binding {
    Binding { slot, buffer, writable: true }
}

/// Velocity pass: reads current mass and genome, writes the single
/// velocity field.
pub open spec fn velocity_bindings(cur: int) -> Seq<Binding> {
    seq![
        ro(0, BufferRef::Uniforms),
        ro(1, BufferRef::Mass(cur as usize)),
        ro(2, BufferRef::GenomeA(cur as usize)),
        rw(3, BufferRef::VelocityField),
    ]
}

/// Evolution pass: reads every current field plus resource and velocity,
/// writes every next-generation field.
pub open spec fn evolution_bindings(cur: int, nxt: int) -> Seq<Binding> {
    seq![
        ro(0, BufferRef::Uniforms),
        ro(1, BufferRef::Mass(cur as usize)),
        ro(2, BufferRef::Energy(cur as usize)),
        ro(3, BufferRef::GenomeA(cur as usize)),
        ro(4, BufferRef::GenomeB(cur as usize)),
        ro(5, BufferRef::ResourceMap),
        ro(6, BufferRef::VelocityField),
        rw(7, BufferRef::Mass(nxt as usize)),
        rw(8, BufferRef::Energy(nxt as usize)),
        rw(9, BufferRef::GenomeA(nxt as usize)),
        rw(10, BufferRef::GenomeB(nxt as usize)),
    ]
}

/// Resource pass: reads the next-generation mass (post-consumption),
/// rewrites the resource field in place.
pub open spec fn resources_bindings(nxt: int) -> Seq<Binding> {
    seq![
        ro(0, BufferRef::Uniforms),
        ro(1, BufferRef::Mass(nxt as usize)),
        rw(2, BufferRef::ResourceMap),
    ]
}

/// Mass-conservation passes: the reduction and the rescale both bind the
/// next-generation mass and the atomic accumulator.
pub open spec fn normalize_bindings(nxt: int) -> Seq<Binding> {
    seq![
        ro(0, BufferRef::Uniforms),
        rw(1, BufferRef::Mass(nxt as usize)),
        rw(2, BufferRef::MassSum),
    ]
}

/// Everything a correct one-step plan must say, for current parity `cur`:
/// five passes in fixed order, the exact bindings of each, and per-cell
/// versus linear workgroup counts.
pub open spec fn plan_ok(plan: Seq<PassDispatch>, cur: int) -> bool {
    let nxt = 1 - cur;
    let gx = (WORLD_WIDTH + WORKGROUP_X - 1) / (WORKGROUP_X as int);
    let gy = (WORLD_HEIGHT + WORKGROUP_Y - 1) / (WORKGROUP_Y as int);
    let lin = (WORLD_WIDTH * WORLD_HEIGHT + 255) / 256;
    &&& plan.len() == 5
    &&& plan[0].kind == PassKind::Velocity
    &&& plan[1].kind == PassKind::Evolution
    &&& plan[2].kind == PassKind::Resources
    &&& plan[3].kind == PassKind::SumMass
    &&& plan[4].kind == PassKind::Normalize
    &&& plan[0].bindings@ == velocity_bindings(cur)
    &&& plan[1].bindings@ == evolution_bindings(cur, nxt)
    &&& plan[2].bindings@ == resources_bindings(nxt)
    &&& plan[3].bindings@ == normalize_bindings(nxt)
    &&& plan[4].bindings@ == normalize_bindings(nxt)
    &&& plan[0].workgroups.0 == gx && plan[0].workgroups.1 == gy && plan[0].workgroups.2 == 1
    &&& plan[1].workgroups.0 == gx && plan[1].workgroups.1 == gy && plan[1].workgroups.2 == 1
    &&& plan[2].workgroups.0 == gx && plan[2].workgroups.1 == gy && plan[2].workgroups.2 == 1
    &&& plan[3].workgroups.0 == lin && plan[3].workgroups.1 == 1 && plan[3].workgroups.2 == 1
    &&& plan[4].workgroups.0 == lin && plan[4].workgroups.1 == 1 && plan[4].workgroups.2 == 1
}

/// Buffer-aliasing discipline: no pass of a correct plan ever writes a
/// current-generation buffer, so the readable generation stays stable for
/// the whole step.
pub proof fn lemma_plan_preserves_current(plan: Seq<PassDispatch>, cur: int)
    requires
        plan_ok(plan, cur),
        cur == 0 || cur == 1,
    ensures
        forall|p: int, b: int|
            0 <= p < plan.len() && 0 <= b < plan[p].bindings@.len() ==> ((#[trigger] plan[p].bindings@[b]).writable
                ==> !refers_to_generation(plan[p].bindings@[b].buffer, cur)),
{
    assert forall|p: int, b: int|
        0 <= p < plan.len() && 0 <= b < plan[p].bindings@.len() implies ((#[trigger] plan[p].bindings@[b]).writable
        ==> !refers_to_generation(plan[p].bindings@[b].buffer, cur)) by {
        if p == 0 {
            assert(plan[p].bindings@ == velocity_bindings(cur));
        } else if p == 1 {
            assert(plan[p].bindings@ == evolution_bindings(cur, 1 - cur));
        } else if p == 2 {
            assert(plan[p].bindings@ == resources_bindings(1 - cur));
        } else {
            assert(plan[p].bindings@ == normalize_bindings(1 - cur));
        }
    }
}

fn grid_pass(kind: PassKind, bindings: Vec<Binding>) -> (p: PassDispatch)
    ensures
        p.kind == kind,
        p.bindings == bindings,
        p.workgroups.0 == (WORLD_WIDTH + WORKGROUP_X - 1) / (WORKGROUP_X as int),
        p.workgroups.1 == (WORLD_HEIGHT + WORKGROUP_Y - 1) / (WORKGROUP_Y as int),
        p.workgroups.2 == 1,
{
    PassDispatch {
        kind,
        bindings,
        workgroups: (
            (WORLD_WIDTH + WORKGROUP_X - 1) / WORKGROUP_X,
            (WORLD_HEIGHT + WORKGROUP_Y - 1) / WORKGROUP_Y,
            1,
        ),
    }
}

fn linear_pass(kind: PassKind, bindings: Vec<Binding>) -> (p: PassDispatch)
    ensures
        p.kind == kind,
        p.bindings == bindings,
        p.workgroups.0 == (WORLD_WIDTH * WORLD_HEIGHT + 255) / 256,
        p.workgroups.1 == 1,
        p.workgroups.2 == 1,
{
    PassDispatch { kind, bindings, workgroups: ((WORLD_WIDTH * WORLD_HEIGHT + 255) / 256, 1, 1) }
}

/// Build the ordered dispatch plan of one simulation step against the
/// current generation `cur`: velocity, evolution, resources, then the two
/// mass-conservation sub-passes, wired exactly as [`plan_ok`] demands.
pub fn simulation_pass_list(cur: usize) -> (plan: Vec<PassDispatch>)
    requires
        cur <= 1,
    ensures
        plan_ok(plan@, cur as int),
{
    let nxt: usize = 1 - cur;
    let mut velocity: Vec<Binding> = Vec::new();
    velocity.push(Binding { slot: 0, buffer: BufferRef::Uniforms, writable: false });
    velocity.push(Binding { slot: 1, buffer: BufferRef::Mass(cur), writable: false });
    velocity.push(Binding { slot: 2, buffer: BufferRef::GenomeA(cur), writable: false });
    velocity.push(Binding { slot: 3, buffer: BufferRef::VelocityField, writable: true });
    proof {
        assert(velocity@ =~= velocity_bindings(cur as int));
    }

    let mut evolution: Vec<Binding> = Vec::new();
    evolution.push(Binding { slot: 0, buffer: BufferRef::Uniforms, writable: false });
    evolution.push(Binding { slot: 1, buffer: BufferRef::Mass(cur), writable: false });
    evolution.push(Binding { slot: 2, buffer: BufferRef::Energy(cur), writable: false });
    evolution.push(Binding { slot: 3, buffer: BufferRef::GenomeA(cur), writable: false });
    evolution.push(Binding { slot: 4, buffer: BufferRef::GenomeB(cur), writable: false });
    evolution.push(Binding { slot: 5, buffer: BufferRef::ResourceMap, writable: false });
    evolution.push(Binding { slot: 6, buffer: BufferRef::VelocityField, writable: false });
    evolution.push(Binding { slot: 7, buffer: BufferRef::Mass(nxt), writable: true });
    evolution.push(Binding { slot: 8, buffer: BufferRef::Energy(nxt), writable: true });
    evolution.push(Binding { slot: 9, buffer: BufferRef::GenomeA(nxt), writable: true });
    evolution.push(Binding { slot: 10, buffer: BufferRef::GenomeB(nxt), writable: true });
    proof {
        assert(evolution@ =~= evolution_bindings(cur as int, 1 - cur as int));
    }

    let mut resources: Vec<Binding> = Vec::new();
    resources.push(Binding { slot: 0, buffer: BufferRef::Uniforms, writable: false });
    resources.push(Binding { slot: 1, buffer: BufferRef::Mass(nxt), writable: false });
    resources.push(Binding { slot: 2, buffer: BufferRef::ResourceMap, writable: true });
    proof {
        assert(resources@ =~= resources_bindings(1 - cur as int));
    }

    let mut summass: Vec<Binding> = Vec::new();
    summass.push(Binding { slot: 0, buffer: BufferRef::Uniforms, writable: false });
    summass.push(Binding { slot: 1, buffer: BufferRef::Mass(nxt), writable: true });
    summass.push(Binding { slot: 2, buffer: BufferRef::MassSum, writable: true });
    let mut norm: Vec<Binding> = Vec::new();
    norm.push(Binding { slot: 0, buffer: BufferRef::Uniforms, writable: false });
    norm.push(Binding { slot: 1, buffer: BufferRef::Mass(nxt), writable: true });
    norm.push(Binding { slot: 2, buffer: BufferRef::MassSum, writable: true });
    proof {
        assert(summass@ =~= normalize_bindings(1 - cur as int));
        assert(norm@ =~= normalize_bindings(1 - cur as int));
    }

    let mut plan: Vec<PassDispatch> = Vec::new();
    plan.push(grid_pass(PassKind::Velocity, velocity));
    plan.push(grid_pass(PassKind::Evolution, evolution));
    plan.push(grid_pass(PassKind::Resources, resources));
    plan.push(linear_pass(PassKind::SumMass, summass));
    plan.push(linear_pass(PassKind::Normalize, norm));
    plan
}

/// The generation a presentation pass must read between the dispatches
/// and the swap: the freshly written one.
pub fn render_source_index(cur: usize) -> (r: usize)
    requires
        cur <= 1,
    ensures
        r == 1 - cur,
{
    1 - cur
}

/// The copies a diagnostics readback issues: each double-buffered field's
/// current generation, plus the single resource field — never the
/// generation a step in flight may be writing.
pub fn readback_copy_list(cur: usize) -> (l: Vec<BufferRef>)
    requires
        cur <= 1,
    ensures
        l@ == seq![
            BufferRef::Mass(cur),
            BufferRef::Energy(cur),
            BufferRef::GenomeA(cur),
            BufferRef::GenomeB(cur),
            BufferRef::ResourceMap,
        ],
        forall|i: int|
            0 <= i < l@.len() ==> !refers_to_generation(#[trigger] l@[i], 1 - cur as int),
{
    let mut l: Vec<BufferRef> = Vec::new();
    l.push(BufferRef::Mass(cur));
    l.push(BufferRef::Energy(cur));
    l.push(BufferRef::GenomeA(cur));
    l.push(BufferRef::GenomeB(cur));
    l.push(BufferRef::ResourceMap);
    proof {
        assert(l@ =~= seq![
            BufferRef::Mass(cur),
            BufferRef::Energy(cur),
            BufferRef::GenomeA(cur),
            BufferRef::GenomeB(cur),
            BufferRef::ResourceMap,
        ]);
    }
    l
}

/// Plan one step against the store's current generation and flip the
/// parity, counting the step: the returned plan is for the generation
/// that was current when the call was made.
pub fn advance(ws: &mut WorldState) -> (plan: Vec<PassDispatch>)
    requires
        old(ws).wf(),
        old(ws).frame < u32::MAX,
    ensures
        final(ws).wf(),
        final(ws).current == 1 - old(ws).current,
        final(ws).frame == old(ws).frame + 1,
        plan_ok(plan@, old(ws).current as int),
{
    let cur = ws.cur();
    let plan = simulation_pass_list(cur);
    ws.swap();
    plan
}

// ======================== Mass-conservation feedback ========================

/// One application of the normalization feedback: nudge the total mass
/// toward the target by the damped fraction of the gap.
pub open spec fn normalize_once(total: int, target: int, damping: int) -> int {
    if total <= target {
        total + (target - total) * damping / (FIX_ONE as int)
    } else {
        total - (total - target) * damping / (FIX_ONE as int)
    }
}

/// The total mass after `k` applications of the normalization feedback.
pub open spec fn normalize_iter(total: int, target: int, damping: int, k: nat) -> int
    decreases k,
{
    if k == 0 {
        total
    } else {
        normalize_once(normalize_iter(total, target, damping, (k - 1) as nat), target, damping)
    }
}

/// One feedback application stays on the same side of the target and
/// moves toward it.
proof fn lemma_normalize_once_bracket(total: int, target: int, damping: int)
    requires
        0 <= total,
        0 <= target,
        0 <= damping <= FIX_ONE,
    ensures
        total <= target ==> total <= normalize_once(total, target, damping) <= target,
        total >= target ==> target <= normalize_once(total, target, damping) <= total,
{
    if total <= target {
        lemma_scale_le_one(target - total, damping, FIX_ONE as int);
        vstd::arithmetic::div_mod::lemma_div_pos_is_pos((target - total) * damping, FIX_ONE as int);
        assert((target - total) * damping >= 0) by (nonlinear_arith)
            requires
                target - total >= 0,
                damping >= 0,
        ;
    }
    if total >= target {
        lemma_scale_le_one(total - target, damping, FIX_ONE as int);
        vstd::arithmetic::div_mod::lemma_div_pos_is_pos((total - target) * damping, FIX_ONE as int);
        assert((total - target) * damping >= 0) by (nonlinear_arith)
            requires
                total - target >= 0,
                damping >= 0,
        ;
    }
}

/// Mass-conservation law over whole runs: from any starting total, every
/// number of feedback steps stays bracketed between the start and the
/// target, and each further step moves monotonically toward the target —
/// no overshoot and no oscillation growth.
pub proof fn lemma_normalization_converges(total: int, target: int, damping: int, k: nat)
    requires
        0 <= total,
        0 <= target,
        0 <= damping <= FIX_ONE,
    ensures
        total <= target ==> total <= normalize_iter(total, target, damping, k) <= target,
        total >= target ==> target <= normalize_iter(total, target, damping, k) <= total,
        total <= target ==> normalize_iter(total, target, damping, k) <= normalize_iter(
            total,
            target,
            damping,
            k + 1,
        ),
        total >= target ==> normalize_iter(total, target, damping, k) >= normalize_iter(
            total,
            target,
            damping,
            k + 1,
        ),
    decreases k,
{
    if k == 0 {
        lemma_normalize_once_bracket(total, target, damping);
    } else {
        lemma_normalization_converges(total, target, damping, (k - 1) as nat);
        lemma_normalize_once_bracket(
            normalize_iter(total, target, damping, (k - 1) as nat),
            target,
            damping,
        );
        lemma_normalize_once_bracket(normalize_iter(total, target, damping, k), target, damping);
    }
}

/// Apply the mass-normalization feedback once: rescale the step's total
/// mass toward `target`, damped so the correction is gradual.
///
/// The contract is the mass-conservation law: the correction never
/// overshoots the target, moves monotonically toward it, and with damping
/// below one contracts the gap geometrically (up to one unit of rounding).
pub fn normalize_total(total: u64, target: u64, damping: u32) -> (r: u64)
    requires
        damping <= FIX_ONE,
    ensures
        r == normalize_once(total as int, target as int, damping as int),
        total <= target ==> total <= r <= target,
        total >= target ==> target <= r <= total,
        total <= target ==> target - r <= (target - total) * (FIX_ONE - damping) / (
        FIX_ONE as int) + 1,
        total >= target ==> r - target <= (total - target) * (FIX_ONE - damping) / (
        FIX_ONE as int) + 1,
{
    if total <= target {
        let gap: u64 = target - total;
        proof {
            lemma_scale_le_one(gap as int, damping as int, FIX_ONE as int);
            lemma_normalize_contract(gap as int, damping as int);
        }
        let delta: u64 = ((gap as u128) * (damping as u128) / (FIX_ONE as u128)) as u64;
        total + delta
    } else {
        let gap: u64 = total - target;
        proof {
            lemma_scale_le_one(gap as int, damping as int, FIX_ONE as int);
            lemma_normalize_contract(gap as int, damping as int);
        }
        let delta: u64 = ((gap as u128) * (damping as u128) / (FIX_ONE as u128)) as u64;
        total - delta
    }
}

/// The damped correction contracts the gap: what remains after one
/// application is at most the undamped share of the gap, plus one unit
/// of rounding.
proof fn lemma_normalize_contract(gap: int, damping: int)
    requires
        0 <= gap,
        0 <= damping <= FIX_ONE,
    ensures
        gap - gap * damping / (FIX_ONE as int) <= gap * (FIX_ONE - damping) / (FIX_ONE as int)
            + 1,
{
    let f = FIX_ONE as int;
    let q = gap * damping / f;
    vstd::arithmetic::div_mod::lemma_fundamental_div_mod(gap * damping, f);
    vstd::arithmetic::div_mod::lemma_mod_bound(gap * damping, f);
    let rr = gap * damping % f;
    assert(gap * (f - damping) == f * (gap - q) - rr) by (nonlinear_arith)
        requires
            gap * damping == f * q + rr,
    ;
    if rr == 0 {
        vstd::arithmetic::div_mod::lemma_fundamental_div_mod_converse_div(
            gap * (f - damping),
            f,
            gap - q,
            0,
        );
    } else {
        assert(gap * (f - damping) == f * (gap - q - 1) + (f - rr)) by (nonlinear_arith)
            requires
                gap * (f - damping) == f * (gap - q) - rr,
        ;
        vstd::arithmetic::div_mod::lemma_fundamental_div_mod_converse_div(
            gap * (f - damping),
            f,
            gap - q - 1,
            f - rr,
        );
    }
}

} // verus!
