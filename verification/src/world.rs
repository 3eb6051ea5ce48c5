//! The field store: host-side per-cell arrays, the double-buffer generation
//! parity, and the per-step uniform parameter blocks.

use vstd::prelude::*;

verus! {

use crate::{WORLD_WIDTH, WORLD_HEIGHT, FIX_ONE, DT, TARGET_FILL};

/// Hard cap on the number of cells of one grid, so that every whole-field
/// sum in the engine fits the integer widths used for it.
pub const MAX_CELLS: u32 = 0x100_0000;

/// Lowest resource level a generated landscape may carry (0.05).
pub const RESOURCE_FLOOR: u32 = 50_000;

/// Host-side snapshot of all per-cell simulation fields of one generation.
///
/// Each cell value is one 32-bit word; inside the engine the words are
/// fixed-point quantities in [`FIX_ONE`] millionths. `genome_a` stores four
/// words per cell: kernel radius, growth center, growth width, aggressivity.
#[derive(Debug, Clone, PartialEq)]
pub struct BufferSnapshot {
    pub width: u32,
    pub height: u32,
    pub mass: Vec<u32>,
    pub energy: Vec<u32>,
    pub genome_a: Vec<u32>,
    pub genome_b: Vec<u32>,
    pub resource: Vec<u32>,
}

impl BufferSnapshot {
    /// Number of cells of the grid.
    pub open spec fn cells(self) -> int {
        self.width * self.height
    }

    /// Shape discipline: both dimensions are positive, the cell count is
    /// within the engine cap, and every array covers the grid exactly
    /// (four words per cell for `genome_a`).
    pub open spec fn wf(self) -> bool {
        &&& 1 <= self.width
        &&& 1 <= self.height
        &&& self.cells() <= MAX_CELLS
        &&& self.mass.len() == self.cells()
        &&& self.energy.len() == self.cells()
        &&& self.genome_a.len() == 4 * self.cells()
        &&& self.genome_b.len() == self.cells()
        &&& self.resource.len() == self.cells()
    }

    /// The growth-width trait of cell `i`. Downstream growth evaluation
    /// divides by its square, so it must never be zero on any cell.
    pub open spec fn sigma(self, i: int) -> u32 {
        self.genome_a[4 * i + 2]
    }

    /// Value discipline of one cell of a generated world: mass is clamped
    /// to one unit, energy sits in the band the seed patterns write,
    /// the resource stays between its floor and one unit, and every genome
    /// trait lies in the range the generator draws it from (defaults
    /// included) — in particular the growth width is never zero.
    pub open spec fn cell_ok(self, i: int) -> bool {
        &&& self.mass[i] <= FIX_ONE
        &&& 400_000 <= self.energy[i] <= 800_000
        &&& RESOURCE_FLOOR <= self.resource[i] <= FIX_ONE
        &&& 3_000_000 <= self.genome_a[4 * i] < 9_000_000
        &&& 120_000 <= self.genome_a[4 * i + 1] <= 500_000
        &&& 40_000 <= self.sigma(i) < 180_000
        &&& self.genome_a[4 * i + 3] < 1_000_000
        &&& 500 <= self.genome_b[i] <= 10_000
    }

    /// Value discipline of a world the generator hands out: every cell
    /// satisfies [`Self::cell_ok`].
    pub open spec fn seeded_wf(self) -> bool {
        &&& self.wf()
        &&& forall|i: int| 0 <= i < self.cells() ==> #[trigger] self.cell_ok(i)
    }
}

/// Generation parity and step counter of the double-buffered field store.
///
/// The parity bit is the single source of truth for which physical buffer
/// of each double-buffered field is "current" (stable, readable) and which
/// is "next" (written by the step in flight).
pub struct WorldState {
    pub current: usize,
    pub frame: u32,
}

/// Which parity is current after `k` steps from parity `c`.
pub open spec fn parity_after(c: int, k: nat) -> int
    decreases k,
{
    if k == 0 {
        c
    } else {
        1 - parity_after(c, (k - 1) as nat)
    }
}

impl WorldState {
    /// The parity bit is a bit.
    pub open spec fn wf(self) -> bool {
        self.current <= 1
    }

    /// A fresh store: generation 0 is current and holds the generator's
    /// output; no step has run.
    pub fn new() -> (ws: WorldState)
        ensures
            ws.wf(),
            ws.current == 0,
            ws.frame == 0,
    {
        WorldState { current: 0, frame: 0 }
    }

    /// Index of the current (readable) buffer of each double-buffered pair.
    pub fn cur(&self) -> (c: usize)
        ensures
            c == self.current,
    {
        self.current
    }

    /// Index of the next (written) buffer of each double-buffered pair.
    pub fn next(&self) -> (n: usize)
        requires
            self.wf(),
        ensures
            n == 1 - self.current,
    {
        1 - self.current
    }

    /// Flip the generation parity after a step and count the step. The new
    /// current buffer is exactly the buffer that was "next" before.
    pub fn swap(&mut self)
        requires
            old(self).wf(),
            old(self).frame < u32::MAX,
        ensures
            final(self).wf(),
            final(self).current == 1 - old(self).current,
            final(self).frame == old(self).frame + 1,
    {
        self.current = 1 - self.current;
        self.frame = self.frame + 1;
    }
}

/// Generation-parity law: each swap makes the prior "next" buffer current,
/// and an even number of swaps returns the parity to its starting value.
pub proof fn lemma_generation_parity(c: int, k: nat)
    requires
        0 <= c <= 1,
    ensures
        parity_after(c, k + 1) == 1 - parity_after(c, k),
        k % 2 == 0 ==> parity_after(c, k) == c,
        k % 2 == 1 ==> parity_after(c, k) == 1 - c,
    decreases k,
{
    if k > 0 {
        lemma_generation_parity(c, (k - 1) as nat);
    }
}

// ======================== Uniform parameter blocks ========================

/// Per-step parameters of the evolution pass.
pub struct SimParams {
    pub width: u32,
    pub height: u32,
    pub frame: u32,
    /// Time step in millionths.
    pub dt: u32,
}

/// Per-step parameters of the velocity pass.
pub struct VelocityParams {
    pub width: u32,
    pub height: u32,
    pub frame: u32,
    pub _pad: u32,
}

/// Per-step parameters of the resource pass.
pub struct ResourceParams {
    pub width: u32,
    pub height: u32,
    pub frame: u32,
    pub _pad: u32,
}

/// Parameters of the mass-conservation passes.
pub struct NormalizeParams {
    pub width: u32,
    pub height: u32,
    /// Target total mass in thousandths of a cell unit.
    pub target_mass_x1000: u32,
    pub _pad: u32,
}

/// Parameters of the presentation pass.
pub struct RenderParams {
    pub width: u32,
    pub height: u32,
    pub visualization_mode: u32,
    pub _pad: u32,
}

/// Total mass the normalization feedback steers toward, in fixed-point
/// units: the default fill fraction over the whole default grid.
pub fn target_total_mass() -> (t: u64)
    ensures
        t == WORLD_WIDTH * WORLD_HEIGHT * TARGET_FILL,
{
    (WORLD_WIDTH as u64) * (WORLD_HEIGHT as u64) * (TARGET_FILL as u64)
}

impl WorldState {
    /// The uniform blocks a step issued now must carry: every block names
    /// the grid and the step that is about to run.
    pub fn step_uniforms(&self) -> (u: (SimParams, VelocityParams, ResourceParams))
        ensures
            u.0 == (SimParams {
                width: WORLD_WIDTH,
                height: WORLD_HEIGHT,
                frame: self.frame,
                dt: DT,
            }),
            u.1 == (VelocityParams {
                width: WORLD_WIDTH,
                height: WORLD_HEIGHT,
                frame: self.frame,
                _pad: 0,
            }),
            u.2 == (ResourceParams {
                width: WORLD_WIDTH,
                height: WORLD_HEIGHT,
                frame: self.frame,
                _pad: 0,
            }),
    {
        (
            SimParams { width: WORLD_WIDTH, height: WORLD_HEIGHT, frame: self.frame, dt: DT },
            VelocityParams { width: WORLD_WIDTH, height: WORLD_HEIGHT, frame: self.frame, _pad: 0 },
            ResourceParams { width: WORLD_WIDTH, height: WORLD_HEIGHT, frame: self.frame, _pad: 0 },
        )
    }

    /// Presentation parameters for the default grid under the chosen
    /// visualization mode.
    pub fn render_uniforms(&self, visualization_mode: u32) -> (p: RenderParams)
        ensures
            p.width == WORLD_WIDTH,
            p.height == WORLD_HEIGHT,
            p.visualization_mode == visualization_mode,
    {
        RenderParams {
            width: WORLD_WIDTH,
            height: WORLD_HEIGHT,
            visualization_mode,
            _pad: 0,
        }
    }

    /// The two accumulator words the host writes over the mass-sum buffer
    /// before each step's reduction dispatch: both zero. The accumulator
    /// is valid only after that same step's reduction completes.
    pub fn mass_sum_reset(&self) -> (r: (u32, u32))
        ensures
            r.0 == 0,
            r.1 == 0,
    {
        (0, 0)
    }

    /// Normalization parameters for the default grid and target.
    pub fn normalize_uniforms(&self) -> (p: NormalizeParams)
        ensures
            p.width == WORLD_WIDTH,
            p.height == WORLD_HEIGHT,
            p.target_mass_x1000 == WORLD_WIDTH * WORLD_HEIGHT * TARGET_FILL / 1000,
    {
        let target: u64 = target_total_mass();
        proof {
            assert(target == 39_321_600_000);
            vstd::arithmetic::div_mod::lemma_div_by_multiple(39_321_600, 1000);
            assert(39_321_600_000int == 39_321_600int * 1000);
        }
        NormalizeParams {
            width: WORLD_WIDTH,
            height: WORLD_HEIGHT,
            target_mass_x1000: (target / 1000) as u32,
            _pad: 0,
        }
    }
}

} // verus!
