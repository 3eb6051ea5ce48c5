//! Procedural world generation: populates generation 0 of the field store
//! with six families of organism seed patterns and a heterogeneous resource
//! landscape, all driven by one seeded random stream. Every stamp blends
//! additively into the mass field and clamps it to one unit, and every cell
//! it touches receives a complete genome with a nonzero growth width.

use vstd::prelude::*;

verus! {

use crate::FIX_ONE;
use crate::fixed::{isqrt, exp_neg, sin_turns, cos_turns, lemma_scale_le_one};
use crate::grid::pixel_idx;
use crate::rng::{rng_from_seed, rng_range};
use crate::world::{BufferSnapshot, MAX_CELLS, RESOURCE_FLOOR};

/// One organism genome: four fixed-point traits plus a mutation rate.
pub struct Genome {
    /// Kernel radius, in fixed-point cells.
    pub radius: u32,
    /// Growth-function center.
    pub mu: u32,
    /// Growth-function width; never zero, growth evaluation divides by it.
    pub sigma: u32,
    /// Predation trait.
    pub aggression: u32,
    /// Per-cell mutation rate.
    pub mutation_rate: u32,
}

impl Genome {
    /// The one genome constraint the whole engine depends on.
    pub open spec fn valid(self) -> bool {
        self.sigma > 0
    }

    /// The trait ranges the generator draws from, the safe defaults
    /// included; they imply [`Self::valid`].
    pub open spec fn generator_ranges(self) -> bool {
        &&& 3_000_000 <= self.radius < 9_000_000
        &&& 120_000 <= self.mu <= 500_000
        &&& 40_000 <= self.sigma < 180_000
        &&& self.aggression < 1_000_000
        &&& 500 <= self.mutation_rate <= 10_000
    }
}

/// Mass blending rule of every stamp: add, then clamp to one unit.
pub open spec fn clamped_add(a: u32, b: u32) -> u32 {
    if a + b <= FIX_ONE {
        (a + b) as u32
    } else {
        FIX_ONE
    }
}

/// A vector of `n` copies of `v`.
fn filled(n: usize, v: u32) -> (out: Vec<u32>)
    ensures
        out.len() == n,
        forall|i: int| 0 <= i < n ==> out[i] == v,
{
    let mut out: Vec<u32> = Vec::new();
    let mut i: usize = 0;
    while i < n
        invariant
            i <= n,
            out.len() == i,
            forall|j: int| 0 <= j < i ==> out[j] == v,
        decreases n - i,
    {
        out.push(v);
        i = i + 1;
    }
    out
}

/// The per-cell default genome words, flattened: a safe genome even for
/// cells no pattern ever touches (radius 5, center 0.5, width 0.15,
/// no aggression).
fn default_genome_words(cells: usize) -> (out: Vec<u32>)
    requires
        4 * cells <= usize::MAX,
    ensures
        out.len() == 4 * cells,
        forall|j: int|
            0 <= j < 4 * cells ==> #[trigger] out[j] == (if j % 4 == 0 {
                5_000_000u32
            } else if j % 4 == 1 {
                500_000u32
            } else if j % 4 == 2 {
                150_000u32
            } else {
                0u32
            }),
{
    let mut out: Vec<u32> = Vec::new();
    let mut i: usize = 0;
    while i < cells
        invariant
            i <= cells,
            4 * cells <= usize::MAX,
            out.len() == 4 * i,
            forall|j: int|
                0 <= j < 4 * i ==> #[trigger] out[j] == (if j % 4 == 0 {
                    5_000_000u32
                } else if j % 4 == 1 {
                    500_000u32
                } else if j % 4 == 2 {
                    150_000u32
                } else {
                    0u32
                }),
        decreases cells - i,
    {
        out.push(5 * FIX_ONE);
        out.push(500_000);
        out.push(150_000);
        out.push(0);
        i = i + 1;
    }
    out
}

/// An untouched world: no mass, uniform half energy, safe default genomes,
/// default mutation rate, full nutrients everywhere.
pub fn blank_world(width: u32, height: u32) -> (snap: BufferSnapshot)
    requires
        1 <= width,
        1 <= height,
        width * height <= MAX_CELLS,
    ensures
        snap.seeded_wf(),
        snap.width == width,
        snap.height == height,
        forall|i: int|
            0 <= i < snap.cells() ==> #[trigger] snap.mass[i] == 0 && snap.energy[i] == 500_000
                && snap.resource[i] == FIX_ONE && snap.genome_b[i] == 10_000,
        forall|j: int|
            0 <= j < 4 * snap.cells() ==> #[trigger] snap.genome_a[j] == (if j % 4 == 0 {
                5_000_000u32
            } else if j % 4 == 1 {
                500_000u32
            } else if j % 4 == 2 {
                150_000u32
            } else {
                0u32
            }),
{
    let cells: usize = (width as u64 * height as u64) as usize;
    let snap = BufferSnapshot {
        width,
        height,
        mass: filled(cells, 0),
        energy: filled(cells, 500_000),
        genome_a: default_genome_words(cells),
        genome_b: filled(cells, 10_000),
        resource: filled(cells, FIX_ONE),
    };
    proof {
        assert forall|i: int| 0 <= i < snap.cells() implies snap.cell_ok(i) by {
            assert(snap.genome_a[4 * i] == 5_000_000);
            assert(snap.genome_a[4 * i + 1] == 500_000);
            assert(snap.genome_a[4 * i + 2] == 150_000);
            assert(snap.genome_a[4 * i + 3] == 0);
            assert(snap.mass[i] == 0);
            assert(snap.energy[i] == 500_000);
            assert(snap.resource[i] == FIX_ONE);
            assert(snap.genome_b[i] == 10_000);
        }
    }
    snap
}

impl BufferSnapshot {
    /// Stamp one cell: blend `m` into its mass (clamped to one unit) and
    /// overwrite its energy, genome and mutation rate.
    pub fn stamp(&mut self, idx: usize, m: u32, e: u32, g: &Genome)
        requires
            old(self).seeded_wf(),
            idx < old(self).cells(),
            400_000 <= e <= 800_000,
            g.generator_ranges(),
        ensures
            final(self).seeded_wf(),
            final(self).width == old(self).width,
            final(self).height == old(self).height,
            final(self).mass@ == old(self).mass@.update(
                idx as int,
                clamped_add(old(self).mass[idx as int], m),
            ),
            final(self).energy@ == old(self).energy@.update(idx as int, e),
            final(self).genome_a@ == old(self).genome_a@.update(4 * idx as int, g.radius)
                .update(4 * idx as int + 1, g.mu)
                .update(4 * idx as int + 2, g.sigma)
                .update(4 * idx as int + 3, g.aggression),
            final(self).genome_b@ == old(self).genome_b@.update(idx as int, g.mutation_rate),
            final(self).resource == old(self).resource,
            final(self).mass[idx as int] >= old(self).mass[idx as int],
    {
        proof {
            assert(old(self).cell_ok(idx as int));
        }
        let sum: u64 = self.mass[idx] as u64 + m as u64;
        let nm: u32 = if sum <= FIX_ONE as u64 {
            sum as u32
        } else {
            FIX_ONE
        };
        self.mass[idx] = nm;
        self.energy[idx] = e;
        self.genome_a[4 * idx] = g.radius;
        self.genome_a[4 * idx + 1] = g.mu;
        self.genome_a[4 * idx + 2] = g.sigma;
        self.genome_a[4 * idx + 3] = g.aggression;
        self.genome_b[idx] = g.mutation_rate;
        proof {
            assert forall|i: int| 0 <= i < self.cells() implies self.cell_ok(i) by {
                assert(old(self).cell_ok(i));
                if i == idx {
                    assert(self.genome_a[4 * i] == g.radius);
                    assert(self.genome_a[4 * i + 1] == g.mu);
                    assert(self.genome_a[4 * i + 2] == g.sigma);
                    assert(self.genome_a[4 * i + 3] == g.aggression);
                } else {
                    assert(self.mass[i] == old(self).mass[i]);
                    assert(self.energy[i] == old(self).energy[i]);
                    assert(self.genome_a[4 * i] == old(self).genome_a[4 * i]);
                    assert(self.genome_a[4 * i + 1] == old(self).genome_a[4 * i + 1]);
                    assert(self.genome_a[4 * i + 2] == old(self).genome_a[4 * i + 2]);
                    assert(self.genome_a[4 * i + 3] == old(self).genome_a[4 * i + 3]);
                    assert(self.genome_b[i] == old(self).genome_b[i]);
                }
            }
        }
    }

    /// Overwrite the nutrient level of one cell with an in-range value.
    pub fn set_resource(&mut self, idx: usize, v: u32)
        requires
            old(self).seeded_wf(),
            idx < old(self).cells(),
            RESOURCE_FLOOR <= v <= FIX_ONE,
        ensures
            final(self).seeded_wf(),
            final(self).width == old(self).width,
            final(self).height == old(self).height,
            final(self).resource@ == old(self).resource@.update(idx as int, v),
            final(self).mass == old(self).mass,
            final(self).energy == old(self).energy,
            final(self).genome_a == old(self).genome_a,
            final(self).genome_b == old(self).genome_b,
    {
        self.resource[idx] = v;
        proof {
            assert forall|i: int| 0 <= i < self.cells() implies self.cell_ok(i) by {
                assert(old(self).cell_ok(i));
            }
        }
    }
}

/// Clamped unit ratio `num / den`, in fixed-point units.
fn ratio_unit(num: u64, den: u64) -> (r: u32)
    requires
        1 <= den <= 1_000_000_000_000,
    ensures
        r <= FIX_ONE,
        num >= den ==> r == FIX_ONE,
{
    if num >= den {
        FIX_ONE
    } else {
        proof {
            assert((FIX_ONE as int) * (num as int) <= 1_000_000_000_000_000_000)
                by (nonlinear_arith)
                requires
                    num < 1_000_000_000_000,
            ;
            lemma_scale_le_one(FIX_ONE as int, num as int, den as int);
        }
        ((FIX_ONE as u64) * num / den) as u32
    }
}

/// Product of two unit-range fixed-point values.
fn unit_mul(a: u32, b: u32) -> (r: u32)
    requires
        a <= FIX_ONE,
        b <= FIX_ONE,
    ensures
        r <= FIX_ONE,
{
    proof {
        assert((a as int) * (b as int) <= 1_000_000_000_000) by (nonlinear_arith)
            requires
                a <= 1_000_000,
                b <= 1_000_000,
        ;
        lemma_scale_le_one(a as int, b as int, FIX_ONE as int);
    }
    ((a as u64) * (b as u64) / (FIX_ONE as u64)) as u32
}

/// Square of a small cell offset.
fn sq_off(d: i64) -> (s: u64)
    requires
        -1000 <= d <= 1000,
    ensures
        s == d * d,
        s <= 1_000_000,
{
    proof {
        assert(0 <= d * d <= 1_000_000) by (nonlinear_arith)
            requires
                -1000 <= d <= 1000,
        ;
    }
    (d * d) as u64
}

/// Fixed-point Euclidean distance of a cell offset.
fn dist_fix(dx: i64, dy: i64) -> (d: u64)
    requires
        -1000 <= dx <= 1000,
        -1000 <= dy <= 1000,
    ensures
        d <= 2_000_000_000,
{
    let d2: u64 = sq_off(dx) + sq_off(dy);
    let d = isqrt(d2 * 1_000_000_000_000);
    proof {
        assert(d <= 2_000_000_000) by (nonlinear_arith)
            requires
                d * d <= 2_000_000_000_000_000_000,
        ;
    }
    d
}

/// A fresh genome with the shared trait ranges: modest radius, low growth
/// center, positive growth width, at most mild aggression.
fn random_genome(rng: &mut rand::rngs::StdRng) -> (g: Genome)
    ensures
        g.valid(),
        3 * FIX_ONE <= g.radius < 9 * FIX_ONE,
        120_000 <= g.mu < 300_000,
        40_000 <= g.sigma < 180_000,
        g.aggression < 600_000,
        500 <= g.mutation_rate < 8_000,
{
    let radius = rng_range(rng, 3 * FIX_ONE, 9 * FIX_ONE);
    let mu = rng_range(rng, 120_000, 300_000);
    let sigma = rng_range(rng, 40_000, 180_000);
    let aggression = rng_range(rng, 0, 600_000);
    let mutation_rate = rng_range(rng, 500, 8_000);
    Genome { radius, mu, sigma, aggression, mutation_rate }
}

/// Gaussian blob colonies: circular clusters with `exp(-d^2 / (2 r^2 0.25))`
/// mass falloff inside a random disk. The center of every cluster reaches
/// exactly one unit of mass.
#[verifier::loop_isolation(false)]
fn seed_clusters(snap: &mut BufferSnapshot, rng: &mut rand::rngs::StdRng)
    requires
        old(snap).seeded_wf(),
    ensures
        final(snap).seeded_wf(),
        final(snap).width == old(snap).width,
        final(snap).height == old(snap).height,
        forall|i: int|
            0 <= i < old(snap).cells() ==> final(snap).mass[i] >= #[trigger] old(snap).mass[i],
        exists|i: int| 0 <= i < final(snap).cells() && final(snap).mass[i] == FIX_ONE,
{
    let mut c: u32 = 0;
    while c < 30
        invariant
            snap.seeded_wf(),
            snap.width == old(snap).width,
            snap.height == old(snap).height,
            forall|i: int|
                0 <= i < old(snap).cells() ==> snap.mass[i] >= #[trigger] old(snap).mass[i],
            c >= 1 ==> exists|i: int| 0 <= i < snap.cells() && snap.mass[i] == FIX_ONE,
        decreases 30 - c,
    {
        let cx = rng_range(rng, 0, snap.width) as i64;
        let cy = rng_range(rng, 0, snap.height) as i64;
        let radius = rng_range(rng, 5, 15) as u64;
        let g = random_genome(rng);
        proof {
            assert(25 <= radius * radius <= 196) by (nonlinear_arith)
                requires
                    5 <= radius <= 14,
            ;
        }
        let r2: u64 = radius * radius;

        // The center cell saturates: its falloff is a whole unit, and the
        // sweep below stamps it again with the same values.
        let cidx = pixel_idx(cx, cy, snap.width, snap.height);
        snap.stamp(cidx, FIX_ONE, 500_000, &g);
        proof {
            assert(snap.mass[cidx as int] == FIX_ONE);
        }

        let ir: i64 = radius as i64 + 1;
        let mut dy: i64 = -ir;
        while dy <= ir
            invariant
                snap.seeded_wf(),
                snap.width == old(snap).width,
                snap.height == old(snap).height,
                forall|i: int|
                    0 <= i < old(snap).cells() ==> snap.mass[i] >= #[trigger] old(snap).mass[i],
                exists|i: int| 0 <= i < snap.cells() && snap.mass[i] == FIX_ONE,
                -ir <= dy <= ir + 1,
            decreases ir + 1 - dy,
        {
            let mut dx: i64 = -ir;
            while dx <= ir
                invariant
                    snap.seeded_wf(),
                    snap.width == old(snap).width,
                    snap.height == old(snap).height,
                    forall|i: int|
                        0 <= i < old(snap).cells() ==> snap.mass[i] >= #[trigger] old(snap).mass[i],
                    exists|i: int| 0 <= i < snap.cells() && snap.mass[i] == FIX_ONE,
                    -ir <= dx <= ir + 1,
                decreases ir + 1 - dx,
            {
                let d2: u64 = sq_off(dx) + sq_off(dy);
                if d2 <= r2 {
                    let falloff = exp_neg(2 * d2 * 1_000_000 / r2);
                    let idx = pixel_idx(cx + dx, cy + dy, snap.width, snap.height);
                    let ghost before = *snap;
                    snap.stamp(idx, falloff as u32, 500_000, &g);
                    proof {
                        let w = choose|i: int|
                            0 <= i < before.cells() && before.mass[i] == FIX_ONE;
                        assert(snap.mass[w] == FIX_ONE);
                    }
                }
                dx = dx + 1;
            }
            dy = dy + 1;
        }
        c = c + 1;
    }
}

/// Signed cell offset `c * tl / FIX_ONE^2` of a direction component `c`
/// (a fixed-point sine or cosine) along an arc length `tl` in fixed cells.
fn offset_cells(c: i64, tl: u64) -> (o: i64)
    requires
        -1_000_000 <= c <= 1_000_000,
        tl <= 100_000_000,
    ensures
        -100 <= o <= 100,
{
    let mag_in: u64 = if c >= 0 {
        c as u64
    } else {
        (-c) as u64
    };
    proof {
        assert(mag_in * tl <= 100_000_000_000_000) by (nonlinear_arith)
            requires
                mag_in <= 1_000_000,
                tl <= 100_000_000,
        ;
    }
    let mag: u64 = mag_in * tl / 1_000_000_000_000;
    if c >= 0 {
        mag as i64
    } else {
        -(mag as i64)
    }
}

/// Ring / annulus colonies: concentric bands with independent smoothing at
/// the inner and outer edges.
#[verifier::loop_isolation(false)]
fn seed_rings(snap: &mut BufferSnapshot, rng: &mut rand::rngs::StdRng)
    requires
        old(snap).seeded_wf(),
    ensures
        final(snap).seeded_wf(),
        final(snap).width == old(snap).width,
        final(snap).height == old(snap).height,
        forall|i: int|
            0 <= i < old(snap).cells() ==> final(snap).mass[i] >= #[trigger] old(snap).mass[i],
{
    let mut c: u32 = 0;
    while c < 8
        invariant
            snap.seeded_wf(),
            snap.width == old(snap).width,
            snap.height == old(snap).height,
            forall|i: int|
                0 <= i < old(snap).cells() ==> snap.mass[i] >= #[trigger] old(snap).mass[i],
        decreases 8 - c,
    {
        let cx = rng_range(rng, 0, snap.width) as i64;
        let cy = rng_range(rng, 0, snap.height) as i64;
        let outer_c: u64 = rng_range(rng, 10, 25) as u64;
        let outer_fix: u64 = outer_c * 1_000_000;
        let frac: u64 = rng_range(rng, 400_000, 700_000) as u64;
        proof {
            assert(outer_c * frac < outer_c * 1_000_000) by (nonlinear_arith)
                requires
                    frac < 1_000_000,
                    10 <= outer_c <= 24,
            ;
        }
        let inner_fix: u64 = outer_c * frac;
        let g = random_genome(rng);
        let raw_th: u64 = outer_fix - inner_fix;
        let thickness: u64 = if raw_th >= 2_000_000 {
            raw_th
        } else {
            2_000_000
        };
        proof {
            crate::fixed::lemma_div_at_least(3 * thickness as int, 600_000, 10);
        }
        let d3: u64 = 3 * thickness / 10;

        let ir: i64 = outer_c as i64 + 1;
        let mut dy: i64 = -ir;
        while dy <= ir
            invariant
                snap.seeded_wf(),
                snap.width == old(snap).width,
                snap.height == old(snap).height,
                forall|i: int|
                    0 <= i < old(snap).cells() ==> snap.mass[i] >= #[trigger] old(snap).mass[i],
                -ir <= dy <= ir + 1,
            decreases ir + 1 - dy,
        {
            let mut dx: i64 = -ir;
            while dx <= ir
                invariant
                    snap.seeded_wf(),
                    snap.width == old(snap).width,
                    snap.height == old(snap).height,
                    forall|i: int|
                        0 <= i < old(snap).cells() ==> snap.mass[i] >= #[trigger] old(snap).mass[i],
                    -ir <= dx <= ir + 1,
                decreases ir + 1 - dx,
            {
                let dist = dist_fix(dx, dy);
                if dist <= outer_fix && dist >= inner_fix {
                    let over: u64 = dist + d3;
                    let eo: u32 = if over <= outer_fix {
                        FIX_ONE
                    } else {
                        FIX_ONE - ratio_unit(over - outer_fix, d3)
                    };
                    let ei: u32 = ratio_unit(dist - inner_fix, d3);
                    let m: u32 = unit_mul(eo, ei);
                    if m >= 10_000 {
                        let idx = pixel_idx(cx + dx, cy + dy, snap.width, snap.height);
                        snap.stamp(idx, unit_mul(m, 800_000), 600_000, &g);
                    }
                }
                dx = dx + 1;
            }
            dy = dy + 1;
        }
        c = c + 1;
    }
}

/// Filament colonies: gently curved line segments stamped with a circular
/// cross-section falloff.
#[verifier::loop_isolation(false)]
fn seed_filaments(snap: &mut BufferSnapshot, rng: &mut rand::rngs::StdRng)
    requires
        old(snap).seeded_wf(),
    ensures
        final(snap).seeded_wf(),
        final(snap).width == old(snap).width,
        final(snap).height == old(snap).height,
        forall|i: int|
            0 <= i < old(snap).cells() ==> final(snap).mass[i] >= #[trigger] old(snap).mass[i],
{
    let mut c: u32 = 0;
    while c < 6
        invariant
            snap.seeded_wf(),
            snap.width == old(snap).width,
            snap.height == old(snap).height,
            forall|i: int|
                0 <= i < old(snap).cells() ==> snap.mass[i] >= #[trigger] old(snap).mass[i],
        decreases 6 - c,
    {
        let x0 = rng_range(rng, 0, snap.width) as i64;
        let y0 = rng_range(rng, 0, snap.height) as i64;
        let angle: u64 = rng_range(rng, 0, 1_000_000) as u64;
        let len_c: u64 = rng_range(rng, 30, 80) as u64;
        let half_w: u64 = rng_range(rng, 1_500_000, 4_000_000) as u64;
        let g = random_genome(rng);
        let curve_mag: u64 = rng_range(rng, 0, 3_183) as u64;
        let curve_neg: bool = rng_range(rng, 0, 2) == 1;

        let steps: u64 = 2 * len_c;
        let mut s: u64 = 0;
        while s <= steps
            invariant
                snap.seeded_wf(),
                snap.width == old(snap).width,
                snap.height == old(snap).height,
                forall|i: int|
                    0 <= i < old(snap).cells() ==> snap.mass[i] >= #[trigger] old(snap).mass[i],
                s <= steps + 1,
            decreases steps + 1 - s,
        {
            let t: u32 = ratio_unit(s, steps);
            proof {
                assert((t as int) * (len_c as int) <= 100_000_000) by (nonlinear_arith)
                    requires
                        t <= 1_000_000,
                        len_c <= 100,
                ;
                assert((curve_mag as int) * ((t as int) * (len_c as int) / 1_000_000)
                    <= 400_000) by (nonlinear_arith)
                    requires
                        curve_mag <= 3_183,
                        0 <= (t as int) * (len_c as int) / 1_000_000 <= 100,
                ;
                crate::fixed::lemma_scale_le_one(
                    len_c as int,
                    t as int,
                    1_000_000,
                );
                assert((len_c as int) * (t as int) == (t as int) * (len_c as int))
                    by (nonlinear_arith);
            }
            let tc: u64 = (t as u64) * len_c / 1_000_000;
            let tl: u64 = (t as u64) * len_c;
            let delta: u64 = curve_mag * tc;
            let a: u64 = if curve_neg {
                angle + 10_000_000 - delta
            } else {
                angle + delta
            };
            let ca = cos_turns(a);
            let sa = sin_turns(a);
            let px: i64 = x0 + offset_cells(ca, tl);
            let py: i64 = y0 + offset_cells(sa, tl);

            let hw_c: i64 = (half_w / 1_000_000) as i64 + 1;
            let mut dy: i64 = -hw_c;
            while dy <= hw_c
                invariant
                    snap.seeded_wf(),
                    snap.width == old(snap).width,
                    snap.height == old(snap).height,
                    forall|i: int|
                        0 <= i < old(snap).cells() ==> snap.mass[i] >= #[trigger] old(snap).mass[i],
                    -hw_c <= dy <= hw_c + 1,
                decreases hw_c + 1 - dy,
            {
                let mut dx: i64 = -hw_c;
                while dx <= hw_c
                    invariant
                        snap.seeded_wf(),
                        snap.width == old(snap).width,
                        snap.height == old(snap).height,
                        forall|i: int|
                            0 <= i < old(snap).cells() ==> snap.mass[i] >= #[trigger] old(snap).mass[i],
                        -hw_c <= dx <= hw_c + 1,
                    decreases hw_c + 1 - dx,
                {
                    let d = dist_fix(dx, dy);
                    if d <= half_w {
                        let m: u32 = FIX_ONE - ratio_unit(d, half_w);
                        let idx = pixel_idx(px + dx, py + dy, snap.width, snap.height);
                        snap.stamp(idx, unit_mul(m, 700_000), 500_000, &g);
                    }
                    dx = dx + 1;
                }
                dy = dy + 1;
            }
            s = s + 1;
        }
        c = c + 1;
    }
}

/// Spiral colonies: several arms winding out from a center, mass fading
/// toward the tip.
#[verifier::loop_isolation(false)]
fn seed_spirals(snap: &mut BufferSnapshot, rng: &mut rand::rngs::StdRng)
    requires
        old(snap).seeded_wf(),
    ensures
        final(snap).seeded_wf(),
        final(snap).width == old(snap).width,
        final(snap).height == old(snap).height,
        forall|i: int|
            0 <= i < old(snap).cells() ==> final(snap).mass[i] >= #[trigger] old(snap).mass[i],
{
    let mut c: u32 = 0;
    while c < 4
        invariant
            snap.seeded_wf(),
            snap.width == old(snap).width,
            snap.height == old(snap).height,
            forall|i: int|
                0 <= i < old(snap).cells() ==> snap.mass[i] >= #[trigger] old(snap).mass[i],
        decreases 4 - c,
    {
        let cx = rng_range(rng, 0, snap.width) as i64;
        let cy = rng_range(rng, 0, snap.height) as i64;
        let arms: u32 = rng_range(rng, 2, 5);
        let ma: u64 = rng_range(rng, 477_000, 955_000) as u64;
        let scale: u64 = rng_range(rng, 15_000_000, 35_000_000) as u64;
        let aw: u64 = rng_range(rng, 1_500_000, 3_500_000) as u64;
        let g = random_genome(rng);
        proof {
            assert((ma as int) * (scale as int) <= 40_000_000_000_000) by (nonlinear_arith)
                requires
                    ma <= 1_000_000,
                    scale <= 40_000_000,
            ;
        }
        let mut steps: u64 = ma * scale / 1_000_000_000_000 * 13;
        if steps == 0 {
            steps = 1;
        }

        let mut arm: u32 = 0;
        while arm < arms
            invariant
                snap.seeded_wf(),
                snap.width == old(snap).width,
                snap.height == old(snap).height,
                forall|i: int|
                    0 <= i < old(snap).cells() ==> snap.mass[i] >= #[trigger] old(snap).mass[i],
                arm <= arms,
            decreases arms - arm,
        {
            let arm_off: u64 = (arm as u64) * 1_000_000 / (arms as u64);
            let mut s: u64 = 0;
            while s <= steps
                invariant
                    snap.seeded_wf(),
                    snap.width == old(snap).width,
                    snap.height == old(snap).height,
                    forall|i: int|
                        0 <= i < old(snap).cells() ==> snap.mass[i] >= #[trigger] old(snap).mass[i],
                    s <= steps + 1,
                decreases steps + 1 - s,
            {
                let t: u32 = ratio_unit(s, steps);
                proof {
                    assert((t as int) * (ma as int) <= 1_000_000_000_000) by (nonlinear_arith)
                        requires
                            t <= 1_000_000,
                            ma <= 1_000_000,
                    ;
                    assert((t as int) * (scale as int) <= 40_000_000_000_000)
                        by (nonlinear_arith)
                        requires
                            t <= 1_000_000,
                            scale <= 40_000_000,
                    ;
                }
                let theta: u64 = (t as u64) * ma / 1_000_000 + arm_off;
                let rr: u64 = (t as u64) * scale / 1_000_000;
                let ct = cos_turns(theta);
                let st = sin_turns(theta);
                let sx: i64 = cx + offset_cells(ct, rr);
                let sy: i64 = cy + offset_cells(st, rr);

                let hw_c: i64 = (aw / 1_000_000) as i64 + 1;
                let mut dy: i64 = -hw_c;
                while dy <= hw_c
                    invariant
                        snap.seeded_wf(),
                        snap.width == old(snap).width,
                        snap.height == old(snap).height,
                        forall|i: int|
                            0 <= i < old(snap).cells() ==> snap.mass[i] >= #[trigger] old(snap).mass[i],
                        -hw_c <= dy <= hw_c + 1,
                    decreases hw_c + 1 - dy,
                {
                    let mut dx: i64 = -hw_c;
                    while dx <= hw_c
                        invariant
                            snap.seeded_wf(),
                            snap.width == old(snap).width,
                            snap.height == old(snap).height,
                            forall|i: int|
                                0 <= i < old(snap).cells() ==> snap.mass[i] >= #[trigger] old(snap).mass[i],
                            -hw_c <= dx <= hw_c + 1,
                        decreases hw_c + 1 - dx,
                    {
                        let d = dist_fix(dx, dy);
                        if d <= aw {
                            let prox: u32 = FIX_ONE - ratio_unit(d, aw);
                            let fade: u32 = FIX_ONE - unit_mul(t, 300_000);
                            let m: u32 = unit_mul(prox, fade);
                            if m >= 10_000 {
                                let idx = pixel_idx(sx + dx, sy + dy, snap.width, snap.height);
                                snap.stamp(idx, unit_mul(m, 600_000), 550_000, &g);
                            }
                        }
                        dx = dx + 1;
                    }
                    dy = dy + 1;
                }
                s = s + 1;
            }
            arm = arm + 1;
        }
        c = c + 1;
    }
}

/// Sparse noise patches: low-density stochastic fill inside disks.
#[verifier::loop_isolation(false)]
fn seed_noise_patches(snap: &mut BufferSnapshot, rng: &mut rand::rngs::StdRng)
    requires
        old(snap).seeded_wf(),
    ensures
        final(snap).seeded_wf(),
        final(snap).width == old(snap).width,
        final(snap).height == old(snap).height,
        forall|i: int|
            0 <= i < old(snap).cells() ==> final(snap).mass[i] >= #[trigger] old(snap).mass[i],
{
    let mut c: u32 = 0;
    while c < 10
        invariant
            snap.seeded_wf(),
            snap.width == old(snap).width,
            snap.height == old(snap).height,
            forall|i: int|
                0 <= i < old(snap).cells() ==> snap.mass[i] >= #[trigger] old(snap).mass[i],
        decreases 10 - c,
    {
        let cx = rng_range(rng, 0, snap.width) as i64;
        let cy = rng_range(rng, 0, snap.height) as i64;
        let patch_r: i64 = rng_range(rng, 15, 40) as i64;
        let density: u32 = rng_range(rng, 50_000, 150_000);
        let g = random_genome(rng);
        let pr_fix: u64 = (patch_r as u64) * 1_000_000;

        let mut dy: i64 = -patch_r;
        while dy <= patch_r
            invariant
                snap.seeded_wf(),
                snap.width == old(snap).width,
                snap.height == old(snap).height,
                forall|i: int|
                    0 <= i < old(snap).cells() ==> snap.mass[i] >= #[trigger] old(snap).mass[i],
                -patch_r <= dy <= patch_r + 1,
            decreases patch_r + 1 - dy,
        {
            let mut dx: i64 = -patch_r;
            while dx <= patch_r
                invariant
                    snap.seeded_wf(),
                    snap.width == old(snap).width,
                    snap.height == old(snap).height,
                    forall|i: int|
                        0 <= i < old(snap).cells() ==> snap.mass[i] >= #[trigger] old(snap).mass[i],
                    -patch_r <= dx <= patch_r + 1,
                decreases patch_r + 1 - dx,
            {
                let d = dist_fix(dx, dy);
                if d <= pr_fix {
                    if rng_range(rng, 0, 1_000_000) < density {
                        let falloff: u32 = FIX_ONE - ratio_unit(d, pr_fix);
                        let amp: u32 = rng_range(rng, 100_000, 500_000);
                        let m: u32 = unit_mul(falloff, amp);
                        let idx = pixel_idx(cx + dx, cy + dy, snap.width, snap.height);
                        snap.stamp(idx, m, 400_000, &g);
                    }
                }
                dx = dx + 1;
            }
            dy = dy + 1;
        }
        c = c + 1;
    }
}

/// Apex-predator nests: small, high-mass, high-aggressivity colonies with a
/// narrower trait range, stamped last so no later pattern overwrites them.
#[verifier::loop_isolation(false)]
fn seed_predator_nests(snap: &mut BufferSnapshot, rng: &mut rand::rngs::StdRng)
    requires
        old(snap).seeded_wf(),
    ensures
        final(snap).seeded_wf(),
        final(snap).width == old(snap).width,
        final(snap).height == old(snap).height,
        forall|i: int|
            0 <= i < old(snap).cells() ==> final(snap).mass[i] >= #[trigger] old(snap).mass[i],
{
    let mut c: u32 = 0;
    while c < 5
        invariant
            snap.seeded_wf(),
            snap.width == old(snap).width,
            snap.height == old(snap).height,
            forall|i: int|
                0 <= i < old(snap).cells() ==> snap.mass[i] >= #[trigger] old(snap).mass[i],
        decreases 5 - c,
    {
        let cx = rng_range(rng, 0, snap.width) as i64;
        let cy = rng_range(rng, 0, snap.height) as i64;
        let radius = rng_range(rng, 3, 7) as u64;
        let g = Genome {
            radius: rng_range(rng, 4_000_000, 7_000_000),
            mu: rng_range(rng, 150_000, 250_000),
            sigma: rng_range(rng, 60_000, 120_000),
            aggression: rng_range(rng, 700_000, 1_000_000),
            mutation_rate: rng_range(rng, 1_000, 5_000),
        };
        proof {
            assert(9 <= radius * radius <= 36) by (nonlinear_arith)
                requires
                    3 <= radius <= 6,
            ;
        }
        let r2: u64 = radius * radius;

        let ir: i64 = radius as i64 + 1;
        let mut dy: i64 = -ir;
        while dy <= ir
            invariant
                snap.seeded_wf(),
                snap.width == old(snap).width,
                snap.height == old(snap).height,
                forall|i: int|
                    0 <= i < old(snap).cells() ==> snap.mass[i] >= #[trigger] old(snap).mass[i],
                -ir <= dy <= ir + 1,
            decreases ir + 1 - dy,
        {
            let mut dx: i64 = -ir;
            while dx <= ir
                invariant
                    snap.seeded_wf(),
                    snap.width == old(snap).width,
                    snap.height == old(snap).height,
                    forall|i: int|
                        0 <= i < old(snap).cells() ==> snap.mass[i] >= #[trigger] old(snap).mass[i],
                    -ir <= dx <= ir + 1,
                decreases ir + 1 - dx,
            {
                let d2: u64 = sq_off(dx) + sq_off(dy);
                if d2 <= r2 {
                    let m0 = exp_neg(5 * d2 * 1_000_000 / (3 * r2));
                    let idx = pixel_idx(cx + dx, cy + dy, snap.width, snap.height);
                    snap.stamp(idx, unit_mul(m0 as u32, 900_000), 800_000, &g);
                }
                dx = dx + 1;
            }
            dy = dy + 1;
        }
        c = c + 1;
    }
}

/// Heterogeneous nutrient landscape: a reduced uniform baseline, fertile
/// oases added, desert zones subtracted down to the floor, and a sinusoidal
/// gradient band superposed, everything clamped to the legal range.
#[verifier::loop_isolation(false)]
fn build_resource_landscape(snap: &mut BufferSnapshot, rng: &mut rand::rngs::StdRng)
    requires
        old(snap).seeded_wf(),
    ensures
        final(snap).seeded_wf(),
        final(snap).width == old(snap).width,
        final(snap).height == old(snap).height,
        final(snap).mass == old(snap).mass,
{
    // Baseline: slightly reduced uniform nutrients.
    let n: usize = snap.resource.len();
    let mut i: usize = 0;
    while i < n
        invariant
            snap.seeded_wf(),
            snap.width == old(snap).width,
            snap.height == old(snap).height,
            snap.mass == old(snap).mass,
            n == snap.resource.len(),
        decreases n - i,
    {
        snap.set_resource(i, 700_000);
        i = i + 1;
    }

    // Fertile oases.
    let mut c: u32 = 0;
    while c < 12
        invariant
            snap.seeded_wf(),
            snap.width == old(snap).width,
            snap.height == old(snap).height,
            snap.mass == old(snap).mass,
        decreases 12 - c,
    {
        let cx = rng_range(rng, 0, snap.width) as i64;
        let cy = rng_range(rng, 0, snap.height) as i64;
        let radius = rng_range(rng, 20, 60) as u64;
        proof {
            assert(400 <= radius * radius <= 3_481) by (nonlinear_arith)
                requires
                    20 <= radius <= 59,
            ;
        }
        let r2: u64 = radius * radius;
        let ir: i64 = radius as i64 + 1;
        let mut dy: i64 = -ir;
        while dy <= ir
            invariant
                snap.seeded_wf(),
                snap.width == old(snap).width,
                snap.height == old(snap).height,
                snap.mass == old(snap).mass,
                -ir <= dy <= ir + 1,
            decreases ir + 1 - dy,
        {
            let mut dx: i64 = -ir;
            while dx <= ir
                invariant
                    snap.seeded_wf(),
                    snap.width == old(snap).width,
                    snap.height == old(snap).height,
                    snap.mass == old(snap).mass,
                    -ir <= dx <= ir + 1,
                decreases ir + 1 - dx,
            {
                let d2: u64 = sq_off(dx) + sq_off(dy);
                if d2 <= r2 {
                    let boost = unit_mul(exp_neg(2 * d2 * 1_000_000 / r2) as u32, 300_000);
                    let idx = pixel_idx(cx + dx, cy + dy, snap.width, snap.height);
                    proof {
                        assert(snap.cell_ok(idx as int));
                    }
                    let cur: u32 = snap.resource[idx];
                    let bumped: u32 = cur + boost;
                    snap.set_resource(
                        idx,
                        if bumped > FIX_ONE {
                            FIX_ONE
                        } else {
                            bumped
                        },
                    );
                }
                dx = dx + 1;
            }
            dy = dy + 1;
        }
        c = c + 1;
    }

    // Desert zones.
    let mut c2: u32 = 0;
    while c2 < 6
        invariant
            snap.seeded_wf(),
            snap.width == old(snap).width,
            snap.height == old(snap).height,
            snap.mass == old(snap).mass,
        decreases 6 - c2,
    {
        let cx = rng_range(rng, 0, snap.width) as i64;
        let cy = rng_range(rng, 0, snap.height) as i64;
        let radius = rng_range(rng, 25, 50) as u64;
        proof {
            assert(625 <= radius * radius <= 2_401) by (nonlinear_arith)
                requires
                    25 <= radius <= 49,
            ;
        }
        let r2: u64 = radius * radius;
        let ir: i64 = radius as i64 + 1;
        let mut dy: i64 = -ir;
        while dy <= ir
            invariant
                snap.seeded_wf(),
                snap.width == old(snap).width,
                snap.height == old(snap).height,
                snap.mass == old(snap).mass,
                -ir <= dy <= ir + 1,
            decreases ir + 1 - dy,
        {
            let mut dx: i64 = -ir;
            while dx <= ir
                invariant
                    snap.seeded_wf(),
                    snap.width == old(snap).width,
                    snap.height == old(snap).height,
                    snap.mass == old(snap).mass,
                    -ir <= dx <= ir + 1,
                decreases ir + 1 - dx,
            {
                let d2: u64 = sq_off(dx) + sq_off(dy);
                if d2 <= r2 {
                    let reduction = unit_mul(exp_neg(2 * d2 * 1_000_000 / r2) as u32, 500_000);
                    let idx = pixel_idx(cx + dx, cy + dy, snap.width, snap.height);
                    proof {
                        assert(snap.cell_ok(idx as int));
                    }
                    let cur: u32 = snap.resource[idx];
                    snap.set_resource(
                        idx,
                        if cur >= reduction + RESOURCE_FLOOR {
                            cur - reduction
                        } else {
                            RESOURCE_FLOOR
                        },
                    );
                }
                dx = dx + 1;
            }
            dy = dy + 1;
        }
        c2 = c2 + 1;
    }

    // Sinusoidal gradient bands.
    proof {
        assert(snap.width <= MAX_CELLS && snap.height <= MAX_CELLS) by (nonlinear_arith)
            requires
                1 <= snap.width,
                1 <= snap.height,
                snap.width * snap.height <= MAX_CELLS,
        ;
    }
    let fx: u64 = rng_range(rng, 1_000_000, 4_000_000) as u64 / (snap.width as u64);
    let fy: u64 = rng_range(rng, 1_000_000, 4_000_000) as u64 / (snap.height as u64);
    let phase: u64 = rng_range(rng, 0, 1_000_000) as u64;
    let mut py: u32 = 0;
    while py < snap.height
        invariant
            snap.seeded_wf(),
            snap.width == old(snap).width,
            snap.height == old(snap).height,
            snap.mass == old(snap).mass,
            py <= snap.height,
        decreases snap.height - py,
    {
        let mut px: u32 = 0;
        while px < snap.width
            invariant
                snap.seeded_wf(),
                snap.width == old(snap).width,
                snap.height == old(snap).height,
                snap.mass == old(snap).mass,
                px <= snap.width,
            decreases snap.width - px,
        {
            proof {
                assert((px as int) * (fx as int) <= 67_108_864_000_000) by (nonlinear_arith)
                    requires
                        px < 16_777_216,
                        fx <= 4_000_000,
                ;
                assert((py as int) * (fy as int) <= 67_108_864_000_000) by (nonlinear_arith)
                    requires
                        py < 16_777_216,
                        fy <= 4_000_000,
                ;
            }
            let arg: u64 = (px as u64) * fx + (py as u64) * fy + phase;
            let sv: i64 = sin_turns(arg);
            let wave: i64 = if sv >= 0 {
                ((sv as u64) / 10) as i64
            } else {
                -(((-sv) as u64 / 10) as i64)
            };
            let idx = pixel_idx(px as i64, py as i64, snap.width, snap.height);
            proof {
                assert(snap.cell_ok(idx as int));
            }
            let cur: i64 = snap.resource[idx] as i64;
            let mixed: i64 = cur + wave;
            snap.set_resource(
                idx,
                if mixed < RESOURCE_FLOOR as i64 {
                    RESOURCE_FLOOR
                } else if mixed > FIX_ONE as i64 {
                    FIX_ONE
                } else {
                    mixed as u32
                },
            );
            px = px + 1;
        }
        py = py + 1;
    }
}

/// Generate a complete initial world from a seed: all six seed-pattern
/// families stamped over a blank field, then the resource landscape.
/// The one random stream makes the result a function of the seed alone.
pub fn generate_world(seed: u64, width: u32, height: u32) -> (snap: BufferSnapshot)
    requires
        1 <= width,
        1 <= height,
        width * height <= MAX_CELLS,
    ensures
        snap.seeded_wf(),
        snap.width == width,
        snap.height == height,
        exists|i: int| 0 <= i < snap.cells() && snap.mass[i] == FIX_ONE,
{
    let mut rng = rng_from_seed(seed);
    let mut snap = blank_world(width, height);
    seed_clusters(&mut snap, &mut rng);
    let ghost w0 = choose|i: int| 0 <= i < snap.cells() && snap.mass[i] == FIX_ONE;
    seed_rings(&mut snap, &mut rng);
    proof {
        lemma_saturated_cell_stays(&snap, w0);
    }
    seed_filaments(&mut snap, &mut rng);
    proof {
        lemma_saturated_cell_stays(&snap, w0);
    }
    seed_spirals(&mut snap, &mut rng);
    proof {
        lemma_saturated_cell_stays(&snap, w0);
    }
    seed_noise_patches(&mut snap, &mut rng);
    proof {
        lemma_saturated_cell_stays(&snap, w0);
    }
    seed_predator_nests(&mut snap, &mut rng);
    proof {
        lemma_saturated_cell_stays(&snap, w0);
    }
    build_resource_landscape(&mut snap, &mut rng);
    snap
}

/// A cell whose mass can only have grown, yet stays within one unit,
/// remains saturated.
proof fn lemma_saturated_cell_stays(snap: &BufferSnapshot, w: int)
    requires
        snap.seeded_wf(),
        0 <= w < snap.cells(),
        snap.mass[w] >= FIX_ONE,
    ensures
        snap.mass[w] == FIX_ONE,
{
    assert(snap.cell_ok(w));
}

} // verus!
