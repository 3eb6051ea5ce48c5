//! Host-side diagnostics over a field snapshot: population, energy,
//! resource and genetic statistics, computed exactly in fixed point.

use vstd::prelude::*;

verus! {

use crate::fixed::{spec_log2, log2_fix, lemma_log2_pow2_mul, lemma_div_below};
use crate::world::MAX_CELLS;

/// A cell with more mass than this is alive.
pub const LIVE_EPS: u32 = 10_000;

/// A cell with more mass than this counts for species detection.
pub const SIGNIFICANT_MASS: u32 = 50_000;

/// Cell `i` of a mass array is alive.
pub open spec fn live(mass: Seq<u32>, i: int) -> bool {
    mass[i] > LIVE_EPS
}

/// Total mass of the live cells among the first `n`.
pub open spec fn live_mass(mass: Seq<u32>, n: int) -> int
    decreases n,
{
    if n <= 0 {
        0
    } else {
        live_mass(mass, n - 1) + if live(mass, n - 1) {
            mass[n - 1] as int
        } else {
            0
        }
    }
}

// ======================== Genetic entropy ========================

/// Flat histogram key of cell `i`: its (radius, growth center, growth
/// width) traits discretized to `bins` buckets per axis, radius over
/// sixteen units, the center over one, the width over three tenths.
pub open spec fn bin_key(ga: Seq<u32>, i: int, bins: int) -> int {
    let rb = min_int(ga[4 * i] * bins / 16_000_000, bins - 1);
    let mb = min_int(ga[4 * i + 1] * bins / 1_000_000, bins - 1);
    let sb = min_int(ga[4 * i + 2] * bins * 10 / 3_000_000, bins - 1);
    (rb * bins + mb) * bins + sb
}

pub open spec fn min_int(a: int, b: int) -> int {
    if a <= b {
        a
    } else {
        b
    }
}

/// Mass-weighted histogram over genome bins of the first `n` cells; dead
/// cells are excluded entirely.
pub open spec fn spec_hist(ga: Seq<u32>, mass: Seq<u32>, bins: int, n: int) -> Seq<u64>
    decreases n,
{
    if n <= 0 {
        Seq::new((bins * bins * bins) as nat, |b: int| 0u64)
    } else {
        let h = spec_hist(ga, mass, bins, n - 1);
        if live(mass, n - 1) {
            let b = bin_key(ga, n - 1, bins);
            h.update(b, (h[b] + mass[n - 1]) as u64)
        } else {
            h
        }
    }
}

/// Sum of the first `n` histogram buckets.
pub open spec fn sum_hist(hist: Seq<u64>, n: int) -> int
    decreases n,
{
    if n <= 0 {
        0
    } else {
        sum_hist(hist, n - 1) + hist[n - 1]
    }
}

/// Difference clamped at zero.
pub open spec fn sat_sub(a: int, b: int) -> int {
    if a >= b {
        a - b
    } else {
        0
    }
}

/// The entropy contribution of one occupied bucket holding mass `c` out of
/// `total`: `c` times the fixed-point `log2(total) - log2(c)`.
pub open spec fn bin_term(c: u64, total: u64) -> int {
    c * sat_sub(spec_log2(total as nat) as int, spec_log2(c as nat) as int)
}

/// Sum of the entropy contributions of the first `n` buckets.
pub open spec fn sum_terms(hist: Seq<u64>, total: u64, n: int) -> int
    decreases n,
{
    if n <= 0 {
        0
    } else {
        sum_terms(hist, total, n - 1) + if hist[n - 1] > 0 {
            bin_term(hist[n - 1], total)
        } else {
            0
        }
    }
}

/// Shannon entropy of a mass-weighted bucket distribution, in fixed-point
/// bits: the mass-weighted mean of `log2(total) - log2(c)` over occupied
/// buckets, zero when nothing is alive.
pub open spec fn spec_entropy(hist: Seq<u64>, total: u64) -> int {
    if total == 0 {
        0
    } else {
        sum_terms(hist, total, hist.len() as int) / (total as int)
    }
}

/// Entropy of the genome distribution of the first `n` cells.
pub open spec fn spec_genetic_entropy(ga: Seq<u32>, mass: Seq<u32>, bins: int, n: int) -> int {
    spec_entropy(spec_hist(ga, mass, bins, n), live_mass(mass, n) as u64)
}

/// Live mass is nonnegative and at most one whole unit of u32 per cell.
proof fn lemma_live_mass_bound(mass: Seq<u32>, n: int)
    requires
        n >= 0,
    ensures
        0 <= live_mass(mass, n) <= n * 0x1_0000_0000,
    decreases n,
{
    if n > 0 {
        lemma_live_mass_bound(mass, n - 1);
    }
}

proof fn lemma_sum_hist_update(hist: Seq<u64>, n: int, b: int, v: u64)
    requires
        0 <= b < hist.len(),
        0 <= n <= hist.len(),
    ensures
        b < n ==> sum_hist(hist.update(b, v), n) == sum_hist(hist, n) - hist[b] + v,
        b >= n ==> sum_hist(hist.update(b, v), n) == sum_hist(hist, n),
    decreases n,
{
    if n > 0 {
        lemma_sum_hist_update(hist, n - 1, b, v);
    }
}

proof fn lemma_sum_hist_le(hist: Seq<u64>, n: int, m: int)
    requires
        0 <= n <= m <= hist.len(),
    ensures
        sum_hist(hist, n) <= sum_hist(hist, m),
    decreases m,
{
    if n < m {
        lemma_sum_hist_le(hist, n, m - 1);
    }
}

/// The histogram of the first `n` cells carries exactly their live mass,
/// and no bucket exceeds that.
proof fn lemma_hist_total(ga: Seq<u32>, mass: Seq<u32>, bins: int, n: int)
    requires
        bins >= 1,
        0 <= n <= MAX_CELLS,
        4 * n <= ga.len(),
        n <= mass.len(),
        forall|i: int| 0 <= i < n ==> 0 <= #[trigger] bin_key(ga, i, bins) < bins * bins * bins,
    ensures
        spec_hist(ga, mass, bins, n).len() == bins * bins * bins,
        sum_hist(spec_hist(ga, mass, bins, n), bins * bins * bins) == live_mass(mass, n),
        forall|b: int|
            0 <= b < bins * bins * bins ==> #[trigger] spec_hist(ga, mass, bins, n)[b]
                <= live_mass(mass, n),
    decreases n,
{
    let hn = spec_hist(ga, mass, bins, n);
    let nb = bins * bins * bins;
    if n == 0 {
        assert forall|b: int| 0 <= b < nb implies #[trigger] hn[b] <= live_mass(mass, 0) by {}
        assert(sum_hist(hn, nb) == 0) by {
            lemma_sum_hist_zero(hn, nb);
        }
    } else {
        lemma_hist_total(ga, mass, bins, n - 1);
        lemma_live_mass_bound(mass, n - 1);
        let h = spec_hist(ga, mass, bins, n - 1);
        if live(mass, n - 1) {
            let b = bin_key(ga, n - 1, bins);
            assert(h[b] + mass[n - 1] <= MAX_CELLS * 0x1_0000_0000);
            lemma_sum_hist_update(h, nb, b, (h[b] + mass[n - 1]) as u64);
            assert forall|j: int| 0 <= j < nb implies #[trigger] hn[j] <= live_mass(mass, n) by {
                assert(h[j] <= live_mass(mass, n - 1));
            }
        }
    }
}

proof fn lemma_sum_hist_zero(hist: Seq<u64>, n: int)
    requires
        n <= hist.len(),
        forall|b: int| 0 <= b < hist.len() ==> #[trigger] hist[b] == 0,
    ensures
        sum_hist(hist, n) == 0,
    decreases n,
{
    if n > 0 {
        lemma_sum_hist_zero(hist, n - 1);
    }
}

/// One bucket of mass out of `total` contributes at most
/// `total * log2(total)` to the entropy sum.
proof fn lemma_sum_terms_bound(hist: Seq<u64>, total: u64, n: int)
    requires
        0 <= n <= hist.len(),
        total >= 1,
        forall|b: int| 0 <= b < hist.len() ==> #[trigger] hist[b] <= total,
    ensures
        0 <= sum_terms(hist, total, n),
        sum_terms(hist, total, n) <= sum_hist(hist, n) * (spec_log2(total as nat) as int),
    decreases n,
{
    if n <= 0 {
        assert(0 * (spec_log2(total as nat) as int) == 0) by (nonlinear_arith);
    }
    if n > 0 {
        lemma_sum_terms_bound(hist, total, n - 1);
        let c = hist[n - 1];
        let lt = spec_log2(total as nat) as int;
        if c > 0 {
            assert(bin_term(c, total) <= c * lt && bin_term(c, total) >= 0) by (nonlinear_arith)
                requires
                    c >= 0,
                    0 <= sat_sub(lt, spec_log2(c as nat) as int) <= lt,
                    bin_term(c, total) == c * sat_sub(lt, spec_log2(c as nat) as int),
            ;
        }
        assert((sum_hist(hist, n - 1) + c) * lt == sum_hist(hist, n - 1) * lt + c * lt)
            by (nonlinear_arith);
    }
}

/// Genetic entropy of a snapshot region: discretize each live cell's
/// genome, weight by mass, and take the fixed-point Shannon entropy.
/// Dead cells never enter the histogram.
pub fn compute_genetic_entropy(genome_a: &Vec<u32>, mass: &Vec<u32>, bins: usize) -> (r: u64)
    requires
        genome_a@.len() == 4 * mass@.len(),
        mass@.len() <= MAX_CELLS,
        1 <= bins <= 32,
    ensures
        r == spec_genetic_entropy(genome_a@, mass@, bins as int, mass@.len() as int),
{
    let n = mass.len();
    proof {
        assert((bins as int) * (bins as int) * (bins as int) <= 32768 && 1 <= (bins as int) * (
        bins as int) <= 1024 && (bins as int) * (bins as int) * (bins as int) >= 1)
            by (nonlinear_arith)
            requires
                1 <= bins <= 32,
        ;
    }
    let nb: usize = bins * bins * bins;
    let ghost nbi: int = (bins as int) * (bins as int) * (bins as int);

    // Mass-weighted histogram over discretized genomes.
    let mut hist: Vec<u64> = Vec::new();
    let mut b0: usize = 0;
    while b0 < nb
        invariant
            b0 <= nb,
            hist@.len() == b0,
            forall|j: int| 0 <= j < b0 ==> #[trigger] hist@[j] == 0,
        decreases nb - b0,
    {
        hist.push(0);
        b0 = b0 + 1;
    }
    proof {
        assert(hist@ =~= spec_hist(genome_a@, mass@, bins as int, 0));
    }

    let mut total: u64 = 0;
    let mut i: usize = 0;
    while i < n
        invariant
            i <= n,
            n == mass@.len(),
            genome_a@.len() == 4 * n,
            n <= MAX_CELLS,
            1 <= bins <= 32,
            nb == nbi,
            nbi == (bins as int) * (bins as int) * (bins as int),
            nb <= 32768,
            hist@.len() == nb,
            hist@ == spec_hist(genome_a@, mass@, bins as int, i as int),
            total == live_mass(mass@, i as int),
            total <= (i as int) * 0x1_0000_0000,
        decreases n - i,
    {
        let m = mass[i];
        if m > LIVE_EPS {
            proof {
                assert((genome_a@[4 * (i as int)] as int) * (bins as int) < 0x80_0000_0000
                    && (genome_a@[4 * (i as int) + 1] as int) * (bins as int) < 0x80_0000_0000
                    && (genome_a@[4 * (i as int) + 2] as int) * (bins as int)
                    < 0x80_0000_0000) by (nonlinear_arith)
                    requires
                        1 <= bins <= 32,
                        genome_a@[4 * (i as int)] < 0x1_0000_0000,
                        genome_a@[4 * (i as int) + 1] < 0x1_0000_0000,
                        genome_a@[4 * (i as int) + 2] < 0x1_0000_0000,
                ;
            }
            let rb = min_u64((genome_a[4 * i] as u64) * (bins as u64) / 16_000_000, (bins
                - 1) as u64);
            let mb = min_u64((genome_a[4 * i + 1] as u64) * (bins as u64) / 1_000_000, (bins
                - 1) as u64);
            let sb = min_u64(
                (genome_a[4 * i + 2] as u64) * (bins as u64) * 10 / 3_000_000,
                (bins - 1) as u64,
            );
            proof {
                vstd::arithmetic::div_mod::lemma_div_pos_is_pos(
                    (genome_a@[4 * (i as int)] as int) * (bins as int),
                    16_000_000,
                );
                vstd::arithmetic::div_mod::lemma_div_pos_is_pos(
                    (genome_a@[4 * (i as int) + 1] as int) * (bins as int),
                    1_000_000,
                );
                vstd::arithmetic::div_mod::lemma_div_pos_is_pos(
                    (genome_a@[4 * (i as int) + 2] as int) * (bins as int) * 10,
                    3_000_000,
                );
                assert((rb as int) * (bins as int) + mb <= 1023 && ((rb as int) * (bins as int)
                    + mb) * (bins as int) + sb < nbi && 0 <= ((rb as int) * (bins as int) + mb) * (
                bins as int) + sb) by (nonlinear_arith)
                    requires
                        1 <= bins <= 32,
                        0 <= rb <= bins - 1,
                        0 <= mb <= bins - 1,
                        0 <= sb <= bins - 1,
                        nbi == (bins as int) * (bins as int) * (bins as int),
                ;
            }
            let key: usize = ((rb * bins as u64 + mb) * bins as u64 + sb) as usize;
            proof {
                assert(key == bin_key(genome_a@, i as int, bins as int));
            }
            let cur: u64 = hist[key];
            proof {
                lemma_hist_keys_in_range(genome_a@, mass@, bins as int, i as int);
                lemma_hist_bucket_bound(genome_a@, mass@, bins as int, i as int, key as int);
            }
            hist[key] = cur + m as u64;
            total = total + m as u64;
            proof {
                assert(hist@ =~= spec_hist(genome_a@, mass@, bins as int, i + 1));
            }
        }
        i = i + 1;
    }

    if total == 0 {
        return 0;
    }

    // Entropy over occupied buckets.
    proof {
        lemma_hist_keys_in_range(genome_a@, mass@, bins as int, n as int);
        lemma_hist_total(genome_a@, mass@, bins as int, n as int);
    }
    let lt: u64 = log2_fix(total);
    let mut sum: u128 = 0;
    let mut b: usize = 0;
    while b < nb
        invariant
            b <= nb,
            nb == hist@.len(),
            total >= 1,
            lt == spec_log2(total as nat),
            lt <= 64_000_000,
            sum_hist(hist@, nb as int) == total,
            forall|j: int| 0 <= j < hist@.len() ==> #[trigger] hist@[j] <= total,
            sum == sum_terms(hist@, total, b as int),
            sum <= sum_hist(hist@, b as int) * (lt as int),
            sum <= (total as int) * (lt as int),
        decreases nb - b,
    {
        let c: u64 = hist[b];
        proof {
            lemma_sum_terms_bound(hist@, total, b as int);
            lemma_sum_terms_bound(hist@, total, b + 1);
            lemma_sum_hist_le(hist@, b + 1, nb as int);
            assert((sum_hist(hist@, b as int) + c) * (lt as int) == sum_hist(hist@, b as int) * (
            lt as int) + c * (lt as int)) by (nonlinear_arith);
            assert(sum_hist(hist@, b + 1) * (lt as int) <= (total as int) * (lt as int))
                by (nonlinear_arith)
                requires
                    sum_hist(hist@, b + 1) <= total as int,
                    lt >= 0,
            ;
            assert(c * (lt as int) <= 2_000_000_000_000_000_000_000_000_000) by (nonlinear_arith)
                requires
                    0 <= c < 0x1_0000_0000_0000_0000,
                    0 <= lt <= 64_000_000,
            ;
            assert((total as int) * (lt as int) <= 2_000_000_000_000_000_000_000_000_000)
                by (nonlinear_arith)
                requires
                    0 <= total < 0x1_0000_0000_0000_0000,
                    0 <= lt <= 64_000_000,
            ;
        }
        if c > 0 {
            let lc: u64 = log2_fix(c);
            let diff: u64 = if lt >= lc {
                lt - lc
            } else {
                0
            };
            proof {
                assert((c as int) * (diff as int) == bin_term(c, total));
            }
            sum = sum + (c as u128) * (diff as u128);
        }
        b = b + 1;
    }
    proof {
        vstd::arithmetic::div_mod::lemma_div_is_ordered(
            sum as int,
            (total as int) * (lt as int),
            total as int,
        );
        assert((total as int) * (lt as int) == (lt as int) * (total as int)) by (nonlinear_arith);
        vstd::arithmetic::div_mod::lemma_div_by_multiple(lt as int, total as int);
    }
    (sum / (total as u128)) as u64
}

/// Buckets of a partial histogram stay within the live mass seen so far.
proof fn lemma_hist_bucket_bound(ga: Seq<u32>, mass: Seq<u32>, bins: int, n: int, b: int)
    requires
        bins >= 1,
        0 <= n <= MAX_CELLS,
        0 <= b < bins * bins * bins,
        forall|i: int| 0 <= i < n ==> 0 <= #[trigger] bin_key(ga, i, bins) < bins * bins * bins,
    ensures
        spec_hist(ga, mass, bins, n).len() == bins * bins * bins,
        spec_hist(ga, mass, bins, n)[b] <= live_mass(mass, n),
    decreases n,
{
    if n > 0 {
        lemma_hist_bucket_bound(ga, mass, bins, n - 1, b);
        lemma_live_mass_bound(mass, n - 1);
        if live(mass, n - 1) {
            let h = spec_hist(ga, mass, bins, n - 1);
            let key = bin_key(ga, n - 1, bins);
            lemma_hist_bucket_bound(ga, mass, bins, n - 1, key);
            assert(h[key] + mass[n - 1] <= MAX_CELLS * 0x1_0000_0000 + 0x1_0000_0000);
        }
    }
}

/// Every cell's bucket key lands inside the histogram.
proof fn lemma_hist_keys_in_range(ga: Seq<u32>, mass: Seq<u32>, bins: int, n: int)
    requires
        bins >= 1,
    ensures
        forall|i: int| 0 <= i < n ==> 0 <= #[trigger] bin_key(ga, i, bins) < bins * bins * bins,
{
    assert forall|i: int| 0 <= i < n implies 0 <= #[trigger] bin_key(ga, i, bins) < bins * bins
        * bins by {
        let rb = min_int(ga[4 * i] * bins / 16_000_000, bins - 1);
        let mb = min_int(ga[4 * i + 1] * bins / 1_000_000, bins - 1);
        let sb = min_int(ga[4 * i + 2] * bins * 10 / 3_000_000, bins - 1);
        vstd::arithmetic::div_mod::lemma_div_pos_is_pos(ga[4 * i] * bins, 16_000_000);
        vstd::arithmetic::div_mod::lemma_div_pos_is_pos(ga[4 * i + 1] * bins, 1_000_000);
        vstd::arithmetic::div_mod::lemma_div_pos_is_pos(ga[4 * i + 2] * bins * 10, 3_000_000);
        assert(ga[4 * i] * bins >= 0 && ga[4 * i + 1] * bins >= 0 && ga[4 * i + 2] * bins * 10
            >= 0) by (nonlinear_arith)
            requires
                bins >= 1,
                ga[4 * i] >= 0,
                ga[4 * i + 1] >= 0,
                ga[4 * i + 2] >= 0,
        ;
        assert(0 <= (rb * bins + mb) * bins + sb < bins * bins * bins) by (nonlinear_arith)
            requires
                0 <= rb <= bins - 1,
                0 <= mb <= bins - 1,
                0 <= sb <= bins - 1,
        ;
    }
}

/// The smaller of two values.
fn min_u64(a: u64, b: u64) -> (r: u64)
    ensures
        r == min_int(a as int, b as int),
{
    if a <= b {
        a
    } else {
        b
    }
}

// ======================== Entropy laws ========================

proof fn lemma_sum_terms_single(hist: Seq<u64>, total: u64, b: int, n: int)
    requires
        0 <= b < hist.len(),
        hist[b] == total,
        forall|j: int| 0 <= j < hist.len() && j != b ==> #[trigger] hist[j] == 0,
        0 <= n <= hist.len(),
    ensures
        sum_terms(hist, total, n) == 0,
    decreases n,
{
    if n > 0 {
        lemma_sum_terms_single(hist, total, b, n - 1);
        if n - 1 == b && total > 0 {
            assert(sat_sub(spec_log2(total as nat) as int, spec_log2(total as nat) as int) == 0);
            assert(bin_term(total, total) == total * 0);
        }
    }
}

/// Entropy law, concentrated distribution: when all live mass shares one
/// genome bucket, the entropy is exactly zero.
pub proof fn lemma_entropy_single_bin(hist: Seq<u64>, total: u64, b: int)
    requires
        0 <= b < hist.len(),
        hist[b] == total,
        total > 0,
        forall|j: int| 0 <= j < hist.len() && j != b ==> #[trigger] hist[j] == 0,
    ensures
        spec_entropy(hist, total) == 0,
{
    lemma_sum_terms_single(hist, total, b, hist.len() as int);
    vstd::arithmetic::div_mod::lemma_div_of0(total as int);
}

proof fn lemma_sum_terms_even(hist: Seq<u64>, total: u64, c: u64, n: int)
    requires
        c > 0,
        0 <= n <= hist.len(),
        forall|j: int| 0 <= j < hist.len() ==> #[trigger] hist[j] == c || hist[j] == 0,
    ensures
        sum_terms(hist, total, n) == count_occupied(hist, n) * (c as int) * sat_sub(
            spec_log2(total as nat) as int,
            spec_log2(c as nat) as int,
        ),
    decreases n,
{
    let d = sat_sub(spec_log2(total as nat) as int, spec_log2(c as nat) as int);
    if n <= 0 {
        assert(0 * (c as int) * d == 0) by (nonlinear_arith);
    }
    if n > 0 {
        lemma_sum_terms_even(hist, total, c, n - 1);
        if hist[n - 1] > 0 {
            assert(hist[n - 1] == c);
            assert(bin_term(c, total) == c * d);
            assert(count_occupied(hist, n) == count_occupied(hist, n - 1) + 1);
            assert((count_occupied(hist, n - 1) + 1) * (c as int) * d == count_occupied(hist, n - 1)
                * (c as int) * d + (c as int) * d) by (nonlinear_arith);
        }
    }
}

/// How many of the first `n` buckets are occupied.
pub open spec fn count_occupied(hist: Seq<u64>, n: int) -> int
    decreases n,
{
    if n <= 0 {
        0
    } else {
        count_occupied(hist, n - 1) + if hist[n - 1] > 0 {
            1int
        } else {
            0int
        }
    }
}

/// Entropy law, even distribution: when the live mass is split evenly, `c`
/// each, over exactly `k` occupied buckets, the entropy is exactly the
/// fixed-point `log2(k * c) - log2(c)`.
pub proof fn lemma_entropy_even_split(hist: Seq<u64>, c: u64, k: int)
    requires
        c > 0,
        k >= 1,
        count_occupied(hist, hist.len() as int) == k,
        k * c <= u64::MAX,
        forall|j: int| 0 <= j < hist.len() ==> #[trigger] hist[j] == c || hist[j] == 0,
    ensures
        spec_entropy(hist, (k * c) as u64) == sat_sub(
            spec_log2((k * c) as nat) as int,
            spec_log2(c as nat) as int,
        ),
{
    let total: u64 = (k * c) as u64;
    let d = sat_sub(spec_log2(total as nat) as int, spec_log2(c as nat) as int);
    lemma_sum_terms_even(hist, total, c, hist.len() as int);
    assert(k * (c as int) * d == d * (total as int)) by (nonlinear_arith)
        requires
            total == k * c,
    ;
    assert(total >= 1) by (nonlinear_arith)
        requires
            k >= 1,
            c >= 1,
            total == k * c,
    ;
    vstd::arithmetic::div_mod::lemma_div_by_multiple(d, total as int);
}

/// Entropy law, power-of-two splits: an even split over `2^j` buckets has
/// entropy exactly `j` whole fixed-point bits.
pub proof fn lemma_entropy_pow2_split(hist: Seq<u64>, c: u64, j: nat)
    requires
        c > 0,
        count_occupied(hist, hist.len() as int) == vstd::arithmetic::power2::pow2(j),
        vstd::arithmetic::power2::pow2(j) * c <= u64::MAX,
        forall|i: int| 0 <= i < hist.len() ==> #[trigger] hist[i] == c || hist[i] == 0,
    ensures
        spec_entropy(hist, (vstd::arithmetic::power2::pow2(j) * c) as u64) == j * 1_000_000,
{
    let k = vstd::arithmetic::power2::pow2(j) as int;
    vstd::arithmetic::power2::lemma_pow2_pos(j);
    lemma_entropy_even_split(hist, c, k);
    lemma_log2_pow2_mul(j, c as nat);
}


proof fn lemma_live_mass_at_least(mass: Seq<u32>, n: int, i: int)
    requires
        0 <= i < n,
        live(mass, i),
    ensures
        live_mass(mass, n) >= mass[i],
    decreases n,
{
    lemma_live_mass_bound(mass, i);
    if i < n - 1 {
        lemma_live_mass_at_least(mass, n - 1, i);
    }
}

proof fn lemma_hist_concentrated(ga: Seq<u32>, mass: Seq<u32>, bins: int, n: int, b: int)
    requires
        bins >= 1,
        0 <= n <= MAX_CELLS,
        0 <= b < bins * bins * bins,
        forall|i: int| 0 <= i < n && live(mass, i) ==> #[trigger] bin_key(ga, i, bins) == b,
    ensures
        spec_hist(ga, mass, bins, n).len() == bins * bins * bins,
        spec_hist(ga, mass, bins, n)[b] == live_mass(mass, n),
        forall|j: int|
            0 <= j < bins * bins * bins && j != b ==> #[trigger] spec_hist(ga, mass, bins, n)[j]
                == 0,
    decreases n,
{
    lemma_hist_keys_in_range(ga, mass, bins, n);
    lemma_hist_bucket_bound(ga, mass, bins, n, b);
    if n > 0 {
        lemma_hist_concentrated(ga, mass, bins, n - 1, b);
        lemma_live_mass_bound(mass, n - 1);
    }
}

/// Entropy law at the field level: when every live cell of the region
/// falls into one and the same genome bucket, the genetic entropy is
/// exactly zero — also when nothing is alive at all.
pub proof fn lemma_genetic_entropy_single_bin(ga: Seq<u32>, mass: Seq<u32>, bins: int, n: int)
    requires
        1 <= bins <= 32,
        0 <= n <= MAX_CELLS,
        4 * n <= ga.len(),
        n <= mass.len(),
        forall|i: int, j: int|
            0 <= i < n && 0 <= j < n && live(mass, i) && live(mass, j) ==> #[trigger] bin_key(
                ga,
                i,
                bins,
            ) == #[trigger] bin_key(ga, j, bins),
    ensures
        spec_genetic_entropy(ga, mass, bins, n) == 0,
{
    let total = live_mass(mass, n);
    lemma_live_mass_bound(mass, n);
    if exists|i: int| 0 <= i < n && live(mass, i) {
        let i0 = choose|i: int| 0 <= i < n && live(mass, i);
        lemma_hist_keys_in_range(ga, mass, bins, n);
        let b = bin_key(ga, i0, bins);
        lemma_hist_concentrated(ga, mass, bins, n, b);
        lemma_live_mass_at_least(mass, n, i0);
        lemma_entropy_single_bin(
            spec_hist(ga, mass, bins, n),
            total as u64,
            b,
        );
    } else {
        lemma_live_mass_empty(mass, n);
    }
}

proof fn lemma_live_mass_empty(mass: Seq<u32>, n: int)
    requires
        forall|i: int| 0 <= i < n ==> !live(mass, i),
    ensures
        live_mass(mass, n) <= 0,
    decreases n,
{
    if n > 0 {
        lemma_live_mass_empty(mass, n - 1);
    }
}

// ======================== Species detection ========================

/// Squared distance threshold below which two genomes are one species
/// (0.15 in normalized genome space, squared).
pub const SPECIES_THRESHOLD_SQ: u64 = 22_500_000_000;

/// Cell `i` has enough mass to count for species detection.
pub open spec fn significant(mass: Seq<u32>, i: int) -> bool {
    mass[i] > SIGNIFICANT_MASS
}

/// Genome of cell `i` normalized for comparison: radius over sixteen
/// units, growth width over three tenths, the rest as stored.
pub open spec fn norm_genome(ga: Seq<u32>, i: int) -> (int, int, int, int) {
    (ga[4 * i] as int / 16, ga[4 * i + 1] as int, ga[4 * i + 2] * 10 / 3, ga[4 * i + 3] as int)
}

/// Squared Euclidean distance in normalized genome space.
pub open spec fn gdist_sq(a: (int, int, int, int), b: (int, int, int, int)) -> int {
    (a.0 - b.0) * (a.0 - b.0) + (a.1 - b.1) * (a.1 - b.1) + (a.2 - b.2) * (a.2 - b.2) + (a.3
        - b.3) * (a.3 - b.3)
}

/// A candidate opens a new species only if it is at least the threshold
/// away from every representative accepted so far.
pub open spec fn is_new_species(g: (int, int, int, int), reps: Seq<(int, int, int, int)>) -> bool {
    forall|j: int| 0 <= j < reps.len() ==> gdist_sq(g, #[trigger] reps[j]) >= SPECIES_THRESHOLD_SQ
}

/// Greedy species representatives after scanning the first `n` cells, in
/// cell order, capped at `max`. This is a documented approximate heuristic:
/// the result depends on the scan order and is a diagnostic, not a census.
pub open spec fn spec_species_reps(ga: Seq<u32>, mass: Seq<u32>, n: int, max: int) -> Seq<
    (int, int, int, int),
>
    decreases n,
{
    if n <= 0 {
        Seq::empty()
    } else {
        let prev = spec_species_reps(ga, mass, n - 1, max);
        if prev.len() < max && significant(mass, n - 1) && is_new_species(
            norm_genome(ga, n - 1),
            prev,
        ) {
            prev.push(norm_genome(ga, n - 1))
        } else {
            prev
        }
    }
}

/// Species-count law, cap: the scan never accepts more than `max`
/// representatives.
pub proof fn lemma_species_cap(ga: Seq<u32>, mass: Seq<u32>, n: int, max: int)
    requires
        max >= 0,
    ensures
        spec_species_reps(ga, mass, n, max).len() <= max,
    decreases n,
{
    if n > 0 {
        lemma_species_cap(ga, mass, n - 1, max);
    }
}

/// Species-count law, emptiness: with no significant cell there is no
/// species.
pub proof fn lemma_species_none(ga: Seq<u32>, mass: Seq<u32>, n: int, max: int)
    requires
        forall|i: int| 0 <= i < n ==> !significant(mass, i),
    ensures
        spec_species_reps(ga, mass, n, max).len() == 0,
    decreases n,
{
    if n > 0 {
        lemma_species_none(ga, mass, n - 1, max);
    }
}

/// Square of a bounded value, exactly.
fn sq_u128(d: u64) -> (s: u128)
    requires
        d < 0x10_0000_0000,
    ensures
        s == (d as int) * (d as int),
        s < 0x100_0000_0000_0000_0000,
{
    proof {
        assert((d as int) * (d as int) < 0x100_0000_0000_0000_0000) by (nonlinear_arith)
            requires
                d < 0x10_0000_0000,
        ;
    }
    (d as u128) * (d as u128)
}

/// Squared normalized-genome distance of two candidates.
fn gdist_sq_exec(a: (u64, u64, u64, u64), b: (u64, u64, u64, u64)) -> (d: u128)
    requires
        a.0 < 0x10_0000_0000,
        a.1 < 0x10_0000_0000,
        a.2 < 0x10_0000_0000,
        a.3 < 0x10_0000_0000,
        b.0 < 0x10_0000_0000,
        b.1 < 0x10_0000_0000,
        b.2 < 0x10_0000_0000,
        b.3 < 0x10_0000_0000,
    ensures
        d == gdist_sq(
            (a.0 as int, a.1 as int, a.2 as int, a.3 as int),
            (b.0 as int, b.1 as int, b.2 as int, b.3 as int),
        ),
{
    let d0: u64 = if a.0 >= b.0 {
        a.0 - b.0
    } else {
        b.0 - a.0
    };
    let d1: u64 = if a.1 >= b.1 {
        a.1 - b.1
    } else {
        b.1 - a.1
    };
    let d2: u64 = if a.2 >= b.2 {
        a.2 - b.2
    } else {
        b.2 - a.2
    };
    let d3: u64 = if a.3 >= b.3 {
        a.3 - b.3
    } else {
        b.3 - a.3
    };
    proof {
        assert((a.0 - b.0) * (a.0 - b.0) == (d0 as int) * (d0 as int)) by (nonlinear_arith)
            requires
                d0 == a.0 - b.0 || d0 == b.0 - a.0,
        ;
        assert((a.1 - b.1) * (a.1 - b.1) == (d1 as int) * (d1 as int)) by (nonlinear_arith)
            requires
                d1 == a.1 - b.1 || d1 == b.1 - a.1,
        ;
        assert((a.2 - b.2) * (a.2 - b.2) == (d2 as int) * (d2 as int)) by (nonlinear_arith)
            requires
                d2 == a.2 - b.2 || d2 == b.2 - a.2,
        ;
        assert((a.3 - b.3) * (a.3 - b.3) == (d3 as int) * (d3 as int)) by (nonlinear_arith)
            requires
                d3 == a.3 - b.3 || d3 == b.3 - a.3,
        ;
    }
    sq_u128(d0) + sq_u128(d1) + sq_u128(d2) + sq_u128(d3)
}

/// Detect distinct species by greedy de-duplication in normalized genome
/// space, scanning cells in order and capped at `max_species`. An
/// approximation, not true clustering: the count is order-dependent and
/// meant as a stable-within-tolerance diagnostic.
pub fn detect_species(genome_a: &Vec<u32>, mass: &Vec<u32>, max_species: usize) -> (r: usize)
    requires
        genome_a@.len() == 4 * mass@.len(),
        mass@.len() <= MAX_CELLS,
    ensures
        r == spec_species_reps(
            genome_a@,
            mass@,
            mass@.len() as int,
            max_species as int,
        ).len(),
        r <= max_species,
        (forall|i: int| 0 <= i < mass@.len() ==> !significant(mass@, i)) ==> r == 0,
{
    let n = mass.len();
    let ghost maxi: int = max_species as int;
    let mut reps: Vec<(u64, u64, u64, u64)> = Vec::new();
    let mut i: usize = 0;
    while i < n
        invariant
            i <= n,
            n == mass@.len(),
            n <= MAX_CELLS,
            maxi == max_species as int,
            genome_a@.len() == 4 * n,
            reps@.len() == spec_species_reps(genome_a@, mass@, i as int, maxi).len(),
            forall|j: int|
                0 <= j < reps@.len() ==> ((#[trigger] reps@[j]).0 as int, reps@[j].1 as int,
                reps@[j].2 as int, reps@[j].3 as int) == spec_species_reps(
                    genome_a@,
                    mass@,
                    i as int,
                    maxi,
                )[j],
            forall|j: int|
                0 <= j < reps@.len() ==> (#[trigger] reps@[j]).0 < 0x10_0000_0000
                    && reps@[j].1 < 0x10_0000_0000 && reps@[j].2 < 0x10_0000_0000 && reps@[j].3
                    < 0x10_0000_0000,
        decreases n - i,
    {
        let ghost prev = spec_species_reps(genome_a@, mass@, i as int, maxi);
        if reps.len() < max_species && mass[i] > SIGNIFICANT_MASS {
            let cand: (u64, u64, u64, u64) = (
                (genome_a[4 * i] / 16) as u64,
                genome_a[4 * i + 1] as u64,
                (genome_a[4 * i + 2] as u64) * 10 / 3,
                genome_a[4 * i + 3] as u64,
            );
            proof {
                assert(cand.0 == norm_genome(genome_a@, i as int).0);
                assert(cand.2 == norm_genome(genome_a@, i as int).2);
            }
            let mut unique: bool = true;
            let mut j: usize = 0;
            while j < reps.len()
                invariant
                    j <= reps@.len(),
                    cand.0 < 0x10_0000_0000,
                    cand.1 < 0x10_0000_0000,
                    cand.2 < 0x10_0000_0000,
                    cand.3 < 0x10_0000_0000,
                    forall|jj: int|
                        0 <= jj < reps@.len() ==> (#[trigger] reps@[jj]).0 < 0x10_0000_0000
                            && reps@[jj].1 < 0x10_0000_0000 && reps@[jj].2 < 0x10_0000_0000
                            && reps@[jj].3 < 0x10_0000_0000,
                    forall|jj: int|
                        0 <= jj < reps@.len() ==> ((#[trigger] reps@[jj]).0 as int,
                        reps@[jj].1 as int, reps@[jj].2 as int, reps@[jj].3 as int) == prev[jj],
                    reps@.len() == prev.len(),
                    unique <==> (forall|jj: int|
                        0 <= jj < j ==> gdist_sq(
                            (cand.0 as int, cand.1 as int, cand.2 as int, cand.3 as int),
                            #[trigger] prev[jj],
                        ) >= SPECIES_THRESHOLD_SQ),
                decreases reps@.len() - j,
            {
                let d = gdist_sq_exec(cand, reps[j]);
                if d < SPECIES_THRESHOLD_SQ as u128 {
                    unique = false;
                }
                j = j + 1;
            }
            if unique {
                reps.push(cand);
                proof {
                    assert(is_new_species(norm_genome(genome_a@, i as int), prev));
                }
            } else {
                proof {
                    assert(!is_new_species(norm_genome(genome_a@, i as int), prev));
                }
            }
        }
        i = i + 1;
    }
    proof {
        lemma_species_cap(genome_a@, mass@, n as int, maxi);
        if forall|k: int| 0 <= k < mass@.len() ==> !significant(mass@, k) {
            lemma_species_none(genome_a@, mass@, n as int, maxi);
        }
    }
    reps.len()
}


// ======================== Genome statistics ========================

/// Mass-weighted sum of genome component `comp` over the live cells among
/// the first `n`.
pub open spec fn wsum_ga(ga: Seq<u32>, mass: Seq<u32>, comp: int, n: int) -> int
    decreases n,
{
    if n <= 0 {
        0
    } else {
        wsum_ga(ga, mass, comp, n - 1) + if live(mass, n - 1) {
            ga[4 * (n - 1) + comp] * mass[n - 1]
        } else {
            0
        }
    }
}

/// Mass-weighted sum of the mutation rate over the live cells among the
/// first `n`.
pub open spec fn wsum_gb(gb: Seq<u32>, mass: Seq<u32>, n: int) -> int
    decreases n,
{
    if n <= 0 {
        0
    } else {
        wsum_gb(gb, mass, n - 1) + if live(mass, n - 1) {
            gb[n - 1] * mass[n - 1]
        } else {
            0
        }
    }
}

/// Aggressivity above which a cell counts as a predator (0.7).
pub const PREDATOR_AGG: u32 = 700_000;

/// Mass of the live cells whose aggressivity marks them as predators.
pub open spec fn pred_mass(ga: Seq<u32>, mass: Seq<u32>, n: int) -> int
    decreases n,
{
    if n <= 0 {
        0
    } else {
        pred_mass(ga, mass, n - 1) + if live(mass, n - 1) && ga[4 * (n - 1) + 3] > PREDATOR_AGG {
            mass[n - 1] as int
        } else {
            0
        }
    }
}

/// Mass-weighted genome averages over the live cells, and the
/// mass-weighted predator fraction.
pub struct GenomeStats {
    pub avg_radius: u64,
    pub avg_mu: u64,
    pub avg_sigma: u64,
    pub avg_aggressivity: u64,
    pub avg_mutation_rate: u64,
    /// Mass fraction of live cells with aggressivity above [`PREDATOR_AGG`].
    pub predator_fraction: u32,
}

/// Mass-weighted average genome statistics over the live cells; all
/// zero when nothing is alive.
pub fn compute_genome_stats(genome_a: &Vec<u32>, genome_b: &Vec<u32>, mass: &Vec<u32>) -> (st:
    GenomeStats)
    requires
        genome_a@.len() == 4 * mass@.len(),
        genome_b@.len() == mass@.len(),
        mass@.len() <= MAX_CELLS,
    ensures
        ({
            let n = mass@.len() as int;
            let lm = live_mass(mass@, n);
            if lm == 0 {
                st == (GenomeStats {
                    avg_radius: 0,
                    avg_mu: 0,
                    avg_sigma: 0,
                    avg_aggressivity: 0,
                    avg_mutation_rate: 0,
                    predator_fraction: 0,
                })
            } else {
                &&& st.avg_radius == wsum_ga(genome_a@, mass@, 0, n) / lm
                &&& st.avg_mu == wsum_ga(genome_a@, mass@, 1, n) / lm
                &&& st.avg_sigma == wsum_ga(genome_a@, mass@, 2, n) / lm
                &&& st.avg_aggressivity == wsum_ga(genome_a@, mass@, 3, n) / lm
                &&& st.avg_mutation_rate == wsum_gb(genome_b@, mass@, n) / lm
                &&& st.predator_fraction == pred_mass(genome_a@, mass@, n) * 1_000_000 / lm
            }
        }),
{
    let n = mass.len();
    let mut lm: u64 = 0;
    let mut sum_r: u128 = 0;
    let mut sum_mu: u128 = 0;
    let mut sum_sigma: u128 = 0;
    let mut sum_agg: u128 = 0;
    let mut sum_mut: u128 = 0;
    let mut pmass: u64 = 0;
    let mut i: usize = 0;
    while i < n
        invariant
            i <= n,
            n == mass@.len(),
            n <= MAX_CELLS,
            genome_a@.len() == 4 * n,
            genome_b@.len() == n,
            lm == live_mass(mass@, i as int),
            lm <= (i as int) * 0x1_0000_0000,
            sum_r == wsum_ga(genome_a@, mass@, 0, i as int),
            sum_mu == wsum_ga(genome_a@, mass@, 1, i as int),
            sum_sigma == wsum_ga(genome_a@, mass@, 2, i as int),
            sum_agg == wsum_ga(genome_a@, mass@, 3, i as int),
            sum_mut == wsum_gb(genome_b@, mass@, i as int),
            sum_r <= (lm as int) * 0xFFFF_FFFF,
            sum_mu <= (lm as int) * 0xFFFF_FFFF,
            sum_sigma <= (lm as int) * 0xFFFF_FFFF,
            sum_agg <= (lm as int) * 0xFFFF_FFFF,
            sum_mut <= (lm as int) * 0xFFFF_FFFF,
            pmass == pred_mass(genome_a@, mass@, i as int),
            pmass <= lm,
        decreases n - i,
    {
        let m = mass[i];
        if m > LIVE_EPS {
            proof {
                assert((genome_a@[4 * (i as int)] as int) * (m as int) <= 0xFFFF_FFFF * (m as int)
                    && (genome_a@[4 * (i as int) + 1] as int) * (m as int) <= 0xFFFF_FFFF * (
                m as int) && (genome_a@[4 * (i as int) + 2] as int) * (m as int) <= 0xFFFF_FFFF * (
                m as int) && (genome_a@[4 * (i as int) + 3] as int) * (m as int) <= 0xFFFF_FFFF * (
                m as int) && (genome_b@[i as int] as int) * (m as int) <= 0xFFFF_FFFF * (m as int)
                    && 0 <= (genome_a@[4 * (i as int)] as int) * (m as int) && 0 <= (genome_a@[4 * (
                i as int) + 1] as int) * (m as int) && 0 <= (genome_a@[4 * (i as int)
                    + 2] as int) * (m as int) && 0 <= (genome_a@[4 * (i as int) + 3] as int) * (
                m as int) && 0 <= (genome_b@[i as int] as int) * (m as int)) by (nonlinear_arith)
                    requires
                        0 <= m,
                        genome_a@[4 * (i as int)] <= 0xFFFF_FFFF,
                        genome_a@[4 * (i as int) + 1] <= 0xFFFF_FFFF,
                        genome_a@[4 * (i as int) + 2] <= 0xFFFF_FFFF,
                        genome_a@[4 * (i as int) + 3] <= 0xFFFF_FFFF,
                        genome_b@[i as int] <= 0xFFFF_FFFF,
                ;
                assert(((lm as int) + m) * 0xFFFF_FFFF == (lm as int) * 0xFFFF_FFFF + (m as int)
                    * 0xFFFF_FFFF) by (nonlinear_arith);
                assert((m as int) * 0xFFFF_FFFF == 0xFFFF_FFFF * (m as int)) by (nonlinear_arith);
            }
            sum_r = sum_r + (genome_a[4 * i] as u128) * (m as u128);
            sum_mu = sum_mu + (genome_a[4 * i + 1] as u128) * (m as u128);
            sum_sigma = sum_sigma + (genome_a[4 * i + 2] as u128) * (m as u128);
            sum_agg = sum_agg + (genome_a[4 * i + 3] as u128) * (m as u128);
            sum_mut = sum_mut + (genome_b[i] as u128) * (m as u128);
            if genome_a[4 * i + 3] > PREDATOR_AGG {
                pmass = pmass + m as u64;
            }
            lm = lm + m as u64;
        }
        i = i + 1;
    }

    if lm == 0 {
        return GenomeStats {
            avg_radius: 0,
            avg_mu: 0,
            avg_sigma: 0,
            avg_aggressivity: 0,
            avg_mutation_rate: 0,
            predator_fraction: 0,
        };
    }
    proof {
        lemma_avg_fits(sum_r as int, lm as int);
        lemma_avg_fits(sum_mu as int, lm as int);
        lemma_avg_fits(sum_sigma as int, lm as int);
        lemma_avg_fits(sum_agg as int, lm as int);
        lemma_avg_fits(sum_mut as int, lm as int);
        crate::fixed::lemma_scale_le_one(1_000_000, pmass as int, lm as int);
        assert((pmass as int) * 1_000_000 == 1_000_000 * (pmass as int)) by (nonlinear_arith);
        assert((pmass as int) * 1_000_000 <= 0x1_0000_0000_0000_0000 * 1_000_000)
            by (nonlinear_arith)
            requires
                pmass < 0x1_0000_0000_0000_0000,
        ;
    }
    GenomeStats {
        avg_radius: (sum_r / lm as u128) as u64,
        avg_mu: (sum_mu / lm as u128) as u64,
        avg_sigma: (sum_sigma / lm as u128) as u64,
        avg_aggressivity: (sum_agg / lm as u128) as u64,
        avg_mutation_rate: (sum_mut / lm as u128) as u64,
        predator_fraction: ((pmass as u128) * 1_000_000 / (lm as u128)) as u32,
    }
}

/// A mass-weighted sum divided by its mass stays within one component.
proof fn lemma_avg_fits(sum: int, lm: int)
    requires
        0 <= sum,
        1 <= lm,
        sum <= lm * 0xFFFF_FFFF,
    ensures
        sum / lm <= 0xFFFF_FFFF,
{
    vstd::arithmetic::div_mod::lemma_div_is_ordered(sum, lm * 0xFFFF_FFFF, lm);
    assert(lm * 0xFFFF_FFFF == 0xFFFF_FFFF * lm) by (nonlinear_arith);
    vstd::arithmetic::div_mod::lemma_div_by_multiple(0xFFFF_FFFF, lm);
}


// ======================== Whole-snapshot diagnostics ========================

use crate::world::BufferSnapshot;
use crate::fixed::isqrt;

/// Sum of all mass words among the first `n` cells.
pub open spec fn sum_mass(mass: Seq<u32>, n: int) -> int
    decreases n,
{
    if n <= 0 {
        0
    } else {
        sum_mass(mass, n - 1) + mass[n - 1]
    }
}

/// How many of the first `n` cells are alive.
pub open spec fn live_count(mass: Seq<u32>, n: int) -> int
    decreases n,
{
    if n <= 0 {
        0
    } else {
        live_count(mass, n - 1) + if live(mass, n - 1) {
            1int
        } else {
            0int
        }
    }
}

/// Largest mass word among the first `n` cells.
pub open spec fn spec_max_mass(mass: Seq<u32>, n: int) -> int
    decreases n,
{
    if n <= 0 {
        0
    } else if mass[n - 1] > spec_max_mass(mass, n - 1) {
        mass[n - 1] as int
    } else {
        spec_max_mass(mass, n - 1)
    }
}

/// Energy of the live cells among the first `n`.
pub open spec fn live_energy_sum(mass: Seq<u32>, energy: Seq<u32>, n: int) -> int
    decreases n,
{
    if n <= 0 {
        0
    } else {
        live_energy_sum(mass, energy, n - 1) + if live(mass, n - 1) {
            energy[n - 1] as int
        } else {
            0
        }
    }
}

/// Least energy of a live cell among the first `n`; one whole unit when
/// nothing is alive.
pub open spec fn spec_min_live_energy(mass: Seq<u32>, energy: Seq<u32>, n: int) -> int
    decreases n,
{
    if n <= 0 {
        1_000_000
    } else {
        let m = spec_min_live_energy(mass, energy, n - 1);
        if live(mass, n - 1) && energy[n - 1] < m {
            energy[n - 1] as int
        } else {
            m
        }
    }
}

/// Energy at or below which a live cell is starving (0.01).
pub const STARVING_EPS: u32 = 10_000;

/// How many live cells among the first `n` are starving.
pub open spec fn starving_count(mass: Seq<u32>, energy: Seq<u32>, n: int) -> int
    decreases n,
{
    if n <= 0 {
        0
    } else {
        starving_count(mass, energy, n - 1) + if live(mass, n - 1) && energy[n - 1] <= STARVING_EPS {
            1int
        } else {
            0int
        }
    }
}

/// Resource level below which a cell counts as depleted (0.1).
pub const DEPLETED_EPS: u32 = 100_000;

/// Sum of the resource words among the first `n` cells.
pub open spec fn sum_resource(res: Seq<u32>, n: int) -> int
    decreases n,
{
    if n <= 0 {
        0
    } else {
        sum_resource(res, n - 1) + res[n - 1]
    }
}

/// Least resource word among the first `n` cells; one whole unit on an
/// empty prefix.
pub open spec fn spec_min_resource(res: Seq<u32>, n: int) -> int
    decreases n,
{
    if n <= 0 {
        1_000_000
    } else {
        let m = spec_min_resource(res, n - 1);
        if res[n - 1] < m {
            res[n - 1] as int
        } else {
            m
        }
    }
}

/// How many of the first `n` cells are depleted.
pub open spec fn depleted_count(res: Seq<u32>, n: int) -> int
    decreases n,
{
    if n <= 0 {
        0
    } else {
        depleted_count(res, n - 1) + if res[n - 1] < DEPLETED_EPS {
            1int
        } else {
            0int
        }
    }
}

/// Sum of squared deviations of the first `n` mass words from `mean`.
pub open spec fn var_sum(mass: Seq<u32>, n: int, mean: int) -> int
    decreases n,
{
    if n <= 0 {
        0
    } else {
        var_sum(mass, n - 1, mean) + (mass[n - 1] - mean) * (mass[n - 1] - mean)
    }
}

/// Complete diagnostics record over one snapshot, all in fixed point.
pub struct SimDiagnostics {
    pub total_mass: u64,
    pub live_pixels: u64,
    pub live_fraction: u32,
    pub max_mass: u32,
    pub avg_mass_live: u64,
    pub avg_energy: u64,
    pub min_energy_live: u32,
    pub starving_fraction: u32,
    pub avg_resource: u64,
    pub min_resource: u32,
    pub depleted_fraction: u32,
    pub genetic_entropy: u64,
    pub species_count: usize,
    pub genome_stats: GenomeStats,
    pub mass_std_dev: u64,
}

/// Genome bins per axis used by the entropy diagnostic.
pub const ENTROPY_BINS: usize = 10;

/// Species cap used by the species diagnostic.
pub const MAX_SPECIES: usize = 20;

impl SimDiagnostics {
    /// Compute the full diagnostics record from a host-side snapshot.
    pub fn from_snapshot(snap: &BufferSnapshot) -> (d: SimDiagnostics)
        requires
            snap.wf(),
        ensures
            ({
                let n = snap.mass@.len() as int;
                let lc = live_count(snap.mass@, n);
                let lm = live_mass(snap.mass@, n);
                &&& d.total_mass == sum_mass(snap.mass@, n)
                &&& d.live_pixels == lc
                &&& d.live_fraction == lc * 1_000_000 / n
                &&& d.max_mass == spec_max_mass(snap.mass@, n)
                &&& d.avg_mass_live == (if lc > 0 {
                    lm / lc
                } else {
                    0int
                })
                &&& d.avg_energy == (if lc > 0 {
                    live_energy_sum(snap.mass@, snap.energy@, n) / lc
                } else {
                    0int
                })
                &&& d.min_energy_live == spec_min_live_energy(snap.mass@, snap.energy@, n)
                &&& d.starving_fraction == (if lc > 0 {
                    starving_count(snap.mass@, snap.energy@, n) * 1_000_000 / lc
                } else {
                    0int
                })
                &&& d.avg_resource == sum_resource(snap.resource@, n) / n
                &&& d.min_resource == spec_min_resource(snap.resource@, n)
                &&& d.depleted_fraction == depleted_count(snap.resource@, n) * 1_000_000 / n
                &&& d.genetic_entropy == spec_genetic_entropy(
                    snap.genome_a@,
                    snap.mass@,
                    ENTROPY_BINS as int,
                    n,
                )
                &&& d.species_count == spec_species_reps(
                    snap.genome_a@,
                    snap.mass@,
                    n,
                    MAX_SPECIES as int,
                ).len()
                &&& (if lm == 0 {
                    d.genome_stats == (GenomeStats {
                        avg_radius: 0,
                        avg_mu: 0,
                        avg_sigma: 0,
                        avg_aggressivity: 0,
                        avg_mutation_rate: 0,
                        predator_fraction: 0,
                    })
                } else {
                    &&& d.genome_stats.avg_radius == wsum_ga(snap.genome_a@, snap.mass@, 0, n)
                        / lm
                    &&& d.genome_stats.avg_mu == wsum_ga(snap.genome_a@, snap.mass@, 1, n) / lm
                    &&& d.genome_stats.avg_sigma == wsum_ga(snap.genome_a@, snap.mass@, 2, n)
                        / lm
                    &&& d.genome_stats.avg_aggressivity == wsum_ga(
                        snap.genome_a@,
                        snap.mass@,
                        3,
                        n,
                    ) / lm
                    &&& d.genome_stats.avg_mutation_rate == wsum_gb(
                        snap.genome_b@,
                        snap.mass@,
                        n,
                    ) / lm
                    &&& d.genome_stats.predator_fraction == pred_mass(
                        snap.genome_a@,
                        snap.mass@,
                        n,
                    ) * 1_000_000 / lm
                })
                &&& (d.mass_std_dev * d.mass_std_dev <= var_sum(snap.mass@, n, sum_mass(
                    snap.mass@,
                    n,
                ) / n) / n < (d.mass_std_dev + 1) * (d.mass_std_dev + 1))
            }),
    {
        let n = snap.mass.len();
        proof {
            assert(snap.mass@.len() >= 1) by (nonlinear_arith)
                requires
                    snap.mass@.len() == (snap.width as int) * (snap.height as int),
                    snap.width >= 1,
                    snap.height >= 1,
            ;
        }

        // Population and energy, one pass.
        let mut total: u64 = 0;
        let mut livec: u64 = 0;
        let mut maxm: u32 = 0;
        let mut lmass: u64 = 0;
        let mut esum: u64 = 0;
        let mut emin: u32 = 1_000_000;
        let mut starving: u64 = 0;
        let mut i: usize = 0;
        while i < n
            invariant
                i <= n,
                n == snap.mass@.len(),
                n <= MAX_CELLS,
                snap.energy@.len() == n,
                total == sum_mass(snap.mass@, i as int),
                total <= (i as int) * 0xFFFF_FFFF,
                livec == live_count(snap.mass@, i as int),
                livec <= i,
                maxm == spec_max_mass(snap.mass@, i as int),
                lmass == live_mass(snap.mass@, i as int),
                lmass <= (i as int) * 0x1_0000_0000,
                esum == live_energy_sum(snap.mass@, snap.energy@, i as int),
                esum <= (i as int) * 0x1_0000_0000,
                emin == spec_min_live_energy(snap.mass@, snap.energy@, i as int),
                starving == starving_count(snap.mass@, snap.energy@, i as int),
                starving <= livec,
            decreases n - i,
        {
            let m = snap.mass[i];
            total = total + m as u64;
            if m > maxm {
                maxm = m;
            }
            if m > LIVE_EPS {
                livec = livec + 1;
                lmass = lmass + m as u64;
                let e = snap.energy[i];
                esum = esum + e as u64;
                if e < emin {
                    emin = e;
                }
                if e <= STARVING_EPS {
                    starving = starving + 1;
                }
            }
            i = i + 1;
        }

        // Spatial deviation of mass from its mean.
        proof {
            assert((n as int) * 0xFFFF_FFFF < 0x1_0000_0000 * (n as int)) by (nonlinear_arith)
                requires
                    n >= 1,
            ;
            assert((i as int) * 0xFFFF_FFFF <= (n as int) * 0xFFFF_FFFF) by (nonlinear_arith)
                requires
                    i <= n,
            ;
            lemma_div_below(total as int, 0x1_0000_0000, n as int);
        }
        let mean: u64 = total / n as u64;
        let mut vsum: u128 = 0;
        let mut j: usize = 0;
        while j < n
            invariant
                j <= n,
                n == snap.mass@.len(),
                n <= MAX_CELLS,
                mean < 0x1_0000_0000,
                vsum == var_sum(snap.mass@, j as int, mean as int),
                vsum <= (j as int) * 0xFFFF_FFFE_0000_0001,
            decreases n - j,
        {
            let m = snap.mass[j] as u64;
            let dev: u64 = if m >= mean {
                m - mean
            } else {
                mean - m
            };
            proof {
                assert((m - mean) * (m - mean) == (dev as int) * (dev as int)) by (nonlinear_arith)
                    requires
                        dev == m - mean || dev == mean - m,
                ;
                assert((dev as int) * (dev as int) <= 0xFFFF_FFFE_0000_0001) by (nonlinear_arith)
                    requires
                        dev < 0x1_0000_0000,
                ;
            }
            vsum = vsum + (dev as u128) * (dev as u128);
            j = j + 1;
        }
        proof {
            assert((n as int) * 0xFFFF_FFFE_0000_0001 < 0x1_0000_0000_0000_0000 * (n as int))
                by (nonlinear_arith)
                requires
                    n >= 1,
            ;
            lemma_div_below(vsum as int, 0x1_0000_0000_0000_0000, n as int);
        }
        let std: u64 = isqrt((vsum / n as u128) as u64);

        // Resource landscape.
        let mut rsum: u64 = 0;
        let mut rmin: u32 = 1_000_000;
        let mut depleted: u64 = 0;
        let mut k: usize = 0;
        while k < n
            invariant
                k <= n,
                n == snap.resource@.len(),
                n <= MAX_CELLS,
                rsum == sum_resource(snap.resource@, k as int),
                rsum <= (k as int) * 0x1_0000_0000,
                rmin == spec_min_resource(snap.resource@, k as int),
                depleted == depleted_count(snap.resource@, k as int),
                depleted <= k,
            decreases n - k,
        {
            let r = snap.resource[k];
            rsum = rsum + r as u64;
            if r < rmin {
                rmin = r;
            }
            if r < DEPLETED_EPS {
                depleted = depleted + 1;
            }
            k = k + 1;
        }

        let entropy = compute_genetic_entropy(&snap.genome_a, &snap.mass, ENTROPY_BINS);
        let species = detect_species(&snap.genome_a, &snap.mass, MAX_SPECIES);
        let stats = compute_genome_stats(&snap.genome_a, &snap.genome_b, &snap.mass);

        proof {
            crate::fixed::lemma_scale_le_one(1_000_000, livec as int, n as int);
            assert((livec as int) * 1_000_000 == 1_000_000 * (livec as int)) by (nonlinear_arith);
            if livec > 0 {
                crate::fixed::lemma_scale_le_one(1_000_000, starving as int, livec as int);
                assert((starving as int) * 1_000_000 == 1_000_000 * (starving as int))
                    by (nonlinear_arith);
            }
            crate::fixed::lemma_scale_le_one(1_000_000, depleted as int, n as int);
            assert((depleted as int) * 1_000_000 == 1_000_000 * (depleted as int))
                by (nonlinear_arith);
        }
        let live_fraction: u32 = (livec * 1_000_000 / n as u64) as u32;
        let avg_mass_live: u64 = if livec > 0 {
            lmass / livec
        } else {
            0
        };
        let avg_energy: u64 = if livec > 0 {
            esum / livec
        } else {
            0
        };
        let starving_fraction: u32 = if livec > 0 {
            (starving * 1_000_000 / livec) as u32
        } else {
            0
        };
        let avg_resource: u64 = rsum / n as u64;
        let depleted_fraction: u32 = (depleted * 1_000_000 / n as u64) as u32;

        SimDiagnostics {
            total_mass: total,
            live_pixels: livec,
            live_fraction,
            max_mass: maxm,
            avg_mass_live,
            avg_energy,
            min_energy_live: emin,
            starving_fraction,
            avg_resource,
            min_resource: rmin,
            depleted_fraction,
            genetic_entropy: entropy,
            species_count: species,
            genome_stats: stats,
            mass_std_dev: std,
        }
    }
}

} // verus!
