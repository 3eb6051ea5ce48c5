//! Fixed-point numeric kernel. All engine quantities are integers scaled by
//! [`crate::FIX_ONE`] (millionths); the helpers here give the generator and
//! the diagnostics the square roots, falloff curves and waves they need,
//! with proved ranges.

use vstd::prelude::*;

verus! {

use crate::FIX_ONE;
use vstd::arithmetic::div_mod::{lemma_div_is_ordered, lemma_div_by_multiple};

/// Half of a full turn, in fixed-point turn units.
pub const HALF_TURN: u32 = 500_000;

/// Quarter of a full turn, in fixed-point turn units.
pub const QUARTER_TURN: u32 = 250_000;

/// Scaling a value by a factor of at most one (in `den` units) cannot
/// increase it: `a * num / den <= a`.
pub proof fn lemma_scale_le_one(a: int, num: int, den: int)
    requires
        0 <= a,
        0 <= num <= den,
        0 < den,
    ensures
        a * num / den <= a,
{
    assert(a * num <= a * den) by (nonlinear_arith)
        requires
            0 <= a,
            num <= den,
    ;
    lemma_div_is_ordered(a * num, a * den, den);
    lemma_div_by_multiple(a, den);
}

/// A quotient stays below `bound` while the dividend is below `bound * d`.
pub proof fn lemma_div_below(x: int, bound: int, d: int)
    requires
        0 <= x,
        0 < bound,
        0 < d,
        x < bound * d,
    ensures
        x / d < bound,
{
    lemma_div_is_ordered(x, bound * d - 1, d);
    assert((bound - 1) * d == bound * d - d) by (nonlinear_arith);
    vstd::arithmetic::div_mod::lemma_fundamental_div_mod_converse_div(
        bound * d - 1,
        d,
        bound - 1,
        d - 1,
    );
}

/// A quotient is at least `bound` once the dividend reaches `bound * d`.
pub proof fn lemma_div_at_least(x: int, bound: int, d: int)
    requires
        0 <= bound,
        0 < d,
        bound * d <= x,
    ensures
        x / d >= bound,
{
    lemma_div_is_ordered(bound * d, x, d);
    lemma_div_by_multiple(bound, d);
}

/// Integer square root: the greatest `r` with `r * r <= x`.
pub fn isqrt(x: u64) -> (r: u64)
    ensures
        r * r <= x,
        x < (r + 1) * (r + 1),
{
    let mut lo: u64 = 0;
    let mut hi: u64 = 0xFFFF_FFFF;
    if x < 0xFFFF_FFFF {
        hi = x;
    }
    proof {
        assert(x < (0xFFFF_FFFFu64 + 1) * (0xFFFF_FFFFu64 + 1)) by (nonlinear_arith);
        assert(x < 0xFFFF_FFFF ==> x < (x + 1) * (x + 1)) by (nonlinear_arith);
    }
    while lo < hi
        invariant
            lo <= hi,
            hi <= 0xFFFF_FFFF,
            lo * lo <= x,
            x < (hi + 1) * (hi + 1),
        decreases hi - lo,
    {
        let mid: u64 = lo + (hi - lo + 1) / 2;
        proof {
            assert((mid as int) * (mid as int) <= 0xFFFF_FFFF * 0xFFFF_FFFFint)
                by (nonlinear_arith)
                requires
                    mid <= 0xFFFF_FFFF,
            ;
        }
        let sq: u128 = (mid as u128) * (mid as u128);
        if sq <= x as u128 {
            lo = mid;
        } else {
            hi = mid - 1;
        }
    }
    lo
}

/// Series head of the decaying exponential at a small argument `y`:
/// the first three terms of the power series for `e^(-y)`.
pub open spec fn exp_series(y: int) -> int {
    1_000_000 - y + y * y / 2_000_000
}

/// `k` fixed-point squarings of a unit-range value.
pub open spec fn exp_squares(a: int, k: nat) -> int
    decreases k,
{
    if k == 0 {
        a
    } else {
        exp_squares(a * a / 1_000_000, (k - 1) as nat)
    }
}

/// Decaying exponential `e^(-x)` in fixed point: the series head at
/// `x / 1024` raised to the 1024th power by ten squarings; arguments of
/// sixteen whole units or more flush to zero.
pub open spec fn spec_exp_neg(x: nat) -> int {
    if x >= 16_000_000 {
        0
    } else {
        exp_squares(exp_series((x as int) / 1024), 10)
    }
}

/// Squaring keeps a unit-range value in range.
proof fn lemma_exp_squares_range(a: int, k: nat)
    requires
        0 <= a <= 1_000_000,
    ensures
        0 <= exp_squares(a, k) <= 1_000_000,
    decreases k,
{
    if k > 0 {
        vstd::arithmetic::div_mod::lemma_div_pos_is_pos(a * a, 1_000_000);
        assert(a * a >= 0) by (nonlinear_arith)
            requires
                a >= 0,
        ;
        lemma_scale_le_one(a, a, 1_000_000);
        lemma_exp_squares_range(a * a / 1_000_000, (k - 1) as nat);
    }
}

/// Squaring preserves order on unit-range values.
proof fn lemma_exp_squares_mono(a1: int, a2: int, k: nat)
    requires
        0 <= a1 <= a2 <= 1_000_000,
    ensures
        exp_squares(a1, k) <= exp_squares(a2, k),
    decreases k,
{
    if k > 0 {
        assert(a1 * a1 <= a2 * a2 && a1 * a1 >= 0) by (nonlinear_arith)
            requires
                0 <= a1 <= a2,
        ;
        lemma_div_is_ordered(a1 * a1, a2 * a2, 1_000_000);
        vstd::arithmetic::div_mod::lemma_div_pos_is_pos(a1 * a1, 1_000_000);
        lemma_scale_le_one(a2, a2, 1_000_000);
        lemma_exp_squares_mono(a1 * a1 / 1_000_000, a2 * a2 / 1_000_000, (k - 1) as nat);
    }
}

/// The series head stays within one unit and decreases with its argument.
proof fn lemma_exp_series_shape(y1: int, y2: int)
    requires
        0 <= y1 <= y2 <= 1_000_000,
    ensures
        0 <= exp_series(y2) <= exp_series(y1) <= 1_000_000,
{
    lemma_scale_le_one(y1, y1, 2_000_000);
    lemma_scale_le_one(y2, y2, 2_000_000);
    vstd::arithmetic::div_mod::lemma_div_pos_is_pos(y1 * y1, 2_000_000);
    vstd::arithmetic::div_mod::lemma_div_pos_is_pos(y2 * y2, 2_000_000);
    assert(y1 * y1 >= 0 && y2 * y2 >= 0 && y2 * y2 <= y1 * y1 + (y2 - y1) * 2_000_000)
        by (nonlinear_arith)
        requires
            0 <= y1 <= y2 <= 1_000_000,
    ;
    lemma_div_is_ordered(y2 * y2, y1 * y1 + (y2 - y1) * 2_000_000, 2_000_000);
    vstd::arithmetic::div_mod::lemma_hoist_over_denominator(y1 * y1, y2 - y1, 2_000_000nat);
}

/// Decay law: the exponential falloff never increases with its argument.
pub proof fn lemma_exp_neg_antitone(x1: nat, x2: nat)
    requires
        x1 <= x2,
    ensures
        0 <= spec_exp_neg(x2) <= spec_exp_neg(x1) <= 1_000_000,
{
    let y1 = (x1 as int) / 1024;
    let y2 = (x2 as int) / 1024;
    vstd::arithmetic::div_mod::lemma_div_pos_is_pos(x1 as int, 1024);
    vstd::arithmetic::div_mod::lemma_div_pos_is_pos(x2 as int, 1024);
    lemma_div_below(15_999_999, 15_625, 1024);
    if x1 < 16_000_000 {
        lemma_div_is_ordered(x1 as int, 15_999_999, 1024);
        lemma_exp_series_shape(0, y1);
        lemma_exp_squares_range(exp_series(y1), 10);
    }
    if x2 < 16_000_000 {
        lemma_div_is_ordered(x1 as int, x2 as int, 1024);
        lemma_div_is_ordered(x2 as int, 15_999_999, 1024);
        lemma_exp_series_shape(y1, y2);
        lemma_exp_squares_range(exp_series(y2), 10);
        lemma_exp_squares_mono(exp_series(y2), exp_series(y1), 10);
    }
}

/// Compute the decaying exponential `e^(-x)` for a fixed-point argument.
pub fn exp_neg(x: u64) -> (r: u64)
    ensures
        r == spec_exp_neg(x as nat),
        r <= FIX_ONE,
        x == 0 ==> r == FIX_ONE,
{
    if x >= 16 * (FIX_ONE as u64) {
        return 0;
    }
    let y: u64 = x / 1024;
    proof {
        vstd::arithmetic::div_mod::lemma_fundamental_div_mod(x as int, 1024);
        vstd::arithmetic::div_mod::lemma_mod_bound(x as int, 1024);
        assert(y <= 15625);
        assert(y * y <= 15625 * 15625) by (nonlinear_arith)
            requires
                y <= 15625,
        ;
        lemma_scale_le_one(y as int, y as int, 2 * (FIX_ONE as int));
    }
    let correction: u64 = y * y / (2 * (FIX_ONE as u64));
    let mut a: u64 = FIX_ONE as u64 - y + correction;
    proof {
        assert(a == exp_series(y as int));
    }
    let mut i: u32 = 0;
    while i < 10
        invariant
            a <= FIX_ONE,
            x == 0 ==> a == FIX_ONE,
            i <= 10,
            spec_exp_neg(x as nat) == exp_squares(a as int, (10 - i) as nat),
        decreases 10 - i,
    {
        proof {
            lemma_scale_le_one(a as int, a as int, FIX_ONE as int);
            assert(exp_squares(a as int, (10 - i) as nat) == exp_squares(
                (a as int) * (a as int) / 1_000_000,
                (10 - (i + 1)) as nat,
            ));
        }
        a = a * a / (FIX_ONE as u64);
        i = i + 1;
    }
    a
}

/// The rational half-turn arc of the sine approximation at phase
/// `p` within `[0, HALF_TURN]`.
pub open spec fn sin_half(p: int) -> int {
    16 * (p * (500_000 - p)) * 1_000_000 / (5 * (500_000 * 500_000) - 4 * (p * (500_000 - p)))
}

/// Sine over fixed-point turns: the rational arc on the first half-turn,
/// its mirror image below zero on the second.
pub open spec fn spec_sin_turns(t: nat) -> int {
    let u = (t % 1_000_000) as int;
    if u < 500_000 {
        sin_half(u)
    } else {
        -sin_half(u - 500_000)
    }
}

/// The half-turn arc stays within one unit and vanishes at both ends.
pub proof fn lemma_sin_half_range(p: int)
    requires
        0 <= p <= 500_000,
    ensures
        0 <= sin_half(p) <= 1_000_000,
        p == 0 || p == 500_000 ==> sin_half(p) == 0,
{
    let arch = p * (500_000 - p);
    assert(0 <= 4 * arch <= 500_000 * 500_000) by (nonlinear_arith)
        requires
            0 <= p <= 500_000,
            arch == p * (500_000 - p),
    ;
    vstd::arithmetic::div_mod::lemma_div_pos_is_pos(
        16 * arch * 1_000_000,
        5 * (500_000 * 500_000) - 4 * arch,
    );
    assert(16 * arch * 1_000_000 >= 0 && 16 * arch * 1_000_000 == 1_000_000 * (16 * arch))
        by (nonlinear_arith)
        requires
            arch >= 0,
    ;
    lemma_scale_le_one(1_000_000, 16 * arch, 5 * (500_000 * 500_000) - 4 * arch);
    if p == 0 || p == 500_000 {
        assert(arch == 0) by (nonlinear_arith)
            requires
                p == 0 || 500_000 - p == 0,
                arch == p * (500_000 - p),
        ;
        vstd::arithmetic::div_mod::lemma_div_of0(5 * (500_000 * 500_000int));
    }
}

/// Sign law: the sine is nonnegative on the first half-turn and
/// nonpositive on the second.
pub proof fn lemma_sin_turns_sign(t: nat)
    ensures
        t % 1_000_000 < 500_000 ==> spec_sin_turns(t) >= 0,
        t % 1_000_000 >= 500_000 ==> spec_sin_turns(t) <= 0,
        spec_sin_turns(t) <= 1_000_000,
        spec_sin_turns(t) >= -1_000_000,
{
    let u = (t % 1_000_000) as int;
    vstd::arithmetic::div_mod::lemma_mod_bound(t as int, 1_000_000);
    if u < 500_000 {
        lemma_sin_half_range(u);
    } else {
        lemma_sin_half_range(u - 500_000);
    }
}

/// Peak law: the sine reaches exactly one whole unit at the quarter turn.
pub proof fn lemma_sin_turns_peak()
    ensures
        spec_sin_turns(250_000) == 1_000_000,
{
    vstd::arithmetic::div_mod::lemma_small_mod(250_000, 1_000_000);
    assert(250_000int * (500_000 - 250_000) == 62_500_000_000);
    assert(16 * 62_500_000_000 * 1_000_000int == 1_000_000_000_000_000_000);
    assert(5 * (500_000 * 500_000int) - 4 * 62_500_000_000 == 1_000_000_000_000);
    assert(1_000_000_000_000_000_000int == 1_000_000 * 1_000_000_000_000) by (nonlinear_arith);
    vstd::arithmetic::div_mod::lemma_div_by_multiple(1_000_000, 1_000_000_000_000);
}

/// Antisymmetry law: shifting the phase by a half-turn negates the sine.
pub proof fn lemma_sin_turns_antisymmetric(t: nat)
    ensures
        spec_sin_turns((t + 500_000) as nat) == -spec_sin_turns(t),
{
    let u = (t % 1_000_000) as int;
    vstd::arithmetic::div_mod::lemma_mod_bound(t as int, 1_000_000);
    vstd::arithmetic::div_mod::lemma_add_mod_noop(t as int, 500_000, 1_000_000);
    vstd::arithmetic::div_mod::lemma_small_mod(500_000nat, 1_000_000nat);
    if u < 500_000 {
        vstd::arithmetic::div_mod::lemma_small_mod((u + 500_000) as nat, 1_000_000nat);
        assert((t + 500_000) % 1_000_000 == u + 500_000);
    } else {
        vstd::arithmetic::div_mod::lemma_fundamental_div_mod_converse_mod(
            u + 500_000,
            1_000_000,
            1,
            u - 500_000,
        );
        assert((t + 500_000) % 1_000_000 == u - 500_000);
    }
}

/// Compute the sine over fixed-point turns (a full circle is `FIX_ONE`
/// units), via the classical rational approximation on each half-turn.
/// The result lies in `[-FIX_ONE, FIX_ONE]` and is exactly 0 at whole
/// half-turns.
pub fn sin_turns(t: u64) -> (r: i64)
    ensures
        r == spec_sin_turns(t as nat),
        -(FIX_ONE as int) <= r <= FIX_ONE as int,
        t % (FIX_ONE as u64) == 0 ==> r == 0,
{
    let u: u64 = t % (FIX_ONE as u64);
    let (p, neg): (u64, bool) = if u < HALF_TURN as u64 {
        (u, false)
    } else {
        (u - HALF_TURN as u64, true)
    };
    let h: u64 = HALF_TURN as u64;
    proof {
        assert(4 * (p * (h - p)) <= h * h) by (nonlinear_arith)
            requires
                p <= h,
        ;
    }
    let arch: u64 = p * (h - p);
    let num: u64 = 16 * arch;
    let den: u64 = 5 * (h * h) - 4 * arch;
    proof {
        lemma_scale_le_one(FIX_ONE as int, num as int, den as int);
        assert((FIX_ONE as int) * (num as int) == (num as int) * (FIX_ONE as int))
            by (nonlinear_arith);
    }
    let mag: u64 = num * (FIX_ONE as u64) / den;
    proof {
        assert(num * (FIX_ONE as u64) == 16 * ((p as int) * (500_000 - p)) * 1_000_000)
            by (nonlinear_arith)
            requires
                p <= 500_000,
                arch == p * (h - p),
                num == 16 * arch,
                h == 500_000,
        ;
        assert(mag == sin_half(p as int));
        if t % (FIX_ONE as u64) == 0 {
            assert(p == 0);
            assert(arch == 0) by (nonlinear_arith)
                requires
                    p == 0,
                    arch == p * (h - p),
            ;
            vstd::arithmetic::div_mod::lemma_div_of0(den as int);
        }
    }
    if neg {
        -(mag as i64)
    } else {
        mag as i64
    }
}

/// Compute the cosine over fixed-point turns, as the sine a quarter turn
/// ahead. The result lies in `[-FIX_ONE, FIX_ONE]`.
pub fn cos_turns(t: u64) -> (r: i64)
    ensures
        r == spec_sin_turns(((t % (FIX_ONE as u64)) + QUARTER_TURN) as nat),
        -(FIX_ONE as int) <= r <= FIX_ONE as int,
{
    sin_turns((t % (FIX_ONE as u64)) + QUARTER_TURN as u64)
}

// ======================== Fixed-point base-2 logarithm ========================

/// Mantissa normalization from below: doubles `x` until it reaches
/// `[2^32, 2^33)`, returning the mantissa and the number of doublings.
pub open spec fn norm_up(x: nat) -> (nat, nat)
    decreases (if x < 0x1_0000_0000 {
        0x1_0000_0000 - x
    } else {
        0int
    }),
{
    if x == 0 {
        (0, 0)
    } else if x >= 0x1_0000_0000 {
        (x, 0)
    } else {
        let (v, e) = norm_up(2 * x);
        (v, e + 1)
    }
}

/// Mantissa normalization from above: halves `x` until it falls below
/// `2^33`, returning the mantissa and the number of halvings.
pub open spec fn norm_down(x: nat) -> (nat, nat)
    decreases x,
{
    if x < 0x2_0000_0000 {
        (x, 0)
    } else {
        let (v, e) = norm_down(x / 2);
        (v, e + 1)
    }
}

/// Mantissa in `[2^32, 2^33)` and whole-bit exponent of `x >= 1`.
pub open spec fn lg_norm(x: nat) -> (nat, nat) {
    if x < 0x1_0000_0000 {
        let (v, e) = norm_up(x);
        (v, (32 - e) as nat)
    } else {
        let (v, e) = norm_down(x);
        (v, (32 + e) as nat)
    }
}

/// The first `k` fractional bits of `log2` of a mantissa in `[2^32, 2^33)`,
/// by repeated squaring.
pub open spec fn frac_bits(v: nat, k: nat) -> nat
    decreases k,
{
    if k == 0 {
        0
    } else {
        let w = (v * v) / 0x1_0000_0000;
        if w >= 0x2_0000_0000 {
            vstd::arithmetic::power2::pow2((k - 1) as nat) + frac_bits(w / 2, (k - 1) as nat)
        } else {
            frac_bits(w, (k - 1) as nat)
        }
    }
}

/// Base-2 logarithm of `x >= 1` in fixed-point units: the whole bits exact,
/// plus twenty binary fractional bits rescaled to millionths.
pub open spec fn spec_log2(x: nat) -> nat {
    let (v, m) = lg_norm(x);
    m * 1_000_000 + frac_bits(v, 20) * 1_000_000 / 0x10_0000
}

proof fn lemma_norm_up_shape(x: nat)
    requires
        1 <= x < 0x1_0000_0000,
    ensures
        0x1_0000_0000 <= norm_up(x).0 < 0x2_0000_0000,
        1 <= norm_up(x).1 <= 32,
        norm_up(x).0 == x * vstd::arithmetic::power2::pow2(norm_up(x).1),
        norm_up(2 * x).0 == norm_up(x).0,
        2 * x < 0x1_0000_0000 ==> norm_up(2 * x).1 + 1 == norm_up(x).1,
        2 * x >= 0x1_0000_0000 ==> norm_up(x) == (2 * x, 1nat),
    decreases 0x1_0000_0000 - x,
{
    vstd::arithmetic::power2::lemma2_to64();
    vstd::arithmetic::power2::lemma2_to64_rest();
    if 2 * x >= 0x1_0000_0000 {
        assert(norm_up(2 * x) == (2 * x, 0nat));
        assert(2 * x == x * vstd::arithmetic::power2::pow2(1)) by (nonlinear_arith)
            requires
                vstd::arithmetic::power2::pow2(1) == 2,
        ;
    } else {
        lemma_norm_up_shape(2 * x);
        let e2 = norm_up(2 * x).1;
        let v = norm_up(2 * x).0;
        vstd::arithmetic::power2::lemma_pow2_unfold((e2 + 1) as nat);
        assert(v == x * vstd::arithmetic::power2::pow2((e2 + 1) as nat)) by (nonlinear_arith)
            requires
                v == (2 * x) * vstd::arithmetic::power2::pow2(e2),
                vstd::arithmetic::power2::pow2((e2 + 1) as nat) == 2
                    * vstd::arithmetic::power2::pow2(e2),
        ;
        if e2 + 1 > 32 {
            if e2 + 1 > 33 {
                vstd::arithmetic::power2::lemma_pow2_strictly_increases(33, (e2 + 1) as nat);
            }
            assert(vstd::arithmetic::power2::pow2((e2 + 1) as nat) <= v) by (nonlinear_arith)
                requires
                    x >= 1,
                    v == x * vstd::arithmetic::power2::pow2((e2 + 1) as nat),
                    vstd::arithmetic::power2::pow2((e2 + 1) as nat) >= 0,
            ;
            assert(false);
        }
    }
}

proof fn lemma_norm_down_shape(x: nat)
    requires
        x >= 0x1_0000_0000,
    ensures
        0x1_0000_0000 <= norm_down(x).0 < 0x2_0000_0000,
        norm_down(2 * x).0 == norm_down(x).0,
        norm_down(2 * x).1 == norm_down(x).1 + 1,
    decreases x,
{
    if x < 0x2_0000_0000 {
        assert(norm_down(x) == (x, 0nat));
        assert((2 * x) / 2 == x);
        assert(norm_down(2 * x) == (x, 1nat));
    } else {
        lemma_norm_down_shape(x / 2);
        assert((2 * x) / 2 == x);
        assert(norm_down(2 * x).0 == norm_down(x).0);
    }
}

/// Doubling adds exactly one whole unit to the fixed-point logarithm.
pub proof fn lemma_log2_double(x: nat)
    requires
        x >= 1,
    ensures
        spec_log2(2 * x) == 1_000_000 + spec_log2(x),
{
    if x >= 0x1_0000_0000 {
        lemma_norm_down_shape(x);
    } else if 2 * x >= 0x1_0000_0000 {
        lemma_norm_up_shape(x);
        assert(norm_up(x) == (2 * x, 1nat));
        assert(norm_down(2 * x) == (2 * x, 0nat));
    } else {
        lemma_norm_up_shape(x);
        lemma_norm_up_shape(2 * x);
    }
}

/// Scaling by a power of two shifts the fixed-point logarithm by exactly
/// that many whole units.
pub proof fn lemma_log2_pow2_mul(j: nat, x: nat)
    requires
        x >= 1,
    ensures
        spec_log2(vstd::arithmetic::power2::pow2(j) * x) == j * 1_000_000 + spec_log2(x),
    decreases j,
{
    vstd::arithmetic::power2::lemma_pow2_pos(j);
    if j == 0 {
        vstd::arithmetic::power2::lemma2_to64();
        assert(vstd::arithmetic::power2::pow2(0) * x == x) by (nonlinear_arith)
            requires
                vstd::arithmetic::power2::pow2(0) == 1,
        ;
    } else {
        let p = vstd::arithmetic::power2::pow2((j - 1) as nat);
        vstd::arithmetic::power2::lemma_pow2_pos((j - 1) as nat);
        vstd::arithmetic::power2::lemma_pow2_unfold(j);
        lemma_log2_pow2_mul((j - 1) as nat, x);
        assert(p * x >= 1) by (nonlinear_arith)
            requires
                p >= 1,
                x >= 1,
        ;
        lemma_log2_double(p * x);
        assert(vstd::arithmetic::power2::pow2(j) * x == 2 * (p * x)) by (nonlinear_arith)
            requires
                vstd::arithmetic::power2::pow2(j) == 2 * p,
        ;
    }
}

/// Compute the fixed-point base-2 logarithm of `x >= 1`.
pub fn log2_fix(x: u64) -> (r: u64)
    requires
        x >= 1,
    ensures
        r == spec_log2(x as nat),
        r <= 64_000_000,
{
    let mut v: u64 = x;
    let mut m: u64 = 0;
    if x < 0x1_0000_0000 {
        let mut e: u64 = 0;
        while v < 0x1_0000_0000
            invariant
                1 <= v,
                v <= 0x1_FFFF_FFFF,
                x >= 1,
                norm_up(x as nat) == (norm_up(v as nat).0, (norm_up(v as nat).1 + e) as nat),
                e <= 32,
            decreases 0x2_0000_0000 - v,
        {
            proof {
                if 2 * v < 0x1_0000_0000 {
                    lemma_norm_up_shape(v as nat);
                } else {
                    assert(norm_up(2 * v as nat) == (2 * v as nat, 0nat));
                }
                lemma_norm_up_shape(x as nat);
            }
            v = 2 * v;
            e = e + 1;
        }
        proof {
            assert(norm_up(v as nat) == (v as nat, 0nat));
            lemma_norm_up_shape(x as nat);
        }
        m = 32 - e;
    } else {
        let mut e: u64 = 0;
        proof {
            vstd::arithmetic::power2::lemma2_to64();
        }
        while v >= 0x2_0000_0000
            invariant
                v >= 0x1_0000_0000,
                x < 0x1_0000_0000_0000_0000,
                norm_down(x as nat) == (norm_down(v as nat).0, (norm_down(v as nat).1 + e) as nat),
                (v as nat) * vstd::arithmetic::power2::pow2(e as nat) <= x as nat,
                e <= 31,
            decreases v,
        {
            proof {
                assert(norm_down(v as nat) == (norm_down((v / 2) as nat).0, norm_down(
                    (v / 2) as nat,
                ).1 + 1));
                vstd::arithmetic::power2::lemma_pow2_unfold((e + 1) as nat);
                vstd::arithmetic::div_mod::lemma_fundamental_div_mod(v as int, 2);
                vstd::arithmetic::div_mod::lemma_mod_bound(v as int, 2);
                assert(((v as int) / 2) * (2 * vstd::arithmetic::power2::pow2(e as nat) as int)
                    <= (v as int) * vstd::arithmetic::power2::pow2(e as nat) as int)
                    by (nonlinear_arith)
                    requires
                        ((v as int) / 2) * 2 <= v as int,
                        vstd::arithmetic::power2::pow2(e as nat) >= 0,
                ;
                // e stays small: 2^33 * 2^e <= v' * 2^(e + 1) <= x < 2^64.
                if e >= 31 {
                    vstd::arithmetic::power2::lemma2_to64_rest();
                    vstd::arithmetic::power2::lemma_pow2_adds(33, 31);
                    vstd::arithmetic::power2::lemma_pow2_pos(e as nat);
                    assert(0x2_0000_0000 * vstd::arithmetic::power2::pow2(e as nat) as int <= ((
                    v as int) / 2) * (2 * vstd::arithmetic::power2::pow2(e as nat) as int))
                        by (nonlinear_arith)
                        requires
                            (v as int) / 2 >= 0x1_0000_0000,
                            vstd::arithmetic::power2::pow2(e as nat) >= 1,
                    ;
                    assert(false);
                }
            }
            v = v / 2;
            e = e + 1;
        }
        proof {
            assert(norm_down(v as nat) == (v as nat, 0nat));
        }
        m = 32 + e;
    }
    proof {
        assert(lg_norm(x as nat) == (v as nat, m as nat));
    }

    // Twenty fractional bits by repeated squaring of the mantissa.
    let ghost v0: nat = v as nat;
    let mut acc: u64 = 0;
    let mut k: u64 = 0;
    proof {
        vstd::arithmetic::power2::lemma_pow2_pos(0);
    }
    while k < 20
        invariant
            k <= 20,
            0x1_0000_0000 <= v < 0x2_0000_0000,
            acc < vstd::arithmetic::power2::pow2(k as nat),
            frac_bits(v0, 20) == acc * vstd::arithmetic::power2::pow2((20 - k) as nat)
                + frac_bits(v as nat, (20 - k) as nat),
        decreases 20 - k,
    {
        proof {
            vstd::arithmetic::power2::lemma2_to64();
            if k + 1 < 20 {
                vstd::arithmetic::power2::lemma_pow2_strictly_increases((k + 1) as nat, 20);
            }
            assert((v as int) * (v as int) < 0x4_0000_0000_0000_0000) by (nonlinear_arith)
                requires
                    v < 0x2_0000_0000,
            ;
            assert((v as int) * (v as int) >= 0x1_0000_0000_0000_0000) by (nonlinear_arith)
                requires
                    v >= 0x1_0000_0000,
            ;
            lemma_div_at_least((v as int) * (v as int), 0x1_0000_0000, 0x1_0000_0000);
            lemma_div_below((v as int) * (v as int), 0x4_0000_0000, 0x1_0000_0000);
            vstd::arithmetic::power2::lemma_pow2_unfold((20 - k) as nat);
            vstd::arithmetic::power2::lemma_pow2_unfold((k + 1) as nat);
        }
        let w: u64 = ((v as u128) * (v as u128) / 0x1_0000_0000) as u64;
        if w >= 0x2_0000_0000 {
            proof {
                let kk: nat = (20 - k) as nat;
                assert(frac_bits(v as nat, kk) == vstd::arithmetic::power2::pow2((kk - 1) as nat)
                    + frac_bits((w / 2) as nat, (kk - 1) as nat));
                assert((2 * acc + 1) * vstd::arithmetic::power2::pow2((kk - 1) as nat) == acc * (2
                    * vstd::arithmetic::power2::pow2((kk - 1) as nat))
                    + vstd::arithmetic::power2::pow2((kk - 1) as nat)) by (nonlinear_arith);
            }
            v = w / 2;
            acc = 2 * acc + 1;
        } else {
            proof {
                let kk: nat = (20 - k) as nat;
                assert(frac_bits(v as nat, kk) == frac_bits(w as nat, (kk - 1) as nat));
                assert((2 * acc) * vstd::arithmetic::power2::pow2((kk - 1) as nat) == acc * (2
                    * vstd::arithmetic::power2::pow2((kk - 1) as nat))) by (nonlinear_arith);
            }
            v = w;
            acc = 2 * acc;
        }
        k = k + 1;
    }
    proof {
        vstd::arithmetic::power2::lemma2_to64();
        assert((acc as int) * vstd::arithmetic::power2::pow2(0) as int == acc as int)
            by (nonlinear_arith)
            requires
                vstd::arithmetic::power2::pow2(0) == 1,
        ;
        assert(frac_bits(v0, 20) == acc);
        lemma_div_below((acc as int) * 1_000_000, 1_000_000, 0x10_0000);
    }
    m * 1_000_000 + acc * 1_000_000 / 0x10_0000
}

} // verus!
