//! Toroidal grid addressing: every coordinate pair, however far outside the
//! nominal `width x height` window, names exactly one cell, because both axes
//! wrap at the edges.

use vstd::prelude::*;

verus! {

/// Mathematical (Euclidean) wrap of a coordinate into `[0, m)`.
pub open spec fn wrap_coord(v: int, m: int) -> int {
    v % m
}

/// Row-major index of the cell named by `(x, y)` on a toroidal grid.
pub open spec fn spec_pixel_idx(x: int, y: int, w: int, h: int) -> int {
    wrap_coord(y, h) * w + wrap_coord(x, w)
}

/// Wraps one signed coordinate into `[0, m)`.
///
/// Negative inputs are folded as `v = -1 - p`, which avoids both signed
/// remainder semantics and overflow at `i64::MIN`.
pub fn wrap_axis(v: i64, m: u32) -> (r: u32)
    requires
        m >= 1,
    ensures
        r == wrap_coord(v as int, m as int),
        r < m,
{
    let mm = v as i128;
    let md = m as i128;
    if v >= 0 {
        let r = (mm % md) as u32;
        proof {
            vstd::arithmetic::div_mod::lemma_mod_bound(v as int, m as int);
        }
        r
    } else {
        // v == -1 - p with p >= 0; then v mod m == m - 1 - (p mod m).
        let p = (-1 - mm) as u64;
        let pm = (p % (m as u64)) as u32;
        proof {
            vstd::arithmetic::div_mod::lemma_mod_bound(p as int, m as int);
            lemma_neg_wrap(p as int, m as int);
        }
        m - 1 - pm
    }
}

/// For `p >= 0` and `m > 0`: `(-1 - p) mod m == m - 1 - (p mod m)`.
proof fn lemma_neg_wrap(p: int, m: int)
    requires
        p >= 0,
        m > 0,
    ensures
        (-1 - p) % m == m - 1 - (p % m),
{
    let q = p / m;
    let r = p % m;
    vstd::arithmetic::div_mod::lemma_fundamental_div_mod(p, m);
    vstd::arithmetic::div_mod::lemma_mod_bound(p, m);
    assert(-1 - p == (-1 - q) * m + (m - 1 - r)) by (nonlinear_arith)
        requires
            p == q * m + r,
    ;
    vstd::arithmetic::div_mod::lemma_fundamental_div_mod_converse_mod(
        -1 - p,
        m,
        -1 - q,
        m - 1 - r,
    );
}

/// Row-major cell index for `(x, y)` with toroidal wrap-around on both axes.
pub fn pixel_idx(x: i64, y: i64, width: u32, height: u32) -> (idx: usize)
    requires
        width >= 1,
        height >= 1,
        width * height <= usize::MAX,
    ensures
        idx == spec_pixel_idx(x as int, y as int, width as int, height as int),
        idx < width * height,
{
    let wx = wrap_axis(x, width);
    let wy = wrap_axis(y, height);
    proof {
        assert(wy * width + wx < width * height) by (nonlinear_arith)
            requires
                wx < width,
                wy < height,
                width >= 1,
        ;
    }
    (wy as u64 * width as u64 + wx as u64) as usize
}

/// Toroidal addressing law: shifting a coordinate by a whole grid period,
/// on either axis, names the same cell.
pub proof fn lemma_pixel_idx_toroidal(x: int, y: int, w: int, h: int)
    requires
        w > 0,
        h > 0,
    ensures
        spec_pixel_idx(x + w, y, w, h) == spec_pixel_idx(x, y, w, h),
        spec_pixel_idx(x, y + h, w, h) == spec_pixel_idx(x, y, w, h),
{
    vstd::arithmetic::div_mod::lemma_mod_add_multiples_vanish(x, w);
    vstd::arithmetic::div_mod::lemma_mod_add_multiples_vanish(y, h);
}

} // verus!
