//! Integer facts that the pixel arithmetic and the grid indexing rest on.

use vstd::prelude::*;
use vstd::arithmetic::div_mod::{
    lemma_fundamental_div_mod, lemma_fundamental_div_mod_converse, lemma_mod_bound,
};
use vstd::arithmetic::power2::{
    lemma2_to64, lemma2_to64_rest, lemma_pow2_pos, lemma_pow2_strictly_increases,
    lemma_pow2_unfold, pow2,
};

verus! {

/// A quotient is known once the dividend is caught between two multiples.
pub proof fn lemma_floor_is(x: int, d: int, q: int)
    requires
        d > 0,
        q * d <= x < q * d + d,
    ensures
        x / d == q,
{
    lemma_fundamental_div_mod_converse(x, d, q, x - q * d);
}

/// The quotient sits between the two multiples that catch the dividend.
pub proof fn lemma_floor_bounds(x: int, d: int)
    requires
        d > 0,
    ensures
        (x / d) * d <= x < (x / d) * d + d,
{
    lemma_fundamental_div_mod(x, d);
    lemma_mod_bound(x, d);
    assert(d * (x / d) == (x / d) * d) by (nonlinear_arith);
}

/// Rounding down may be done in two steps: `(n + c * big) / (d * big)` is
/// `(c + n / big) / d`.
pub proof fn lemma_floor_of_floor(n: int, c: int, big: int, d: int)
    requires
        big > 0,
        d > 0,
    ensures
        d * big > 0,
        (n + c * big) / (d * big) == (c + n / big) / d,
{
    let inner = n / big;
    let rest = n - inner * big;
    lemma_floor_bounds(n, big);
    let s = c + inner;
    let q = s / d;
    let left = s - q * d;
    lemma_floor_bounds(s, d);
    assert(d * big > 0) by (nonlinear_arith)
        requires d > 0, big > 0;
    assert(n + c * big == q * (d * big) + (left * big + rest)) by (nonlinear_arith)
        requires s == c + inner, rest == n - inner * big, left == s - q * d;
    assert(0 <= left * big + rest < d * big) by (nonlinear_arith)
        requires 0 <= left < d, 0 <= rest < big;
    lemma_floor_is(n + c * big, d * big, q);
}

/// The cell in column `x` of row `y` of a grid `w` wide is cell `y * w + x`
/// in reading order, and the other way round.
pub proof fn lemma_grid_index(x: int, y: int, w: int)
    requires
        0 <= x < w,
    ensures
        (y * w + x) / w == y,
        (y * w + x) % w == x,
{
    lemma_fundamental_div_mod_converse(y * w + x, w, y, x);
}

/// Every cell of a `w` by `h` grid has its number below `w * h`.
pub proof fn lemma_grid_bound(x: int, y: int, w: int, h: int)
    requires
        0 <= x < w,
        0 <= y < h,
    ensures
        0 <= y * w <= y * w + x < w * h,
        y * w + w <= w * h,
{
    assert(0 <= y * w && y * w + w <= w * h) by (nonlinear_arith)
        requires 0 <= y < h, 0 < w;
}

/// Every number below `w * h` is a cell of the `w` by `h` grid.
pub proof fn lemma_grid_cell(k: int, w: int, h: int)
    requires
        0 <= k < w * h,
        0 <= w,
        0 <= h,
    ensures
        w > 0,
        0 <= k % w < w,
        0 <= k / w < h,
        (k / w) * w + k % w == k,
{
    assert(w > 0) by (nonlinear_arith)
        requires 0 <= k < w * h, 0 <= w;
    lemma_floor_bounds(k, w);
    lemma_fundamental_div_mod(k, w);
    lemma_mod_bound(k, w);
    let q = k / w;
    assert(0 <= q < h) by (nonlinear_arith)
        requires q * w <= k < q * w + w, 0 <= k < w * h, w > 0;
    assert(w * q == q * w) by (nonlinear_arith);
}

/// Powers of two grow with the exponent; the largest one used here is `2^62`.
pub proof fn lemma_pow2_up_to_62(k: nat)
    requires
        k <= 62,
    ensures
        1 <= pow2(k) <= 0x4000_0000_0000_0000,
{
    lemma2_to64_rest();
    lemma_pow2_pos(k);
    if k < 62 {
        lemma_pow2_strictly_increases(k, 62);
    }
}

/// Computes a power of two that fits in 63 bits.
pub fn power_of_two(k: u32) -> (p: i64)
    requires
        k <= 62,
    ensures
        p == pow2(k as nat),
        1 <= p <= 0x4000_0000_0000_0000,
{
    let mut p: i64 = 1;
    let mut i: u32 = 0;
    proof {
        lemma2_to64();
    }
    while i < k
        invariant
            i <= k <= 62,
            p == pow2(i as nat),
        decreases k - i,
    {
        proof {
            lemma_pow2_unfold((i + 1) as nat);
            lemma_pow2_up_to_62((i + 1) as nat);
        }
        p = p * 2;
        i = i + 1;
    }
    proof {
        lemma_pow2_up_to_62(k as nat);
    }
    p
}

} // verus!
