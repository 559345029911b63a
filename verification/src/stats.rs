//! Fixed-point arithmetic for movie statistics.
//!
//! The popularity score blends a movie's average rating with the volume of
//! its ratings: average (in thousandths) times a fixed-point approximation
//! of the natural logarithm of (count + 1), in thousandths of a nat-log
//! unit. The logarithm is approximated piecewise-linearly between powers of
//! two, exact at each power of two.

use vstd::prelude::*;
use vstd::arithmetic::power2::*;

verus! {

/// Floor of the base-two logarithm.
pub open spec fn spec_log2_floor(m: nat) -> nat
    decreases m,
{
    if m < 2 {
        0
    } else {
        1 + spec_log2_floor(m / 2)
    }
}

/// `pow2(spec_log2_floor(m)) <= m` for positive `m`, and the floor is below
/// 128 for values that fit in a `u128`.
proof fn lemma_log2_floor_bounds(m: nat)
    requires
        m >= 1,
    ensures
        pow2(spec_log2_floor(m)) <= m,
        m < pow2(spec_log2_floor(m) + 1),
    decreases m,
{
    reveal(pow2);
    if m < 2 {
        lemma2_to64();
    } else {
        lemma_log2_floor_bounds(m / 2);
        let k = spec_log2_floor(m / 2);
        lemma_pow2_unfold(k + 1);
        lemma_pow2_unfold(k + 2);
        assert(pow2(k + 1) == 2 * pow2(k));
        assert(pow2(k + 2) == 2 * pow2(k + 1));
    }
}

/// Floor of the base-two logarithm, by repeated halving.
fn log2_floor_u128(m: u128) -> (k: u64)
    requires
        1 <= m <= 0x10000000000000000,
    ensures
        k == spec_log2_floor(m as nat),
        k <= 64,
{
    let mut x: u128 = m;
    let mut k: u64 = 0;
    proof {
        lemma_log2_floor_fits_u64(m as nat);
    }
    while x >= 2
        invariant
            1 <= x <= m <= 0x10000000000000000,
            spec_log2_floor(m as nat) == k + spec_log2_floor(x as nat),
            spec_log2_floor(m as nat) <= 64,
        decreases x,
    {
        proof {
            assert(spec_log2_floor(x as nat) == 1 + spec_log2_floor((x / 2) as nat));
        }
        x = x / 2;
        k = k + 1;
    }
    proof {
        assert(spec_log2_floor(x as nat) == 0);
    }
    k
}

/// `pow2` as an executable value, for small exponents.
fn pow2_u128(k: u64) -> (p: u128)
    requires
        k <= 64,
    ensures
        p == pow2(k as nat),
{
    let mut p: u128 = 1;
    let mut i: u64 = 0;
    proof {
        lemma2_to64();
    }
    while i < k
        invariant
            i <= k <= 64,
            p == pow2(i as nat),
        decreases k - i,
    {
        proof {
            if (i as nat) < 64 {
                lemma_pow2_strictly_increases(i as nat, 64);
            }
            lemma2_to64_rest();
            lemma_pow2_unfold((i + 1) as nat);
        }
        p = p * 2;
        i = i + 1;
    }
    p
}

/// Fixed-point approximation of `ln(count + 1)`, in thousandths: linear
/// between consecutive powers of two and exact at each power of two.
pub open spec fn spec_ln1p_milli(count: nat) -> int {
    let m = count + 1;
    let k = spec_log2_floor(m);
    693 * k + (m - pow2(k)) * 693 / (pow2(k) as int)
}

/// Computes `spec_ln1p_milli`; zero exactly when `count` is zero.
pub fn ln1p_milli(count: u64) -> (r: u64)
    ensures
        r == spec_ln1p_milli(count as nat),
        r == 0 <==> count == 0,
{
    let m: u128 = count as u128 + 1;
    let k: u64 = log2_floor_u128(m);
    let p: u128 = pow2_u128(k);
    proof {
        lemma_log2_floor_bounds(m as nat);
        lemma_pow2_pos(k as nat);
        lemma_pow2_unfold(k as nat + 1);
        assert(m < 2 * p);
    }
    let frac: u128 = ((m - p) * 693) / p;
    proof {
        assert((m - p) * 693 / (p as int) < 693 * 2) by (nonlinear_arith)
            requires
                p >= 1,
                0 <= (m - p) < p,
        ;
        if count > 0 {
            assert(m >= 2);
            assert(spec_log2_floor(m as nat) >= 1);
        }
    }
    let r: u64 = (693 * (k as u128) + frac) as u64;
    r
}

/// `m < pow2(65)` holds for `m = count + 1` with a `u64` count, so the
/// floor logarithm stays below 65.
proof fn lemma_log2_floor_fits_u64(m: nat)
    requires
        1 <= m <= 0x10000000000000000,
    ensures
        spec_log2_floor(m) <= 64,
{
    lemma_log2_floor_bounds(m);
    lemma2_to64();
    if spec_log2_floor(m) >= 65 {
        lemma_pow2_strictly_increases(64, spec_log2_floor(m));
        assert(pow2(64) == 0x10000000000000000);
    }
}

/// Upper bound for averages produced from `u32` rating values: the largest
/// rating value in tenths, times one hundred.
pub const MAX_AVG_MILLI: u64 = 429496729500;

/// Popularity of a movie: average rating (thousandths) times the
/// fixed-point `ln(count + 1)` (thousandths), rescaled to thousandths.
pub open spec fn spec_popularity(avg_milli: u64, rating_count: u32) -> int {
    avg_milli * spec_ln1p_milli(rating_count as nat) / 1000
}

/// Computes `spec_popularity`. The average bound is what any average of
/// `u32` rating values satisfies; it keeps the product inside `u64`.
pub fn compute_popularity_score(avg_milli: u64, rating_count: u32) -> (r: u64)
    requires
        avg_milli <= MAX_AVG_MILLI,
    ensures
        r == spec_popularity(avg_milli, rating_count),
{
    let l: u64 = ln1p_milli(rating_count as u64);
    proof {
        lemma_ln1p_small(rating_count as nat);
        assert(avg_milli * l <= MAX_AVG_MILLI * 46000) by (nonlinear_arith)
            requires
                avg_milli <= MAX_AVG_MILLI,
                0 <= l <= 46000,
        ;
    }
    let prod: u128 = (avg_milli as u128) * (l as u128);
    (prod / 1000) as u64
}

/// `ln(count + 1)` in thousandths stays well under 46000 for `u32` counts.
proof fn lemma_ln1p_small(count: nat)
    requires
        count < 0x100000000,
    ensures
        spec_ln1p_milli(count) <= 46000,
{
    let m = count + 1;
    lemma_log2_floor_bounds(m);
    lemma2_to64();
    if spec_log2_floor(m) >= 33 {
        lemma_pow2_strictly_increases(32, spec_log2_floor(m));
        assert(pow2(32) == 0x100000000);
    }
    let k = spec_log2_floor(m);
    lemma_pow2_pos(k);
    assert((m - pow2(k)) * 693 / (pow2(k) as int) <= 693 * 2) by (nonlinear_arith)
        requires
            pow2(k) >= 1,
            (m - pow2(k)) < 2 * pow2(k),
    ;
}

} // verus!
