//! Fixed-point scalars.
//!
//! Every coordinate, colour channel and ray parameter in the library is a
//! signed 64-bit integer carrying `SCALE` sub-units per whole unit, so all
//! arithmetic is exact integer arithmetic and every rounding step is the
//! truncating division written in the contracts.

use vstd::prelude::*;

verus! {

/// Sub-units per whole unit.
pub const SCALE: i64 = 65536;

/// The value one.
pub const ONE: i64 = 65536;

/// Largest magnitude allowed for a world coordinate or matrix entry.
pub const COORD_MAX: i64 = 0x4000_0000;

/// Largest magnitude accepted by the scalar operations; roomy enough for
/// dot products and quadratic coefficients built from world coordinates.
pub const OP_MAX: i64 = 0x80_0000_0000_0000;

/// A fixed-point scalar: `SCALE` sub-units per whole unit.
pub type Fx = i64;

/// Magnitude of an integer.
pub open spec fn sabs(x: int) -> int {
    if x >= 0 {
        x
    } else {
        -x
    }
}

/// Truncating division (rounding toward zero) by a positive divisor.
pub open spec fn tdiv(n: int, d: int) -> int
    recommends
        d > 0,
{
    if n >= 0 {
        n / d
    } else {
        -((-n) / d)
    }
}

/// The fixed-point product: the exact integer product scaled back down,
/// rounded toward zero.
pub open spec fn fx_mul_spec(a: int, b: int) -> int {
    tdiv(a * b, SCALE as int)
}

/// The fixed-point quotient: magnitudes are divided after scaling the
/// dividend up, rounding toward zero, and the usual sign rule applies.
pub open spec fn fx_div_spec(a: int, b: int) -> int
    recommends
        b != 0,
{
    let q = (sabs(a) * SCALE) / sabs(b);
    if (a >= 0) == (b >= 0) {
        q
    } else {
        -q
    }
}

/// The integer square root: the unique `r` with `r * r <= n < (r + 1) * (r + 1)`.
pub open spec fn is_isqrt(n: int, r: int) -> bool {
    0 <= r && r * r <= n && n < (r + 1) * (r + 1)
}

/// The integer square root as a function, for use in contracts.
pub open spec fn sqrt_floor(n: int) -> int {
    choose|r: int| is_isqrt(n, r)
}

/// The integer square root is unique, so any witness equals `sqrt_floor`.
pub proof fn lemma_isqrt_unique(n: int, r: int)
    requires
        is_isqrt(n, r),
    ensures
        r == sqrt_floor(n),
{
    assert(is_isqrt(n, sqrt_floor(n))) by {
        assert(exists|q: int| is_isqrt(n, q));
    }
    let c = sqrt_floor(n);
    assert(r == c) by (nonlinear_arith)
        requires
            is_isqrt(n, r),
            is_isqrt(n, c),
    ;
}

/// Division of a nonnegative value by a positive one never grows it.
pub proof fn lemma_div_le(n: int, d: int)
    by (nonlinear_arith)
    requires
        n >= 0,
        d > 0,
    ensures
        0 <= n / d <= n,
{
}

pub open spec fn fits_op(x: int) -> bool {
    -OP_MAX <= x <= OP_MAX
}

/// Magnitude of a scalar, as an unsigned value.
pub fn iabs64(a: i64) -> (r: u64)
    requires
        a != i64::MIN,
    ensures
        r == sabs(a as int),
{
    if a < 0 {
        (-a) as u64
    } else {
        a as u64
    }
}

proof fn lemma_abs_mul(a: int, b: int)
    by (nonlinear_arith)
    ensures
        sabs(a) * sabs(b) == sabs(a * b),
        (a * b >= 0) == ((a >= 0) == (b >= 0)) || a * b == 0,
{
}

proof fn lemma_div_nonneg(n: int, d: int)
    by (nonlinear_arith)
    requires
        n >= 0,
        d > 0,
    ensures
        0 <= n / d <= n,
{
}

/// Fixed-point multiplication.
pub fn fx_mul(a: i64, b: i64) -> (r: i64)
    requires
        fits_op(a as int),
        fits_op(b as int),
        sabs(a as int) * sabs(b as int) <= OP_MAX * SCALE,
    ensures
        r == fx_mul_spec(a as int, b as int),
{
    let na: u128 = iabs64(a) as u128;
    let nb: u128 = iabs64(b) as u128;
    proof {
        lemma_abs_mul(a as int, b as int);
        lemma_div_nonneg(sabs(a as int) * sabs(b as int), SCALE as int);
        lemma_div_le_factor(sabs(a as int) * sabs(b as int), SCALE as int, OP_MAX as int);
        assert(0 <= sabs(a as int) * sabs(b as int)) by (nonlinear_arith);
    }
    let q: u128 = (na * nb) / (SCALE as u128);
    let neg: bool = (a < 0) != (b < 0);
    proof {
        assert(q == sabs(a * b) / (SCALE as int));
    }
    if neg {
        proof {
            if a * b >= 0 {
                assert(a * b == 0 || !((a >= 0) == (b >= 0)));
                if a * b != 0 {
                    assert((a < 0) != (b < 0) && a * b > 0);
                    assert(false) by (nonlinear_arith)
                        requires
                            (a as int) * (b as int) > 0,
                            ((a as int) < 0) != ((b as int) < 0),
                    ;
                }
            }
        }
        -(q as i64)
    } else {
        proof {
            if a * b < 0 {
                assert(false) by (nonlinear_arith)
                    requires
                        (a as int) * (b as int) < 0,
                        !(((a as int) < 0) != ((b as int) < 0)),
                ;
            }
        }
        q as i64
    }
}

/// Fixed-point division, rounding toward zero.
pub fn fx_div(a: i64, b: i64) -> (r: i64)
    requires
        b != 0,
        fits_op(a as int),
        fits_op(b as int),
        sabs(a as int) * SCALE <= OP_MAX * sabs(b as int),
    ensures
        r == fx_div_spec(a as int, b as int),
{
    let na: u128 = (iabs64(a) as u128) * (SCALE as u128);
    let nb: u128 = iabs64(b) as u128;
    proof {
        assert(sabs(a as int) * SCALE <= OP_MAX * SCALE) by (nonlinear_arith)
            requires
                fits_op(a as int),
        ;
        lemma_div_nonneg(sabs(a as int) * SCALE, sabs(b as int));
        lemma_div_le_factor(sabs(a as int) * SCALE, sabs(b as int), OP_MAX as int);
    }
    let q: u128 = na / nb;
    let neg: bool = (a < 0) != (b < 0);
    if neg {
        -(q as i64)
    } else {
        q as i64
    }
}

pub proof fn lemma_div_le_factor(n: int, d: int, k: int)
    by (nonlinear_arith)
    requires
        n >= 0,
        d > 0,
        k >= 0,
        n <= k * d,
    ensures
        n / d <= k,
{
}

/// Integer square root of a 128-bit value, by binary search.
pub fn isqrt_u128(n: u128) -> (r: u64)
    requires
        n < 0x4000_0000_0000_0000_0000_0000_0000_0000,
    ensures
        is_isqrt(n as int, r as int),
{
    // invariant: lo * lo <= n, and n < hi * hi
    let mut lo: u64 = 0;
    let mut hi: u64 = 0x8000_0000_0000_0000;
    proof {
        assert((0x8000_0000_0000_0000 as int) * (0x8000_0000_0000_0000 as int)
            == 0x4000_0000_0000_0000_0000_0000_0000_0000) by (nonlinear_arith);
    }
    while lo + 1 < hi
        invariant
            lo < hi,
            hi <= 0x8000_0000_0000_0000,
            (lo as int) * (lo as int) <= n as int,
            (n as int) < (hi as int) * (hi as int),
        decreases hi - lo,
    {
        let mid: u64 = lo + (hi - lo) / 2;
        proof {
            assert(lo < mid < hi) by (nonlinear_arith)
                requires
                    mid == lo + (hi - lo) / 2,
                    lo + 1 < hi,
            ;
            assert((mid as int) * (mid as int) < 0x1_0000_0000_0000_0000_0000_0000_0000_0000)
                by (nonlinear_arith)
                requires
                    mid < 0x8000_0000_0000_0000,
            ;
        }
        let sq: u128 = (mid as u128) * (mid as u128);
        if sq <= n {
            lo = mid;
        } else {
            hi = mid;
        }
    }
    lo
}

/// Fixed-point square root: the integer square root of the value scaled up
/// once more, so the result is again a fixed-point scalar.
pub fn fx_sqrt(x: i64) -> (r: i64)
    requires
        0 <= x,
    ensures
        0 <= r,
        is_isqrt(x * SCALE, r as int),
        r == sqrt_floor(x * SCALE),
{
    proof {
        assert((x as int) * SCALE < 0x4000_0000_0000_0000_0000_0000_0000_0000) by (nonlinear_arith)
            requires
                0 <= x <= i64::MAX,
        ;
    }
    let n: u128 = (x as u128) * (SCALE as u128);
    let r = isqrt_u128(n);
    proof {
        assert(r < 0x8000_0000_0000) by (nonlinear_arith)
            requires
                (r as int) * (r as int) <= (x as int) * SCALE,
                0 <= x <= i64::MAX,
                SCALE == 65536,
        ;
        lemma_isqrt_unique(x * SCALE, r as int);
    }
    r as i64
}

/// The smaller of two scalars.
pub fn fx_min(a: i64, b: i64) -> (r: i64)
    ensures
        r == if a <= b { a as int } else { b as int },
{
    if a <= b {
        a
    } else {
        b
    }
}

/// The larger of two scalars.
pub fn fx_max(a: i64, b: i64) -> (r: i64)
    ensures
        r == if a >= b { a as int } else { b as int },
{
    if a >= b {
        a
    } else {
        b
    }
}


/// Multiplying by a positive divisor and truncating back is the identity.
pub proof fn lemma_tdiv_mul_cancel(k: int, d: int)
    by (nonlinear_arith)
    requires
        d > 0,
    ensures
        tdiv(k * d, d) == k,
{
}


/// Truncating division of a wide intermediate by a positive divisor.
pub fn tdiv_i128_pos(n: i128, d: i128) -> (r: i128)
    requires
        d > 0,
        -0x100_0000_0000_0000_0000_0000_0000_0000 <= n <= 0x100_0000_0000_0000_0000_0000_0000_0000,
    ensures
        r == tdiv(n as int, d as int),
        sabs(r as int) <= sabs(n as int),
{
    let neg = n < 0;
    let m: u128 = if neg {
        (-n) as u128
    } else {
        n as u128
    };
    let q = m / (d as u128);
    proof {
        lemma_div_le(m as int, d as int);
    }
    if neg {
        -(q as i128)
    } else {
        q as i128
    }
}


/// Dividing by at least one never grows a magnitude.
pub proof fn lemma_div_unit_shrinks(x: int, d: int)
    requires
        d >= SCALE,
    ensures
        sabs(fx_div_spec(x, d)) <= sabs(x),
{
    assert((sabs(x) * SCALE) / sabs(d) <= sabs(x)) by (nonlinear_arith)
        requires
            d >= SCALE,
            SCALE == 65536,
    ;
}

} // verus!
