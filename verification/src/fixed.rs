//! Fixed-point arithmetic for ratings and weights.
//!
//! Every rating, weight, distance and coordinate in this crate is a
//! fixed-point number held in an `i64`: the real value scaled by
//! [`RATING_SCALE`] (one millionth units). The disqualification
//! sentinel, the value `-1.0` of the rating scale, is therefore
//! `-RATING_SCALE`.

use vstd::prelude::*;

verus! {

/// One whole unit of the fixed-point rating scale.
pub const RATING_SCALE: i64 = 1_000_000;

/// Clamps a mathematical integer into the range of `i64`.
pub open spec fn sat_i64(x: int) -> int {
    if x > i64::MAX {
        i64::MAX as int
    } else if x < i64::MIN {
        i64::MIN as int
    } else {
        x
    }
}

/// Saturating addition on `i64`.
pub fn sat_add(a: i64, b: i64) -> (r: i64)
    ensures
        r == sat_i64(a + b),
{
    if b > 0 && a > i64::MAX - b {
        i64::MAX
    } else if b < 0 && a < i64::MIN - b {
        i64::MIN
    } else {
        a + b
    }
}

/// Saturating product of two fixed-point or plain integers.
pub open spec fn sat_prod(a: int, b: int) -> int {
    sat_i64(a * b)
}

/// `a * b / den` with the division truncated toward zero, then clamped;
/// the sign is carried by `a` alone.
pub open spec fn sat_scale(a: int, b: int, den: int) -> int
    recommends
        b >= 0,
        den > 0,
{
    if a >= 0 {
        sat_i64((a * b) / den)
    } else {
        sat_i64(-((-a * b) / den))
    }
}

/// Product of two fixed-point numbers, rescaled back to micro-units:
/// `a * b / RATING_SCALE`, truncated toward zero and clamped.
pub open spec fn fixed_mul_spec(a: int, b: int) -> int {
    let p = a * b;
    if p >= 0 {
        sat_i64(p / (RATING_SCALE as int))
    } else {
        sat_i64(-((-p) / (RATING_SCALE as int)))
    }
}

proof fn lemma_i64_prod_range(a: int, b: int)
    requires
        i64::MIN <= a <= i64::MAX + 1,
        i64::MIN <= b <= i64::MAX + 1,
    ensures
        i128::MIN < a * b < i128::MAX,
{
    assert(a * b <= (i64::MAX + 1) * (i64::MAX + 1) && a * b >= i64::MIN as int * (i64::MAX + 1))
        by (nonlinear_arith)
        requires
            i64::MIN <= a <= i64::MAX + 1,
            i64::MIN <= b <= i64::MAX + 1,
    ;
}

fn clamp_wide(p: i128) -> (r: i64)
    ensures
        r == sat_i64(p as int),
{
    if p > i64::MAX as i128 {
        i64::MAX
    } else if p < i64::MIN as i128 {
        i64::MIN
    } else {
        p as i64
    }
}

/// Saturating multiplication on `i64`.
pub fn sat_mul(a: i64, b: i64) -> (r: i64)
    ensures
        r == sat_prod(a as int, b as int),
{
    proof {
        lemma_i64_prod_range(a as int, b as int);
    }
    let p: i128 = (a as i128) * (b as i128);
    clamp_wide(p)
}

/// `a * b / den` on machine integers: truncated toward zero, clamped.
pub fn sat_scale_div(a: i64, b: i64, den: i64) -> (r: i64)
    requires
        b >= 0,
        den > 0,
    ensures
        r == sat_scale(a as int, b as int, den as int),
{
    proof {
        lemma_i64_prod_range(a as int, b as int);
        lemma_i64_prod_range(-(a as int), b as int);
    }
    if a >= 0 {
        let p: u128 = (a as u128) * (b as u128);
        let q: u128 = p / (den as u128);
        proof {
            assert(a as int * b as int >= 0 && a as u128 as int * (b as u128 as int) == a as int
                * b as int) by (nonlinear_arith)
                requires
                    a >= 0,
                    b >= 0,
                    a as u128 as int == a as int,
                    b as u128 as int == b as int,
            ;
        }
        if q > i64::MAX as u128 {
            i64::MAX
        } else {
            q as i64
        }
    } else {
        let na = -(a as i128);
        proof {
            assert(na as u128 as int * (b as u128 as int) == -(a as int) * (b as int) && -(a as int)
                * (b as int) >= 0) by (nonlinear_arith)
                requires
                    a < 0,
                    b >= 0,
                    na == -(a as int),
                    na as u128 as int == na as int,
                    b as u128 as int == b as int,
            ;
        }
        let p: u128 = (na as u128) * (b as u128);
        let q: u128 = p / (den as u128);
        if q > i64::MAX as u128 {
            i64::MIN
        } else {
            proof {
                assert(sat_i64(-(q as int)) == -(q as int));
            }
            -(q as i64)
        }
    }
}

/// Fixed-point multiplication: `a * b / RATING_SCALE`, truncated toward zero,
/// clamped to the `i64` range.
pub fn fixed_mul(a: i64, b: i64) -> (r: i64)
    ensures
        r == fixed_mul_spec(a as int, b as int),
{
    proof {
        lemma_i64_prod_range(a as int, b as int);
    }
    let p: i128 = (a as i128) * (b as i128);
    if p >= 0 {
        let q: u128 = (p as u128) / (RATING_SCALE as u128);
        if q > i64::MAX as u128 {
            i64::MAX
        } else {
            q as i64
        }
    } else {
        let np: u128 = (-p) as u128;
        let q: u128 = np / (RATING_SCALE as u128);
        if q > i64::MAX as u128 {
            i64::MIN
        } else {
            proof {
                assert(sat_i64(-(q as int)) == -(q as int));
            }
            -(q as i64)
        }
    }
}

} // verus!
