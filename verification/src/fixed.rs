//! Fixed-point sample arithmetic.
//!
//! A sample is an `i64` holding the real value `v / 2^32`: 32 fractional
//! bits, 31 integer bits and a sign. Decoded PCM stays within `[-1, 1)`, so
//! the headroom above one is ample for filter intermediates. Products are
//! formed exactly in `i128`, rescaled by truncating division toward zero,
//! and saturated to the `i64` range.

use vstd::arithmetic::div_mod::lemma_div_multiples_vanish;
use vstd::prelude::*;

verus! {

/// Fixed-point representation of the value one.
pub const FX_ONE: i64 = 4294967296;

/// Saturate an unbounded integer to the `i64` range.
pub open spec fn sat_i64(v: int) -> int {
    if v > i64::MAX as int {
        i64::MAX as int
    } else if v < i64::MIN as int {
        i64::MIN as int
    } else {
        v
    }
}

/// Saturate an unbounded integer to the `i128` range.
pub open spec fn sat_i128(v: int) -> int {
    if v > i128::MAX as int {
        i128::MAX as int
    } else if v < i128::MIN as int {
        i128::MIN as int
    } else {
        v
    }
}

/// Division by `2^32` truncating toward zero.
pub open spec fn tdiv_fx(p: int) -> int {
    if p >= 0 {
        p / 4294967296
    } else {
        -((-p) / 4294967296)
    }
}

/// The fixed-point product: exact product, rescaled truncating toward zero,
/// saturated to the sample range.
pub open spec fn fx_mul_spec(a: int, b: int) -> int {
    sat_i64(tdiv_fx(a * b))
}

/// Fixed-point multiplication of two samples (or of a sample and a
/// coefficient).
pub fn fx_mul(a: i64, b: i64) -> (r: i64)
    ensures
        r == fx_mul_spec(a as int, b as int),
{
    let neg: bool = (a < 0) != (b < 0);
    let ai: i128 = a as i128;
    let bi: i128 = b as i128;
    let ma: i128 = if ai < 0 { -ai } else { ai };
    let mb: i128 = if bi < 0 { -bi } else { bi };
    proof {
        assert(ma * mb == if neg { -((a as int) * (b as int)) } else { (a as int) * (b as int) })
            by (nonlinear_arith)
            requires
                ma == (if a < 0 { -(a as int) } else { a as int }),
                mb == (if b < 0 { -(b as int) } else { b as int }),
                neg == ((a < 0) != (b < 0));
        assert(ma * mb <= 85070591730234615865843651857942052864int) by (nonlinear_arith)
            requires
                0 <= ma <= 9223372036854775808int,
                0 <= mb <= 9223372036854775808int;
    }
    let pu: u128 = (ma as u128) * (mb as u128);
    let qu: u128 = pu / 4294967296u128;
    if neg {
        if qu >= 9223372036854775808u128 {
            i64::MIN
        } else {
            -(qu as i64)
        }
    } else {
        if qu >= 9223372036854775807u128 {
            i64::MAX
        } else {
            qu as i64
        }
    }
}

/// Saturating addition on samples.
pub fn sat_add_i64(a: i64, b: i64) -> (r: i64)
    ensures
        r == sat_i64(a as int + b as int),
{
    let s: i128 = a as i128 + b as i128;
    if s > i64::MAX as i128 {
        i64::MAX
    } else if s < i64::MIN as i128 {
        i64::MIN
    } else {
        s as i64
    }
}

/// Saturating addition on wide accumulators.
pub fn sat_add_i128(a: i128, b: i128) -> (r: i128)
    ensures
        r == sat_i128(a as int + b as int),
{
    if b > 0 && a > i128::MAX - b {
        i128::MAX
    } else if b < 0 && a < i128::MIN - b {
        i128::MIN
    } else {
        a + b
    }
}

/// Rescale a wide accumulator to the sample range: truncating division by
/// `2^32`, then saturation.
pub fn fx_scale_down(acc: i128) -> (r: i64)
    ensures
        r == sat_i64(tdiv_fx(acc as int)),
{
    if acc == i128::MIN {
        proof {
            assert(170141183460469231731687303715884105728int / 4294967296int
                == 39614081257132168796771975168int);
        }
        i64::MIN
    } else if acc < 0 {
        let mag: u128 = (-acc) as u128;
        let q: u128 = mag / 4294967296u128;
        if q >= 9223372036854775808u128 {
            i64::MIN
        } else {
            -(q as i64)
        }
    } else {
        let mag: u128 = acc as u128;
        let q: u128 = mag / 4294967296u128;
        if q >= 9223372036854775807u128 {
            i64::MAX
        } else {
            q as i64
        }
    }
}

/// Multiplying by one is the identity: no rescaling loss and no saturation.
pub proof fn lemma_fx_mul_one(x: i64)
    ensures
        fx_mul_spec(FX_ONE as int, x as int) == x as int,
{
    let p = (FX_ONE as int) * (x as int);
    if x >= 0 {
        lemma_div_multiples_vanish(x as int, 4294967296);
        assert(p / 4294967296 == x as int);
    } else {
        assert(4294967296int * (-(x as int)) == -(4294967296int * (x as int)))
            by (nonlinear_arith);
        lemma_div_multiples_vanish(-(x as int), 4294967296);
        assert((-p) / 4294967296 == -(x as int));
    }
}

} // verus!
