//! Second-order IIR section in transposed direct form II.

use crate::fixed::{fx_mul, fx_mul_spec, sat_add_i64, sat_i64, FX_ONE};
use vstd::prelude::*;

verus! {

/// Normalized biquad coefficients, fixed-point. The catalog formulas that
/// derive them from a corner frequency and Q are transcendental and live
/// with the configuration front end; the filter itself is exact integer
/// arithmetic.
#[derive(Clone, Copy, PartialEq, Eq, Structural, Debug)]
pub struct BiquadCoefficients {
    pub b0: i64,
    pub b1: i64,
    pub b2: i64,
    pub a1: i64,
    pub a2: i64,
}

/// Biquad filter: coefficients plus the two state registers.
pub struct Biquad {
    pub coeffs: BiquadCoefficients,
    pub s1: i64,
    pub s2: i64,
}

/// Output sample for input `x` with first state register `s1`:
/// `y = b0*x + s1`, saturated.
pub open spec fn spec_biquad_y(c: BiquadCoefficients, s1: int, x: int) -> int {
    sat_i64(fx_mul_spec(c.b0 as int, x) + s1)
}

/// Next first register: `s1' = b1*x - a1*y + s2`, saturated stepwise.
pub open spec fn spec_biquad_s1(c: BiquadCoefficients, s1: int, s2: int, x: int) -> int {
    sat_i64(
        sat_i64(
            fx_mul_spec(c.b1 as int, x) - fx_mul_spec(c.a1 as int, spec_biquad_y(c, s1, x)),
        ) + s2,
    )
}

/// Next second register: `s2' = b2*x - a2*y`, saturated.
pub open spec fn spec_biquad_s2(c: BiquadCoefficients, s1: int, x: int) -> int {
    sat_i64(fx_mul_spec(c.b2 as int, x) - fx_mul_spec(c.a2 as int, spec_biquad_y(c, s1, x)))
}

/// The state registers after consuming the first `i` samples of `xs`.
pub open spec fn spec_biquad_state(
    c: BiquadCoefficients,
    s1: int,
    s2: int,
    xs: Seq<i64>,
    i: int,
) -> (int, int)
    decreases i,
{
    if i <= 0 {
        (s1, s2)
    } else {
        let prev = spec_biquad_state(c, s1, s2, xs, i - 1);
        (
            spec_biquad_s1(c, prev.0, prev.1, xs[i - 1] as int),
            spec_biquad_s2(c, prev.0, xs[i - 1] as int),
        )
    }
}

impl Biquad {
    pub fn new(coeffs: BiquadCoefficients) -> (r: Biquad)
        ensures
            r.coeffs == coeffs,
            r.s1 == 0,
            r.s2 == 0,
    {
        Biquad { coeffs, s1: 0, s2: 0 }
    }

    /// Run the recurrence over the waveform in place.
    pub fn process_waveform(&mut self, w: &mut Vec<i64>)
        ensures
            final(self).coeffs == old(self).coeffs,
            final(w)@.len() == old(w)@.len(),
            forall|i: int|
                0 <= i < old(w)@.len() ==> final(w)@[i] == spec_biquad_y(
                    old(self).coeffs,
                    spec_biquad_state(
                        old(self).coeffs,
                        old(self).s1 as int,
                        old(self).s2 as int,
                        old(w)@,
                        i,
                    ).0,
                    old(w)@[i] as int,
                ),
            (final(self).s1 as int, final(self).s2 as int) == spec_biquad_state(
                old(self).coeffs,
                old(self).s1 as int,
                old(self).s2 as int,
                old(w)@,
                old(w)@.len() as int,
            ),
    {
        let c = self.coeffs;
        let n = w.len();
        let mut i: usize = 0;
        while i < n
            invariant
                i <= n,
                w@.len() == n,
                n == old(w)@.len(),
                c == old(self).coeffs,
                self.coeffs == old(self).coeffs,
                forall|j: int| i <= j < n ==> w@[j] == old(w)@[j],
                forall|j: int|
                    0 <= j < i ==> w@[j] == spec_biquad_y(
                        c,
                        spec_biquad_state(
                            c,
                            old(self).s1 as int,
                            old(self).s2 as int,
                            old(w)@,
                            j,
                        ).0,
                        old(w)@[j] as int,
                    ),
                (self.s1 as int, self.s2 as int) == spec_biquad_state(
                    c,
                    old(self).s1 as int,
                    old(self).s2 as int,
                    old(w)@,
                    i as int,
                ),
            decreases n - i,
        {
            let x = w[i];
            let y = sat_add_i64(fx_mul(c.b0, x), self.s1);
            let t = sat_sub_i64(fx_mul(c.b1, x), fx_mul(c.a1, y));
            proof {
                assert(spec_biquad_state(
                    c,
                    old(self).s1 as int,
                    old(self).s2 as int,
                    old(w)@,
                    i + 1,
                ) == (
                    spec_biquad_s1(c, self.s1 as int, self.s2 as int, old(w)@[i as int] as int),
                    spec_biquad_s2(c, self.s1 as int, old(w)@[i as int] as int),
                ));
            }
            let new_s1 = sat_add_i64(t, self.s2);
            let new_s2 = sat_sub_i64(fx_mul(c.b2, x), fx_mul(c.a2, y));
            w[i] = y;
            self.s1 = new_s1;
            self.s2 = new_s2;
            i = i + 1;
        }
    }
}

/// Saturating subtraction on samples.
pub fn sat_sub_i64(a: i64, b: i64) -> (r: i64)
    ensures
        r == sat_i64(a as int - b as int),
{
    let s: i128 = a as i128 - b as i128;
    if s > i64::MAX as i128 {
        i64::MAX
    } else if s < i64::MIN as i128 {
        i64::MIN
    } else {
        s as i64
    }
}

/// Bypass coefficients `(b0 = 1, b1 = b2 = a1 = a2 = 0)` keep the state at
/// zero from a zero start.
pub proof fn lemma_biquad_bypass_state(c: BiquadCoefficients, xs: Seq<i64>, i: int)
    requires
        c.b0 == FX_ONE,
        c.b1 == 0,
        c.b2 == 0,
        c.a1 == 0,
        c.a2 == 0,
        0 <= i <= xs.len(),
    ensures
        spec_biquad_state(c, 0, 0, xs, i) == (0int, 0int),
    decreases i,
{
    if i > 0 {
        lemma_biquad_bypass_state(c, xs, i - 1);
    }
}

/// With bypass coefficients and zero state, the biquad is the identity and
/// the state stays zero.
pub proof fn lemma_biquad_bypass_identity(c: BiquadCoefficients, xs: Seq<i64>)
    requires
        c.b0 == FX_ONE,
        c.b1 == 0,
        c.b2 == 0,
        c.a1 == 0,
        c.a2 == 0,
    ensures
        forall|i: int|
            0 <= i < xs.len() ==> spec_biquad_y(
                c,
                spec_biquad_state(c, 0, 0, xs, i).0,
                xs[i] as int,
            ) == xs[i] as int,
        spec_biquad_state(c, 0, 0, xs, xs.len() as int) == (0int, 0int),
{
    lemma_biquad_bypass_state(c, xs, xs.len() as int);
    assert forall|i: int|
        0 <= i < xs.len() implies spec_biquad_y(
        c,
        spec_biquad_state(c, 0, 0, xs, i).0,
        xs[i] as int,
    ) == xs[i] as int by {
        lemma_biquad_bypass_state(c, xs, i);
        crate::fixed::lemma_fx_mul_one(xs[i]);
    }
}

} // verus!
