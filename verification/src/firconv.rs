//! FIR convolution of a waveform with a configured kernel.
//!
//! The filter keeps the last `kernel.len() - 1` input samples as history,
//! so that convolution is seamless across block boundaries. Each output
//! sample is the exact wide-accumulator dot product of the kernel with the
//! input window ending at that sample, rescaled to the sample range.

use crate::fixed::{fx_scale_down, sat_add_i128, sat_i128, sat_i64, tdiv_fx, FX_ONE};
use vstd::prelude::*;

verus! {

/// The accumulator after the first `k` kernel taps: tap `j` multiplies the
/// extended input at position `n + kernel.len() - 1 - j`.
pub open spec fn spec_conv_acc(kernel: Seq<i64>, ext: Seq<i64>, n: int, k: int) -> int
    decreases k,
{
    if k <= 0 {
        0
    } else {
        sat_i128(
            spec_conv_acc(kernel, ext, n, k - 1) + kernel[k - 1] * ext[n + kernel.len() - 1 - (k
                - 1)],
        )
    }
}

/// Output sample `n` of the convolution over the extended input.
pub open spec fn spec_conv_out(kernel: Seq<i64>, ext: Seq<i64>, n: int) -> int {
    sat_i64(tdiv_fx(spec_conv_acc(kernel, ext, n, kernel.len() as int)))
}

/// Exact widening product of two samples.
pub fn mul_wide(a: i64, b: i64) -> (r: i128)
    ensures
        r == a as int * b as int,
{
    proof {
        assert(-85070591730234615865843651857942052864 <= a as int * b as int
            <= 85070591730234615865843651857942052864int) by (nonlinear_arith)
            requires
                -9223372036854775808 <= a as int <= 9223372036854775807,
                -9223372036854775808 <= b as int <= 9223372036854775807;
    }
    (a as i128) * (b as i128)
}

/// Convolution filter state.
pub struct ConvFilter {
    pub kernel: Vec<i64>,
    pub history: Vec<i64>,
}

impl ConvFilter {
    /// The kernel is non-empty and the history holds one sample less.
    pub open spec fn wf(self) -> bool {
        self.kernel@.len() >= 1 && self.history@.len() == self.kernel@.len() - 1
    }

    /// Build from configured kernel values; the history starts silent.
    pub fn from_config(values: Vec<i64>) -> (r: ConvFilter)
        requires
            values@.len() >= 1,
        ensures
            r.wf(),
            r.kernel == values,
            forall|i: int| 0 <= i < r.history@.len() ==> r.history@[i] == 0,
    {
        let n = values.len();
        ConvFilter { history: vec![0i64; n - 1], kernel: values }
    }

    /// Convolve the waveform with the kernel in place, consuming and
    /// refilling the history.
    pub fn process_waveform(&mut self, w: &mut Vec<i64>)
        requires
            old(self).wf(),
        ensures
            final(self).wf(),
            final(self).kernel == old(self).kernel,
            final(w)@.len() == old(w)@.len(),
            forall|n: int|
                0 <= n < old(w)@.len() ==> final(w)@[n] == spec_conv_out(
                    old(self).kernel@,
                    old(self).history@ + old(w)@,
                    n,
                ),
            forall|t: int|
                0 <= t < final(self).history@.len() ==> final(self).history@[t] == (
                old(self).history@ + old(w)@)[old(w)@.len() + t],
    {
        let n_in = w.len();
        let kl = self.kernel.len();
        let hl = self.history.len();
        let ghost ext_s = self.history@ + w@;
        let mut ext: Vec<i64> = Vec::new();
        let mut i: usize = 0;
        while i < hl
            invariant
                i <= hl,
                hl == self.history@.len(),
                ext@.len() == i,
                forall|j: int| 0 <= j < i ==> ext@[j] == ext_s[j],
                ext_s == self.history@ + w@,
                w@.len() == n_in,
            decreases hl - i,
        {
            ext.push(self.history[i]);
            i = i + 1;
        }
        let mut j: usize = 0;
        while j < n_in
            invariant
                j <= n_in,
                w@.len() == n_in,
                hl == self.history@.len(),
                ext@.len() == hl + j,
                forall|k: int| 0 <= k < hl + j ==> ext@[k] == ext_s[k],
                ext_s == self.history@ + w@,
            decreases n_in - j,
        {
            ext.push(w[j]);
            j = j + 1;
        }
        let total = ext.len();
        let mut n: usize = 0;
        while n < n_in
            invariant
                n <= n_in,
                w@.len() == n_in,
                kl == self.kernel@.len(),
                hl == self.history@.len(),
                kl >= 1,
                hl == kl - 1,
                total == hl + n_in,
                ext@.len() == total,
                forall|k: int| 0 <= k < total ==> ext@[k] == ext_s[k],
                self.kernel == old(self).kernel,
                self.history == old(self).history,
                forall|m: int|
                    0 <= m < n ==> w@[m] == spec_conv_out(self.kernel@, ext_s, m),
            decreases n_in - n,
        {
            let mut acc: i128 = 0;
            let mut k: usize = 0;
            while k < kl
                invariant
                    k <= kl,
                    kl == self.kernel@.len(),
                    kl >= 1,
                    n < n_in,
                    total == kl - 1 + n_in,
                    ext@.len() == total,
                    forall|q: int| 0 <= q < total ==> ext@[q] == ext_s[q],
                    acc == spec_conv_acc(self.kernel@, ext_s, n as int, k as int),
                    self.kernel == old(self).kernel,
                decreases kl - k,
            {
                let idx = n + (kl - 1 - k);
                let p = mul_wide(self.kernel[k], ext[idx]);
                acc = sat_add_i128(acc, p);
                k = k + 1;
            }
            w[n] = fx_scale_down(acc);
            n = n + 1;
        }
        let mut t: usize = 0;
        while t < hl
            invariant
                t <= hl,
                hl == self.history@.len(),
                kl == self.kernel@.len(),
                hl == kl - 1,
                total == hl + n_in,
                ext@.len() == total,
                forall|q: int| 0 <= q < total ==> ext@[q] == ext_s[q],
                self.kernel == old(self).kernel,
                forall|q: int| 0 <= q < t ==> self.history@[q] == ext_s[n_in + q],
            decreases hl - t,
        {
            self.history[t] = ext[n_in + t];
            t = t + 1;
        }
    }
}

/// Convolution with the unit-impulse kernel reproduces the input exactly.
pub proof fn lemma_conv_impulse_identity(kernel: Seq<i64>, ext: Seq<i64>, n: int)
    requires
        kernel.len() == 1,
        kernel[0] == FX_ONE,
        0 <= n < ext.len(),
    ensures
        spec_conv_out(kernel, ext, n) == ext[n],
{
    assert(spec_conv_acc(kernel, ext, n, 0) == 0);
    assert(spec_conv_acc(kernel, ext, n, 1) == sat_i128(0 + kernel[0] * ext[n]));
    assert(-170141183460469231731687303715884105728 < (FX_ONE as int) * (ext[n] as int)
        < 170141183460469231731687303715884105727int) by (nonlinear_arith)
        requires
            -9223372036854775808 <= ext[n] as int <= 9223372036854775807;
    crate::fixed::lemma_fx_mul_one(ext[n]);
}

} // verus!
