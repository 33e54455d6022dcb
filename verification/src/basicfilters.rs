//! Gain and delay filters.

use crate::fixed::{fx_mul, fx_mul_spec, FX_ONE};
use vstd::prelude::*;

verus! {

/// Scalar gain: every sample is multiplied by a fixed-point factor, whose
/// sign carries the inversion flag.
pub struct Gain {
    pub factor: i64,
}

impl Gain {
    /// Build from the configured linear gain (non-negative) and inversion
    /// flag.
    pub fn from_config(gain: i64, inverted: bool) -> (r: Gain)
        requires
            gain >= 0,
        ensures
            r.factor == if inverted { -(gain as int) } else { gain as int },
    {
        Gain { factor: if inverted { -gain } else { gain } }
    }

    /// Multiply every sample by the factor.
    pub fn process_waveform(&self, w: &mut Vec<i64>)
        ensures
            final(w)@.len() == old(w)@.len(),
            forall|i: int|
                0 <= i < old(w)@.len() ==> final(w)@[i] == fx_mul_spec(
                    self.factor as int,
                    old(w)@[i] as int,
                ),
    {
        let n = w.len();
        let mut i: usize = 0;
        while i < n
            invariant
                i <= n,
                w@.len() == n,
                n == old(w)@.len(),
                forall|j: int|
                    0 <= j < i ==> w@[j] == fx_mul_spec(self.factor as int, old(w)@[j] as int),
                forall|j: int| i <= j < n ==> w@[j] == old(w)@[j],
            decreases n - i,
        {
            w[i] = fx_mul(self.factor, w[i]);
            i = i + 1;
        }
    }
}

/// A gain of one, not inverted, leaves every sample unchanged.
pub proof fn lemma_gain_identity(g: Gain, before: Seq<i64>, after: Seq<i64>)
    requires
        g.factor == FX_ONE,
        after.len() == before.len(),
        forall|i: int|
            0 <= i < before.len() ==> after[i] == fx_mul_spec(g.factor as int, before[i] as int),
    ensures
        after =~= before,
{
    assert forall|i: int| 0 <= i < before.len() implies after[i] == before[i] by {
        crate::fixed::lemma_fx_mul_one(before[i]);
    }
}

/// Fixed integer-sample delay: a waveform is shifted by `delay` samples,
/// with the held-back tail of one block carried into the next.
pub struct Delay {
    pub delay: usize,
    pub buffer: Vec<i64>,
}

impl Delay {
    /// The carry buffer always holds exactly `delay` pending samples.
    pub open spec fn wf(self) -> bool {
        self.buffer@.len() == self.delay
    }

    /// A fresh delay line holds silence.
    pub fn from_config(delay: usize) -> (r: Delay)
        ensures
            r.wf(),
            r.delay == delay,
            forall|i: int| 0 <= i < delay ==> r.buffer@[i] == 0,
    {
        Delay { delay, buffer: vec![0i64; delay] }
    }

    /// Shift the waveform: output sample `i` is element `i` of the pending
    /// buffer followed by the input, and the last `delay` elements of that
    /// concatenation become the new pending buffer.
    pub fn process_waveform(&mut self, w: &mut Vec<i64>)
        requires
            old(self).wf(),
        ensures
            final(self).wf(),
            final(self).delay == old(self).delay,
            final(w)@.len() == old(w)@.len(),
            forall|i: int|
                0 <= i < old(w)@.len() ==> final(w)@[i] == (old(self).buffer@ + old(w)@)[i],
            forall|t: int|
                0 <= t < old(self).delay ==> final(self).buffer@[t] == (old(self).buffer@
                    + old(w)@)[old(w)@.len() + t],
    {
        let n = w.len();
        let d = self.delay;
        let ghost ext = self.buffer@ + w@;
        let mut all: Vec<i64> = Vec::new();
        let mut i: usize = 0;
        while i < d
            invariant
                i <= d,
                self.buffer@.len() == d,
                all@.len() == i,
                forall|j: int| 0 <= j < i ==> all@[j] == ext[j],
                ext == self.buffer@ + w@,
                w@.len() == n,
            decreases d - i,
        {
            all.push(self.buffer[i]);
            i = i + 1;
        }
        let mut j: usize = 0;
        while j < n
            invariant
                j <= n,
                w@.len() == n,
                all@.len() == d + j,
                forall|k: int| 0 <= k < d + j ==> all@[k] == ext[k],
                ext == self.buffer@ + w@,
                self.buffer@.len() == d,
            decreases n - j,
        {
            all.push(w[j]);
            j = j + 1;
        }
        let mut i: usize = 0;
        while i < n
            invariant
                i <= n,
                w@.len() == n,
                all@.len() == d + n,
                forall|k: int| 0 <= k < d + n ==> all@[k] == ext[k],
                forall|k: int| 0 <= k < i ==> w@[k] == ext[k],
            decreases n - i,
        {
            w[i] = all[i];
            i = i + 1;
        }
        let total = all.len();
        let mut t: usize = 0;
        while t < d
            invariant
                total == d + n,
                t <= d,
                self.buffer@.len() == d,
                self.delay == d,
                all@.len() == d + n,
                forall|k: int| 0 <= k < d + n ==> all@[k] == ext[k],
                forall|k: int| 0 <= k < t ==> self.buffer@[k] == ext[n + k],
            decreases d - t,
        {
            self.buffer[t] = all[n + t];
            t = t + 1;
        }
    }
}

/// From a fresh (all-zero) delay line, a delay of `d` samples yields
/// `y[i] == 0` for `i < d` and `y[i] == x[i - d]` afterwards.
pub proof fn lemma_delay_from_silence(dl: Delay, x: Seq<i64>, y: Seq<i64>)
    requires
        dl.wf(),
        forall|i: int| 0 <= i < dl.buffer@.len() ==> dl.buffer@[i] == 0,
        y.len() == x.len(),
        forall|i: int| 0 <= i < x.len() ==> y[i] == (dl.buffer@ + x)[i],
    ensures
        forall|i: int| 0 <= i < x.len() && i < dl.delay ==> y[i] == 0,
        forall|i: int| dl.delay <= i < x.len() ==> y[i] == x[i - dl.delay],
{
}

} // verus!
