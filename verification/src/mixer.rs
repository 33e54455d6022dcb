//! Channel mixer: routes and mixes input channels into output channels.

use crate::chunk::AudioChunk;
use crate::fixed::{fx_mul, fx_mul_spec, sat_add_i64, sat_i64};
use vstd::prelude::*;

verus! {

/// One contribution to an output channel: an input channel, a non-negative
/// linear gain, and an inversion flag.
#[derive(Clone, Copy, PartialEq, Eq, Structural, Debug)]
pub struct MixerSource {
    pub channel: usize,
    pub gain: i64,
    pub inverted: bool,
}

/// The signed factor of one source.
pub open spec fn spec_source_factor(s: MixerSource) -> int {
    if s.inverted {
        -(s.gain as int)
    } else {
        s.gain as int
    }
}

/// A mixer: for each of the `channels_out` output channels, the list of
/// sources mixed into it. Stateless beyond its configuration.
pub struct Mixer {
    pub channels_in: usize,
    pub channels_out: usize,
    pub mapping: Vec<Vec<MixerSource>>,
}

/// Output sample at frame `f` mixed from the first `k` sources: the
/// saturating sum of the gain-scaled input samples.
pub open spec fn spec_mix_sample(
    sources: Seq<MixerSource>,
    waveforms: Seq<Vec<i64>>,
    f: int,
    k: int,
) -> int
    decreases k,
{
    if k <= 0 {
        0
    } else {
        sat_i64(
            spec_mix_sample(sources, waveforms, f, k - 1) + fx_mul_spec(
                spec_source_factor(sources[k - 1]),
                waveforms[sources[k - 1].channel as int]@[f] as int,
            ),
        )
    }
}

impl Mixer {
    /// Every source points at an existing input channel with a
    /// non-negative gain.
    pub open spec fn wf(self) -> bool {
        &&& self.mapping@.len() == self.channels_out
        &&& forall|j: int, s: int|
            0 <= j < self.mapping@.len() && 0 <= s < self.mapping@[j]@.len() ==> (
            #[trigger] self.mapping@[j]@[s]).channel < self.channels_in
                && self.mapping@[j]@[s].gain >= 0
    }

    pub fn from_config(channels_in: usize, channels_out: usize, mapping: Vec<Vec<MixerSource>>) -> (r:
        Mixer)
        requires
            mapping@.len() == channels_out,
            forall|j: int, s: int|
                0 <= j < mapping@.len() && 0 <= s < mapping@[j]@.len() ==> (
                #[trigger] mapping@[j]@[s]).channel < channels_in && mapping@[j]@[s].gain >= 0,
        ensures
            r.wf(),
            r.channels_in == channels_in,
            r.channels_out == channels_out,
            r.mapping == mapping,
    {
        Mixer { channels_in, channels_out, mapping }
    }

    /// Mix a chunk into a new chunk with `channels_out` waveforms. Frame
    /// count and valid frames carry over; amplitude bounds are recomputed.
    pub fn process_chunk(&self, input: &AudioChunk) -> (r: AudioChunk)
        requires
            self.wf(),
            input.wf(),
            input.spec_channels() == self.channels_in,
        ensures
            r.wf(),
            r.bounds_exact(),
            r.spec_channels() == self.channels_out,
            r.frames == input.frames,
            r.valid_frames == input.valid_frames,
            forall|j: int, f: int|
                0 <= j < self.channels_out && 0 <= f < input.frames
                    ==> #[trigger] r.waveforms@[j]@[f] == spec_mix_sample(
                    self.mapping@[j]@,
                    input.waveforms@,
                    f,
                    self.mapping@[j]@.len() as int,
                ),
    {
        let frames = input.frames;
        let mut waveforms: Vec<Vec<i64>> = Vec::new();
        let mut j: usize = 0;
        while j < self.channels_out
            invariant
                j <= self.channels_out,
                self.wf(),
                input.wf(),
                input.spec_channels() == self.channels_in,
                frames == input.frames,
                waveforms@.len() == j,
                forall|jj: int| 0 <= jj < j ==> (#[trigger] waveforms@[jj])@.len() == frames,
                forall|jj: int, f: int|
                    0 <= jj < j && 0 <= f < frames ==> #[trigger] waveforms@[jj]@[f]
                        == spec_mix_sample(
                        self.mapping@[jj]@,
                        input.waveforms@,
                        f,
                        self.mapping@[jj]@.len() as int,
                    ),
            decreases self.channels_out - j,
        {
            let sources = &self.mapping[j];
            let ns = sources.len();
            let mut wave: Vec<i64> = Vec::new();
            let mut f: usize = 0;
            while f < frames
                invariant
                    f <= frames,
                    self.wf(),
                    input.wf(),
                    input.spec_channels() == self.channels_in,
                    frames == input.frames,
                    j < self.channels_out,
                    sources == &self.mapping@[j as int],
                    ns == sources@.len(),
                    wave@.len() == f,
                    forall|ff: int|
                        0 <= ff < f ==> #[trigger] wave@[ff] == spec_mix_sample(
                            self.mapping@[j as int]@,
                            input.waveforms@,
                            ff,
                            ns as int,
                        ),
                decreases frames - f,
            {
                let mut acc: i64 = 0;
                let mut s: usize = 0;
                while s < ns
                    invariant
                        s <= ns,
                        self.wf(),
                        input.wf(),
                        input.spec_channels() == self.channels_in,
                        frames == input.frames,
                        f < frames,
                        j < self.channels_out,
                        sources == &self.mapping@[j as int],
                        ns == sources@.len(),
                        acc == spec_mix_sample(sources@, input.waveforms@, f as int, s as int),
                    decreases ns - s,
                {
                    let src = sources[s];
                    let factor = if src.inverted {
                        -src.gain
                    } else {
                        src.gain
                    };
                    let x = input.waveforms[src.channel][f];
                    acc = sat_add_i64(acc, fx_mul(factor, x));
                    s = s + 1;
                }
                wave.push(acc);
                f = f + 1;
            }
            waveforms.push(wave);
            j = j + 1;
        }
        AudioChunk::from_samples(waveforms, input.valid_frames, frames)
    }
}

} // verus!
