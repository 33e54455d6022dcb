//! Audio chunks and the messages that carry them between the stages.

use vstd::prelude::*;

verus! {

/// One block of decoded audio: `waveforms` holds one sample sequence per
/// channel, each of length `frames`. The leading `valid_frames` samples
/// carry captured data; the rest are zero padding. `minval` and `maxval`
/// are the amplitude bounds over the whole block, computed at construction
/// and used by the silence gate.
pub struct AudioChunk {
    pub waveforms: Vec<Vec<i64>>,
    pub frames: usize,
    pub valid_frames: usize,
    pub minval: i64,
    pub maxval: i64,
}

impl AudioChunk {
    pub open spec fn spec_channels(self) -> int {
        self.waveforms@.len() as int
    }

    /// Structural invariant of every constructed chunk.
    pub open spec fn wf(self) -> bool {
        &&& forall|c: int|
            0 <= c < self.waveforms@.len() ==> (#[trigger] self.waveforms@[c])@.len()
                == self.frames
        &&& self.valid_frames <= self.frames
        &&& self.minval <= self.maxval
    }

    /// Some position of the chunk holds the value `v`.
    pub open spec fn has_sample(self, v: int) -> bool {
        exists|c: int, f: int|
            0 <= c < self.waveforms@.len() && 0 <= f < self.waveforms@[c]@.len()
                && #[trigger] self.waveforms@[c]@[f] == v
    }

    /// Every sample of the chunk lies in `[lo, hi]`.
    pub open spec fn all_samples_within(self, lo: int, hi: int) -> bool {
        forall|c: int, f: int|
            0 <= c < self.waveforms@.len() && 0 <= f < self.waveforms@[c]@.len()
                ==> lo <= #[trigger] self.waveforms@[c]@[f] <= hi
    }

    /// `minval` and `maxval` are the true amplitude bounds: every sample
    /// lies between them and each is attained, with both zero on an empty
    /// block.
    pub open spec fn bounds_exact(self) -> bool {
        if self.waveforms@.len() > 0 && self.frames > 0 {
            &&& self.all_samples_within(self.minval as int, self.maxval as int)
            &&& self.has_sample(self.minval as int)
            &&& self.has_sample(self.maxval as int)
        } else {
            self.minval == 0 && self.maxval == 0
        }
    }

    /// Assemble a chunk from ready waveforms and already-known amplitude
    /// bounds.
    pub fn new(waveforms: Vec<Vec<i64>>, minval: i64, maxval: i64, valid_frames: usize, frames: usize) -> (r: AudioChunk)
        requires
            forall|c: int|
                0 <= c < waveforms@.len() ==> (#[trigger] waveforms@[c])@.len() == frames,
            valid_frames <= frames,
            (AudioChunk { waveforms, frames, valid_frames, minval, maxval }).bounds_exact(),
            minval <= maxval,
        ensures
            r == (AudioChunk { waveforms, frames, valid_frames, minval, maxval }),
            r.wf(),
            r.bounds_exact(),
    {
        AudioChunk { waveforms, frames, valid_frames, minval, maxval }
    }

    /// Assemble a chunk from ready waveforms, computing the amplitude
    /// bounds.
    pub fn from_samples(waveforms: Vec<Vec<i64>>, valid_frames: usize, frames: usize) -> (r: AudioChunk)
        requires
            forall|c: int|
                0 <= c < waveforms@.len() ==> (#[trigger] waveforms@[c])@.len() == frames,
            valid_frames <= frames,
        ensures
            r.waveforms == waveforms,
            r.frames == frames,
            r.valid_frames == valid_frames,
            r.wf(),
            r.bounds_exact(),
    {
        let channels = waveforms.len();
        let mut minv: i64 = 0;
        let mut maxv: i64 = 0;
        if channels > 0 && frames > 0 {
            minv = waveforms[0][0];
            maxv = minv;
            let mut c: usize = 0;
            while c < channels
                invariant
                    channels == waveforms@.len(),
                    0 <= c <= channels,
                    frames > 0,
                    channels > 0,
                    forall|cc: int|
                        0 <= cc < channels ==> (#[trigger] waveforms@[cc])@.len() == frames,
                    minv <= maxv,
                    exists|cc: int, ff: int|
                        0 <= cc < channels && 0 <= ff < frames && (#[trigger] waveforms@[cc]@[ff])
                            == minv,
                    exists|cc: int, ff: int|
                        0 <= cc < channels && 0 <= ff < frames && (#[trigger] waveforms@[cc]@[ff])
                            == maxv,
                    forall|cc: int, ff: int|
                        0 <= cc < c && 0 <= ff < frames ==> minv <= #[trigger] waveforms@[cc]@[ff]
                            <= maxv,
                decreases channels - c,
            {
                let mut f: usize = 0;
                while f < frames
                    invariant
                        channels == waveforms@.len(),
                        0 <= c < channels,
                        0 <= f <= frames,
                        forall|cc: int|
                            0 <= cc < channels ==> (#[trigger] waveforms@[cc])@.len() == frames,
                        minv <= maxv,
                        exists|cc: int, ff: int|
                            0 <= cc < channels && 0 <= ff < frames && (#[trigger] waveforms@[cc]@[ff])
                                == minv,
                        exists|cc: int, ff: int|
                            0 <= cc < channels && 0 <= ff < frames && (#[trigger] waveforms@[cc]@[ff])
                                == maxv,
                        forall|cc: int, ff: int|
                            0 <= cc < c && 0 <= ff < frames ==> minv <= #[trigger] waveforms@[cc]@[ff]
                                <= maxv,
                        forall|ff: int|
                            0 <= ff < f ==> minv <= #[trigger] waveforms@[c as int]@[ff] <= maxv,
                    decreases frames - f,
                {
                    let s = waveforms[c][f];
                    if s < minv {
                        minv = s;
                        proof {
                            assert(waveforms@[c as int]@[f as int] == minv);
                        }
                    }
                    if s > maxv {
                        maxv = s;
                        proof {
                            assert(waveforms@[c as int]@[f as int] == maxv);
                        }
                    }
                    f = f + 1;
                }
                c = c + 1;
            }
        }
        let r = AudioChunk { waveforms, frames, valid_frames, minval: minv, maxval: maxv };
        proof {
            if r.waveforms@.len() > 0 && r.frames > 0 {
                assert(r.all_samples_within(r.minval as int, r.maxval as int));
                assert(r.has_sample(r.minval as int));
                assert(r.has_sample(r.maxval as int));
            }
        }
        r
    }
}

/// The amplitude bounds are ordered, and an all-silence chunk has both
/// bounds zero.
pub proof fn lemma_chunk_bounds(chunk: AudioChunk)
    requires
        chunk.wf(),
        chunk.bounds_exact(),
    ensures
        chunk.minval <= chunk.maxval,
        chunk.all_samples_within(0, 0) ==> chunk.minval == 0 && chunk.maxval == 0,
{
    if chunk.all_samples_within(0, 0) {
        if chunk.waveforms@.len() > 0 && chunk.frames > 0 {
            let (c1, f1): (int, int) = choose|c: int, f: int|
                0 <= c < chunk.waveforms@.len() && 0 <= f < chunk.waveforms@[c]@.len()
                    && #[trigger] chunk.waveforms@[c]@[f] == chunk.minval;
            assert(chunk.waveforms@[c1]@[f1] == 0);
            let (c2, f2): (int, int) = choose|c: int, f: int|
                0 <= c < chunk.waveforms@.len() && 0 <= f < chunk.waveforms@[c]@.len()
                    && #[trigger] chunk.waveforms@[c]@[f] == chunk.maxval;
            assert(chunk.waveforms@[c2]@[f2] == 0);
        }
    }
}

/// A message on an audio queue: a block of audio, or the in-band terminator.
pub enum AudioMessage {
    Audio(AudioChunk),
    EndOfStream,
}

} // verus!
