//! Capture-side logic: derived sizes, the silence gate, the end-of-stream
//! silence flush, and the per-stream capture driver.
//!
//! The driver works on a byte stream already in memory; the retrying device
//! read that fills it is plain I/O and lives outside the library.

use crate::chunk::{AudioChunk, AudioMessage};
use crate::formats::SampleFormat;
use crate::pcm::{buffer_to_chunk_bytes, decode_int_spec};
use vstd::arithmetic::div_mod::{lemma_div_is_ordered, lemma_div_multiples_vanish};
use vstd::prelude::*;

verus! {

/// Sizing and silence parameters of a capture worker, with quantities
/// derived from the device block.
pub struct CaptureParams {
    pub channels: usize,
    pub format: SampleFormat,
    pub chunksize: usize,
    pub extra_samples: usize,
    pub silent_limit: usize,
    pub silence: i64,
}

impl CaptureParams {
    pub open spec fn wf(self) -> bool {
        &&& self.channels > 0
        &&& self.chunksize > 0
        &&& self.format.spec_is_int()
        &&& self.chunksize * (self.channels * self.format.spec_store_bytes()) <= usize::MAX
        &&& self.extra_samples * (self.channels * self.format.spec_store_bytes()) <= usize::MAX
    }
}

/// Bytes to request from the device for the next read: what the resampler
/// asks for when one is active, one chunk otherwise.
pub fn get_nbr_capture_bytes(
    frames_needed: Option<usize>,
    capture_bytes: usize,
    channels: usize,
    store_bytes: usize,
) -> (r: usize)
    requires
        channels * store_bytes <= usize::MAX,
        frames_needed matches Some(n) ==> n * (channels * store_bytes) <= usize::MAX,
    ensures
        r == match frames_needed {
            Some(n) => n * (channels * store_bytes),
            None => capture_bytes as int,
        },
{
    match frames_needed {
        Some(n) => {
            proof {
                assert(n * (channels * store_bytes) >= 1 * (channels * store_bytes)
                    || n == 0) by (nonlinear_arith)
                    requires
                        n >= 0,
                        channels * store_bytes >= 0;
            }
            n * (channels * store_bytes)
        },
        None => capture_bytes,
    }
}

/// Powers of two.
pub open spec fn spec_pow2(k: nat) -> int
    decreases k,
{
    if k == 0 {
        1
    } else {
        2 * spec_pow2((k - 1) as nat)
    }
}

/// The capture buffer holds twice the next power of two above
/// `capture_rate / target_rate * chunksize` frames: ample for the largest
/// read a resampler will request. The result is exactly that power of two
/// (at least the frame count and less than twice it), times two, times the
/// frame width.
pub fn capture_buffer_bytes(
    capture_samplerate: usize,
    samplerate: usize,
    chunksize: usize,
    channels: usize,
    store_bytes: usize,
) -> (r: usize)
    requires
        samplerate > 0,
        capture_samplerate > 0,
        chunksize > 0,
        channels > 0,
        store_bytes > 0,
        capture_samplerate * chunksize + samplerate <= usize::MAX,
        (capture_samplerate * chunksize + samplerate - 1) as int / samplerate as int * 4 * (
        channels * store_bytes) <= usize::MAX,
    ensures
        exists|k: nat|
            {
                &&& r == #[trigger] spec_pow2(k) * 2 * (channels * store_bytes)
                &&& spec_pow2(k) >= (capture_samplerate * chunksize + samplerate - 1) as int
                    / samplerate as int
                &&& spec_pow2(k) < 2 * ((capture_samplerate * chunksize + samplerate - 1) as int
                    / samplerate as int)
            },
{
    proof {
        assert(capture_samplerate * chunksize >= 1 && channels * store_bytes >= 1)
            by (nonlinear_arith)
            requires
                capture_samplerate >= 1,
                chunksize >= 1,
                channels >= 1,
                store_bytes >= 1;
    }
    let num: usize = capture_samplerate * chunksize + (samplerate - 1);
    let q: usize = num / samplerate;
    proof {
        lemma_div_is_ordered(samplerate as int, num as int, samplerate as int);
        vstd::arithmetic::div_mod::lemma_div_by_self(samplerate as int);
        assert(q >= 1);
        assert(q * 4 <= q * 4 * (channels * store_bytes)) by (nonlinear_arith)
            requires
                q >= 0,
                channels * store_bytes >= 1;
    }
    let mut p: usize = 1;
    let ghost mut kk: nat = 0;
    while p < q
        invariant
            1 <= p,
            p == spec_pow2(kk),
            p == 1 || p < q + q,
            p <= q + q,
            q * 4 * (channels * store_bytes) <= usize::MAX,
            q * 4 <= usize::MAX,
            channels * store_bytes >= 1,
        decreases q + q - p,
    {
        p = 2 * p;
        proof {
            kk = kk + 1;
        }
    }
    proof {
        assert(p * 2 * (channels * store_bytes) <= q * 4 * (channels * store_bytes) && p * 2 * (
        channels * store_bytes) >= q * 2 * (channels * store_bytes) && channels * store_bytes <= q
            * 4 * (channels * store_bytes)) by (nonlinear_arith)
            requires
                q <= p <= q + q,
                q >= 1,
                channels * store_bytes >= 1;
        assert(p < 2 * q);
    }
    let r = p * 2 * (channels * store_bytes);
    proof {
        assert(r == spec_pow2(kk) * 2 * (channels * store_bytes) && spec_pow2(kk) >= q
            && spec_pow2(kk) < 2 * q);
    }
    r
}

/// Chunks a silent stretch may last before emission pauses: the configured
/// timeout (fixed-point seconds) times the sample rate, divided by the
/// chunk size, with the fixed-point scale divided out.
pub fn silent_limit_chunks(silence_timeout: i64, samplerate: usize, chunksize: usize) -> (r: usize)
    requires
        silence_timeout >= 0,
        chunksize > 0,
        samplerate <= 1000000000,
        silence_timeout as int * samplerate as int / (chunksize as int * 4294967296)
            <= usize::MAX,
    ensures
        r == silence_timeout as int * samplerate as int / (chunksize as int * 4294967296),
{
    proof {
        assert(silence_timeout as int * samplerate as int <= 9223372036854775807int
            * 1000000000int && silence_timeout as int * samplerate as int >= 0)
            by (nonlinear_arith)
            requires
                0 <= silence_timeout as int <= 9223372036854775807,
                0 <= samplerate as int <= 1000000000;
        assert(chunksize as int * 4294967296 >= 4294967296 && chunksize as int * 4294967296
            <= 18446744073709551615int * 4294967296) by (nonlinear_arith)
            requires
                1 <= chunksize as int <= 18446744073709551615int;
    }
    let num: u128 = (silence_timeout as u128) * (samplerate as u128);
    let divisor: u128 = (chunksize as u128) * 4294967296u128;
    (num / divisor) as usize
}

/// The silence gate: counts consecutive quiet chunks against the limit.
pub struct SilenceGate {
    pub limit: usize,
    pub count: usize,
}

impl SilenceGate {
    /// Feed one chunk's loudness; says whether the chunk is emitted. A loud
    /// chunk resets the count; a quiet one advances it when a limit is set.
    /// Emission continues until the count passes the limit.
    pub fn update(&mut self, loud: bool) -> (emit: bool)
        ensures
            final(self).limit == old(self).limit,
            final(self).count == (if loud {
                0int
            } else if old(self).limit > 0 && old(self).count < usize::MAX {
                old(self).count + 1
            } else {
                old(self).count as int
            }),
            emit == (final(self).count <= final(self).limit),
    {
        if loud {
            self.count = 0;
        } else if self.limit > 0 && self.count < usize::MAX {
            self.count = self.count + 1;
        }
        self.count <= self.limit
    }
}

/// The chunk's amplitude spread exceeds the silence threshold.
pub fn chunk_is_loud(chunk: &AudioChunk, silence: i64) -> (r: bool)
    ensures
        r == (chunk.maxval as int - chunk.minval as int > silence as int),
{
    let diff: i128 = (chunk.maxval as i128) - (chunk.minval as i128);
    diff > (silence as i128)
}

/// Chunk `k` of the stream is loud: two of its decoded samples differ by
/// more than the threshold. Equivalent to `maxval - minval > silence` of
/// the built chunk, whose bounds are attained.
pub open spec fn spec_chunk_loud(
    input: Seq<u8>,
    params: CaptureParams,
    k: int,
    silence: int,
) -> bool {
    exists|c1: int, f1: int, c2: int, f2: int|
        #![trigger spec_capture_sample(input, params, k, c1, f1), spec_capture_sample(input, params, k, c2, f2)]
        0 <= c1 < params.channels && 0 <= f1 < params.chunksize && 0 <= c2 < params.channels && 0
            <= f2 < params.chunksize && spec_capture_sample(input, params, k, c1, f1)
            - spec_capture_sample(input, params, k, c2, f2) > silence
}

/// The silence gate's counter after the first `k` chunks, given each
/// chunk's loudness: a loud chunk resets it, a quiet one advances it while
/// a limit is set.
pub open spec fn spec_gate_count(louds: Seq<bool>, limit: int, k: int) -> int
    decreases k,
{
    if k <= 0 {
        0
    } else {
        let prev = spec_gate_count(louds, limit, k - 1);
        if louds[k - 1] {
            0
        } else if limit > 0 && prev < usize::MAX {
            prev + 1
        } else {
            prev
        }
    }
}

/// Chunk `k` is admitted: the counter after it is within the limit.
pub open spec fn spec_gate_emits(louds: Seq<bool>, limit: int, k: int) -> bool {
    spec_gate_count(louds, limit, k + 1) <= limit
}

/// How many of the first `k` chunks were admitted: the queue position of
/// chunk `k` if it is admitted.
pub open spec fn spec_emitted_before(louds: Seq<bool>, limit: int, k: int) -> int
    decreases k,
{
    if k <= 0 {
        0
    } else {
        spec_emitted_before(louds, limit, k - 1) + (if spec_gate_emits(louds, limit, k - 1) {
            1int
        } else {
            0int
        })
    }
}

/// The counter and admission functions read only the prefix they are
/// given: appending a later chunk's loudness changes nothing about
/// earlier chunks.
pub proof fn lemma_gate_prefix(louds: Seq<bool>, b: bool, limit: int, k: int)
    requires
        0 <= k <= louds.len(),
    ensures
        spec_gate_count(louds.push(b), limit, k) == spec_gate_count(louds, limit, k),
        spec_emitted_before(louds.push(b), limit, k) == spec_emitted_before(louds, limit, k),
    decreases k,
{
    if k > 0 {
        lemma_gate_prefix(louds, b, limit, k - 1);
        assert(louds.push(b)[k - 1] == louds[k - 1]);
    }
}

/// The message holds exactly data chunk `k`: every decoded sample of the
/// stream at its position (zero past the end), and the chunk's share of
/// the carried frames.
pub open spec fn spec_admitted_chunk(
    input: Seq<u8>,
    params: CaptureParams,
    k: int,
    m: AudioMessage,
) -> bool {
    &&& m is Audio
    &&& m->Audio_0.valid_frames == (if spec_stream_frames(input.len() as int, params)
        + params.extra_samples - k * params.chunksize < params.chunksize as int {
        spec_stream_frames(input.len() as int, params) + params.extra_samples - k
            * params.chunksize
    } else {
        params.chunksize as int
    })
    &&& forall|c: int, f: int|
        0 <= c < params.channels && 0 <= f < params.chunksize
            ==> (#[trigger] m->Audio_0.waveforms@[c]@[f]) == spec_capture_sample(
            input,
            params,
            k,
            c,
            f,
        )
}

/// The full account of the silence gate: `louds` records each data
/// chunk's loudness, the counter recurrence over it decides which chunks
/// are admitted, and every admitted chunk stands in the queue at its
/// admission index, unchanged. With the counter's recurrence this forces
/// exactly `min(limit, N)` quiet chunks through before a pause, and the
/// loud chunk after them.
pub open spec fn spec_gate_trace(
    input: Seq<u8>,
    params: CaptureParams,
    louds: Seq<bool>,
    msgs: Seq<AudioMessage>,
) -> bool {
    &&& louds.len() * params.chunksize >= spec_stream_frames(input.len() as int, params)
    &&& (louds.len() == 0 || (louds.len() - 1) * params.chunksize < spec_stream_frames(
        input.len() as int,
        params,
    ))
    &&& forall|k: int|
        0 <= k < louds.len() ==> (#[trigger] louds[k]) == spec_chunk_loud(
            input,
            params,
            k,
            params.silence as int,
        )
    &&& forall|k: int|
        0 <= k < louds.len() && #[trigger] spec_gate_emits(louds, params.silent_limit as int, k)
            ==> 0 <= spec_emitted_before(louds, params.silent_limit as int, k) < msgs.len()
            && spec_admitted_chunk(
            input,
            params,
            k,
            msgs[spec_emitted_before(louds, params.silent_limit as int, k)],
        )
}

/// Valid frames carried by the audio messages of a queue.
pub open spec fn spec_total_valid_frames(msgs: Seq<AudioMessage>) -> int
    decreases msgs.len(),
{
    if msgs.len() == 0 {
        0
    } else {
        spec_total_valid_frames(msgs.drop_last()) + (match msgs.last() {
            AudioMessage::Audio(c) => c.valid_frames as int,
            AudioMessage::EndOfStream => 0,
        })
    }
}

/// Appending one message adds its valid frames to the queue total.
pub proof fn lemma_total_valid_frames_push(msgs: Seq<AudioMessage>, m: AudioMessage)
    ensures
        spec_total_valid_frames(msgs.push(m)) == spec_total_valid_frames(msgs) + (match m {
            AudioMessage::Audio(c) => c.valid_frames as int,
            AudioMessage::EndOfStream => 0,
        }),
{
    assert(msgs.push(m).drop_last() =~= msgs);
    assert(msgs.push(m).last() == m);
}

/// A silence chunk: all channels zero for a whole chunk, the leading
/// `valid` frames counting as data.
fn zero_chunk(channels: usize, chunksize: usize, valid: usize) -> (r: AudioChunk)
    requires
        channels > 0,
        chunksize > 0,
        valid <= chunksize,
    ensures
        r.wf(),
        r.bounds_exact(),
        r.frames == chunksize,
        r.valid_frames == valid,
        r.spec_channels() == channels,
        r.minval == 0,
        r.maxval == 0,
        r.all_samples_within(0, 0),
{
    let mut waveforms: Vec<Vec<i64>> = Vec::new();
    let mut c: usize = 0;
    while c < channels
        invariant
            c <= channels,
            waveforms@.len() == c,
            forall|cc: int| 0 <= cc < c ==> (#[trigger] waveforms@[cc])@.len() == chunksize,
            forall|cc: int, ff: int|
                0 <= cc < c && 0 <= ff < chunksize ==> #[trigger] waveforms@[cc]@[ff] == 0,
        decreases channels - c,
    {
        let mut wave: Vec<i64> = Vec::new();
        let mut f: usize = 0;
        while f < chunksize
            invariant
                f <= chunksize,
                wave@.len() == f,
                forall|ff: int| 0 <= ff < f ==> wave@[ff] == 0,
            decreases chunksize - f,
        {
            wave.push(0);
            f = f + 1;
        }
        waveforms.push(wave);
        c = c + 1;
    }
    proof {
        assert(waveforms@[0]@[0] == 0);
    }
    AudioChunk::new(waveforms, 0, 0, valid, chunksize)
}

/// Flush `samples` frames of silence downstream: exactly enough whole
/// chunks to carry them, the k-th carrying `min(chunksize, samples -
/// k*chunksize)` valid frames, nothing when `samples` is zero.
pub fn send_silence(
    samples: usize,
    channels: usize,
    chunksize: usize,
    audio_queue: &mut Vec<AudioMessage>,
)
    requires
        channels > 0,
        chunksize > 0,
    ensures
        final(audio_queue)@.len() >= old(audio_queue)@.len(),
        forall|i: int|
            0 <= i < old(audio_queue)@.len() ==> final(audio_queue)@[i] == old(audio_queue)@[i],
        forall|i: int|
            old(audio_queue)@.len() <= i < final(audio_queue)@.len()
                ==> ((#[trigger] final(audio_queue)@[i]) matches AudioMessage::Audio(c) && c.wf()
                && c.bounds_exact() && c.frames == chunksize && c.spec_channels() == channels
                && c.minval == 0 && c.maxval == 0 && c.all_samples_within(0, 0)),
        spec_total_valid_frames(final(audio_queue)@) == spec_total_valid_frames(old(audio_queue)@)
            + samples,
        samples == 0 ==> final(audio_queue)@.len() == old(audio_queue)@.len(),
        (final(audio_queue)@.len() - old(audio_queue)@.len()) * chunksize >= samples,
        samples > 0 ==> (final(audio_queue)@.len() - old(audio_queue)@.len() - 1) * chunksize
            < samples,
        forall|k: int|
            0 <= k && k * chunksize < samples ==> old(audio_queue)@.len() + k
                < final(audio_queue)@.len() && (#[trigger] final(audio_queue)@[old(
                audio_queue,
            )@.len() + k])->Audio_0.valid_frames == (if samples - k * chunksize
                < chunksize as int {
                samples - k * chunksize
            } else {
                chunksize as int
            }),
{
    let mut samples_left = samples;
    let ghost mut t: int = 0;
    while samples_left > 0
        invariant
            channels > 0,
            chunksize > 0,
            t == audio_queue@.len() - old(audio_queue)@.len(),
            t >= 0,
            samples_left == (if samples >= t * chunksize {
                samples - t * chunksize
            } else {
                0int
            }),
            t > 0 ==> (t - 1) * chunksize < samples,
            forall|i: int|
                0 <= i < old(audio_queue)@.len() ==> audio_queue@[i] == old(audio_queue)@[i],
            forall|i: int|
                old(audio_queue)@.len() <= i < audio_queue@.len() ==> ((
                #[trigger] audio_queue@[i]) matches AudioMessage::Audio(c) && c.wf()
                    && c.bounds_exact() && c.frames == chunksize && c.spec_channels() == channels
                    && c.minval == 0 && c.maxval == 0 && c.all_samples_within(0, 0)),
            spec_total_valid_frames(audio_queue@) + samples_left == spec_total_valid_frames(
                old(audio_queue)@,
            ) + samples,
            forall|k: int|
                0 <= k < t ==> (#[trigger] audio_queue@[old(audio_queue)@.len()
                    + k])->Audio_0.valid_frames == (if samples - k * chunksize < chunksize as int {
                    samples - k * chunksize
                } else {
                    chunksize as int
                }),
        decreases samples_left,
    {
        let chunk_samples = if samples_left > chunksize {
            chunksize
        } else {
            samples_left
        };
        let chunk = zero_chunk(channels, chunksize, chunk_samples);
        proof {
            lemma_total_valid_frames_push(audio_queue@, AudioMessage::Audio(chunk));
            assert((t + 1) * chunksize == t * chunksize + chunksize) by (nonlinear_arith);
        }
        audio_queue.push(AudioMessage::Audio(chunk));
        samples_left = samples_left - chunk_samples;
        proof {
            t = t + 1;
        }
    }
    proof {
        assert forall|k: int| 0 <= k && #[trigger] (k * chunksize) < samples implies k < t by {
            assert(k >= t ==> k * chunksize >= t * chunksize) by (nonlinear_arith)
                requires
                    chunksize >= 1;
        }
    }
}

/// Bookkeeping of a short read: pad the request from the extra-samples
/// reserve. Returns the byte count to treat as captured and the reserve
/// that is left.
pub fn apply_reserve(bytes: usize, capture_bytes: usize, extra_bytes_left: usize) -> (r: (
    usize,
    usize,
))
    requires
        bytes <= capture_bytes,
    ensures
        r.0 == (if bytes < capture_bytes {
            if extra_bytes_left > capture_bytes - bytes {
                capture_bytes as int
            } else {
                bytes + extra_bytes_left
            }
        } else {
            bytes as int
        }),
        r.1 == (if bytes < capture_bytes {
            if extra_bytes_left > capture_bytes - bytes {
                extra_bytes_left - (capture_bytes - bytes)
            } else {
                0int
            }
        } else {
            extra_bytes_left as int
        }),
{
    if bytes < capture_bytes {
        let missing = capture_bytes - bytes;
        if extra_bytes_left > missing {
            (capture_bytes, extra_bytes_left - missing)
        } else {
            (bytes + extra_bytes_left, 0)
        }
    } else {
        (bytes, extra_bytes_left)
    }
}

/// What one run of the capture stage produced: the ordered message queue
/// and the frames the silence gate withheld.
pub struct CaptureResult {
    pub messages: Vec<AudioMessage>,
    pub dropped_frames: usize,
}

/// Frames held in a whole byte stream.
pub open spec fn spec_stream_frames(len: int, params: CaptureParams) -> int {
    len / (params.channels as int * params.format.spec_store_bytes())
}

/// The sample that frame `f` of channel `c` of the `k`-th data chunk
/// holds: the decoded stream sample at that position, or zero padding past
/// the end of the stream.
#[verifier::opaque]
pub open spec fn spec_capture_sample(
    input: Seq<u8>,
    params: CaptureParams,
    k: int,
    c: int,
    f: int,
) -> int {
    let g = k * params.chunksize + f;
    if g < spec_stream_frames(input.len() as int, params) {
        decode_int_spec(
            params.format,
            input,
            (g * params.channels + c) * params.format.spec_store_bytes(),
        )
    } else {
        0
    }
}

/// The decoded data chunk `k` holds exactly the stream's samples at its
/// interleaved positions, and zero past the end of the stream.
proof fn lemma_chunk_samples(
    chunk: AudioChunk,
    input: Seq<u8>,
    params: CaptureParams,
    k: int,
    bf: int,
    pos: int,
    bytes: int,
    fb: int,
    store: int,
    buf: Seq<u8>,
)
    requires
        params.format.spec_is_int(),
        params.channels >= 1,
        params.chunksize >= 1,
        store == params.format.spec_store_bytes(),
        fb == params.channels * store,
        fb >= 1,
        buf.len() == params.chunksize * fb,
        k >= 0,
        1 <= bf <= params.chunksize,
        bytes == bf * fb,
        pos == k * params.chunksize * fb,
        bf <= spec_stream_frames(input.len() as int, params) - k * params.chunksize,
        bf == spec_stream_frames(input.len() as int, params) - k * params.chunksize || bf
            == params.chunksize,
        forall|j: int| 0 <= j < bytes ==> buf[j] == input[pos + j],
        forall|j: int| bytes <= j < buf.len() ==> buf[j] == 0,
        forall|c: int, f: int|
            0 <= c < params.channels && 0 <= f < params.chunksize
                ==> #[trigger] chunk.waveforms@[c]@[f] == decode_int_spec(
                params.format,
                buf,
                (f * params.channels + c) * params.format.spec_store_bytes(),
            ),
    ensures
        forall|c: int, f: int|
            0 <= c < params.channels && 0 <= f < params.chunksize
                ==> #[trigger] chunk.waveforms@[c]@[f] == spec_capture_sample(
                input,
                params,
                k,
                c,
                f,
            ),
{
    reveal(spec_capture_sample);
    let total_frames = spec_stream_frames(input.len() as int, params);
    let channels = params.channels as int;
    let chunk_bytes = buf.len() as int;
    assert forall|c: int, f: int|
        0 <= c < channels && 0 <= f < params.chunksize implies #[trigger] chunk.waveforms@[c]@[f]
        == spec_capture_sample(input, params, k, c, f) by {
        let off = (f * channels + c) * store;
        assert(chunk.waveforms@[c]@[f] == decode_int_spec(params.format, buf, off));
        if f < bf {
            assert(off + store <= bytes && pos + off == ((k * params.chunksize + f) * channels + c)
                * store && k * params.chunksize + f < total_frames) by (nonlinear_arith)
                requires
                    0 <= f < bf,
                    0 <= c < channels,
                    1 <= store,
                    bytes == bf * fb,
                    fb == channels * store,
                    off == (f * channels + c) * store,
                    pos == k * params.chunksize * fb,
                    bf <= total_frames - k * params.chunksize;
            match params.format {
                SampleFormat::S16LE => {
                    assert(decode_int_spec(params.format, buf, off) == decode_int_spec(
                        params.format,
                        input,
                        pos + off,
                    ));
                },
                SampleFormat::S24LE => {
                    assert(decode_int_spec(params.format, buf, off) == decode_int_spec(
                        params.format,
                        input,
                        pos + off,
                    ));
                },
                SampleFormat::S32LE => {
                    assert(decode_int_spec(params.format, buf, off) == decode_int_spec(
                        params.format,
                        input,
                        pos + off,
                    ));
                },
                SampleFormat::F32LE => {},
                SampleFormat::F64LE => {},
            }
            assert(spec_capture_sample(input, params, k, c, f) == decode_int_spec(
                params.format,
                input,
                ((k * params.chunksize + f) * params.channels + c)
                    * params.format.spec_store_bytes(),
            ));
        } else {
            assert(off >= bytes && off + store <= chunk_bytes && k * params.chunksize + f
                >= total_frames) by (nonlinear_arith)
                requires
                    bf <= f < params.chunksize,
                    0 <= c < channels,
                    1 <= store,
                    bytes == bf * fb,
                    fb == channels * store,
                    off == (f * channels + c) * store,
                    chunk_bytes == params.chunksize * fb,
                    bf == total_frames - k * params.chunksize || bf == params.chunksize,
                    bf <= total_frames - k * params.chunksize;
            match params.format {
                SampleFormat::S16LE => {
                    assert(decode_int_spec(params.format, buf, off) == 0);
                },
                SampleFormat::S24LE => {
                    assert(decode_int_spec(params.format, buf, off) == 0);
                },
                SampleFormat::S32LE => {
                    assert(decode_int_spec(params.format, buf, off) == 0);
                },
                SampleFormat::F32LE => {},
                SampleFormat::F64LE => {},
            }
            assert(spec_capture_sample(input, params, k, c, f) == 0);
        }
    }
}

/// How the finished message queue is laid out when the silence gate is
/// off: the carried frames split into chunks of `cs` valid frames with the
/// remainder last, the flushed reserve chunks are silent, and the queue
/// holds exactly enough chunks, then the terminator.
proof fn lemma_capture_layout(
    msgs: Seq<AudioMessage>,
    pre_flush: Seq<AudioMessage>,
    mid: Seq<AudioMessage>,
    total_frames: int,
    extra: int,
    cs: int,
    dc: int,
    ru: int,
)
    requires
        cs >= 1,
        dc >= 0,
        0 <= ru <= extra,
        total_frames >= 0,
        pre_flush.len() == dc,
        total_frames + ru <= dc * cs,
        (dc - 1) * cs < total_frames || dc == 0,
        extra - ru > 0 ==> total_frames + ru == dc * cs,
        forall|k: int|
            0 <= k < dc ==> ((#[trigger] pre_flush[k]) is Audio
                && pre_flush[k]->Audio_0.valid_frames == (if total_frames + extra - k * cs < cs {
                total_frames + extra - k * cs
            } else {
                cs
            })),
        mid.len() >= dc,
        forall|i: int| 0 <= i < dc ==> #[trigger] mid[i] == pre_flush[i],
        forall|i: int|
            dc <= i < mid.len() ==> ((#[trigger] mid[i]) is Audio && mid[i]->Audio_0.minval == 0
                && mid[i]->Audio_0.maxval == 0),
        (mid.len() - dc) * cs >= extra - ru,
        extra - ru > 0 ==> (mid.len() - dc - 1) * cs < extra - ru,
        extra - ru == 0 ==> mid.len() == dc,
        forall|j: int|
            0 <= j && #[trigger] (j * cs) < extra - ru ==> dc + j < mid.len() && mid[dc
                + j]->Audio_0.valid_frames == (if (extra - ru) - j * cs < cs {
                (extra - ru) - j * cs
            } else {
                cs
            }),
        msgs.len() == mid.len() + 1,
        forall|i: int| 0 <= i < mid.len() ==> #[trigger] msgs[i] == mid[i],
    ensures
        forall|k: int|
            0 <= k && #[trigger] (k * cs) < total_frames + extra ==> k + 1 < msgs.len() && msgs[k]
                is Audio && msgs[k]->Audio_0.valid_frames == (if total_frames + extra - k * cs
                < cs {
                total_frames + extra - k * cs
            } else {
                cs
            }),
        forall|k: int|
            0 <= k && total_frames <= #[trigger] (k * cs) && k * cs < total_frames + extra
                ==> msgs[k] is Audio && msgs[k]->Audio_0.minval == 0 && msgs[k]->Audio_0.maxval
                == 0,
        total_frames + extra == 0 ==> msgs.len() == 1,
        (msgs.len() - 1) * cs >= total_frames + extra,
        total_frames + extra > 0 ==> (msgs.len() - 2) * cs < total_frames + extra,
{
    let s_left = extra - ru;
    let m = mid.len() - dc;
    assert forall|k: int|
        0 <= k && #[trigger] (k * cs) < total_frames + extra implies (k + 1 < msgs.len() && msgs[k]
        is Audio && msgs[k]->Audio_0.valid_frames == (if total_frames + extra - k * cs < cs {
        total_frames + extra - k * cs
    } else {
        cs
    })) by {
        if k < dc {
            assert(msgs[k] == mid[k]);
            assert(mid[k] == pre_flush[k]);
        } else {
            assert(k * cs >= dc * cs) by (nonlinear_arith)
                requires
                    k >= dc,
                    cs >= 1;
            assert(s_left > 0) by (nonlinear_arith)
                requires
                    s_left == extra - ru,
                    total_frames + ru <= dc * cs,
                    dc * cs <= k * cs,
                    k * cs < total_frames + extra;
            let j = k - dc;
            assert(j * cs == k * cs - dc * cs) by (nonlinear_arith)
                requires
                    j == k - dc;
            assert(j * cs < s_left);
            assert(msgs[k] == mid[k]);
        }
    }
    assert forall|k: int|
        0 <= k && total_frames <= #[trigger] (k * cs) && k * cs < total_frames + extra implies (
    msgs[k] is Audio && msgs[k]->Audio_0.minval == 0 && msgs[k]->Audio_0.maxval == 0) by {
        assert(k >= dc) by {
            if dc > 0 {
                assert(dc - 1 < k) by (nonlinear_arith)
                    requires
                        (dc - 1) * cs < k * cs,
                        cs >= 1;
            }
        }
        assert(k * cs >= dc * cs) by (nonlinear_arith)
            requires
                k >= dc,
                cs >= 1;
        assert(s_left > 0) by (nonlinear_arith)
            requires
                s_left == extra - ru,
                total_frames + ru <= dc * cs,
                dc * cs <= k * cs,
                k * cs < total_frames + extra;
        let j = k - dc;
        assert(j * cs == k * cs - dc * cs) by (nonlinear_arith)
            requires
                j == k - dc;
        assert(j * cs < s_left);
        assert(dc + j < mid.len());
        assert(msgs[k] == mid[k]);
    }
    assert((dc + m) * cs == dc * cs + m * cs && (dc - 1) * cs + cs == dc * cs && (dc + m - 1) * cs
        == dc * cs + (m - 1) * cs) by (nonlinear_arith)
        requires
            m == mid.len() - dc;
    if s_left > 0 {
        assert((msgs.len() - 1) * cs >= total_frames + extra);
        assert((msgs.len() - 2) * cs < total_frames + extra);
    } else {
        assert(m == 0);
        if total_frames + extra > 0 {
            assert(dc > 0) by {
                if dc == 0 {
                    assert(total_frames + ru <= 0);
                }
            }
        }
    }
    if total_frames + extra == 0 {
        assert(dc == 0) by (nonlinear_arith)
            requires
                (dc - 1) * cs < 0 || dc == 0,
                cs >= 1,
                dc >= 0;
    }
}

/// Run the capture stage over a whole byte stream: cut it into chunks,
/// pad the final short read from the extra-samples reserve, gate silence,
/// flush the remaining reserve as silence at end of stream, and terminate
/// with `EndOfStream`.
///
/// The conservation law: valid frames delivered plus frames dropped by the
/// gate equal the frames captured plus the extra samples. A gate trace
/// witnesses which chunks were admitted and that each stands in the queue
/// at its admission index, unchanged.
#[verifier::rlimit(100)]
#[verifier::spinoff_prover]
pub fn run_capture(input: &Vec<u8>, params: &CaptureParams) -> (r: CaptureResult)
    requires
        params.wf(),
        input.len() as int % (params.channels as int * params.format.spec_store_bytes()) == 0,
        spec_stream_frames(input.len() as int, *params) + params.extra_samples <= usize::MAX,
    ensures
        r.messages@.len() >= 1,
        r.messages@.last() == AudioMessage::EndOfStream,
        forall|i: int|
            0 <= i < r.messages@.len() - 1 ==> ((#[trigger] r.messages@[i]) matches
                AudioMessage::Audio(c) && c.wf() && c.bounds_exact() && c.frames
                == params.chunksize && c.spec_channels() == params.channels),
        spec_total_valid_frames(r.messages@) + r.dropped_frames == spec_stream_frames(
            input.len() as int,
            *params,
        ) + params.extra_samples,
        params.silent_limit == 0 ==> r.dropped_frames == 0,
        params.silent_limit == 0 ==> forall|k: int, c: int, f: int|
            0 <= k && k * params.chunksize < spec_stream_frames(input.len() as int, *params) && 0
                <= c < params.channels && 0 <= f < params.chunksize ==> k < r.messages@.len()
                && r.messages@[k] is Audio
                && (#[trigger] r.messages@[k]->Audio_0.waveforms@[c]@[f]) == spec_capture_sample(
                input@,
                *params,
                k,
                c,
                f,
            ),
        params.silent_limit == 0 ==> forall|k: int|
            0 <= k && #[trigger] (k * params.chunksize) < spec_stream_frames(
                input.len() as int,
                *params,
            ) + params.extra_samples ==> k + 1 < r.messages@.len() && r.messages@[k] is Audio
                && r.messages@[k]->Audio_0.valid_frames == (if spec_stream_frames(
                input.len() as int,
                *params,
            ) + params.extra_samples - k * params.chunksize < params.chunksize as int {
                spec_stream_frames(input.len() as int, *params) + params.extra_samples - k
                    * params.chunksize
            } else {
                params.chunksize as int
            }),
        params.silent_limit == 0 ==> forall|k: int|
            0 <= k && spec_stream_frames(input.len() as int, *params) <= #[trigger] (k
                * params.chunksize) && k * params.chunksize < spec_stream_frames(
                input.len() as int,
                *params,
            ) + params.extra_samples ==> r.messages@[k] is Audio
                && r.messages@[k]->Audio_0.minval == 0 && r.messages@[k]->Audio_0.maxval == 0,
        exists|louds: Seq<bool>| #[trigger] spec_gate_trace(input@, *params, louds, r.messages@),
        params.silent_limit == 0 ==> {
            &&& spec_stream_frames(input.len() as int, *params) + params.extra_samples == 0
                ==> r.messages@.len() == 1
            &&& (r.messages@.len() - 1) * params.chunksize >= spec_stream_frames(
                input.len() as int,
                *params,
            ) + params.extra_samples
            &&& spec_stream_frames(input.len() as int, *params) + params.extra_samples > 0 ==> (
            r.messages@.len() - 2) * params.chunksize < spec_stream_frames(
                input.len() as int,
                *params,
            ) + params.extra_samples
        },
{
    let channels = params.channels;
    let store = params.format.store_bytes();
    proof {
        assert(channels * store >= 1 && channels * store <= params.chunksize * (channels * store)
            && params.extra_samples * (channels * store) >= params.extra_samples)
            by (nonlinear_arith)
            requires
                channels >= 1,
                store >= 1,
                params.chunksize >= 1,
                params.extra_samples >= 0;
    }
    let fb: usize = channels * store;
    let chunk_bytes: usize = params.chunksize * fb;
    let len = input.len();
    let ghost total_frames = spec_stream_frames(len as int, *params);
    proof {
        assert(chunk_bytes >= 1) by (nonlinear_arith)
            requires
                params.chunksize >= 1,
                fb >= 1,
                chunk_bytes == params.chunksize * fb;
        assert(params.chunksize * fb == params.chunksize * (channels * store));
        vstd::arithmetic::div_mod::lemma_fundamental_div_mod(len as int, fb as int);
        assert(len == total_frames * fb);
    }
    let mut extra_bytes_left: usize = params.extra_samples * fb;
    let mut pos: usize = 0;
    let mut gate = SilenceGate { limit: params.silent_limit, count: 0 };
    let mut messages: Vec<AudioMessage> = Vec::new();
    let mut dropped: usize = 0;
    let ghost mut frames_done: int = 0;
    let ghost mut reserve_used: int = 0;
    let ghost mut data_chunks: int = 0;
    let ghost mut louds: Seq<bool> = Seq::empty();
    while pos < len
        invariant
            params.wf(),
            channels == params.channels,
            store == params.format.spec_store_bytes(),
            fb == channels * store,
            fb >= 1,
            chunk_bytes == params.chunksize * fb,
            chunk_bytes >= 1,
            len == input.len(),
            len == total_frames * fb,
            total_frames == spec_stream_frames(len as int, *params),
            0 <= frames_done <= total_frames,
            pos == frames_done * fb,
            pos <= len,
            total_frames + params.extra_samples <= usize::MAX,
            0 <= reserve_used <= params.extra_samples,
            extra_bytes_left == (params.extra_samples - reserve_used) * fb,
            spec_total_valid_frames(messages@) + dropped == frames_done + reserve_used,
            dropped <= frames_done + reserve_used,
            gate.limit == params.silent_limit,
            params.silent_limit == 0 ==> gate.count == 0 && dropped == 0,
            data_chunks >= 0,
            frames_done == data_chunks * params.chunksize || pos == len,
            frames_done <= data_chunks * params.chunksize,
            reserve_used == 0 || pos == len,
            frames_done + reserve_used <= data_chunks * params.chunksize,
            reserve_used > 0 && extra_bytes_left > 0 ==> frames_done + reserve_used == data_chunks
                * params.chunksize,
            reserve_used == 0 && extra_bytes_left > 0 ==> frames_done == data_chunks
                * params.chunksize,
            (data_chunks - 1) * params.chunksize < frames_done || data_chunks == 0,
            louds.len() == data_chunks,
            gate.count as int == spec_gate_count(louds, params.silent_limit as int, data_chunks),
            forall|k: int|
                0 <= k < data_chunks ==> (#[trigger] louds[k]) == spec_chunk_loud(
                    input@,
                    *params,
                    k,
                    params.silence as int,
                ),
            messages@.len() == spec_emitted_before(
                louds,
                params.silent_limit as int,
                data_chunks,
            ),
            forall|k: int|
                0 <= k < data_chunks && #[trigger] spec_gate_emits(
                    louds,
                    params.silent_limit as int,
                    k,
                ) ==> 0 <= spec_emitted_before(louds, params.silent_limit as int, k)
                    < messages@.len() && spec_admitted_chunk(
                    input@,
                    *params,
                    k,
                    messages@[spec_emitted_before(louds, params.silent_limit as int, k)],
                ),
            params.silent_limit == 0 ==> forall|k: int|
                0 <= k < data_chunks ==> (#[trigger] messages@[k]) is Audio
                    && messages@[k]->Audio_0.valid_frames == (if total_frames
                    + params.extra_samples - k * params.chunksize < params.chunksize as int {
                    total_frames + params.extra_samples - k * params.chunksize
                } else {
                    params.chunksize as int
                }),
            params.silent_limit == 0 ==> messages@.len() == data_chunks,
            params.silent_limit == 0 ==> forall|k: int, c: int, f: int|
                0 <= k < data_chunks && 0 <= c < channels && 0 <= f < params.chunksize
                    ==> messages@[k] is Audio
                    && (#[trigger] messages@[k]->Audio_0.waveforms@[c]@[f])
                    == spec_capture_sample(input@, *params, k, c, f),
            forall|i: int|
                0 <= i < messages@.len() ==> ((#[trigger] messages@[i]) matches
                    AudioMessage::Audio(c) && c.wf() && c.bounds_exact() && c.frames
                    == params.chunksize && c.spec_channels() == channels),
        decreases len - pos,
    {
        let avail = len - pos;
        let ghost frames_avail = total_frames - frames_done;
        proof {
            assert(avail == frames_avail * fb) by (nonlinear_arith)
                requires
                    avail == len - pos,
                    len == total_frames * fb,
                    pos == frames_done * fb,
                    frames_avail == total_frames - frames_done;
            assert(frames_avail >= 1) by (nonlinear_arith)
                requires
                    avail == frames_avail * fb,
                    avail >= 1,
                    fb >= 1;
            assert(avail >= chunk_bytes ==> frames_avail >= params.chunksize)
                by (nonlinear_arith)
                requires
                    avail == frames_avail * fb,
                    chunk_bytes == params.chunksize * fb,
                    fb >= 1;
        }
        let bytes = if avail < chunk_bytes {
            avail
        } else {
            chunk_bytes
        };
        let ghost bf: int = if avail < chunk_bytes {
            frames_avail
        } else {
            params.chunksize as int
        };
        proof {
            assert(bytes == bf * fb);
            assert(avail < chunk_bytes ==> frames_avail < params.chunksize) by (nonlinear_arith)
                requires
                    avail == frames_avail * fb,
                    chunk_bytes == params.chunksize * fb,
                    fb >= 1;
            assert(1 <= bf <= params.chunksize);
        }
        let missing = chunk_bytes - bytes;
        let ghost missing_frames: int = params.chunksize - bf;
        proof {
            assert(missing == missing_frames * fb) by (nonlinear_arith)
                requires
                    missing == chunk_bytes - bytes,
                    chunk_bytes == params.chunksize * fb,
                    bytes == bf * fb,
                    missing_frames == params.chunksize - bf;
        }
        let mut bytes_read = bytes;
        let ghost mut used_this: int = 0;
        if bytes < chunk_bytes {
            if extra_bytes_left > missing {
                bytes_read = chunk_bytes;
                extra_bytes_left = extra_bytes_left - missing;
                proof {
                    used_this = missing_frames;
                    assert((params.extra_samples - reserve_used) * fb - missing_frames * fb == (
                    params.extra_samples - (reserve_used + missing_frames)) * fb)
                        by (nonlinear_arith);
                    assert(reserve_used + missing_frames < params.extra_samples)
                        by (nonlinear_arith)
                        requires
                            (params.extra_samples - reserve_used) * fb > missing_frames * fb,
                            fb >= 1,
                            missing_frames >= 0,
                            reserve_used >= 0;
                }
            } else {
                bytes_read = bytes + extra_bytes_left;
                extra_bytes_left = 0;
                proof {
                    used_this = params.extra_samples - reserve_used;
                    assert(bf * fb + (params.extra_samples - reserve_used) * fb == (bf + (
                    params.extra_samples - reserve_used)) * fb) by (nonlinear_arith);
                    assert(params.extra_samples - reserve_used <= missing_frames)
                        by (nonlinear_arith)
                        requires
                            (params.extra_samples - reserve_used) * fb <= missing_frames * fb,
                            fb >= 1,
                            params.extra_samples - reserve_used >= 0,
                            missing_frames >= 0;
                }
            }
        }
        let ghost valid_frames: int = bf + used_this;
        proof {
            assert(bytes_read == valid_frames * fb);
            assert(valid_frames <= params.chunksize) by (nonlinear_arith)
                requires
                    bytes_read == valid_frames * fb,
                    bytes_read <= chunk_bytes,
                    chunk_bytes == params.chunksize * fb,
                    fb >= 1;
        }
        let mut buf: Vec<u8> = Vec::new();
        let mut k: usize = 0;
        while k < bytes
            invariant
                k <= bytes,
                pos + bytes <= len,
                len == input.len(),
                buf@.len() == k,
                forall|j: int| 0 <= j < k ==> buf@[j] == input@[pos + j],
            decreases bytes - k,
        {
            buf.push(input[pos + k]);
            k = k + 1;
        }
        let mut z: usize = bytes;
        while z < chunk_bytes
            invariant
                bytes <= z <= chunk_bytes,
                buf@.len() == z,
                pos + bytes <= len,
                len == input.len(),
                forall|j: int| 0 <= j < bytes ==> buf@[j] == input@[pos + j],
                forall|j: int| bytes <= j < z ==> buf@[j] == 0,
            decreases chunk_bytes - z,
        {
            buf.push(0u8);
            z = z + 1;
        }
        proof {
            assert(params.chunksize * fb == params.chunksize * channels * store && channels * store
                <= usize::MAX) by (nonlinear_arith)
                requires
                    fb == channels * store,
                    chunk_bytes == params.chunksize * fb,
                    chunk_bytes <= usize::MAX,
                    params.chunksize >= 1,
                    channels >= 1,
                    store >= 1;
        }
        let chunk = buffer_to_chunk_bytes(
            &buf,
            channels,
            params.format,
            bytes_read,
            params.chunksize,
        );
        proof {
            lemma_div_multiples_vanish(valid_frames, fb as int);
            assert((fb as int * valid_frames) / (fb as int) == valid_frames);
            assert(channels as int * params.format.spec_store_bytes() == fb as int);
            assert(bytes_read as int == fb as int * valid_frames) by (nonlinear_arith)
                requires
                    bytes_read as int == valid_frames * fb as int;
            assert(chunk.valid_frames == valid_frames);
        }
        proof {
            assert(frames_done == data_chunks * params.chunksize);
            lemma_chunk_samples(
                chunk,
                input@,
                *params,
                data_chunks,
                bf,
                pos as int,
                bytes as int,
                fb as int,
                store as int,
                buf@,
            );
            assert(valid_frames == (if total_frames + params.extra_samples - data_chunks
                * params.chunksize < params.chunksize as int {
                total_frames + params.extra_samples - data_chunks * params.chunksize
            } else {
                params.chunksize as int
            }));
        }
        let loud = chunk_is_loud(&chunk, params.silence);
        proof {
            let silence = params.silence as int;
            if loud {
                let (c1, f1): (int, int) = choose|c: int, f: int|
                    0 <= c < chunk.waveforms@.len() && 0 <= f < chunk.waveforms@[c]@.len()
                        && #[trigger] chunk.waveforms@[c]@[f] == chunk.maxval;
                let (c2, f2): (int, int) = choose|c: int, f: int|
                    0 <= c < chunk.waveforms@.len() && 0 <= f < chunk.waveforms@[c]@.len()
                        && #[trigger] chunk.waveforms@[c]@[f] == chunk.minval;
                assert(spec_capture_sample(input@, *params, data_chunks, c1, f1)
                    == chunk.maxval as int);
                assert(spec_capture_sample(input@, *params, data_chunks, c2, f2)
                    == chunk.minval as int);
                assert(spec_chunk_loud(input@, *params, data_chunks, silence));
            } else {
                if spec_chunk_loud(input@, *params, data_chunks, silence) {
                    let (c1, f1, c2, f2): (int, int, int, int) = choose|
                        c1: int,
                        f1: int,
                        c2: int,
                        f2: int,
                    |
                        #![trigger spec_capture_sample(input@, *params, data_chunks, c1, f1), spec_capture_sample(input@, *params, data_chunks, c2, f2)]
                        0 <= c1 < params.channels && 0 <= f1 < params.chunksize && 0 <= c2
                            < params.channels && 0 <= f2 < params.chunksize
                            && spec_capture_sample(input@, *params, data_chunks, c1, f1)
                            - spec_capture_sample(input@, *params, data_chunks, c2, f2) > silence;
                    assert(chunk.waveforms@[c1]@[f1] as int == spec_capture_sample(
                        input@,
                        *params,
                        data_chunks,
                        c1,
                        f1,
                    ));
                    assert(chunk.waveforms@[c2]@[f2] as int == spec_capture_sample(
                        input@,
                        *params,
                        data_chunks,
                        c2,
                        f2,
                    ));
                    assert(false);
                }
            }
            assert(loud == spec_chunk_loud(input@, *params, data_chunks, silence));
        }
        let emit = gate.update(loud);
        let ghost pre_msgs = messages@;
        if emit {
            proof {
                lemma_total_valid_frames_push(messages@, AudioMessage::Audio(chunk));
            }
            messages.push(AudioMessage::Audio(chunk));
        } else {
            let v = chunk.valid_frames;
            dropped = dropped + v;
        }
        proof {
            let limit = params.silent_limit as int;
            let old_louds = louds;
            louds = louds.push(loud);
            assert(louds[data_chunks] == loud);
            assert forall|k: int|
                0 <= k <= data_chunks implies spec_gate_count(louds, limit, k) == spec_gate_count(
                old_louds,
                limit,
                k,
            ) && spec_emitted_before(louds, limit, k) == spec_emitted_before(
                old_louds,
                limit,
                k,
            ) by {
                lemma_gate_prefix(old_louds, loud, limit, k);
            }
            assert(spec_gate_count(louds, limit, data_chunks + 1) == gate.count as int);
            assert(spec_gate_emits(louds, limit, data_chunks) == emit);
            assert(spec_emitted_before(louds, limit, data_chunks + 1) == messages@.len());
            assert forall|k: int|
                0 <= k < data_chunks + 1 && #[trigger] spec_gate_emits(louds, limit, k) implies 0
                <= spec_emitted_before(louds, limit, k) < messages@.len() && spec_admitted_chunk(
                input@,
                *params,
                k,
                messages@[spec_emitted_before(louds, limit, k)],
            ) by {
                if k < data_chunks {
                    assert(spec_gate_emits(old_louds, limit, k));
                    let idx = spec_emitted_before(old_louds, limit, k);
                    assert(spec_admitted_chunk(input@, *params, k, pre_msgs[idx]));
                    assert(messages@[idx] == pre_msgs[idx]);
                } else {
                    assert(emit);
                    assert(spec_emitted_before(louds, limit, k) == pre_msgs.len());
                    assert(messages@[pre_msgs.len() as int] == AudioMessage::Audio(chunk));
                    assert(spec_admitted_chunk(input@, *params, k, AudioMessage::Audio(chunk)));
                }
            }
        }
        pos = pos + bytes;
        proof {
            if params.silent_limit == 0 {
                assert(frames_done == data_chunks * params.chunksize);
                assert(valid_frames == (if total_frames + params.extra_samples - data_chunks
                    * params.chunksize < params.chunksize as int {
                    total_frames + params.extra_samples - data_chunks * params.chunksize
                } else {
                    params.chunksize as int
                }));
            }
            frames_done = frames_done + bf;
            reserve_used = reserve_used + used_this;
            data_chunks = data_chunks + 1;
            assert(pos == frames_done * fb) by (nonlinear_arith)
                requires
                    pos == (frames_done - bf) * fb + bf * fb;
            assert(frames_done <= data_chunks * params.chunksize && ((frames_done == data_chunks
                * params.chunksize) || bf < params.chunksize) && (data_chunks - 1)
                * params.chunksize < frames_done && (frames_done - bf) + params.chunksize
                == data_chunks * params.chunksize) by (nonlinear_arith)
                requires
                    frames_done - bf == (data_chunks - 1) * params.chunksize,
                    1 <= bf <= params.chunksize;
            assert(bf < params.chunksize ==> pos == len) by (nonlinear_arith)
                requires
                    bf < params.chunksize ==> frames_done == total_frames,
                    pos == frames_done * fb,
                    len == total_frames * fb;
            assert(frames_done + reserve_used <= data_chunks * params.chunksize);
        }
    }
    let extra_samples_left = extra_bytes_left / fb;
    proof {
        lemma_div_multiples_vanish(params.extra_samples - reserve_used, fb as int);
        assert(extra_samples_left == params.extra_samples - reserve_used);
        assert(frames_done == total_frames) by (nonlinear_arith)
            requires
                pos == frames_done * fb,
                len == total_frames * fb,
                pos == len,
                fb >= 1;
    }
    proof {
        assert forall|k: int|
            0 <= k && #[trigger] (k * params.chunksize) < total_frames implies k < data_chunks by {
            assert(k >= data_chunks ==> k * params.chunksize >= data_chunks * params.chunksize)
                by (nonlinear_arith)
                requires
                    params.chunksize >= 1;
        }
    }
    let ghost pre_flush = messages@;
    send_silence(extra_samples_left, channels, params.chunksize, &mut messages);
    let ghost mid = messages@;
    proof {
        lemma_total_valid_frames_push(messages@, AudioMessage::EndOfStream);
    }
    messages.push(AudioMessage::EndOfStream);
    proof {
        let limit = params.silent_limit as int;
        assert forall|k: int|
            0 <= k < louds.len() && #[trigger] spec_gate_emits(louds, limit, k) implies 0
            <= spec_emitted_before(louds, limit, k) < messages@.len() && spec_admitted_chunk(
            input@,
            *params,
            k,
            messages@[spec_emitted_before(louds, limit, k)],
        ) by {
            let idx = spec_emitted_before(louds, limit, k);
            assert(spec_admitted_chunk(input@, *params, k, pre_flush[idx]));
            assert(mid[idx] == pre_flush[idx]);
            assert(messages@[idx] == mid[idx]);
        }
        assert(louds.len() * params.chunksize >= spec_stream_frames(input.len() as int, *params));
        assert(spec_gate_trace(input@, *params, louds, messages@));
    }
    proof {
        if params.silent_limit == 0 {
            lemma_capture_layout(
                messages@,
                pre_flush,
                mid,
                total_frames,
                params.extra_samples as int,
                params.chunksize as int,
                data_chunks,
                reserve_used,
            );
        }
    }
    CaptureResult { messages, dropped_frames: dropped }
}

} // verus!
