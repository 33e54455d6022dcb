//! PCM byte codec: little-endian integer samples to and from fixed-point,
//! and the raw bit patterns of the float formats.

use crate::chunk::AudioChunk;
use crate::formats::SampleFormat;
use vstd::arithmetic::div_mod::{
    lemma_div_denominator, lemma_div_is_ordered, lemma_div_multiples_vanish,
    lemma_fundamental_div_mod,
};
use vstd::prelude::*;

verus! {

/// Little-endian recomposition of two bytes.
pub open spec fn le16(b0: int, b1: int) -> int {
    b0 + 256 * b1
}

/// Little-endian recomposition of three bytes.
pub open spec fn le24(b0: int, b1: int, b2: int) -> int {
    b0 + 256 * b1 + 65536 * b2
}

/// Little-endian recomposition of four bytes.
pub open spec fn le32(b0: int, b1: int, b2: int, b3: int) -> int {
    b0 + 256 * b1 + 65536 * b2 + 16777216 * b3
}

/// Little-endian recomposition of eight bytes.
pub open spec fn le64(
    b0: int,
    b1: int,
    b2: int,
    b3: int,
    b4: int,
    b5: int,
    b6: int,
    b7: int,
) -> int {
    le32(b0, b1, b2, b3) + 4294967296 * le32(b4, b5, b6, b7)
}

/// Two's-complement value of a 16-bit code.
pub open spec fn s16_code(b0: int, b1: int) -> int {
    if le16(b0, b1) >= 32768 {
        le16(b0, b1) - 65536
    } else {
        le16(b0, b1)
    }
}

/// Two's-complement value of a 24-bit code.
pub open spec fn s24_code(b0: int, b1: int, b2: int) -> int {
    if le24(b0, b1, b2) >= 8388608 {
        le24(b0, b1, b2) - 16777216
    } else {
        le24(b0, b1, b2)
    }
}

/// Two's-complement value of a 32-bit code.
pub open spec fn s32_code(b0: int, b1: int, b2: int, b3: int) -> int {
    if le32(b0, b1, b2, b3) >= 2147483648 {
        le32(b0, b1, b2, b3) - 4294967296
    } else {
        le32(b0, b1, b2, b3)
    }
}

/// Fixed-point weight of one integer code step: `2^32 / 2^(bits-1)`.
pub open spec fn spec_shift(fmt: SampleFormat) -> int {
    match fmt {
        SampleFormat::S16LE => 131072,
        SampleFormat::S24LE => 512,
        SampleFormat::S32LE => 2,
        SampleFormat::F32LE => 1,
        SampleFormat::F64LE => 1,
    }
}

/// Largest integer code of the format.
pub open spec fn spec_code_max(fmt: SampleFormat) -> int {
    match fmt {
        SampleFormat::S16LE => 32767,
        SampleFormat::S24LE => 8388607,
        SampleFormat::S32LE => 2147483647,
        SampleFormat::F32LE => 0,
        SampleFormat::F64LE => 0,
    }
}

/// Division truncating toward zero.
pub open spec fn tdiv(v: int, d: int) -> int {
    if v >= 0 {
        v / d
    } else {
        -((-v) / d)
    }
}

/// The fixed-point sample held by the integer code starting at `off`:
/// the sign-extended little-endian code times the code weight.
pub open spec fn decode_int_spec(fmt: SampleFormat, b: Seq<u8>, off: int) -> int {
    match fmt {
        SampleFormat::S16LE => s16_code(b[off] as int, b[off + 1] as int) * 131072,
        SampleFormat::S24LE => s24_code(b[off] as int, b[off + 1] as int, b[off + 2] as int) * 512,
        SampleFormat::S32LE => s32_code(
            b[off] as int,
            b[off + 1] as int,
            b[off + 2] as int,
            b[off + 3] as int,
        ) * 2,
        SampleFormat::F32LE => 0,
        SampleFormat::F64LE => 0,
    }
}

/// The integer code a fixed-point sample encodes to: rescaled truncating
/// toward zero, then clamped to the representable signed range.
pub open spec fn encode_code_spec(fmt: SampleFormat, v: int) -> int {
    let q = tdiv(v, spec_shift(fmt));
    if q < -spec_code_max(fmt) - 1 {
        -spec_code_max(fmt) - 1
    } else if q > spec_code_max(fmt) {
        spec_code_max(fmt)
    } else {
        q
    }
}

/// Read one integer-format sample from the byte buffer.
pub fn read_sample(fmt: SampleFormat, buf: &Vec<u8>, off: usize) -> (r: i64)
    requires
        fmt.spec_is_int(),
        off + fmt.spec_store_bytes() <= buf.len(),
    ensures
        r == decode_int_spec(fmt, buf@, off as int),
{
    match fmt {
        SampleFormat::S16LE => {
            let u: u32 = buf[off] as u32 + 256 * (buf[off + 1] as u32);
            let code: i64 = if u >= 32768 {
                u as i64 - 65536
            } else {
                u as i64
            };
            code * 131072
        },
        SampleFormat::S24LE => {
            let u: u32 = buf[off] as u32 + 256 * (buf[off + 1] as u32) + 65536 * (buf[off + 2]
                as u32);
            let code: i64 = if u >= 8388608 {
                u as i64 - 16777216
            } else {
                u as i64
            };
            code * 512
        },
        SampleFormat::S32LE => {
            let u: u64 = buf[off] as u64 + 256 * (buf[off + 1] as u64) + 65536 * (buf[off + 2]
                as u64) + 16777216 * (buf[off + 3] as u64);
            let code: i64 = if u >= 2147483648 {
                u as i64 - 4294967296
            } else {
                u as i64
            };
            code * 2
        },
        SampleFormat::F32LE => 0,
        SampleFormat::F64LE => 0,
    }
}

/// Rescale and clamp one fixed-point sample to the integer code of the
/// format.
pub fn encode_code(fmt: SampleFormat, v: i64) -> (code: i64)
    requires
        fmt.spec_is_int(),
    ensures
        code == encode_code_spec(fmt, v as int),
        -spec_code_max(fmt) - 1 <= code <= spec_code_max(fmt),
{
    let sh: u64 = match fmt {
        SampleFormat::S16LE => 131072,
        SampleFormat::S24LE => 512,
        SampleFormat::S32LE => 2,
        SampleFormat::F32LE => 1,
        SampleFormat::F64LE => 1,
    };
    let hi: u64 = match fmt {
        SampleFormat::S16LE => 32767,
        SampleFormat::S24LE => 8388607,
        SampleFormat::S32LE => 2147483647,
        SampleFormat::F32LE => 0,
        SampleFormat::F64LE => 0,
    };
    if v < 0 {
        let mag: u64 = if v == i64::MIN {
            9223372036854775808u64
        } else {
            (-v) as u64
        };
        let q: u64 = mag / sh;
        if q >= hi + 1 {
            -(hi as i64) - 1
        } else {
            -(q as i64)
        }
    } else {
        let q: u64 = (v as u64) / sh;
        if q > hi {
            hi as i64
        } else {
            q as i64
        }
    }
}

/// Append the little-endian bytes of one integer code; for `S24LE` the
/// fourth byte holds the sign extension.
pub fn push_code_bytes(fmt: SampleFormat, code: i64, out: &mut Vec<u8>) -> (n: usize)
    requires
        fmt.spec_is_int(),
        -spec_code_max(fmt) - 1 <= code <= spec_code_max(fmt),
    ensures
        n == fmt.spec_store_bytes(),
        final(out)@.len() == old(out)@.len() + n,
        forall|i: int| 0 <= i < old(out)@.len() ==> final(out)@[i] == old(out)@[i],
        decode_int_spec(fmt, final(out)@, old(out)@.len() as int) == code * spec_shift(fmt),
        fmt is S24LE ==> final(out)@[old(out)@.len() as int + 3] as int == (if code < 0 {
            255int
        } else {
            0int
        }),
{
    match fmt {
        SampleFormat::S16LE => {
            let u: u32 = if code < 0 {
                (code + 65536) as u32
            } else {
                code as u32
            };
            out.push((u % 256) as u8);
            out.push((u / 256) as u8);
            2
        },
        SampleFormat::S24LE => {
            let u: u32 = if code < 0 {
                (code + 16777216) as u32
            } else {
                code as u32
            };
            out.push((u % 256) as u8);
            out.push(((u / 256) % 256) as u8);
            out.push((u / 65536) as u8);
            out.push(if code < 0 { 255 } else { 0 });
            4
        },
        SampleFormat::S32LE => {
            let u: u64 = if code < 0 {
                (code + 4294967296) as u64
            } else {
                code as u64
            };
            out.push((u % 256) as u8);
            out.push(((u / 256) % 256) as u8);
            out.push(((u / 65536) % 256) as u8);
            out.push((u / 16777216) as u8);
            proof {
                lemma_fundamental_div_mod(u as int, 256);
                lemma_fundamental_div_mod(u as int / 256, 256);
                lemma_fundamental_div_mod(u as int / 65536, 256);
                lemma_div_denominator(u as int, 256, 256);
                lemma_div_denominator(u as int, 65536, 256);
            }
            4
        },
        SampleFormat::F32LE => 0,
        SampleFormat::F64LE => 0,
    }
}

/// Append one fixed-point sample as an integer-format PCM sample.
pub fn encode_sample(fmt: SampleFormat, v: i64, out: &mut Vec<u8>) -> (n: usize)
    requires
        fmt.spec_is_int(),
    ensures
        n == fmt.spec_store_bytes(),
        final(out)@.len() == old(out)@.len() + n,
        forall|i: int| 0 <= i < old(out)@.len() ==> final(out)@[i] == old(out)@[i],
        decode_int_spec(fmt, final(out)@, old(out)@.len() as int) == encode_code_spec(fmt, v as int)
            * spec_shift(fmt),
        fmt is S24LE ==> final(out)@[old(out)@.len() as int + 3] as int == (if encode_code_spec(
            fmt,
            v as int,
        ) < 0 {
            255int
        } else {
            0int
        }),
{
    let code = encode_code(fmt, v);
    push_code_bytes(fmt, code, out)
}

/// Encoding then decoding is the identity on every sample that is an exact
/// multiple of the code weight within the representable range.
pub proof fn lemma_int_round_trip(fmt: SampleFormat, v: int)
    requires
        fmt.spec_is_int(),
        v % spec_shift(fmt) == 0,
        (-spec_code_max(fmt) - 1) * spec_shift(fmt) <= v <= spec_code_max(fmt) * spec_shift(fmt),
    ensures
        encode_code_spec(fmt, v) * spec_shift(fmt) == v,
{
    let sh = spec_shift(fmt);
    let hi = spec_code_max(fmt);
    lemma_fundamental_div_mod(v, sh);
    if v >= 0 {
        let q = v / sh;
        assert(v == sh * q);
        assert(q <= hi) by {
            lemma_div_is_ordered(v, hi * sh, sh);
            lemma_div_multiples_vanish(hi, sh);
        }
    } else {
        lemma_fundamental_div_mod(-v, sh);
        let q = (-v) / sh;
        assert(v % sh == 0);
        assert((-v) % sh == 0) by {
            vstd::arithmetic::div_mod::lemma_mod_neg_neg(v, sh);
            assert(v % sh == (v + (-1 - v / sh) * sh * sh) % sh);
        }
        assert(-v == sh * q);
        assert(q <= hi + 1) by {
            lemma_div_is_ordered(-v, (hi + 1) * sh, sh);
            lemma_div_multiples_vanish(hi + 1, sh);
        }
    }
}

/// Read the bit pattern of one `F32LE` sample.
pub fn read_f32_bits(buf: &Vec<u8>, off: usize) -> (r: u32)
    requires
        off + 4 <= buf.len(),
    ensures
        r as int == le32(
            buf@[off as int] as int,
            buf@[off as int + 1] as int,
            buf@[off as int + 2] as int,
            buf@[off as int + 3] as int,
        ),
{
    buf[off] as u32 + 256 * (buf[off + 1] as u32) + 65536 * (buf[off + 2] as u32) + 16777216 * (
    buf[off + 3] as u32)
}

/// Append the bit pattern of one `F32LE` sample, little-endian.
pub fn push_f32_bits(bits: u32, out: &mut Vec<u8>)
    ensures
        final(out)@.len() == old(out)@.len() + 4,
        forall|i: int| 0 <= i < old(out)@.len() ==> final(out)@[i] == old(out)@[i],
        le32(
            final(out)@[old(out)@.len() as int] as int,
            final(out)@[old(out)@.len() as int + 1] as int,
            final(out)@[old(out)@.len() as int + 2] as int,
            final(out)@[old(out)@.len() as int + 3] as int,
        ) == bits as int,
{
    out.push((bits % 256) as u8);
    out.push(((bits / 256) % 256) as u8);
    out.push(((bits / 65536) % 256) as u8);
    out.push((bits / 16777216) as u8);
    proof {
        lemma_fundamental_div_mod(bits as int, 256);
        lemma_fundamental_div_mod(bits as int / 256, 256);
        lemma_fundamental_div_mod(bits as int / 65536, 256);
        lemma_div_denominator(bits as int, 256, 256);
        lemma_div_denominator(bits as int, 65536, 256);
    }
}

/// Read the bit pattern of one `F64LE` sample.
pub fn read_f64_bits(buf: &Vec<u8>, off: usize) -> (r: u64)
    requires
        off + 8 <= buf.len(),
    ensures
        r as int == le64(
            buf@[off as int] as int,
            buf@[off as int + 1] as int,
            buf@[off as int + 2] as int,
            buf@[off as int + 3] as int,
            buf@[off as int + 4] as int,
            buf@[off as int + 5] as int,
            buf@[off as int + 6] as int,
            buf@[off as int + 7] as int,
        ),
{
    let lo: u64 = buf[off] as u64 + 256 * (buf[off + 1] as u64) + 65536 * (buf[off + 2] as u64)
        + 16777216 * (buf[off + 3] as u64);
    let hi: u64 = buf[off + 4] as u64 + 256 * (buf[off + 5] as u64) + 65536 * (buf[off + 6] as u64)
        + 16777216 * (buf[off + 7] as u64);
    lo + 4294967296 * hi
}

/// Append the bit pattern of one `F64LE` sample, little-endian.
pub fn push_f64_bits(bits: u64, out: &mut Vec<u8>)
    ensures
        final(out)@.len() == old(out)@.len() + 8,
        forall|i: int| 0 <= i < old(out)@.len() ==> final(out)@[i] == old(out)@[i],
        le64(
            final(out)@[old(out)@.len() as int] as int,
            final(out)@[old(out)@.len() as int + 1] as int,
            final(out)@[old(out)@.len() as int + 2] as int,
            final(out)@[old(out)@.len() as int + 3] as int,
            final(out)@[old(out)@.len() as int + 4] as int,
            final(out)@[old(out)@.len() as int + 5] as int,
            final(out)@[old(out)@.len() as int + 6] as int,
            final(out)@[old(out)@.len() as int + 7] as int,
        ) == bits as int,
{
    let lo: u32 = (bits % 4294967296) as u32;
    let hi: u32 = (bits / 4294967296) as u32;
    push_f32_bits(lo, out);
    push_f32_bits(hi, out);
    proof {
        lemma_fundamental_div_mod(bits as int, 4294967296);
    }
}

/// The bit pattern of a float sample survives the byte round trip exactly,
/// whatever finite value it represents.
pub proof fn lemma_f32_bits_round_trip(bits: u32)
    ensures
        le32(
            bits as int % 256,
            (bits as int / 256) % 256,
            (bits as int / 65536) % 256,
            bits as int / 16777216,
        ) == bits as int,
{
    lemma_fundamental_div_mod(bits as int, 256);
    lemma_fundamental_div_mod(bits as int / 256, 256);
    lemma_fundamental_div_mod(bits as int / 65536, 256);
    lemma_div_denominator(bits as int, 256, 256);
    lemma_div_denominator(bits as int, 65536, 256);
}

/// Eight-byte version of the float bit-pattern round trip.
pub proof fn lemma_f64_bits_round_trip(bits: u64)
    ensures
        le64(
            (bits as int % 4294967296) % 256,
            ((bits as int % 4294967296) / 256) % 256,
            ((bits as int % 4294967296) / 65536) % 256,
            (bits as int % 4294967296) / 16777216,
            (bits as int / 4294967296) % 256,
            ((bits as int / 4294967296) / 256) % 256,
            ((bits as int / 4294967296) / 65536) % 256,
            (bits as int / 4294967296) / 16777216,
        ) == bits as int,
{
    let lo = bits as int % 4294967296;
    let hi = bits as int / 4294967296;
    lemma_fundamental_div_mod(bits as int, 4294967296);
    lemma_f32_bits_round_trip((lo) as u32);
    lemma_f32_bits_round_trip((hi) as u32);
}

/// Decode a region of interleaved integer PCM bytes into a chunk.
/// `bytes_read` many leading bytes carry captured data: they determine
/// `valid_frames`; the rest of the buffer is already zero padding.
pub fn buffer_to_chunk_bytes(
    buf: &Vec<u8>,
    channels: usize,
    fmt: SampleFormat,
    bytes_read: usize,
    frames: usize,
) -> (r: AudioChunk)
    requires
        fmt.spec_is_int(),
        channels > 0,
        buf.len() == frames * channels * fmt.spec_store_bytes(),
        bytes_read <= buf.len(),
        channels * fmt.spec_store_bytes() <= usize::MAX,
    ensures
        r.wf(),
        r.bounds_exact(),
        r.frames == frames,
        r.spec_channels() == channels,
        r.valid_frames == bytes_read as int / (channels * fmt.spec_store_bytes()),
        forall|c: int, f: int|
            0 <= c < channels && 0 <= f < frames ==> #[trigger] r.waveforms@[c]@[f]
                == decode_int_spec(fmt, buf@, (f * channels + c) * fmt.spec_store_bytes()),
{
    let store = fmt.store_bytes();
    let chsb = channels * store;
    let valid = bytes_read / chsb;
    proof {
        lemma_div_is_ordered(bytes_read as int, buf@.len() as int, chsb as int);
        assert(buf@.len() as int == chsb as int * frames) by (nonlinear_arith)
            requires
                buf@.len() as int == frames * channels * fmt.spec_store_bytes(),
                chsb == channels * fmt.spec_store_bytes();
        assert(buf@.len() == buf.len());
        lemma_div_multiples_vanish(frames as int, chsb as int);
    }
    let mut waveforms: Vec<Vec<i64>> = Vec::new();
    let mut c: usize = 0;
    while c < channels
        invariant
            c <= channels,
            channels > 0,
            fmt.spec_is_int(),
            store == fmt.spec_store_bytes(),
            buf.len() == frames * channels * store,
            waveforms@.len() == c,
            forall|cc: int| 0 <= cc < c ==> (#[trigger] waveforms@[cc])@.len() == frames,
            forall|cc: int, ff: int|
                0 <= cc < c && 0 <= ff < frames ==> #[trigger] waveforms@[cc]@[ff]
                    == decode_int_spec(fmt, buf@, (ff * channels + cc) * store),
        decreases channels - c,
    {
        let mut wave: Vec<i64> = Vec::new();
        let mut f: usize = 0;
        while f < frames
            invariant
                f <= frames,
                c < channels,
                fmt.spec_is_int(),
                store == fmt.spec_store_bytes(),
                buf.len() == frames * channels * store,
                wave@.len() == f,
                forall|ff: int|
                    0 <= ff < f ==> #[trigger] wave@[ff] == decode_int_spec(
                        fmt,
                        buf@,
                        (ff * channels + c) * store,
                    ),
            decreases frames - f,
        {
            proof {
                assert((f * channels + c) * store + store <= frames * channels * store
                    && f * channels + c <= frames * channels * store) by (nonlinear_arith)
                    requires
                        0 <= f < frames,
                        0 <= c < channels,
                        1 <= store;
            }
            let off = (f * channels + c) * store;
            let s = read_sample(fmt, buf, off);
            wave.push(s);
            f = f + 1;
        }
        waveforms.push(wave);
        c = c + 1;
    }
    AudioChunk::from_samples(waveforms, valid, frames)
}

/// The bytes starting at `off` encode the sample `v`: they decode back to
/// its clamped code, and for `S24LE` the fourth byte holds the sign
/// extension, which `decode_int_spec` does not read.
pub open spec fn encoded_sample_at(fmt: SampleFormat, b: Seq<u8>, off: int, v: int) -> bool {
    &&& decode_int_spec(fmt, b, off) == encode_code_spec(fmt, v) * spec_shift(fmt)
    &&& (fmt is S24LE ==> b[off + 3] as int == (if encode_code_spec(fmt, v) < 0 {
        255int
    } else {
        0int
    }))
}

/// Encode the valid frames of a chunk as interleaved integer PCM bytes.
pub fn chunk_to_buffer_bytes(chunk: &AudioChunk, fmt: SampleFormat) -> (out: Vec<u8>)
    requires
        fmt.spec_is_int(),
        chunk.wf(),
        chunk.valid_frames * chunk.spec_channels() * fmt.spec_store_bytes() <= usize::MAX,
    ensures
        out@.len() == chunk.valid_frames * chunk.spec_channels() * fmt.spec_store_bytes(),
        forall|f: int, c: int|
            0 <= f < chunk.valid_frames && 0 <= c < chunk.spec_channels()
                ==> #[trigger] encoded_sample_at(
                fmt,
                out@,
                (f * chunk.spec_channels() + c) * fmt.spec_store_bytes(),
                chunk.waveforms@[c]@[f] as int,
            ),
{
    let store = fmt.store_bytes();
    let channels = chunk.waveforms.len();
    let valid = chunk.valid_frames;
    let mut out: Vec<u8> = Vec::new();
    let mut f: usize = 0;
    while f < valid
        invariant
            f <= valid,
            store == fmt.spec_store_bytes(),
            fmt.spec_is_int(),
            channels == chunk.spec_channels(),
            chunk.wf(),
            valid == chunk.valid_frames,
            valid * channels * store <= usize::MAX,
            out@.len() == f * channels * store,
            forall|ff: int, cc: int|
                0 <= ff < f && 0 <= cc < channels ==> #[trigger] encoded_sample_at(
                    fmt,
                    out@,
                    (ff * channels + cc) * store,
                    chunk.waveforms@[cc]@[ff] as int,
                ),
        decreases valid - f,
    {
        let mut c: usize = 0;
        while c < channels
            invariant
                c <= channels,
                f < valid,
                store == fmt.spec_store_bytes(),
                fmt.spec_is_int(),
                channels == chunk.spec_channels(),
                chunk.wf(),
                valid == chunk.valid_frames,
                valid * channels * store <= usize::MAX,
                out@.len() == f * channels * store + c * store,
                forall|ff: int, cc: int|
                    0 <= ff < f && 0 <= cc < channels ==> #[trigger] encoded_sample_at(
                        fmt,
                        out@,
                        (ff * channels + cc) * store,
                        chunk.waveforms@[cc]@[ff] as int,
                    ),
                forall|cc: int|
                    0 <= cc < c ==> #[trigger] encoded_sample_at(
                        fmt,
                        out@,
                        (f * channels + cc) * store,
                        chunk.waveforms@[cc]@[f as int] as int,
                    ),
            decreases channels - c,
        {
            proof {
                assert(f * channels * store + c * store == (f * channels + c) * store
                    && (f * channels + c) * store + store <= valid * channels * store
                    && forall|ff: int, cc: int|
                        0 <= ff && 0 <= cc < channels && (ff < f || (ff == f && cc < c)) ==> (
                        ff * channels + cc) * store + #[trigger] (ff * channels + cc) * 0 + store
                            <= (f * channels + c) * store) by (nonlinear_arith)
                    requires
                        0 <= f < valid,
                        0 <= c < channels,
                        1 <= store;
            }
            let s = chunk.waveforms[c][f];
            let ghost prev = out@;
            encode_sample(fmt, s, &mut out);
            proof {
                assert forall|ff: int, cc: int|
                    0 <= ff < f && 0 <= cc < channels implies #[trigger] encoded_sample_at(
                    fmt,
                    out@,
                    (ff * channels + cc) * store,
                    chunk.waveforms@[cc]@[ff] as int,
                ) by {
                    assert((ff * channels + cc) * store + store <= prev.len()) by (nonlinear_arith)
                        requires
                            0 <= ff < f,
                            0 <= cc < channels,
                            1 <= store,
                            prev.len() == f * channels * store + c * store,
                            0 <= c;
                    if fmt is S24LE {
                        assert(store == 4);
                        assert((ff * channels + cc) * store + 3 < prev.len());
                    }
                    assert(encoded_sample_at(
                        fmt,
                        prev,
                        (ff * channels + cc) * store,
                        chunk.waveforms@[cc]@[ff] as int,
                    ));
                }
                assert forall|cc: int|
                    0 <= cc < c implies #[trigger] encoded_sample_at(
                    fmt,
                    out@,
                    (f * channels + cc) * store,
                    chunk.waveforms@[cc]@[f as int] as int,
                ) by {
                    assert((f * channels + cc) * store + store <= prev.len()) by (nonlinear_arith)
                        requires
                            0 <= cc < c,
                            1 <= store,
                            prev.len() == f * channels * store + c * store,
                            0 <= f;
                    if fmt is S24LE {
                        assert(store == 4);
                        assert((f * channels + cc) * store + 3 < prev.len());
                    }
                    assert(encoded_sample_at(
                        fmt,
                        prev,
                        (f * channels + cc) * store,
                        chunk.waveforms@[cc]@[f as int] as int,
                    ));
                }
                assert(prev.len() == (f * channels + c) * store) by (nonlinear_arith)
                    requires
                        prev.len() == f * channels * store + c * store;
            }
            c = c + 1;
        }
        proof {
            assert(f * channels * store + channels * store == (f + 1) * channels * store)
                by (nonlinear_arith);
        }
        f = f + 1;
    }
    proof {
        assert(valid * channels * store == chunk.valid_frames * chunk.spec_channels()
            * fmt.spec_store_bytes()) by (nonlinear_arith)
            requires
                valid == chunk.valid_frames,
                channels == chunk.spec_channels(),
                store == fmt.spec_store_bytes();
    }
    out
}

} // verus!
