use audiopipe::chunk::AudioChunk;
use audiopipe::fixed::FX_ONE;
use audiopipe::pcm::{
    buffer_to_chunk_bytes, chunk_to_buffer_bytes, push_f32_bits, push_f64_bits, read_f32_bits,
    read_f64_bits, read_sample,
};
use audiopipe::SampleFormat;

fn chunk_of(samples: Vec<i64>) -> AudioChunk {
    let frames = samples.len();
    AudioChunk::from_samples(vec![samples], frames, frames)
}

fn round_trip(fmt: SampleFormat, samples: Vec<i64>) -> Vec<i64> {
    let frames = samples.len();
    let chunk = chunk_of(samples);
    let bytes = chunk_to_buffer_bytes(&chunk, fmt);
    assert_eq!(bytes.len(), frames * fmt.store_bytes());
    let decoded = buffer_to_chunk_bytes(&bytes, 1, fmt, bytes.len(), frames);
    decoded.waveforms[0].clone()
}

#[test]
fn s16_round_trip_is_exact_on_code_multiples() {
    let step = 131072i64; // 2^32 / 2^15
    let samples = vec![0, step, -step, 1000 * step, -1000 * step, 32767 * step, -32768 * step];
    assert_eq!(round_trip(SampleFormat::S16LE, samples.clone()), samples);
}

#[test]
fn s24_round_trip_is_exact_on_code_multiples() {
    let step = 512i64; // 2^32 / 2^23
    let samples = vec![0, step, -step, 123456 * step, 8388607 * step, -8388608 * step];
    assert_eq!(round_trip(SampleFormat::S24LE, samples.clone()), samples);
}

#[test]
fn s32_round_trip_is_exact_on_code_multiples() {
    let step = 2i64; // 2^32 / 2^31
    let samples = vec![0, step, -step, 2147483647 * step, -2147483648 * step];
    assert_eq!(round_trip(SampleFormat::S32LE, samples.clone()), samples);
}

#[test]
fn encode_clamps_out_of_range_samples() {
    let loud = vec![2 * FX_ONE, -2 * FX_ONE];
    let decoded = round_trip(SampleFormat::S16LE, loud);
    assert_eq!(decoded, vec![32767 * 131072, -32768 * 131072]);
}

#[test]
fn s16_decode_known_bytes() {
    // -32768 then +1 as little-endian 16-bit words
    let bytes = vec![0x00u8, 0x80, 0x01, 0x00];
    assert_eq!(read_sample(SampleFormat::S16LE, &bytes, 0), -32768 * 131072);
    assert_eq!(read_sample(SampleFormat::S16LE, &bytes, 2), 131072);
}

#[test]
fn s24_encode_writes_sign_extension_byte() {
    let chunk = chunk_of(vec![-512, 512]);
    let bytes = chunk_to_buffer_bytes(&chunk, SampleFormat::S24LE);
    // -1 encodes as ff ff ff with sign byte ff; +1 as 01 00 00 with sign byte 00
    assert_eq!(bytes, vec![0xff, 0xff, 0xff, 0xff, 0x01, 0x00, 0x00, 0x00]);
}

#[test]
fn s24_decode_sign_extends_high_byte() {
    // -1 in 24-bit with sign-extension byte, then +2
    let bytes = vec![0xffu8, 0xff, 0xff, 0xff, 0x02, 0x00, 0x00, 0x00];
    assert_eq!(read_sample(SampleFormat::S24LE, &bytes, 0), -512);
    assert_eq!(read_sample(SampleFormat::S24LE, &bytes, 4), 2 * 512);
}

#[test]
fn f32_bit_pattern_round_trip_is_exact() {
    for v in [0.0f32, 1.0, -1.0, 0.3333333, f32::MIN_POSITIVE, f32::MAX, -0.0] {
        let bits = v.to_bits();
        let mut buf: Vec<u8> = Vec::new();
        push_f32_bits(bits, &mut buf);
        assert_eq!(read_f32_bits(&buf, 0), bits);
        assert_eq!(f32::from_bits(read_f32_bits(&buf, 0)), v);
        assert_eq!(buf, v.to_le_bytes().to_vec());
    }
}

#[test]
fn f64_bit_pattern_round_trip_is_exact() {
    for v in [0.0f64, 1.0, -1.0, 0.1, f64::MIN_POSITIVE, f64::MAX, -12345.6789] {
        let bits = v.to_bits();
        let mut buf: Vec<u8> = Vec::new();
        push_f64_bits(bits, &mut buf);
        assert_eq!(read_f64_bits(&buf, 0), bits);
        assert_eq!(buf, v.to_le_bytes().to_vec());
    }
}

#[test]
fn chunk_bounds_are_exact_min_and_max() {
    let chunk = AudioChunk::from_samples(vec![vec![5, -7, 3], vec![0, 2, -1]], 3, 3);
    assert_eq!(chunk.minval, -7);
    assert_eq!(chunk.maxval, 5);
    let silent = AudioChunk::from_samples(vec![vec![0, 0], vec![0, 0]], 2, 2);
    assert_eq!(silent.minval, 0);
    assert_eq!(silent.maxval, 0);
}
