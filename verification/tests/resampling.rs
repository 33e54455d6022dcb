use audiopipe::capture::get_nbr_capture_bytes;
use audiopipe::pcm::buffer_to_chunk_bytes;
use audiopipe::SampleFormat;
use rubato::audioadapter_buffers::owned::InterleavedOwned;
use rubato::{Async, FixedAsync, PolynomialDegree, Resampler};

const FX: f64 = 4294967296.0;

#[test]
fn resampling_48000_to_44100_yields_about_44100_samples() {
    let channels = 1usize;
    let chunksize = 1024usize;
    let store = 2usize; // S16LE
    let total_frames = 48000usize;
    // a gentle ramp as 16-bit PCM
    let mut input: Vec<u8> = Vec::new();
    for f in 0..total_frames {
        let v = ((f % 128) as i16 - 64) * 16;
        input.extend_from_slice(&v.to_le_bytes());
    }
    let mut resampler = Async::<f64>::new_poly(
        44100.0 / 48000.0,
        1.1,
        PolynomialDegree::Septic,
        chunksize,
        channels,
        FixedAsync::Input,
    )
    .unwrap();
    let chunk_bytes = chunksize * channels * store;
    let mut pos = 0usize;
    let mut output_frames = 0usize;
    loop {
        let capture_bytes = get_nbr_capture_bytes(
            Some(resampler.input_frames_next()),
            chunk_bytes,
            channels,
            store,
        );
        if pos >= input.len() {
            break;
        }
        let avail = input.len() - pos;
        let bytes = avail.min(capture_bytes);
        let mut buf = input[pos..pos + bytes].to_vec();
        buf.resize(capture_bytes, 0);
        pos += bytes;
        let frames = capture_bytes / (channels * store);
        let chunk = buffer_to_chunk_bytes(&buf, channels, SampleFormat::S16LE, bytes, frames);
        // hand the resampler the chunk as floats
        let mut interleaved = vec![0f64; channels * frames];
        for f in 0..frames {
            for c in 0..channels {
                interleaved[f * channels + c] = chunk.waveforms[c][f] as f64 / FX;
            }
        }
        let adapter = InterleavedOwned::new_from(interleaved, channels, frames).unwrap();
        let out = resampler.process(&adapter, None).unwrap();
        output_frames += out.take_data().len() / channels;
    }
    let diff = output_frames as i64 - 44100;
    assert!(
        diff.abs() <= chunksize as i64,
        "expected about 44100 output frames, got {}",
        output_frames
    );
}
