use audiopipe::capture::{
    capture_buffer_bytes, get_nbr_capture_bytes, run_capture, send_silence, silent_limit_chunks,
    CaptureParams, SilenceGate,
};
use audiopipe::chunk::AudioMessage;
use audiopipe::SampleFormat;

const FX: f64 = 4294967296.0;

fn s16_stream(frames: usize, channels: usize) -> Vec<u8> {
    let mut bytes = Vec::new();
    for f in 0..frames {
        for c in 0..channels {
            let v = ((f * 7 + c * 3) % 2000) as i16 - 1000;
            bytes.extend_from_slice(&v.to_le_bytes());
        }
    }
    bytes
}

fn params(chunksize: usize, channels: usize, extra_samples: usize) -> CaptureParams {
    CaptureParams {
        channels,
        format: SampleFormat::S16LE,
        chunksize,
        extra_samples,
        silent_limit: 0,
        silence: 0,
    }
}

fn valid_frames_of(messages: &[AudioMessage]) -> Vec<usize> {
    messages
        .iter()
        .filter_map(|m| match m {
            AudioMessage::Audio(c) => Some(c.valid_frames),
            AudioMessage::EndOfStream => None,
        })
        .collect()
}

#[test]
fn capture_4800_frames_without_reserve() {
    let input = s16_stream(4800, 2);
    let p = params(1024, 2, 0);
    let r = run_capture(&input, &p);
    // four full chunks, one short chunk, then the terminator
    assert_eq!(r.messages.len(), 6);
    assert!(matches!(r.messages[5], AudioMessage::EndOfStream));
    assert_eq!(valid_frames_of(&r.messages), vec![1024, 1024, 1024, 1024, 704]);
    for m in &r.messages[0..5] {
        match m {
            AudioMessage::Audio(c) => {
                assert_eq!(c.frames, 1024);
                assert_eq!(c.waveforms.len(), 2);
            }
            AudioMessage::EndOfStream => panic!("terminator before the end"),
        }
    }
    assert_eq!(r.dropped_frames, 0);
}

#[test]
fn capture_4800_frames_with_reserve_pads_and_flushes() {
    let input = s16_stream(4800, 2);
    let p = params(1024, 2, 2048);
    let r = run_capture(&input, &p);
    // the short read is padded from the reserve, the rest flushes as silence
    assert_eq!(valid_frames_of(&r.messages), vec![1024, 1024, 1024, 1024, 1024, 1024, 704]);
    assert_eq!(r.messages.len(), 8);
    assert!(matches!(r.messages[7], AudioMessage::EndOfStream));
    // conservation: delivered == captured + extra
    let total: usize = valid_frames_of(&r.messages).iter().sum();
    assert_eq!(total, 4800 + 2048);
    // the flushed chunks are silent
    match &r.messages[5] {
        AudioMessage::Audio(c) => {
            assert_eq!(c.minval, 0);
            assert_eq!(c.maxval, 0);
        }
        AudioMessage::EndOfStream => panic!("expected audio"),
    }
}

#[test]
fn silence_gate_pauses_after_limit_and_conserves_frames() {
    // five silent chunks of one channel
    let input = vec![0u8; 5 * 1024 * 2];
    let p = CaptureParams {
        channels: 1,
        format: SampleFormat::S16LE,
        chunksize: 1024,
        extra_samples: 0,
        silent_limit: 2,
        silence: 1000,
    };
    let r = run_capture(&input, &p);
    // two silent chunks pass, the remaining three are withheld
    assert_eq!(valid_frames_of(&r.messages), vec![1024, 1024]);
    assert_eq!(r.dropped_frames, 3 * 1024);
    let total: usize = valid_frames_of(&r.messages).iter().sum();
    assert_eq!(total + r.dropped_frames, 5 * 1024);
}

#[test]
fn capture_emits_quiet_prefix_then_the_loud_chunk() {
    // three silent chunks, then one loud chunk, limit 1:
    // counts run 1 (emit), 2 (drop), 3 (drop), then the loud chunk resets
    let mut input = vec![0u8; 3 * 4 * 2];
    // the loud chunk alternates 0.5 and 0, a spread above the threshold
    let loud_chunk = [0x00u8, 0x40, 0x00, 0x00, 0x00, 0x40, 0x00, 0x00];
    input.extend_from_slice(&loud_chunk);
    let p = CaptureParams {
        channels: 1,
        format: SampleFormat::S16LE,
        chunksize: 4,
        extra_samples: 0,
        silent_limit: 1,
        silence: 1000,
    };
    let r = run_capture(&input, &p);
    assert_eq!(valid_frames_of(&r.messages), vec![4, 4]);
    match &r.messages[1] {
        AudioMessage::Audio(c) => {
            assert_eq!(c.waveforms[0], vec![0x4000 * 131072, 0, 0x4000 * 131072, 0]);
        }
        AudioMessage::EndOfStream => panic!("expected the loud chunk"),
    }
    assert_eq!(r.dropped_frames, 2 * 4);
}

#[test]
fn silence_gate_resumes_on_loud_chunk() {
    let mut gate = SilenceGate { limit: 2, count: 0 };
    let mut emitted = Vec::new();
    for _ in 0..5 {
        emitted.push(gate.update(false));
    }
    emitted.push(gate.update(true));
    assert_eq!(emitted, vec![true, true, false, false, false, true]);
}

#[test]
fn send_silence_splits_into_chunks() {
    let mut queue = Vec::new();
    send_silence(2500, 2, 1024, &mut queue);
    assert_eq!(valid_frames_of(&queue), vec![1024, 1024, 452]);
    for m in &queue {
        match m {
            AudioMessage::Audio(c) => {
                assert_eq!(c.frames, 1024);
                assert_eq!(c.minval, 0);
                assert_eq!(c.maxval, 0);
                assert!(c.waveforms.iter().all(|w| w.iter().all(|&s| s == 0)));
            }
            AudioMessage::EndOfStream => panic!("send_silence sends audio only"),
        }
    }
}

#[test]
fn send_silence_of_zero_samples_sends_nothing() {
    let mut queue = Vec::new();
    send_silence(0, 2, 1024, &mut queue);
    assert!(queue.is_empty());
    // an even split has no partial tail
    send_silence(2048, 2, 1024, &mut queue);
    assert_eq!(valid_frames_of(&queue), vec![1024, 1024]);
}

#[test]
fn capture_decodes_the_bytes_it_reads() {
    // two frames of one channel: 0x0001 and 0xfffe (-2) as S16LE
    let input = vec![0x01u8, 0x00, 0xfe, 0xff];
    let p = params(2, 1, 0);
    let r = run_capture(&input, &p);
    assert_eq!(r.messages.len(), 2);
    match &r.messages[0] {
        AudioMessage::Audio(c) => {
            assert_eq!(c.waveforms[0], vec![131072, -2 * 131072]);
            assert_eq!(c.minval, -2 * 131072);
            assert_eq!(c.maxval, 131072);
        }
        AudioMessage::EndOfStream => panic!("expected audio"),
    }
}

#[test]
fn capture_bytes_follow_resampler_request() {
    assert_eq!(get_nbr_capture_bytes(Some(441), 4096, 2, 2), 441 * 4);
    assert_eq!(get_nbr_capture_bytes(None, 4096, 2, 2), 4096);
}

#[test]
fn capture_buffer_is_large_enough_for_rate_ratio() {
    // 48000 -> 44100 at chunksize 1024 needs ceil(48000/44100*1024) = 1115 frames
    let r = capture_buffer_bytes(48000, 44100, 1024, 2, 2);
    assert!(r >= 1115 * 2 * 2 * 2);
}

#[test]
fn silent_limit_divides_the_full_product() {
    // 3 s at 44100 Hz with 1024-frame chunks: floor(3*44100/1024) chunks
    let timeout = (3.0 * FX) as i64;
    assert_eq!(silent_limit_chunks(timeout, 44100, 1024), 129);
    // the full product is divided, not samplerate/chunksize first
    let two = (2.0 * FX) as i64;
    assert_eq!(silent_limit_chunks(two, 2047, 1024), 3);
}
