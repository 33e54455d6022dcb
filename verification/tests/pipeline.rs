use audiopipe::chunk::{AudioChunk, AudioMessage};
use audiopipe::coordinator::{Coordinator, CoordinatorAction, StatusMessage};
use audiopipe::filters::{FilterConfig, FilterGroup, Pipeline, PipelineStep};
use audiopipe::fixed::FX_ONE;
use audiopipe::mixer::{Mixer, MixerSource};
use audiopipe::processing::process_messages;

fn stereo_chunk(a: Vec<i64>, b: Vec<i64>, valid: usize) -> AudioChunk {
    let frames = a.len();
    AudioChunk::from_samples(vec![a, b], valid, frames)
}

#[test]
fn mixer_downmixes_to_configured_channel_count() {
    let half = FX_ONE / 2;
    let mapping = vec![vec![
        MixerSource { channel: 0, gain: half, inverted: false },
        MixerSource { channel: 1, gain: half, inverted: false },
    ]];
    let mix = Mixer::from_config(2, 1, mapping);
    let input = stereo_chunk(vec![FX_ONE, 0], vec![FX_ONE / 2, FX_ONE], 2);
    let out = mix.process_chunk(&input);
    assert_eq!(out.waveforms.len(), 1);
    assert_eq!(out.frames, 2);
    assert_eq!(out.valid_frames, 2);
    assert_eq!(out.waveforms[0], vec![half + FX_ONE / 4, FX_ONE / 2]);
}

#[test]
fn mixer_inverted_source_subtracts() {
    let mapping = vec![vec![
        MixerSource { channel: 0, gain: FX_ONE, inverted: false },
        MixerSource { channel: 1, gain: FX_ONE, inverted: true },
    ]];
    let mix = Mixer::from_config(2, 1, mapping);
    let input = stereo_chunk(vec![FX_ONE], vec![FX_ONE / 4], 1);
    let out = mix.process_chunk(&input);
    assert_eq!(out.waveforms[0], vec![FX_ONE - FX_ONE / 4]);
}

fn demo_pipeline() -> Pipeline {
    // stereo downmixed to mono, then an inverting unit gain on the channel
    let mapping = vec![vec![
        MixerSource { channel: 0, gain: FX_ONE / 2, inverted: false },
        MixerSource { channel: 1, gain: FX_ONE / 2, inverted: false },
    ]];
    let mix = Mixer::from_config(2, 1, mapping);
    let group = FilterGroup::from_config(
        0,
        vec![FilterConfig::Gain { gain: FX_ONE, inverted: true }],
        48000,
    );
    Pipeline::from_config(vec![PipelineStep::MixerStep(mix), PipelineStep::FilterStep(group)])
}

#[test]
fn pipeline_applies_steps_in_order() {
    let mut p = demo_pipeline();
    let chunk = stereo_chunk(vec![FX_ONE, 0], vec![0, FX_ONE], 2);
    let out = p.process_chunk(chunk);
    assert_eq!(out.waveforms.len(), 1);
    assert_eq!(out.waveforms[0], vec![-FX_ONE / 2, -FX_ONE / 2]);
}

#[test]
fn processing_preserves_order_and_forwards_terminator() {
    let mut p = demo_pipeline();
    let first = stereo_chunk(vec![1, 2, 3], vec![0, 0, 0], 3);
    let second = stereo_chunk(vec![4, 5], vec![0, 0], 2);
    let input = vec![
        AudioMessage::Audio(first),
        AudioMessage::Audio(second),
        AudioMessage::EndOfStream,
    ];
    let out = process_messages(&mut p, input, 2);
    assert_eq!(out.len(), 3);
    match &out[0] {
        AudioMessage::Audio(c) => assert_eq!((c.frames, c.valid_frames), (3, 3)),
        AudioMessage::EndOfStream => panic!("first message must stay audio"),
    }
    match &out[1] {
        AudioMessage::Audio(c) => assert_eq!((c.frames, c.valid_frames), (2, 2)),
        AudioMessage::EndOfStream => panic!("second message must stay audio"),
    }
    assert!(matches!(out[2], AudioMessage::EndOfStream));
}

#[test]
fn coordinator_releases_barrier_only_when_both_ready() {
    let mut c = Coordinator::new();
    assert_eq!(c.handle_status(&StatusMessage::PlaybackReady), CoordinatorAction::Continue);
    assert!(!c.released);
    assert_eq!(c.handle_status(&StatusMessage::CaptureReady), CoordinatorAction::ReleaseBarrier);
    assert!(c.released);
    // a repeated ready message does not release twice
    assert_eq!(c.handle_status(&StatusMessage::PlaybackReady), CoordinatorAction::Continue);
}

#[test]
fn coordinator_finishes_on_done_and_errors() {
    let mut c = Coordinator::new();
    assert_eq!(c.handle_status(&StatusMessage::CaptureDone), CoordinatorAction::Continue);
    assert_eq!(c.handle_status(&StatusMessage::PlaybackDone), CoordinatorAction::FinishOk);
    assert_eq!(
        c.handle_status(&StatusMessage::PlaybackError { message: String::from("boom") }),
        CoordinatorAction::FinishError
    );
    assert_eq!(
        c.handle_status(&StatusMessage::CaptureError { message: String::from("boom") }),
        CoordinatorAction::FinishError
    );
}
