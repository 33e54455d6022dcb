//! The processing worker's loop body: route audio through the pipeline,
//! forward the terminator, keep the order.

use crate::chunk::{AudioChunk, AudioMessage};
use crate::filters::{pipeline_chain, spec_steps_out, spec_steps_wf, Pipeline, PipelineStep};
use vstd::prelude::*;

verus! {

/// A run of the processing worker: `pipes` holds the pipeline's steps
/// before the first message, between each pair, and after the last. Each
/// audio message is transformed by exactly one pipeline pass over the
/// state it meets; the terminator passes through and leaves the pipeline
/// untouched.
pub open spec fn messages_chain(
    pipes: Seq<Seq<PipelineStep>>,
    input: Seq<AudioMessage>,
    output: Seq<AudioMessage>,
) -> bool {
    &&& pipes.len() == input.len() + 1
    &&& output.len() == input.len()
    &&& forall|i: int|
        0 <= i < input.len() ==> match #[trigger] input[i] {
            AudioMessage::Audio(c) => output[i] is Audio && exists|chunks: Seq<AudioChunk>|
                #[trigger] pipeline_chain(pipes[i], pipes[i + 1], chunks) && chunks[0] == c
                    && chunks[pipes[i].len() as int] == output[i]->Audio_0,
            AudioMessage::EndOfStream => output[i] is EndOfStream && pipes[i + 1] == pipes[i],
        }
}

/// Process a queue of messages in order. Message `i` of the result comes
/// from message `i` of the input: audio is transformed by the pipeline
/// (witnessed by a chain of pipeline states threaded through the queue),
/// `EndOfStream` passes through unchanged, and nothing is reordered,
/// added or dropped.
pub fn process_messages(pipeline: &mut Pipeline, input: Vec<AudioMessage>, channels: usize) -> (r:
    Vec<AudioMessage>)
    requires
        channels > 0,
        spec_steps_wf(old(pipeline).steps@, channels as int),
        forall|i: int|
            0 <= i < input@.len() ==> ((#[trigger] input@[i]) matches AudioMessage::Audio(c)
                ==> c.wf() && c.spec_channels() == channels),
    ensures
        final(pipeline).wf(channels as int),
        spec_steps_out(final(pipeline).steps@, channels as int) == spec_steps_out(
            old(pipeline).steps@,
            channels as int,
        ),
        r@.len() == input@.len(),
        forall|i: int|
            0 <= i < input@.len() ==> ((#[trigger] r@[i]) is EndOfStream <==> input@[i]
                is EndOfStream),
        forall|i: int|
            0 <= i < input@.len() ==> (input@[i] matches AudioMessage::Audio(c) ==> ((
            #[trigger] r@[i]) matches AudioMessage::Audio(d) && d.wf() && d.frames == c.frames
                && d.valid_frames == c.valid_frames && d.spec_channels() == spec_steps_out(
                old(pipeline).steps@,
                channels as int,
            ))),
        exists|pipes: Seq<Seq<PipelineStep>>|
            #[trigger] messages_chain(pipes, input@, r@) && pipes[0] == old(pipeline).steps@
                && pipes[input@.len() as int] == final(pipeline).steps@,
{
    let ghost input_s = input@;
    let ghost target = spec_steps_out(pipeline.steps@, channels as int);
    let n = input.len();
    let mut rest = input;
    let mut out: Vec<AudioMessage> = Vec::new();
    let mut i: usize = 0;
    let ghost mut pipes: Seq<Seq<PipelineStep>> = seq![pipeline.steps@];
    let ghost mut wits: Seq<Seq<AudioChunk>> = Seq::empty();
    while i < n
        invariant
            i + rest@.len() == n,
            n == input_s.len(),
            channels > 0,
            rest@ == input_s.skip(i as int),
            pipeline.wf(channels as int),
            spec_steps_out(pipeline.steps@, channels as int) == target,
            forall|j: int|
                0 <= j < input_s.len() ==> ((#[trigger] input_s[j]) matches AudioMessage::Audio(c)
                    ==> c.wf() && c.spec_channels() == channels),
            out@.len() == i,
            pipes.len() == i + 1,
            pipes[0] == old(pipeline).steps@,
            pipes[i as int] == pipeline.steps@,
            forall|j: int|
                0 <= j < i ==> ((#[trigger] out@[j]) is EndOfStream <==> input_s[j]
                    is EndOfStream),
            forall|j: int|
                0 <= j < i ==> (input_s[j] matches AudioMessage::Audio(c) ==> ((
                #[trigger] out@[j]) matches AudioMessage::Audio(d) && d.wf() && d.frames
                    == c.frames && d.valid_frames == c.valid_frames && d.spec_channels()
                    == target)),
            wits.len() == i,
            forall|j: int|
                0 <= j < i ==> match #[trigger] input_s[j] {
                    AudioMessage::Audio(c) => out@[j] is Audio && pipeline_chain(
                        pipes[j],
                        pipes[j + 1],
                        wits[j],
                    ) && wits[j][0] == c && wits[j][pipes[j].len() as int] == out@[j]->Audio_0,
                    AudioMessage::EndOfStream => out@[j] is EndOfStream && pipes[j + 1]
                        == pipes[j],
                },
        decreases n - i,
    {
        proof {
            assert(rest@[0] == input_s[i as int]);
            assert(rest@.skip(1) =~= input_s.skip(i as int + 1));
        }
        let msg = rest.remove(0);
        match msg {
            AudioMessage::Audio(chunk) => {
                let ghost c0 = chunk;
                let ghost pre_steps = pipeline.steps@;
                let processed = pipeline.process_chunk(chunk);
                let ghost p0 = processed;
                out.push(AudioMessage::Audio(processed));
                proof {
                    let chunks0 = choose|chunks: Seq<AudioChunk>|
                        #[trigger] pipeline_chain(pre_steps, pipeline.steps@, chunks) && chunks[0]
                            == c0 && chunks[pre_steps.len() as int] == p0;
                    pipes = pipes.push(pipeline.steps@);
                    wits = wits.push(chunks0);
                    assert(pipes[i as int] == pre_steps);
                    assert(pipes[i as int + 1] == pipeline.steps@);
                    assert(pipeline_chain(pipes[i as int], pipes[i as int + 1], chunks0)
                        && chunks0[0] == c0 && chunks0[pipes[i as int].len() as int]
                        == out@[i as int]->Audio_0);
                }
            },
            AudioMessage::EndOfStream => {
                out.push(AudioMessage::EndOfStream);
                proof {
                    pipes = pipes.push(pipeline.steps@);
                    wits = wits.push(Seq::empty());
                }
            },
        }
        i = i + 1;
    }
    proof {
        assert forall|j: int| 0 <= j < input_s.len() implies match #[trigger] input_s[j] {
            AudioMessage::Audio(c) => out@[j] is Audio && exists|chunks: Seq<AudioChunk>|
                #[trigger] pipeline_chain(pipes[j], pipes[j + 1], chunks) && chunks[0] == c
                    && chunks[pipes[j].len() as int] == out@[j]->Audio_0,
            AudioMessage::EndOfStream => out@[j] is EndOfStream && pipes[j + 1] == pipes[j],
        } by {
            match input_s[j] {
                AudioMessage::Audio(c) => {
                    assert(pipeline_chain(pipes[j], pipes[j + 1], wits[j]) && wits[j][0] == c
                        && wits[j][pipes[j].len() as int] == out@[j]->Audio_0);
                },
                AudioMessage::EndOfStream => {},
            }
        }
        assert(messages_chain(pipes, input_s, out@));
    }
    out
}

} // verus!
