//! Filter configuration, validation, and the processing pipeline.

use crate::basicfilters::{Delay, Gain};
use crate::biquad::{Biquad, BiquadCoefficients};
use crate::chunk::AudioChunk;
use crate::firconv::ConvFilter;
use crate::fixed::fx_mul_spec;
use crate::mixer::Mixer;
use vstd::prelude::*;

verus! {

/// A configuration fault found at validation time.
#[derive(Clone, Copy, PartialEq, Eq, Structural, Debug)]
pub enum ConfigError {
    NegativeDelay,
    NegativeGain,
    EmptyKernel,
}

/// One filter as configured. Gains and kernel values are fixed-point
/// linear factors; the delay is fixed-point milliseconds.
pub enum FilterConfig {
    Conv { values: Vec<i64> },
    Biquad { coefficients: BiquadCoefficients },
    Delay { delay_ms: i64 },
    Gain { gain: i64, inverted: bool },
}

/// What validation accepts: a non-empty kernel, a non-negative delay, and
/// a non-negative linear gain.
pub open spec fn spec_filter_valid(cfg: FilterConfig) -> bool {
    match cfg {
        FilterConfig::Conv { values } => values@.len() >= 1,
        FilterConfig::Biquad { .. } => true,
        FilterConfig::Delay { delay_ms } => delay_ms >= 0,
        FilterConfig::Gain { gain, .. } => gain >= 0,
    }
}

/// Check one filter configuration, naming the fault instead of panicking
/// later.
pub fn validate_filter(filter_config: &FilterConfig) -> (r: Result<(), ConfigError>)
    ensures
        r is Ok <==> spec_filter_valid(*filter_config),
        r is Err ==> match *filter_config {
            FilterConfig::Conv { .. } => r->Err_0 == ConfigError::EmptyKernel,
            FilterConfig::Biquad { .. } => false,
            FilterConfig::Delay { .. } => r->Err_0 == ConfigError::NegativeDelay,
            FilterConfig::Gain { .. } => r->Err_0 == ConfigError::NegativeGain,
        },
{
    match filter_config {
        FilterConfig::Conv { values } => {
            if values.len() == 0 {
                Err(ConfigError::EmptyKernel)
            } else {
                Ok(())
            }
        },
        FilterConfig::Biquad { .. } => Ok(()),
        FilterConfig::Delay { delay_ms } => {
            if *delay_ms < 0 {
                Err(ConfigError::NegativeDelay)
            } else {
                Ok(())
            }
        },
        FilterConfig::Gain { gain, .. } => {
            if *gain < 0 {
                Err(ConfigError::NegativeGain)
            } else {
                Ok(())
            }
        },
    }
}

/// Delay in whole samples: `delay_ms * rate / 1000`, rounded half up, with
/// the fixed-point scale divided out.
pub open spec fn spec_delay_samples(delay_ms: int, rate: int) -> int {
    (delay_ms * rate + 2147483648000) / 4294967296000
}

/// Convert a configured delay to samples.
pub fn delay_samples(delay_ms: i64, rate: usize) -> (r: usize)
    requires
        delay_ms >= 0,
        rate <= 1000000000,
        spec_delay_samples(delay_ms as int, rate as int) <= usize::MAX,
    ensures
        r == spec_delay_samples(delay_ms as int, rate as int),
{
    proof {
        assert(delay_ms as int * rate as int <= 9223372036854775807int * 1000000000int)
            by (nonlinear_arith)
            requires
                0 <= delay_ms as int <= 9223372036854775807,
                0 <= rate as int <= 1000000000;
        assert(delay_ms as int * rate as int >= 0) by (nonlinear_arith)
            requires
                delay_ms as int >= 0,
                rate as int >= 0;
    }
    let num: u128 = (delay_ms as u128) * (rate as u128) + 2147483648000u128;
    let q: u128 = num / 4294967296000u128;
    q as usize
}

/// One filter instance with its state, dispatched by variant.
pub enum Filter {
    Conv(ConvFilter),
    Biquad(Biquad),
    Delay(Delay),
    Gain(Gain),
}

/// The exact transform one filter application performs: how the waveform
/// after relates to the waveform before, and how the filter state advances.
pub open spec fn filter_step_rel(pre: Filter, w0: Seq<i64>, post: Filter, w1: Seq<i64>) -> bool {
    &&& w1.len() == w0.len()
    &&& match pre {
        Filter::Gain(g) => post == pre && forall|i: int|
            0 <= i < w0.len() ==> w1[i] == fx_mul_spec(g.factor as int, w0[i] as int),
        Filter::Delay(d) => post is Delay && post->Delay_0.delay == d.delay && (forall|i: int|
            0 <= i < w0.len() ==> w1[i] == (d.buffer@ + w0)[i]) && (forall|t: int|
            0 <= t < d.delay ==> post->Delay_0.buffer@[t] == (d.buffer@ + w0)[w0.len() + t]),
        Filter::Biquad(b) => post is Biquad && post->Biquad_0.coeffs == b.coeffs && (forall|i: int|
            0 <= i < w0.len() ==> w1[i] == crate::biquad::spec_biquad_y(
                b.coeffs,
                crate::biquad::spec_biquad_state(b.coeffs, b.s1 as int, b.s2 as int, w0, i).0,
                w0[i] as int,
            )) && (post->Biquad_0.s1 as int, post->Biquad_0.s2 as int)
            == crate::biquad::spec_biquad_state(
            b.coeffs,
            b.s1 as int,
            b.s2 as int,
            w0,
            w0.len() as int,
        ),
        Filter::Conv(c) => post is Conv && post->Conv_0.kernel == c.kernel && (forall|n: int|
            0 <= n < w0.len() ==> w1[n] == crate::firconv::spec_conv_out(
                c.kernel@,
                c.history@ + w0,
                n,
            )) && (forall|t: int|
            0 <= t < post->Conv_0.history@.len() ==> post->Conv_0.history@[t] == (c.history@
                + w0)[w0.len() + t]),
    }
}

impl Filter {
    pub open spec fn wf(self) -> bool {
        match self {
            Filter::Conv(c) => c.wf(),
            Filter::Delay(d) => d.wf(),
            Filter::Biquad(..) => true,
            Filter::Gain(..) => true,
        }
    }

    /// Apply the filter to one waveform in place: each variant's exact
    /// transform, with the length always preserved.
    pub fn process_waveform(&mut self, w: &mut Vec<i64>)
        requires
            old(self).wf(),
        ensures
            final(self).wf(),
            filter_step_rel(*old(self), old(w)@, *final(self), final(w)@),
    {
        match self {
            Filter::Conv(c) => c.process_waveform(w),
            Filter::Biquad(b) => b.process_waveform(w),
            Filter::Delay(d) => d.process_waveform(w),
            Filter::Gain(g) => g.process_waveform(w),
        }
    }
}

/// A run of a filter group over one waveform: `mids` holds the waveform
/// before the first filter, between each pair, and after the last, and
/// each filter performs exactly its own transform on its slot.
pub open spec fn group_chain(pre: Seq<Filter>, post: Seq<Filter>, mids: Seq<Seq<i64>>) -> bool {
    &&& post.len() == pre.len()
    &&& mids.len() == pre.len() + 1
    &&& forall|i: int|
        0 <= i < pre.len() ==> #[trigger] filter_step_rel(pre[i], mids[i], post[i], mids[i + 1])
}

/// An ordered group of filters applied to one channel.
pub struct FilterGroup {
    pub channel: usize,
    pub filters: Vec<Filter>,
}

/// A filter freshly built from its configuration: the matching variant,
/// the converted parameters, and silent starting state.
pub open spec fn spec_filter_built(cfg: FilterConfig, f: Filter, sample_freq: int) -> bool {
    match cfg {
        FilterConfig::Conv { values } => f is Conv && f->Conv_0.kernel@ == values@
            && f->Conv_0.history@.len() == values@.len() - 1 && (forall|t: int|
            0 <= t < f->Conv_0.history@.len() ==> f->Conv_0.history@[t] == 0),
        FilterConfig::Biquad { coefficients } => f is Biquad && f->Biquad_0.coeffs == coefficients
            && f->Biquad_0.s1 == 0 && f->Biquad_0.s2 == 0,
        FilterConfig::Delay { delay_ms } => f is Delay && f->Delay_0.delay == spec_delay_samples(
            delay_ms as int,
            sample_freq,
        ) && (forall|t: int| 0 <= t < f->Delay_0.buffer@.len() ==> f->Delay_0.buffer@[t] == 0),
        FilterConfig::Gain { gain, inverted } => f is Gain && f->Gain_0.factor == (if inverted {
            -(gain as int)
        } else {
            gain as int
        }),
    }
}

impl FilterGroup {
    pub open spec fn wf(self) -> bool {
        forall|i: int| 0 <= i < self.filters@.len() ==> (#[trigger] self.filters@[i]).wf()
    }

    /// Creates a group of filters to process a chunk: the i-th filter is
    /// built from the i-th configuration, in declared order.
    pub fn from_config(channel: usize, configs: Vec<FilterConfig>, sample_freq: usize) -> (r:
        FilterGroup)
        requires
            sample_freq <= 1000000000,
            forall|i: int|
                0 <= i < configs@.len() ==> spec_filter_valid(#[trigger] configs@[i]),
            forall|i: int|
                0 <= i < configs@.len() ==> ((#[trigger] configs@[i]) matches
                    FilterConfig::Delay { delay_ms } ==> spec_delay_samples(
                    delay_ms as int,
                    sample_freq as int,
                ) <= usize::MAX),
        ensures
            r.wf(),
            r.channel == channel,
            r.filters@.len() == configs@.len(),
            forall|i: int|
                0 <= i < configs@.len() ==> spec_filter_built(
                    configs@[i],
                    #[trigger] r.filters@[i],
                    sample_freq as int,
                ),
    {
        let ghost configs_s = configs@;
        let n = configs.len();
        let mut filters: Vec<Filter> = Vec::new();
        let mut i: usize = 0;
        let mut rest = configs;
        proof {
            assert(rest@ =~= configs_s.skip(0));
        }
        while i < n
            invariant
                i + rest@.len() == n,
                n == configs_s.len(),
                sample_freq <= 1000000000,
                rest@ == configs_s.skip(i as int),
                forall|j: int|
                    0 <= j < configs_s.len() ==> spec_filter_valid(#[trigger] configs_s[j]),
                forall|j: int|
                    0 <= j < configs_s.len() ==> ((#[trigger] configs_s[j]) matches
                        FilterConfig::Delay { delay_ms } ==> spec_delay_samples(
                        delay_ms as int,
                        sample_freq as int,
                    ) <= usize::MAX),
                filters@.len() == i,
                forall|j: int| 0 <= j < i ==> (#[trigger] filters@[j]).wf(),
                forall|j: int|
                    0 <= j < i ==> spec_filter_built(
                        configs_s[j],
                        #[trigger] filters@[j],
                        sample_freq as int,
                    ),
            decreases n - i,
        {
            proof {
                assert(rest@[0] == configs_s[i as int]);
                assert(rest@.remove(0) =~= configs_s.skip(i as int + 1));
            }
            let cfg = rest.remove(0);
            let filter: Filter = match cfg {
                FilterConfig::Conv { values } => Filter::Conv(ConvFilter::from_config(values)),
                FilterConfig::Biquad { coefficients } => Filter::Biquad(Biquad::new(coefficients)),
                FilterConfig::Delay { delay_ms } => Filter::Delay(
                    Delay::from_config(delay_samples(delay_ms, sample_freq)),
                ),
                FilterConfig::Gain { gain, inverted } => Filter::Gain(
                    Gain::from_config(gain, inverted),
                ),
            };
            filters.push(filter);
            i = i + 1;
        }
        FilterGroup { channel, filters }
    }

    /// Apply all the filters, in order, to the group's channel of the
    /// chunk. No other channel and no chunk bookkeeping changes.
    pub fn process_chunk(&mut self, input: &mut AudioChunk)
        requires
            old(self).wf(),
            old(input).wf(),
            old(self).channel < old(input).spec_channels(),
        ensures
            final(self).wf(),
            final(self).channel == old(self).channel,
            final(self).filters@.len() == old(self).filters@.len(),
            final(input).wf(),
            final(input).frames == old(input).frames,
            final(input).valid_frames == old(input).valid_frames,
            final(input).minval == old(input).minval,
            final(input).maxval == old(input).maxval,
            final(input).spec_channels() == old(input).spec_channels(),
            forall|c: int|
                0 <= c < old(input).spec_channels() && c != old(self).channel
                    ==> final(input).waveforms@[c] == old(input).waveforms@[c],
            exists|mids: Seq<Seq<i64>>|
                #[trigger] group_chain(old(self).filters@, final(self).filters@, mids)
                    && mids[0] == old(input).waveforms@[old(self).channel as int]@
                    && mids[old(self).filters@.len() as int]
                    == final(input).waveforms@[old(self).channel as int]@,
    {
        let ch = self.channel;
        let n = self.filters.len();
        let mut i: usize = 0;
        let ghost mut mids: Seq<Seq<i64>> = seq![input.waveforms@[ch as int]@];
        while i < n
            invariant
                i <= n,
                n == self.filters@.len(),
                self.channel == ch,
                ch < input.spec_channels(),
                self.wf(),
                input.wf(),
                input.frames == old(input).frames,
                input.valid_frames == old(input).valid_frames,
                input.minval == old(input).minval,
                input.maxval == old(input).maxval,
                input.spec_channels() == old(input).spec_channels(),
                self.channel == old(self).channel,
                self.filters@.len() == old(self).filters@.len(),
                forall|c: int|
                    0 <= c < old(input).spec_channels() && c != ch ==> input.waveforms@[c] == old(
                        input,
                    ).waveforms@[c],
                mids.len() == i + 1,
                mids[0] == old(input).waveforms@[ch as int]@,
                mids[i as int] == input.waveforms@[ch as int]@,
                forall|j: int|
                    0 <= j < i ==> #[trigger] filter_step_rel(
                        old(self).filters@[j],
                        mids[j],
                        self.filters@[j],
                        mids[j + 1],
                    ),
                forall|j: int| i <= j < n ==> self.filters@[j] == old(self).filters@[j],
            decreases n - i,
        {
            self.filters[i].process_waveform(&mut input.waveforms[ch]);
            proof {
                mids = mids.push(input.waveforms@[ch as int]@);
            }
            i = i + 1;
        }
        proof {
            assert(group_chain(old(self).filters@, self.filters@, mids));
        }
    }
}

/// A Pipeline is a series of steps, each one a mixer or a group of
/// filters.
pub enum PipelineStep {
    MixerStep(Mixer),
    FilterStep(FilterGroup),
}

/// The steps compose over the channel counts: each mixer consumes the
/// current count and yields its own, each filter group touches a channel
/// that exists.
pub open spec fn spec_steps_wf(steps: Seq<PipelineStep>, ch: int) -> bool
    decreases steps.len(),
{
    if steps.len() == 0 {
        true
    } else {
        match steps[0] {
            PipelineStep::MixerStep(m) => m.wf() && m.channels_in == ch && spec_steps_wf(
                steps.skip(1),
                m.channels_out as int,
            ),
            PipelineStep::FilterStep(g) => g.wf() && (g.channel as int) < ch && spec_steps_wf(
                steps.skip(1),
                ch,
            ),
        }
    }
}

/// The channel count leaving the steps.
pub open spec fn spec_steps_out(steps: Seq<PipelineStep>, ch: int) -> int
    decreases steps.len(),
{
    if steps.len() == 0 {
        ch
    } else {
        match steps[0] {
            PipelineStep::MixerStep(m) => spec_steps_out(steps.skip(1), m.channels_out as int),
            PipelineStep::FilterStep(..) => spec_steps_out(steps.skip(1), ch),
        }
    }
}

/// Appending a step that is compatible with the current output keeps the
/// composition well-formed.
pub proof fn lemma_steps_wf_push(steps: Seq<PipelineStep>, ch: int, step: PipelineStep)
    requires
        spec_steps_wf(steps, ch),
        match step {
            PipelineStep::MixerStep(m) => m.wf() && m.channels_in == spec_steps_out(steps, ch),
            PipelineStep::FilterStep(g) => g.wf() && (g.channel as int) < spec_steps_out(
                steps,
                ch,
            ),
        },
    ensures
        spec_steps_wf(steps.push(step), ch),
        spec_steps_out(steps.push(step), ch) == (match step {
            PipelineStep::MixerStep(m) => m.channels_out as int,
            PipelineStep::FilterStep(..) => spec_steps_out(steps, ch),
        }),
    decreases steps.len(),
{
    let snoc = steps.push(step);
    if steps.len() == 0 {
        assert(spec_steps_out(steps, ch) == ch);
        assert(snoc[0] == step);
        assert(snoc.skip(1) =~= Seq::<PipelineStep>::empty());
        match step {
            PipelineStep::MixerStep(m) => {
                assert(spec_steps_wf(snoc.skip(1), m.channels_out as int));
                assert(spec_steps_out(snoc.skip(1), m.channels_out as int) == m.channels_out as int);
            },
            PipelineStep::FilterStep(g) => {
                assert(spec_steps_wf(snoc.skip(1), ch));
                assert(spec_steps_out(snoc.skip(1), ch) == ch);
            },
        }
    } else {
        assert(snoc.skip(1) =~= steps.skip(1).push(step));
        assert(snoc[0] == steps[0]);
        match steps[0] {
            PipelineStep::MixerStep(m) => {
                assert(spec_steps_out(steps, ch) == spec_steps_out(steps.skip(1), m.channels_out as int));
                lemma_steps_wf_push(steps.skip(1), m.channels_out as int, step);
            },
            PipelineStep::FilterStep(..) => {
                assert(spec_steps_out(steps, ch) == spec_steps_out(steps.skip(1), ch));
                lemma_steps_wf_push(steps.skip(1), ch, step);
            },
        }
    }
}

/// The exact transform one pipeline step performs on a chunk: a mixer step
/// mixes every output sample and leaves the mixer unchanged; a filter step
/// runs its filter chain on its channel and touches nothing else.
pub open spec fn pipeline_step_rel(
    pre: PipelineStep,
    post: PipelineStep,
    a: AudioChunk,
    b: AudioChunk,
) -> bool {
    match pre {
        PipelineStep::MixerStep(m) => {
            &&& post == pre
            &&& b.frames == a.frames
            &&& b.valid_frames == a.valid_frames
            &&& b.waveforms@.len() == m.channels_out
            &&& forall|j: int, f: int|
                0 <= j < m.channels_out && 0 <= f < a.frames ==> #[trigger] b.waveforms@[j]@[f]
                    == crate::mixer::spec_mix_sample(
                    m.mapping@[j]@,
                    a.waveforms@,
                    f,
                    m.mapping@[j]@.len() as int,
                )
        },
        PipelineStep::FilterStep(g) => {
            &&& post is FilterStep
            &&& post->FilterStep_0.channel == g.channel
            &&& b.frames == a.frames
            &&& b.valid_frames == a.valid_frames
            &&& b.waveforms@.len() == a.waveforms@.len()
            &&& forall|c: int|
                0 <= c < a.waveforms@.len() && c != g.channel ==> b.waveforms@[c]
                    == a.waveforms@[c]
            &&& exists|mids: Seq<Seq<i64>>|
                #[trigger] group_chain(g.filters@, post->FilterStep_0.filters@, mids) && mids[0]
                    == a.waveforms@[g.channel as int]@ && mids[g.filters@.len() as int]
                    == b.waveforms@[g.channel as int]@
        },
    }
}

/// A run of the pipeline over a chunk: `chunks` holds the chunk entering,
/// between each pair of steps, and leaving, and each step performs exactly
/// its own transform on its slot.
pub open spec fn pipeline_chain(
    pre: Seq<PipelineStep>,
    post: Seq<PipelineStep>,
    chunks: Seq<AudioChunk>,
) -> bool {
    &&& post.len() == pre.len()
    &&& chunks.len() == pre.len() + 1
    &&& forall|i: int|
        0 <= i < pre.len() ==> #[trigger] pipeline_step_rel(
            pre[i],
            post[i],
            chunks[i],
            chunks[i + 1],
        )
}

/// Decide channel compatibility of a step sequence: exactly whether the
/// composition is well-formed from `channels` input channels. Lets a
/// caller establish the pipeline's precondition through a contracted call.
pub fn steps_compatible(steps: &Vec<PipelineStep>, channels: usize) -> (r: bool)
    ensures
        r == spec_steps_wf(steps@, channels as int),
{
    let n = steps.len();
    let mut ch = channels;
    let mut i: usize = 0;
    proof {
        assert(steps@.skip(0) =~= steps@);
    }
    while i < n
        invariant
            i <= n,
            n == steps@.len(),
            spec_steps_wf(steps@, channels as int) == spec_steps_wf(
                steps@.skip(i as int),
                ch as int,
            ),
        decreases n - i,
    {
        let ghost suffix = steps@.skip(i as int);
        proof {
            assert(suffix[0] == steps@[i as int]);
            assert(suffix.skip(1) =~= steps@.skip(i as int + 1));
        }
        match &steps[i] {
            PipelineStep::MixerStep(m) => {
                if !mixer_well_formed(m) || m.channels_in != ch {
                    return false;
                }
                ch = m.channels_out;
            },
            PipelineStep::FilterStep(g) => {
                if !group_well_formed(g) || g.channel >= ch {
                    return false;
                }
            },
        }
        i = i + 1;
    }
    proof {
        assert(steps@.skip(n as int) =~= Seq::<PipelineStep>::empty());
    }
    true
}

/// Decide a mixer's well-formedness: exactly `Mixer::wf`.
fn mixer_well_formed(m: &Mixer) -> (r: bool)
    ensures
        r == m.wf(),
{
    if m.mapping.len() != m.channels_out {
        return false;
    }
    let mut j: usize = 0;
    while j < m.mapping.len()
        invariant
            j <= m.mapping@.len(),
            m.mapping@.len() == m.channels_out,
            forall|jj: int, ss: int|
                0 <= jj < j && 0 <= ss < m.mapping@[jj]@.len() ==> (
                #[trigger] m.mapping@[jj]@[ss]).channel < m.channels_in
                    && m.mapping@[jj]@[ss].gain >= 0,
        decreases m.mapping@.len() - j,
    {
        let row = &m.mapping[j];
        let mut t: usize = 0;
        while t < row.len()
            invariant
                t <= row@.len(),
                j < m.mapping@.len(),
                row == &m.mapping@[j as int],
                forall|ss: int|
                    0 <= ss < t ==> (#[trigger] m.mapping@[j as int]@[ss]).channel
                        < m.channels_in && m.mapping@[j as int]@[ss].gain >= 0,
            decreases row@.len() - t,
        {
            let src = row[t];
            if src.channel >= m.channels_in || src.gain < 0 {
                return false;
            }
            t = t + 1;
        }
        j = j + 1;
    }
    true
}

/// Decide a filter group's well-formedness: exactly `FilterGroup::wf`.
fn group_well_formed(g: &FilterGroup) -> (r: bool)
    ensures
        r == g.wf(),
{
    let mut i: usize = 0;
    while i < g.filters.len()
        invariant
            i <= g.filters@.len(),
            forall|j: int| 0 <= j < i ==> (#[trigger] g.filters@[j]).wf(),
        decreases g.filters@.len() - i,
    {
        let ok = match &g.filters[i] {
            Filter::Conv(c) => c.kernel.len() >= 1 && c.history.len() == c.kernel.len() - 1,
            Filter::Delay(d) => d.buffer.len() == d.delay,
            Filter::Biquad(..) => true,
            Filter::Gain(..) => true,
        };
        if !ok {
            return false;
        }
        i = i + 1;
    }
    true
}

/// The whole processing pipeline.
pub struct Pipeline {
    pub steps: Vec<PipelineStep>,
}

impl Pipeline {
    pub open spec fn wf(self, ch: int) -> bool {
        spec_steps_wf(self.steps@, ch)
    }

    /// Create a pipeline from the configured steps.
    pub fn from_config(steps: Vec<PipelineStep>) -> (r: Pipeline)
        ensures
            r.steps == steps,
    {
        Pipeline { steps }
    }

    /// Process a chunk through every step in declared order. The frame
    /// counts carry through; the channel count leaving is the composition
    /// of the mixer steps.
    pub fn process_chunk(&mut self, chunk: AudioChunk) -> (r: AudioChunk)
        requires
            chunk.wf(),
            old(self).wf(chunk.spec_channels()),
        ensures
            r.wf(),
            r.frames == chunk.frames,
            r.valid_frames == chunk.valid_frames,
            r.spec_channels() == spec_steps_out(old(self).steps@, chunk.spec_channels()),
            final(self).wf(chunk.spec_channels()),
            spec_steps_out(final(self).steps@, chunk.spec_channels()) == spec_steps_out(
                old(self).steps@,
                chunk.spec_channels(),
            ),
            exists|chunks: Seq<AudioChunk>|
                #[trigger] pipeline_chain(old(self).steps@, final(self).steps@, chunks)
                    && chunks[0] == chunk && chunks[old(self).steps@.len() as int] == r,
    {
        let ghost ch0 = chunk.spec_channels();
        let ghost target = spec_steps_out(old(self).steps@, ch0);
        let n = self.steps.len();
        let mut cur = chunk;
        let mut i: usize = 0;
        let ghost mut done: Seq<PipelineStep> = Seq::empty();
        let ghost mut trace: Seq<AudioChunk> = seq![chunk];
        proof {
            assert(self.steps@.skip(0) =~= self.steps@);
        }
        while i < n
            invariant
                i <= n,
                n == self.steps@.len(),
                cur.wf(),
                cur.frames == chunk.frames,
                cur.valid_frames == chunk.valid_frames,
                done.len() == i,
                spec_steps_wf(done, ch0),
                spec_steps_out(done, ch0) == cur.spec_channels(),
                done + self.steps@.skip(i as int) =~= self.steps@,
                spec_steps_wf(self.steps@.skip(i as int), cur.spec_channels()),
                spec_steps_out(self.steps@.skip(i as int), cur.spec_channels()) == target,
                forall|j: int| i <= j < n ==> self.steps@[j] == old(self).steps@[j],
                trace.len() == i + 1,
                trace[0] == chunk,
                trace[i as int] == cur,
                forall|j: int|
                    0 <= j < i ==> #[trigger] pipeline_step_rel(
                        old(self).steps@[j],
                        self.steps@[j],
                        trace[j],
                        trace[j + 1],
                    ),
            decreases n - i,
        {
            let ghost pre = self.steps@;
            let ghost suffix = pre.skip(i as int);
            proof {
                assert(suffix[0] == pre[i as int]);
                assert(suffix.skip(1) =~= pre.skip(i as int + 1));
            }
            match &mut self.steps[i] {
                PipelineStep::MixerStep(mix) => {
                    cur = mix.process_chunk(&cur);
                },
                PipelineStep::FilterStep(flt) => {
                    flt.process_chunk(&mut cur);
                },
            }
            proof {
                let stepped = self.steps@[i as int];
                assert(self.steps@ =~= pre.update(i as int, stepped));
                assert(self.steps@.skip(i as int + 1) =~= pre.skip(i as int + 1));
                lemma_steps_wf_push(done, ch0, stepped);
                done = done.push(stepped);
                assert(done + self.steps@.skip(i as int + 1) =~= self.steps@);
                trace = trace.push(cur);
                assert(pipeline_step_rel(
                    old(self).steps@[i as int],
                    self.steps@[i as int],
                    trace[i as int],
                    trace[i as int + 1],
                ));
            }
            i = i + 1;
        }
        proof {
            assert(self.steps@.skip(n as int) =~= Seq::<PipelineStep>::empty());
            assert(done =~= self.steps@);
            assert(pipeline_chain(old(self).steps@, self.steps@, trace));
        }
        cur
    }
}

} // verus!
