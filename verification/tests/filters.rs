use audiopipe::basicfilters::{Delay, Gain};
use audiopipe::biquad::{Biquad, BiquadCoefficients};
use audiopipe::filters::{delay_samples, validate_filter, ConfigError, FilterConfig};
use audiopipe::firconv::ConvFilter;
use audiopipe::fixed::FX_ONE;

const FX: f64 = 4294967296.0;

fn to_fx(v: f64) -> i64 {
    (v * FX).round() as i64
}

fn from_fx(v: i64) -> f64 {
    (v as f64) / FX
}

#[test]
fn gain_zero_db_is_identity() {
    let g = Gain::from_config(FX_ONE, false);
    let mut w = vec![0, FX_ONE, -FX_ONE, FX_ONE / 4, 123456789, -987654321];
    let before = w.clone();
    g.process_waveform(&mut w);
    assert_eq!(w, before);
}

#[test]
fn gain_six_db_doubles_quarter_to_half() {
    // +6.0206 dB is a linear factor of very nearly 2
    let factor = to_fx(10f64.powf(6.0206 / 20.0));
    let g = Gain::from_config(factor, false);
    let mut w = vec![to_fx(0.25)];
    g.process_waveform(&mut w);
    assert!((from_fx(w[0]) - 0.5).abs() < 1e-6);
}

#[test]
fn gain_inverted_negates() {
    let g = Gain::from_config(FX_ONE, true);
    let mut w = vec![to_fx(0.5)];
    g.process_waveform(&mut w);
    assert_eq!(w[0], -to_fx(0.5));
}

#[test]
fn biquad_bypass_coefficients_are_identity_with_zero_state() {
    let c = BiquadCoefficients { b0: FX_ONE, b1: 0, b2: 0, a1: 0, a2: 0 };
    let mut f = Biquad::new(c);
    let mut w = vec![to_fx(0.1), to_fx(-0.9), 12345, -1, 0, FX_ONE];
    let before = w.clone();
    f.process_waveform(&mut w);
    assert_eq!(w, before);
    assert_eq!(f.s1, 0);
    assert_eq!(f.s2, 0);
}

#[test]
fn biquad_lowpass_settles_to_dc_within_100_samples() {
    // RBJ cookbook lowpass at fc = sample_rate / 4, Q = 0.707
    let q = 0.707f64;
    let w0 = std::f64::consts::PI / 2.0;
    let alpha = w0.sin() / (2.0 * q);
    let cosw = w0.cos();
    let a0 = 1.0 + alpha;
    let c = BiquadCoefficients {
        b0: to_fx(((1.0 - cosw) / 2.0) / a0),
        b1: to_fx((1.0 - cosw) / a0),
        b2: to_fx(((1.0 - cosw) / 2.0) / a0),
        a1: to_fx((-2.0 * cosw) / a0),
        a2: to_fx((1.0 - alpha) / a0),
    };
    let mut f = Biquad::new(c);
    let mut w = vec![FX_ONE; 100];
    f.process_waveform(&mut w);
    assert!((from_fx(w[99]) - 1.0).abs() < 1e-3);
}

#[test]
fn delay_five_samples_shifts_impulse() {
    let mut d = Delay::from_config(5);
    let mut w = vec![FX_ONE, 0, 0, 0, 0, 0, 0, 0, 0, 0];
    d.process_waveform(&mut w);
    assert_eq!(w, vec![0, 0, 0, 0, 0, FX_ONE, 0, 0, 0, 0]);
}

#[test]
fn delay_carries_tail_across_blocks() {
    let mut d = Delay::from_config(2);
    let mut a = vec![1, 2, 3];
    d.process_waveform(&mut a);
    assert_eq!(a, vec![0, 0, 1]);
    let mut b = vec![4, 5, 6];
    d.process_waveform(&mut b);
    assert_eq!(b, vec![2, 3, 4]);
}

#[test]
fn delay_samples_rounds_milliseconds_to_samples() {
    // 5 ms at 48000 Hz is 240 samples
    assert_eq!(delay_samples(to_fx(5.0), 48000), 240);
    // 1.5 ms at 1000 Hz rounds half up to 2
    assert_eq!(delay_samples(to_fx(1.5), 1000), 2);
}

#[test]
fn conv_impulse_kernel_reproduces_input() {
    let mut f = ConvFilter::from_config(vec![FX_ONE]);
    let mut w = vec![to_fx(0.5), to_fx(-0.25), 7, 0, -FX_ONE];
    let before = w.clone();
    f.process_waveform(&mut w);
    assert_eq!(w, before);
}

#[test]
fn conv_moving_average_spans_blocks() {
    let half = FX_ONE / 2;
    let mut f = ConvFilter::from_config(vec![half, half]);
    let mut a = vec![FX_ONE, 0, 0];
    f.process_waveform(&mut a);
    assert_eq!(a, vec![half, half, 0]);
    let mut b = vec![FX_ONE, FX_ONE, 0];
    f.process_waveform(&mut b);
    assert_eq!(b, vec![half, FX_ONE, half]);
}

#[test]
fn validate_filter_rejects_negative_delay() {
    let cfg = FilterConfig::Delay { delay_ms: -1 };
    assert_eq!(validate_filter(&cfg), Err(ConfigError::NegativeDelay));
    let ok = FilterConfig::Delay { delay_ms: 0 };
    assert_eq!(validate_filter(&ok), Ok(()));
}

#[test]
fn validate_filter_rejects_empty_kernel() {
    let cfg = FilterConfig::Conv { values: vec![] };
    assert_eq!(validate_filter(&cfg), Err(ConfigError::EmptyKernel));
    let ok = FilterConfig::Conv { values: vec![FX_ONE] };
    assert_eq!(validate_filter(&ok), Ok(()));
}

#[test]
fn validate_filter_accepts_biquad_and_gain() {
    let b = FilterConfig::Biquad {
        coefficients: BiquadCoefficients { b0: FX_ONE, b1: 0, b2: 0, a1: 0, a2: 0 },
    };
    assert_eq!(validate_filter(&b), Ok(()));
    let g = FilterConfig::Gain { gain: FX_ONE, inverted: true };
    assert_eq!(validate_filter(&g), Ok(()));
}
