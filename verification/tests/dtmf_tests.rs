use goertzel::dtmf::{DigState, NULL};
use goertzel::goertzel::{goertzeliter, GoertzelConfig};

fn default_config() -> GoertzelConfig {
    let n = 1200usize;
    let fs = 48000.0f64;
    let mut window: Vec<i32> = Vec::new();
    for i in 0..n {
        let h = 0.54 - 0.46 * (2.0 * std::f64::consts::PI * (i as f64) / ((n - 1) as f64)).cos();
        window.push((h * 32768.0).round() as i32);
    }
    let freqs = [697.0f64, 770.0, 852.0, 941.0, 1209.0, 1336.0, 1477.0];
    let mut coeffs: Vec<i64> = Vec::new();
    for f in freqs.iter() {
        let c = 2.0
            * (2.0 * std::f64::consts::PI / (n as f64) * (0.5 + (n as f64) * f / fs)).cos();
        coeffs.push((c * 16384.0).round() as i64);
    }
    GoertzelConfig {
        window,
        coeffs,
        thresh_mag: 2_000_000_000,
        thresh_rel_peaks: vec![135, 135, 115, 135, 30000, 200, 200],
        thresh_rel_energy: 42,
    }
}

fn two_tone(f1: f64, f2: f64, amplitude: f64, samples: usize) -> Vec<i16> {
    let fs = 48000.0f64;
    let mut out = Vec::new();
    for i in 0..samples {
        let t = i as f64 / fs;
        let v = amplitude * ((2.0 * std::f64::consts::PI * f1 * t).sin()
            + (2.0 * std::f64::consts::PI * f2 * t).sin());
        out.push(v as i16);
    }
    out
}

#[test]
fn debouncer_emits_after_two_hits() {
    let mut s = DigState::default();
    assert_eq!(s.poosh(5), None);
    assert_eq!(s.poosh(5), Some(5));
}

#[test]
fn debouncer_never_repeats_held_digit() {
    let mut s = DigState::default();
    assert_eq!(s.poosh(5), None);
    assert_eq!(s.poosh(5), Some(5));
    for _ in 0..10 {
        assert_eq!(s.poosh(5), None);
    }
}

#[test]
fn debouncer_reemits_after_release() {
    let mut s = DigState::default();
    assert_eq!(s.poosh(5), None);
    assert_eq!(s.poosh(5), Some(5));
    assert_eq!(s.poosh(NULL), None);
    assert_eq!(s.poosh(NULL), None);
    assert_eq!(s.poosh(5), None);
    assert_eq!(s.poosh(5), Some(5));
}

#[test]
fn one_hit_threshold_emits_immediately() {
    let mut s = DigState { hits_to_begin: 1, misses_to_end: 1, ..DigState::default() };
    assert_eq!(s.poosh(5), Some(5));
    assert_eq!(s.poosh(5), None);
    // the break re-emits the candidate it interrupted, then its own digit
    assert_eq!(s.poosh(7), Some(5));
    assert_eq!(s.poosh(7), Some(7));
}

#[test]
fn debouncer_tracks_new_candidate() {
    let mut s = DigState::default();
    assert_eq!(s.poosh(5), None);
    assert_eq!(s.poosh(7), None);
    assert_eq!(s.poosh(7), Some(7));
}

#[test]
fn goertzel_silence_yields_nothing() {
    let cfg = default_config();
    let samples = vec![0i16; 12000];
    let digs = goertzeliter(&samples, cfg);
    assert!(digs.is_empty());
}

#[test]
fn goertzel_zero_key_burst() {
    // 100 ms silence, 60 ms of 941+1336 Hz, 100 ms silence: exactly one `0`.
    let cfg = default_config();
    let mut samples = vec![0i16; 4800];
    samples.extend(two_tone(941.0, 1336.0, 8000.0, 2880));
    samples.extend(vec![0i16; 4800]);
    let digs = goertzeliter(&samples, cfg);
    assert_eq!(digs, vec![0u8]);
}

#[test]
fn goertzel_digit_one_tone() {
    // A clean 697+1209 Hz tone held for 50 ms reads as digit 1.
    let cfg = default_config();
    let mut samples = vec![0i16; 2400];
    samples.extend(two_tone(697.0, 1209.0, 4000.0, 2400));
    samples.extend(vec![0i16; 2400]);
    let digs = goertzeliter(&samples, cfg);
    assert_eq!(digs, vec![1u8]);
}
