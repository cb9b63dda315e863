use robodrummer::spectrum::{FrequencyComponent, Spectrum};
use robodrummer::window::{HitAction, InputWindow};

use rustfft::num_complex::Complex;
use rustfft::FftPlanner;

/// Run the numeric transform over the window's buffer and hand the
/// magnitudes back as a spectrum, the way the running system does.
fn spectrum_of(window: &InputWindow) -> Option<Spectrum> {
    let buffer = window.create_fft_buffer()?;
    let mut samples: Vec<Complex<f64>> = buffer
        .iter()
        .map(|&a| Complex {
            re: a as f64 / 1_000_000.0,
            im: 0.0,
        })
        .collect();
    let mut planner = FftPlanner::new();
    let fft = planner.plan_fft_forward(samples.len());
    fft.process(&mut samples);
    let mags: Vec<u64> = samples
        .iter()
        .map(|c| (c.norm() * 1_000_000.0) as u64)
        .collect();
    let mut spectrum = Spectrum::from_fft_magnitudes(&mags, 50);
    spectrum.spectral_sum();
    Some(spectrum)
}

#[test]
fn hit_counts_and_window_order() {
    let mut w = InputWindow::new_with_size(16, 50);
    assert_eq!(w.hit_count, 0);
    assert!(!w.hit(0, HitAction::NoFourier));
    assert_eq!(w.hit_count, 1);
    assert!(!w.hit(500, HitAction::NoFourier));
    assert!(!w.hit(1000, HitAction::NoFourier));
    assert_eq!(w.hit_count, 3);
    // 500 ms at a 50 ms sample period is 10 periods
    assert_eq!(w.window[0], 20);
    assert_eq!(w.window[1], 10);
    assert_eq!(w.window[2], 0);
    // discrete times never increase from the front
    for i in 1..w.window.len() {
        assert!(w.window[i - 1] >= w.window[i]);
    }
}

#[test]
fn transform_due_every_third_hit() {
    let mut w = InputWindow::new_with_size(16, 50);
    let mut due = Vec::new();
    for i in 0..6 {
        due.push(w.hit(i * 500, HitAction::BandedInterval(3)));
    }
    assert_eq!(due, vec![false, false, true, false, false, true]);
}

#[test]
fn too_few_hits_give_no_buffer() {
    let mut w = InputWindow::new_with_size(1024, 50);
    for i in 0..4 {
        w.hit(i * 500, HitAction::NoFourier);
    }
    // four distinct hit times are below the five-hit minimum
    assert!(w.create_fft_buffer().is_none());
    w.hit(4 * 500, HitAction::NoFourier);
    assert!(w.create_fft_buffer().is_some());
}

#[test]
fn buffer_scales_hits_linearly() {
    let mut w = InputWindow::new_with_size(64, 50);
    for i in 0..6 {
        w.hit(i * 250, HitAction::NoFourier);
    }
    let buffer = w.create_fft_buffer().unwrap();
    assert_eq!(buffer.len(), 64);
    // newest hit sits at the buffer's end at full scale
    assert_eq!(buffer[63], 1_000_000);
    // the previous hit is five periods back: scale 1 - 5*50/5000
    assert_eq!(buffer[63 - 5], 1_000_000 - 5 * 50 * 200);
    // silence between hits
    assert_eq!(buffer[63 - 1], 0);
}

#[test]
fn band_recenters_and_clamps() {
    let mut w = InputWindow::new_with_size(16, 50);
    // a lone in-band bin at 120 BPM
    let spectrum = Spectrum(vec![FrequencyComponent(120_000, 500_000)]);
    assert!(w.update_best(&spectrum, true));
    assert_eq!(w.best_mbpm, 120_000);
    assert_eq!(w.min_band, 102_000);
    assert_eq!(w.max_band, 138_000);
    // a bin close to the lower clamp drags the band onto it
    let low = Spectrum(vec![FrequencyComponent(103_000, 500_000)]);
    assert!(w.update_best(&low, true));
    assert_eq!(w.best_mbpm, 103_000);
    assert_eq!(w.min_band, 87_550);
    assert_eq!(w.max_band, 118_450);
}

#[test]
fn out_of_band_bins_do_not_update() {
    let mut w = InputWindow::new_with_size(16, 50);
    // 30 BPM and 240 BPM both sit outside the 40..210 band
    let spectrum = Spectrum(vec![
        FrequencyComponent(30_000, 900_000),
        FrequencyComponent(240_000, 900_000),
    ]);
    assert!(!w.update_best(&spectrum, true));
    assert_eq!(w.best_mbpm, 120_000);
    assert_eq!(w.min_band, 40_000);
    assert_eq!(w.max_band, 210_000);
}

#[test]
fn dominant_in_band_bin_wins() {
    let mut w = InputWindow::new_with_size(16, 50);
    let spectrum = Spectrum(vec![
        FrequencyComponent(90_000, 100_000),
        FrequencyComponent(150_000, 700_000),
        FrequencyComponent(60_000, 300_000),
    ]);
    assert!(w.update_best(&spectrum, false));
    assert_eq!(w.best_mbpm, 150_000);
    // without the banded policy the band stays put
    assert_eq!(w.min_band, 40_000);
    assert_eq!(w.max_band, 210_000);
}

#[test]
fn steady_onsets_converge_to_their_tempo() {
    // onsets every 500 ms: 2 Hz, 120 BPM
    let mut w = InputWindow::new_with_size(1024, 50);
    let mut estimates = Vec::new();
    for i in 0..12 {
        if w.hit(i * 500, HitAction::BandedInterval(3)) {
            if let Some(spectrum) = spectrum_of(&w) {
                if w.update_best(&spectrum, true) {
                    estimates.push(w.best_mbpm);
                }
            }
        }
    }
    // the very first estimate, due on the sixth onset, sits within two
    // transform bins of 2 Hz, and later ones within 0.02 Hz of it
    let first = *estimates.first().expect("no estimate came out");
    assert!(
        (first as i64 - 120_000).unsigned_abs() <= 2_400,
        "first estimate {first} too far from 120 BPM"
    );
    let last = *estimates.last().unwrap();
    assert!((last as i64 - 120_000).unsigned_abs() <= 1_200);
}

#[test]
fn tempo_change_is_followed() {
    // ten hits at 500 ms, then a faster stretch at 300 ms — a tempo the
    // 50 ms sample grid carries exactly — estimated with the full 40-210
    // BPM band open.
    let mut w = InputWindow::new_with_size(1024, 50);
    let mut now: u64 = 0;
    for _ in 0..10 {
        step(&mut w, now, false);
        now += 500;
    }
    let first = w.best_mbpm;
    assert!((first as i64 - 120_000).unsigned_abs() <= 3_000);
    let mut history = Vec::new();
    for _ in 0..18 {
        step(&mut w, now, false);
        now += 300;
        history.push(w.best_mbpm);
    }
    let second = w.best_mbpm;
    assert!(
        (second as i64 - 200_000).unsigned_abs() <= 3_000,
        "estimate {second} did not follow the tempo change: {history:?}"
    );
}

#[test]
fn banded_estimator_clamps_a_large_jump() {
    // under the banded policy the accepted band is fifteen percent
    // around the last estimate, so a jump from 2 Hz to 3 Hz stays shut
    // out: the estimate holds near the old tempo while the band keeps
    // re-centering on it.
    let mut w = InputWindow::new_with_size(1024, 50);
    let mut now: u64 = 0;
    for _ in 0..10 {
        step(&mut w, now, true);
        now += 500;
    }
    for _ in 0..12 {
        step(&mut w, now, true);
        now += 300;
    }
    assert!(w.best_mbpm < 140_000);
    // the band stands re-centered around the estimate it kept
    assert_eq!(w.min_band, w.best_mbpm * 85 / 100);
    assert_eq!(w.max_band, w.best_mbpm * 115 / 100);
}

fn step(w: &mut InputWindow, now: u64, banded: bool) {
    let action = if banded {
        HitAction::BandedInterval(3)
    } else {
        HitAction::Interval(3)
    };
    if w.hit(now, action) {
        if let Some(spectrum) = spectrum_of(w) {
            w.update_best(&spectrum, banded);
        }
    }
}

