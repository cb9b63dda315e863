//! The estimator and the scheduler working together over one session.

use robodrummer::combine::{
    quantization_interval_us, PredictionBuffer, Scheduler, SchedulerStep,
};
use robodrummer::spectrum::Spectrum;
use robodrummer::window::{HitAction, InputWindow};

use rustfft::num_complex::Complex;
use rustfft::FftPlanner;

fn estimate(window: &InputWindow) -> Option<Spectrum> {
    let buffer = window.create_fft_buffer()?;
    let mut samples: Vec<Complex<f64>> = buffer
        .iter()
        .map(|&a| Complex {
            re: a as f64 / 1_000_000.0,
            im: 0.0,
        })
        .collect();
    let mut planner = FftPlanner::new();
    planner.plan_fft_forward(samples.len()).process(&mut samples);
    let mags: Vec<u64> = samples
        .iter()
        .map(|c| (c.norm() * 1_000_000.0) as u64)
        .collect();
    let mut spectrum = Spectrum::from_fft_magnitudes(&mags, 50);
    spectrum.spectral_sum();
    Some(spectrum)
}

#[test]
fn isochronous_session_fires_on_the_grid() {
    // onsets every 500 ms from time zero: an isochronous 120 BPM train
    let mut window = InputWindow::new_with_size(1024, 50);
    for i in 0..30u64 {
        if window.hit(i * 500, HitAction::BandedInterval(3)) {
            if let Some(spectrum) = estimate(&window) {
                window.update_best(&spectrum, true);
            }
        }
    }
    let best = window.best_mbpm;
    assert!((best as i64 - 120_000).unsigned_abs() <= 2_400);

    // drive the scheduler from the estimate, subdivision 4, threshold
    // one half, no actuator delay, with an always-eager feel stream
    let interval = quantization_interval_us(best, 4);
    let mut predictions = PredictionBuffer::new(100, 2, 0);
    let mut scheduler = Scheduler {
        next_quantize_us: 3_000_000,
        interval_us: interval,
        threshold_micro: 500_000,
        delay_us: 0,
        timestep_ms: 2,
    };
    let mut fires = Vec::new();
    let mut now: u64 = 3_000_000;
    while now <= 4_000_000 {
        predictions.record(now, 1_000, 900_000);
        if let SchedulerStep::Fire { at_us } = scheduler.step(now, &predictions) {
            fires.push(at_us);
        }
        now += 5_000;
    }
    // at least three beats inside the second, one interval apart
    assert!(fires.len() >= 3, "only {} beats", fires.len());
    for pair in fires.windows(2) {
        let gap = (pair[1] - pair[0]) as i64;
        assert!((gap - interval as i64).unsigned_abs() <= 5_000);
    }
}
