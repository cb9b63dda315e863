use robodrummer::runner::{adjusted_timestep_ms, sleep_remainder_us, InputPulse};

#[test]
fn pulse_width_is_exact() {
    let mut p = InputPulse::new(30);
    // nothing before an onset
    assert!(!p.tick());
    p.on_onset();
    let mut active = 0;
    for _ in 0..40 {
        if p.tick() {
            active += 1;
        }
    }
    // an onset drives the input for exactly its width
    assert_eq!(active, 30);
}

#[test]
fn new_onset_rearms_the_pulse() {
    let mut p = InputPulse::new(3);
    p.on_onset();
    assert!(p.tick());
    p.on_onset();
    assert!(p.tick());
    assert!(p.tick());
    assert!(p.tick());
    assert!(!p.tick());
}

#[test]
fn tick_period_tracks_the_tempo() {
    // the nominal 2 ms period at 120 BPM stays 2 ms
    assert_eq!(adjusted_timestep_ms(2, 120_000), 2);
    // at 240 BPM the ticks run twice as fast
    assert_eq!(adjusted_timestep_ms(2, 240_000), 1);
    // at 60 BPM they stretch to twice the nominal period
    assert_eq!(adjusted_timestep_ms(2, 60_000), 4);
}

#[test]
fn overrun_ticks_skip_their_sleep() {
    assert_eq!(sleep_remainder_us(1_500, 2_000), Some(500));
    assert_eq!(sleep_remainder_us(2_000, 2_000), None);
    assert_eq!(sleep_remainder_us(9_000, 2_000), None);
}
