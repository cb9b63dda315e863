use robodrummer::combine::{
    isqrt, map_model_to_cc, quantization_interval_us, threshold_nw, NetworkPeriod, OutputAgenda,
    PredictionBuffer, Scheduler, SchedulerStep,
};

#[test]
fn threshold_is_strict() {
    assert!(threshold_nw(500_001, 500_000));
    assert!(!threshold_nw(500_000, 500_000));
    assert!(!threshold_nw(-1_000_000, 500_000));
}

#[test]
fn quantization_interval_follows_tempo() {
    // 120 BPM is a 500 ms period; subdivision 4 gives 125 ms
    assert_eq!(quantization_interval_us(120_000, 4), 125_000);
    assert_eq!(quantization_interval_us(120_000, 1), 500_000);
    assert_eq!(quantization_interval_us(60_000, 2), 500_000);
}

#[test]
fn buffer_keeps_capacity_and_dates_the_future() {
    let mut buf = PredictionBuffer::new(100, 2, 0);
    // shift/timestep + 10 slots
    assert_eq!(buf.buffer.len(), 60);
    for t in 0..100u64 {
        buf.record(t * 1000, 100_000, 42);
        assert_eq!(buf.buffer.len(), 60);
        assert_eq!(buf.buffer[0].0, t * 1000 + 100_000);
        assert!(buf.buffer[0].0 > t * 1000);
    }
}

#[test]
fn closest_prediction_wins() {
    let mut buf = PredictionBuffer::new(10, 2, 0);
    buf.record(1_000, 0, 10);
    buf.record(2_000, 0, 20);
    buf.record(3_000, 0, 30);
    let (value, diff) = buf.get_closest(2_100);
    assert_eq!(value, 20);
    assert_eq!(diff, 100);
    let (value, diff) = buf.get_closest(10_000);
    assert_eq!(value, 30);
    assert_eq!(diff, 7_000);
}

#[test]
fn stale_prediction_holds_the_grid() {
    // a single prediction 100 ms old while the timestep is 2 ms
    let mut buf = PredictionBuffer::new(10, 2, 0);
    buf.record(0, 0, 900_000);
    let mut s = Scheduler {
        next_quantize_us: 10_000,
        interval_us: 125_000,
        threshold_micro: 500_000,
        delay_us: 0,
        timestep_ms: 2,
    };
    let mut fires = 0;
    for step in 0..20u64 {
        let now = 100_000 + step * 5_000;
        match s.step(now, &buf) {
            SchedulerStep::Fire { .. } => fires += 1,
            SchedulerStep::Rest => panic!("rest on stale input"),
            _ => {}
        }
        // the grid must not advance while the input is stale
        assert_eq!(s.next_quantize_us, 10_000);
    }
    assert_eq!(fires, 0);
    // a fresh prediction releases it
    buf.record(200_000, 0, 900_000);
    match s.step(200_100, &buf) {
        SchedulerStep::Fire { at_us } => assert_eq!(at_us, 200_100),
        other_kind => panic!("expected a fire, not {:?}", kind_name(other_kind)),
    }
    assert_eq!(s.next_quantize_us, 135_000);
}

fn kind_name(s: SchedulerStep) -> &'static str {
    match s {
        SchedulerStep::NotYet => "not yet",
        SchedulerStep::Stale => "stale",
        SchedulerStep::Rest => "rest",
        SchedulerStep::Fire { .. } => "fire",
    }
}

#[test]
fn one_fire_per_slot() {
    let mut buf = PredictionBuffer::new(10, 2, 0);
    let mut s = Scheduler {
        next_quantize_us: 100_000,
        interval_us: 125_000,
        threshold_micro: 500_000,
        delay_us: 0,
        timestep_ms: 2,
    };
    let mut fired_slots = Vec::new();
    for step in 0..400u64 {
        let now = step * 2_500;
        buf.record(now, 1_000, 900_000);
        let slot = s.next_quantize_us;
        if let SchedulerStep::Fire { .. } = s.step(now, &buf) {
            fired_slots.push(slot);
        }
    }
    assert!(fired_slots.len() >= 3);
    let mut dedup = fired_slots.clone();
    dedup.dedup();
    // no quantization slot fires twice
    assert_eq!(dedup.len(), fired_slots.len());
}

#[test]
fn beats_on_the_quantization_grid() {
    // 2 Hz tempo, subdivision 4: a 125 ms grid; above-threshold input
    let interval = quantization_interval_us(120_000, 4);
    let mut buf = PredictionBuffer::new(100, 2, 0);
    let mut s = Scheduler {
        next_quantize_us: 3_000_000,
        interval_us: interval,
        threshold_micro: 500_000,
        delay_us: 0,
        timestep_ms: 2,
    };
    let mut fire_times = Vec::new();
    let mut now = 3_000_000u64;
    while now <= 4_000_000 {
        buf.record(now, 1_000, 800_000);
        if let SchedulerStep::Fire { at_us } = s.step(now, &buf) {
            fire_times.push(at_us);
        }
        now += 5_000;
    }
    assert!(fire_times.len() >= 3);
    // fires sit a grid step apart
    for pair in fire_times.windows(2) {
        let gap = pair[1] - pair[0];
        assert!((125_000i64 - gap as i64).unsigned_abs() <= 5_000);
    }
}

#[test]
fn delay_compensation_timing() {
    // shift 100 ms, delay 30 ms: a prediction inserted at T is acted on
    // near T + shift - delay, aimed at T + shift
    let t = 1_000_000u64;
    let shift = 100_000u64;
    let delay = 30_000u64;
    let mut buf = PredictionBuffer::new(100, 2, 0);
    buf.record(t, shift, 900_000);
    let mut s = Scheduler {
        next_quantize_us: t,
        interval_us: 125_000,
        threshold_micro: 500_000,
        delay_us: delay,
        timestep_ms: 2,
    };
    let wake = t + shift - delay;
    match s.step(wake, &buf) {
        SchedulerStep::Fire { at_us } => {
            assert_eq!(at_us, t + shift);
            assert_eq!(at_us - delay, wake);
        }
        other_kind => panic!("expected a fire, not {:?}", kind_name(other_kind)),
    }
}

#[test]
fn agenda_is_ordered() {
    let mut agenda = OutputAgenda::new();
    agenda.push(100);
    agenda.push(100);
    agenda.push(250);
    assert_eq!(agenda.pop_front(), Some(100));
    assert_eq!(agenda.pop_front(), Some(100));
    assert_eq!(agenda.pop_front(), Some(250));
    assert_eq!(agenda.pop_front(), None);
}

#[test]
fn activity_map_addresses_one_slot() {
    let mut map = NetworkPeriod::new(40, 150_000);
    // phase 0.5 addresses slot 20
    map.update(500_000, 1_000_000);
    for (i, &v) in map.activity.iter().enumerate() {
        if i == 20 {
            // warm-up smoothing: 15 % of the sample
            assert_eq!(v, 150_000);
        } else {
            assert_eq!(v, 0);
        }
    }
    assert_eq!(map.get(500_000), 150_000);
}

#[test]
fn activity_map_replaces_after_warm_up() {
    let mut map = NetworkPeriod::new(4, 150_000);
    for _ in 0..4 {
        map.update(0, 1_000_000);
    }
    // past warm-up the sample replaces the slot value
    map.update(0, 123_456);
    assert_eq!(map.get(0), 123_456);
}

#[test]
fn isqrt_exact() {
    assert_eq!(isqrt(0), 0);
    assert_eq!(isqrt(1), 1);
    assert_eq!(isqrt(3), 1);
    assert_eq!(isqrt(4), 2);
    assert_eq!(isqrt(999_999), 999);
    assert_eq!(isqrt(1_000_000), 1000);
    assert_eq!(isqrt(1_000_000_000_000), 1_000_000);
}

#[test]
fn cc_output_stays_in_its_span() {
    // inputs in [0.2, 0.6], offset 10, width 100
    let mut min = 0i64;
    let mut max = 0i64;
    let inputs: Vec<i64> = (0..200)
        .map(|i| 200_000 + (i % 5) * 100_000)
        .collect();
    let mut outputs = Vec::new();
    for &v in &inputs {
        let cc = map_model_to_cc(v, &mut min, &mut max, 40_000_000, 100, 10, false);
        assert!((10..=110).contains(&cc));
        outputs.push(cc);
    }
    let tail = &outputs[outputs.len() - 50..];
    // after warm-up the peaks saturate at the top of the span while the
    // troughs stay well below it
    assert!(tail.iter().any(|&cc| cc >= 105));
    assert!(tail.iter().any(|&cc| cc <= 85));
}
