//! The output side: prediction buffer, quantized scheduler, periodic
//! activity map and the continuous-controller normalizer.
//!
//! The reservoir posts future-dated predictions into a fixed ring; a
//! cooperative loop wakes every few milliseconds, and on each quantization
//! instant reads the prediction nearest to *now + actuator delay*. A fresh
//! prediction above threshold fires a beat; a stale one leaves the
//! quantization grid untouched so the same slot is retried. Times are in
//! microseconds, predictions in millionths.

use vstd::prelude::*;

use crate::spectrum::{abs_diff_i, trunc_div};

verus! {

/// Whether the network output asks for a beat: strictly above threshold.
pub fn threshold_nw(nw_output: i64, threshold: i64) -> (r: bool)
    ensures
        r == (nw_output > threshold),
{
    nw_output > threshold
}

/// One quantization interval: the tempo period divided by the subdivision.
/// The tempo is given in milli-BPM, the result in microseconds.
pub fn quantization_interval_us(mbpm: u64, subdivision: u8) -> (r: u64)
    requires
        1 <= mbpm <= 1_000_000,
        subdivision >= 1,
    ensures
        r == 60_000_000_000int / (mbpm as int * subdivision as int),
        r >= 1,
{
    proof {
        assert(1 <= mbpm * (subdivision as u64) <= 255_000_000) by (nonlinear_arith)
            requires
                1 <= mbpm <= 1_000_000,
                1 <= subdivision <= 255,
        ;
        assert(60_000_000_000int / (mbpm * (subdivision as u64)) >= 1) by (nonlinear_arith)
            requires
                1 <= mbpm * (subdivision as u64) <= 255_000_000,
        ;
    }
    60_000_000_000u64 / (mbpm * (subdivision as u64))
}

/// A fixed-capacity ring of `(target instant in microseconds, prediction
/// in millionths)` pairs, newest at index 0. Insertion evicts the oldest;
/// the capacity chosen at construction never changes.
pub struct PredictionBuffer {
    /// The ring, newest entry first.
    pub buffer: Vec<(u64, i64)>,
}

/// The first index among `n` whose target instant is nearest to `t`.
pub open spec fn spec_closest_index(s: Seq<(u64, i64)>, t: int, n: int) -> int
    decreases n,
{
    if n <= 1 {
        0
    } else {
        let r = spec_closest_index(s, t, n - 1);
        if abs_diff_i(s[n - 1].0 as int, t) < abs_diff_i(s[r].0 as int, t) {
            n - 1
        } else {
            r
        }
    }
}

/// The closest index is in range and no entry is nearer than it.
pub proof fn lemma_closest_index(s: Seq<(u64, i64)>, t: int, n: int)
    requires
        1 <= n <= s.len(),
    ensures
        0 <= spec_closest_index(s, t, n) < n,
        forall|k: int|
            0 <= k < n ==> abs_diff_i(s[spec_closest_index(s, t, n)].0 as int, t) <= abs_diff_i(
                (#[trigger] s[k]).0 as int,
                t,
            ),
    decreases n,
{
    if n > 1 {
        lemma_closest_index(s, t, n - 1);
    }
}

impl PredictionBuffer {
    pub open spec fn wf(self) -> bool {
        self.buffer.len() > 0
    }

    /// A ring sized for the delay-compensation shift — one slot per
    /// timestep across the shift, plus ten spare — prefilled with zero
    /// predictions dated `now_us`.
    pub fn new(shift_ms: u64, timestep_ms: u64, now_us: u64) -> (r: PredictionBuffer)
        requires
            1 <= timestep_ms,
            shift_ms <= 1_000_000,
        ensures
            r.wf(),
            r.buffer@.len() == shift_ms / timestep_ms + 10,
            forall|i: int| 0 <= i < r.buffer@.len() ==> r.buffer@[i] == (now_us, 0i64),
    {
        let size = shift_ms / timestep_ms + 10;
        let mut buffer: Vec<(u64, i64)> = Vec::new();
        let mut i: u64 = 0;
        while i < size
            invariant
                i <= size,
                buffer@.len() == i,
                forall|k: int| 0 <= k < i ==> buffer@[k] == (now_us, 0i64),
            decreases size - i,
        {
            buffer.push((now_us, 0));
            i += 1;
        }
        PredictionBuffer { buffer }
    }

    /// Insert a prediction at the front and evict the oldest entry. The
    /// capacity is preserved.
    pub fn add(&mut self, prediction: (u64, i64))
        requires
            old(self).wf(),
        ensures
            final(self).wf(),
            final(self).buffer@.len() == old(self).buffer@.len(),
            final(self).buffer@ == seq![prediction] + old(self).buffer@.drop_last(),
    {
        self.buffer.pop();
        self.buffer.insert(0, prediction);
        proof {
            assert(self.buffer@ =~= seq![prediction] + old(self).buffer@.drop_last());
        }
    }

    /// Record the prediction for the instant `shift_us` past `now_us`.
    /// Capacity is preserved and the newest entry's target instant lies
    /// exactly `shift_us` past the insertion time — strictly in its future
    /// whenever the shift is positive.
    pub fn record(&mut self, now_us: u64, shift_us: u64, value_micro: i64)
        requires
            old(self).wf(),
            now_us + shift_us <= u64::MAX,
        ensures
            final(self).wf(),
            final(self).buffer@.len() == old(self).buffer@.len(),
            final(self).buffer@ == seq![((now_us + shift_us) as u64, value_micro)] + old(
                self,
            ).buffer@.drop_last(),
            final(self).buffer@[0].0 == now_us + shift_us,
            shift_us > 0 ==> final(self).buffer@[0].0 > now_us,
    {
        self.add((now_us + shift_us, value_micro));
    }

    /// The prediction whose target instant is nearest to `target_us`,
    /// with its distance in microseconds. Of equally near entries the
    /// newest wins.
    pub fn get_closest(&self, target_us: u64) -> (r: (i64, u64))
        requires
            self.wf(),
        ensures
            ({
                let ci = spec_closest_index(
                    self.buffer@,
                    target_us as int,
                    self.buffer@.len() as int,
                );
                r.0 == self.buffer@[ci].1 && r.1 == abs_diff_i(
                    self.buffer@[ci].0 as int,
                    target_us as int,
                )
            }),
            forall|k: int|
                0 <= k < self.buffer@.len() ==> r.1 <= abs_diff_i(
                    (#[trigger] self.buffer@[k]).0 as int,
                    target_us as int,
                ),
    {
        let mut best: usize = 0;
        let first = self.buffer[0];
        let mut min_diff: u64 = if first.0 >= target_us {
            first.0 - target_us
        } else {
            target_us - first.0
        };
        let mut i: usize = 1;
        while i < self.buffer.len()
            invariant
                1 <= i <= self.buffer@.len(),
                best == spec_closest_index(self.buffer@, target_us as int, i as int),
                best < i,
                min_diff == abs_diff_i(self.buffer@[best as int].0 as int, target_us as int),
            decreases self.buffer@.len() - i,
        {
            let e = self.buffer[i];
            let d: u64 = if e.0 >= target_us {
                e.0 - target_us
            } else {
                target_us - e.0
            };
            if d < min_diff {
                min_diff = d;
                best = i;
            }
            i += 1;
        }
        proof {
            lemma_closest_index(self.buffer@, target_us as int, self.buffer@.len() as int);
        }
        (self.buffer[best].1, min_diff)
    }
}

/// What one scheduler iteration decided.
pub enum SchedulerStep {
    /// The quantization instant has not been reached; nothing to do.
    NotYet,
    /// The nearest prediction is too far from the wanted instant: leave
    /// the grid untouched and retry the same slot next iteration.
    Stale,
    /// A fresh prediction below threshold: advance the grid silently.
    Rest,
    /// A fresh prediction above threshold: sound a beat intended for
    /// wall time `at_us`, and advance the grid.
    Fire { at_us: u64 },
}

/// The quantized output scheduler: fires at most one beat per
/// quantization slot, always for a prediction within the freshness
/// tolerance.
pub struct Scheduler {
    /// The next quantization instant, in microseconds.
    pub next_quantize_us: u64,
    /// The quantization interval, in microseconds.
    pub interval_us: u64,
    /// Fire only above this prediction value, in millionths.
    pub threshold_micro: i64,
    /// The actuator delay compensated for, in microseconds.
    pub delay_us: u64,
    /// The reservoir timestep, in milliseconds; predictions further than
    /// five timesteps from the wanted instant count as stale.
    pub timestep_ms: u64,
}

/// Times and intervals the scheduler computes with stay below this.
pub const MAX_SCHED_TIME_US: u64 = 0x1000_0000_0000_0000;

impl Scheduler {
    pub open spec fn wf(self) -> bool {
        &&& 1 <= self.interval_us <= 86_400_000_000
        &&& 1 <= self.timestep_ms <= 1_000_000
        &&& self.delay_us <= 1_000_000_000
        &&& self.next_quantize_us <= MAX_SCHED_TIME_US
    }

    /// Whether the slot is due: the quantization instant lies strictly in
    /// the past.
    pub open spec fn spec_due(self, now_us: u64) -> bool {
        now_us > self.next_quantize_us
    }

    /// Whether the nearest prediction to `now + delay` is fresh: its
    /// distance is under five timesteps — the timestep in milliseconds,
    /// the distance in microseconds.
    pub open spec fn spec_fresh(self, now_us: u64, buf: Seq<(u64, i64)>) -> bool {
        let t = now_us + self.delay_us;
        let ci = spec_closest_index(buf, t, buf.len() as int);
        abs_diff_i(buf[ci].0 as int, t) < 5000 * self.timestep_ms
    }

    /// Whether the iteration fires: slot due, prediction fresh and above
    /// threshold.
    pub open spec fn spec_fires(self, now_us: u64, buf: Seq<(u64, i64)>) -> bool {
        let t = now_us + self.delay_us;
        let ci = spec_closest_index(buf, t, buf.len() as int);
        self.spec_due(now_us) && self.spec_fresh(now_us, buf) && buf[ci].1 > self.threshold_micro
    }

    /// The scheduler state after one iteration: the grid advances by one
    /// interval exactly when a due slot met a fresh prediction.
    pub open spec fn spec_next(self, now_us: u64, buf: Seq<(u64, i64)>) -> Scheduler {
        if self.spec_due(now_us) && self.spec_fresh(now_us, buf) {
            Scheduler { next_quantize_us: (self.next_quantize_us + self.interval_us) as u64, ..self }
        } else {
            self
        }
    }

    /// One scheduler iteration at wall time `now_us` against the current
    /// prediction ring.
    pub fn step(&mut self, now_us: u64, predictions: &PredictionBuffer) -> (r: SchedulerStep)
        requires
            old(self).wf(),
            predictions.wf(),
            now_us <= MAX_SCHED_TIME_US,
            old(self).next_quantize_us + old(self).interval_us <= MAX_SCHED_TIME_US,
        ensures
            final(self).wf(),
            *final(self) == old(self).spec_next(now_us, predictions.buffer@),
            r is Fire <==> old(self).spec_fires(now_us, predictions.buffer@),
            r is NotYet <==> !old(self).spec_due(now_us),
            r is Stale <==> old(self).spec_due(now_us) && !old(self).spec_fresh(
                now_us,
                predictions.buffer@,
            ),
            r is Stale ==> *final(self) == *old(self),
            r matches SchedulerStep::Fire { at_us } ==> at_us == now_us + old(self).delay_us,
            r is Fire || r is Rest ==> final(self).next_quantize_us == old(self).next_quantize_us
                + old(self).interval_us,
    {
        if now_us <= self.next_quantize_us {
            return SchedulerStep::NotYet;
        }
        let target = now_us + self.delay_us;
        let (value, diff_us) = predictions.get_closest(target);
        if !(diff_us < 5000 * self.timestep_ms) {
            return SchedulerStep::Stale;
        }
        self.next_quantize_us = self.next_quantize_us + self.interval_us;
        if value > self.threshold_micro {
            SchedulerStep::Fire { at_us: target }
        } else {
            SchedulerStep::Rest
        }
    }

    /// A beat is fired only for a prediction within tolerance: firing
    /// demands that the nearest prediction lie within five timesteps of
    /// the wanted instant.
    pub proof fn lemma_fire_is_fresh(self, now_us: u64, buf: Seq<(u64, i64)>)
        requires
            self.spec_fires(now_us, buf),
        ensures
            ({
                let t = now_us + self.delay_us;
                let ci = spec_closest_index(buf, t, buf.len() as int);
                abs_diff_i(buf[ci].0 as int, t) < 5000 * self.timestep_ms
            }),
    {
    }

    /// A step never moves the quantization grid backward.
    pub proof fn lemma_slot_monotone(self, now_us: u64, buf: Seq<(u64, i64)>)
        requires
            self.wf(),
        ensures
            self.spec_next(now_us, buf).next_quantize_us >= self.next_quantize_us,
            self.spec_next(now_us, buf).interval_us == self.interval_us,
    {
    }

    /// At most one fire per distinct quantization slot: a firing step
    /// strictly advances the grid, and the grid never moves backward, so
    /// no later iteration can fire for the same `next_quantize` value
    /// again.
    pub proof fn lemma_one_fire_per_slot(self, now_us: u64, buf: Seq<(u64, i64)>)
        requires
            self.wf(),
            self.spec_fires(now_us, buf),
        ensures
            self.spec_next(now_us, buf).next_quantize_us > self.next_quantize_us,
    {
    }
}

/// Activity values are kept within plus or minus this bound (one thousand
/// units, in millionths).
pub const MAX_ACTIVITY_MICRO: i64 = 1_000_000_000;

/// The slot a phase addresses: `phase * length`, with phase in millionths
/// of a turn. Always a single slot strictly inside the map.
pub open spec fn spec_phase_index(phase_ppm: u32, length: int) -> int {
    (phase_ppm * length) / 1_000_000
}

/// The smoothed value: a convex mix of the old slot value and the new
/// sample, by the smoothing coefficient in millionths.
pub open spec fn spec_smoothed(old_val: int, value: int, lr_ppm: int) -> int {
    trunc_div((1_000_000 - lr_ppm) * old_val + lr_ppm * value, 1_000_000)
}

/// The periodic activity map of the continuous-controller mode: a fixed
/// ring over one period of phase, each slot an exponentially smoothed
/// sample. The smoothing coefficient is the configured leak for the first
/// `length` updates (warm-up) and one — plain replacement — afterwards.
pub struct NetworkPeriod {
    /// Number of phase slots.
    pub length: usize,
    /// The slot values, in millionths.
    pub activity: Vec<i64>,
    /// Warm-up smoothing coefficient, in millionths.
    pub leak_ppm: u32,
    /// How many updates have been applied so far.
    pub init: usize,
}

impl NetworkPeriod {
    pub open spec fn wf(self) -> bool {
        &&& 0 < self.length <= 0x100000
        &&& self.activity.len() == self.length
        &&& self.leak_ppm <= 1_000_000
        &&& forall|i: int|
            0 <= i < self.activity@.len() ==> -MAX_ACTIVITY_MICRO <= (#[trigger] self.activity@[i])
                <= MAX_ACTIVITY_MICRO
    }

    /// A map of `length` zeroed slots with the given warm-up coefficient.
    pub fn new(length: usize, leak_ppm: u32) -> (r: NetworkPeriod)
        requires
            0 < length <= 0x100000,
            leak_ppm <= 1_000_000,
        ensures
            r.wf(),
            r.length == length,
            r.leak_ppm == leak_ppm,
            r.init == 0,
            forall|i: int| 0 <= i < length ==> r.activity@[i] == 0,
    {
        let mut activity: Vec<i64> = Vec::new();
        let mut i: usize = 0;
        while i < length
            invariant
                i <= length,
                activity@.len() == i,
                forall|k: int| 0 <= k < i ==> activity@[k] == 0,
            decreases length - i,
        {
            activity.push(0);
            i += 1;
        }
        NetworkPeriod { length, activity, leak_ppm, init: 0 }
    }

    /// Smooth `value_micro` into the slot that `phase_ppm` addresses, and
    /// into that slot alone. During warm-up — the first `length` updates —
    /// the configured coefficient applies; afterwards the sample replaces
    /// the slot value.
    pub fn update(&mut self, phase_ppm: u32, value_micro: i64)
        requires
            old(self).wf(),
            phase_ppm < 1_000_000,
            -MAX_ACTIVITY_MICRO <= value_micro <= MAX_ACTIVITY_MICRO,
            old(self).init < usize::MAX,
        ensures
            final(self).wf(),
            final(self).length == old(self).length,
            final(self).leak_ppm == old(self).leak_ppm,
            final(self).init == old(self).init + 1,
            ({
                let idx = spec_phase_index(phase_ppm, old(self).length as int);
                let lr: int = if old(self).init >= old(self).length {
                    1_000_000
                } else {
                    old(self).leak_ppm as int
                };
                final(self).activity@ == old(self).activity@.update(
                    idx,
                    spec_smoothed(old(self).activity@[idx] as int, value_micro as int, lr) as i64,
                )
            }),
    {
        proof {
            assert((phase_ppm as int) * (self.length as int) < 1_000_000 * (self.length as int)
                <= 0x10_0000_0000_0000) by (nonlinear_arith)
                requires
                    phase_ppm < 1_000_000,
                    0 < self.length <= 0x100000,
            ;
            assert((phase_ppm as int) * (self.length as int) / 1_000_000 < self.length as int) by {
                vstd::arithmetic::div_mod::lemma_multiply_divide_lt(
                    (phase_ppm as int) * (self.length as int),
                    1_000_000,
                    self.length as int,
                );
            }
        }
        let idx_u64: u64 = ((phase_ppm as u64) * (self.length as u64)) / 1_000_000;
        let idx = idx_u64 as usize;
        let lr: u32 = if self.init >= self.length {
            1_000_000
        } else {
            self.leak_ppm
        };
        let old_val = self.activity[idx];
        proof {
            let a = old_val as int;
            let v = value_micro as int;
            let l = lr as int;
            assert(-1_000_000_000_000_000 <= (1_000_000 - l) * a <= 1_000_000_000_000_000
                && -1_000_000_000_000_000 <= l * v <= 1_000_000_000_000_000
                && -1_000_000_000_000_000 <= (1_000_000 - l) * a + l * v
                <= 1_000_000_000_000_000) by (nonlinear_arith)
                requires
                    0 <= l <= 1_000_000,
                    -MAX_ACTIVITY_MICRO <= a <= MAX_ACTIVITY_MICRO,
                    -MAX_ACTIVITY_MICRO <= v <= MAX_ACTIVITY_MICRO,
            ;
        }
        let num: i64 = (1_000_000 - lr as i64) * old_val + (lr as i64) * value_micro;
        let smoothed: i64 = num / 1_000_000;
        proof {
            assert(smoothed == spec_smoothed(old_val as int, value_micro as int, lr as int));
            assert(-MAX_ACTIVITY_MICRO <= smoothed <= MAX_ACTIVITY_MICRO);
        }
        self.activity.set(idx, smoothed);
        self.init = self.init + 1;
    }

    /// Read back the value of the slot that `phase_ppm` addresses.
    pub fn get(&self, phase_ppm: u32) -> (r: i64)
        requires
            self.wf(),
            phase_ppm < 1_000_000,
        ensures
            r == self.activity@[spec_phase_index(phase_ppm, self.length as int)],
    {
        proof {
            assert((phase_ppm as int) * (self.length as int) < 1_000_000 * (self.length as int)
                <= 0x10_0000_0000_0000) by (nonlinear_arith)
                requires
                    phase_ppm < 1_000_000,
                    0 < self.length <= 0x100000,
            ;
            assert((phase_ppm as int) * (self.length as int) / 1_000_000 < self.length as int) by {
                vstd::arithmetic::div_mod::lemma_multiply_divide_lt(
                    (phase_ppm as int) * (self.length as int),
                    1_000_000,
                    self.length as int,
                );
            }
        }
        let idx_u64: u64 = ((phase_ppm as u64) * (self.length as u64)) / 1_000_000;
        self.activity[idx_u64 as usize]
    }
}

/// The integer square root: the unique `r` with `r * r <= x` and
/// `(r + 1) * (r + 1) > x`.
pub fn isqrt(x: u64) -> (r: u64)
    ensures
        r * r <= x,
        (r + 1) * (r + 1) > x,
{
    if x == 0 {
        return 0;
    }
    let mut lo: u64 = 0;
    let mut hi: u64 = if x < 0xFFFF_FFFF {
        x + 1
    } else {
        0x1_0000_0000
    };
    proof {
        assert((hi as int) * (hi as int) > x) by (nonlinear_arith)
            requires
                (x < 0xFFFF_FFFF && hi == x + 1) || (x >= 0xFFFF_FFFF && hi == 0x1_0000_0000),
                x <= u64::MAX,
        ;
    }
    while lo + 1 < hi
        invariant
            lo < hi <= 0x1_0000_0000,
            (lo as int) * (lo as int) <= x,
            (hi as int) * (hi as int) > x,
        decreases hi - lo,
    {
        let mid = lo + (hi - lo) / 2;
        proof {
            assert((mid as int) * (mid as int) < 0x1_0000_0000_0000_0000) by (nonlinear_arith)
                requires
                    mid < 0x1_0000_0000,
            ;
        }
        if mid * mid <= x {
            lo = mid;
        } else {
            hi = mid;
        }
    }
    lo
}

/// The floor of the square root, as `isqrt` computes it.
pub open spec fn spec_sqrt(x: int) -> int {
    choose|r: int| 0 <= r && #[trigger] (r * r) <= x && (r + 1) * (r + 1) > x
}

/// Any value meeting the square-root characterization is the one `spec_sqrt`
/// names.
pub proof fn lemma_sqrt_unique(x: int, r: int)
    requires
        0 <= r,
        r * r <= x,
        (r + 1) * (r + 1) > x,
    ensures
        r == spec_sqrt(x),
{
    assert(exists|s: int| 0 <= s && #[trigger] (s * s) <= x && (s + 1) * (s + 1) > x) by {
        assert(0 <= r && r * r <= x && (r + 1) * (r + 1) > x);
    }
    let s = choose|s: int| 0 <= s && #[trigger] (s * s) <= x && (s + 1) * (s + 1) > x;
    assert(s == r) by (nonlinear_arith)
        requires
            0 <= r,
            r * r <= x,
            (r + 1) * (r + 1) > x,
            0 <= s,
            s * s <= x,
            (s + 1) * (s + 1) > x,
    ;
}

/// The auto-ranging normalizer of the continuous-controller mode. The
/// running range `[min, max]` adapts to the model output; the output is
/// normalized into it, clamped to the unit interval, peak-emphasized by a
/// square root, and mapped to a controller value in
/// `[cc_offset, cc_offset + cc_range]` — never outside it.
pub fn map_model_to_cc(
    model_output: i64,
    min: &mut i64,
    max: &mut i64,
    max_max: i64,
    cc_range: u8,
    cc_offset: u8,
    non_negative: bool,
) -> (cc: u8)
    requires
        -MAX_ACTIVITY_MICRO <= model_output <= MAX_ACTIVITY_MICRO,
        -MAX_ACTIVITY_MICRO <= *old(min) <= MAX_ACTIVITY_MICRO,
        -MAX_ACTIVITY_MICRO <= *old(max) <= MAX_ACTIVITY_MICRO,
        -MAX_ACTIVITY_MICRO <= max_max <= MAX_ACTIVITY_MICRO,
        cc_range + cc_offset <= 255,
    ensures
        cc_offset <= cc <= cc_offset + cc_range,
        -MAX_ACTIVITY_MICRO <= *final(min) <= MAX_ACTIVITY_MICRO,
        -MAX_ACTIVITY_MICRO <= *final(max) <= MAX_ACTIVITY_MICRO,
        *final(min) == spec_cc_min(model_output as int, *old(min) as int, non_negative),
        *final(max) == spec_cc_max(
            model_output as int,
            *old(min) as int,
            *old(max) as int,
            max_max as int,
        ),
        cc == spec_cc_out(
            model_output as int,
            *final(min) as int,
            *final(max) as int,
            cc_range as int,
            cc_offset as int,
        ),
{
    // adapt the running range
    if model_output < *min {
        *min = model_output;
        if non_negative && *min < 0 {
            *min = 0;
        }
    } else if model_output * 7 / 10 > *max {
        *max = model_output * 7 / 10;
        if *max > max_max {
            *max = max_max;
        }
    }

    let range: i64 = *max - *min;
    let norm_ppm: i64 = if range <= 0 {
        1_000_000
    } else {
        let scaled: i64 = (model_output - *min) * 1_000_000 / range;
        proof {
            let num = (model_output - *min) as int * 1_000_000;
            assert(-4_000_000_000_000_000 <= num <= 4_000_000_000_000_000);
        }
        if scaled < 0 {
            0
        } else if scaled > 1_000_000 {
            1_000_000
        } else {
            scaled
        }
    };
    proof {
        assert(0 <= norm_ppm <= 1_000_000);
        assert(norm_ppm * 1_000_000 <= 1_000_000_000_000) by (nonlinear_arith)
            requires
                0 <= norm_ppm <= 1_000_000,
        ;
    }
    let emphasized: u64 = isqrt((norm_ppm as u64) * 1_000_000);
    proof {
        lemma_sqrt_unique((norm_ppm * 1_000_000) as int, emphasized as int);
        assert(emphasized <= 1_000_000) by (nonlinear_arith)
            requires
                (emphasized as int) * (emphasized as int) <= 1_000_000_000_000,
        ;
        assert((emphasized as int) * (cc_range as int) <= 1_000_000 * (cc_range as int))
            by (nonlinear_arith)
            requires
                0 <= emphasized <= 1_000_000,
                0 <= cc_range,
        ;
        assert(1_000_000 * (cc_range as int) / 1_000_000 == cc_range as int) by (nonlinear_arith);
        vstd::arithmetic::div_mod::lemma_div_is_ordered(
            (emphasized as int) * (cc_range as int),
            1_000_000 * (cc_range as int),
            1_000_000,
        );
    }
    let stepped: u64 = (emphasized * (cc_range as u64)) / 1_000_000;
    (stepped as u8) + cc_offset
}

/// The adapted lower edge of the normalizer's running range.
pub open spec fn spec_cc_min(model_output: int, old_min: int, non_negative: bool) -> int {
    if model_output < old_min {
        if non_negative && model_output < 0 {
            0
        } else {
            model_output
        }
    } else {
        old_min
    }
}

/// The adapted upper edge of the normalizer's running range: seventy
/// percent of a new peak, capped at `max_max`.
pub open spec fn spec_cc_max(model_output: int, old_min: int, old_max: int, max_max: int) -> int {
    if model_output < old_min {
        old_max
    } else if trunc_div(model_output * 7, 10) > old_max {
        if trunc_div(model_output * 7, 10) > max_max {
            max_max
        } else {
            trunc_div(model_output * 7, 10)
        }
    } else {
        old_max
    }
}

/// The controller value: the output normalized into the running range,
/// clamped to the unit interval, square-root emphasized and scaled into
/// the configured controller span.
pub open spec fn spec_cc_out(
    model_output: int,
    mn: int,
    mx: int,
    cc_range: int,
    cc_offset: int,
) -> int {
    let range = mx - mn;
    let norm = if range <= 0 {
        1_000_000int
    } else {
        let scaled = trunc_div((model_output - mn) * 1_000_000, range);
        if scaled < 0 {
            0int
        } else if scaled > 1_000_000 {
            1_000_000int
        } else {
            scaled
        }
    };
    spec_sqrt(norm * 1_000_000) * cc_range / 1_000_000 + cc_offset
}

/// The drum-robot output agenda: a queue of future beat instants, in
/// microseconds, kept in non-decreasing order.
pub struct OutputAgenda {
    /// The queued beat instants, earliest first.
    pub agenda: Vec<u64>,
}

impl OutputAgenda {
    /// Beat instants never go backward.
    pub open spec fn wf(self) -> bool {
        forall|i: int, j: int| 0 <= i <= j < self.agenda@.len() ==> self.agenda@[i]
            <= self.agenda@[j]
    }

    pub fn new() -> (r: OutputAgenda)
        ensures
            r.wf(),
            r.agenda@.len() == 0,
    {
        OutputAgenda { agenda: Vec::new() }
    }

    /// Queue a beat for `at_us`, which must not precede the last queued
    /// beat.
    pub fn push(&mut self, at_us: u64)
        requires
            old(self).wf(),
            old(self).agenda@.len() > 0 ==> at_us >= old(self).agenda@.last(),
        ensures
            final(self).wf(),
            final(self).agenda@ == old(self).agenda@.push(at_us),
    {
        self.agenda.push(at_us);
    }

    /// Take the earliest queued beat, if any.
    pub fn pop_front(&mut self) -> (r: Option<u64>)
        requires
            old(self).wf(),
        ensures
            final(self).wf(),
            r is Some <==> old(self).agenda@.len() > 0,
            r is Some ==> r->0 == old(self).agenda@[0] && final(self).agenda@ == old(
                self,
            ).agenda@.drop_first(),
            r is None ==> final(self).agenda@ == old(self).agenda@,
    {
        if self.agenda.len() == 0 {
            return None;
        }
        let head = self.agenda.remove(0);
        proof {
            assert(self.agenda@ =~= old(self).agenda@.drop_first());
        }
        Some(head)
    }
}

} // verus!
