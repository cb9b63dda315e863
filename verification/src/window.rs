//! The sliding hit window of the tempo estimator.
//!
//! Onset times are discretized into sample periods (50 ms by default) and
//! kept in a fixed-size ring, most recent first. Entries older than
//! `WINDOW_LENGTH_MS` are invisible to the transform. From the window a
//! real-valued buffer is derived — one for each hit, scaled linearly down
//! to zero across the window length, in millionths — over which the
//! surrounding binary runs the Fourier transform; the resulting spectrum
//! comes back through `update_best`, which picks the dominant in-band
//! frequency and, for the banded policy, re-centers the band around it.

use vstd::prelude::*;

use crate::spectrum::{filter_band, in_band, last_max_index, lemma_filter_band_membership,
    lemma_last_max_index_range, Spectrum};

verus! {

/// Hits below this count in the visible window give no estimate.
pub const MINIMUM_HITS_FOR_FOURIER: u32 = 5;

/// Lower band clamp: 40 beats per minute, in milli-BPM.
pub const MIN_BAND_MBPM: u64 = 40_000;

/// Upper band clamp: 210 beats per minute, in milli-BPM.
pub const MAX_BAND_MBPM: u64 = 210_000;

/// How far back hits stay visible to the transform, in milliseconds.
pub const WINDOW_LENGTH_MS: u64 = 5000;

/// Timestamps are capped at this (about five hundred years of session
/// time) so that discretization arithmetic stays in range.
pub const MAX_TIME_MS: u64 = 0x1000_0000_0000;

/// What to perform on a hit.
#[derive(PartialEq, Eq, Structural)]
pub enum HitAction {
    /// Do nothing beyond recording the hit.
    NoFourier,
    /// Recompute the estimate once every so many hits.
    Interval(u8),
    /// Recompute the estimate on every hit.
    Fourier,
    /// Recompute every so many hits, then re-center the band.
    BandedInterval(u8),
}

impl HitAction {
    /// An interval of zero hits would never trigger; the policies demand a
    /// positive one.
    pub open spec fn wf(self) -> bool {
        match self {
            HitAction::Interval(k) => k > 0,
            HitAction::BandedInterval(k) => k > 0,
            _ => true,
        }
    }

    /// Whether a transform is due after the hit that made `hit_count`.
    pub open spec fn due(self, hit_count: u32) -> bool {
        match self {
            HitAction::NoFourier => false,
            HitAction::Fourier => true,
            HitAction::Interval(k) => hit_count as int % (k as int) == 0,
            HitAction::BandedInterval(k) => hit_count as int % (k as int) == 0,
        }
    }

    /// Whether the policy re-centers the band after an accepted update.
    pub open spec fn banded(self) -> bool {
        self is BandedInterval
    }
}

/// Time discretized to the nearest whole number of sample periods.
pub open spec fn discrete(elapsed_ms: int, sample_period_ms: int) -> int
    recommends
        sample_period_ms > 0,
{
    (elapsed_ms + sample_period_ms / 2) / sample_period_ms
}

/// Whether discrete time `t` appears in the window `w`.
pub open spec fn present(w: Seq<u64>, t: int) -> bool {
    exists|j: int| 0 <= j < w.len() && w[j] == t
}

/// The sliding window of discretized onset times, most recent first, with
/// the adaptive frequency band and the running best estimate.
pub struct InputWindow {
    /// Discretized hit times, index 0 most recent. A slot of an older ring
    /// generation reads as a hit at its stale time; slots start at zero.
    pub window: Vec<u64>,
    /// The current best frequency estimate, in milli-BPM.
    pub best_mbpm: u64,
    /// Time between window samples, in milliseconds.
    pub sample_period_ms: u64,
    /// Lower edge of the accepted band, in milli-BPM.
    pub min_band: u64,
    /// Upper edge of the accepted band, in milli-BPM.
    pub max_band: u64,
    /// How many hits have ever been recorded. Nothing but a hit moves it.
    pub hit_count: u32,
    /// Wall time of the first hit; the window's origin.
    pub start_ms: u64,
    /// Wall time of the most recent hit.
    pub last_ms: u64,
}

impl InputWindow {
    /// Well-formedness: discrete times are non-increasing from index 0 on
    /// (newer hits have larger discrete times), the band is inside the
    /// clamps with the best estimate between its edges, and the newest
    /// slot records the discretized time of the last hit.
    pub open spec fn wf(self) -> bool {
        &&& self.window.len() > 0
        &&& self.window.len() <= 0x100000
        &&& 1 <= self.sample_period_ms <= 1_000_000
        &&& forall|i: int, j: int|
            0 <= i <= j < self.window@.len() ==> self.window@[i] >= self.window@[j]
        &&& MIN_BAND_MBPM <= self.min_band <= self.best_mbpm <= self.max_band <= MAX_BAND_MBPM
        &&& self.start_ms <= self.last_ms <= MAX_TIME_MS
        &&& self.hit_count > 0 ==> self.window@[0] == discrete(
            self.last_ms - self.start_ms,
            self.sample_period_ms as int,
        )
        &&& self.hit_count == 0 ==> forall|i: int|
            0 <= i < self.window@.len() ==> self.window@[i] == 0
    }

    /// A fresh window of `size` zeroed slots, band wide open, estimate
    /// seeded at 120 BPM.
    pub fn new_with_size(size: usize, sample_period_ms: u64) -> (r: InputWindow)
        requires
            0 < size <= 0x100000,
            1 <= sample_period_ms <= 1_000_000,
        ensures
            r.wf(),
            r.window@.len() == size,
            forall|i: int| 0 <= i < size ==> r.window@[i] == 0,
            r.hit_count == 0,
            r.best_mbpm == 120_000,
            r.min_band == MIN_BAND_MBPM,
            r.max_band == MAX_BAND_MBPM,
            r.sample_period_ms == sample_period_ms,
    {
        let mut window: Vec<u64> = Vec::new();
        let mut i: usize = 0;
        while i < size
            invariant
                i <= size,
                window@.len() == i,
                forall|k: int| 0 <= k < i ==> window@[k] == 0,
            decreases size - i,
        {
            window.push(0);
            i += 1;
        }
        InputWindow {
            window,
            best_mbpm: 120_000,
            sample_period_ms,
            min_band: MIN_BAND_MBPM,
            max_band: MAX_BAND_MBPM,
            hit_count: 0,
            start_ms: 0,
            last_ms: 0,
        }
    }

    /// The window origin a hit at `now_ms` would anchor to: the first hit
    /// sets it, later hits keep it.
    pub open spec fn start_after_hit(self, now_ms: u64) -> int {
        if self.hit_count == 0 {
            now_ms as int
        } else {
            self.start_ms as int
        }
    }

    /// Record a hit at wall time `now_ms`: the hit count rises by exactly
    /// one, the discretized time enters at the front while the oldest slot
    /// leaves at the back, and the result says whether the policy asks for
    /// a transform now. Nothing else changes.
    #[verifier::loop_isolation(false)]
    pub fn hit(&mut self, now_ms: u64, action: HitAction) -> (due: bool)
        requires
            old(self).wf(),
            action.wf(),
            old(self).hit_count < u32::MAX,
            now_ms <= MAX_TIME_MS,
            old(self).hit_count > 0 ==> now_ms >= old(self).last_ms,
        ensures
            final(self).wf(),
            final(self).hit_count == old(self).hit_count + 1,
            final(self).window@ == seq![
                discrete(
                    now_ms - old(self).start_after_hit(now_ms),
                    old(self).sample_period_ms as int,
                ) as u64,
            ] + old(self).window@.drop_last(),
            final(self).window@.len() == old(self).window@.len(),
            due == action.due(final(self).hit_count),
            final(self).best_mbpm == old(self).best_mbpm,
            final(self).min_band == old(self).min_band,
            final(self).max_band == old(self).max_band,
            final(self).sample_period_ms == old(self).sample_period_ms,
            final(self).last_ms == now_ms,
    {
        self.hit_count = self.hit_count + 1;
        if self.hit_count == 1 {
            self.start_ms = now_ms;
        }
        let elapsed = now_ms - self.start_ms;
        let p: u64 = (elapsed + self.sample_period_ms / 2) / self.sample_period_ms;
        proof {
            if old(self).hit_count > 0 {
                vstd::arithmetic::div_mod::lemma_div_is_ordered(
                    old(self).last_ms - old(self).start_ms + old(self).sample_period_ms / 2,
                    now_ms - old(self).start_ms + old(self).sample_period_ms / 2,
                    old(self).sample_period_ms as int,
                );
            }
        }
        self.window.insert(0, p);
        self.window.pop();
        self.last_ms = now_ms;
        proof {
            assert(self.window@ =~= seq![p] + old(self).window@.drop_last());
        }
        match action {
            HitAction::NoFourier => false,
            HitAction::Fourier => true,
            HitAction::Interval(k) => (self.hit_count % (k as u32)) == 0,
            HitAction::BandedInterval(k) => (self.hit_count % (k as u32)) == 0,
        }
    }

    /// Tighten the band to 85 % .. 115 % of the best estimate, clamped to
    /// the 40–210 BPM range. The best estimate always stays inside the new
    /// band.
    pub fn set_band(&mut self)
        requires
            old(self).wf(),
        ensures
            final(self).wf(),
            final(self).min_band == spec_clamped_min(old(self).best_mbpm),
            final(self).max_band == spec_clamped_max(old(self).best_mbpm),
            MIN_BAND_MBPM <= final(self).min_band <= old(self).best_mbpm,
            old(self).best_mbpm <= final(self).max_band <= MAX_BAND_MBPM,
            final(self).best_mbpm == old(self).best_mbpm,
            final(self).hit_count == old(self).hit_count,
            final(self).window == old(self).window,
            final(self).sample_period_ms == old(self).sample_period_ms,
            final(self).last_ms == old(self).last_ms,
            final(self).start_ms == old(self).start_ms,
    {
        let b = self.best_mbpm;
        proof {
            assert((b * 85) / 100 <= b && (b * 115) / 100 >= b) by (nonlinear_arith)
                requires
                    0 <= b <= 210_000,
            ;
        }
        let mut lo: u64 = (b * 85) / 100;
        let mut hi: u64 = (b * 115) / 100;
        if lo < MIN_BAND_MBPM {
            lo = MIN_BAND_MBPM;
        }
        if hi > MAX_BAND_MBPM {
            hi = MAX_BAND_MBPM;
        }
        self.min_band = lo;
        self.max_band = hi;
    }

    /// Whether the discrete time `i` periods before the newest hit falls
    /// inside the window: not before the window origin and not further
    /// back than the window length.
    pub open spec fn visible(self, i: int) -> bool {
        self.window@[0] >= i && i * self.sample_period_ms <= WINDOW_LENGTH_MS
    }

    /// The buffer amplitude, in millionths, at `i` sample periods before
    /// the newest hit: full scale fading linearly to zero across the
    /// window length where a hit is recorded, zero elsewhere.
    pub open spec fn amp(self, i: int) -> int {
        if self.visible(i) && present(self.window@, self.window@[0] - i) {
            1_000_000 - 200 * i * self.sample_period_ms
        } else {
            0
        }
    }

    /// How many of the `n` most recent sample periods hold a visible hit.
    pub open spec fn hits_up_to(self, n: int) -> int
        decreases n,
    {
        if n <= 0 {
            0
        } else {
            self.hits_up_to(n - 1) + if self.visible(n - 1) && present(
                self.window@,
                self.window@[0] - (n - 1),
            ) {
                1int
            } else {
                0int
            }
        }
    }

    /// Whether discrete time `t` appears in the window.
    fn contains_time(&self, t: u64) -> (found: bool)
        ensures
            found == present(self.window@, t as int),
    {
        let mut j: usize = 0;
        while j < self.window.len()
            invariant
                j <= self.window@.len(),
                forall|k: int| 0 <= k < j ==> self.window@[k] != t,
            decreases self.window@.len() - j,
        {
            if self.window[j] == t {
                return true;
            }
            j += 1;
        }
        false
    }

    /// Build the real-valued transform buffer, oldest sample first: slot
    /// `len - 1 - i` holds the amplitude `i` periods before the newest
    /// hit. When fewer than `MINIMUM_HITS_FOR_FOURIER` hits are visible,
    /// there is no buffer and no estimate this round.
    #[verifier::loop_isolation(false)]
    pub fn create_fft_buffer(&self) -> (r: Option<Vec<u32>>)
        requires
            self.wf(),
        ensures
            r is Some <==> self.hits_up_to(self.window@.len() as int)
                >= MINIMUM_HITS_FOR_FOURIER,
            r is Some ==> r->Some_0@.len() == self.window@.len(),
            r is Some ==> forall|b: int|
                0 <= b < self.window@.len() ==> r->Some_0@[b] == self.amp(
                    self.window@.len() - 1 - b,
                ),
    {
        let size = self.window.len();
        let mut amps: Vec<u32> = Vec::new();
        let mut count: u32 = 0;
        let mut i: usize = 0;
        while i < size
            invariant
                i <= size,
                amps@.len() == i,
                forall|k: int| 0 <= k < i ==> amps@[k] == self.amp(k),
                count == self.hits_up_to(i as int),
                count <= i,
            decreases size - i,
        {
            proof {
                assert((i as int) * (self.sample_period_ms as int) <= 0x100000 * 1_000_000int)
                    by (nonlinear_arith)
                    requires
                        0 <= i <= 0x100000,
                        0 < self.sample_period_ms <= 1_000_000,
                ;
            }
            let in_range = self.window[0] >= (i as u64) && (i as u64) * self.sample_period_ms
                <= WINDOW_LENGTH_MS;
            if in_range && self.contains_time(self.window[0] - (i as u64)) {
                proof {
                    assert(self.visible(i as int));
                    assert(present(self.window@, self.window@[0] - (i as int)));
                }
                let scaled: u64 = 1_000_000u64 - 200u64 * ((i as u64) * self.sample_period_ms);
                proof {
                    assert(200 * ((i as int) * (self.sample_period_ms as int)) == 200 * (
                    i as int) * (self.sample_period_ms as int)) by (nonlinear_arith);
                    assert(scaled == self.amp(i as int));
                }
                amps.push(scaled as u32);
                count += 1;
            } else {
                proof {
                    assert(self.amp(i as int) == 0);
                }
                amps.push(0);
            }
            i += 1;
        }
        if count < MINIMUM_HITS_FOR_FOURIER {
            return None;
        }
        let mut out: Vec<u32> = Vec::new();
        let mut b: usize = 0;
        while b < size
            invariant
                b <= size,
                out@.len() == b,
                amps@.len() == size,
                forall|k: int| 0 <= k < size ==> amps@[k] == self.amp(k),
                forall|k: int| 0 <= k < b ==> out@[k] == self.amp(size - 1 - k),
            decreases size - b,
        {
            out.push(amps[size - 1 - b]);
            b += 1;
        }
        Some(out)
    }

    /// Accept a spectrum computed over the transform buffer: filter it to
    /// the current band, adopt the dominant bin's frequency as the best
    /// estimate, and — for the banded policy — re-center the band. When no
    /// bin lies inside the band, nothing changes and no update is
    /// published.
    pub fn update_best(&mut self, spectrum: &Spectrum, banded: bool) -> (updated: bool)
        requires
            old(self).wf(),
        ensures
            final(self).wf(),
            final(self).hit_count == old(self).hit_count,
            final(self).window == old(self).window,
            final(self).sample_period_ms == old(self).sample_period_ms,
            final(self).last_ms == old(self).last_ms,
            final(self).start_ms == old(self).start_ms,
            updated <==> filter_band(
                spectrum.0@,
                old(self).min_band as i64,
                old(self).max_band as i64,
            ).len() > 0,
            !updated ==> *final(self) == *old(self),
            updated ==> {
                let f = filter_band(
                    spectrum.0@,
                    old(self).min_band as i64,
                    old(self).max_band as i64,
                );
                final(self).best_mbpm == f[last_max_index(f, f.len() as int)].0
            },
            updated ==> old(self).min_band < final(self).best_mbpm < old(self).max_band,
            updated && banded ==> final(self).min_band == spec_clamped_min(final(self).best_mbpm)
                && final(self).max_band == spec_clamped_max(final(self).best_mbpm),
            !banded ==> final(self).min_band == old(self).min_band && final(self).max_band == old(
                self,
            ).max_band,
    {
        let filtered = spectrum.band_pass(self.min_band as i64, self.max_band as i64);
        proof {
            lemma_filter_band_membership(
                spectrum.0@,
                old(self).min_band as i64,
                old(self).max_band as i64,
            );
        }
        match filtered.dominant() {
            None => false,
            Some(c) => {
                proof {
                    let f = filter_band(
                        spectrum.0@,
                        old(self).min_band as i64,
                        old(self).max_band as i64,
                    );
                    lemma_last_max_index_range(f, f.len() as int);
                    assert(in_band(
                        f[last_max_index(f, f.len() as int)],
                        old(self).min_band as i64,
                        old(self).max_band as i64,
                    ));
                }
                self.best_mbpm = c.0 as u64;
                if banded {
                    self.set_band();
                }
                true
            },
        }
    }
}

/// The lower band edge for a given best estimate: 85 % of it, no lower
/// than the 40 BPM clamp.
pub open spec fn spec_clamped_min(best: u64) -> int {
    let lo = (best * 85) / 100;
    if lo < MIN_BAND_MBPM {
        MIN_BAND_MBPM as int
    } else {
        lo as int
    }
}

/// The upper band edge for a given best estimate: 115 % of it, no higher
/// than the 210 BPM clamp.
pub open spec fn spec_clamped_max(best: u64) -> int {
    let hi = (best * 115) / 100;
    if hi > MAX_BAND_MBPM {
        MAX_BAND_MBPM as int
    } else {
        hi as int
    }
}

} // verus!
