//! Frequency spectra for the tempo estimator.
//!
//! A `Spectrum` is the finite sequence of `(frequency, magnitude)` pairs that
//! a Fourier transform over the hit window produces. Frequencies are held in
//! milli-BPM (one thousandth of a beat per minute, signed to carry the
//! negative-frequency fold), magnitudes in millionths of the transform's
//! unit amplitude. The surrounding binary runs the numeric transform and
//! hands the magnitudes in; everything that *decides* on them — harmonic
//! reinforcement, band filtering, and the choice of the dominant bin — is
//! done here.

use vstd::prelude::*;

verus! {

/// One spectral bin: `(frequency in milli-BPM, magnitude in millionths)`.
#[derive(Clone, Copy, PartialEq, Eq, Structural, Debug)]
pub struct FrequencyComponent(pub i64, pub u64);

/// A finite sequence of spectral bins.
#[derive(Clone)]
pub struct Spectrum(pub Vec<FrequencyComponent>);

/// Magnitudes are capped here on construction so that later scaling by one
/// million cannot overflow a `u64`.
pub const MAX_MAGNITUDE: u64 = 10_000_000_000_000;

/// Signed division rounding toward zero, as the machine's division does.
pub open spec fn trunc_div(a: int, b: int) -> int
    recommends
        b > 0,
{
    if a >= 0 {
        a / b
    } else {
        -((-a) / b)
    }
}

/// Frequency of bin `i` of a transform of `size` bins over samples spaced
/// `sample_period_ms` apart, in milli-BPM. Bins past the midpoint carry
/// negative frequencies.
pub open spec fn spec_bin_frequency(i: int, size: int, sample_period_ms: int) -> int
    recommends
        size > 0,
        sample_period_ms > 0,
{
    let offset = if i > size / 2 { i - size } else { i };
    trunc_div(60_000_000 * offset, size * sample_period_ms)
}

/// Tolerance bound standing in for an unbounded one: when fewer than two
/// distinct frequencies exist, no finite inter-bin distance is defined and
/// every bin is considered near every target, which this bound (far above
/// any representable frequency difference) achieves.
pub const GAP_UNBOUNDED: i64 = 0x4000_0000_0000;

/// Frequencies are capped well below this in practice; `spectral_sum`
/// requires it so that harmonic multiples stay in range.
pub const MAX_FREQUENCY_MBPM: i64 = 100_000_000;

/// The in-band test used by `band_pass`: strictly inside `(low, high)`.
pub open spec fn in_band(c: FrequencyComponent, low: i64, high: i64) -> bool {
    low < c.0 < high
}

/// The bins of `s` that lie strictly inside `(low, high)`, in order.
pub open spec fn filter_band(s: Seq<FrequencyComponent>, low: i64, high: i64) -> Seq<
    FrequencyComponent,
>
    decreases s.len(),
{
    if s.len() == 0 {
        Seq::empty()
    } else if in_band(s.last(), low, high) {
        filter_band(s.drop_last(), low, high).push(s.last())
    } else {
        filter_band(s.drop_last(), low, high)
    }
}

/// The magnitude of the absolute difference, as mathematical integers.
pub open spec fn abs_diff_i(a: int, b: int) -> int {
    if a >= b {
        a - b
    } else {
        b - a
    }
}

/// The largest magnitude among the first `n` bins of `s`.
pub open spec fn seq_max_mag(s: Seq<FrequencyComponent>, n: int) -> int
    decreases n,
{
    if n <= 0 {
        0
    } else if s[n - 1].1 >= seq_max_mag(s, n - 1) {
        s[n - 1].1 as int
    } else {
        seq_max_mag(s, n - 1)
    }
}

/// What `normalize` produces: every magnitude scaled so that the largest
/// becomes one million; an all-zero spectrum is left untouched.
pub open spec fn normalized_of(s: Seq<FrequencyComponent>) -> Seq<FrequencyComponent> {
    let max = seq_max_mag(s, s.len() as int);
    if max == 0 {
        s
    } else {
        Seq::new(s.len(), |i: int| FrequencyComponent(s[i].0, ((s[i].1 * 1_000_000) / max) as u64))
    }
}

/// The smallest distance between successive distinct bin frequencies of `s`,
/// `GAP_UNBOUNDED` when no two successive bins differ.
pub open spec fn min_adjacent_gap(s: Seq<FrequencyComponent>) -> int
    decreases s.len(),
{
    if s.len() < 2 {
        GAP_UNBOUNDED as int
    } else {
        let rest = min_adjacent_gap(s.drop_last());
        let d = if s[s.len() - 2].0 != s.last().0 {
            abs_diff_i(s.last().0 as int, s[s.len() - 2].0 as int)
        } else {
            GAP_UNBOUNDED as int
        };
        if d < rest {
            d
        } else {
            rest
        }
    }
}

/// Index of the first bin at or after `i` whose frequency lies within `tol`
/// of `target`, or -1 when there is none.
pub open spec fn find_near_from(
    s: Seq<FrequencyComponent>,
    i: int,
    target: int,
    tol: int,
) -> int
    decreases s.len() - i,
{
    if i < 0 || i >= s.len() {
        -1
    } else if abs_diff_i(s[i].0 as int, target) <= tol {
        i
    } else {
        find_near_from(s, i + 1, target, tol)
    }
}

/// Add `amount` to the magnitude of the first bin whose frequency lies
/// within `tol` of `target`; without such a bin, leave `s` as it is.
pub open spec fn add_near(
    s: Seq<FrequencyComponent>,
    target: int,
    amount: int,
    tol: int,
) -> Seq<FrequencyComponent> {
    let j = find_near_from(s, 0, target, tol);
    if j < 0 {
        s
    } else {
        s.update(j, FrequencyComponent(s[j].0, (s[j].1 + amount) as u64))
    }
}

/// One source bin's harmonic contributions at level `l`: half its magnitude
/// into the bin nearest its subharmonic `f / l`, then half into the bin
/// nearest its harmonic `f * l`.
pub open spec fn apply_source(
    s: Seq<FrequencyComponent>,
    src: FrequencyComponent,
    l: int,
    tol: int,
) -> Seq<FrequencyComponent> {
    let lower = add_near(s, trunc_div(src.0 as int, l), (src.1 / 2) as int, tol);
    add_near(lower, src.0 as int * l, (src.1 / 2) as int, tol)
}

/// The contributions of the first `k` source bins at level `l`, in order.
pub open spec fn after_sources(
    s: Seq<FrequencyComponent>,
    sources: Seq<FrequencyComponent>,
    l: int,
    k: int,
    tol: int,
) -> Seq<FrequencyComponent>
    decreases k,
{
    if k <= 0 {
        s
    } else {
        apply_source(after_sources(s, sources, l, k - 1, tol), sources[k - 1], l, tol)
    }
}

/// The contributions of every source bin at every level from 2 up to but
/// not including `l`, lower levels first.
pub open spec fn after_levels(
    s: Seq<FrequencyComponent>,
    sources: Seq<FrequencyComponent>,
    l: int,
    tol: int,
) -> Seq<FrequencyComponent>
    decreases l,
{
    if l <= 2 {
        s
    } else {
        after_sources(
            after_levels(s, sources, l - 1, tol),
            sources,
            l - 1,
            sources.len() as int,
            tol,
        )
    }
}

/// What `spectral_sum` produces from the bins `s`: the normalized spectrum,
/// reinforced by the half-magnitude harmonic contributions of the raw bins
/// for levels 2, 3 and 4, matched within half the minimum inter-bin
/// distance.
pub open spec fn spec_spectral_sum(s: Seq<FrequencyComponent>) -> Seq<FrequencyComponent> {
    after_levels(normalized_of(s), s, 5, min_adjacent_gap(s) / 2)
}

/// Index of the last bin of maximal magnitude among the first `n`.
pub open spec fn last_max_index(s: Seq<FrequencyComponent>, n: int) -> int
    decreases n,
{
    if n <= 1 {
        0
    } else {
        let r = last_max_index(s, n - 1);
        if s[n - 1].1 >= s[r].1 {
            n - 1
        } else {
            r
        }
    }
}

/// The last-maximum index lies in range.
pub proof fn lemma_last_max_index_range(s: Seq<FrequencyComponent>, n: int)
    requires
        1 <= n <= s.len(),
    ensures
        0 <= last_max_index(s, n) < n,
    decreases n,
{
    if n > 1 {
        lemma_last_max_index_range(s, n - 1);
    }
}

/// Every element that `filter_band` keeps is an in-band element of `s`.
pub proof fn lemma_filter_band_membership(s: Seq<FrequencyComponent>, low: i64, high: i64)
    ensures
        forall|k: int|
            0 <= k < filter_band(s, low, high).len() ==> in_band(
                #[trigger] filter_band(s, low, high)[k],
                low,
                high,
            ) && s.contains(filter_band(s, low, high)[k]),
    decreases s.len(),
{
    if s.len() > 0 {
        lemma_filter_band_membership(s.drop_last(), low, high);
        assert forall|k: int| 0 <= k < filter_band(s.drop_last(), low, high).len() implies s
            .contains(filter_band(s.drop_last(), low, high)[k]) by {
            let c = filter_band(s.drop_last(), low, high)[k];
            let j = choose|j: int| 0 <= j < s.drop_last().len() && s.drop_last()[j] == c;
            assert(s[j] == c);
        }
        if in_band(s.last(), low, high) {
            assert(s.contains(s.last())) by {
                assert(s[s.len() - 1] == s.last());
            }
        }
    }
}

impl Spectrum {
    /// Build a spectrum from transform magnitudes: bin `i` receives the
    /// frequency that its index maps to and the handed-in magnitude, capped
    /// at `MAX_MAGNITUDE`.
    pub fn from_fft_magnitudes(mags: &Vec<u64>, sample_period_ms: u64) -> (r: Spectrum)
        requires
            0 < mags@.len() <= 0x100000,
            0 < sample_period_ms <= 1_000_000,
        ensures
            r.0@.len() == mags@.len(),
            forall|i: int|
                0 <= i < mags@.len() ==> (#[trigger] r.0@[i]).0 == spec_bin_frequency(
                    i,
                    mags@.len() as int,
                    sample_period_ms as int,
                ) && r.0@[i].1 == (if mags@[i] <= MAX_MAGNITUDE {
                    mags@[i]
                } else {
                    MAX_MAGNITUDE
                }),
    {
        let size = mags.len();
        let mut out: Vec<FrequencyComponent> = Vec::new();
        let mut i: usize = 0;
        while i < size
            invariant
                i <= size,
                size == mags@.len(),
                0 < size <= 0x100000,
                0 < sample_period_ms <= 1_000_000,
                out@.len() == i,
                forall|k: int|
                    0 <= k < i ==> (#[trigger] out@[k]).0 == spec_bin_frequency(
                        k,
                        size as int,
                        sample_period_ms as int,
                    ) && out@[k].1 == (if mags@[k] <= MAX_MAGNITUDE {
                        mags@[k]
                    } else {
                        MAX_MAGNITUDE
                    }),
            decreases size - i,
        {
            let offset: i64 = if i > size / 2 {
                i as i64 - size as i64
            } else {
                i as i64
            };
            proof {
                assert(-0x100000 <= offset <= 0x100000);
                assert(-0x5F5E1_0000_0000 <= 60_000_000 * (offset as int)
                    <= 0x5F5E1_0000_0000) by (nonlinear_arith)
                    requires
                        -0x100000 <= offset <= 0x100000,
                ;
                assert(0 < (size as int) * (sample_period_ms as int)
                    <= 0x100000 * 1_000_000int) by (nonlinear_arith)
                    requires
                        0 < size <= 0x100000,
                        0 < sample_period_ms <= 1_000_000,
                ;
            }
            let freq: i64 = (60_000_000i64 * offset) / (size as i64 * sample_period_ms as i64);
            let mag = if mags[i] <= MAX_MAGNITUDE {
                mags[i]
            } else {
                MAX_MAGNITUDE
            };
            out.push(FrequencyComponent(freq, mag));
            i += 1;
        }
        Spectrum(out)
    }

    /// Keep only the bins strictly inside `(low, high)`.
    pub fn band_pass(&self, low: i64, high: i64) -> (r: Spectrum)
        ensures
            r.0@ == filter_band(self.0@, low, high),
    {
        let mut out: Vec<FrequencyComponent> = Vec::new();
        let mut i: usize = 0;
        while i < self.0.len()
            invariant
                i <= self.0@.len(),
                out@ == filter_band(self.0@.take(i as int), low, high),
            decreases self.0@.len() - i,
        {
            let c = self.0[i];
            proof {
                assert(self.0@.take(i + 1).drop_last() =~= self.0@.take(i as int));
                assert(self.0@.take(i + 1).last() == self.0@[i as int]);
            }
            if low < c.0 && c.0 < high {
                out.push(c);
            }
            i += 1;
        }
        proof {
            assert(self.0@.take(self.0@.len() as int) =~= self.0@);
        }
        Spectrum(out)
    }

    /// Keep only the bins strictly above `cutoff`.
    pub fn high_pass(&self, cutoff: i64) -> (r: Spectrum)
        ensures
            r.0@ == filter_band(self.0@, cutoff, i64::MAX),
    {
        self.band_pass(cutoff, i64::MAX)
    }

    /// Keep only the bins strictly below `cutoff`.
    pub fn low_pass(&self, cutoff: i64) -> (r: Spectrum)
        ensures
            r.0@ == filter_band(self.0@, i64::MIN, cutoff),
    {
        self.band_pass(i64::MIN, cutoff)
    }

    /// The largest magnitude in the spectrum, zero when it is empty.
    pub open spec fn spec_max_magnitude(self) -> int {
        seq_max_mag(self.0@, self.0@.len() as int)
    }

    /// The largest magnitude among the first `n` bins.
    pub open spec fn seq_max_magnitude(self, n: int) -> int {
        seq_max_mag(self.0@, n)
    }

    /// Scale every magnitude so that the largest becomes one million. A
    /// spectrum whose magnitudes are all zero is left as it is.
    pub fn normalize(&mut self)
        requires
            forall|i: int|
                0 <= i < old(self).0@.len() ==> (#[trigger] old(self).0@[i]).1 <= MAX_MAGNITUDE,
        ensures
            final(self).0@.len() == old(self).0@.len(),
            forall|i: int|
                0 <= i < old(self).0@.len() ==> (#[trigger] final(self).0@[i]).0 == old(
                    self,
                ).0@[i].0,
            old(self).spec_max_magnitude() == 0 ==> final(self).0@ == old(self).0@,
            old(self).spec_max_magnitude() > 0 ==> forall|i: int|
                0 <= i < old(self).0@.len() ==> (#[trigger] final(self).0@[i]).1 == (old(
                    self,
                ).0@[i].1 * 1_000_000) / old(self).spec_max_magnitude(),
    {
        let ghost orig = *self;
        let mut max: u64 = 0;
        let mut i: usize = 0;
        while i < self.0.len()
            invariant
                i <= self.0@.len(),
                *self == orig,
                max == orig.seq_max_magnitude(i as int),
            decreases self.0@.len() - i,
        {
            if self.0[i].1 >= max {
                max = self.0[i].1;
            }
            i += 1;
        }
        if max == 0 {
            return ;
        }
        let mut i: usize = 0;
        while i < self.0.len()
            invariant
                i <= self.0@.len(),
                self.0@.len() == orig.0@.len(),
                max == orig.spec_max_magnitude(),
                max > 0,
                forall|k: int|
                    0 <= k < orig.0@.len() ==> (#[trigger] orig.0@[k]).1 <= MAX_MAGNITUDE,
                forall|k: int| i <= k < orig.0@.len() ==> #[trigger] self.0@[k] == orig.0@[k],
                forall|k: int|
                    0 <= k < i ==> (#[trigger] self.0@[k]).0 == orig.0@[k].0 && self.0@[k].1 == (
                    orig.0@[k].1 * 1_000_000) / (max as int),
            decreases self.0@.len() - i,
        {
            let c = self.0[i];
            let scaled: u64 = (c.1 * 1_000_000) / max;
            self.0.set(i, FrequencyComponent(c.0, scaled));
            i += 1;
        }
    }

    /// The last bin of maximal magnitude, or nothing when the spectrum is
    /// empty. Every bin's magnitude is at most the returned one.
    pub fn dominant(&self) -> (r: Option<FrequencyComponent>)
        ensures
            r is Some <==> self.0@.len() > 0,
            r is Some ==> r->Some_0 == self.0@[last_max_index(self.0@, self.0@.len() as int)],
            r is Some ==> forall|k: int|
                0 <= k < self.0@.len() ==> (#[trigger] self.0@[k]).1 <= r->Some_0.1,
    {
        if self.0.len() == 0 {
            return None;
        }
        let mut idx: usize = 0;
        let mut i: usize = 1;
        while i < self.0.len()
            invariant
                1 <= i <= self.0@.len(),
                idx < i,
                idx == last_max_index(self.0@, i as int),
                forall|k: int| 0 <= k < i ==> (#[trigger] self.0@[k]).1 <= self.0@[idx as int].1,
            decreases self.0@.len() - i,
        {
            if self.0[i].1 >= self.0[idx].1 {
                idx = i;
            }
            i += 1;
        }
        Some(self.0[idx])
    }

    /// The smallest distance between successive distinct bin frequencies,
    /// `GAP_UNBOUNDED` when no two successive bins differ.
    #[verifier::loop_isolation(false)]
    fn min_gap(&self) -> (g: i64)
        requires
            forall|i: int|
                0 <= i < self.0@.len() ==> -MAX_FREQUENCY_MBPM <= (#[trigger] self.0@[i]).0
                    <= MAX_FREQUENCY_MBPM,
        ensures
            g == min_adjacent_gap(self.0@),
            0 <= g <= GAP_UNBOUNDED,
    {
        if self.0.len() == 0 {
            return GAP_UNBOUNDED;
        }
        let mut g: i64 = GAP_UNBOUNDED;
        let mut i: usize = 1;
        proof {
            assert(self.0@.take(1int) =~= self.0@.take(1int));
            assert(min_adjacent_gap(self.0@.take(1int)) == GAP_UNBOUNDED as int);
        }
        while i < self.0.len()
            invariant
                1 <= i <= self.0@.len(),
                g == min_adjacent_gap(self.0@.take(i as int)),
                0 <= g <= GAP_UNBOUNDED,
            decreases self.0@.len() - i,
        {
            let prev = self.0[i - 1].0;
            let cur = self.0[i].0;
            if prev != cur {
                let d = if cur >= prev {
                    cur - prev
                } else {
                    prev - cur
                };
                if d < g {
                    g = d;
                }
            }
            proof {
                let t = self.0@.take(i + 1);
                assert(t.drop_last() =~= self.0@.take(i as int));
                assert(t.last() == self.0@[i as int]);
                assert(t[t.len() - 2] == self.0@[i - 1]);
            }
            i += 1;
        }
        proof {
            assert(self.0@.take(self.0@.len() as int) =~= self.0@);
        }
        g
    }

    /// Reinforce harmonics: normalize a working copy, then for each level
    /// `l` in 2, 3, 4 and each raw bin, add half the raw magnitude to the
    /// working bin nearest `f / l` and to the one nearest `f * l`, a bin
    /// counting as near when it lies within half the minimum inter-bin
    /// distance. The working copy replaces the spectrum.
    #[verifier::loop_isolation(false)]
    pub fn spectral_sum(&mut self)
        requires
            old(self).0@.len() <= 0x4000,
            forall|i: int|
                0 <= i < old(self).0@.len() ==> (#[trigger] old(self).0@[i]).1 <= MAX_MAGNITUDE,
            forall|i: int|
                0 <= i < old(self).0@.len() ==> -MAX_FREQUENCY_MBPM <= (#[trigger] old(
                    self,
                ).0@[i]).0 <= MAX_FREQUENCY_MBPM,
        ensures
            final(self).0@ == spec_spectral_sum(old(self).0@),
            final(self).0@.len() == old(self).0@.len(),
    {
        let ghost orig = self.0@;
        let tol = self.min_gap() / 2;
        let n = self.0.len();

        // working copy, then normalize it
        let mut work = Spectrum(copy_components(&self.0));
        work.normalize();
        proof {
            assert(work.0@ =~= normalized_of(orig));
            lemma_normalized_bounded(orig);
        }

        let ghost half = (MAX_MAGNITUDE / 2) as int;
        let mut l: u64 = 2;
        while l < 5
            invariant
                2 <= l <= 5,
                n == orig.len() <= 0x4000,
                self.0@ == orig,
                forall|i: int|
                    0 <= i < orig.len() ==> (#[trigger] orig[i]).1 <= MAX_MAGNITUDE,
                forall|i: int|
                    0 <= i < orig.len() ==> -MAX_FREQUENCY_MBPM <= (#[trigger] orig[i]).0
                        <= MAX_FREQUENCY_MBPM,
                tol == min_adjacent_gap(orig) / 2,
                0 <= tol <= GAP_UNBOUNDED,
                work.0@ == after_levels(normalized_of(orig), orig, l as int, tol as int),
                work.0@.len() == n,
                forall|i: int|
                    0 <= i < work.0@.len() ==> (#[trigger] work.0@[i]).1 <= 1_000_000 + (l - 2)
                        * (2 * n) * half,
                forall|i: int|
                    0 <= i < work.0@.len() ==> (#[trigger] work.0@[i]).0 == orig[i].0,
            decreases 5 - l,
        {
            let mut k: usize = 0;
            while k < n
                invariant
                    2 <= l < 5,
                    k <= n,
                    n == orig.len() <= 0x4000,
                    self.0@ == orig,
                    forall|i: int|
                        0 <= i < orig.len() ==> (#[trigger] orig[i]).1 <= MAX_MAGNITUDE,
                    forall|i: int|
                        0 <= i < orig.len() ==> -MAX_FREQUENCY_MBPM <= (#[trigger] orig[i]).0
                            <= MAX_FREQUENCY_MBPM,
                    0 <= tol <= GAP_UNBOUNDED,
                    work.0@ == after_sources(
                        after_levels(normalized_of(orig), orig, l as int, tol as int),
                        orig,
                        l as int,
                        k as int,
                        tol as int,
                    ),
                    work.0@.len() == n,
                    forall|i: int|
                        0 <= i < work.0@.len() ==> (#[trigger] work.0@[i]).1 <= 1_000_000 + ((l
                            - 2) * (2 * n) + 2 * k) * half,
                    forall|i: int|
                        0 <= i < work.0@.len() ==> (#[trigger] work.0@[i]).0 == orig[i].0,
                decreases n - k,
            {
                let src = self.0[k];
                let amount = src.1 / 2;
                let lower = src.0 / (l as i64);
                proof {
                    assert(-500_000_000 <= src.0 as int * (l as int) <= 500_000_000)
                        by (nonlinear_arith)
                        requires
                            -MAX_FREQUENCY_MBPM <= src.0 <= MAX_FREQUENCY_MBPM,
                            2 <= l < 5,
                    ;
                }
                let upper = src.0 * (l as i64);
                proof {
                    assert(((l - 2) * (2 * n) + 2 * k) * half + half + half == ((l - 2) * (2 * n)
                        + 2 * (k + 1)) * half) by (nonlinear_arith);
                    assert(((l - 2) * (2 * n) + 2 * k) * half >= 0) by (nonlinear_arith)
                        requires
                            2 <= l,
                            0 <= k,
                            0 <= n,
                            half > 0,
                    ;
                    assert(((l - 2) * (2 * n) + 2 * (k as int + 1)) * half <= (3 * (2 * n)) * half)
                        by (nonlinear_arith)
                        requires
                            2 <= l < 5,
                            0 <= k < n,
                            half > 0,
                    ;
                    assert(lower as int == trunc_div(src.0 as int, l as int));
                }
                add_near_exec(
                    &mut work.0,
                    lower,
                    amount,
                    tol,
                    Ghost(1_000_000 + ((l - 2) * (2 * n as int) + 2 * k) * half),
                );
                add_near_exec(
                    &mut work.0,
                    upper,
                    amount,
                    tol,
                    Ghost(1_000_000 + ((l - 2) * (2 * n as int) + 2 * k) * half + half),
                );
                k += 1;
            }
            proof {
                assert(after_levels(normalized_of(orig), orig, l as int + 1, tol as int)
                    == after_sources(
                    after_levels(normalized_of(orig), orig, l as int, tol as int),
                    orig,
                    l as int,
                    orig.len() as int,
                    tol as int,
                ));
                assert forall|i: int| 0 <= i < work.0@.len() implies (#[trigger] work.0@[i]).1
                    <= 1_000_000 + (l + 1 - 2) * (2 * n) * half by {
                    assert(((l - 2) * (2 * n) + 2 * n) * half == (l + 1 - 2) * (2 * n) * half)
                        by (nonlinear_arith);
                    assert(((l - 2) * (2 * n) + 2 * n as int) * half >= ((l - 2) * (2 * n) + 2 * (
                    n as int)) * half);
                }
            }
            l += 1;
        }
        self.0 = work.0;
    }
}

/// A plain element-for-element copy of a component vector.
fn copy_components(v: &Vec<FrequencyComponent>) -> (r: Vec<FrequencyComponent>)
    ensures
        r@ == v@,
{
    let mut out: Vec<FrequencyComponent> = Vec::new();
    let mut i: usize = 0;
    while i < v.len()
        invariant
            i <= v@.len(),
            out@ =~= v@.take(i as int),
        decreases v@.len() - i,
    {
        out.push(v[i]);
        i += 1;
    }
    proof {
        assert(v@.take(v@.len() as int) =~= v@);
    }
    out
}

/// After normalizing, every magnitude is at most one million.
proof fn lemma_normalized_bounded(s: Seq<FrequencyComponent>)
    requires
        forall|i: int| 0 <= i < s.len() ==> (#[trigger] s[i]).1 <= MAX_MAGNITUDE,
    ensures
        forall|i: int|
            0 <= i < normalized_of(s).len() ==> (#[trigger] normalized_of(s)[i]).1 <= 1_000_000,
        normalized_of(s).len() == s.len(),
        forall|i: int| 0 <= i < s.len() ==> (#[trigger] normalized_of(s)[i]).0 == s[i].0,
{
    let max = seq_max_mag(s, s.len() as int);
    lemma_seq_max_mag_bounds(s, s.len() as int);
    if max == 0 {
        assert forall|i: int| 0 <= i < normalized_of(s).len() implies (#[trigger] normalized_of(
            s,
        )[i]).1 <= 1_000_000 by {
            assert(s[i].1 <= seq_max_mag(s, s.len() as int)) by {
                lemma_seq_max_mag_bounds(s, s.len() as int);
            }
        }
    } else {
        assert forall|i: int| 0 <= i < normalized_of(s).len() implies (#[trigger] normalized_of(
            s,
        )[i]).1 <= 1_000_000 by {
            assert(s[i].1 <= max) by {
                lemma_seq_max_mag_bounds(s, s.len() as int);
            }
            assert(s[i].1 * 1_000_000 <= max * 1_000_000) by (nonlinear_arith)
                requires
                    s[i].1 <= max,
            ;
            assert((s[i].1 * 1_000_000) / max <= (max * 1_000_000) / max) by {
                vstd::arithmetic::div_mod::lemma_div_is_ordered(
                    s[i].1 * 1_000_000,
                    max * 1_000_000,
                    max,
                );
            }
            assert((max * 1_000_000) / max == 1_000_000) by (nonlinear_arith)
                requires
                    max > 0,
            ;
        }
    }
}

/// Every magnitude among the first `n` is at most their maximum, and the
/// maximum is nonnegative.
proof fn lemma_seq_max_mag_bounds(s: Seq<FrequencyComponent>, n: int)
    requires
        n <= s.len(),
    ensures
        0 <= seq_max_mag(s, n),
        forall|i: int| 0 <= i < n ==> (#[trigger] s[i]).1 <= seq_max_mag(s, n),
    decreases n,
{
    if n > 0 {
        lemma_seq_max_mag_bounds(s, n - 1);
    }
}

/// Add `amount` to the first bin within `tol` of `target`, exactly as
/// `add_near` says; magnitudes stay below the handed-in bound plus the
/// amount added.
#[verifier::loop_isolation(false)]
fn add_near_exec(
    v: &mut Vec<FrequencyComponent>,
    target: i64,
    amount: u64,
    tol: i64,
    Ghost(bound): Ghost<int>,
)
    requires
        tol >= 0,
        amount <= MAX_MAGNITUDE,
        forall|i: int| 0 <= i < old(v)@.len() ==> (#[trigger] old(v)@[i]).1 <= bound,
        0 <= bound,
        bound + amount < u64::MAX,
        forall|i: int|
            0 <= i < old(v)@.len() ==> -MAX_FREQUENCY_MBPM <= (#[trigger] old(v)@[i]).0
                <= MAX_FREQUENCY_MBPM,
        -0x10000000000 <= target <= 0x10000000000,
    ensures
        final(v)@ == add_near(old(v)@, target as int, amount as int, tol as int),
        final(v)@.len() == old(v)@.len(),
        forall|i: int| 0 <= i < final(v)@.len() ==> (#[trigger] final(v)@[i]).1 <= bound + amount,
        forall|i: int| 0 <= i < final(v)@.len() ==> (#[trigger] final(v)@[i]).0 == old(v)@[i].0,
{
    let ghost s = v@;
    let mut i: usize = 0;
    while i < v.len()
        invariant
            i <= s.len(),
            v@ == s,
            tol >= 0,
            -0x10000000000 <= target <= 0x10000000000,
            forall|k: int|
                0 <= k < s.len() ==> -MAX_FREQUENCY_MBPM <= (#[trigger] s[k]).0
                    <= MAX_FREQUENCY_MBPM,
            forall|k: int| 0 <= k < s.len() ==> (#[trigger] s[k]).1 <= bound,
            0 <= bound,
            bound + amount < u64::MAX,
            amount <= MAX_MAGNITUDE,
            find_near_from(s, 0, target as int, tol as int) == find_near_from(
                s,
                i as int,
                target as int,
                tol as int,
            ),
        decreases s.len() - i,
    {
        let c = v[i];
        let d = if c.0 >= target {
            c.0 - target
        } else {
            target - c.0
        };
        if d <= tol {
            v.set(i, FrequencyComponent(c.0, c.1 + amount));
            proof {
                assert(find_near_from(s, i as int, target as int, tol as int) == i);
                assert(v@ =~= add_near(s, target as int, amount as int, tol as int));
            }
            return ;
        }
        i += 1;
    }
    proof {
        assert(find_near_from(s, s.len() as int, target as int, tol as int) == -1);
        assert(v@ =~= add_near(s, target as int, amount as int, tol as int));
    }
}

} // verus!
