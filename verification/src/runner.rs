//! Per-tick decisions of the reservoir runtime: the input pulse that an
//! onset arms, the tempo-tracking tick period, and the end-of-tick sleep.
//!
//! The runtime itself — channel plumbing, the floating-point forward pass
//! and the sleeps — runs outside; each tick it asks this module what the
//! input sample is, how long the tick should last, and whether any sleep
//! remains.

use vstd::prelude::*;

verus! {

/// The input pulse: after each accepted onset the input reads one for
/// exactly `width` consecutive ticks.
pub struct InputPulse {
    /// How many ticks an onset drives the input for.
    pub width: u32,
    /// How many driven ticks remain.
    pub remaining: u32,
}

impl InputPulse {
    /// A pulse generator at rest.
    pub fn new(width: u32) -> (r: InputPulse)
        ensures
            r.width == width,
            r.remaining == 0,
    {
        InputPulse { width, remaining: 0 }
    }

    /// An onset arms the countdown to the full pulse width.
    pub fn on_onset(&mut self)
        ensures
            final(self).width == old(self).width,
            final(self).remaining == old(self).width,
    {
        self.remaining = self.width;
    }

    /// One tick: the input is driven exactly while the countdown is
    /// positive, and the countdown falls by one.
    pub fn tick(&mut self) -> (active: bool)
        ensures
            final(self).width == old(self).width,
            active == (old(self).remaining > 0),
            final(self).remaining == (if old(self).remaining > 0 {
                old(self).remaining - 1
            } else {
                0int
            }),
            *final(self) == old(self).spec_tick().0,
            active == old(self).spec_tick().1,
    {
        if self.remaining > 0 {
            self.remaining = self.remaining - 1;
            true
        } else {
            false
        }
    }

    /// What one tick does, as a function of the state.
    pub open spec fn spec_tick(self) -> (InputPulse, bool) {
        if self.remaining > 0 {
            (InputPulse { width: self.width, remaining: (self.remaining - 1) as u32 }, true)
        } else {
            (self, false)
        }
    }

    /// The state after `t` ticks.
    pub open spec fn after_ticks(self, t: nat) -> InputPulse
        decreases t,
    {
        if t == 0 {
            self
        } else {
            self.after_ticks((t - 1) as nat).spec_tick().0
        }
    }

    /// Whether the tick numbered `t` (counting from zero) drives the
    /// input.
    pub open spec fn active_at(self, t: nat) -> bool {
        self.after_ticks(t).spec_tick().1
    }
}

/// The countdown falls by one per tick until it reaches zero.
pub proof fn lemma_remaining_after_ticks(p: InputPulse, t: nat)
    ensures
        p.after_ticks(t).remaining == (if t <= p.remaining {
            p.remaining - t
        } else {
            0int
        }),
        p.after_ticks(t).width == p.width,
    decreases t,
{
    if t > 0 {
        lemma_remaining_after_ticks(p, (t - 1) as nat);
    }
}

/// An onset drives the input for exactly `width` ticks: from a freshly
/// armed pulse, tick `t` is active exactly when `t` is below the width.
pub proof fn lemma_pulse_width_exact(p: InputPulse, t: nat)
    requires
        p.remaining == p.width,
    ensures
        p.active_at(t) <==> t < p.width,
{
    lemma_remaining_after_ticks(p, t);
}

/// The effective tick period: the nominal period, scaled so that ticks
/// track the tempo — doubled at one beat per second (120 BPM halves it
/// back to nominal). Times in milliseconds, tempo in milli-BPM.
pub fn adjusted_timestep_ms(timestep_ms: u64, mbpm: u64) -> (r: u64)
    requires
        1 <= mbpm,
        timestep_ms <= 1_000_000,
    ensures
        r as int == (timestep_ms as int) * 120_000 / (mbpm as int),
{
    timestep_ms * 120_000 / mbpm
}

/// How much of the tick budget is left to sleep; an overrun tick skips
/// its sleep and carries no error forward.
pub fn sleep_remainder_us(elapsed_us: u64, budget_us: u64) -> (r: Option<u64>)
    ensures
        r is Some <==> elapsed_us < budget_us,
        r is Some ==> r->0 == budget_us - elapsed_us,
{
    if elapsed_us < budget_us {
        Some(budget_us - elapsed_us)
    } else {
        None
    }
}

} // verus!
