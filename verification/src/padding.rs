//! When a circuit emits padding cells.
//!
//! Times are nanoseconds since an origin that the caller chooses.

use vstd::prelude::*;

verus! {

/// What the cell pump should do.
#[derive(Debug, Clone, PartialEq, Eq, Structural)]
pub enum PadDecision {
    /// Emit a padding cell.
    Now,
    /// Ask again after this many nanoseconds.
    SleepFor(u64),
    /// Never pad this circuit.
    Never,
}

/// The nanoseconds from `earlier` to `now`, zero when `now` is not later.
pub open spec fn elapsed(now: u64, earlier: u64) -> int {
    if now >= earlier {
        now - earlier
    } else {
        0
    }
}

/// Pad once `interval` has passed since `last`.
pub open spec fn paced(now: u64, last: u64, interval: u64) -> PadDecision {
    if elapsed(now, last) >= interval {
        PadDecision::Now
    } else {
        PadDecision::SleepFor((interval - elapsed(now, last)) as u64)
    }
}

/// A policy of when to pad. Its state changes with the cells it is told of;
/// asking it changes nothing.
pub trait PaddingScheduler: Send + Sync {
    /// The answer at the time `now`.
    spec fn decision(&self, now: u64) -> PadDecision;

    /// The answer at the time `now` once a real cell flowed at the time `cell`.
    spec fn decision_after_real(&self, cell: u64, now: u64) -> PadDecision;

    /// The answer at the time `now` once a padding cell flowed at the time
    /// `cell`.
    spec fn decision_after_padding(&self, cell: u64, now: u64) -> PadDecision;

    /// The policy's name.
    fn name(&self) -> (r: &'static str);

    /// Whether to pad at the time `now`.
    fn should_pad_now(&self, now: u64) -> (r: PadDecision)
        ensures
            r == self.decision(now),
    ;

    /// Tells the policy of a real cell.
    fn on_real_cell(&mut self, now: u64)
        ensures
            forall|later: u64| #[trigger]
                final(self).decision(later) == old(self).decision_after_real(now, later),
    ;

    /// Tells the policy of a padding cell.
    fn on_padding_cell(&mut self, now: u64)
        ensures
            forall|later: u64| #[trigger]
                final(self).decision(later) == old(self).decision_after_padding(now, later),
    ;
}

/// No padding at all.
pub struct NoPadding;

impl NoPadding {
    /// The state after a real cell at the time `now`.
    pub open spec fn after_real(self, now: u64) -> Self {
        self
    }

    /// The state after a padding cell at the time `now`.
    pub open spec fn after_padding(self, now: u64) -> Self {
        self
    }
}

impl PaddingScheduler for NoPadding {
    open spec fn decision(&self, now: u64) -> PadDecision {
        PadDecision::Never
    }

    open spec fn decision_after_real(&self, cell: u64, now: u64) -> PadDecision {
        self.after_real(cell).decision(now)
    }

    open spec fn decision_after_padding(&self, cell: u64, now: u64) -> PadDecision {
        self.after_padding(cell).decision(now)
    }

    fn name(&self) -> (r: &'static str)
        ensures
            r@ == "none"@,
    {
        "none"
    }

    fn should_pad_now(&self, now: u64) -> (r: PadDecision) {
        PadDecision::Never
    }

    fn on_real_cell(&mut self, now: u64)
        ensures
            *final(self) == old(self).after_real(now),
    {
    }

    fn on_padding_cell(&mut self, now: u64)
        ensures
            *final(self) == old(self).after_padding(now),
    {
    }
}

/// One padding cell every interval, whatever else flows.
pub struct ConstantRate {
    pub interval: u64,
    pub last_padding: u64,
}

impl ConstantRate {
    /// Paces padding cells from the time `now` on.
    pub fn new(interval: u64, now: u64) -> (r: Self)
        ensures
            r.interval == interval,
            r.last_padding == now,
    {
        ConstantRate { interval, last_padding: now }
    }

    /// The state after a real cell at the time `now`.
    pub open spec fn after_real(self, now: u64) -> Self {
        self
    }

    /// The state after a padding cell at the time `now`.
    pub open spec fn after_padding(self, now: u64) -> Self {
        ConstantRate { last_padding: now, ..self }
    }
}

impl PaddingScheduler for ConstantRate {
    open spec fn decision(&self, now: u64) -> PadDecision {
        paced(now, self.last_padding, self.interval)
    }

    open spec fn decision_after_real(&self, cell: u64, now: u64) -> PadDecision {
        self.after_real(cell).decision(now)
    }

    open spec fn decision_after_padding(&self, cell: u64, now: u64) -> PadDecision {
        self.after_padding(cell).decision(now)
    }

    fn name(&self) -> (r: &'static str)
        ensures
            r@ == "constant-rate"@,
    {
        "constant-rate"
    }

    fn should_pad_now(&self, now: u64) -> (r: PadDecision) {
        let elapsed: u64 = now.saturating_sub(self.last_padding);
        if elapsed >= self.interval {
            PadDecision::Now
        } else {
            PadDecision::SleepFor(self.interval - elapsed)
        }
    }

    fn on_real_cell(&mut self, now: u64)
        ensures
            *final(self) == old(self).after_real(now),
    {
    }

    fn on_padding_cell(&mut self, now: u64)
        ensures
            *final(self) == old(self).after_padding(now),
    {
        self.last_padding = now;
    }
}

/// Padding only while the circuit is idle: no real cell for the threshold.
pub struct AdaptiveBurst {
    pub idle_threshold: u64,
    pub padding_interval: u64,
    pub last_real: u64,
    pub last_padding: u64,
}

impl AdaptiveBurst {
    /// Watches for idleness from the time `now` on.
    pub fn new(idle_threshold: u64, padding_interval: u64, now: u64) -> (r: Self)
        ensures
            r.idle_threshold == idle_threshold,
            r.padding_interval == padding_interval,
            r.last_real == now,
            r.last_padding == now,
    {
        AdaptiveBurst { idle_threshold, padding_interval, last_real: now, last_padding: now }
    }

    /// The state after a real cell at the time `now`.
    pub open spec fn after_real(self, now: u64) -> Self {
        AdaptiveBurst { last_real: now, ..self }
    }

    /// The state after a padding cell at the time `now`.
    pub open spec fn after_padding(self, now: u64) -> Self {
        AdaptiveBurst { last_padding: now, ..self }
    }
}

impl PaddingScheduler for AdaptiveBurst {
    open spec fn decision(&self, now: u64) -> PadDecision {
        let idle = elapsed(now, self.last_real);
        if idle < self.idle_threshold {
            PadDecision::SleepFor((self.idle_threshold - idle) as u64)
        } else {
            paced(now, self.last_padding, self.padding_interval)
        }
    }

    open spec fn decision_after_real(&self, cell: u64, now: u64) -> PadDecision {
        self.after_real(cell).decision(now)
    }

    open spec fn decision_after_padding(&self, cell: u64, now: u64) -> PadDecision {
        self.after_padding(cell).decision(now)
    }

    fn name(&self) -> (r: &'static str)
        ensures
            r@ == "adaptive-burst"@,
    {
        "adaptive-burst"
    }

    fn should_pad_now(&self, now: u64) -> (r: PadDecision) {
        let real_idle: u64 = now.saturating_sub(self.last_real);
        if real_idle < self.idle_threshold {
            return PadDecision::SleepFor(self.idle_threshold - real_idle);
        }
        let padding_idle: u64 = now.saturating_sub(self.last_padding);
        if padding_idle >= self.padding_interval {
            PadDecision::Now
        } else {
            PadDecision::SleepFor(self.padding_interval - padding_idle)
        }
    }

    fn on_real_cell(&mut self, now: u64)
        ensures
            *final(self) == old(self).after_real(now),
    {
        self.last_real = now;
    }

    fn on_padding_cell(&mut self, now: u64)
        ensures
            *final(self) == old(self).after_padding(now),
    {
        self.last_padding = now;
    }
}

/// A policy that answers `SleepFor` answers `Now` once that time has passed, if
/// no cell flowed, for the constant rate.
pub proof fn law_constant_rate_sleeps_exactly(s: ConstantRate, now: u64)
    requires
        s.decision(now) is SleepFor,
        now >= s.last_padding,
        now + s.decision(now)->SleepFor_0 <= u64::MAX,
    ensures
        s.decision((now + s.decision(now)->SleepFor_0) as u64) == PadDecision::Now,
{
}

/// Real cells do not move the schedule of the constant rate.
pub proof fn law_constant_rate_ignores_real_cells(s: ConstantRate, cell: u64, now: u64)
    ensures
        s.after_real(cell).decision(now) == s.decision(now),
{
}

/// A circuit with a real cell within the idle threshold is not padded.
pub proof fn law_busy_circuits_are_not_padded(s: AdaptiveBurst, cell: u64, now: u64)
    requires
        elapsed(now, cell) < s.idle_threshold,
    ensures
        s.after_real(cell).decision(now) is SleepFor,
{
}

/// Two padding cells are at least the interval apart: straight after one, no
/// policy with a positive interval wants another.
pub proof fn law_no_padding_straight_after_padding(c: ConstantRate, a: AdaptiveBurst, now: u64)
    ensures
        c.interval > 0 ==> c.after_padding(now).decision(now) is SleepFor,
        a.padding_interval > 0 ==> a.after_padding(now).decision(now) is SleepFor,
{
}

/// A schedule at a constant rate pads exactly where the interval has passed since the last
/// padding, and otherwise sleeps for what is left of it.
pub proof fn law_constant_rate_pads_on_time(s: ConstantRate, now: u64, r: PadDecision)
    requires
        call_ensures(ConstantRate::should_pad_now, (&s, now), r),
    ensures
        r is Now <==> now >= s.last_padding + s.interval || s.interval == 0,
        !(r is Never),
        r is SleepFor && now >= s.last_padding ==> now + r->SleepFor_0 == s.last_padding + s.interval,
        r is SleepFor ==> 0 < r->SleepFor_0 <= s.interval,
{
}

/// A schedule that follows the traffic never pads while the circuit is in use, and once
/// it is idle pads at its interval; padding itself does not make the circuit busy.
pub proof fn law_adaptive_padding_waits_for_idleness(s: AdaptiveBurst, now: u64, r: PadDecision)
    requires
        s.last_real <= now,
        s.last_padding <= now,
        call_ensures(AdaptiveBurst::should_pad_now, (&s, now), r),
    ensures
        r is Now <==> now >= s.last_real + s.idle_threshold && now >= s.last_padding + s.padding_interval,
        !(r is Never),
        now < s.last_real + s.idle_threshold ==> r is SleepFor && now + r->SleepFor_0 == s.last_real
            + s.idle_threshold,
        now >= s.last_real + s.idle_threshold && r is SleepFor ==> now + r->SleepFor_0 == s.last_padding
            + s.padding_interval,
{
}

/// Without padding nothing is ever padded.
pub proof fn law_no_padding_is_never(s: NoPadding, now: u64, r: PadDecision)
    requires
        call_ensures(NoPadding::should_pad_now, (&s, now), r),
    ensures
        r is Never,
{
}

/// A real cell makes an adaptive circuit busy until its threshold has passed; a padding
/// cell starts the interval anew, and leaves the time of the last real cell alone.
pub proof fn law_cells_set_the_time(
    s: AdaptiveBurst,
    used: AdaptiveBurst,
    padded: AdaptiveBurst,
    now: u64,
)
    requires
        exists|x: &mut AdaptiveBurst|
            *x == s && *final(x) == used && #[trigger] call_ensures(AdaptiveBurst::on_real_cell, (x, now), ()),
        exists|x: &mut AdaptiveBurst|
            *x == s && *final(x) == padded && #[trigger] call_ensures(AdaptiveBurst::on_padding_cell, (x, now), ()),
    ensures
        used.last_real == now && used.last_padding == s.last_padding,
        padded.last_padding == now && padded.last_real == s.last_real,
        used.idle_threshold == s.idle_threshold && used.padding_interval == s.padding_interval,
        padded.idle_threshold == s.idle_threshold && padded.padding_interval == s.padding_interval,
{
}

} // verus!
