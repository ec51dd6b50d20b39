use vstd::prelude::*;
use std::time::{Duration, SystemTime};

verus! {

/// The key of interaction-latency samples.
pub const INTERACTION_LATENCY_MS_KEY: &'static str = "interaction_latency_ms";

/// The key of frame-budget samples.
pub const FRAME_BUDGET_DEGRADED_KEY: &'static str = "frame_budget_degraded";

/// `std::time::SystemTime`, a point in wall-clock time. It is opaque here:
/// nothing is claimed of what it holds.
#[verifier::external_type_specification]
#[verifier::external_body]
pub struct ExSystemTime(SystemTime);

/// `SystemTime::now`: the current wall-clock time. Nothing is stated of it.
#[verifier::external_body]
fn system_time_now() -> SystemTime {
    SystemTime::now()
}

/// `SystemTime::duration_since(UNIX_EPOCH)`: how long after the Unix epoch
/// `t` lies, `None` when it lies before. Nothing is stated of the value: it
/// depends on the clock.
#[verifier::external_body]
fn since_unix_epoch(t: &SystemTime) -> Option<Duration> {
    t.duration_since(std::time::UNIX_EPOCH).ok()
}

/// `Duration::as_millis`: the whole milliseconds in `d`. `Duration` is
/// opaque here, so nothing is stated of the value.
#[verifier::external_body]
fn whole_millis(d: &Duration) -> u128 {
    d.as_millis()
}

/// Milliseconds since the Unix epoch by the wall clock (0 if the clock is
/// before the epoch).
pub fn now_ms() -> u64 {
    let t = system_time_now();
    match since_unix_epoch(&t) {
        Some(d) => {
            let ms = whole_millis(&d);
            #[verifier::truncate] (ms as u64)
        },
        None => 0,
    }
}

/// A performance measurement reported by the scheduler.
#[derive(Clone, Debug)]
pub struct PerformanceSample {
    pub key: String,
    pub value_ms: Option<u64>,
    pub degraded: Option<bool>,
    pub active_tab_id: String,
    pub interaction_epoch: u64,
    pub recorded_at_ms: u64,
}

impl PerformanceSample {
    /// An exact copy.
    pub fn duplicate(&self) -> (r: PerformanceSample)
        ensures
            r == *self,
    {
        PerformanceSample {
            key: self.key.clone(),
            value_ms: self.value_ms,
            degraded: self.degraded,
            active_tab_id: self.active_tab_id.clone(),
            interaction_epoch: self.interaction_epoch,
            recorded_at_ms: self.recorded_at_ms,
        }
    }
}

/// The samples recorded so far, oldest first.
pub struct PerformanceLog {
    samples: Vec<PerformanceSample>,
}

impl View for PerformanceLog {
    type V = Seq<PerformanceSample>;

    closed spec fn view(&self) -> Seq<PerformanceSample> {
        self.samples@
    }
}

impl PerformanceLog {
    /// An empty log.
    pub fn new() -> (r: PerformanceLog)
        ensures
            r@ == Seq::<PerformanceSample>::empty(),
    {
        PerformanceLog { samples: Vec::new() }
    }

    fn push_sample(&mut self, sample: PerformanceSample) -> (r: PerformanceSample)
        ensures
            r == sample,
            final(self)@ == old(self)@.push(sample),
    {
        let copy = sample.duplicate();
        self.samples.push(sample);
        copy
    }

    /// Records how long an interaction took to be answered; the sample is
    /// appended and returned. Its time stamp is the wall clock's.
    pub fn record_interaction_latency_ms(
        &mut self,
        active_tab_id: &str,
        interaction_epoch: u64,
        value_ms: u64,
    ) -> (r: PerformanceSample)
        ensures
            r.key@ == INTERACTION_LATENCY_MS_KEY@,
            r.value_ms == Some(value_ms),
            r.degraded.is_none(),
            r.active_tab_id@ == active_tab_id@,
            r.interaction_epoch == interaction_epoch,
            final(self)@ == old(self)@.push(r),
    {
        let sample = PerformanceSample {
            key: String::from_str(INTERACTION_LATENCY_MS_KEY),
            value_ms: Some(value_ms),
            degraded: None,
            active_tab_id: String::from_str(active_tab_id),
            interaction_epoch,
            recorded_at_ms: now_ms(),
        };
        self.push_sample(sample)
    }

    /// Records whether the frame budget was exceeded; the sample is appended
    /// and returned. Its time stamp is the wall clock's.
    pub fn record_frame_budget_degraded(
        &mut self,
        active_tab_id: &str,
        interaction_epoch: u64,
        degraded: bool,
    ) -> (r: PerformanceSample)
        ensures
            r.key@ == FRAME_BUDGET_DEGRADED_KEY@,
            r.value_ms.is_none(),
            r.degraded == Some(degraded),
            r.active_tab_id@ == active_tab_id@,
            r.interaction_epoch == interaction_epoch,
            final(self)@ == old(self)@.push(r),
    {
        let sample = PerformanceSample {
            key: String::from_str(FRAME_BUDGET_DEGRADED_KEY),
            value_ms: None,
            degraded: Some(degraded),
            active_tab_id: String::from_str(active_tab_id),
            interaction_epoch,
            recorded_at_ms: now_ms(),
        };
        self.push_sample(sample)
    }

    /// Hands out every recorded sample, oldest first, and empties the log.
    pub fn drain_performance_samples(&mut self) -> (r: Vec<PerformanceSample>)
        ensures
            r@ == old(self)@,
            final(self)@ == Seq::<PerformanceSample>::empty(),
    {
        let mut out: Vec<PerformanceSample> = Vec::new();
        std::mem::swap(&mut out, &mut self.samples);
        out
    }

    /// Forgets every recorded sample.
    pub fn clear_performance_samples(&mut self)
        ensures
            final(self)@ == Seq::<PerformanceSample>::empty(),
    {
        self.samples.clear();
    }
}

} // verus!
