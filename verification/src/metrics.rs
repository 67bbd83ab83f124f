//! What is measured of workloads.

use vstd::prelude::*;
use vstd::string::*;

use crate::binary64::Binary64;
use crate::duration::Duration;
use crate::figures::{quotient, quotient_of, ratio, ratio_of, scale, scaled, seconds, seconds_of};
use crate::histogram::{DurationHistogram, HistogramModel};
use crate::value::{inserted, EntryModel, Object, Value, ValueModel};

verus! {

/// How far a workload has come.
#[derive(Clone, Copy, Debug, PartialEq, Eq, Structural)]
pub enum WorkloadPhase {
    Starting,
    Running,
    Draining,
    Completed,
}

/// What drives a workload.
#[derive(Clone, Copy, Debug, PartialEq, Eq, Structural)]
pub enum WorkloadKind {
    Rate { target: usize, period: Duration, duration: Duration, limit: usize, planned: usize },
    Concurrency { limit: usize, duration: Duration },
}

/// A workload at one moment.
#[derive(Clone, Copy, Debug, PartialEq, Eq, Structural)]
pub struct WorkloadSnapshot {
    pub kind: WorkloadKind,
    pub phase: WorkloadPhase,
    pub elapsed: Duration,
    pub active: usize,
    pub started: usize,
    pub completed: usize,
    pub success: usize,
    pub failed: usize,
    pub dropped: usize,
    pub latency_p50: Duration,
    pub latency_p95: Duration,
    pub latency_p99: Duration,
}

/// The time from one moment to another, or none.
pub open spec fn since(later: Duration, earlier: Duration) -> Duration {
    Duration {
        nanos: if later.nanos >= earlier.nanos {
            (later.nanos - earlier.nanos) as u128
        } else {
            0
        },
    }
}

pub fn time_since(later: Duration, earlier: Duration) -> (duration: Duration)
    ensures
        duration == since(later, earlier),
{
    if later.nanos >= earlier.nanos {
        Duration { nanos: later.nanos - earlier.nanos }
    } else {
        Duration { nanos: 0 }
    }
}

/// A count as a value.
pub open spec fn counted(count: nat) -> ValueModel {
    ValueModel::Integer(
        if count > i64::MAX {
            i64::MAX
        } else {
            count as i64
        },
    )
}

fn count_value(count: usize) -> (value: Value)
    ensures
        value.model() == counted(count as nat),
{
    if count as u128 > i64::MAX as u128 {
        Value::Integer(i64::MAX)
    } else {
        Value::Integer(count as i64)
    }
}

/// A count as far as it is exact in arithmetic.
pub open spec fn clipped_count(count: nat) -> u32 {
    if count > u32::MAX {
        u32::MAX
    } else {
        count as u32
    }
}

fn clip_count(count: usize) -> (clipped: u32)
    ensures
        clipped == clipped_count(count as nat),
{
    if count as u128 > u32::MAX as u128 {
        u32::MAX
    } else {
        count as u32
    }
}

pub struct MetricsModel {
    pub started_at: Duration,
    pub started: nat,
    pub success: nat,
    pub failed: nat,
    pub dropped: nat,
    pub latency: HistogramModel,
    pub scheduling_delay: HistogramModel,
}

impl MetricsModel {
    pub open spec fn fresh(started_at: Duration) -> MetricsModel {
        MetricsModel {
            started_at,
            started: 0,
            success: 0,
            failed: 0,
            dropped: 0,
            latency: HistogramModel::empty(),
            scheduling_delay: HistogramModel::empty(),
        }
    }

    /// The metrics after an iteration has ended.
    pub open spec fn completed(self, started: Duration, ended: Duration, succeeded: bool)
        -> MetricsModel {
        MetricsModel {
            latency: self.latency.noted(since(ended, started)),
            success: if succeeded {
                self.success + 1
            } else {
                self.success
            },
            failed: if succeeded {
                self.failed
            } else {
                self.failed + 1
            },
            ..self
        }
    }

    /// The metrics after an iteration was found due and could not start.
    pub open spec fn skipped(self) -> MetricsModel {
        MetricsModel { dropped: self.dropped + 1, ..self }
    }

    /// The metrics after an iteration was found due at `intended`.
    pub open spec fn delayed(self, intended: Duration, now: Duration) -> MetricsModel {
        MetricsModel {
            scheduling_delay: self.scheduling_delay.noted(since(now, intended)),
            ..self
        }
    }

    /// The metrics after an iteration has started.
    pub open spec fn begun(self) -> MetricsModel {
        MetricsModel { started: self.started + 1, ..self }
    }

    pub open spec fn snapshot(
        self,
        kind: WorkloadKind,
        phase: WorkloadPhase,
        active: nat,
        now: Duration,
    ) -> WorkloadSnapshot {
        WorkloadSnapshot {
            kind,
            phase,
            elapsed: since(now, self.started_at),
            active: active as usize,
            started: self.started as usize,
            completed: (self.success + self.failed) as usize,
            success: self.success as usize,
            failed: self.failed as usize,
            dropped: self.dropped as usize,
            latency_p50: self.latency.percentile(50),
            latency_p95: self.latency.percentile(95),
            latency_p99: self.latency.percentile(99),
        }
    }

    /// The share of iterations that failed.
    pub open spec fn errors(self) -> Binary64 {
        let count = self.success + self.failed;
        if count == 0 {
            Binary64 { bits: 0 }
        } else {
            ratio(clipped_count(self.failed), clipped_count(count))
        }
    }

    pub open spec fn well_formed(self) -> bool {
        &&& self.latency.well_formed()
        &&& self.scheduling_delay.well_formed()
        &&& self.success + self.failed <= self.started
        &&& self.latency.count == self.success + self.failed
        &&& self.scheduling_delay.count <= self.started + 1
        &&& self.started <= usize::MAX
        &&& self.dropped <= usize::MAX
    }
}

/// What a histogram tells as a value.
pub open spec fn histogram_value(histogram: HistogramModel) -> ValueModel {
    let none = Seq::<EntryModel>::empty();
    let least = match histogram.min {
        Some(least) => least,
        None => Duration { nanos: 0 },
    };
    let entries = inserted(none, "min"@, ValueModel::Duration(least));
    let entries = inserted(entries, "mean"@, ValueModel::Duration(histogram.mean()));
    let entries = inserted(entries, "max"@, ValueModel::Duration(histogram.max));
    let entries = inserted(entries, "p50"@, ValueModel::Duration(histogram.percentile(50)));
    let entries = inserted(entries, "p90"@, ValueModel::Duration(histogram.percentile(90)));
    let entries = inserted(entries, "p95"@, ValueModel::Duration(histogram.percentile(95)));
    let entries = inserted(entries, "p99"@, ValueModel::Duration(histogram.percentile(99)));
    ValueModel::Object(entries)
}

fn describe_histogram(histogram: &DurationHistogram) -> (value: Value)
    requires
        histogram.model().well_formed(),
    ensures
        value.model() == histogram_value(histogram.model()),
{
    let mut object: Object = Object::new();
    let least: Duration = match histogram.least() {
        Some(least) => least,
        None => Duration { nanos: 0 },
    };
    object.insert("min".to_owned(), Value::Duration(least));
    object.insert("mean".to_owned(), Value::Duration(histogram.mean()));
    object.insert("max".to_owned(), Value::Duration(histogram.greatest()));
    object.insert("p50".to_owned(), Value::Duration(histogram.percentile(50)));
    object.insert("p90".to_owned(), Value::Duration(histogram.percentile(90)));
    object.insert("p95".to_owned(), Value::Duration(histogram.percentile(95)));
    object.insert("p99".to_owned(), Value::Duration(histogram.percentile(99)));
    Value::Object(object)
}

/// The part of a result that every workload has.
pub open spec fn common_entries(
    metrics: MetricsModel,
    finished_at: Duration,
    drain_timed_out: bool,
) -> Seq<EntryModel> {
    let none = Seq::<EntryModel>::empty();
    let entries = inserted(none, "count"@, counted(metrics.success + metrics.failed));
    let entries = inserted(entries, "started"@, counted(metrics.started));
    let entries = inserted(entries, "success"@, counted(metrics.success));
    let entries = inserted(entries, "failed"@, counted(metrics.failed));
    let entries = inserted(entries, "errors"@, ValueModel::Float(metrics.errors()));
    let entries = inserted(entries, "dropped"@, counted(metrics.dropped));
    let entries = inserted(
        entries,
        "saturated"@,
        ValueModel::Boolean(metrics.dropped > 0 || drain_timed_out),
    );
    let entries = inserted(entries, "drainTimedOut"@, ValueModel::Boolean(drain_timed_out));
    let entries = inserted(entries, "latency"@, histogram_value(metrics.latency));
    let entries = inserted(entries, "schedulingDelay"@, histogram_value(metrics.scheduling_delay));
    inserted(entries, "duration"@, ValueModel::Duration(since(finished_at, metrics.started_at)))
}

pub open spec fn rate_entries(
    target: nat,
    period: Duration,
    actual: Binary64,
    limit: nat,
) -> Seq<EntryModel> {
    let none = Seq::<EntryModel>::empty();
    let entries = inserted(none, "target"@, counted(target));
    let entries = inserted(entries, "period"@, ValueModel::Duration(period));
    let entries = inserted(entries, "actual"@, ValueModel::Float(actual));
    inserted(entries, "limit"@, counted(limit))
}

/// How many iterations have started in a period, over the whole window.
pub open spec fn actual_rate(started: nat, period: Duration, window: Duration) -> Binary64 {
    quotient(scaled(seconds(period), clipped_count(started)), seconds(window))
}

/// The result of a workload.
pub open spec fn workload_value(
    metrics: MetricsModel,
    kind: WorkloadKind,
    finished_at: Duration,
    drain_timed_out: bool,
) -> ValueModel {
    let entries = common_entries(metrics, finished_at, drain_timed_out);
    ValueModel::Object(
        match kind {
            WorkloadKind::Rate { target, period, duration, limit, planned } => inserted(
                inserted(entries, "scheduled"@, counted(planned as nat)),
                "rate"@,
                ValueModel::Object(
                    rate_entries(
                        target as nat,
                        period,
                        actual_rate(metrics.started, period, duration),
                        limit as nat,
                    ),
                ),
            ),
            WorkloadKind::Concurrency { limit, duration } => inserted(
                entries,
                "concurrency"@,
                ValueModel::Object(
                    inserted(Seq::<EntryModel>::empty(), "limit"@, counted(limit as nat)),
                ),
            ),
        },
    )
}

/// What is measured of a workload.
pub struct WorkloadMetrics {
    started_at: Duration,
    started: usize,
    success: usize,
    failed: usize,
    dropped: usize,
    latency: DurationHistogram,
    scheduling_delay: DurationHistogram,
}

impl WorkloadMetrics {
    pub closed spec fn model(self) -> MetricsModel {
        MetricsModel {
            started_at: self.started_at,
            started: self.started as nat,
            success: self.success as nat,
            failed: self.failed as nat,
            dropped: self.dropped as nat,
            latency: self.latency.model(),
            scheduling_delay: self.scheduling_delay.model(),
        }
    }

    pub fn new(started_at: Duration) -> (metrics: WorkloadMetrics)
        ensures
            metrics.model() == MetricsModel::fresh(started_at),
            metrics.model().well_formed(),
    {
        WorkloadMetrics {
            started_at,
            started: 0,
            success: 0,
            failed: 0,
            dropped: 0,
            latency: DurationHistogram::new(),
            scheduling_delay: DurationHistogram::new(),
        }
    }

    pub fn started_at(&self) -> (moment: Duration)
        ensures
            moment == self.model().started_at,
    {
        self.started_at
    }

    pub fn started(&self) -> (count: usize)
        ensures
            count == self.model().started,
    {
        self.started
    }

    /// Notes that an iteration has ended.
    pub fn record_completion(&mut self, started: Duration, completed: Duration, succeeded: bool)
        requires
            old(self).model().well_formed(),
            old(self).model().success + old(self).model().failed < old(self).model().started,
        ensures
            final(self).model() == old(self).model().completed(started, completed, succeeded),
            final(self).model().well_formed(),
    {
        self.latency.record(time_since(completed, started));
        if succeeded {
            self.success = self.success + 1;
        } else {
            self.failed = self.failed + 1;
        }
    }

    /// Notes that an iteration could not start.
    pub fn record_drop(&mut self)
        requires
            old(self).model().well_formed(),
            old(self).model().dropped < usize::MAX,
        ensures
            final(self).model() == old(self).model().skipped(),
            final(self).model().well_formed(),
    {
        self.dropped = self.dropped + 1;
    }

    /// Notes how late an iteration starts.
    pub fn record_delay(&mut self, intended: Duration, now: Duration)
        requires
            old(self).model().well_formed(),
            old(self).model().scheduling_delay.count <= old(self).model().started,
            old(self).model().started < usize::MAX,
        ensures
            final(self).model() == old(self).model().delayed(intended, now),
            final(self).model().well_formed(),
    {
        self.scheduling_delay.record(time_since(now, intended));
    }

    /// Notes that an iteration has started.
    pub fn record_start(&mut self)
        requires
            old(self).model().well_formed(),
            old(self).model().started < usize::MAX,
        ensures
            final(self).model() == old(self).model().begun(),
            final(self).model().well_formed(),
    {
        self.started = self.started + 1;
    }

    /// The workload at this moment.
    pub fn snapshot(&self, kind: WorkloadKind, phase: WorkloadPhase, active: usize, now: Duration)
        -> (snapshot: WorkloadSnapshot)
        requires
            self.model().well_formed(),
        ensures
            snapshot == self.model().snapshot(kind, phase, active as nat, now),
    {
        WorkloadSnapshot {
            kind,
            phase,
            elapsed: time_since(now, self.started_at),
            active,
            started: self.started,
            completed: self.success + self.failed,
            success: self.success,
            failed: self.failed,
            dropped: self.dropped,
            latency_p50: self.latency.percentile(50),
            latency_p95: self.latency.percentile(95),
            latency_p99: self.latency.percentile(99),
        }
    }

    fn errors(&self) -> (share: Binary64)
        requires
            self.model().well_formed(),
        ensures
            share == self.model().errors(),
    {
        let count: usize = self.success + self.failed;
        if count == 0 {
            Binary64 { bits: 0 }
        } else {
            ratio_of(clip_count(self.failed), clip_count(count))
        }
    }

    fn common_object(&self, finished_at: Duration, drain_timed_out: bool) -> (object: Object)
        requires
            self.model().well_formed(),
        ensures
            object.model() == common_entries(self.model(), finished_at, drain_timed_out),
    {
        let mut object: Object = Object::new();
        object.insert("count".to_owned(), count_value(self.success + self.failed));
        object.insert("started".to_owned(), count_value(self.started));
        object.insert("success".to_owned(), count_value(self.success));
        object.insert("failed".to_owned(), count_value(self.failed));
        object.insert("errors".to_owned(), Value::Float(self.errors()));
        object.insert("dropped".to_owned(), count_value(self.dropped));
        object.insert(
            "saturated".to_owned(),
            Value::Boolean(self.dropped > 0 || drain_timed_out),
        );
        object.insert("drainTimedOut".to_owned(), Value::Boolean(drain_timed_out));
        object.insert("latency".to_owned(), describe_histogram(&self.latency));
        object.insert("schedulingDelay".to_owned(), describe_histogram(&self.scheduling_delay));
        object.insert(
            "duration".to_owned(),
            Value::Duration(time_since(finished_at, self.started_at)),
        );
        object
    }

    /// The result of the workload.
    pub fn to_value(&self, kind: WorkloadKind, finished_at: Duration, drain_timed_out: bool)
        -> (value: Value)
        requires
            self.model().well_formed(),
        ensures
            value.model() == workload_value(self.model(), kind, finished_at, drain_timed_out),
    {
        let mut object: Object = self.common_object(finished_at, drain_timed_out);
        match kind {
            WorkloadKind::Rate { target, period, duration, limit, planned } => {
                let actual: Binary64 = quotient_of(
                    scale(seconds_of(period), clip_count(self.started)),
                    seconds_of(duration),
                );
                let mut rate: Object = Object::new();
                rate.insert("target".to_owned(), count_value(target));
                rate.insert("period".to_owned(), Value::Duration(period));
                rate.insert("actual".to_owned(), Value::Float(actual));
                rate.insert("limit".to_owned(), count_value(limit));
                object.insert("scheduled".to_owned(), count_value(planned));
                object.insert("rate".to_owned(), Value::Object(rate));
            },
            WorkloadKind::Concurrency { limit, .. } => {
                let mut concurrency: Object = Object::new();
                concurrency.insert("limit".to_owned(), count_value(limit));
                object.insert("concurrency".to_owned(), Value::Object(concurrency));
            },
        }
        Value::Object(object)
    }
}

} // verus!
