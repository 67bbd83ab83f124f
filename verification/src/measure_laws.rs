//! What is counted of workloads and told of runs.

use vstd::prelude::*;

use crate::duration::Duration;
use crate::histogram::HistogramModel;
use crate::json::JsonModel;
use crate::metrics::{
    common_entries, counted, histogram_value, rate_entries, since, workload_value, MetricsModel,
    WorkloadKind, WorkloadPhase,
};
use crate::object_laws::law_insert;
use crate::records::{
    batch_end, batch_start, failure, flow_result, nanoseconds, number, test_result, tests_end,
    tests_start,
};
use crate::report::document;
use crate::redaction::{replaced, stands_at};
use crate::syntax::DeclarationKind;
use crate::value::{inserted, lookup, sorted, EntryModel, ValueModel};

verus! {

// ---------------------------------------------------------------------------
// Counting

/// Each iteration that ends is counted once, as a success or as a failure, and
/// changes neither what has started nor what was dropped.
pub proof fn law_ends_are_counted_once(
    metrics: MetricsModel,
    started: Duration,
    ended: Duration,
    succeeded: bool,
)
    ensures
        ({
            let next = metrics.completed(started, ended, succeeded);
            &&& next.success + next.failed == metrics.success + metrics.failed + 1
            &&& succeeded <==> next.success == metrics.success + 1
            &&& !succeeded <==> next.failed == metrics.failed + 1
            &&& next.started == metrics.started
            &&& next.dropped == metrics.dropped
            &&& next.started_at == metrics.started_at
            &&& next.scheduling_delay == metrics.scheduling_delay
            &&& next.latency == metrics.latency.noted(since(ended, started))
        }),
{
}

/// A start counts as a start, and a drop as a drop, and as nothing else.
pub proof fn law_starts_and_drops_are_counted(
    metrics: MetricsModel,
    intended: Duration,
    now: Duration,
)
    ensures
        ({
            let next = metrics.begun();
            next.started == metrics.started + 1 && next.success == metrics.success && next.failed
                == metrics.failed && next.dropped == metrics.dropped && next.latency
                == metrics.latency
        }),
        ({
            let next = metrics.skipped();
            next.dropped == metrics.dropped + 1 && next.success == metrics.success && next.failed
                == metrics.failed && next.started == metrics.started && next.latency
                == metrics.latency
        }),
        ({
            let next = metrics.delayed(intended, now);
            next.scheduling_delay == metrics.scheduling_delay.noted(since(now, intended))
                && next.dropped == metrics.dropped && next.success == metrics.success
                && next.failed == metrics.failed && next.started == metrics.started && next.latency
                == metrics.latency
        }),
{
}

/// The time from one moment to a later one is what has to be added to the first
/// to reach the second.
pub proof fn law_time_passes(earlier: Duration, later: Duration)
    ensures
        earlier.nanos <= later.nanos ==> earlier.nanos + since(later, earlier).nanos == later.nanos,
        earlier.nanos >= later.nanos ==> since(later, earlier).nanos == 0,
{
}

/// A snapshot tells what was counted: what is completed has succeeded or failed.
pub proof fn law_snapshots_tell_the_counts(
    metrics: MetricsModel,
    kind: WorkloadKind,
    phase: WorkloadPhase,
    active: usize,
    now: Duration,
)
    requires
        metrics.well_formed(),
    ensures
        ({
            let shot = metrics.snapshot(kind, phase, active as nat, now);
            &&& shot.success == metrics.success
            &&& shot.failed == metrics.failed
            &&& shot.completed == shot.success + shot.failed
            &&& shot.completed <= shot.started
            &&& shot.started == metrics.started
            &&& shot.dropped == metrics.dropped
            &&& shot.active == active
            &&& shot.kind == kind
            &&& shot.phase == phase
            &&& metrics.started_at.nanos <= now.nanos ==> metrics.started_at.nanos
                + shot.elapsed.nanos == now.nanos
            &&& shot.latency_p50 == metrics.latency.percentile(50)
            &&& shot.latency_p95 == metrics.latency.percentile(95)
            &&& shot.latency_p99 == metrics.latency.percentile(99)
        }),
{
}

// ---------------------------------------------------------------------------
// Results

proof fn lemma_result_names()
    ensures
        "count"@.len() == 5 && "rate"@.len() == 4 && "duration"@.len() == 8,
        "started"@.len() == 7 && "started"@[0] == 's' && "started"@[1] == 't',
        "success"@.len() == 7 && "success"@[0] == 's' && "success"@[1] == 'u',
        "dropped"@.len() == 7 && "dropped"@[0] == 'd',
        "latency"@.len() == 7 && "latency"@[0] == 'l',
        "failed"@.len() == 6 && "failed"@[0] == 'f',
        "errors"@.len() == 6 && "errors"@[0] == 'e',
        "saturated"@.len() == 9 && "saturated"@[1] == 'a',
        "scheduled"@.len() == 9 && "scheduled"@[1] == 'c',
        "concurrency"@.len() == 11 && "drainTimedOut"@.len() == 13,
        "schedulingDelay"@.len() == 15,
{
    reveal_strlit("count");
    reveal_strlit("rate");
    reveal_strlit("duration");
    reveal_strlit("started");
    reveal_strlit("success");
    reveal_strlit("dropped");
    reveal_strlit("latency");
    reveal_strlit("failed");
    reveal_strlit("errors");
    reveal_strlit("saturated");
    reveal_strlit("scheduled");
    reveal_strlit("concurrency");
    reveal_strlit("drainTimedOut");
    reveal_strlit("schedulingDelay");
}

proof fn lemma_common(
    metrics: MetricsModel,
    finished: Duration,
    timed_out: bool,
    name: Seq<char>,
)
    ensures
        ({
            let entries = common_entries(metrics, finished, timed_out);
            &&& sorted(entries)
            &&& name == "count"@ ==> lookup(entries, name) == Some(
                counted(metrics.success + metrics.failed),
            )
            &&& name == "started"@ ==> lookup(entries, name) == Some(counted(metrics.started))
            &&& name == "success"@ ==> lookup(entries, name) == Some(counted(metrics.success))
            &&& name == "failed"@ ==> lookup(entries, name) == Some(counted(metrics.failed))
            &&& name == "dropped"@ ==> lookup(entries, name) == Some(counted(metrics.dropped))
            &&& name == "saturated"@ ==> lookup(entries, name) == Some(
                ValueModel::Boolean(metrics.dropped > 0 || timed_out),
            )
            &&& name == "drainTimedOut"@ ==> lookup(entries, name) == Some(
                ValueModel::Boolean(timed_out),
            )
            &&& name == "latency"@ ==> lookup(entries, name) == Some(
                histogram_value(metrics.latency),
            )
            &&& name == "schedulingDelay"@ ==> lookup(entries, name) == Some(
                histogram_value(metrics.scheduling_delay),
            )
            &&& name == "duration"@ ==> lookup(entries, name) == Some(
                ValueModel::Duration(since(finished, metrics.started_at)),
            )
        }),
{
    lemma_result_names();
    let none = Seq::<EntryModel>::empty();
    let count = counted(metrics.success + metrics.failed);
    law_insert(none, "count"@, count, name);
    let entries = inserted(none, "count"@, count);
    law_insert(entries, "started"@, counted(metrics.started), name);
    let entries = inserted(entries, "started"@, counted(metrics.started));
    law_insert(entries, "success"@, counted(metrics.success), name);
    let entries = inserted(entries, "success"@, counted(metrics.success));
    law_insert(entries, "failed"@, counted(metrics.failed), name);
    let entries = inserted(entries, "failed"@, counted(metrics.failed));
    law_insert(entries, "errors"@, ValueModel::Float(metrics.errors()), name);
    let entries = inserted(entries, "errors"@, ValueModel::Float(metrics.errors()));
    law_insert(entries, "dropped"@, counted(metrics.dropped), name);
    let entries = inserted(entries, "dropped"@, counted(metrics.dropped));
    let saturated = ValueModel::Boolean(metrics.dropped > 0 || timed_out);
    law_insert(entries, "saturated"@, saturated, name);
    let entries = inserted(entries, "saturated"@, saturated);
    law_insert(entries, "drainTimedOut"@, ValueModel::Boolean(timed_out), name);
    let entries = inserted(entries, "drainTimedOut"@, ValueModel::Boolean(timed_out));
    law_insert(entries, "latency"@, histogram_value(metrics.latency), name);
    let entries = inserted(entries, "latency"@, histogram_value(metrics.latency));
    let delay = histogram_value(metrics.scheduling_delay);
    law_insert(entries, "schedulingDelay"@, delay, name);
    let entries = inserted(entries, "schedulingDelay"@, delay);
    let duration = ValueModel::Duration(since(finished, metrics.started_at));
    law_insert(entries, "duration"@, duration, name);
}

/// What a value has under a name.
pub open spec fn part(value: ValueModel, name: Seq<char>) -> Option<ValueModel> {
    match value {
        ValueModel::Object(entries) => lookup(entries, name),
        _ => None,
    }
}

/// The result of a workload has each count under its name.
#[verifier::rlimit(40)]
pub proof fn law_results_tell_the_counts(
    metrics: MetricsModel,
    kind: WorkloadKind,
    finished: Duration,
    timed_out: bool,
)
    ensures
        ({
            let result = workload_value(metrics, kind, finished, timed_out);
            &&& part(result, "count"@) == Some(counted(metrics.success + metrics.failed))
            &&& part(result, "started"@) == Some(counted(metrics.started))
            &&& part(result, "success"@) == Some(counted(metrics.success))
            &&& part(result, "failed"@) == Some(counted(metrics.failed))
            &&& part(result, "dropped"@) == Some(counted(metrics.dropped))
            &&& part(result, "saturated"@) == Some(
                ValueModel::Boolean(metrics.dropped > 0 || timed_out),
            )
            &&& part(result, "drainTimedOut"@) == Some(ValueModel::Boolean(timed_out))
            &&& part(result, "latency"@) == Some(histogram_value(metrics.latency))
            &&& part(result, "schedulingDelay"@) == Some(histogram_value(metrics.scheduling_delay))
            &&& part(result, "duration"@) == Some(
                ValueModel::Duration(since(finished, metrics.started_at)),
            )
            &&& kind matches WorkloadKind::Rate { target, period, duration, limit, planned } ==> {
                &&& part(result, "scheduled"@) == Some(counted(planned as nat))
                &&& part(result, "rate"@) matches Some(rate) && {
                    &&& part(rate, "target"@) == Some(counted(target as nat))
                    &&& part(rate, "period"@) == Some(ValueModel::Duration(period))
                    &&& part(rate, "limit"@) == Some(counted(limit as nat))
                }
            }
            &&& kind matches WorkloadKind::Concurrency { limit, duration } ==> {
                &&& part(result, "concurrency"@) matches Some(concurrency) && part(
                    concurrency,
                    "limit"@,
                ) == Some(counted(limit as nat))
            }
        }),
{
    lemma_result_names();
    lemma_told(metrics, kind, finished, timed_out, "count"@);
    lemma_told(metrics, kind, finished, timed_out, "started"@);
    lemma_told(metrics, kind, finished, timed_out, "success"@);
    lemma_told(metrics, kind, finished, timed_out, "failed"@);
    lemma_told(metrics, kind, finished, timed_out, "dropped"@);
    lemma_told(metrics, kind, finished, timed_out, "saturated"@);
    lemma_told(metrics, kind, finished, timed_out, "drainTimedOut"@);
    lemma_told(metrics, kind, finished, timed_out, "latency"@);
    lemma_told(metrics, kind, finished, timed_out, "schedulingDelay"@);
    lemma_told(metrics, kind, finished, timed_out, "duration"@);
    lemma_told(metrics, kind, finished, timed_out, "scheduled"@);
    lemma_told(metrics, kind, finished, timed_out, "rate"@);
    lemma_told(metrics, kind, finished, timed_out, "concurrency"@);
    match kind {
        WorkloadKind::Rate { target, period, duration, limit, planned } => {
            let actual = crate::metrics::actual_rate(metrics.started, period, duration);
            lemma_rate(target as nat, period, actual, limit as nat);
        },
        WorkloadKind::Concurrency { limit, duration } => {
            let none = Seq::<EntryModel>::empty();
            law_insert(none, "limit"@, counted(limit as nat), "limit"@);
        },
    }
}

proof fn lemma_rate(
    target: nat,
    period: Duration,
    actual: crate::binary64::Binary64,
    limit: nat,
)
    ensures
        ({
            let entries = rate_entries(target, period, actual, limit);
            &&& lookup(entries, "target"@) == Some(counted(target))
            &&& lookup(entries, "period"@) == Some(ValueModel::Duration(period))
            &&& lookup(entries, "limit"@) == Some(counted(limit))
        }),
{
    reveal_strlit("target");
    reveal_strlit("period");
    reveal_strlit("actual");
    reveal_strlit("limit");
    assert("target"@[0] == 't' && "period"@[0] == 'p' && "actual"@[0] == 'a');
    assert("limit"@[0] == 'l');
    lemma_rate_part(target, period, actual, limit, "target"@);
    lemma_rate_part(target, period, actual, limit, "period"@);
    lemma_rate_part(target, period, actual, limit, "limit"@);
}

proof fn lemma_rate_part(
    target: nat,
    period: Duration,
    actual: crate::binary64::Binary64,
    limit: nat,
    name: Seq<char>,
)
    ensures
        lookup(rate_entries(target, period, actual, limit), name) == (if name == "limit"@ {
            Some(counted(limit))
        } else if name == "actual"@ {
            Some(ValueModel::Float(actual))
        } else if name == "period"@ {
            Some(ValueModel::Duration(period))
        } else if name == "target"@ {
            Some(counted(target))
        } else {
            None
        }),
{
    let none = Seq::<EntryModel>::empty();
    law_insert(none, "target"@, counted(target), name);
    let entries = inserted(none, "target"@, counted(target));
    law_insert(entries, "period"@, ValueModel::Duration(period), name);
    let entries = inserted(entries, "period"@, ValueModel::Duration(period));
    law_insert(entries, "actual"@, ValueModel::Float(actual), name);
    let entries = inserted(entries, "actual"@, ValueModel::Float(actual));
    law_insert(entries, "limit"@, counted(limit), name);
}

proof fn lemma_told(
    metrics: MetricsModel,
    kind: WorkloadKind,
    finished: Duration,
    timed_out: bool,
    name: Seq<char>,
)
    ensures
        ({
            let told = part(workload_value(metrics, kind, finished, timed_out), name);
            let common = lookup(common_entries(metrics, finished, timed_out), name);
            match kind {
                WorkloadKind::Rate { target, period, duration, limit, planned } => told == (
                if name == "rate"@ {
                    Some(
                        ValueModel::Object(
                            rate_entries(
                                target as nat,
                                period,
                                crate::metrics::actual_rate(metrics.started, period, duration),
                                limit as nat,
                            ),
                        ),
                    )
                } else if name == "scheduled"@ {
                    Some(counted(planned as nat))
                } else {
                    common
                }),
                WorkloadKind::Concurrency { limit, duration } => told == (if name
                    == "concurrency"@ {
                    Some(
                        ValueModel::Object(
                            inserted(Seq::<EntryModel>::empty(), "limit"@, counted(limit as nat)),
                        ),
                    )
                } else {
                    common
                }),
            }
        }),
        ({
            let common = lookup(common_entries(metrics, finished, timed_out), name);
            &&& name == "count"@ ==> common == Some(counted(metrics.success + metrics.failed))
            &&& name == "started"@ ==> common == Some(counted(metrics.started))
            &&& name == "success"@ ==> common == Some(counted(metrics.success))
            &&& name == "failed"@ ==> common == Some(counted(metrics.failed))
            &&& name == "dropped"@ ==> common == Some(counted(metrics.dropped))
            &&& name == "saturated"@ ==> common == Some(
                ValueModel::Boolean(metrics.dropped > 0 || timed_out),
            )
            &&& name == "drainTimedOut"@ ==> common == Some(ValueModel::Boolean(timed_out))
            &&& name == "latency"@ ==> common == Some(histogram_value(metrics.latency))
            &&& name == "schedulingDelay"@ ==> common == Some(
                histogram_value(metrics.scheduling_delay),
            )
            &&& name == "duration"@ ==> common == Some(
                ValueModel::Duration(since(finished, metrics.started_at)),
            )
        }),
{
    lemma_common(metrics, finished, timed_out, name);
    let entries = common_entries(metrics, finished, timed_out);
    match kind {
        WorkloadKind::Rate { target, period, duration, limit, planned } => {
            law_insert(entries, "scheduled"@, counted(planned as nat), name);
            let entries = inserted(entries, "scheduled"@, counted(planned as nat));
            let actual = crate::metrics::actual_rate(metrics.started, period, duration);
            let rate = ValueModel::Object(
                rate_entries(target as nat, period, actual, limit as nat),
            );
            law_insert(entries, "rate"@, rate, name);
        },
        WorkloadKind::Concurrency { limit, duration } => {
            let concurrency = ValueModel::Object(
                inserted(Seq::<EntryModel>::empty(), "limit"@, counted(limit as nat)),
            );
            law_insert(entries, "concurrency"@, concurrency, name);
        },
    }
}

proof fn lemma_latency(histogram: HistogramModel, name: Seq<char>)
    ensures
        part(histogram_value(histogram), name) == (if name == "p99"@ {
            Some(ValueModel::Duration(histogram.percentile(99)))
        } else if name == "p95"@ {
            Some(ValueModel::Duration(histogram.percentile(95)))
        } else if name == "p90"@ {
            Some(ValueModel::Duration(histogram.percentile(90)))
        } else if name == "p50"@ {
            Some(ValueModel::Duration(histogram.percentile(50)))
        } else if name == "max"@ {
            Some(ValueModel::Duration(histogram.max))
        } else if name == "mean"@ {
            Some(ValueModel::Duration(histogram.mean()))
        } else if name == "min"@ {
            Some(
                ValueModel::Duration(
                    match histogram.min {
                        Some(least) => least,
                        None => Duration { nanos: 0 },
                    },
                ),
            )
        } else {
            None
        }),
{
    let none = Seq::<EntryModel>::empty();
    let least = match histogram.min {
        Some(least) => least,
        None => Duration { nanos: 0 },
    };
    law_insert(none, "min"@, ValueModel::Duration(least), name);
    let entries = inserted(none, "min"@, ValueModel::Duration(least));
    law_insert(entries, "mean"@, ValueModel::Duration(histogram.mean()), name);
    let entries = inserted(entries, "mean"@, ValueModel::Duration(histogram.mean()));
    law_insert(entries, "max"@, ValueModel::Duration(histogram.max), name);
    let entries = inserted(entries, "max"@, ValueModel::Duration(histogram.max));
    law_insert(entries, "p50"@, ValueModel::Duration(histogram.percentile(50)), name);
    let entries = inserted(entries, "p50"@, ValueModel::Duration(histogram.percentile(50)));
    law_insert(entries, "p90"@, ValueModel::Duration(histogram.percentile(90)), name);
    let entries = inserted(entries, "p90"@, ValueModel::Duration(histogram.percentile(90)));
    law_insert(entries, "p95"@, ValueModel::Duration(histogram.percentile(95)), name);
    let entries = inserted(entries, "p95"@, ValueModel::Duration(histogram.percentile(95)));
    law_insert(entries, "p99"@, ValueModel::Duration(histogram.percentile(99)), name);
}

/// The times of a histogram are told under their names: the least, the mean,
/// the greatest, and each percentile under its number.
pub proof fn law_times_are_told(histogram: HistogramModel)
    ensures
        ({
            let told = histogram_value(histogram);
            &&& histogram.min matches Some(least) ==> part(told, "min"@) == Some(
                ValueModel::Duration(least),
            )
            &&& part(told, "mean"@) == Some(ValueModel::Duration(histogram.mean()))
            &&& part(told, "max"@) == Some(ValueModel::Duration(histogram.max))
            &&& part(told, "p50"@) == Some(ValueModel::Duration(histogram.percentile(50)))
            &&& part(told, "p90"@) == Some(ValueModel::Duration(histogram.percentile(90)))
            &&& part(told, "p95"@) == Some(ValueModel::Duration(histogram.percentile(95)))
            &&& part(told, "p99"@) == Some(ValueModel::Duration(histogram.percentile(99)))
        }),
{
    reveal_strlit("min");
    reveal_strlit("mean");
    reveal_strlit("max");
    reveal_strlit("p50");
    reveal_strlit("p90");
    reveal_strlit("p95");
    reveal_strlit("p99");
    assert("mean"@.len() == 4 && "min"@.len() == 3 && "max"@.len() == 3 && "p50"@.len() == 3);
    assert("min"@[0] == 'm' && "max"@[0] == 'm' && "min"@[1] == 'i' && "max"@[1] == 'a');
    assert("p50"@[0] == 'p' && "p90"@[0] == 'p' && "p95"@[0] == 'p' && "p99"@[0] == 'p');
    assert("p90"@.len() == 3 && "p95"@.len() == 3 && "p99"@.len() == 3);
    assert("p50"@[1] == '5' && "p90"@[1] == '9' && "p95"@[1] == '9' && "p99"@[1] == '9');
    assert("p90"@[2] == '0' && "p95"@[2] == '5' && "p99"@[2] == '9');
    lemma_latency(histogram, "min"@);
    lemma_latency(histogram, "mean"@);
    lemma_latency(histogram, "max"@);
    lemma_latency(histogram, "p50"@);
    lemma_latency(histogram, "p90"@);
    lemma_latency(histogram, "p95"@);
    lemma_latency(histogram, "p99"@);
}

/// A count is told as it is, as far as a whole number can hold it.
pub proof fn law_counts_are_whole_numbers(count: nat, other: nat)
    ensures
        count <= i64::MAX ==> counted(count) == ValueModel::Integer(count as i64),
        counted(count) matches ValueModel::Integer(one) && (
        counted(other) matches ValueModel::Integer(two) && (count <= other ==> one <= two)),
{
}

// ---------------------------------------------------------------------------
// Records

/// Whether a document has a value under a name, and no other.
pub open spec fn tells(json: JsonModel, name: Seq<char>, value: JsonModel) -> bool {
    json matches JsonModel::Object(fields) && (exists|i: int|
        0 <= i < fields.len() && (#[trigger] fields[i]).name == name) && forall|i: int|
        0 <= i < fields.len() && (#[trigger] fields[i]).name == name ==> fields[i].value == value
}

proof fn lemma_record_names()
    ensures
        "eligible"@.len() == 8 && "skipped"@.len() == 7 && "type"@.len() == 4,
        "type"@[0] == 't' && "type"@[1] == 'y',
        "kind"@.len() == 4 && "kind"@[0] == 'k',
        "flow"@.len() == 4 && "flow"@[0] == 'f',
        "test"@.len() == 4 && "test"@[0] == 't' && "test"@[1] == 'e',
        "durationNanos"@.len() == 13 && "error"@.len() == 5,
        "failed"@.len() == 6 && "failed"@[0] == 'f',
        "passed"@.len() == 6 && "passed"@[0] == 'p',
        "result"@.len() == 6 && "result"@[0] == 'r',
        "status"@.len() == 6 && "status"@[0] == 's',
{
    reveal_strlit("eligible");
    reveal_strlit("skipped");
    reveal_strlit("type");
    reveal_strlit("kind");
    reveal_strlit("flow");
    reveal_strlit("test");
    reveal_strlit("durationNanos");
    reveal_strlit("error");
    reveal_strlit("failed");
    reveal_strlit("passed");
    reveal_strlit("result");
    reveal_strlit("status");
}

/// The record at the end of a batch tells how many runs have passed, failed and
/// been skipped, and that those which passed or failed were to be run.
#[verifier::rlimit(40)]
pub proof fn law_ends_are_told(passed: nat, failed: nat, skipped: nat, duration: Duration)
    ensures
        ({
            let record = batch_end(passed, failed, skipped, duration);
            &&& tells(record, "passed"@, number(passed))
            &&& tells(record, "failed"@, number(failed))
            &&& tells(record, "skipped"@, number(skipped))
            &&& tells(record, "eligible"@, number(passed + failed))
            &&& tells(record, "durationNanos"@, nanoseconds(duration))
            &&& tells(record, "type"@, JsonModel::String("summary"@))
        }),
        ({
            let record = tests_end(passed, failed, duration);
            &&& tells(record, "passed"@, number(passed))
            &&& tells(record, "failed"@, number(failed))
            &&& tells(record, "eligible"@, number(passed + failed))
            &&& tells(record, "durationNanos"@, nanoseconds(duration))
            &&& tells(record, "kind"@, JsonModel::String("test"@))
            &&& tells(record, "type"@, JsonModel::String("summary"@))
        }),
{
    lemma_record_names();
    if let JsonModel::Object(fields) = batch_end(passed, failed, skipped, duration) {
        assert(fields[0].name == "durationNanos"@ && fields[1].name == "eligible"@);
        assert(fields[2].name == "failed"@ && fields[3].name == "passed"@);
        assert(fields[4].name == "skipped"@ && fields[5].name == "type"@);
    }
    if let JsonModel::Object(fields) = tests_end(passed, failed, duration) {
        assert(fields[0].name == "durationNanos"@ && fields[1].name == "eligible"@);
        assert(fields[2].name == "failed"@ && fields[3].name == "kind"@);
        assert(fields[4].name == "passed"@ && fields[5].name == "type"@);
    }
}

/// The record at the start of a batch tells how many runs there are to be.
pub proof fn law_starts_are_told(eligible: nat, skipped: nat)
    ensures
        tells(batch_start(eligible, skipped), "eligible"@, number(eligible)),
        tells(batch_start(eligible, skipped), "skipped"@, number(skipped)),
        tells(batch_start(eligible, skipped), "type"@, JsonModel::String("start"@)),
        tells(tests_start(eligible), "eligible"@, number(eligible)),
        tells(tests_start(eligible), "kind"@, JsonModel::String("test"@)),
        tells(tests_start(eligible), "type"@, JsonModel::String("start"@)),
{
    lemma_record_names();
    if let JsonModel::Object(fields) = batch_start(eligible, skipped) {
        assert(fields[0].name == "eligible"@ && fields[1].name == "skipped"@);
        assert(fields[2].name == "type"@);
    }
    if let JsonModel::Object(fields) = tests_start(eligible) {
        assert(fields[0].name == "eligible"@ && fields[1].name == "kind"@);
        assert(fields[2].name == "type"@);
    }
}

/// The record of a run tells its name, how long it has taken and what it gave,
/// and that of a test whether it has passed.
pub proof fn law_runs_are_told(
    name: Seq<char>,
    duration: Duration,
    result: ValueModel,
    batch: bool,
)
    ensures
        tells(flow_result(name, duration, result, batch), "flow"@, JsonModel::String(name)),
        tells(flow_result(name, duration, result, batch), "result"@, document(result)),
        tells(flow_result(name, duration, result, batch), "durationNanos"@, nanoseconds(duration)),
        tells(test_result(name, duration), "test"@, JsonModel::String(name)),
        tells(test_result(name, duration), "status"@, JsonModel::String("passed"@)),
        tells(test_result(name, duration), "durationNanos"@, nanoseconds(duration)),
{
    lemma_record_names();
    if let JsonModel::Object(fields) = flow_result(name, duration, result, batch) {
        assert(fields[0].name == "durationNanos"@ && fields[1].name == "flow"@);
        assert(fields[2].name == "result"@);
        if batch {
            assert(fields[3].name == "type"@);
        }
    }
    if let JsonModel::Object(fields) = test_result(name, duration) {
        assert(fields[0].name == "durationNanos"@ && fields[1].name == "kind"@);
        assert(fields[2].name == "status"@ && fields[3].name == "test"@);
        assert(fields[4].name == "type"@);
    }
}

/// The record of a failure tells what has failed and why.
pub proof fn law_failures_are_told(
    name: Seq<char>,
    batch: bool,
    duration: Duration,
    error: JsonModel,
)
    ensures
        ({
            let record = failure(name, DeclarationKind::Flow, batch, duration, error);
            &&& tells(record, "flow"@, JsonModel::String(name))
            &&& tells(record, "error"@, error)
            &&& tells(record, "durationNanos"@, nanoseconds(duration))
            &&& batch ==> tells(record, "type"@, JsonModel::String("failure"@))
        }),
        ({
            let record = failure(name, DeclarationKind::Test, batch, duration, error);
            &&& tells(record, "test"@, JsonModel::String(name))
            &&& tells(record, "status"@, JsonModel::String("failed"@))
            &&& tells(record, "error"@, error)
            &&& tells(record, "durationNanos"@, nanoseconds(duration))
            &&& tells(record, "type"@, JsonModel::String("failure"@))
        }),
{
    lemma_record_names();
    if let JsonModel::Object(fields) = failure(
        name,
        DeclarationKind::Flow,
        batch,
        duration,
        error,
    ) {
        assert(fields[0].name == "durationNanos"@ && fields[1].name == "error"@);
        assert(fields[2].name == "flow"@);
        if batch {
            assert(fields[3].name == "type"@);
        }
    }
    if let JsonModel::Object(fields) = failure(
        name,
        DeclarationKind::Test,
        batch,
        duration,
        error,
    ) {
        assert(fields[0].name == "durationNanos"@ && fields[1].name == "error"@);
        assert(fields[2].name == "kind"@ && fields[3].name == "status"@);
        assert(fields[4].name == "test"@ && fields[5].name == "type"@);
    }
}

// ---------------------------------------------------------------------------
// Replacing

proof fn lemma_untouched(text: Seq<char>, pattern: Seq<char>, other: Seq<char>, from: int)
    requires
        0 <= from <= text.len(),
        pattern.len() > 0,
        forall|i: int| from <= i < text.len() ==> !#[trigger] stands_at(text, pattern, i),
    ensures
        replaced(text, pattern, other, from) == text.skip(from),
    decreases text.len() - from,
{
    if from < text.len() {
        assert(!stands_at(text, pattern, from));
        lemma_untouched(text, pattern, other, from + 1);
        assert(seq![text[from]] + text.skip(from + 1) =~= text.skip(from));
    } else {
        assert(text.skip(from) =~= Seq::empty());
    }
}

/// A text in which a pattern does not stand stays as it is; where it stands, what
/// is put in its place stands there instead, and what follows is treated alike.
pub proof fn law_patterns_are_replaced(
    text: Seq<char>,
    pattern: Seq<char>,
    other: Seq<char>,
    from: int,
)
    requires
        0 <= from <= text.len(),
        pattern.len() > 0,
    ensures
        (forall|i: int| from <= i < text.len() ==> !#[trigger] stands_at(text, pattern, i))
            ==> replaced(text, pattern, other, from) == text.skip(from),
        from + pattern.len() <= text.len() && text.subrange(from, from + pattern.len()) == pattern
            ==> replaced(text, pattern, other, from) == other + replaced(
            text,
            pattern,
            other,
            from + pattern.len(),
        ),
{
    if forall|i: int| from <= i < text.len() ==> !#[trigger] stands_at(text, pattern, i) {
        lemma_untouched(text, pattern, other, from);
    }
}

} // verus!
