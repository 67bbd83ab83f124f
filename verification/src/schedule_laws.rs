//! When the iterations of a workload are due, and what its times come to.

use vstd::arithmetic::div_mod::{
    lemma_div_is_ordered, lemma_fundamental_div_mod, lemma_hoist_over_denominator,
};
use vstd::prelude::*;

use crate::duration::Duration;
use crate::histogram::HistogramModel;
use crate::metrics::{since, WorkloadSnapshot};
use crate::parallel::ParallelModel;
use crate::workload::{
    kind_fits, offset_of, planned_iterations, ActionModel, Event, Stage, WorkloadModel, LATEST,
};

verus! {

proof fn lemma_quotient(dividend: nat, divisor: nat)
    requires
        divisor > 0,
    ensures
        (dividend / divisor) * divisor <= dividend < (dividend / divisor + 1) * divisor,
{
    lemma_fundamental_div_mod(dividend as int, divisor as int);
    let quotient = dividend / divisor;
    assert(divisor * quotient == quotient * divisor) by (nonlinear_arith);
    assert((quotient + 1) * divisor == quotient * divisor + divisor) by (nonlinear_arith);
}

/// As many iterations are planned as the rate fits into the window, and each of
/// them is due before the window ends.
pub proof fn law_plans_fill_the_window(
    target: nat,
    period: Duration,
    duration: Duration,
    index: nat,
)
    requires
        target > 0,
        period.nanos > 0,
    ensures
        ({
            let planned = planned_iterations(target, period, duration);
            &&& planned * period.nanos <= duration.nanos * target < (planned + 1) * period.nanos
            &&& index < planned ==> offset_of(index, target, period) < duration.nanos
        }),
{
    let planned = planned_iterations(target, period, duration);
    let span = duration.nanos as nat;
    let step = period.nanos as nat;
    assert(span * target >= 0) by (nonlinear_arith);
    lemma_quotient(span * target, step);
    if index < planned {
        let offset = offset_of(index, target, period);
        assert(step * index >= 0) by (nonlinear_arith);
        lemma_quotient(step * index, target);
        assert(step * index < planned * step) by (nonlinear_arith)
            requires
                index < planned,
                step > 0,
        ;
        assert(offset < span) by (nonlinear_arith)
            requires
                offset * target <= step * index,
                step * index < planned * step,
                planned * step <= span * target,
                target > 0,
        ;
    }
}

/// The first iteration is due at once, none before the one ahead of it, and
/// after each period as many as the rate has for one.
pub proof fn law_iterations_are_spread(index: nat, target: nat, period: Duration)
    requires
        target > 0,
    ensures
        offset_of(0, target, period) == 0,
        offset_of(index, target, period) <= offset_of(index + 1, target, period),
        offset_of(index + target, target, period) == offset_of(index, target, period)
            + period.nanos,
        offset_of(index, target, period) * target <= period.nanos * index < (offset_of(
            index,
            target,
            period,
        ) + 1) * target,
{
    let step = period.nanos as nat;
    assert(step * 0 == 0);
    lemma_quotient(0, target);
    assert(offset_of(0, target, period) == 0) by {
        assert(0nat / target == 0) by (nonlinear_arith)
            requires
                target > 0,
        ;
    }
    assert(step * index >= 0) by (nonlinear_arith);
    assert(step * index <= step * (index + 1)) by (nonlinear_arith);
    lemma_div_is_ordered((step * index) as int, (step * (index + 1)) as int, target as int);
    lemma_hoist_over_denominator((step * index) as int, step as int, target);
    assert(step * (index + target) == step * index + step * target) by (nonlinear_arith);
    lemma_quotient(step * index, target);
}

// ---------------------------------------------------------------------------
// Times

/// A span that is noted lies between the least and the greatest, which were
/// noted themselves, and adds to the count and to the sum.
pub proof fn law_spans_are_noted(histogram: HistogramModel, duration: Duration)
    ensures
        ({
            let next = histogram.noted(duration);
            &&& next.count == histogram.count + 1
            &&& duration.nanos <= u64::MAX ==> next.sum == histogram.sum + duration.nanos
            &&& next.min matches Some(least) && least.nanos <= duration.nanos && (Some(least)
                == histogram.min || least == duration) && (histogram.min matches Some(former)
                ==> least.nanos <= former.nanos)
            &&& duration.nanos <= next.max.nanos && histogram.max.nanos <= next.max.nanos && (
            next.max == histogram.max || next.max == duration)
        }),
{
}

/// The mean is the sum over the count, rounded down.
pub proof fn law_mean_divides_the_sum(histogram: HistogramModel)
    requires
        histogram.well_formed(),
        histogram.count > 0,
    ensures
        histogram.mean().nanos * histogram.count <= histogram.sum < (histogram.mean().nanos + 1)
            * histogram.count,
{
    lemma_quotient(histogram.sum, histogram.count);
    let mean = histogram.sum / histogram.count;
    let count = histogram.count;
    let sum = histogram.sum;
    assert(mean <= u64::MAX) by (nonlinear_arith)
        requires
            mean * count <= sum,
            sum <= count * u64::MAX,
            count > 0,
    ;
}

/// A percentile has to reach its share of the spans, and no more than that.
pub proof fn law_percentiles_reach_their_share(histogram: HistogramModel, percentile: u64)
    requires
        histogram.count * percentile <= u64::MAX,
    ensures
        histogram.count * percentile <= 100 * histogram.rank(percentile) < histogram.count
            * percentile + 100,
{
    let product = histogram.count * percentile;
    assert(product >= 0) by (nonlinear_arith)
        requires
            product == histogram.count * percentile,
            histogram.count >= 0,
            percentile >= 0,
    ;
}

// ---------------------------------------------------------------------------
// The course of a workload

/// An iteration is waited for until it is due, and not any longer.
pub proof fn law_iterations_wait_until_they_are_due(
    state: WorkloadModel,
    index: nat,
    now: Duration,
    reports: Seq<WorkloadSnapshot>,
)
    requires
        kind_fits(state.kind),
        state.kind is Rate,
        index < state.kind->planned,
        state.metrics.started_at.nanos <= LATEST,
        now.nanos <= LATEST,
    ensures
        ({
            let due = state.due(index).nanos;
            let step = state.approach(index, now, reports);
            &&& now.nanos < due ==> (step.action matches Some(ActionModel::Wait { until })
                && until.nanos <= due)
            &&& now.nanos >= due ==> step.action == Some(ActionModel::Poll) && step.state
                == state.at(Stage::Collecting { index: index as usize })
        }),
{
}

/// What has started is counted and runs from that moment on.
pub proof fn law_starts_are_counted(state: WorkloadModel, now: Duration)
    requires
        state.well_formed(),
        state.stage is Starting || state.stage is Filling || state.stage is Refilling,
        now.nanos <= LATEST,
    ensures
        ({
            let next = state.next(Event::Started, now).state;
            &&& next.metrics.started == state.metrics.started + 1
            &&& next.metrics.success == state.metrics.success
            &&& next.metrics.failed == state.metrics.failed
            &&& next.active == state.active.push(now)
        }),
{
    let more = state.with_one(now);
    assert(more.active == state.active.push(now));
    assert(more.active.len() > 0);
}

/// What ends while others are collected is counted once, with the time from its
/// own start to its end, and runs no more.
pub proof fn law_ends_are_counted(
    state: WorkloadModel,
    position: usize,
    succeeded: bool,
    now: Duration,
)
    requires
        state.stage is Collecting,
        position < state.active.len(),
    ensures
        ({
            let next = state.next(Event::Completed { position, succeeded }, now).state;
            &&& next.active.len() == state.active.len() - 1
            &&& next.metrics.success + next.metrics.failed == state.metrics.success
                + state.metrics.failed + 1
            &&& succeeded <==> next.metrics.success == state.metrics.success + 1
            &&& next.metrics.latency == state.metrics.latency.noted(
                since(now, state.active[position as int]),
            )
            &&& next.metrics.started == state.metrics.started
            &&& forall|i: int|
                0 <= i < next.active.len() ==> state.active.contains(#[trigger] next.active[i])
        }),
{
    let next = state.next(Event::Completed { position, succeeded }, now).state;
    assert forall|i: int| 0 <= i < next.active.len() implies state.active.contains(
        #[trigger] next.active[i],
    ) by {
        if i == position {
            assert(next.active[i] == state.active[state.active.len() - 1]);
        } else {
            assert(next.active[i] == state.active[i]);
        }
    }
}

// ---------------------------------------------------------------------------
// Branches

/// Branches start in their order, each once, and never more at a time than the
/// limit says.
pub proof fn law_branches_start_in_order(state: ParallelModel)
    requires
        state.well_formed(),
    ensures
        state.may_start() ==> {
            &&& state.started().active.last() == state.next
            &&& state.started().next == state.next + 1
            &&& state.started().active.len() <= state.limit
            &&& !state.active.contains(state.next as usize)
            &&& state.started().results == state.results
        },
        state.active.len() == state.limit ==> !state.may_start(),
        state.active.len() < state.limit && state.next < state.results.len() ==> state.may_start(),
{
    if state.may_start() && state.active.contains(state.next as usize) {
        let i = choose|i: int|
            0 <= i < state.active.len() && #[trigger] state.active[i] == state.next as usize;
        assert(state.active[i] < state.next);
    }
}

} // verus!
