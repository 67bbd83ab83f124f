//! How workloads are driven.
//!
//! A workload starts iterations, waits for them and drains them. What happens
//! next is decided here, from the state of the workload and what has happened;
//! whoever runs the iterations performs the actions and hands back the events.

use vstd::prelude::*;

use crate::duration::Duration;
use crate::metrics::{
    workload_value, MetricsModel, WorkloadKind, WorkloadMetrics, WorkloadPhase, WorkloadSnapshot,
};
use crate::value::{Value, ValueModel};

verus! {

/// How long a workload waits for its last iterations: thirty seconds.
pub const WORKLOAD_DRAIN_TIMEOUT: u128 = 30_000_000_000;

/// How often a workload tells of its progress: every quarter of a second.
pub const WORKLOAD_PROGRESS_INTERVAL: u128 = 250_000_000;

/// The latest moment of which a workload can be told.
pub const LATEST: u128 = 0x4000_0000_0000_0000_0000_0000_0000_0000;

/// What a workload is doing.
#[derive(Clone, Copy, Debug, PartialEq, Eq, Structural)]
pub enum Stage {
    Fresh,
    Waiting { index: usize, until: Duration },
    Collecting { index: usize },
    Yielding { index: usize },
    Starting { index: usize },
    Filling,
    Running { until: Duration },
    Refilling,
    Pausing,
    Draining { deadline: Duration, until: Duration },
    Done,
}

/// What has happened.
#[derive(Clone, Copy, Debug, PartialEq, Eq, Structural)]
pub enum Event {
    /// The workload may begin.
    Begin,
    /// The iteration at a position has ended. The last one takes its place.
    Completed { position: usize, succeeded: bool },
    /// Nothing ended while the workload waited.
    Elapsed,
    /// No iteration has ended yet.
    Idle,
    /// An iteration has started. It stands behind the others.
    Started,
    /// Others have had their turn.
    Yielded,
}

/// What is to be done next.
#[derive(Debug, PartialEq)]
pub enum Action {
    /// Wait until an iteration ends, or until a moment.
    Wait { until: Duration },
    /// See whether an iteration has ended.
    Poll,
    /// Start an iteration.
    Start,
    /// Let others have their turn.
    Yield,
    /// Give the result.
    Finish(Value),
}

pub enum ActionModel {
    Wait { until: Duration },
    Poll,
    Start,
    Yield,
    Finish(ValueModel),
}

impl Action {
    pub open spec fn model(self) -> ActionModel {
        match self {
            Action::Wait { until } => ActionModel::Wait { until },
            Action::Poll => ActionModel::Poll,
            Action::Start => ActionModel::Start,
            Action::Yield => ActionModel::Yield,
            Action::Finish(value) => ActionModel::Finish(value.model()),
        }
    }
}

pub open spec fn action_model(action: Option<Action>) -> Option<ActionModel> {
    match action {
        Some(action) => Some(action.model()),
        None => None,
    }
}

/// A workload: its kind, what was measured, the moments at which the running
/// iterations have started, and when the next progress is due.
pub struct WorkloadModel {
    pub kind: WorkloadKind,
    pub metrics: MetricsModel,
    pub active: Seq<Duration>,
    pub next_progress: Duration,
    pub stage: Stage,
}

/// What an event leads to. Where the event does not fit there is no action.
pub struct StepModel {
    pub state: WorkloadModel,
    pub reports: Seq<WorkloadSnapshot>,
    pub action: Option<ActionModel>,
}

/// How many iterations a rate plans for.
pub open spec fn planned_iterations(target: nat, period: Duration, duration: Duration) -> nat {
    (duration.nanos * target) as nat / period.nanos as nat
}

/// When an iteration is due, counted from the beginning.
pub open spec fn offset_of(index: nat, target: nat, period: Duration) -> nat {
    (period.nanos * index) as nat / target
}

pub open spec fn earlier(first: Duration, second: Duration) -> Duration {
    if first.nanos <= second.nanos {
        first
    } else {
        second
    }
}

/// Whether a workload can be of a kind.
pub open spec fn kind_fits(kind: WorkloadKind) -> bool {
    match kind {
        WorkloadKind::Rate { target, period, duration, limit, planned } => {
            &&& target > 0
            &&& 0 < period.nanos <= u64::MAX
            &&& duration.nanos <= u64::MAX
            &&& planned == planned_iterations(target as nat, period, duration)
        },
        WorkloadKind::Concurrency { limit, duration } => limit > 0 && duration.nanos <= u64::MAX,
    }
}

pub open spec fn limit_of(kind: WorkloadKind) -> nat {
    match kind {
        WorkloadKind::Rate { limit, .. } => limit as nat,
        WorkloadKind::Concurrency { limit, .. } => limit as nat,
    }
}

/// The sequence without the element at a position, whose place the last takes.
pub open spec fn swapped_out(active: Seq<Duration>, position: int) -> Seq<Duration> {
    active.update(position, active.last()).drop_last()
}

/// The metrics when iterations from `from` on are given up.
pub open spec fn abandoned(metrics: MetricsModel, active: Seq<Duration>, from: int, now: Duration)
    -> MetricsModel
    decreases active.len() - from,
{
    if from < 0 || from >= active.len() {
        metrics
    } else {
        abandoned(metrics.completed(active[from], now, false), active, from + 1, now)
    }
}

impl WorkloadModel {
    pub open spec fn of(kind: WorkloadKind) -> WorkloadModel {
        WorkloadModel {
            kind,
            metrics: MetricsModel::fresh(Duration { nanos: 0 }),
            active: Seq::empty(),
            next_progress: Duration { nanos: 0 },
            stage: Stage::Fresh,
        }
    }

    /// What holds in every stage.
    pub open spec fn sound(self) -> bool {
        &&& kind_fits(self.kind)
        &&& self.metrics.well_formed()
        &&& self.metrics.success + self.metrics.failed + self.active.len() == self.metrics.started
        &&& self.active.len() <= limit_of(self.kind)
        &&& self.metrics.started_at.nanos <= LATEST
        &&& self.kind matches WorkloadKind::Rate { planned, .. } ==> self.metrics.started
            + self.metrics.dropped <= planned
        &&& self.kind is Concurrency ==> self.metrics.dropped == 0
    }

    /// Whether the iterations of a rate before `index` have been dealt with.
    pub open spec fn dealt_with(self, index: nat) -> bool {
        &&& self.sound()
        &&& self.kind is Rate
        &&& index <= self.kind->planned
        &&& self.metrics.started + self.metrics.dropped == index
        &&& self.metrics.scheduling_delay.count <= self.metrics.started
    }

    /// Whether a workload has started all that it is to start.
    pub open spec fn settled(self) -> bool {
        &&& self.sound()
        &&& self.kind matches WorkloadKind::Rate { planned, .. } ==> self.metrics.started
            + self.metrics.dropped == planned
    }

    pub open spec fn well_formed(self) -> bool {
        &&& self.sound()
        &&& match self.stage {
            Stage::Fresh => self.metrics.started == 0 && self.metrics.dropped == 0
                && self.active.len() == 0,
            Stage::Waiting { index, .. } => self.dealt_with(index as nat) && index
                < self.kind->planned,
            Stage::Collecting { index } => self.dealt_with(index as nat) && index
                < self.kind->planned,
            Stage::Yielding { index } => self.dealt_with(index as nat) && index
                < self.kind->planned,
            Stage::Starting { index } => {
                &&& self.kind is Rate
                &&& index < self.kind->planned
                &&& self.metrics.started + self.metrics.dropped == index
                &&& self.active.len() < limit_of(self.kind)
            },
            Stage::Filling => {
                &&& self.kind is Concurrency
                &&& self.active.len() == self.metrics.started
                &&& self.active.len() < limit_of(self.kind)
            },
            Stage::Refilling => {
                &&& self.kind is Concurrency
                &&& self.active.len() + 1 == limit_of(self.kind)
            },
            Stage::Running { .. } => {
                &&& self.kind is Concurrency
                &&& self.active.len() == limit_of(self.kind)
            },
            Stage::Pausing => self.kind is Concurrency && self.active.len() == limit_of(self.kind),
            Stage::Draining { deadline, .. } => self.settled() && deadline.nanos <= LATEST
                + WORKLOAD_DRAIN_TIMEOUT,
            Stage::Done => self.settled() && self.active.len() == 0,
        }
    }

    pub open spec fn at(self, stage: Stage) -> WorkloadModel {
        WorkloadModel { stage, ..self }
    }

    /// When an iteration of a rate is due.
    pub open spec fn due(self, index: nat) -> Duration {
        match self.kind {
            WorkloadKind::Rate { target, period, .. } => Duration {
                nanos: (self.metrics.started_at.nanos + offset_of(
                    index,
                    target as nat,
                    period,
                )) as u128,
            },
            _ => self.metrics.started_at,
        }
    }

    /// Tells of the progress, where that is due.
    pub open spec fn reported(
        self,
        phase: WorkloadPhase,
        now: Duration,
        force: bool,
        reports: Seq<WorkloadSnapshot>,
    ) -> (WorkloadModel, Seq<WorkloadSnapshot>) {
        if !force && now.nanos < self.next_progress.nanos {
            (self, reports)
        } else {
            (
                WorkloadModel {
                    next_progress: Duration {
                        nanos: (now.nanos + WORKLOAD_PROGRESS_INTERVAL) as u128,
                    },
                    ..self
                },
                reports.push(
                    self.metrics.snapshot(self.kind, phase, self.active.len(), now),
                ),
            )
        }
    }

    /// An iteration has ended.
    pub open spec fn without(self, position: int, succeeded: bool, now: Duration)
        -> WorkloadModel {
        WorkloadModel {
            metrics: self.metrics.completed(self.active[position], now, succeeded),
            active: swapped_out(self.active, position),
            ..self
        }
    }

    /// An iteration has started.
    pub open spec fn with_one(self, now: Duration) -> WorkloadModel {
        WorkloadModel { metrics: self.metrics.begun(), active: self.active.push(now), ..self }
    }

    pub open spec fn finish(self, timed_out: bool, now: Duration, reports: Seq<WorkloadSnapshot>)
        -> StepModel {
        let (state, told) = self.reported(WorkloadPhase::Completed, now, true, reports);
        StepModel {
            state: state.at(Stage::Done),
            reports: told,
            action: Some(
                ActionModel::Finish(workload_value(state.metrics, state.kind, now, timed_out)),
            ),
        }
    }

    /// Gives up the iterations that still run.
    pub open spec fn give_up(self, now: Duration, reports: Seq<WorkloadSnapshot>) -> StepModel {
        let state = WorkloadModel {
            metrics: abandoned(self.metrics, self.active, 0, now),
            active: Seq::empty(),
            ..self
        };
        state.finish(true, now, reports)
    }

    /// Goes on draining.
    pub open spec fn drain(
        self,
        deadline: Duration,
        now: Duration,
        reports: Seq<WorkloadSnapshot>,
    ) -> StepModel {
        if self.active.len() == 0 {
            self.finish(false, now, reports)
        } else {
            let (state, told) = self.reported(WorkloadPhase::Draining, now, false, reports);
            if now.nanos >= deadline.nanos {
                state.give_up(now, told)
            } else {
                let until = earlier(deadline, state.next_progress);
                StepModel {
                    state: state.at(Stage::Draining { deadline, until }),
                    reports: told,
                    action: Some(ActionModel::Wait { until }),
                }
            }
        }
    }

    pub open spec fn start_drain(self, now: Duration, reports: Seq<WorkloadSnapshot>)
        -> StepModel {
        let (state, told) = self.reported(WorkloadPhase::Draining, now, true, reports);
        state.drain(Duration { nanos: (now.nanos + WORKLOAD_DRAIN_TIMEOUT) as u128 }, now, told)
    }

    /// Waits for the iteration of a rate, or drains behind the last one.
    pub open spec fn approach(self, index: nat, now: Duration, reports: Seq<WorkloadSnapshot>)
        -> StepModel {
        if index >= self.kind->planned {
            self.start_drain(now, reports)
        } else {
            let due = self.due(index);
            if now.nanos < due.nanos {
                let (state, told) = self.reported(WorkloadPhase::Running, now, false, reports);
                let until = earlier(due, state.next_progress);
                StepModel {
                    state: state.at(Stage::Waiting { index: index as usize, until }),
                    reports: told,
                    action: Some(ActionModel::Wait { until }),
                }
            } else {
                self.collect(index, reports)
            }
        }
    }

    pub open spec fn collect(self, index: nat, reports: Seq<WorkloadSnapshot>) -> StepModel {
        StepModel {
            state: self.at(Stage::Collecting { index: index as usize }),
            reports,
            action: Some(ActionModel::Poll),
        }
    }

    /// Starts the iteration that is due, or drops it where the limit is
    /// reached.
    pub open spec fn let_in(self, index: nat, now: Duration, reports: Seq<WorkloadSnapshot>)
        -> StepModel {
        if self.active.len() == limit_of(self.kind) {
            let state = WorkloadModel { metrics: self.metrics.skipped(), ..self };
            state.approach(index + 1, now, reports)
        } else {
            let state = WorkloadModel {
                metrics: self.metrics.delayed(self.due(index), now),
                ..self
            };
            StepModel {
                state: state.at(Stage::Starting { index: index as usize }),
                reports,
                action: Some(ActionModel::Start),
            }
        }
    }

    /// When a workload of constant concurrency stops starting iterations.
    pub open spec fn end(self) -> Duration {
        match self.kind {
            WorkloadKind::Concurrency { duration, .. } => Duration {
                nanos: (self.metrics.started_at.nanos + duration.nanos) as u128,
            },
            _ => self.metrics.started_at,
        }
    }

    /// Goes on with constant concurrency.
    pub open spec fn keep_running(self, now: Duration, reports: Seq<WorkloadSnapshot>)
        -> StepModel {
        if now.nanos >= self.end().nanos {
            self.start_drain(now, reports)
        } else {
            let (state, told) = self.reported(WorkloadPhase::Running, now, false, reports);
            let until = earlier(self.end(), state.next_progress);
            StepModel {
                state: state.at(Stage::Running { until }),
                reports: told,
                action: Some(ActionModel::Wait { until }),
            }
        }
    }

    pub open spec fn ask_start(self, stage: Stage, reports: Seq<WorkloadSnapshot>) -> StepModel {
        StepModel { state: self.at(stage), reports, action: Some(ActionModel::Start) }
    }

    pub open spec fn ask_yield(self, stage: Stage, reports: Seq<WorkloadSnapshot>) -> StepModel {
        StepModel { state: self.at(stage), reports, action: Some(ActionModel::Yield) }
    }

    pub open spec fn refused(self) -> StepModel {
        StepModel { state: self, reports: Seq::empty(), action: None }
    }

    /// The workload begins.
    pub open spec fn begin(self, now: Duration) -> StepModel {
        let fresh = WorkloadModel {
            metrics: MetricsModel::fresh(now),
            next_progress: now,
            ..self
        };
        let (state, told) = fresh.reported(WorkloadPhase::Starting, now, true, Seq::empty());
        match self.kind {
            WorkloadKind::Rate { .. } => state.approach(0, now, told),
            WorkloadKind::Concurrency { .. } => state.ask_start(Stage::Filling, told),
        }
    }

    /// An iteration has ended.
    pub open spec fn after_completion(self, position: int, succeeded: bool, now: Duration)
        -> StepModel {
        let none = Seq::<WorkloadSnapshot>::empty();
        let rest = self.without(position, succeeded, now);
        match self.stage {
            Stage::Waiting { index, .. } => {
                let (state, told) = rest.reported(WorkloadPhase::Running, now, false, none);
                state.approach(index as nat, now, told)
            },
            Stage::Collecting { index } => rest.collect(index as nat, none),
            Stage::Running { .. } => {
                let (state, told) = rest.reported(WorkloadPhase::Running, now, false, none);
                if now.nanos >= state.end().nanos {
                    state.start_drain(now, told)
                } else {
                    state.ask_start(Stage::Refilling, told)
                }
            },
            Stage::Draining { deadline, .. } => {
                let (state, told) = rest.reported(WorkloadPhase::Draining, now, false, none);
                state.drain(deadline, now, told)
            },
            _ => self.refused(),
        }
    }

    /// Nothing ended while the workload waited.
    pub open spec fn after_wait(self, now: Duration) -> StepModel {
        let none = Seq::<WorkloadSnapshot>::empty();
        match self.stage {
            Stage::Waiting { index, until } => {
                let (state, told) = self.reported(WorkloadPhase::Running, now, false, none);
                if now.nanos < until.nanos {
                    state.collect(index as nat, told)
                } else {
                    state.approach(index as nat, now, told)
                }
            },
            Stage::Running { until } => {
                let (state, told) = self.reported(WorkloadPhase::Running, now, false, none);
                if now.nanos < until.nanos {
                    state.start_drain(now, told)
                } else {
                    state.keep_running(now, told)
                }
            },
            Stage::Draining { deadline, until } => {
                let (state, told) = self.reported(WorkloadPhase::Draining, now, false, none);
                if now.nanos >= deadline.nanos || now.nanos < until.nanos {
                    state.give_up(now, told)
                } else {
                    state.drain(deadline, now, told)
                }
            },
            _ => self.refused(),
        }
    }

    /// No iteration was found to have ended.
    pub open spec fn after_poll(self, now: Duration) -> StepModel {
        match self.stage {
            Stage::Collecting { index } => {
                let (state, told) = self.reported(
                    WorkloadPhase::Running,
                    now,
                    false,
                    Seq::empty(),
                );
                if index % 1024 == 0 {
                    state.ask_yield(Stage::Yielding { index }, told)
                } else {
                    state.let_in(index as nat, now, told)
                }
            },
            _ => self.refused(),
        }
    }

    /// An iteration has started.
    pub open spec fn after_start(self, now: Duration) -> StepModel {
        let none = Seq::<WorkloadSnapshot>::empty();
        let more = self.with_one(now);
        match self.stage {
            Stage::Starting { index } => more.approach(index as nat + 1, now, none),
            Stage::Filling => if more.active.len() < limit_of(self.kind) {
                more.ask_start(Stage::Filling, none)
            } else {
                more.keep_running(now, none)
            },
            Stage::Refilling => {
                let (state, told) = more.reported(WorkloadPhase::Running, now, false, none);
                if state.metrics.started % 64 == 0 {
                    state.ask_yield(Stage::Pausing, told)
                } else {
                    state.keep_running(now, told)
                }
            },
            _ => self.refused(),
        }
    }

    /// Others have had their turn.
    pub open spec fn after_yield(self, now: Duration) -> StepModel {
        match self.stage {
            Stage::Yielding { index } => self.let_in(index as nat, now, Seq::empty()),
            Stage::Pausing => self.keep_running(now, Seq::empty()),
            _ => self.refused(),
        }
    }

    /// What an event leads to.
    pub open spec fn next(self, event: Event, now: Duration) -> StepModel {
        match event {
            Event::Begin => if self.stage is Fresh {
                self.begin(now)
            } else {
                self.refused()
            },
            Event::Completed { position, succeeded } => if position < self.active.len() {
                self.after_completion(position as int, succeeded, now)
            } else {
                self.refused()
            },
            Event::Elapsed => self.after_wait(now),
            Event::Idle => self.after_poll(now),
            Event::Started => self.after_start(now),
            Event::Yielded => self.after_yield(now),
        }
    }
}

/// A workload never runs more iterations than its limit allows, and every one
/// that it has started either runs or has ended.
pub proof fn law_limit(state: WorkloadModel)
    requires
        state.well_formed(),
    ensures
        state.active.len() <= limit_of(state.kind),
        state.metrics.success + state.metrics.failed + state.active.len()
            == state.metrics.started,
{
}

/// A rate that has ended has started or dropped every iteration that was
/// planned, and every one that it has started has ended.
pub proof fn law_rate_accounts_for_all(state: WorkloadModel)
    requires
        state.well_formed(),
        state.stage is Done,
        state.kind is Rate,
    ensures
        state.metrics.started + state.metrics.dropped == state.kind->planned,
        state.metrics.success + state.metrics.failed == state.metrics.started,
{
}

/// Where the limit of a rate is reached, the iteration that is due is dropped:
/// it is counted, it is not started, and none waits for its turn.
pub proof fn law_full_rate_drops(state: WorkloadModel, event: Event, now: Duration)
    requires
        state.well_formed(),
        state.active.len() == limit_of(state.kind),
        state.stage matches Stage::Collecting { index } && event == Event::Idle && index % 1024 != 0
            || state.stage is Yielding && event == Event::Yielded,
        now.nanos <= LATEST,
    ensures
        state.next(event, now).state.metrics.dropped == state.metrics.dropped + 1,
        state.next(event, now).state.metrics.started == state.metrics.started,
        state.next(event, now).action != Some(ActionModel::Start),
{
    let none = Seq::<WorkloadSnapshot>::empty();
    match state.stage {
        Stage::Collecting { index } => {
            let (told, reports) = state.reported(WorkloadPhase::Running, now, false, none);
            let skipped = WorkloadModel { metrics: told.metrics.skipped(), ..told };
            lemma_approach(skipped, index as nat + 1, now, reports);
            assert(state.next(event, now) == told.let_in(index as nat, now, reports));
        },
        Stage::Yielding { index } => {
            let skipped = WorkloadModel { metrics: state.metrics.skipped(), ..state };
            lemma_approach(skipped, index as nat + 1, now, none);
            assert(state.next(event, now) == state.let_in(index as nat, now, none));
        },
        _ => {},
    }
}

proof fn lemma_approach(
    state: WorkloadModel,
    index: nat,
    now: Duration,
    reports: Seq<WorkloadSnapshot>,
)
    requires
        now.nanos <= LATEST,
    ensures
        state.approach(index, now, reports).state.metrics.dropped == state.metrics.dropped,
        state.approach(index, now, reports).state.metrics.started == state.metrics.started,
        state.approach(index, now, reports).action != Some(ActionModel::Start),
{
    if index >= state.kind->planned {
        let (told, more) = state.reported(WorkloadPhase::Draining, now, true, reports);
        let deadline = Duration { nanos: (now.nanos + WORKLOAD_DRAIN_TIMEOUT) as u128 };
        assert(now.nanos < deadline.nanos);
        assert(state.approach(index, now, reports) == told.drain(deadline, now, more));
        assert(told.metrics == state.metrics);
        assert(told.drain(deadline, now, more).state.metrics == told.metrics);
    }
}

/// A workload of constant concurrency that waits runs as many iterations as its
/// limit says. When one of them ends before the window has closed, the next is
/// started.
pub proof fn law_concurrency_is_constant(
    state: WorkloadModel,
    position: usize,
    succeeded: bool,
    now: Duration,
)
    requires
        state.well_formed(),
        state.stage is Running,
    ensures
        state.active.len() == limit_of(state.kind),
        position < state.active.len() && now.nanos < state.end().nanos ==> state.next(
            Event::Completed { position, succeeded },
            now,
        ).action == Some(ActionModel::Start),
{
}

/// Once the window of a constant concurrency has closed, and the first
/// iterations are there, no more are started.
pub proof fn law_window_closes(state: WorkloadModel, event: Event, now: Duration)
    requires
        state.kind is Concurrency,
        !(state.stage is Fresh),
        !(state.stage is Filling),
        state.well_formed(),
        now.nanos >= state.end().nanos,
    ensures
        state.next(event, now).action != Some(ActionModel::Start),
{
}

/// A workload that drains starts nothing, keeps its deadline, and gives its
/// result once that has passed.
pub proof fn law_drain_ends(state: WorkloadModel, event: Event, now: Duration)
    requires
        state.stage is Draining,
    ensures
        state.next(event, now).action != Some(ActionModel::Start),
        state.next(event, now).state.stage matches Stage::Draining { deadline, .. } ==> deadline
            == state.stage->deadline,
        state.next(event, now).state.stage is Draining || state.next(event, now).state.stage is Done,
        now.nanos >= state.stage->deadline.nanos ==> (state.next(event, now).action matches Some(
            action,
        ) ==> action is Finish),
{
}

/// A workload that begins to drain does so for thirty seconds at most.
pub proof fn law_drain_is_bounded(state: WorkloadModel, event: Event, now: Duration)
    requires
        !(state.stage is Draining),
        now.nanos <= LATEST,
    ensures
        state.next(event, now).state.stage matches Stage::Draining { deadline, .. }
            ==> deadline.nanos == now.nanos + WORKLOAD_DRAIN_TIMEOUT,
{
}

// ---------------------------------------------------------------------------
// The executable side

/// Plans the iterations of a rate. There is no plan where they cannot be
/// counted.
pub fn plan_rate(target: usize, period: Duration, duration: Duration, limit: usize) -> (kind:
    Option<WorkloadKind>)
    ensures
        kind == (if target == 0 || period.nanos == 0 || period.nanos > u64::MAX || duration.nanos
            > u64::MAX || planned_iterations(target as nat, period, duration) > usize::MAX {
            None
        } else {
            Some(
                WorkloadKind::Rate {
                    target,
                    period,
                    duration,
                    limit,
                    planned: planned_iterations(target as nat, period, duration) as usize,
                },
            )
        }),
        kind matches Some(kind) ==> kind_fits(kind),
{
    if target == 0 || period.nanos == 0 || period.nanos > u64::MAX as u128 || duration.nanos
        > u64::MAX as u128 {
        return None;
    }
    proof {
        let d = duration.nanos as int;
        let t = target as int;
        assert(0 <= d * t <= u128::MAX) by (nonlinear_arith)
            requires
                0 <= d <= u64::MAX,
                0 <= t <= u64::MAX,
        ;
    }
    let count: u128 = duration.nanos * target as u128 / period.nanos;
    if count > usize::MAX as u128 {
        return None;
    }
    Some(WorkloadKind::Rate { target, period, duration, limit, planned: count as usize })
}

/// A workload that is driven.
pub struct Workload {
    kind: WorkloadKind,
    metrics: WorkloadMetrics,
    active: Vec<Duration>,
    next_progress: Duration,
    stage: Stage,
}

/// What an event has led to.
pub struct Step {
    pub reports: Vec<WorkloadSnapshot>,
    pub action: Option<Action>,
}

fn earliest(first: Duration, second: Duration) -> (moment: Duration)
    ensures
        moment == earlier(first, second),
{
    if first.nanos <= second.nanos {
        first
    } else {
        second
    }
}

proof fn lemma_offset(index: nat, target: nat, period: Duration, duration: Duration)
    requires
        target > 0,
        0 < period.nanos,
        index < planned_iterations(target, period, duration),
    ensures
        offset_of(index, target, period) <= duration.nanos,
{
    let p = period.nanos as int;
    let d = duration.nanos as int;
    let t = target as int;
    let i = index as int;
    let product = d * t;
    assert(0 <= product) by (nonlinear_arith)
        requires
            product == d * t,
            0 <= d,
            0 <= t,
    ;
    vstd::arithmetic::div_mod::lemma_fundamental_div_mod(product, p);
    let count = product / p;
    assert(p * i <= p * count) by (nonlinear_arith)
        requires
            i <= count,
            p > 0,
    ;
    assert(0 <= p * i) by (nonlinear_arith)
        requires
            0 <= i,
            p > 0,
    ;
    vstd::arithmetic::div_mod::lemma_div_is_ordered(p * i, d * t, t);
    vstd::arithmetic::div_mod::lemma_div_multiples_vanish(d, t);
    assert(t * d == d * t) by (nonlinear_arith);
}

impl Workload {
    pub closed spec fn model(self) -> WorkloadModel {
        WorkloadModel {
            kind: self.kind,
            metrics: self.metrics.model(),
            active: self.active@,
            next_progress: self.next_progress,
            stage: self.stage,
        }
    }

    /// A workload that has not begun.
    pub fn new(kind: WorkloadKind) -> (workload: Workload)
        requires
            kind_fits(kind),
        ensures
            workload.model() == WorkloadModel::of(kind),
            workload.model().well_formed(),
    {
        Workload {
            kind,
            metrics: WorkloadMetrics::new(Duration { nanos: 0 }),
            active: Vec::new(),
            next_progress: Duration { nanos: 0 },
            stage: Stage::Fresh,
        }
    }

    /// How many iterations run.
    pub fn running(&self) -> (count: usize)
        ensures
            count == self.model().active.len(),
    {
        self.active.len()
    }

    fn due(&self, index: usize) -> (moment: Duration)
        requires
            self.model().sound(),
            self.model().kind is Rate,
            index < self.model().kind->planned,
        ensures
            moment == self.model().due(index as nat),
            moment.nanos <= LATEST + u64::MAX,
    {
        match self.kind {
            WorkloadKind::Rate { target, period, duration, .. } => {
                proof {
                    lemma_offset(index as nat, target as nat, period, duration);
                    let p = period.nanos as int;
                    let i = index as int;
                    assert(0 <= p * i <= u128::MAX) by (nonlinear_arith)
                        requires
                            0 <= p <= u64::MAX,
                            0 <= i <= u64::MAX,
                    ;
                }
                let offset: u128 = period.nanos * index as u128 / target as u128;
                Duration { nanos: self.metrics.started_at().nanos + offset }
            },
            WorkloadKind::Concurrency { .. } => self.metrics.started_at(),
        }
    }

    fn report(
        &mut self,
        phase: WorkloadPhase,
        now: Duration,
        force: bool,
        reports: &mut Vec<WorkloadSnapshot>,
    )
        requires
            old(self).model().sound(),
            now.nanos <= LATEST,
        ensures
            (final(self).model(), final(reports)@) == old(self).model().reported(
                phase,
                now,
                force,
                old(reports)@,
            ),
            final(self).model().sound(),
    {
        if !force && now.nanos < self.next_progress.nanos {
            return;
        }
        self.next_progress = Duration { nanos: now.nanos + WORKLOAD_PROGRESS_INTERVAL };
        reports.push(self.metrics.snapshot(self.kind, phase, self.active.len(), now));
    }

    fn remove(&mut self, position: usize, succeeded: bool, now: Duration)
        requires
            old(self).model().sound(),
            position < old(self).model().active.len(),
        ensures
            final(self).model() == old(self).model().without(position as int, succeeded, now),
            final(self).model().sound(),
    {
        let started: Duration = self.active.swap_remove(position);
        self.metrics.record_completion(started, now, succeeded);
    }

    fn insert(&mut self, now: Duration)
        requires
            old(self).model().sound(),
            old(self).model().active.len() < limit_of(old(self).model().kind),
            old(self).model().metrics.started < usize::MAX,
            old(self).model().kind matches WorkloadKind::Rate { planned, .. } ==> old(
                self,
            ).model().metrics.started + old(self).model().metrics.dropped < planned,
        ensures
            final(self).model() == old(self).model().with_one(now),
            final(self).model().sound(),
    {
        self.active.push(now);
        self.metrics.record_start();
    }

    fn finish(&mut self, timed_out: bool, now: Duration, reports: &mut Vec<WorkloadSnapshot>)
        -> (action: Option<Action>)
        requires
            old(self).model().settled(),
            old(self).model().active.len() == 0,
            now.nanos <= LATEST,
        ensures
            (StepModel {
                state: final(self).model(),
                reports: final(reports)@,
                action: action_model(action),
            }) == old(self).model().finish(timed_out, now, old(reports)@),
            final(self).model().well_formed(),
    {
        self.report(WorkloadPhase::Completed, now, true, reports);
        self.stage = Stage::Done;
        Some(Action::Finish(self.metrics.to_value(self.kind, now, timed_out)))
    }

    fn give_up(&mut self, now: Duration, reports: &mut Vec<WorkloadSnapshot>) -> (action: Option<
        Action,
    >)
        requires
            old(self).model().settled(),
            now.nanos <= LATEST,
        ensures
            (StepModel {
                state: final(self).model(),
                reports: final(reports)@,
                action: action_model(action),
            }) == old(self).model().give_up(now, old(reports)@),
            final(self).model().well_formed(),
    {
        let ghost start = self.model();
        let ghost held = self.active@;
        let mut at: usize = 0;
        while at < self.active.len()
            invariant
                at <= held.len(),
                self.active@ == held,
                self.kind == start.kind,
                self.next_progress == start.next_progress,
                self.stage == start.stage,
                start.active == held,
                start.settled(),
                self.metrics.model().well_formed(),
                self.metrics.model().started_at == start.metrics.started_at,
                self.metrics.model().started == start.metrics.started,
                self.metrics.model().dropped == start.metrics.dropped,
                self.metrics.model().scheduling_delay == start.metrics.scheduling_delay,
                self.metrics.model().success + self.metrics.model().failed + held.len() - at
                    == start.metrics.started,
                abandoned(start.metrics, held, 0, now) == abandoned(
                    self.metrics.model(),
                    held,
                    at as int,
                    now,
                ),
            decreases held.len() - at,
        {
            let started: Duration = self.active[at];
            self.metrics.record_completion(started, now, false);
            at += 1;
        }
        self.active = Vec::new();
        proof {
            assert(self.model().active =~= Seq::empty());
        }
        self.finish(true, now, reports)
    }

    fn drain(&mut self, deadline: Duration, now: Duration, reports: &mut Vec<WorkloadSnapshot>)
        -> (action: Option<Action>)
        requires
            old(self).model().settled(),
            now.nanos <= LATEST,
            deadline.nanos <= LATEST + WORKLOAD_DRAIN_TIMEOUT,
        ensures
            (StepModel {
                state: final(self).model(),
                reports: final(reports)@,
                action: action_model(action),
            }) == old(self).model().drain(deadline, now, old(reports)@),
            final(self).model().well_formed(),
    {
        if self.active.len() == 0 {
            return self.finish(false, now, reports);
        }
        self.report(WorkloadPhase::Draining, now, false, reports);
        if now.nanos >= deadline.nanos {
            return self.give_up(now, reports);
        }
        let until: Duration = earliest(deadline, self.next_progress);
        self.stage = Stage::Draining { deadline, until };
        Some(Action::Wait { until })
    }

    fn start_drain(&mut self, now: Duration, reports: &mut Vec<WorkloadSnapshot>) -> (action:
        Option<Action>)
        requires
            old(self).model().settled(),
            now.nanos <= LATEST,
        ensures
            (StepModel {
                state: final(self).model(),
                reports: final(reports)@,
                action: action_model(action),
            }) == old(self).model().start_drain(now, old(reports)@),
            final(self).model().well_formed(),
    {
        self.report(WorkloadPhase::Draining, now, true, reports);
        self.drain(Duration { nanos: now.nanos + WORKLOAD_DRAIN_TIMEOUT }, now, reports)
    }

    fn collect(&mut self, index: usize) -> (action: Option<Action>)
        requires
            old(self).model().dealt_with(index as nat),
            index < old(self).model().kind->planned,
        ensures
            final(self).model() == old(self).model().at(Stage::Collecting { index }),
            action_model(action) == Some(ActionModel::Poll),
            final(self).model().well_formed(),
    {
        self.stage = Stage::Collecting { index };
        Some(Action::Poll)
    }

    fn planned(&self) -> (count: usize)
        requires
            self.model().kind is Rate,
        ensures
            count == self.model().kind->planned,
    {
        match self.kind {
            WorkloadKind::Rate { planned, .. } => planned,
            WorkloadKind::Concurrency { .. } => 0,
        }
    }

    fn limit(&self) -> (count: usize)
        ensures
            count == limit_of(self.model().kind),
    {
        match self.kind {
            WorkloadKind::Rate { limit, .. } => limit,
            WorkloadKind::Concurrency { limit, .. } => limit,
        }
    }

    fn approach(&mut self, index: usize, now: Duration, reports: &mut Vec<WorkloadSnapshot>)
        -> (action: Option<Action>)
        requires
            old(self).model().dealt_with(index as nat),
            now.nanos <= LATEST,
        ensures
            (StepModel {
                state: final(self).model(),
                reports: final(reports)@,
                action: action_model(action),
            }) == old(self).model().approach(index as nat, now, old(reports)@),
            final(self).model().well_formed(),
    {
        if index >= self.planned() {
            return self.start_drain(now, reports);
        }
        let due: Duration = self.due(index);
        if now.nanos < due.nanos {
            self.report(WorkloadPhase::Running, now, false, reports);
            let until: Duration = earliest(due, self.next_progress);
            self.stage = Stage::Waiting { index, until };
            Some(Action::Wait { until })
        } else {
            self.collect(index)
        }
    }

    fn let_in(&mut self, index: usize, now: Duration, reports: &mut Vec<WorkloadSnapshot>)
        -> (action: Option<Action>)
        requires
            old(self).model().dealt_with(index as nat),
            index < old(self).model().kind->planned,
            now.nanos <= LATEST,
        ensures
            (StepModel {
                state: final(self).model(),
                reports: final(reports)@,
                action: action_model(action),
            }) == old(self).model().let_in(index as nat, now, old(reports)@),
            final(self).model().well_formed(),
    {
        if self.active.len() == self.limit() {
            self.metrics.record_drop();
            return self.approach(index + 1, now, reports);
        }
        let due: Duration = self.due(index);
        self.metrics.record_delay(due, now);
        self.stage = Stage::Starting { index };
        Some(Action::Start)
    }

    fn end(&self) -> (moment: Duration)
        requires
            self.model().sound(),
            self.model().kind is Concurrency,
        ensures
            moment == self.model().end(),
    {
        match self.kind {
            WorkloadKind::Concurrency { duration, .. } => Duration {
                nanos: self.metrics.started_at().nanos + duration.nanos,
            },
            WorkloadKind::Rate { .. } => self.metrics.started_at(),
        }
    }

    fn keep_running(&mut self, now: Duration, reports: &mut Vec<WorkloadSnapshot>) -> (action:
        Option<Action>)
        requires
            old(self).model().sound(),
            old(self).model().kind is Concurrency,
            old(self).model().active.len() == limit_of(old(self).model().kind),
            now.nanos <= LATEST,
        ensures
            (StepModel {
                state: final(self).model(),
                reports: final(reports)@,
                action: action_model(action),
            }) == old(self).model().keep_running(now, old(reports)@),
            final(self).model().well_formed(),
    {
        let end: Duration = self.end();
        if now.nanos >= end.nanos {
            return self.start_drain(now, reports);
        }
        self.report(WorkloadPhase::Running, now, false, reports);
        let until: Duration = earliest(end, self.next_progress);
        self.stage = Stage::Running { until };
        Some(Action::Wait { until })
    }

    fn begin(&mut self, now: Duration, reports: &mut Vec<WorkloadSnapshot>) -> (action: Option<
        Action,
    >)
        requires
            old(self).model().well_formed(),
            old(self).model().stage is Fresh,
            old(reports)@.len() == 0,
            now.nanos <= LATEST,
        ensures
            (StepModel {
                state: final(self).model(),
                reports: final(reports)@,
                action: action_model(action),
            }) == old(self).model().begin(now),
            final(self).model().well_formed(),
    {
        proof {
            assert(reports@ =~= Seq::empty());
        }
        self.metrics = WorkloadMetrics::new(now);
        self.next_progress = now;
        self.report(WorkloadPhase::Starting, now, true, reports);
        match self.kind {
            WorkloadKind::Rate { .. } => self.approach(0, now, reports),
            WorkloadKind::Concurrency { .. } => {
                self.stage = Stage::Filling;
                Some(Action::Start)
            },
        }
    }

    fn after_completion(
        &mut self,
        position: usize,
        succeeded: bool,
        now: Duration,
        reports: &mut Vec<WorkloadSnapshot>,
    ) -> (action: Option<Action>)
        requires
            old(self).model().well_formed(),
            position < old(self).model().active.len(),
            old(reports)@.len() == 0,
            now.nanos <= LATEST,
        ensures
            (StepModel {
                state: final(self).model(),
                reports: final(reports)@,
                action: action_model(action),
            }) == old(self).model().after_completion(position as int, succeeded, now),
            final(self).model().well_formed(),
    {
        proof {
            assert(reports@ =~= Seq::empty());
        }
        match self.stage {
            Stage::Waiting { index, .. } => {
                self.remove(position, succeeded, now);
                self.report(WorkloadPhase::Running, now, false, reports);
                self.approach(index, now, reports)
            },
            Stage::Collecting { index } => {
                self.remove(position, succeeded, now);
                self.collect(index)
            },
            Stage::Running { .. } => {
                self.remove(position, succeeded, now);
                self.report(WorkloadPhase::Running, now, false, reports);
                if now.nanos >= self.end().nanos {
                    self.start_drain(now, reports)
                } else {
                    self.stage = Stage::Refilling;
                    Some(Action::Start)
                }
            },
            Stage::Draining { deadline, .. } => {
                self.remove(position, succeeded, now);
                self.report(WorkloadPhase::Draining, now, false, reports);
                self.drain(deadline, now, reports)
            },
            _ => None,
        }
    }

    fn after_wait(&mut self, now: Duration, reports: &mut Vec<WorkloadSnapshot>) -> (action:
        Option<Action>)
        requires
            old(self).model().well_formed(),
            old(reports)@.len() == 0,
            now.nanos <= LATEST,
        ensures
            (StepModel {
                state: final(self).model(),
                reports: final(reports)@,
                action: action_model(action),
            }) == old(self).model().after_wait(now),
            final(self).model().well_formed(),
    {
        proof {
            assert(reports@ =~= Seq::empty());
        }
        match self.stage {
            Stage::Waiting { index, until } => {
                self.report(WorkloadPhase::Running, now, false, reports);
                if now.nanos < until.nanos {
                    self.collect(index)
                } else {
                    self.approach(index, now, reports)
                }
            },
            Stage::Running { until } => {
                self.report(WorkloadPhase::Running, now, false, reports);
                if now.nanos < until.nanos {
                    self.start_drain(now, reports)
                } else {
                    self.keep_running(now, reports)
                }
            },
            Stage::Draining { deadline, until } => {
                self.report(WorkloadPhase::Draining, now, false, reports);
                if now.nanos >= deadline.nanos || now.nanos < until.nanos {
                    self.give_up(now, reports)
                } else {
                    self.drain(deadline, now, reports)
                }
            },
            _ => None,
        }
    }

    fn after_poll(&mut self, now: Duration, reports: &mut Vec<WorkloadSnapshot>) -> (action:
        Option<Action>)
        requires
            old(self).model().well_formed(),
            old(reports)@.len() == 0,
            now.nanos <= LATEST,
        ensures
            (StepModel {
                state: final(self).model(),
                reports: final(reports)@,
                action: action_model(action),
            }) == old(self).model().after_poll(now),
            final(self).model().well_formed(),
    {
        proof {
            assert(reports@ =~= Seq::empty());
        }
        match self.stage {
            Stage::Collecting { index } => {
                self.report(WorkloadPhase::Running, now, false, reports);
                if index % 1024 == 0 {
                    self.stage = Stage::Yielding { index };
                    Some(Action::Yield)
                } else {
                    self.let_in(index, now, reports)
                }
            },
            _ => None,
        }
    }

    fn after_start(&mut self, now: Duration, reports: &mut Vec<WorkloadSnapshot>) -> (action:
        Option<Action>)
        requires
            old(self).model().well_formed(),
            old(self).model().metrics.started < usize::MAX,
            old(reports)@.len() == 0,
            now.nanos <= LATEST,
        ensures
            (StepModel {
                state: final(self).model(),
                reports: final(reports)@,
                action: action_model(action),
            }) == old(self).model().after_start(now),
            final(self).model().well_formed(),
    {
        proof {
            assert(reports@ =~= Seq::empty());
        }
        match self.stage {
            Stage::Starting { index } => {
                self.insert(now);
                self.approach(index + 1, now, reports)
            },
            Stage::Filling => {
                self.insert(now);
                if self.active.len() < self.limit() {
                    self.stage = Stage::Filling;
                    Some(Action::Start)
                } else {
                    self.keep_running(now, reports)
                }
            },
            Stage::Refilling => {
                self.insert(now);
                self.report(WorkloadPhase::Running, now, false, reports);
                if self.metrics.started() % 64 == 0 {
                    self.stage = Stage::Pausing;
                    Some(Action::Yield)
                } else {
                    self.keep_running(now, reports)
                }
            },
            _ => None,
        }
    }

    fn after_yield(&mut self, now: Duration, reports: &mut Vec<WorkloadSnapshot>) -> (action:
        Option<Action>)
        requires
            old(self).model().well_formed(),
            old(reports)@.len() == 0,
            now.nanos <= LATEST,
        ensures
            (StepModel {
                state: final(self).model(),
                reports: final(reports)@,
                action: action_model(action),
            }) == old(self).model().after_yield(now),
            final(self).model().well_formed(),
    {
        proof {
            assert(reports@ =~= Seq::empty());
        }
        match self.stage {
            Stage::Yielding { index } => self.let_in(index, now, reports),
            Stage::Pausing => self.keep_running(now, reports),
            _ => None,
        }
    }

    /// Takes in an event and tells what to do next.
    pub fn next(&mut self, event: Event, now: Duration) -> (step: Step)
        requires
            old(self).model().well_formed(),
            old(self).model().metrics.started < usize::MAX,
            now.nanos <= LATEST,
        ensures
            (StepModel {
                state: final(self).model(),
                reports: step.reports@,
                action: action_model(step.action),
            }) == old(self).model().next(event, now),
            final(self).model().well_formed(),
    {
        let mut reports: Vec<WorkloadSnapshot> = Vec::new();
        let action: Option<Action> = match event {
            Event::Begin => match self.stage {
                Stage::Fresh => self.begin(now, &mut reports),
                _ => None,
            },
            Event::Completed { position, succeeded } => if position < self.active.len() {
                self.after_completion(position, succeeded, now, &mut reports)
            } else {
                None
            },
            Event::Elapsed => self.after_wait(now, &mut reports),
            Event::Idle => self.after_poll(now, &mut reports),
            Event::Started => self.after_start(now, &mut reports),
            Event::Yielded => self.after_yield(now, &mut reports),
        };
        proof {
            if reports@.len() == 0 {
                assert(reports@ =~= Seq::empty());
            }
        }
        Step { reports, action }
    }
}

} // verus!
