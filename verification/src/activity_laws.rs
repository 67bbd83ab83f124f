//! What runs ask of the outside, and what they make of the answers.

use vstd::prelude::*;

use crate::duration::Duration;
use crate::execution::{
    activate, apply_context, call_fault, context_defaults, context_values, evaluate,
    evaluate_attempts, execute, first_frame, invoked, merged_options, named_options, no_context,
    perform, run_flow, ActiveContextModel, ExecutionScope, FrameModel, ProgressModel, ReplyModel,
    RequestModel, StopModel, TaskModel, WorldModel,
};
use crate::object_laws::law_insert;
use crate::plan::{
    CapabilityDefaultsModel, ContextPlanModel, ExecutionPlanModel, PlanExpressionModel,
    PlanFieldModel,
};
use crate::syntax::Span;
use crate::value::{inserted, lookup, sorted, EntryModel, ValueModel};

verus! {

// ---------------------------------------------------------------------------
// Operations

/// An operation is asked for with the arguments and options that it has, and
/// what comes back is its value or its failure.
pub proof fn law_operations_are_asked_for(
    capability: int,
    operation: int,
    arguments: Seq<ValueModel>,
    options: Seq<EntryModel>,
    span: Span,
    frame: FrameModel,
    progress: ProgressModel,
)
    ensures
        ({
            let outcome = invoked(
                capability,
                operation,
                arguments,
                options,
                span,
                frame,
                progress,
            ).0;
            &&& progress.reply() is None ==> outcome == Err::<ValueModel, _>(
                StopModel::Waiting(
                    RequestModel::Invoke { capability, operation, arguments, options, span },
                ),
            )
            &&& frame.inside_workload ==> (progress.reply() matches Some(
                ReplyModel::Invoked(Ok(value)),
            ) ==> outcome == Ok::<_, StopModel>(value))
            &&& frame.inside_workload ==> (progress.reply() matches Some(
                ReplyModel::Invoked(Err(error)),
            ) ==> (outcome matches Err(StopModel::Failed(failure)) && failure.span == error.span
                && failure.flow_stack == frame.flow_stack))
        }),
{
}

/// Outside of workloads the outcome of an operation is told as it is before the
/// run goes on with it.
pub proof fn law_outcomes_are_told(
    capability: int,
    operation: int,
    arguments: Seq<ValueModel>,
    options: Seq<EntryModel>,
    span: Span,
    frame: FrameModel,
    progress: ProgressModel,
    value: ValueModel,
)
    requires
        !frame.inside_workload,
        progress.reply() == Some(ReplyModel::Invoked(Ok(value))),
    ensures
        ({
            let outcome = invoked(
                capability,
                operation,
                arguments,
                options,
                span,
                frame,
                progress,
            ).0;
            &&& progress.advanced().reply() is None ==> outcome == Err::<ValueModel, _>(
                StopModel::Waiting(
                    RequestModel::Report {
                        capability,
                        operation,
                        result: Ok(value),
                        span,
                        frame,
                    },
                ),
            )
            &&& progress.advanced().reply() == Some(ReplyModel::Done) ==> outcome == Ok::<
                _,
                StopModel,
            >(value)
        }),
{
}

/// The defaults of a capability are handed over together with the options of the
/// call, which are to count before them.
pub proof fn law_options_are_merged_over_defaults(
    capability: int,
    target: Seq<EntryModel>,
    overrides: Seq<EntryModel>,
    progress: ProgressModel,
)
    ensures
        progress.reply() is None ==> merged_options(capability, target, overrides, progress).0
            == Err::<Seq<EntryModel>, _>(
            StopModel::Waiting(RequestModel::Merge { capability, target, overrides }),
        ),
        progress.reply() matches Some(ReplyModel::Merged(entries)) ==> merged_options(
            capability,
            target,
            overrides,
            progress,
        ).0 == Ok::<_, StopModel>(entries),
{
}

proof fn lemma_named_options(
    fields: Seq<PlanFieldModel>,
    values: Seq<ValueModel>,
    from: int,
    done: Seq<EntryModel>,
    name: Seq<char>,
)
    requires
        0 <= from <= fields.len(),
        sorted(done),
        forall|i: int| from <= i < fields.len() ==> (#[trigger] fields[i]).name != name,
    ensures
        lookup(named_options(fields, values, from, done), name) == lookup(done, name),
    decreases fields.len() - from,
{
    if from < fields.len() {
        law_insert(done, fields[from].name, values[from], name);
        assert(fields[from].name != name);
        lemma_named_options(
            fields,
            values,
            from + 1,
            inserted(done, fields[from].name, values[from]),
            name,
        );
    }
}

/// Each option has the value that was found for it, so long as no later one has
/// its name.
pub proof fn law_options_have_their_values(
    fields: Seq<PlanFieldModel>,
    values: Seq<ValueModel>,
    from: int,
    done: Seq<EntryModel>,
    at: int,
)
    requires
        0 <= from <= at < fields.len(),
        sorted(done),
        forall|i: int| at < i < fields.len() ==> (#[trigger] fields[i]).name != fields[at].name,
    ensures
        lookup(named_options(fields, values, from, done), fields[at].name) == Some(values[at]),
    decreases at - from,
{
    let next = inserted(done, fields[from].name, values[from]);
    law_insert(done, fields[from].name, values[from], fields[at].name);
    if from < at {
        law_options_have_their_values(fields, values, from + 1, next, at);
    } else {
        lemma_named_options(fields, values, from + 1, next, fields[at].name);
    }
}

// ---------------------------------------------------------------------------
// Retries

/// After an attempt that failed, a retry waits for as long as it says before the
/// next one; without a delay it does not wait.
pub proof fn law_retries_wait_between_attempts(
    world: WorldModel,
    body: PlanExpressionModel,
    attempt: int,
    attempts: int,
    delay: Duration,
    invocation: u64,
    locals: Seq<Option<ValueModel>>,
    context: ActiveContextModel,
    frame: FrameModel,
    progress: ProgressModel,
)
    requires
        0 <= attempt,
        attempt + 1 < attempts,
    ensures
        ({
            let inner = frame.within(
                ExecutionScope::Retry {
                    invocation,
                    attempt: (attempt + 1) as usize,
                    total: attempts as usize,
                },
            );
            let first = evaluate(world, body, locals, context, inner, progress);
            let all = evaluate_attempts(
                world,
                body,
                attempt,
                attempts,
                delay,
                invocation,
                locals,
                context,
                frame,
                progress,
            );
            let after = |next: ProgressModel|
                evaluate_attempts(
                    world,
                    body,
                    attempt + 1,
                    attempts,
                    delay,
                    invocation,
                    locals,
                    context,
                    frame,
                    next,
                );
            first.0 matches Err(StopModel::Failed(_)) ==> {
                &&& delay.nanos == 0 ==> all == after(first.1)
                &&& delay.nanos > 0 && first.1.reply() is None ==> all.0 == Err::<ValueModel, _>(
                    StopModel::Waiting(RequestModel::Sleep(delay)),
                )
                &&& delay.nanos > 0 && first.1.reply() == Some(ReplyModel::Done) ==> all == after(
                    first.1.advanced(),
                )
            }
        }),
{
}

// ---------------------------------------------------------------------------
// Contexts

/// The fields of a context are evaluated in their order, each with the values of
/// those before it.
pub proof fn law_context_fields_have_their_values(
    world: WorldModel,
    fields: Seq<PlanFieldModel>,
    from: int,
    active: ActiveContextModel,
    frame: FrameModel,
    progress: ProgressModel,
)
    requires
        0 <= from <= fields.len(),
    ensures
        context_values(world, fields, from, active, frame, progress).0 matches Ok(all) ==> {
            &&& all.defaults == active.defaults
            &&& all.values.len() == active.values.len() + fields.len() - from
            &&& forall|i: int| 0 <= i < active.values.len() ==> #[trigger] all.values[i]
                == active.values[i]
            &&& from < fields.len() ==> evaluate(
                world,
                fields[from].expression,
                Seq::empty(),
                active,
                frame,
                progress,
            ).0 == Ok::<_, StopModel>(all.values[active.values.len() as int])
        },
    decreases fields.len() - from,
{
    if from < fields.len() {
        let (first, after) = evaluate(
            world,
            fields[from].expression,
            Seq::empty(),
            active,
            frame,
            progress,
        );
        if let Ok(value) = first {
            let more = ActiveContextModel { values: active.values.push(value), ..active };
            law_context_fields_have_their_values(world, fields, from + 1, more, frame, after);
            if let Ok(all) = context_values(world, fields, from, active, frame, progress).0 {
                assert forall|i: int| 0 <= i < active.values.len() implies #[trigger] all.values[i]
                    == active.values[i] by {
                    assert(all.values[i] == more.values[i]);
                }
                assert(all.values[active.values.len() as int]
                    == more.values[active.values.len() as int]);
            }
        }
    }
}

proof fn lemma_defaults_keep_values(
    world: WorldModel,
    defaults: Seq<CapabilityDefaultsModel>,
    from: int,
    active: ActiveContextModel,
    frame: FrameModel,
    progress: ProgressModel,
)
    requires
        0 <= from <= defaults.len(),
    ensures
        context_defaults(world, defaults, from, active, frame, progress).0 matches Ok(all)
            ==> all.values == active.values && all.defaults.len() == active.defaults.len(),
    decreases defaults.len() - from,
{
    if from < defaults.len() {
        let capability = defaults[from].capability;
        let (first, after) = crate::execution::evaluate_fields(
            world,
            defaults[from].fields,
            0,
            Seq::empty(),
            active,
            frame,
            progress,
            Seq::empty(),
        );
        if let Ok(values) = first {
            if 0 <= capability < active.defaults.len() {
                let (merged, last) = merged_options(
                    capability,
                    active.defaults[capability],
                    values,
                    after,
                );
                if let Ok(entries) = merged {
                    let more = ActiveContextModel {
                        defaults: active.defaults.update(capability, entries),
                        ..active
                    };
                    lemma_defaults_keep_values(world, defaults, from + 1, more, frame, last);
                }
            }
        }
    }
}

/// A context that is applied has a value for each of its fields, and no others
/// are left of those that were there before.
pub proof fn law_contexts_bring_their_own_values(
    world: WorldModel,
    context: ContextPlanModel,
    inherited: ActiveContextModel,
    frame: FrameModel,
    progress: ProgressModel,
)
    ensures
        apply_context(world, context, inherited, frame, progress).0 matches Ok(all) ==> {
            &&& all.values.len() == context.fields.len()
            &&& all.defaults.len() == world.plan.capability_names.len()
        },
{
    let fresh = ActiveContextModel {
        values: Seq::empty(),
        defaults: crate::execution::resized(
            inherited.defaults,
            world.plan.capability_names.len(),
        ),
    };
    law_context_fields_have_their_values(world, context.fields, 0, fresh, frame, progress);
    let (first, after) = context_values(world, context.fields, 0, fresh, frame, progress);
    if let Ok(active) = first {
        lemma_defaults_keep_values(world, context.defaults, 0, active, frame, after);
    }
}

/// Contexts are applied one after the other: what the last one brings counts,
/// and without any nothing changes.
pub proof fn law_the_last_context_counts(
    world: WorldModel,
    contexts: Seq<int>,
    from: int,
    active: ActiveContextModel,
    frame: FrameModel,
    progress: ProgressModel,
)
    requires
        0 <= from <= contexts.len(),
    ensures
        from == contexts.len() ==> activate(world, contexts, from, active, frame, progress) == (
            Ok::<_, StopModel>(active),
            progress,
        ),
        from < contexts.len() ==> (activate(world, contexts, from, active, frame, progress).0
            matches Ok(all) ==> 0 <= contexts.last() < world.plan.contexts.len()
            && all.values.len() == world.plan.contexts[contexts.last()].fields.len()),
    decreases contexts.len() - from,
{
    if from < contexts.len() && 0 <= contexts[from] < world.plan.contexts.len() {
        let context = world.plan.contexts[contexts[from]];
        law_contexts_bring_their_own_values(world, context, active, frame, progress);
        let (first, after) = apply_context(world, context, active, frame, progress);
        if let Ok(applied) = first {
            law_the_last_context_counts(world, contexts, from + 1, applied, frame, after);
        }
    }
}

// ---------------------------------------------------------------------------
// Runs

/// A run begins with the flow that is asked for, with its arguments, without a
/// context and outside of any other flow; a task begins where it was left.
pub proof fn law_runs_begin_at_their_flow(
    world: WorldModel,
    flow: int,
    arguments: Seq<ValueModel>,
    task: TaskModel,
    replies: Seq<ReplyModel>,
)
    ensures
        call_fault(world.plan, flow, arguments.len(), first_frame()) is None ==> exists|
            frame: FrameModel,
            progress: ProgressModel,
        |
            execute(world, flow, arguments, replies) == #[trigger] run_flow(
                world,
                world.plan.flows[flow],
                arguments,
                no_context(),
                frame,
                progress,
            ) && frame.flow_stack == seq![world.plan.flows[flow].display_name]
                && frame.scope_path.len() == 0 && !frame.inside_workload && progress.at == 0
                && progress.replies == replies && progress.secrets.len() == 0,
        exists|progress: ProgressModel|
            perform(world, task, replies) == #[trigger] evaluate(
                world,
                task.expression,
                task.locals,
                task.context,
                task.frame,
                progress,
            ) && progress.at == 0 && progress.replies == replies && progress.secrets
                == task.secrets,
{
    let progress = ProgressModel { replies, at: 0, secrets: Seq::empty() };
    let name = world.plan.flows[flow].display_name;
    let frame = first_frame().calling(name);
    if call_fault(world.plan, flow, arguments.len(), first_frame()) is None {
        assert(frame.flow_stack =~= seq![name]);
        assert(execute(world, flow, arguments, replies) == run_flow(
            world,
            world.plan.flows[flow],
            arguments,
            no_context(),
            frame,
            progress,
        ));
    }
    let begun = ProgressModel { replies, at: 0, secrets: task.secrets };
    assert(perform(world, task, replies) == evaluate(
        world,
        task.expression,
        task.locals,
        task.context,
        task.frame,
        begun,
    ));
}

/// A flow can be called where it exists, takes as many arguments as it is given,
/// and not too many calls are open.
pub proof fn law_calls_fit_their_flow(
    plan: ExecutionPlanModel,
    flow: int,
    count: nat,
    frame: FrameModel,
)
    ensures
        call_fault(plan, flow, count, frame) is None <==> 0 <= flow < plan.flows.len() && count
            == plan.flows[flow].parameters.len() && frame.flow_stack.len() < 1024,
{
}

} // verus!
