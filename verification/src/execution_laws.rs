//! What holds of interpolated texts, retries and contexts, whatever they evaluate.

use vstd::prelude::*;

use crate::duration::Duration;
use crate::execution::{
    acknowledged, activate, apply_context, context_defaults, context_values, defaults_of, evaluate,
    evaluate_attempts, evaluate_fields, evaluate_parts, exhausted, merged_options, resized,
    ActiveContextModel, Evaluated, ExecutionScope, FrameModel, ProgressModel, RequestModel,
    StopModel, WorldModel,
};
use crate::plan::{
    CapabilityDefaultsModel, PlanExpressionKindModel, PlanExpressionModel, PlanFieldModel,
    StringPartModel,
};
use crate::value::{shown, ValueModel};

verus! {

// ---------------------------------------------------------------------------
// Interpolation

/// How far the execution is when part `at` of a text is evaluated, if that
/// part is reached.
pub open spec fn reached(
    world: WorldModel,
    parts: Seq<StringPartModel>,
    at: int,
    locals: Seq<Option<ValueModel>>,
    context: ActiveContextModel,
    frame: FrameModel,
    progress: ProgressModel,
) -> Option<ProgressModel>
    decreases at,
{
    if at <= 0 {
        Some(progress)
    } else {
        match reached(world, parts, at - 1, locals, context, frame, progress) {
            None => None,
            Some(before) => match parts[at - 1] {
                StringPartModel::Text(_) => Some(before),
                StringPartModel::Value(expression) => match evaluate(
                    world,
                    expression,
                    locals,
                    context,
                    frame,
                    before,
                ) {
                    (Ok(_), after) => Some(after),
                    (Err(_), _) => None,
                },
            },
        }
    }
}

/// The value of part `at` of a text.
pub open spec fn part_value(
    world: WorldModel,
    parts: Seq<StringPartModel>,
    at: int,
    locals: Seq<Option<ValueModel>>,
    context: ActiveContextModel,
    frame: FrameModel,
    progress: ProgressModel,
) -> Option<ValueModel> {
    match reached(world, parts, at, locals, context, frame, progress) {
        None => None,
        Some(before) => match parts[at] {
            StringPartModel::Text(_) => None,
            StringPartModel::Value(expression) => match evaluate(
                world,
                expression,
                locals,
                context,
                frame,
                before,
            ) {
                (Ok(value), _) => Some(value),
                (Err(_), _) => None,
            },
        },
    }
}

proof fn lemma_stays_sensitive(
    world: WorldModel,
    parts: Seq<StringPartModel>,
    from: int,
    locals: Seq<Option<ValueModel>>,
    context: ActiveContextModel,
    frame: FrameModel,
    progress: ProgressModel,
    done: Seq<char>,
)
    ensures
        evaluate_parts(
            world,
            parts,
            from,
            locals,
            context,
            frame,
            progress,
            done,
            true,
        ).0 matches Ok((_, sensitive)) ==> sensitive,
    decreases parts.len() - from,
{
    if 0 <= from < parts.len() {
        match parts[from] {
            StringPartModel::Text(text) => {
                lemma_stays_sensitive(
                    world,
                    parts,
                    from + 1,
                    locals,
                    context,
                    frame,
                    progress,
                    done + text,
                );
            },
            StringPartModel::Value(expression) => {
                match evaluate(world, expression, locals, context, frame, progress) {
                    (Ok(value), after) => {
                        lemma_stays_sensitive(
                            world,
                            parts,
                            from + 1,
                            locals,
                            context,
                            frame,
                            after,
                            done + shown(value, true),
                        );
                    },
                    (Err(_), _) => {},
                }
            },
        }
    }
}

/// The evaluation of the parts of a text, from part `at` on.
proof fn lemma_reached(
    world: WorldModel,
    parts: Seq<StringPartModel>,
    at: int,
    locals: Seq<Option<ValueModel>>,
    context: ActiveContextModel,
    frame: FrameModel,
    progress: ProgressModel,
) -> (state: (Seq<char>, bool))
    requires
        0 <= at <= parts.len(),
        reached(world, parts, at, locals, context, frame, progress) is Some,
    ensures
        evaluate_parts(
            world,
            parts,
            0,
            locals,
            context,
            frame,
            progress,
            Seq::empty(),
            false,
        ) == evaluate_parts(
            world,
            parts,
            at,
            locals,
            context,
            frame,
            reached(world, parts, at, locals, context, frame, progress)->0,
            state.0,
            state.1,
        ),
    decreases at,
{
    if at <= 0 {
        (Seq::empty(), false)
    } else {
        let (done, sensitive) = lemma_reached(
            world,
            parts,
            at - 1,
            locals,
            context,
            frame,
            progress,
        );
        let before = reached(world, parts, at - 1, locals, context, frame, progress)->0;
        match parts[at - 1] {
            StringPartModel::Text(text) => (done + text, sensitive),
            StringPartModel::Value(expression) => {
                let value = evaluate(world, expression, locals, context, frame, before).0->Ok_0;
                (
                    done + shown(value, true),
                    sensitive || value.contains_sensitive(),
                )
            },
        }
    }
}

/// A text with a part that is sensitive, or holds something sensitive, is
/// sensitive.
pub proof fn law_interpolation_is_sensitive(
    world: WorldModel,
    expression: PlanExpressionModel,
    at: int,
    locals: Seq<Option<ValueModel>>,
    context: ActiveContextModel,
    frame: FrameModel,
    progress: ProgressModel,
)
    ensures
        expression.kind matches PlanExpressionKindModel::InterpolatedString(parts) ==> (0 <= at
            < parts.len() ==> (part_value(
            world,
            parts,
            at,
            locals,
            context,
            frame,
            progress,
        ) matches Some(part) ==> (part.contains_sensitive() ==> (evaluate(
            world,
            expression,
            locals,
            context,
            frame,
            progress,
        ).0 matches Ok(value) ==> value is Sensitive)))),
{
    match expression.kind {
        PlanExpressionKindModel::InterpolatedString(parts) => {
            let part = part_value(world, parts, at, locals, context, frame, progress);
            if 0 <= at < parts.len() && part is Some && part->0.contains_sensitive() {
                let (done, sensitive) = lemma_reached(
                    world,
                    parts,
                    at,
                    locals,
                    context,
                    frame,
                    progress,
                );
                let before = reached(world, parts, at, locals, context, frame, progress)->0;
                let inner = parts[at]->Value_0;
                let after = evaluate(world, inner, locals, context, frame, before).1;
                lemma_stays_sensitive(
                    world,
                    parts,
                    at + 1,
                    locals,
                    context,
                    frame,
                    after,
                    done + shown(part->0, true),
                );
            }
        },
        _ => {},
    }
}

// ---------------------------------------------------------------------------
// Retries

/// The body of a retry, evaluated as attempt `attempt`, counted from 0.
pub open spec fn attempted(
    world: WorldModel,
    body: PlanExpressionModel,
    attempt: int,
    attempts: int,
    invocation: u64,
    locals: Seq<Option<ValueModel>>,
    context: ActiveContextModel,
    frame: FrameModel,
    progress: ProgressModel,
) -> Evaluated {
    evaluate(
        world,
        body,
        locals,
        context,
        frame.within(
            ExecutionScope::Retry {
                invocation,
                attempt: (attempt + 1) as usize,
                total: attempts as usize,
            },
        ),
        progress,
    )
}

/// How far the execution is once `count` attempts have failed and the delay
/// after each of them is over, if it comes to that.
pub open spec fn retried(
    world: WorldModel,
    body: PlanExpressionModel,
    count: int,
    attempts: int,
    delay: Duration,
    invocation: u64,
    locals: Seq<Option<ValueModel>>,
    context: ActiveContextModel,
    frame: FrameModel,
    progress: ProgressModel,
) -> Option<ProgressModel>
    decreases count,
{
    if count <= 0 {
        Some(progress)
    } else {
        match retried(
            world,
            body,
            count - 1,
            attempts,
            delay,
            invocation,
            locals,
            context,
            frame,
            progress,
        ) {
            None => None,
            Some(before) => match attempted(
                world,
                body,
                count - 1,
                attempts,
                invocation,
                locals,
                context,
                frame,
                before,
            ) {
                (Err(StopModel::Failed(_)), after) => if delay.nanos == 0 {
                    Some(after)
                } else {
                    match acknowledged(RequestModel::Sleep(delay), after) {
                        (Ok(_), last) => Some(last),
                        (Err(_), _) => None,
                    }
                },
                _ => None,
            },
        }
    }
}

proof fn lemma_retried(
    world: WorldModel,
    body: PlanExpressionModel,
    count: int,
    attempts: int,
    delay: Duration,
    invocation: u64,
    locals: Seq<Option<ValueModel>>,
    context: ActiveContextModel,
    frame: FrameModel,
    progress: ProgressModel,
)
    requires
        0 <= count < attempts,
        retried(
            world,
            body,
            count,
            attempts,
            delay,
            invocation,
            locals,
            context,
            frame,
            progress,
        ) is Some,
    ensures
        evaluate_attempts(
            world,
            body,
            0,
            attempts,
            delay,
            invocation,
            locals,
            context,
            frame,
            progress,
        ) == evaluate_attempts(
            world,
            body,
            count,
            attempts,
            delay,
            invocation,
            locals,
            context,
            frame,
            retried(
                world,
                body,
                count,
                attempts,
                delay,
                invocation,
                locals,
                context,
                frame,
                progress,
            )->0,
        ),
    decreases count,
{
    if count > 0 {
        lemma_retried(
            world,
            body,
            count - 1,
            attempts,
            delay,
            invocation,
            locals,
            context,
            frame,
            progress,
        );
    }
}

/// A retry returns the result of the first attempt that succeeds, and the first
/// execution is the first attempt.
pub proof fn law_retry_returns_the_first_success(
    world: WorldModel,
    body: PlanExpressionModel,
    count: int,
    attempts: int,
    delay: Duration,
    invocation: u64,
    locals: Seq<Option<ValueModel>>,
    context: ActiveContextModel,
    frame: FrameModel,
    progress: ProgressModel,
)
    requires
        0 <= count < attempts,
    ensures
        retried(
            world,
            body,
            count,
            attempts,
            delay,
            invocation,
            locals,
            context,
            frame,
            progress,
        ) matches Some(before) ==> ({
            let tried = attempted(
                world,
                body,
                count,
                attempts,
                invocation,
                locals,
                context,
                frame,
                before,
            );
            tried.0 is Ok ==> evaluate_attempts(
                world,
                body,
                0,
                attempts,
                delay,
                invocation,
                locals,
                context,
                frame,
                progress,
            ) == tried
        }),
{
    if retried(
        world,
        body,
        count,
        attempts,
        delay,
        invocation,
        locals,
        context,
        frame,
        progress,
    ) is Some {
        lemma_retried(
            world,
            body,
            count,
            attempts,
            delay,
            invocation,
            locals,
            context,
            frame,
            progress,
        );
    }
}

/// A retry fails once the last attempt has failed, with the error of that
/// attempt.
pub proof fn law_retry_gives_up(
    world: WorldModel,
    body: PlanExpressionModel,
    attempts: int,
    delay: Duration,
    invocation: u64,
    locals: Seq<Option<ValueModel>>,
    context: ActiveContextModel,
    frame: FrameModel,
    progress: ProgressModel,
)
    requires
        0 < attempts,
    ensures
        retried(
            world,
            body,
            attempts - 1,
            attempts,
            delay,
            invocation,
            locals,
            context,
            frame,
            progress,
        ) matches Some(before) ==> (attempted(
            world,
            body,
            attempts - 1,
            attempts,
            invocation,
            locals,
            context,
            frame,
            before,
        ) matches (Err(StopModel::Failed(error)), after) ==> evaluate_attempts(
            world,
            body,
            0,
            attempts,
            delay,
            invocation,
            locals,
            context,
            frame,
            progress,
        ) == (Err::<ValueModel, StopModel>(StopModel::Failed(exhausted(attempts, error))), after)),
{
    if retried(
        world,
        body,
        attempts - 1,
        attempts,
        delay,
        invocation,
        locals,
        context,
        frame,
        progress,
    ) is Some {
        lemma_retried(
            world,
            body,
            attempts - 1,
            attempts,
            delay,
            invocation,
            locals,
            context,
            frame,
            progress,
        );
    }
}

// ---------------------------------------------------------------------------
// Defaults of capabilities

/// Whether defaults say nothing of a capability.
pub open spec fn silent_on(defaults: Seq<CapabilityDefaultsModel>, capability: int) -> bool {
    forall|i: int| 0 <= i < defaults.len() ==> (#[trigger] defaults[i]).capability != capability
}

proof fn lemma_values(
    world: WorldModel,
    fields: Seq<PlanFieldModel>,
    from: int,
    active: ActiveContextModel,
    frame: FrameModel,
    progress: ProgressModel,
)
    ensures
        context_values(world, fields, from, active, frame, progress).0 matches Ok(after)
            ==> after.defaults == active.defaults,
    decreases fields.len() - from,
{
    if 0 <= from < fields.len() {
        if let (Ok(value), after) = evaluate(
            world,
            fields[from].expression,
            Seq::empty(),
            active,
            frame,
            progress,
        ) {
            let more = ActiveContextModel { values: active.values.push(value), ..active };
            lemma_values(world, fields, from + 1, more, frame, after);
        }
    }
}

proof fn lemma_defaults(
    world: WorldModel,
    defaults: Seq<CapabilityDefaultsModel>,
    from: int,
    active: ActiveContextModel,
    frame: FrameModel,
    progress: ProgressModel,
    capability: int,
)
    requires
        silent_on(defaults, capability),
    ensures
        context_defaults(world, defaults, from, active, frame, progress).0 matches Ok(after)
            ==> defaults_of(after, capability) == defaults_of(active, capability),
    decreases defaults.len() - from,
{
    if 0 <= from < defaults.len() {
        let other = defaults[from].capability;
        if let (Ok(values), after) = evaluate_fields(
            world,
            defaults[from].fields,
            0,
            Seq::empty(),
            active,
            frame,
            progress,
            Seq::empty(),
        ) {
            if 0 <= other < active.defaults.len() {
                if let (Ok(entries), last) = merged_options(
                    other,
                    active.defaults[other],
                    values,
                    after,
                ) {
                    let more = ActiveContextModel {
                        defaults: active.defaults.update(other, entries),
                        ..active
                    };
                    lemma_defaults(world, defaults, from + 1, more, frame, last, capability);
                }
            }
        }
    }
}

/// A flow inherits the defaults that its caller has for a capability: they stay
/// as they are, unless a context that the flow applies says something of that
/// capability.
pub proof fn law_defaults_are_inherited(
    world: WorldModel,
    contexts: Seq<int>,
    from: int,
    active: ActiveContextModel,
    frame: FrameModel,
    progress: ProgressModel,
    capability: int,
)
    requires
        0 <= capability < world.plan.capability_names.len(),
        forall|i: int|
            0 <= i < contexts.len() && 0 <= #[trigger] contexts[i] < world.plan.contexts.len()
                ==> silent_on(world.plan.contexts[contexts[i]].defaults, capability),
    ensures
        activate(world, contexts, from, active, frame, progress).0 matches Ok(after)
            ==> defaults_of(after, capability) == defaults_of(active, capability),
    decreases contexts.len() - from,
{
    if 0 <= from < contexts.len() && 0 <= contexts[from] < world.plan.contexts.len() {
        let context = world.plan.contexts[contexts[from]];
        let count = world.plan.capability_names.len();
        let start = ActiveContextModel {
            values: Seq::empty(),
            defaults: resized(active.defaults, count),
        };
        assert(defaults_of(start, capability) =~= defaults_of(active, capability));
        lemma_values(world, context.fields, 0, start, frame, progress);
        if let (Ok(valued), after) = context_values(
            world,
            context.fields,
            0,
            start,
            frame,
            progress,
        ) {
            lemma_defaults(world, context.defaults, 0, valued, frame, after, capability);
        }
        if let (Ok(applied), after) = apply_context(world, context, active, frame, progress) {
            law_defaults_are_inherited(
                world,
                contexts,
                from + 1,
                applied,
                frame,
                after,
                capability,
            );
        }
    }
}

} // verus!
