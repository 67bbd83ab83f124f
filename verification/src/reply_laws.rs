//! What holds of executions and the replies that they get.

use vstd::prelude::*;

use crate::duration::Duration;
use crate::execution::{
    acknowledged, activate, apply_context, argument_locals, branch_tasks, call_fault,
    check_assertion, choose_branch, context_defaults, context_values, defaults_of, depth,
    empty_slots, evaluate, evaluate_attempts, evaluate_block, evaluate_call, evaluate_fields,
    evaluate_index, evaluate_list, evaluate_listed, evaluate_loop, evaluate_mixed,
    evaluate_operation, evaluate_operator, evaluate_parts, evaluate_retry, evaluate_rounds,
    evaluate_unary, execute, first_frame, invoked, is_unary, items_of, merged_options,
    named_options, no_context, numbered, operand, operation_secrets, order_length, perform, present,
    reported, resized, round_locals, run, run_flow, run_one, stored, taken, wait_measured,
    wait_parallel, wait_within, widened, ActiveContextModel, ExecutionScope, FrameModel,
    ProgressModel, Ran, ReplyModel, RequestModel, RunModel, StopModel, TaskModel, WorldModel,
};
use crate::plan::{
    CallEvaluation, CapabilityDefaultsModel, ConditionalBranchModel, ContextPlanModel,
    InstructionModel, MettlePlanModel, PlanBranchModel, PlanExpressionKindModel,
    PlanExpressionModel, PlanFieldModel, StringPartModel,
};
use crate::privacy_laws::law_secrets_are_kept;
use crate::redaction::joined_secrets;
use crate::syntax::{DeclarationKind, ErrorModel, Span};
use crate::value::{entry_texts, inserted, listed_texts, shown, EntryModel, ValueModel};

verus! {

/// Whether a reply answers a request.
pub open spec fn answers(request: RequestModel, reply: ReplyModel) -> bool {
    match request {
        RequestModel::Number => reply is Number,
        RequestModel::Echo { value, span, frame } => reply is Done,
        RequestModel::Report { capability, operation, result, span, frame } => reply is Done,
        RequestModel::Merge { capability, target, overrides } => reply is Merged,
        RequestModel::Invoke { capability, operation, arguments, options, span } => reply
            is Invoked,
        RequestModel::Sleep(_) => reply is Done,
        RequestModel::Within { timeout, task } => reply is Ended,
        RequestModel::Parallel { limit, invocation, tasks } => match reply {
            ReplyModel::Joined(Ok(values)) => values.len() == tasks.len(),
            ReplyModel::Joined(Err(_)) => true,
            _ => false,
        },
        RequestModel::Rate { target, period, duration, limit, task } => reply is Measured,
        RequestModel::Concurrency { limit, duration, task } => reply is Measured,
    }
}

/// Whether an execution that is as far as `progress` lacks the answer to a
/// request.
pub open spec fn lacks(progress: ProgressModel, request: RequestModel) -> bool {
    match progress.reply() {
        Some(reply) => !answers(request, reply),
        None => true,
    }
}

/// The progress with more replies behind those that there are.
spec fn longer(progress: ProgressModel, more: Seq<ReplyModel>) -> ProgressModel {
    ProgressModel { replies: progress.replies + more, ..progress }
}

/// Whether the answer to a request is all that is missing, and comes next.
spec fn answered(progress: ProgressModel, request: RequestModel, more: Seq<ReplyModel>) -> bool {
    &&& progress.at == progress.replies.len()
    &&& more.len() > 0
    &&& answers(request, more[0])
}

/// Whether all secrets are still known.
pub open spec fn all_kept(before: Seq<Seq<char>>, after: Seq<Seq<char>>) -> bool {
    forall|secret: Seq<char>| #[trigger] before.contains(secret) ==> after.contains(secret)
}

proof fn lemma_all_kept(secrets: Seq<Seq<char>>, texts: Seq<Seq<char>>)
    ensures
        all_kept(secrets, joined_secrets(secrets, texts, 0)),
{
    assert forall|secret: Seq<char>| #[trigger] secrets.contains(secret) implies joined_secrets(
        secrets,
        texts,
        0,
    ).contains(secret) by {
        law_secrets_are_kept(secrets, texts, secret);
    }
}

/// How an evaluation goes on when there are more replies: one that came to an
/// end comes to the same end, and one that waits goes on with its answer.
spec fn steady<T>(
    progress: ProgressModel,
    first: (Result<T, StopModel>, ProgressModel),
    second: (Result<T, StopModel>, ProgressModel),
    more: Seq<ReplyModel>,
) -> bool {
    &&& first.1.replies == progress.replies
    &&& first.1.at >= progress.at
    &&& all_kept(progress.secrets, first.1.secrets)
    &&& match first.0 {
        Err(StopModel::Waiting(request)) => {
            &&& lacks(first.1, request)
            &&& answered(first.1, request, more) ==> second.1.at > first.1.at
        },
        _ => second == (first.0, longer(first.1, more)),
    }
}

/// The same of a row of instructions.
spec fn steady_run(state: RunModel, first: Ran, second: Ran, more: Seq<ReplyModel>) -> bool {
    &&& first.1.progress.replies == state.progress.replies
    &&& first.1.progress.at >= state.progress.at
    &&& all_kept(state.progress.secrets, first.1.progress.secrets)
    &&& match first.0 {
        Err(StopModel::Waiting(request)) => {
            &&& lacks(first.1.progress, request)
            &&& answered(first.1.progress, request, more) ==> second.1.progress.at
                > first.1.progress.at
        },
        _ => second == (first.0, first.1.at(longer(first.1.progress, more))),
    }
}

proof fn lemma_numbered(
    progress: ProgressModel,
    more: Seq<ReplyModel>,
)
    ensures
        steady(
            progress,
            numbered(progress),
            numbered(longer(progress, more)),
            more,
        ),
{
}

proof fn lemma_acknowledged(
    request: RequestModel,
    progress: ProgressModel,
    more: Seq<ReplyModel>,
)
    requires
        request is Echo || request is Report || request is Sleep,
    ensures
        steady(
            progress,
            acknowledged(request, progress),
            acknowledged(request, longer(progress, more)),
            more,
        ),
{
}

proof fn lemma_merged_options(
    capability: int,
    target: Seq<EntryModel>,
    overrides: Seq<EntryModel>,
    progress: ProgressModel,
    more: Seq<ReplyModel>,
)
    ensures
        steady(
            progress,
            merged_options(capability, target, overrides, progress),
            merged_options(capability, target, overrides, longer(progress, more)),
            more,
        ),
{
}

proof fn lemma_reported(
    capability: int,
    operation: int,
    result: Result<ValueModel, ErrorModel>,
    span: Span,
    frame: FrameModel,
    progress: ProgressModel,
    more: Seq<ReplyModel>,
)
    ensures
        steady(
            progress,
            reported(capability, operation, result, span, frame, progress),
            reported(capability, operation, result, span, frame, longer(progress, more)),
            more,
        ),
{
}

proof fn lemma_invoked(
    capability: int,
    operation: int,
    arguments: Seq<ValueModel>,
    options: Seq<EntryModel>,
    span: Span,
    frame: FrameModel,
    progress: ProgressModel,
    more: Seq<ReplyModel>,
)
    ensures
        steady(
            progress,
            invoked(capability, operation, arguments, options, span, frame, progress),
            invoked(
                capability,
                operation,
                arguments,
                options,
                span,
                frame,
                longer(progress, more),
            ),
            more,
        ),
{
    let known = progress.knowing(operation_secrets(progress.secrets, arguments, options));
    lemma_all_kept(
        progress.secrets,
        listed_texts(arguments, 0, false) + entry_texts(options, 0, false),
    );
    match known.reply() {
        Some(ReplyModel::Invoked(result)) => {
            lemma_reported(capability, operation, result, span, frame, known.advanced(), more);
        },
        None => {
            let later = longer(known, more);
            match later.reply() {
                Some(ReplyModel::Invoked(result)) => {
                    lemma_reported(
                        capability,
                        operation,
                        result,
                        span,
                        frame,
                        later.advanced(),
                        Seq::empty(),
                    );
                },
                _ => {},
            }
        },
        _ => {},
    }
}

proof fn lemma_wait_within(
    timeout: Duration,
    task: TaskModel,
    span: Span,
    frame: FrameModel,
    progress: ProgressModel,
    more: Seq<ReplyModel>,
)
    ensures
        steady(
            progress,
            wait_within(timeout, task, span, frame, progress),
            wait_within(timeout, task, span, frame, longer(progress, more)),
            more,
        ),
{
    match progress.reply() {
        Some(ReplyModel::Ended { result, secrets }) => {
            lemma_all_kept(progress.secrets, secrets);
        },
        _ => {},
    }
}

proof fn lemma_wait_measured(
    request: RequestModel,
    progress: ProgressModel,
    more: Seq<ReplyModel>,
)
    requires
        request is Rate || request is Concurrency,
    ensures
        steady(
            progress,
            wait_measured(request, progress),
            wait_measured(request, longer(progress, more)),
            more,
        ),
{
}

proof fn lemma_wait_parallel(
    limit: int,
    branches: Seq<PlanBranchModel>,
    locals: Seq<Option<ValueModel>>,
    context: ActiveContextModel,
    frame: FrameModel,
    progress: ProgressModel,
    more: Seq<ReplyModel>,
)
    ensures
        steady(
            progress,
            wait_parallel(limit, branches, locals, context, frame, progress),
            wait_parallel(
                limit,
                branches,
                locals,
                context,
                frame,
                longer(progress, more),
            ),
            more,
        ),
{
    lemma_numbered(progress, more);
    assert forall|invocation: u64| #[trigger]
        branch_tasks(
            branches,
            invocation,
            locals,
            context,
            frame,
            progress.secrets,
        ).len() == branches.len() by {}
}

proof fn lemma_evaluate(
    world: WorldModel,
    expression: PlanExpressionModel,
    locals: Seq<Option<ValueModel>>,
    context: ActiveContextModel,
    frame: FrameModel,
    progress: ProgressModel,
    more: Seq<ReplyModel>,
)
    ensures
        steady(
            progress,
            evaluate(world, expression, locals, context, frame, progress),
            evaluate(world, expression, locals, context, frame, longer(progress, more)),
            more,
        ),
    decreases depth(frame), expression, 2int,
{
    match expression.kind {
        PlanExpressionKindModel::Array(values) => {
            lemma_evaluate_list(
                world,
                values,
                0,
                locals,
                context,
                frame,
                progress,
                Seq::empty(),
                more,
            );
        },
        PlanExpressionKindModel::Object(fields) => {
            lemma_evaluate_fields(
                world,
                fields,
                0,
                locals,
                context,
                frame,
                progress,
                Seq::empty(),
                more,
            );
        },
        PlanExpressionKindModel::Sensitive(_) => {
            lemma_evaluate_unary(world, expression, locals, context, frame, progress, more);
        },
        PlanExpressionKindModel::Member { value, member } => {
            lemma_evaluate_unary(world, expression, locals, context, frame, progress, more);
        },
        PlanExpressionKindModel::Not(_) => {
            lemma_evaluate_unary(world, expression, locals, context, frame, progress, more);
        },
        PlanExpressionKindModel::Negate(_) => {
            lemma_evaluate_unary(world, expression, locals, context, frame, progress, more);
        },
        PlanExpressionKindModel::Fail(_) => {
            lemma_evaluate_unary(world, expression, locals, context, frame, progress, more);
        },
        PlanExpressionKindModel::Index { value, index } => {
            lemma_evaluate_index(world, expression, locals, context, frame, progress, more);
        },
        PlanExpressionKindModel::Binary { left, operator, right } => {
            lemma_evaluate_operator(world, expression, locals, context, frame, progress, more);
        },
        PlanExpressionKindModel::InterpolatedString(parts) => {
            lemma_evaluate_parts(
                world,
                parts,
                0,
                locals,
                context,
                frame,
                progress,
                Seq::empty(),
                false,
                more,
            );
        },
        PlanExpressionKindModel::Block { instructions, local_count } => {
            lemma_evaluate_block(world, expression, locals, context, frame, progress, more);
        },
        PlanExpressionKindModel::For { iterable, key_slot, value_slot, instructions, local_count, produces_value } => {
            lemma_evaluate_loop(world, expression, locals, context, frame, progress, more);
        },
        PlanExpressionKindModel::MettleCall { flow, arguments, evaluation_order } => {
            lemma_evaluate_call(world, expression, locals, context, frame, progress, more);
        },
        PlanExpressionKindModel::CapabilityCall { capability, operation, arguments, options, evaluation_order } => {
            lemma_evaluate_operation(world, expression, locals, context, frame, progress, more);
        },
        PlanExpressionKindModel::Retry { attempts, delay, body } => {
            lemma_evaluate_retry(world, expression, locals, context, frame, progress, more);
        },
        PlanExpressionKindModel::Within { timeout, body } => {
            lemma_wait_within(
                timeout,
                TaskModel {
                    expression: *body,
                    locals,
                    context,
                    frame,
                    secrets: progress.secrets,
                },
                expression.span,
                frame,
                progress,
                more,
            );
        },
        PlanExpressionKindModel::Parallel { limit, branches } => {
            lemma_wait_parallel(limit, branches, locals, context, frame, progress, more);
        },
        PlanExpressionKindModel::Rate { target, period, duration, limit, body } => {
            let task = TaskModel {
                expression: *body,
                locals,
                context,
                frame: frame.loaded(),
                secrets: progress.secrets,
            };
            lemma_wait_measured(
                RequestModel::Rate { target, period, duration, limit, task },
                progress,
                more,
            );
        },
        PlanExpressionKindModel::Concurrency { limit, duration, body } => {
            let task = TaskModel {
                expression: *body,
                locals,
                context,
                frame: frame.loaded(),
                secrets: progress.secrets,
            };
            lemma_wait_measured(
                RequestModel::Concurrency { limit, duration, task },
                progress,
                more,
            );
        },
        _ => {},
    }
}

proof fn lemma_evaluate_list(
    world: WorldModel,
    values: Seq<PlanExpressionModel>,
    from: int,
    locals: Seq<Option<ValueModel>>,
    context: ActiveContextModel,
    frame: FrameModel,
    progress: ProgressModel,
    done: Seq<ValueModel>,
    more: Seq<ReplyModel>,
)
    ensures
        steady(
            progress,
            evaluate_list(world, values, from, locals, context, frame, progress, done),
            evaluate_list(
                world,
                values,
                from,
                locals,
                context,
                frame,
                longer(progress, more),
                done,
            ),
            more,
        ),
    decreases depth(frame), values, values.len() - from,
{
    if 0 <= from < values.len() {
        lemma_evaluate(world, values[from], locals, context, frame, progress, more);
        match evaluate(world, values[from], locals, context, frame, progress) {
            (Ok(value), after) => {
                lemma_evaluate_list(
                    world,
                    values,
                    from + 1,
                    locals,
                    context,
                    frame,
                    after,
                    done.push(value),
                    more,
                );
            },
            _ => {},
        }
        match evaluate(world, values[from], locals, context, frame, longer(progress, more)) {
            (Ok(value), after) => {
                lemma_evaluate_list(
                    world,
                    values,
                    from + 1,
                    locals,
                    context,
                    frame,
                    after,
                    done.push(value),
                    Seq::empty(),
                );
            },
            _ => {},
        }
    }
}

proof fn lemma_evaluate_fields(
    world: WorldModel,
    fields: Seq<PlanFieldModel>,
    from: int,
    locals: Seq<Option<ValueModel>>,
    context: ActiveContextModel,
    frame: FrameModel,
    progress: ProgressModel,
    done: Seq<EntryModel>,
    more: Seq<ReplyModel>,
)
    ensures
        steady(
            progress,
            evaluate_fields(world, fields, from, locals, context, frame, progress, done),
            evaluate_fields(
                world,
                fields,
                from,
                locals,
                context,
                frame,
                longer(progress, more),
                done,
            ),
            more,
        ),
    decreases depth(frame), fields, fields.len() - from,
{
    if 0 <= from < fields.len() {
        lemma_evaluate(world, fields[from].expression, locals, context, frame, progress, more);
        match evaluate(world, fields[from].expression, locals, context, frame, progress) {
            (Ok(value), after) => {
                lemma_evaluate_fields(
                    world,
                    fields,
                    from + 1,
                    locals,
                    context,
                    frame,
                    after,
                    inserted(done, fields[from].name, value),
                    more,
                );
            },
            _ => {},
        }
        match evaluate(
            world,
            fields[from].expression,
            locals,
            context,
            frame,
            longer(progress, more),
        ) {
            (Ok(value), after) => {
                lemma_evaluate_fields(
                    world,
                    fields,
                    from + 1,
                    locals,
                    context,
                    frame,
                    after,
                    inserted(done, fields[from].name, value),
                    Seq::empty(),
                );
            },
            _ => {},
        }
    }
}

proof fn lemma_evaluate_unary(
    world: WorldModel,
    expression: PlanExpressionModel,
    locals: Seq<Option<ValueModel>>,
    context: ActiveContextModel,
    frame: FrameModel,
    progress: ProgressModel,
    more: Seq<ReplyModel>,
)
    requires
        is_unary(expression.kind),
    ensures
        steady(
            progress,
            evaluate_unary(world, expression, locals, context, frame, progress),
            evaluate_unary(
                world,
                expression,
                locals,
                context,
                frame,
                longer(progress, more),
            ),
            more,
        ),
    decreases depth(frame), expression, 1int,
{
    lemma_evaluate(world, operand(expression.kind), locals, context, frame, progress, more);
}

proof fn lemma_evaluate_index(
    world: WorldModel,
    expression: PlanExpressionModel,
    locals: Seq<Option<ValueModel>>,
    context: ActiveContextModel,
    frame: FrameModel,
    progress: ProgressModel,
    more: Seq<ReplyModel>,
)
    requires
        expression.kind is Index,
    ensures
        steady(
            progress,
            evaluate_index(world, expression, locals, context, frame, progress),
            evaluate_index(
                world,
                expression,
                locals,
                context,
                frame,
                longer(progress, more),
            ),
            more,
        ),
    decreases depth(frame), expression, 1int,
{
    match expression.kind {
        PlanExpressionKindModel::Index { value, index } => {
            lemma_evaluate(world, *value, locals, context, frame, progress, more);
            match evaluate(world, *value, locals, context, frame, progress) {
                (Ok(_), after) => {
                    lemma_evaluate(world, *index, locals, context, frame, after, more);
                },
                _ => {},
            }
            match evaluate(world, *value, locals, context, frame, longer(progress, more)) {
                (Ok(_), after) => {
                    lemma_evaluate(world, *index, locals, context, frame, after, Seq::empty());
                },
                _ => {},
            }
        },
        _ => {},
    }
}

proof fn lemma_evaluate_operator(
    world: WorldModel,
    expression: PlanExpressionModel,
    locals: Seq<Option<ValueModel>>,
    context: ActiveContextModel,
    frame: FrameModel,
    progress: ProgressModel,
    more: Seq<ReplyModel>,
)
    requires
        expression.kind is Binary,
    ensures
        steady(
            progress,
            evaluate_operator(world, expression, locals, context, frame, progress),
            evaluate_operator(
                world,
                expression,
                locals,
                context,
                frame,
                longer(progress, more),
            ),
            more,
        ),
    decreases depth(frame), expression, 1int,
{
    match expression.kind {
        PlanExpressionKindModel::Binary { left, operator, right } => {
            lemma_evaluate(world, *left, locals, context, frame, progress, more);
            match evaluate(world, *left, locals, context, frame, progress) {
                (Ok(_), after) => {
                    lemma_evaluate(world, *right, locals, context, frame, after, more);
                },
                _ => {},
            }
            match evaluate(world, *left, locals, context, frame, longer(progress, more)) {
                (Ok(_), after) => {
                    lemma_evaluate(world, *right, locals, context, frame, after, Seq::empty());
                },
                _ => {},
            }
        },
        _ => {},
    }
}

proof fn lemma_evaluate_parts(
    world: WorldModel,
    parts: Seq<StringPartModel>,
    from: int,
    locals: Seq<Option<ValueModel>>,
    context: ActiveContextModel,
    frame: FrameModel,
    progress: ProgressModel,
    done: Seq<char>,
    sensitive: bool,
    more: Seq<ReplyModel>,
)
    ensures
        steady(
            progress,
            evaluate_parts(
                world,
                parts,
                from,
                locals,
                context,
                frame,
                progress,
                done,
                sensitive,
            ),
            evaluate_parts(
                world,
                parts,
                from,
                locals,
                context,
                frame,
                longer(progress, more),
                done,
                sensitive,
            ),
            more,
        ),
    decreases depth(frame), parts, parts.len() - from,
{
    if 0 <= from < parts.len() {
        match parts[from] {
            StringPartModel::Text(text) => {
                lemma_evaluate_parts(
                    world,
                    parts,
                    from + 1,
                    locals,
                    context,
                    frame,
                    progress,
                    done + text,
                    sensitive,
                    more,
                );
            },
            StringPartModel::Value(expression) => {
                lemma_evaluate(world, expression, locals, context, frame, progress, more);
                match evaluate(world, expression, locals, context, frame, progress) {
                    (Ok(value), after) => {
                        lemma_evaluate_parts(
                            world,
                            parts,
                            from + 1,
                            locals,
                            context,
                            frame,
                            after,
                            done + shown(value, true),
                            sensitive || value.contains_sensitive(),
                            more,
                        );
                    },
                    _ => {},
                }
                match evaluate(
                    world,
                    expression,
                    locals,
                    context,
                    frame,
                    longer(progress, more),
                ) {
                    (Ok(value), after) => {
                        lemma_evaluate_parts(
                            world,
                            parts,
                            from + 1,
                            locals,
                            context,
                            frame,
                            after,
                            done + shown(value, true),
                            sensitive || value.contains_sensitive(),
                            Seq::empty(),
                        );
                    },
                    _ => {},
                }
            },
        }
    }
}

proof fn lemma_evaluate_call(
    world: WorldModel,
    expression: PlanExpressionModel,
    locals: Seq<Option<ValueModel>>,
    context: ActiveContextModel,
    frame: FrameModel,
    progress: ProgressModel,
    more: Seq<ReplyModel>,
)
    requires
        expression.kind is MettleCall,
    ensures
        steady(
            progress,
            evaluate_call(world, expression, locals, context, frame, progress),
            evaluate_call(
                world,
                expression,
                locals,
                context,
                frame,
                longer(progress, more),
            ),
            more,
        ),
    decreases depth(frame), expression, 1int,
{
    match expression.kind {
        PlanExpressionKindModel::MettleCall { flow, arguments, evaluation_order } => {
            lemma_evaluate_listed(
                world,
                evaluation_order,
                0,
                arguments,
                locals,
                context,
                frame,
                progress,
                empty_slots(arguments.len()),
                more,
            );
            match evaluate_listed(
                world,
                evaluation_order,
                0,
                arguments,
                locals,
                context,
                frame,
                progress,
                empty_slots(arguments.len()),
            ) {
                (Ok(values), after) => {
                    if present(values) && call_fault(world.plan, flow, values.len(), frame) is None {
                        let called = world.plan.flows[flow];
                        lemma_run_flow(
                            world,
                            called,
                            taken(values),
                            context,
                            frame.calling(called.display_name),
                            after,
                            more,
                        );
                    }
                },
                _ => {},
            }
            match evaluate_listed(
                world,
                evaluation_order,
                0,
                arguments,
                locals,
                context,
                frame,
                longer(progress, more),
                empty_slots(arguments.len()),
            ) {
                (Ok(values), after) => {
                    if present(values) && call_fault(world.plan, flow, values.len(), frame) is None {
                        let called = world.plan.flows[flow];
                        lemma_run_flow(
                            world,
                            called,
                            taken(values),
                            context,
                            frame.calling(called.display_name),
                            after,
                            Seq::empty(),
                        );
                    }
                },
                _ => {},
            }
        },
        _ => {},
    }
}

proof fn lemma_evaluate_listed(
    world: WorldModel,
    order: Seq<int>,
    from: int,
    arguments: Seq<PlanExpressionModel>,
    locals: Seq<Option<ValueModel>>,
    context: ActiveContextModel,
    frame: FrameModel,
    progress: ProgressModel,
    values: Seq<Option<ValueModel>>,
    more: Seq<ReplyModel>,
)
    ensures
        steady(
            progress,
            evaluate_listed(
                world,
                order,
                from,
                arguments,
                locals,
                context,
                frame,
                progress,
                values,
            ),
            evaluate_listed(
                world,
                order,
                from,
                arguments,
                locals,
                context,
                frame,
                longer(progress, more),
                values,
            ),
            more,
        ),
    decreases depth(frame), arguments, order.len() - from,
{
    if 0 <= from < order.len() {
        if 0 <= order[from] < arguments.len() {
            lemma_evaluate(world, arguments[order[from]], locals, context, frame, progress, more);
            match evaluate(world, arguments[order[from]], locals, context, frame, progress) {
                (Ok(value), after) => {
                    lemma_evaluate_listed(
                        world,
                        order,
                        from + 1,
                        arguments,
                        locals,
                        context,
                        frame,
                        after,
                        stored(values, order[from], value),
                        more,
                    );
                },
                _ => {},
            }
            match evaluate(
                world,
                arguments[order[from]],
                locals,
                context,
                frame,
                longer(progress, more),
            ) {
                (Ok(value), after) => {
                    lemma_evaluate_listed(
                        world,
                        order,
                        from + 1,
                        arguments,
                        locals,
                        context,
                        frame,
                        after,
                        stored(values, order[from], value),
                        Seq::empty(),
                    );
                },
                _ => {},
            }
        } else {
            lemma_evaluate_listed(
                world,
                order,
                from + 1,
                arguments,
                locals,
                context,
                frame,
                progress,
                values,
                more,
            );
        }
    }
}

proof fn lemma_evaluate_operation(
    world: WorldModel,
    expression: PlanExpressionModel,
    locals: Seq<Option<ValueModel>>,
    context: ActiveContextModel,
    frame: FrameModel,
    progress: ProgressModel,
    more: Seq<ReplyModel>,
)
    requires
        expression.kind is CapabilityCall,
    ensures
        steady(
            progress,
            evaluate_operation(world, expression, locals, context, frame, progress),
            evaluate_operation(
                world,
                expression,
                locals,
                context,
                frame,
                longer(progress, more),
            ),
            more,
        ),
    decreases depth(frame), expression, 1int,
{
    match expression.kind {
        PlanExpressionKindModel::CapabilityCall {
            capability,
            operation,
            arguments,
            options,
            evaluation_order,
        } => {
            lemma_evaluate_mixed(
                world,
                expression.kind,
                0,
                locals,
                context,
                frame,
                progress,
                empty_slots(arguments.len()),
                empty_slots(options.len()),
                more,
            );
            match evaluate_mixed(
                world,
                expression.kind,
                0,
                locals,
                context,
                frame,
                progress,
                empty_slots(arguments.len()),
                empty_slots(options.len()),
            ) {
                (Ok((values, settings)), after) => {
                    if present(values) && present(settings) && 0 <= capability
                        < world.plan.capability_names.len() {
                        lemma_merged_options(
                            capability,
                            defaults_of(context, capability),
                            named_options(options, taken(settings), 0, Seq::empty()),
                            after,
                            more,
                        );
                        match merged_options(
                            capability,
                            defaults_of(context, capability),
                            named_options(options, taken(settings), 0, Seq::empty()),
                            after,
                        ) {
                            (Ok(effective), after) => {
                                lemma_invoked(
                                    capability,
                                    operation,
                                    taken(values),
                                    effective,
                                    expression.span,
                                    frame,
                                    after,
                                    more,
                                );
                            },
                            _ => {},
                        }
                        match merged_options(
                            capability,
                            defaults_of(context, capability),
                            named_options(options, taken(settings), 0, Seq::empty()),
                            longer(after, more),
                        ) {
                            (Ok(effective), after) => {
                                lemma_invoked(
                                    capability,
                                    operation,
                                    taken(values),
                                    effective,
                                    expression.span,
                                    frame,
                                    after,
                                    Seq::empty(),
                                );
                            },
                            _ => {},
                        }
                    }
                },
                _ => {},
            }
            match evaluate_mixed(
                world,
                expression.kind,
                0,
                locals,
                context,
                frame,
                longer(progress, more),
                empty_slots(arguments.len()),
                empty_slots(options.len()),
            ) {
                (Ok((values, settings)), after) => {
                    if present(values) && present(settings) && 0 <= capability
                        < world.plan.capability_names.len() {
                        lemma_merged_options(
                            capability,
                            defaults_of(context, capability),
                            named_options(options, taken(settings), 0, Seq::empty()),
                            after,
                            Seq::empty(),
                        );
                        match merged_options(
                            capability,
                            defaults_of(context, capability),
                            named_options(options, taken(settings), 0, Seq::empty()),
                            after,
                        ) {
                            (Ok(effective), after) => {
                                lemma_invoked(
                                    capability,
                                    operation,
                                    taken(values),
                                    effective,
                                    expression.span,
                                    frame,
                                    after,
                                    Seq::empty(),
                                );
                            },
                            _ => {},
                        }
                    }
                },
                _ => {},
            }
        },
        _ => {},
    }
}

proof fn lemma_evaluate_mixed(
    world: WorldModel,
    kind: PlanExpressionKindModel,
    from: int,
    locals: Seq<Option<ValueModel>>,
    context: ActiveContextModel,
    frame: FrameModel,
    progress: ProgressModel,
    values: Seq<Option<ValueModel>>,
    settings: Seq<Option<ValueModel>>,
    more: Seq<ReplyModel>,
)
    requires
        kind is CapabilityCall,
    ensures
        steady(
            progress,
            evaluate_mixed(
                world,
                kind,
                from,
                locals,
                context,
                frame,
                progress,
                values,
                settings,
            ),
            evaluate_mixed(
                world,
                kind,
                from,
                locals,
                context,
                frame,
                longer(progress, more),
                values,
                settings,
            ),
            more,
        ),
    decreases depth(frame), kind, order_length(kind) - from,
{
    match kind {
        PlanExpressionKindModel::CapabilityCall {
            capability,
            operation,
            arguments,
            options,
            evaluation_order,
        } => {
            if 0 <= from < evaluation_order.len() {
                match evaluation_order[from] {
                    CallEvaluation::Parameter(at) => {
                        if at < arguments.len() {
                            lemma_evaluate(
                                world,
                                arguments[at as int],
                                locals,
                                context,
                                frame,
                                progress,
                                more,
                            );
                            match evaluate(
                                world,
                                arguments[at as int],
                                locals,
                                context,
                                frame,
                                progress,
                            ) {
                                (Ok(value), after) => {
                                    lemma_evaluate_mixed(
                                        world,
                                        kind,
                                        from + 1,
                                        locals,
                                        context,
                                        frame,
                                        after,
                                        stored(values, at as int, value),
                                        settings,
                                        more,
                                    );
                                },
                                _ => {},
                            }
                            match evaluate(
                                world,
                                arguments[at as int],
                                locals,
                                context,
                                frame,
                                longer(progress, more),
                            ) {
                                (Ok(value), after) => {
                                    lemma_evaluate_mixed(
                                        world,
                                        kind,
                                        from + 1,
                                        locals,
                                        context,
                                        frame,
                                        after,
                                        stored(values, at as int, value),
                                        settings,
                                        Seq::empty(),
                                    );
                                },
                                _ => {},
                            }
                        } else {
                            lemma_evaluate_mixed(
                                world,
                                kind,
                                from + 1,
                                locals,
                                context,
                                frame,
                                progress,
                                values,
                                settings,
                                more,
                            );
                        }
                    },
                    CallEvaluation::Option(at) => {
                        if at < options.len() {
                            lemma_evaluate(
                                world,
                                options[at as int].expression,
                                locals,
                                context,
                                frame,
                                progress,
                                more,
                            );
                            match evaluate(
                                world,
                                options[at as int].expression,
                                locals,
                                context,
                                frame,
                                progress,
                            ) {
                                (Ok(value), after) => {
                                    lemma_evaluate_mixed(
                                        world,
                                        kind,
                                        from + 1,
                                        locals,
                                        context,
                                        frame,
                                        after,
                                        values,
                                        stored(settings, at as int, value),
                                        more,
                                    );
                                },
                                _ => {},
                            }
                            match evaluate(
                                world,
                                options[at as int].expression,
                                locals,
                                context,
                                frame,
                                longer(progress, more),
                            ) {
                                (Ok(value), after) => {
                                    lemma_evaluate_mixed(
                                        world,
                                        kind,
                                        from + 1,
                                        locals,
                                        context,
                                        frame,
                                        after,
                                        values,
                                        stored(settings, at as int, value),
                                        Seq::empty(),
                                    );
                                },
                                _ => {},
                            }
                        } else {
                            lemma_evaluate_mixed(
                                world,
                                kind,
                                from + 1,
                                locals,
                                context,
                                frame,
                                progress,
                                values,
                                settings,
                                more,
                            );
                        }
                    },
                }
            }
        },
        _ => {},
    }
}

proof fn lemma_evaluate_retry(
    world: WorldModel,
    expression: PlanExpressionModel,
    locals: Seq<Option<ValueModel>>,
    context: ActiveContextModel,
    frame: FrameModel,
    progress: ProgressModel,
    more: Seq<ReplyModel>,
)
    requires
        expression.kind is Retry,
    ensures
        steady(
            progress,
            evaluate_retry(world, expression, locals, context, frame, progress),
            evaluate_retry(
                world,
                expression,
                locals,
                context,
                frame,
                longer(progress, more),
            ),
            more,
        ),
    decreases depth(frame), expression, 1int,
{
    match expression.kind {
        PlanExpressionKindModel::Retry { attempts, delay, body } => {
            lemma_numbered(progress, more);
            match numbered(progress) {
                (Ok(invocation), after) => {
                    lemma_evaluate_attempts(
                        world,
                        *body,
                        0,
                        attempts,
                        delay,
                        invocation,
                        locals,
                        context,
                        frame,
                        after,
                        more,
                    );
                },
                _ => {},
            }
            match numbered(longer(progress, more)) {
                (Ok(invocation), after) => {
                    lemma_evaluate_attempts(
                        world,
                        *body,
                        0,
                        attempts,
                        delay,
                        invocation,
                        locals,
                        context,
                        frame,
                        after,
                        Seq::empty(),
                    );
                },
                _ => {},
            }
        },
        _ => {},
    }
}

proof fn lemma_evaluate_attempts(
    world: WorldModel,
    body: PlanExpressionModel,
    attempt: int,
    attempts: int,
    delay: Duration,
    invocation: u64,
    locals: Seq<Option<ValueModel>>,
    context: ActiveContextModel,
    frame: FrameModel,
    progress: ProgressModel,
    more: Seq<ReplyModel>,
)
    ensures
        steady(
            progress,
            evaluate_attempts(
                world,
                body,
                attempt,
                attempts,
                delay,
                invocation,
                locals,
                context,
                frame,
                progress,
            ),
            evaluate_attempts(
                world,
                body,
                attempt,
                attempts,
                delay,
                invocation,
                locals,
                context,
                frame,
                longer(progress, more),
            ),
            more,
        ),
    decreases depth(frame), body, attempts - attempt + 3,
{
    let inner = frame.within(
        ExecutionScope::Retry {
            invocation,
            attempt: (attempt + 1) as usize,
            total: attempts as usize,
        },
    );
    if attempt < attempts {
        lemma_evaluate(world, body, locals, context, inner, progress, more);
        match evaluate(world, body, locals, context, inner, progress) {
            (Err(StopModel::Failed(_)), after) => {
                if attempt + 1 < attempts {
                    if delay.nanos == 0 {
                        lemma_evaluate_attempts(
                            world,
                            body,
                            attempt + 1,
                            attempts,
                            delay,
                            invocation,
                            locals,
                            context,
                            frame,
                            after,
                            more,
                        );
                    } else {
                        lemma_acknowledged(RequestModel::Sleep(delay), after, more);
                        match acknowledged(RequestModel::Sleep(delay), after) {
                            (Ok(_), after) => {
                                lemma_evaluate_attempts(
                                    world,
                                    body,
                                    attempt + 1,
                                    attempts,
                                    delay,
                                    invocation,
                                    locals,
                                    context,
                                    frame,
                                    after,
                                    more,
                                );
                            },
                            _ => {},
                        }
                        match acknowledged(RequestModel::Sleep(delay), longer(after, more)) {
                            (Ok(_), after) => {
                                lemma_evaluate_attempts(
                                    world,
                                    body,
                                    attempt + 1,
                                    attempts,
                                    delay,
                                    invocation,
                                    locals,
                                    context,
                                    frame,
                                    after,
                                    Seq::empty(),
                                );
                            },
                            _ => {},
                        }
                    }
                }
            },
            _ => {},
        }
        match evaluate(world, body, locals, context, inner, longer(progress, more)) {
            (Err(StopModel::Failed(_)), after) => {
                if attempt + 1 < attempts {
                    if delay.nanos == 0 {
                        lemma_evaluate_attempts(
                            world,
                            body,
                            attempt + 1,
                            attempts,
                            delay,
                            invocation,
                            locals,
                            context,
                            frame,
                            after,
                            Seq::empty(),
                        );
                    } else {
                        lemma_acknowledged(RequestModel::Sleep(delay), after, Seq::empty());
                        match acknowledged(RequestModel::Sleep(delay), after) {
                            (Ok(_), after) => {
                                lemma_evaluate_attempts(
                                    world,
                                    body,
                                    attempt + 1,
                                    attempts,
                                    delay,
                                    invocation,
                                    locals,
                                    context,
                                    frame,
                                    after,
                                    Seq::empty(),
                                );
                            },
                            _ => {},
                        }
                    }
                }
            },
            _ => {},
        }
    }
}

proof fn lemma_run(
    world: WorldModel,
    instructions: Seq<InstructionModel>,
    from: int,
    collect: bool,
    context: ActiveContextModel,
    frame: FrameModel,
    state: RunModel,
    more: Seq<ReplyModel>,
)
    ensures
        steady_run(
            state,
            run(world, instructions, from, collect, context, frame, state),
            run(
                world,
                instructions,
                from,
                collect,
                context,
                frame,
                state.at(longer(state.progress, more)),
            ),
            more,
        ),
    decreases depth(frame), instructions, instructions.len() - from,
{
    if 0 <= from < instructions.len() {
        lemma_run_one(world, instructions[from], collect, context, frame, state, more);
        match run_one(world, instructions[from], collect, context, frame, state) {
            (Ok(None), after) => {
                lemma_run(world, instructions, from + 1, collect, context, frame, after, more);
            },
            _ => {},
        }
        let later = state.at(longer(state.progress, more));
        match run_one(world, instructions[from], collect, context, frame, later) {
            (Ok(None), after) => {
                lemma_run(
                    world,
                    instructions,
                    from + 1,
                    collect,
                    context,
                    frame,
                    after,
                    Seq::empty(),
                );
            },
            _ => {},
        }
    }
}

proof fn lemma_run_one(
    world: WorldModel,
    instruction: InstructionModel,
    collect: bool,
    context: ActiveContextModel,
    frame: FrameModel,
    state: RunModel,
    more: Seq<ReplyModel>,
)
    ensures
        steady_run(
            state,
            run_one(world, instruction, collect, context, frame, state),
            run_one(
                world,
                instruction,
                collect,
                context,
                frame,
                state.at(longer(state.progress, more)),
            ),
            more,
        ),
    decreases depth(frame), instruction, 1int,
{
    match instruction {
        InstructionModel::Echo { value, span } => {
            lemma_evaluate(world, value, state.locals, context, frame, state.progress, more);
            match evaluate(world, value, state.locals, context, frame, state.progress) {
                (Ok(value), after) => {
                    lemma_acknowledged(RequestModel::Echo { value, span, frame }, after, more);
                },
                _ => {},
            }
            match evaluate(
                world,
                value,
                state.locals,
                context,
                frame,
                longer(state.progress, more),
            ) {
                (Ok(value), after) => {
                    lemma_acknowledged(
                        RequestModel::Echo { value, span, frame },
                        after,
                        Seq::empty(),
                    );
                },
                _ => {},
            }
        },
        InstructionModel::Bind { slot, expression } => {
            lemma_evaluate(world, expression, state.locals, context, frame, state.progress, more);
        },
        InstructionModel::Evaluate(expression) => {
            lemma_evaluate(world, expression, state.locals, context, frame, state.progress, more);
        },
        InstructionModel::Return(expression) => {
            lemma_evaluate(world, expression, state.locals, context, frame, state.progress, more);
        },
        InstructionModel::Assert { condition, message } => {
            lemma_check_assertion(
                world,
                instruction,
                state.locals,
                context,
                frame,
                state.progress,
                more,
            );
        },
        InstructionModel::If { branches, else_body } => {
            lemma_choose_branch(
                world,
                branches,
                0,
                state.locals,
                context,
                frame,
                state.progress,
                more,
            );
            match choose_branch(
                world,
                branches,
                0,
                state.locals,
                context,
                frame,
                state.progress,
            ) {
                (Ok(chosen), after) => {
                    if 0 <= chosen < branches.len() {
                        lemma_run(
                            world,
                            branches[chosen].instructions,
                            0,
                            collect,
                            context,
                            frame,
                            state.at(after),
                            more,
                        );
                    } else {
                        match else_body {
                            Some(body) => {
                                lemma_run(
                                    world,
                                    body,
                                    0,
                                    collect,
                                    context,
                                    frame,
                                    state.at(after),
                                    more,
                                );
                            },
                            None => {},
                        }
                    }
                },
                _ => {},
            }
            match choose_branch(
                world,
                branches,
                0,
                state.locals,
                context,
                frame,
                longer(state.progress, more),
            ) {
                (Ok(chosen), after) => {
                    if 0 <= chosen < branches.len() {
                        lemma_run(
                            world,
                            branches[chosen].instructions,
                            0,
                            collect,
                            context,
                            frame,
                            state.at(after),
                            Seq::empty(),
                        );
                    } else {
                        match else_body {
                            Some(body) => {
                                lemma_run(
                                    world,
                                    body,
                                    0,
                                    collect,
                                    context,
                                    frame,
                                    state.at(after),
                                    Seq::empty(),
                                );
                            },
                            None => {},
                        }
                    }
                },
                _ => {},
            }
        },
    }
}

proof fn lemma_check_assertion(
    world: WorldModel,
    instruction: InstructionModel,
    locals: Seq<Option<ValueModel>>,
    context: ActiveContextModel,
    frame: FrameModel,
    progress: ProgressModel,
    more: Seq<ReplyModel>,
)
    requires
        instruction is Assert,
    ensures
        steady(
            progress,
            check_assertion(world, instruction, locals, context, frame, progress),
            check_assertion(
                world,
                instruction,
                locals,
                context,
                frame,
                longer(progress, more),
            ),
            more,
        ),
    decreases depth(frame), instruction, 0int,
{
    match instruction {
        InstructionModel::Assert { condition, message } => {
            lemma_evaluate(world, condition, locals, context, frame, progress, more);
            match evaluate(world, condition, locals, context, frame, progress) {
                (Ok(_), after) => {
                    match message {
                        Some(message) => {
                            lemma_evaluate(world, message, locals, context, frame, after, more);
                        },
                        None => {},
                    }
                },
                _ => {},
            }
            match evaluate(world, condition, locals, context, frame, longer(progress, more)) {
                (Ok(_), after) => {
                    match message {
                        Some(message) => {
                            lemma_evaluate(
                                world,
                                message,
                                locals,
                                context,
                                frame,
                                after,
                                Seq::empty(),
                            );
                        },
                        None => {},
                    }
                },
                _ => {},
            }
        },
        _ => {},
    }
}

proof fn lemma_choose_branch(
    world: WorldModel,
    branches: Seq<ConditionalBranchModel>,
    from: int,
    locals: Seq<Option<ValueModel>>,
    context: ActiveContextModel,
    frame: FrameModel,
    progress: ProgressModel,
    more: Seq<ReplyModel>,
)
    ensures
        steady(
            progress,
            choose_branch(world, branches, from, locals, context, frame, progress),
            choose_branch(
                world,
                branches,
                from,
                locals,
                context,
                frame,
                longer(progress, more),
            ),
            more,
        ),
    decreases depth(frame), branches, branches.len() - from,
{
    if 0 <= from < branches.len() {
        lemma_evaluate(world, branches[from].condition, locals, context, frame, progress, more);
        match evaluate(world, branches[from].condition, locals, context, frame, progress) {
            (Ok(_), after) => {
                lemma_choose_branch(world, branches, from + 1, locals, context, frame, after, more);
            },
            _ => {},
        }
        match evaluate(
            world,
            branches[from].condition,
            locals,
            context,
            frame,
            longer(progress, more),
        ) {
            (Ok(_), after) => {
                lemma_choose_branch(
                    world,
                    branches,
                    from + 1,
                    locals,
                    context,
                    frame,
                    after,
                    Seq::empty(),
                );
            },
            _ => {},
        }
    }
}

proof fn lemma_evaluate_block(
    world: WorldModel,
    expression: PlanExpressionModel,
    locals: Seq<Option<ValueModel>>,
    context: ActiveContextModel,
    frame: FrameModel,
    progress: ProgressModel,
    more: Seq<ReplyModel>,
)
    requires
        expression.kind is Block,
    ensures
        steady(
            progress,
            evaluate_block(world, expression, locals, context, frame, progress),
            evaluate_block(
                world,
                expression,
                locals,
                context,
                frame,
                longer(progress, more),
            ),
            more,
        ),
    decreases depth(frame), expression, 1int,
{
    match expression.kind {
        PlanExpressionKindModel::Block { instructions, local_count } => {
            let state = RunModel {
                locals: widened(locals, local_count),
                assertions: Seq::empty(),
                progress,
            };
            lemma_run(world, instructions, 0, false, context, frame, state, more);
        },
        _ => {},
    }
}

proof fn lemma_evaluate_loop(
    world: WorldModel,
    expression: PlanExpressionModel,
    locals: Seq<Option<ValueModel>>,
    context: ActiveContextModel,
    frame: FrameModel,
    progress: ProgressModel,
    more: Seq<ReplyModel>,
)
    requires
        expression.kind is For,
    ensures
        steady(
            progress,
            evaluate_loop(world, expression, locals, context, frame, progress),
            evaluate_loop(
                world,
                expression,
                locals,
                context,
                frame,
                longer(progress, more),
            ),
            more,
        ),
    decreases depth(frame), expression, 1int,
{
    match expression.kind {
        PlanExpressionKindModel::For {
            iterable,
            key_slot,
            value_slot,
            instructions,
            local_count,
            produces_value,
        } => {
            lemma_evaluate(world, *iterable, locals, context, frame, progress, more);
            match evaluate(world, *iterable, locals, context, frame, progress) {
                (Ok(value), after) => {
                    match items_of(value) {
                        Some(items) => {
                            lemma_evaluate_rounds(
                                world,
                                instructions,
                                items,
                                0,
                                key_slot,
                                value_slot,
                                local_count,
                                locals,
                                context,
                                frame,
                                after,
                                Seq::empty(),
                                more,
                            );
                        },
                        None => {},
                    }
                },
                _ => {},
            }
            match evaluate(world, *iterable, locals, context, frame, longer(progress, more)) {
                (Ok(value), after) => {
                    match items_of(value) {
                        Some(items) => {
                            lemma_evaluate_rounds(
                                world,
                                instructions,
                                items,
                                0,
                                key_slot,
                                value_slot,
                                local_count,
                                locals,
                                context,
                                frame,
                                after,
                                Seq::empty(),
                                Seq::empty(),
                            );
                        },
                        None => {},
                    }
                },
                _ => {},
            }
        },
        _ => {},
    }
}

proof fn lemma_evaluate_rounds(
    world: WorldModel,
    instructions: Seq<InstructionModel>,
    items: Seq<(ValueModel, ValueModel)>,
    from: int,
    key_slot: Option<int>,
    value_slot: int,
    count: int,
    locals: Seq<Option<ValueModel>>,
    context: ActiveContextModel,
    frame: FrameModel,
    progress: ProgressModel,
    done: Seq<ValueModel>,
    more: Seq<ReplyModel>,
)
    ensures
        steady(
            progress,
            evaluate_rounds(
                world,
                instructions,
                items,
                from,
                key_slot,
                value_slot,
                count,
                locals,
                context,
                frame,
                progress,
                done,
            ),
            evaluate_rounds(
                world,
                instructions,
                items,
                from,
                key_slot,
                value_slot,
                count,
                locals,
                context,
                frame,
                longer(progress, more),
                done,
            ),
            more,
        ),
    decreases depth(frame), instructions, instructions.len() + 1 + items.len() - from,
{
    if 0 <= from < items.len() {
        let state = RunModel {
            locals: round_locals(locals, count, key_slot, value_slot, items[from]),
            assertions: Seq::empty(),
            progress,
        };
        lemma_run(world, instructions, 0, false, context, frame, state, more);
        match run(world, instructions, 0, false, context, frame, state) {
            (Ok(value), after) => {
                let longer_done = match value {
                    Some(value) => done.push(value),
                    None => done,
                };
                lemma_evaluate_rounds(
                    world,
                    instructions,
                    items,
                    from + 1,
                    key_slot,
                    value_slot,
                    count,
                    locals,
                    context,
                    frame,
                    after.progress,
                    longer_done,
                    more,
                );
            },
            _ => {},
        }
        let later = state.at(longer(progress, more));
        match run(world, instructions, 0, false, context, frame, later) {
            (Ok(value), after) => {
                let longer_done = match value {
                    Some(value) => done.push(value),
                    None => done,
                };
                lemma_evaluate_rounds(
                    world,
                    instructions,
                    items,
                    from + 1,
                    key_slot,
                    value_slot,
                    count,
                    locals,
                    context,
                    frame,
                    after.progress,
                    longer_done,
                    Seq::empty(),
                );
            },
            _ => {},
        }
    }
}

proof fn lemma_run_flow(
    world: WorldModel,
    flow: MettlePlanModel,
    arguments: Seq<ValueModel>,
    context: ActiveContextModel,
    frame: FrameModel,
    progress: ProgressModel,
    more: Seq<ReplyModel>,
)
    ensures
        steady(
            progress,
            run_flow(world, flow, arguments, context, frame, progress),
            run_flow(world, flow, arguments, context, frame, longer(progress, more)),
            more,
        ),
    decreases depth(frame) + 4, None::<int>, 0int,
{
    let collect = flow.kind == DeclarationKind::Test;
    lemma_activate(world, flow.contexts, 0, context, frame, progress, more);
    match activate(world, flow.contexts, 0, context, frame, progress) {
        (Ok(active), after) => {
            let state = RunModel {
                locals: argument_locals(arguments, flow.local_count),
                assertions: Seq::empty(),
                progress: after,
            };
            lemma_run(world, flow.instructions, 0, collect, active, frame, state, more);
        },
        _ => {},
    }
    match activate(world, flow.contexts, 0, context, frame, longer(progress, more)) {
        (Ok(active), after) => {
            let state = RunModel {
                locals: argument_locals(arguments, flow.local_count),
                assertions: Seq::empty(),
                progress: after,
            };
            lemma_run(world, flow.instructions, 0, collect, active, frame, state, Seq::empty());
        },
        _ => {},
    }
}

proof fn lemma_activate(
    world: WorldModel,
    contexts: Seq<int>,
    from: int,
    active: ActiveContextModel,
    frame: FrameModel,
    progress: ProgressModel,
    more: Seq<ReplyModel>,
)
    ensures
        steady(
            progress,
            activate(world, contexts, from, active, frame, progress),
            activate(world, contexts, from, active, frame, longer(progress, more)),
            more,
        ),
    decreases depth(frame) + 3, None::<int>, contexts.len() - from,
{
    if 0 <= from < contexts.len() && 0 <= contexts[from] < world.plan.contexts.len() {
        lemma_apply_context(
            world,
            world.plan.contexts[contexts[from]],
            active,
            frame,
            progress,
            more,
        );
        match apply_context(
            world,
            world.plan.contexts[contexts[from]],
            active,
            frame,
            progress,
        ) {
            (Ok(applied), after) => {
                lemma_activate(world, contexts, from + 1, applied, frame, after, more);
            },
            _ => {},
        }
        match apply_context(
            world,
            world.plan.contexts[contexts[from]],
            active,
            frame,
            longer(progress, more),
        ) {
            (Ok(applied), after) => {
                lemma_activate(world, contexts, from + 1, applied, frame, after, Seq::empty());
            },
            _ => {},
        }
    }
}

proof fn lemma_apply_context(
    world: WorldModel,
    context: ContextPlanModel,
    inherited: ActiveContextModel,
    frame: FrameModel,
    progress: ProgressModel,
    more: Seq<ReplyModel>,
)
    ensures
        steady(
            progress,
            apply_context(world, context, inherited, frame, progress),
            apply_context(world, context, inherited, frame, longer(progress, more)),
            more,
        ),
    decreases depth(frame) + 2, None::<int>, 0int,
{
    let start = ActiveContextModel {
        values: Seq::empty(),
        defaults: resized(inherited.defaults, world.plan.capability_names.len()),
    };
    lemma_context_values(world, context.fields, 0, start, frame, progress, more);
    match context_values(world, context.fields, 0, start, frame, progress) {
        (Ok(active), after) => {
            lemma_context_defaults(world, context.defaults, 0, active, frame, after, more);
        },
        _ => {},
    }
    match context_values(world, context.fields, 0, start, frame, longer(progress, more)) {
        (Ok(active), after) => {
            lemma_context_defaults(world, context.defaults, 0, active, frame, after, Seq::empty());
        },
        _ => {},
    }
}

proof fn lemma_context_values(
    world: WorldModel,
    fields: Seq<PlanFieldModel>,
    from: int,
    active: ActiveContextModel,
    frame: FrameModel,
    progress: ProgressModel,
    more: Seq<ReplyModel>,
)
    ensures
        steady(
            progress,
            context_values(world, fields, from, active, frame, progress),
            context_values(world, fields, from, active, frame, longer(progress, more)),
            more,
        ),
    decreases depth(frame) + 1, None::<int>, fields.len() - from,
{
    if 0 <= from < fields.len() {
        lemma_evaluate(world, fields[from].expression, Seq::empty(), active, frame, progress, more);
        match evaluate(world, fields[from].expression, Seq::empty(), active, frame, progress) {
            (Ok(value), after) => {
                let longer_context = ActiveContextModel {
                    values: active.values.push(value),
                    ..active
                };
                lemma_context_values(world, fields, from + 1, longer_context, frame, after, more);
            },
            _ => {},
        }
        match evaluate(
            world,
            fields[from].expression,
            Seq::empty(),
            active,
            frame,
            longer(progress, more),
        ) {
            (Ok(value), after) => {
                let longer_context = ActiveContextModel {
                    values: active.values.push(value),
                    ..active
                };
                lemma_context_values(
                    world,
                    fields,
                    from + 1,
                    longer_context,
                    frame,
                    after,
                    Seq::empty(),
                );
            },
            _ => {},
        }
    }
}

proof fn lemma_context_defaults(
    world: WorldModel,
    defaults: Seq<CapabilityDefaultsModel>,
    from: int,
    active: ActiveContextModel,
    frame: FrameModel,
    progress: ProgressModel,
    more: Seq<ReplyModel>,
)
    ensures
        steady(
            progress,
            context_defaults(world, defaults, from, active, frame, progress),
            context_defaults(
                world,
                defaults,
                from,
                active,
                frame,
                longer(progress, more),
            ),
            more,
        ),
    decreases depth(frame) + 1, None::<int>, defaults.len() - from,
{
    if 0 <= from < defaults.len() {
        let capability = defaults[from].capability;
        lemma_evaluate_fields(
            world,
            defaults[from].fields,
            0,
            Seq::empty(),
            active,
            frame,
            progress,
            Seq::empty(),
            more,
        );
        match evaluate_fields(
            world,
            defaults[from].fields,
            0,
            Seq::empty(),
            active,
            frame,
            progress,
            Seq::empty(),
        ) {
            (Ok(values), after) => {
                if 0 <= capability < active.defaults.len() {
                    lemma_merged_options(
                        capability,
                        active.defaults[capability],
                        values,
                        after,
                        more,
                    );
                    match merged_options(
                        capability,
                        active.defaults[capability],
                        values,
                        after,
                    ) {
                        (Ok(entries), after) => {
                            let wider = ActiveContextModel {
                                defaults: active.defaults.update(capability, entries),
                                ..active
                            };
                            lemma_context_defaults(
                                world,
                                defaults,
                                from + 1,
                                wider,
                                frame,
                                after,
                                more,
                            );
                        },
                        _ => {},
                    }
                    match merged_options(
                        capability,
                        active.defaults[capability],
                        values,
                        longer(after, more),
                    ) {
                        (Ok(entries), after) => {
                            let wider = ActiveContextModel {
                                defaults: active.defaults.update(capability, entries),
                                ..active
                            };
                            lemma_context_defaults(
                                world,
                                defaults,
                                from + 1,
                                wider,
                                frame,
                                after,
                                Seq::empty(),
                            );
                        },
                        _ => {},
                    }
                }
            },
            _ => {},
        }
        match evaluate_fields(
            world,
            defaults[from].fields,
            0,
            Seq::empty(),
            active,
            frame,
            longer(progress, more),
            Seq::empty(),
        ) {
            (Ok(values), after) => {
                if 0 <= capability < active.defaults.len() {
                    lemma_merged_options(
                        capability,
                        active.defaults[capability],
                        values,
                        after,
                        Seq::empty(),
                    );
                    match merged_options(
                        capability,
                        active.defaults[capability],
                        values,
                        after,
                    ) {
                        (Ok(entries), after) => {
                            let wider = ActiveContextModel {
                                defaults: active.defaults.update(capability, entries),
                                ..active
                            };
                            lemma_context_defaults(
                                world,
                                defaults,
                                from + 1,
                                wider,
                                frame,
                                after,
                                Seq::empty(),
                            );
                        },
                        _ => {},
                    }
                }
            },
            _ => {},
        }
    }
}

/// How far an execution is before it got a reply.
spec fn begun(replies: Seq<ReplyModel>, secrets: Seq<Seq<char>>) -> ProgressModel {
    ProgressModel { replies, at: 0, secrets }
}

proof fn lemma_execute(
    world: WorldModel,
    flow: int,
    arguments: Seq<ValueModel>,
    replies: Seq<ReplyModel>,
    more: Seq<ReplyModel>,
)
    ensures
        steady(
            begun(replies, Seq::empty()),
            execute(world, flow, arguments, replies),
            execute(world, flow, arguments, replies + more),
            more,
        ),
{
    if call_fault(world.plan, flow, arguments.len(), first_frame()) is None {
        let called = world.plan.flows[flow];
        lemma_run_flow(
            world,
            called,
            arguments,
            no_context(),
            first_frame().calling(called.display_name),
            begun(replies, Seq::empty()),
            more,
        );
    }
}

proof fn lemma_perform(
    world: WorldModel,
    task: TaskModel,
    replies: Seq<ReplyModel>,
    more: Seq<ReplyModel>,
)
    ensures
        steady(
            begun(replies, task.secrets),
            perform(world, task, replies),
            perform(world, task, replies + more),
            more,
        ),
{
    lemma_evaluate(
        world,
        task.expression,
        task.locals,
        task.context,
        task.frame,
        begun(replies, task.secrets),
        more,
    );
}

/// The outcome of a flow is final: replies that come later do not change it.
pub proof fn law_outcome_is_final(
    world: WorldModel,
    flow: int,
    arguments: Seq<ValueModel>,
    replies: Seq<ReplyModel>,
    more: Seq<ReplyModel>,
)
    requires
        !(execute(world, flow, arguments, replies).0 matches Err(StopModel::Waiting(_))),
    ensures
        execute(world, flow, arguments, replies + more).0 == execute(
            world,
            flow,
            arguments,
            replies,
        ).0,
{
    lemma_execute(world, flow, arguments, replies, more);
}

/// A flow waits only for what it was not told, and goes on once it is told:
/// where all replies are used, the answer to the request is used too.
pub proof fn law_answers_are_used(
    world: WorldModel,
    flow: int,
    arguments: Seq<ValueModel>,
    replies: Seq<ReplyModel>,
    reply: ReplyModel,
)
    ensures
        execute(world, flow, arguments, replies) matches (
            Err(StopModel::Waiting(request)),
            after,
        ) ==> {
            &&& lacks(after, request)
            &&& after.at == replies.len() && answers(request, reply) ==> execute(
                world,
                flow,
                arguments,
                replies.push(reply),
            ).1.at > after.at
        },
{
    let more = seq![reply];
    lemma_execute(world, flow, arguments, replies, more);
    assert(replies + more =~= replies.push(reply));
}

/// The outcome of a task is final too.
pub proof fn law_task_outcome_is_final(
    world: WorldModel,
    task: TaskModel,
    replies: Seq<ReplyModel>,
    more: Seq<ReplyModel>,
)
    requires
        !(perform(world, task, replies).0 matches Err(StopModel::Waiting(_))),
    ensures
        perform(world, task, replies + more).0 == perform(world, task, replies).0,
{
    lemma_perform(world, task, replies, more);
}

/// A task waits only for what it was not told, and goes on once it is told.
pub proof fn law_task_answers_are_used(
    world: WorldModel,
    task: TaskModel,
    replies: Seq<ReplyModel>,
    reply: ReplyModel,
)
    ensures
        perform(world, task, replies) matches (Err(StopModel::Waiting(request)), after) ==> {
            &&& lacks(after, request)
            &&& after.at == replies.len() && answers(request, reply) ==> perform(
                world,
                task,
                replies.push(reply),
            ).1.at > after.at
        },
{
    let more = seq![reply];
    lemma_perform(world, task, replies, more);
    assert(replies + more =~= replies.push(reply));
}

/// What is once known to be secret stays known.
pub proof fn law_secrets_stay_known(world: WorldModel, task: TaskModel, replies: Seq<ReplyModel>)
    ensures
        all_kept(task.secrets, perform(world, task, replies).1.secrets),
{
    lemma_perform(world, task, replies, Seq::empty());
}

} // verus!
