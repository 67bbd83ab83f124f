//! What a flow does when it runs: the value it comes to, the error it stops
//! with, or the request that it waits for.
//!
//! An execution is a function of the replies that it got so far. Where a reply
//! is missing it stops with the request, and goes on once the reply is there.

use vstd::prelude::*;

use crate::duration::Duration;
use crate::plan::{
    CallEvaluation, CapabilityDefaultsModel, ConditionalBranchModel, ConstantModel,
    ContextPlanModel, ExecutionPlanModel, InstructionModel, MettlePlanModel, PlanBranchModel,
    PlanExpressionKindModel, PlanExpressionModel, PlanFieldModel, StringPartModel,
};
use crate::redaction::{cleared, joined_secrets};
use crate::syntax::{BinaryOperator, DeclarationKind, ErrorModel, Span};
use crate::text::{decimal, signed_decimal};
use crate::timing::duration_text;
use crate::value::{
    comparison, entry_texts, inserted, kind_name, listed_texts, lookup, shown, EntryModel,
    ValueModel,
};

verus! {

// ---------------------------------------------------------------------------
// Executions

/// How deep flows may call each other.
pub const MAX_CALL_DEPTH: usize = 1024;

/// Which attempt or branch an execution belongs to.
#[derive(Clone, Copy, Debug, PartialEq, Eq, Structural)]
pub enum ExecutionScope {
    Retry { invocation: u64, attempt: usize, total: usize },
    Parallel { invocation: u64, branch: usize, total: usize },
}

/// An assertion of a test that did not hold.
pub struct FailureModel {
    pub message: Seq<char>,
    pub span: Span,
}

pub struct RuntimeErrorModel {
    pub message: Seq<char>,
    pub span: Span,
    pub flow_stack: Seq<Seq<char>>,
    pub scope_path: Seq<ExecutionScope>,
    pub assertions: Seq<FailureModel>,
    pub assertion_only: bool,
}

impl RuntimeErrorModel {
    /// The error with assertions that had failed before it.
    pub open spec fn after(self, assertions: Seq<FailureModel>) -> RuntimeErrorModel {
        RuntimeErrorModel { assertions: self.assertions + assertions, ..self }
    }
}

/// The context of a running flow: its values and the defaults of each
/// capability.
pub struct ActiveContextModel {
    pub values: Seq<ValueModel>,
    pub defaults: Seq<Seq<EntryModel>>,
}

pub open spec fn no_context() -> ActiveContextModel {
    ActiveContextModel { values: Seq::empty(), defaults: Seq::empty() }
}

/// Where in an execution something happens.
pub struct FrameModel {
    pub flow_stack: Seq<Seq<char>>,
    pub scope_path: Seq<ExecutionScope>,
    pub inside_workload: bool,
}

impl FrameModel {
    pub open spec fn calling(self, name: Seq<char>) -> FrameModel {
        FrameModel { flow_stack: self.flow_stack.push(name), ..self }
    }

    pub open spec fn within(self, scope: ExecutionScope) -> FrameModel {
        FrameModel { scope_path: self.scope_path.push(scope), ..self }
    }

    pub open spec fn loaded(self) -> FrameModel {
        FrameModel { inside_workload: true, ..self }
    }
}

/// Work that runs on its own.
pub struct TaskModel {
    pub expression: PlanExpressionModel,
    pub locals: Seq<Option<ValueModel>>,
    pub context: ActiveContextModel,
    pub frame: FrameModel,
    pub secrets: Seq<Seq<char>>,
}

/// What an execution asks for.
#[allow(inconsistent_fields)]
pub enum RequestModel {
    /// A number that no other scope has.
    Number,
    /// That a value is shown.
    Echo { value: ValueModel, span: Span, frame: FrameModel },
    /// That the result of an operation is reported.
    Report {
        capability: int,
        operation: int,
        result: Result<ValueModel, Seq<char>>,
        span: Span,
        frame: FrameModel,
    },
    /// The options of a capability with others laid over them.
    Merge { capability: int, target: Seq<EntryModel>, overrides: Seq<EntryModel> },
    /// The result of an operation.
    Invoke {
        capability: int,
        operation: int,
        arguments: Seq<ValueModel>,
        options: Seq<EntryModel>,
        span: Span,
    },
    Sleep(Duration),
    /// The result of the task, unless the time is over first.
    Within { timeout: Duration, task: TaskModel },
    /// The results of the tasks, with no more than `limit` at a time.
    Parallel { limit: int, invocation: u64, tasks: Seq<TaskModel> },
    Rate { target: int, period: Duration, duration: Duration, limit: int, task: TaskModel },
    Concurrency { limit: int, duration: Duration, task: TaskModel },
}

/// What an execution is told.
#[allow(inconsistent_fields)]
pub enum ReplyModel {
    Done,
    Number(u64),
    Merged(Seq<EntryModel>),
    Invoked(Result<ValueModel, ErrorModel>),
    /// How a task went, or that its time was over.
    Ended { result: Option<Result<ValueModel, RuntimeErrorModel>>, secrets: Seq<Seq<char>> },
    Joined(Result<Seq<ValueModel>, RuntimeErrorModel>),
    Measured(ValueModel),
}

/// Why an execution does not come to a value.
pub enum StopModel {
    Failed(RuntimeErrorModel),
    Waiting(RequestModel),
}

/// How far an execution is.
pub struct ProgressModel {
    pub replies: Seq<ReplyModel>,
    pub at: int,
    pub secrets: Seq<Seq<char>>,
}

impl ProgressModel {
    pub open spec fn reply(self) -> Option<ReplyModel> {
        if 0 <= self.at < self.replies.len() {
            Some(self.replies[self.at])
        } else {
            None
        }
    }

    pub open spec fn advanced(self) -> ProgressModel {
        ProgressModel { at: self.at + 1, ..self }
    }

    pub open spec fn knowing(self, secrets: Seq<Seq<char>>) -> ProgressModel {
        ProgressModel { secrets, ..self }
    }
}

/// What stays the same while a program runs.
pub struct WorldModel {
    pub plan: ExecutionPlanModel,
    pub environment: Seq<(Seq<char>, Seq<char>)>,
}

pub type Evaluated = (Result<ValueModel, StopModel>, ProgressModel);

/// An error of this place, without the secrets that are known here.
pub open spec fn error_at(
    message: Seq<char>,
    span: Span,
    frame: FrameModel,
    progress: ProgressModel,
) -> RuntimeErrorModel {
    RuntimeErrorModel {
        message: cleared(message, progress.secrets, progress.secrets.len() as int),
        span,
        flow_stack: frame.flow_stack,
        scope_path: frame.scope_path,
        assertions: Seq::empty(),
        assertion_only: false,
    }
}

pub open spec fn failed(
    message: Seq<char>,
    span: Span,
    frame: FrameModel,
    progress: ProgressModel,
) -> StopModel {
    StopModel::Failed(error_at(message, span, frame, progress))
}

/// Asks for something that is only acknowledged.
pub open spec fn acknowledged(request: RequestModel, progress: ProgressModel) -> (
    Result<(), StopModel>,
    ProgressModel,
) {
    match progress.reply() {
        Some(ReplyModel::Done) => (Ok(()), progress.advanced()),
        _ => (Err(StopModel::Waiting(request)), progress),
    }
}

pub open spec fn numbered(progress: ProgressModel) -> (Result<u64, StopModel>, ProgressModel) {
    match progress.reply() {
        Some(ReplyModel::Number(number)) => (Ok(number), progress.advanced()),
        _ => (Err(StopModel::Waiting(RequestModel::Number)), progress),
    }
}

pub open spec fn merged_options(
    capability: int,
    target: Seq<EntryModel>,
    overrides: Seq<EntryModel>,
    progress: ProgressModel,
) -> (Result<Seq<EntryModel>, StopModel>, ProgressModel) {
    match progress.reply() {
        Some(ReplyModel::Merged(entries)) => (Ok(entries), progress.advanced()),
        _ => (
            Err(StopModel::Waiting(RequestModel::Merge { capability, target, overrides })),
            progress,
        ),
    }
}

// ---------------------------------------------------------------------------
// Values

pub open spec fn constant_value(constant: ConstantModel) -> ValueModel {
    match constant {
        ConstantModel::Null => ValueModel::Null,
        ConstantModel::Boolean(value) => ValueModel::Boolean(value),
        ConstantModel::Integer(value) => ValueModel::Integer(value),
        ConstantModel::Float(value) => ValueModel::Float(value),
        ConstantModel::String(value) => ValueModel::String(value),
        ConstantModel::DurationNanos(value) => ValueModel::Duration(
            Duration { nanos: value as u128 },
        ),
    }
}

/// The value of an environment variable, from `from` on.
pub open spec fn variable(
    environment: Seq<(Seq<char>, Seq<char>)>,
    name: Seq<char>,
    from: int,
) -> Option<Seq<char>>
    decreases environment.len() - from,
{
    if from < 0 || from >= environment.len() {
        None
    } else if environment[from].0 == name {
        Some(environment[from].1)
    } else {
        variable(environment, name, from + 1)
    }
}

/// A value that is as sensitive as what it was read from.
pub open spec fn marked(value: ValueModel, sensitive: bool) -> ValueModel {
    if sensitive {
        value.sensitive()
    } else {
        value
    }
}

pub open spec fn member_of(value: ValueModel, member: Seq<char>) -> Result<ValueModel, Seq<char>> {
    match value.revealed() {
        ValueModel::Object(entries) => match lookup(entries, member) {
            Some(found) => Ok(marked(found, value is Sensitive)),
            None => Err("object has no member `"@ + member + "`"@),
        },
        _ => Err("cannot read member `"@ + member + "` from "@ + kind_name(value)),
    }
}

pub open spec fn element_of(value: ValueModel, index: ValueModel) -> Result<ValueModel, Seq<char>> {
    match value.revealed() {
        ValueModel::Object(entries) => match index.revealed() {
            ValueModel::String(key) => match lookup(entries, key) {
                Some(found) => Ok(found),
                None => Err("object has no member `"@ + key + "`"@),
            },
            _ => Err("object index must be a string, found "@ + kind_name(index)),
        },
        ValueModel::Array(values) => match index.revealed() {
            ValueModel::Integer(position) => if position < 0 {
                Err("array index "@ + signed_decimal(position as int) + " must be non-negative"@)
            } else if position < values.len() {
                Ok(values[position as int])
            } else {
                Err("array index "@ + signed_decimal(position as int) + " is out of range"@)
            },
            _ => Err("array index must be an integer, found "@ + kind_name(index)),
        },
        _ => Err("cannot index "@ + kind_name(value)),
    }
}

pub open spec fn indexed(value: ValueModel, index: ValueModel) -> Result<ValueModel, Seq<char>> {
    match element_of(value, index) {
        Ok(found) => Ok(marked(found, value is Sensitive || index is Sensitive)),
        Err(message) => Err(message),
    }
}

pub open spec fn negated(value: ValueModel) -> Result<ValueModel, Seq<char>> {
    match value.revealed() {
        ValueModel::Boolean(value) => Ok(ValueModel::Boolean(!value)),
        _ => Err("`not` requires boolean, found "@ + kind_name(value)),
    }
}

/// The number with the other sign.
pub open spec fn opposite(value: ValueModel) -> Result<ValueModel, Seq<char>> {
    match value.revealed() {
        ValueModel::Integer(number) => if number == i64::MIN {
            Err("integer overflow in `-`"@)
        } else {
            Ok(marked(ValueModel::Integer((-number) as i64), value is Sensitive))
        },
        ValueModel::Float(number) => Ok(
            marked(ValueModel::Float(number.flipped()), value is Sensitive),
        ),
        _ => Err("`-` requires a number, found "@ + kind_name(value)),
    }
}

/// The truth of an operand of `and` and `or`.
pub open spec fn truth_of(value: ValueModel) -> Result<bool, Seq<char>> {
    match value.revealed() {
        ValueModel::Boolean(truth) => Ok(truth),
        _ => Err("logical operator requires boolean, found "@ + kind_name(value)),
    }
}

/// A message that a program gives; a sensitive one is not shown.
pub open spec fn message_of(value: ValueModel) -> Option<Seq<char>> {
    match value.revealed() {
        ValueModel::String(text) => Some(
            if value is Sensitive {
                "[REDACTED]"@
            } else {
                text
            },
        ),
        _ => None,
    }
}

/// Locals in a frame of another size.
pub open spec fn widened(locals: Seq<Option<ValueModel>>, count: int) -> Seq<Option<ValueModel>> {
    Seq::new(
        count as nat,
        |i: int|
            if i < locals.len() {
                locals[i]
            } else {
                None
            },
    )
}

pub open spec fn stored(
    locals: Seq<Option<ValueModel>>,
    slot: int,
    value: ValueModel,
) -> Seq<Option<ValueModel>> {
    if 0 <= slot < locals.len() {
        locals.update(slot, Some(value))
    } else {
        locals
    }
}

pub open spec fn count_value(count: int) -> ValueModel {
    ValueModel::Integer(
        if count <= i64::MAX {
            count as i64
        } else {
            i64::MAX
        },
    )
}

/// What a loop goes over: each key with its value.
pub open spec fn items_of(value: ValueModel) -> Option<Seq<(ValueModel, ValueModel)>> {
    match value.revealed() {
        ValueModel::Array(values) => Some(
            Seq::new(
                values.len(),
                |i: int| (count_value(i), marked(values[i], value is Sensitive)),
            ),
        ),
        ValueModel::Object(entries) => Some(
            Seq::new(
                entries.len(),
                |i: int|
                    (
                        ValueModel::String(entries[i].name),
                        marked(entries[i].value, value is Sensitive),
                    ),
            ),
        ),
        _ => None,
    }
}

pub open spec fn present(slots: Seq<Option<ValueModel>>) -> bool {
    forall|i: int| 0 <= i < slots.len() ==> (#[trigger] slots[i]) is Some
}

pub open spec fn taken(slots: Seq<Option<ValueModel>>) -> Seq<ValueModel> {
    Seq::new(slots.len(), |i: int| slots[i]->0)
}

pub open spec fn empty_slots(count: nat) -> Seq<Option<ValueModel>> {
    Seq::new(count, |i: int| None)
}

/// The options by name, from `from` on.
pub open spec fn named_options(
    fields: Seq<PlanFieldModel>,
    values: Seq<ValueModel>,
    from: int,
    done: Seq<EntryModel>,
) -> Seq<EntryModel>
    decreases fields.len() - from,
{
    if from < 0 || from >= fields.len() {
        done
    } else {
        named_options(
            fields,
            values,
            from + 1,
            inserted(done, fields[from].name, values[from]),
        )
    }
}

/// The values of branches by name, from `from` on.
pub open spec fn named_branches(
    branches: Seq<PlanBranchModel>,
    values: Seq<ValueModel>,
    from: int,
    done: Seq<EntryModel>,
) -> Seq<EntryModel>
    decreases branches.len() - from,
{
    if from < 0 || from >= branches.len() {
        done
    } else {
        named_branches(
            branches,
            values,
            from + 1,
            match branches[from].name {
                Some(name) => inserted(done, name, values[from]),
                None => done,
            },
        )
    }
}

pub open spec fn branches_named(branches: Seq<PlanBranchModel>) -> bool {
    &&& branches.len() > 0
    &&& forall|i: int| 0 <= i < branches.len() ==> (#[trigger] branches[i]).name is Some
}

/// What the values of all branches make up.
pub open spec fn joined_branches(
    branches: Seq<PlanBranchModel>,
    values: Seq<ValueModel>,
) -> ValueModel {
    if branches_named(branches) {
        ValueModel::Object(named_branches(branches, values, 0, Seq::empty()))
    } else {
        ValueModel::Array(values)
    }
}

/// One defaults object for each capability.
pub open spec fn resized(defaults: Seq<Seq<EntryModel>>, count: nat) -> Seq<Seq<EntryModel>> {
    Seq::new(
        count,
        |i: int|
            if i < defaults.len() {
                defaults[i]
            } else {
                Seq::empty()
            },
    )
}

pub open spec fn defaults_of(context: ActiveContextModel, capability: int) -> Seq<EntryModel> {
    if 0 <= capability < context.defaults.len() {
        context.defaults[capability]
    } else {
        Seq::empty()
    }
}

/// The tasks of parallel branches.
pub open spec fn branch_tasks(
    branches: Seq<PlanBranchModel>,
    invocation: u64,
    locals: Seq<Option<ValueModel>>,
    context: ActiveContextModel,
    frame: FrameModel,
    secrets: Seq<Seq<char>>,
) -> Seq<TaskModel> {
    Seq::new(
        branches.len(),
        |i: int|
            TaskModel {
                expression: branches[i].expression,
                locals,
                context,
                frame: frame.within(
                    ExecutionScope::Parallel {
                        invocation,
                        branch: (i + 1) as usize,
                        total: branches.len() as usize,
                    },
                ),
                secrets,
            },
    )
}

// ---------------------------------------------------------------------------
// Expressions

/// How much deeper calls may go.
pub open spec fn depth(frame: FrameModel) -> int {
    if frame.flow_stack.len() <= MAX_CALL_DEPTH {
        8 * (MAX_CALL_DEPTH - frame.flow_stack.len())
    } else {
        0
    }
}

pub open spec fn evaluate(
    world: WorldModel,
    expression: PlanExpressionModel,
    locals: Seq<Option<ValueModel>>,
    context: ActiveContextModel,
    frame: FrameModel,
    progress: ProgressModel,
) -> Evaluated
    decreases depth(frame), expression, 2int,
{
    let span = expression.span;
    match expression.kind {
        PlanExpressionKindModel::Constant(constant) => (Ok(constant_value(constant)), progress),
        PlanExpressionKindModel::Local(slot) => if 0 <= slot < locals.len()
            && locals[slot] is Some {
            (Ok(locals[slot]->0), progress)
        } else {
            (
                Err(
                    failed(
                        "execution plan read an uninitialized local value"@,
                        span,
                        frame,
                        progress,
                    ),
                ),
                progress,
            )
        },
        PlanExpressionKindModel::Context(slot) => if 0 <= slot < context.values.len() {
            (Ok(context.values[slot]), progress)
        } else {
            (
                Err(
                    failed(
                        "execution plan read an uninitialized context value"@,
                        span,
                        frame,
                        progress,
                    ),
                ),
                progress,
            )
        },
        PlanExpressionKindModel::Environment(name) => match variable(world.environment, name, 0) {
            Some(value) => (Ok(ValueModel::String(value)), progress),
            None => (
                Err(
                    failed(
                        "required environment variable `"@ + name + "` is not set"@,
                        span,
                        frame,
                        progress,
                    ),
                ),
                progress,
            ),
        },
        PlanExpressionKindModel::Array(values) => {
            let (result, after) = evaluate_list(
                world,
                values,
                0,
                locals,
                context,
                frame,
                progress,
                Seq::empty(),
            );
            match result {
                Ok(items) => (Ok(ValueModel::Array(items)), after),
                Err(stop) => (Err(stop), after),
            }
        },
        PlanExpressionKindModel::Object(fields) => {
            let (result, after) = evaluate_fields(
                world,
                fields,
                0,
                locals,
                context,
                frame,
                progress,
                Seq::empty(),
            );
            match result {
                Ok(entries) => (Ok(ValueModel::Object(entries)), after),
                Err(stop) => (Err(stop), after),
            }
        },
        PlanExpressionKindModel::Sensitive(_) => evaluate_unary(
            world,
            expression,
            locals,
            context,
            frame,
            progress,
        ),
        PlanExpressionKindModel::Member { value, member } => evaluate_unary(
            world,
            expression,
            locals,
            context,
            frame,
            progress,
        ),
        PlanExpressionKindModel::Not(_) => evaluate_unary(
            world,
            expression,
            locals,
            context,
            frame,
            progress,
        ),
        PlanExpressionKindModel::Negate(_) => evaluate_unary(
            world,
            expression,
            locals,
            context,
            frame,
            progress,
        ),
        PlanExpressionKindModel::Fail(_) => evaluate_unary(
            world,
            expression,
            locals,
            context,
            frame,
            progress,
        ),
        PlanExpressionKindModel::Index { value, index } => evaluate_index(
            world,
            expression,
            locals,
            context,
            frame,
            progress,
        ),
        PlanExpressionKindModel::Binary { left, operator, right } => evaluate_operator(
            world,
            expression,
            locals,
            context,
            frame,
            progress,
        ),
        PlanExpressionKindModel::InterpolatedString(parts) => {
            let (result, after) = evaluate_parts(
                world,
                parts,
                0,
                locals,
                context,
                frame,
                progress,
                Seq::empty(),
                false,
            );
            match result {
                Ok((text, sensitive)) => (Ok(marked(ValueModel::String(text), sensitive)), after),
                Err(stop) => (Err(stop), after),
            }
        },
        PlanExpressionKindModel::Block { instructions, local_count } => evaluate_block(
            world,
            expression,
            locals,
            context,
            frame,
            progress,
        ),
        PlanExpressionKindModel::For {
            iterable,
            key_slot,
            value_slot,
            instructions,
            local_count,
            produces_value,
        } => evaluate_loop(world, expression, locals, context, frame, progress),
        PlanExpressionKindModel::MettleCall { flow, arguments, evaluation_order } => evaluate_call(
            world,
            expression,
            locals,
            context,
            frame,
            progress,
        ),
        PlanExpressionKindModel::CapabilityCall {
            capability,
            operation,
            arguments,
            options,
            evaluation_order,
        } => evaluate_operation(world, expression, locals, context, frame, progress),
        PlanExpressionKindModel::Retry { attempts, delay, body } => evaluate_retry(
            world,
            expression,
            locals,
            context,
            frame,
            progress,
        ),
        PlanExpressionKindModel::Within { timeout, body } => wait_within(
            timeout,
            TaskModel { expression: *body, locals, context, frame, secrets: progress.secrets },
            span,
            frame,
            progress,
        ),
        PlanExpressionKindModel::Parallel { limit, branches } => wait_parallel(
            limit,
            branches,
            locals,
            context,
            frame,
            progress,
        ),
        PlanExpressionKindModel::Rate { target, period, duration, limit, body } => wait_measured(
            RequestModel::Rate {
                target,
                period,
                duration,
                limit,
                task: TaskModel {
                    expression: *body,
                    locals,
                    context,
                    frame: frame.loaded(),
                    secrets: progress.secrets,
                },
            },
            progress,
        ),
        PlanExpressionKindModel::Concurrency { limit, duration, body } => wait_measured(
            RequestModel::Concurrency {
                limit,
                duration,
                task: TaskModel {
                    expression: *body,
                    locals,
                    context,
                    frame: frame.loaded(),
                    secrets: progress.secrets,
                },
            },
            progress,
        ),
    }
}

/// The values of the expressions from `from` on, behind `done`.
pub open spec fn evaluate_list(
    world: WorldModel,
    values: Seq<PlanExpressionModel>,
    from: int,
    locals: Seq<Option<ValueModel>>,
    context: ActiveContextModel,
    frame: FrameModel,
    progress: ProgressModel,
    done: Seq<ValueModel>,
) -> (Result<Seq<ValueModel>, StopModel>, ProgressModel)
    decreases depth(frame), values, values.len() - from,
{
    if from < 0 || from >= values.len() {
        (Ok(done), progress)
    } else {
        match evaluate(world, values[from], locals, context, frame, progress) {
            (Err(stop), after) => (Err(stop), after),
            (Ok(value), after) => evaluate_list(
                world,
                values,
                from + 1,
                locals,
                context,
                frame,
                after,
                done.push(value),
            ),
        }
    }
}

/// The values of the fields from `from` on, laid over `done`.
pub open spec fn evaluate_fields(
    world: WorldModel,
    fields: Seq<PlanFieldModel>,
    from: int,
    locals: Seq<Option<ValueModel>>,
    context: ActiveContextModel,
    frame: FrameModel,
    progress: ProgressModel,
    done: Seq<EntryModel>,
) -> (Result<Seq<EntryModel>, StopModel>, ProgressModel)
    decreases depth(frame), fields, fields.len() - from,
{
    if from < 0 || from >= fields.len() {
        (Ok(done), progress)
    } else {
        match evaluate(world, fields[from].expression, locals, context, frame, progress) {
            (Err(stop), after) => (Err(stop), after),
            (Ok(value), after) => evaluate_fields(
                world,
                fields,
                from + 1,
                locals,
                context,
                frame,
                after,
                inserted(done, fields[from].name, value),
            ),
        }
    }
}

/// The operand of an expression with one, and what becomes of its value.
pub open spec fn operand(kind: PlanExpressionKindModel) -> PlanExpressionModel {
    match kind {
        PlanExpressionKindModel::Sensitive(value) => *value,
        PlanExpressionKindModel::Member { value, member } => *value,
        PlanExpressionKindModel::Not(value) => *value,
        PlanExpressionKindModel::Negate(value) => *value,
        PlanExpressionKindModel::Fail(value) => *value,
        _ => arbitrary(),
    }
}

pub open spec fn applied(kind: PlanExpressionKindModel, value: ValueModel) -> Result<
    ValueModel,
    Seq<char>,
> {
    match kind {
        PlanExpressionKindModel::Sensitive(_) => Ok(value.sensitive()),
        PlanExpressionKindModel::Member { value: _, member } => member_of(value, member),
        PlanExpressionKindModel::Not(_) => negated(value),
        PlanExpressionKindModel::Negate(_) => opposite(value),
        _ => match message_of(value) {
            Some(message) => Err(message),
            None => Err("fail message produced a non-string value"@),
        },
    }
}

pub open spec fn is_unary(kind: PlanExpressionKindModel) -> bool {
    kind is Sensitive || kind is Member || kind is Not || kind is Negate || kind is Fail
}

pub open spec fn evaluate_unary(
    world: WorldModel,
    expression: PlanExpressionModel,
    locals: Seq<Option<ValueModel>>,
    context: ActiveContextModel,
    frame: FrameModel,
    progress: ProgressModel,
) -> Evaluated
    decreases depth(frame), expression, 1int,
{
    if !is_unary(expression.kind) {
        arbitrary()
    } else {
        match evaluate(world, operand(expression.kind), locals, context, frame, progress) {
            (Err(stop), after) => (Err(stop), after),
            (Ok(value), after) => match applied(expression.kind, value) {
                Ok(result) => (Ok(result), after),
                Err(message) => (Err(failed(message, expression.span, frame, after)), after),
            },
        }
    }
}

pub open spec fn evaluate_index(
    world: WorldModel,
    expression: PlanExpressionModel,
    locals: Seq<Option<ValueModel>>,
    context: ActiveContextModel,
    frame: FrameModel,
    progress: ProgressModel,
) -> Evaluated
    decreases depth(frame), expression, 1int,
{
    match expression.kind {
        PlanExpressionKindModel::Index { value, index } => match evaluate(
            world,
            *value,
            locals,
            context,
            frame,
            progress,
        ) {
            (Err(stop), after) => (Err(stop), after),
            (Ok(value), after) => match evaluate(world, *index, locals, context, frame, after) {
                (Err(stop), last) => (Err(stop), last),
                (Ok(index), last) => match indexed(value, index) {
                    Ok(result) => (Ok(result), last),
                    Err(message) => (Err(failed(message, expression.span, frame, last)), last),
                },
            },
        },
        _ => arbitrary(),
    }
}

pub open spec fn evaluate_operator(
    world: WorldModel,
    expression: PlanExpressionModel,
    locals: Seq<Option<ValueModel>>,
    context: ActiveContextModel,
    frame: FrameModel,
    progress: ProgressModel,
) -> Evaluated
    decreases depth(frame), expression, 1int,
{
    let span = expression.span;
    match expression.kind {
        PlanExpressionKindModel::Binary { left, operator, right } => match evaluate(
            world,
            *left,
            locals,
            context,
            frame,
            progress,
        ) {
            (Err(stop), after) => (Err(stop), after),
            (Ok(first), after) => if operator == BinaryOperator::And || operator
                == BinaryOperator::Or {
                match truth_of(first) {
                    Err(message) => (Err(failed(message, span, frame, after)), after),
                    Ok(truth) => if truth == (operator == BinaryOperator::Or) {
                        (Ok(ValueModel::Boolean(truth)), after)
                    } else {
                        match evaluate(world, *right, locals, context, frame, after) {
                            (Err(stop), last) => (Err(stop), last),
                            (Ok(second), last) => match truth_of(second) {
                                Ok(truth) => (Ok(ValueModel::Boolean(truth)), last),
                                Err(message) => (Err(failed(message, span, frame, last)), last),
                            },
                        }
                    },
                }
            } else {
                match evaluate(world, *right, locals, context, frame, after) {
                    (Err(stop), last) => (Err(stop), last),
                    (Ok(second), last) => match comparison(first, operator, second) {
                        Ok(truth) => (Ok(ValueModel::Boolean(truth)), last),
                        Err(message) => (Err(failed(message, span, frame, last)), last),
                    },
                }
            },
        },
        _ => arbitrary(),
    }
}

/// The text of the parts from `from` on, behind `done`, and whether any of it
/// is sensitive.
pub open spec fn evaluate_parts(
    world: WorldModel,
    parts: Seq<StringPartModel>,
    from: int,
    locals: Seq<Option<ValueModel>>,
    context: ActiveContextModel,
    frame: FrameModel,
    progress: ProgressModel,
    done: Seq<char>,
    sensitive: bool,
) -> (Result<(Seq<char>, bool), StopModel>, ProgressModel)
    decreases depth(frame), parts, parts.len() - from,
{
    if from < 0 || from >= parts.len() {
        (Ok((done, sensitive)), progress)
    } else {
        match parts[from] {
            StringPartModel::Text(text) => evaluate_parts(
                world,
                parts,
                from + 1,
                locals,
                context,
                frame,
                progress,
                done + text,
                sensitive,
            ),
            StringPartModel::Value(expression) => match evaluate(
                world,
                expression,
                locals,
                context,
                frame,
                progress,
            ) {
                (Err(stop), after) => (Err(stop), after),
                (Ok(value), after) => evaluate_parts(
                    world,
                    parts,
                    from + 1,
                    locals,
                    context,
                    frame,
                    after,
                    done + shown(value, true),
                    sensitive || value.contains_sensitive(),
                ),
            },
        }
    }
}

// ---------------------------------------------------------------------------
// Calls

pub open spec fn incomplete(span: Span, frame: FrameModel, progress: ProgressModel) -> StopModel {
    failed("execution plan leaves an argument without a value"@, span, frame, progress)
}

/// Why a flow cannot be called here.
pub open spec fn call_fault(
    plan: ExecutionPlanModel,
    flow: int,
    count: nat,
    frame: FrameModel,
) -> Option<
    Seq<char>,
> {
    if frame.flow_stack.len() >= MAX_CALL_DEPTH {
        Some("maximum flow call depth exceeded"@)
    } else if !(0 <= flow < plan.flows.len()) {
        Some("execution plan references an unknown flow"@)
    } else if count != plan.flows[flow].parameters.len() {
        Some(
            "execution plan passed "@ + decimal(count) + " argument(s) to `"@
                + plan.flows[flow].display_name + "`, which expects "@ + decimal(
                plan.flows[flow].parameters.len(),
            ),
        )
    } else {
        None
    }
}

pub open spec fn nowhere() -> Span {
    Span { source: 0, start: 0, end: 0 }
}

pub open spec fn evaluate_call(
    world: WorldModel,
    expression: PlanExpressionModel,
    locals: Seq<Option<ValueModel>>,
    context: ActiveContextModel,
    frame: FrameModel,
    progress: ProgressModel,
) -> Evaluated
    decreases depth(frame), expression, 1int,
{
    match expression.kind {
        PlanExpressionKindModel::MettleCall { flow, arguments, evaluation_order } =>
            match evaluate_listed(
                world,
                evaluation_order,
                0,
                arguments,
                locals,
                context,
                frame,
                progress,
                empty_slots(arguments.len()),
            ) {
                (Err(stop), after) => (Err(stop), after),
                (Ok(values), after) => if !present(values) {
                    (Err(incomplete(expression.span, frame, after)), after)
                } else {
                    match call_fault(world.plan, flow, values.len(), frame) {
                        Some(message) => (Err(failed(message, nowhere(), frame, after)), after),
                        None => run_flow(
                            world,
                            world.plan.flows[flow],
                            taken(values),
                            context,
                            frame.calling(world.plan.flows[flow].display_name),
                            after,
                        ),
                    }
                },
            },
        _ => arbitrary(),
    }
}

/// The values of arguments, evaluated in the order from `from` on.
pub open spec fn evaluate_listed(
    world: WorldModel,
    order: Seq<int>,
    from: int,
    arguments: Seq<PlanExpressionModel>,
    locals: Seq<Option<ValueModel>>,
    context: ActiveContextModel,
    frame: FrameModel,
    progress: ProgressModel,
    values: Seq<Option<ValueModel>>,
) -> (Result<Seq<Option<ValueModel>>, StopModel>, ProgressModel)
    decreases depth(frame), arguments, order.len() - from,
{
    if from < 0 || from >= order.len() {
        (Ok(values), progress)
    } else if 0 <= order[from] < arguments.len() {
        match evaluate(world, arguments[order[from]], locals, context, frame, progress) {
            (Err(stop), after) => (Err(stop), after),
            (Ok(value), after) => evaluate_listed(
                world,
                order,
                from + 1,
                arguments,
                locals,
                context,
                frame,
                after,
                stored(values, order[from], value),
            ),
        }
    } else {
        evaluate_listed(
            world,
            order,
            from + 1,
            arguments,
            locals,
            context,
            frame,
            progress,
            values,
        )
    }
}

/// The secrets in the arguments and options of an operation.
pub open spec fn operation_secrets(
    secrets: Seq<Seq<char>>,
    arguments: Seq<ValueModel>,
    options: Seq<EntryModel>,
) -> Seq<Seq<char>> {
    joined_secrets(
        secrets,
        listed_texts(arguments, 0, false) + entry_texts(options, 0, false),
        0,
    )
}

/// What follows once an operation has a result.
pub open spec fn reported(
    capability: int,
    operation: int,
    result: Result<ValueModel, ErrorModel>,
    span: Span,
    frame: FrameModel,
    progress: ProgressModel,
) -> Evaluated {
    let (outcome, shown) = match result {
        Ok(value) => (Ok(value), Ok(value)),
        Err(error) => {
            let failure = error_at(error.message, error.span, frame, progress);
            (Err(StopModel::Failed(failure)), Err(failure.message))
        },
    };
    if frame.inside_workload {
        (outcome, progress)
    } else {
        match acknowledged(
            RequestModel::Report { capability, operation, result: shown, span, frame },
            progress,
        ) {
            (Ok(_), after) => (outcome, after),
            (Err(stop), after) => (Err(stop), after),
        }
    }
}

/// Asks for the result of an operation.
pub open spec fn invoked(
    capability: int,
    operation: int,
    arguments: Seq<ValueModel>,
    options: Seq<EntryModel>,
    span: Span,
    frame: FrameModel,
    progress: ProgressModel,
) -> Evaluated {
    let known = progress.knowing(operation_secrets(progress.secrets, arguments, options));
    match known.reply() {
        Some(ReplyModel::Invoked(result)) => reported(
            capability,
            operation,
            result,
            span,
            frame,
            known.advanced(),
        ),
        _ => (
            Err(
                StopModel::Waiting(
                    RequestModel::Invoke { capability, operation, arguments, options, span },
                ),
            ),
            known,
        ),
    }
}

pub open spec fn evaluate_operation(
    world: WorldModel,
    expression: PlanExpressionModel,
    locals: Seq<Option<ValueModel>>,
    context: ActiveContextModel,
    frame: FrameModel,
    progress: ProgressModel,
) -> Evaluated
    decreases depth(frame), expression, 1int,
{
    let span = expression.span;
    match expression.kind {
        PlanExpressionKindModel::CapabilityCall {
            capability,
            operation,
            arguments,
            options,
            evaluation_order,
        } => match evaluate_mixed(
            world,
            expression.kind,
            0,
            locals,
            context,
            frame,
            progress,
            empty_slots(arguments.len()),
            empty_slots(options.len()),
        ) {
            (Err(stop), after) => (Err(stop), after),
            (Ok((values, settings)), after) => if !present(values) || !present(settings) {
                (Err(incomplete(span, frame, after)), after)
            } else if !(0 <= capability < world.plan.capability_names.len()) {
                (
                    Err(
                        failed(
                            "execution plan references an unknown capability"@,
                            span,
                            frame,
                            after,
                        ),
                    ),
                    after,
                )
            } else {
                match merged_options(
                    capability,
                    defaults_of(context, capability),
                    named_options(options, taken(settings), 0, Seq::empty()),
                    after,
                ) {
                    (Err(stop), last) => (Err(stop), last),
                    (Ok(effective), last) => invoked(
                        capability,
                        operation,
                        taken(values),
                        effective,
                        span,
                        frame,
                        last,
                    ),
                }
            },
        },
        _ => arbitrary(),
    }
}

pub open spec fn order_length(kind: PlanExpressionKindModel) -> int {
    match kind {
        PlanExpressionKindModel::CapabilityCall {
            capability,
            operation,
            arguments,
            options,
            evaluation_order,
        } => evaluation_order.len() as int,
        _ => 0,
    }
}

/// The values of the arguments and options of an operation, evaluated in its
/// order from `from` on.
pub open spec fn evaluate_mixed(
    world: WorldModel,
    kind: PlanExpressionKindModel,
    from: int,
    locals: Seq<Option<ValueModel>>,
    context: ActiveContextModel,
    frame: FrameModel,
    progress: ProgressModel,
    values: Seq<Option<ValueModel>>,
    settings: Seq<Option<ValueModel>>,
) -> (Result<(Seq<Option<ValueModel>>, Seq<Option<ValueModel>>), StopModel>, ProgressModel)
    decreases depth(frame), kind, order_length(kind) - from,
{
    match kind {
        PlanExpressionKindModel::CapabilityCall {
            capability,
            operation,
            arguments,
            options,
            evaluation_order,
        } => if from < 0 || from >= evaluation_order.len() {
            (Ok((values, settings)), progress)
        } else {
            match evaluation_order[from] {
                CallEvaluation::Parameter(at) => if at < arguments.len() {
                    match evaluate(
                        world,
                        arguments[at as int],
                        locals,
                        context,
                        frame,
                        progress,
                    ) {
                        (Err(stop), after) => (Err(stop), after),
                        (Ok(value), after) => evaluate_mixed(
                            world,
                            kind,
                            from + 1,
                            locals,
                            context,
                            frame,
                            after,
                            stored(values, at as int, value),
                            settings,
                        ),
                    }
                } else {
                    evaluate_mixed(
                        world,
                        kind,
                        from + 1,
                        locals,
                        context,
                        frame,
                        progress,
                        values,
                        settings,
                    )
                },
                CallEvaluation::Option(at) => if at < options.len() {
                    match evaluate(
                        world,
                        options[at as int].expression,
                        locals,
                        context,
                        frame,
                        progress,
                    ) {
                        (Err(stop), after) => (Err(stop), after),
                        (Ok(value), after) => evaluate_mixed(
                            world,
                            kind,
                            from + 1,
                            locals,
                            context,
                            frame,
                            after,
                            values,
                            stored(settings, at as int, value),
                        ),
                    }
                } else {
                    evaluate_mixed(
                        world,
                        kind,
                        from + 1,
                        locals,
                        context,
                        frame,
                        progress,
                        values,
                        settings,
                    )
                },
            }
        },
        _ => arbitrary(),
    }
}

// ---------------------------------------------------------------------------
// Policies

/// Waits for a task or the end of its time.
pub open spec fn wait_within(
    timeout: Duration,
    task: TaskModel,
    span: Span,
    frame: FrameModel,
    progress: ProgressModel,
) -> Evaluated {
    match progress.reply() {
        Some(ReplyModel::Ended { result, secrets }) => {
            let after = progress.advanced().knowing(
                joined_secrets(progress.secrets, secrets, 0),
            );
            match result {
                Some(Ok(value)) => (Ok(value), after),
                Some(Err(error)) => (Err(StopModel::Failed(error)), after),
                None => (
                    Err(
                        failed(
                            "deadline exceeded after "@ + duration_text(timeout),
                            span,
                            frame,
                            progress,
                        ),
                    ),
                    after,
                ),
            }
        },
        _ => (Err(StopModel::Waiting(RequestModel::Within { timeout, task })), progress),
    }
}

/// Waits for all branches, or for the first that fails.
pub open spec fn wait_parallel(
    limit: int,
    branches: Seq<PlanBranchModel>,
    locals: Seq<Option<ValueModel>>,
    context: ActiveContextModel,
    frame: FrameModel,
    progress: ProgressModel,
) -> Evaluated {
    match numbered(progress) {
        (Err(stop), after) => (Err(stop), after),
        (Ok(invocation), after) => {
            let request = RequestModel::Parallel {
                limit,
                invocation,
                tasks: branch_tasks(
                    branches,
                    invocation,
                    locals,
                    context,
                    frame,
                    progress.secrets,
                ),
            };
            match after.reply() {
                Some(ReplyModel::Joined(Ok(values))) => if values.len() == branches.len() {
                    (Ok(joined_branches(branches, values)), after.advanced())
                } else {
                    (Err(StopModel::Waiting(request)), after)
                },
                Some(ReplyModel::Joined(Err(error))) => (
                    Err(StopModel::Failed(error)),
                    after.advanced(),
                ),
                _ => (Err(StopModel::Waiting(request)), after),
            }
        },
    }
}

/// Waits for the measurements of a workload.
pub open spec fn wait_measured(request: RequestModel, progress: ProgressModel) -> Evaluated {
    match progress.reply() {
        Some(ReplyModel::Measured(value)) => (Ok(value), progress.advanced()),
        _ => (Err(StopModel::Waiting(request)), progress),
    }
}

/// The error of the last attempt.
pub open spec fn exhausted(attempts: int, error: RuntimeErrorModel) -> RuntimeErrorModel {
    RuntimeErrorModel {
        message: "retry exhausted after "@ + decimal(attempts as nat) + " attempts: "@
            + error.message,
        ..error
    }
}

pub open spec fn evaluate_retry(
    world: WorldModel,
    expression: PlanExpressionModel,
    locals: Seq<Option<ValueModel>>,
    context: ActiveContextModel,
    frame: FrameModel,
    progress: ProgressModel,
) -> Evaluated
    decreases depth(frame), expression, 1int,
{
    match expression.kind {
        PlanExpressionKindModel::Retry { attempts, delay, body } => match numbered(progress) {
            (Err(stop), after) => (Err(stop), after),
            (Ok(invocation), after) => evaluate_attempts(
                world,
                *body,
                0,
                attempts,
                delay,
                invocation,
                locals,
                context,
                frame,
                after,
            ),
        },
        _ => arbitrary(),
    }
}

/// Tries the body from attempt `attempt` on, counted from 0.
pub open spec fn evaluate_attempts(
    world: WorldModel,
    body: PlanExpressionModel,
    attempt: int,
    attempts: int,
    delay: Duration,
    invocation: u64,
    locals: Seq<Option<ValueModel>>,
    context: ActiveContextModel,
    frame: FrameModel,
    progress: ProgressModel,
) -> Evaluated
    decreases depth(frame), body, attempts - attempt + 3,
{
    let inner = frame.within(
        ExecutionScope::Retry {
            invocation,
            attempt: (attempt + 1) as usize,
            total: attempts as usize,
        },
    );
    if attempt >= attempts {
        (
            Err(
                failed(
                    "execution plan retries without an attempt"@,
                    body.span,
                    frame,
                    progress,
                ),
            ),
            progress,
        )
    } else {
        match evaluate(world, body, locals, context, inner, progress) {
            (Ok(value), after) => (Ok(value), after),
            (Err(StopModel::Waiting(request)), after) => (Err(StopModel::Waiting(request)), after),
            (Err(StopModel::Failed(error)), after) => if attempt + 1 >= attempts {
                (Err(StopModel::Failed(exhausted(attempts, error))), after)
            } else if delay.nanos == 0 {
                evaluate_attempts(
                    world,
                    body,
                    attempt + 1,
                    attempts,
                    delay,
                    invocation,
                    locals,
                    context,
                    frame,
                    after,
                )
            } else {
                match acknowledged(RequestModel::Sleep(delay), after) {
                    (Err(stop), last) => (Err(stop), last),
                    (Ok(_), last) => evaluate_attempts(
                        world,
                        body,
                        attempt + 1,
                        attempts,
                        delay,
                        invocation,
                        locals,
                        context,
                        frame,
                        last,
                    ),
                }
            },
        }
    }
}

// ---------------------------------------------------------------------------
// Instructions

/// How far a row of instructions is.
pub struct RunModel {
    pub locals: Seq<Option<ValueModel>>,
    pub assertions: Seq<FailureModel>,
    pub progress: ProgressModel,
}

impl RunModel {
    pub open spec fn at(self, progress: ProgressModel) -> RunModel {
        RunModel { progress, ..self }
    }

    pub open spec fn storing(self, slot: int, value: ValueModel) -> RunModel {
        RunModel { locals: stored(self.locals, slot, value), ..self }
    }

    pub open spec fn noting(self, failure: FailureModel) -> RunModel {
        RunModel { assertions: self.assertions.push(failure), ..self }
    }
}

pub type Ran = (Result<Option<ValueModel>, StopModel>, RunModel);

/// A stop with the assertions that had failed before it.
pub open spec fn stopped(stop: StopModel, assertions: Seq<FailureModel>) -> StopModel {
    match stop {
        StopModel::Failed(error) => StopModel::Failed(error.after(assertions)),
        StopModel::Waiting(request) => StopModel::Waiting(request),
    }
}

/// Runs the instructions from `from` on; the value that they return, if any.
pub open spec fn run(
    world: WorldModel,
    instructions: Seq<InstructionModel>,
    from: int,
    collect: bool,
    context: ActiveContextModel,
    frame: FrameModel,
    state: RunModel,
) -> Ran
    decreases depth(frame), instructions, instructions.len() - from,
{
    if from < 0 || from >= instructions.len() {
        (Ok(None), state)
    } else {
        match run_one(world, instructions[from], collect, context, frame, state) {
            (Ok(None), after) => run(
                world,
                instructions,
                from + 1,
                collect,
                context,
                frame,
                after,
            ),
            (result, after) => (result, after),
        }
    }
}

pub open spec fn run_one(
    world: WorldModel,
    instruction: InstructionModel,
    collect: bool,
    context: ActiveContextModel,
    frame: FrameModel,
    state: RunModel,
) -> Ran
    decreases depth(frame), instruction, 1int,
{
    match instruction {
        InstructionModel::Echo { value, span } => match evaluate(
            world,
            value,
            state.locals,
            context,
            frame,
            state.progress,
        ) {
            (Err(stop), after) => (Err(stopped(stop, state.assertions)), state.at(after)),
            (Ok(value), after) => match acknowledged(
                RequestModel::Echo { value, span, frame },
                after,
            ) {
                (Err(stop), last) => (Err(stop), state.at(last)),
                (Ok(_), last) => (Ok(None), state.at(last)),
            },
        },
        InstructionModel::Bind { slot, expression } => match evaluate(
            world,
            expression,
            state.locals,
            context,
            frame,
            state.progress,
        ) {
            (Err(stop), after) => (Err(stopped(stop, state.assertions)), state.at(after)),
            (Ok(value), after) => if 0 <= slot < state.locals.len() {
                (Ok(None), state.at(after).storing(slot, value))
            } else {
                (
                    Err(
                        stopped(
                            failed(
                                "execution plan references an invalid local slot"@,
                                expression.span,
                                frame,
                                after,
                            ),
                            state.assertions,
                        ),
                    ),
                    state.at(after),
                )
            },
        },
        InstructionModel::Evaluate(expression) => match evaluate(
            world,
            expression,
            state.locals,
            context,
            frame,
            state.progress,
        ) {
            (Err(stop), after) => (Err(stopped(stop, state.assertions)), state.at(after)),
            (Ok(_), after) => (Ok(None), state.at(after)),
        },
        InstructionModel::Return(expression) => match evaluate(
            world,
            expression,
            state.locals,
            context,
            frame,
            state.progress,
        ) {
            (Err(stop), after) => (Err(stopped(stop, state.assertions)), state.at(after)),
            (Ok(value), after) => (Ok(Some(value)), state.at(after)),
        },
        InstructionModel::Assert { condition, message } => match check_assertion(
            world,
            instruction,
            state.locals,
            context,
            frame,
            state.progress,
        ) {
            (Err(stop), after) => (Err(stopped(stop, state.assertions)), state.at(after)),
            (Ok(None), after) => (Ok(None), state.at(after)),
            (Ok(Some(error)), after) => if collect {
                (
                    Ok(None),
                    state.at(after).noting(
                        FailureModel { message: error.message, span: error.span },
                    ),
                )
            } else {
                (Err(stopped(StopModel::Failed(error), state.assertions)), state.at(after))
            },
        },
        InstructionModel::If { branches, else_body } => match choose_branch(
            world,
            branches,
            0,
            state.locals,
            context,
            frame,
            state.progress,
        ) {
            (Err(stop), after) => (Err(stopped(stop, state.assertions)), state.at(after)),
            (Ok(chosen), after) => if 0 <= chosen < branches.len() {
                run(
                    world,
                    branches[chosen].instructions,
                    0,
                    collect,
                    context,
                    frame,
                    state.at(after),
                )
            } else {
                match else_body {
                    Some(body) => run(world, body, 0, collect, context, frame, state.at(after)),
                    None => (Ok(None), state.at(after)),
                }
            },
        },
    }
}

/// Whether an assertion holds; if not, the error that says so.
pub open spec fn check_assertion(
    world: WorldModel,
    instruction: InstructionModel,
    locals: Seq<Option<ValueModel>>,
    context: ActiveContextModel,
    frame: FrameModel,
    progress: ProgressModel,
) -> (Result<Option<RuntimeErrorModel>, StopModel>, ProgressModel)
    decreases depth(frame), instruction, 0int,
{
    match instruction {
        InstructionModel::Assert { condition, message } => match evaluate(
            world,
            condition,
            locals,
            context,
            frame,
            progress,
        ) {
            (Err(stop), after) => (Err(stop), after),
            (Ok(value), after) => match value.revealed() {
                ValueModel::Boolean(true) => (Ok(None), after),
                ValueModel::Boolean(false) => match message {
                    None => (
                        Ok(Some(error_at("assertion failed"@, condition.span, frame, after))),
                        after,
                    ),
                    Some(message) => match evaluate(
                        world,
                        message,
                        locals,
                        context,
                        frame,
                        after,
                    ) {
                        (Err(stop), last) => (Err(stop), last),
                        (Ok(text), last) => match message_of(text) {
                            Some(words) => (
                                Ok(Some(error_at(words, condition.span, frame, last))),
                                last,
                            ),
                            None => (
                                Err(
                                    failed(
                                        "assertion message produced a non-string value"@,
                                        message.span,
                                        frame,
                                        last,
                                    ),
                                ),
                                last,
                            ),
                        },
                    },
                },
                _ => (
                    Err(
                        failed(
                            "assertion produced "@ + kind_name(value) + ", expected boolean"@,
                            condition.span,
                            frame,
                            after,
                        ),
                    ),
                    after,
                ),
            },
        },
        _ => arbitrary(),
    }
}

/// The first branch from `from` on whose condition holds, or their number.
pub open spec fn choose_branch(
    world: WorldModel,
    branches: Seq<ConditionalBranchModel>,
    from: int,
    locals: Seq<Option<ValueModel>>,
    context: ActiveContextModel,
    frame: FrameModel,
    progress: ProgressModel,
) -> (Result<int, StopModel>, ProgressModel)
    decreases depth(frame), branches, branches.len() - from,
{
    if from < 0 || from >= branches.len() {
        (Ok(branches.len() as int), progress)
    } else {
        let condition = branches[from].condition;
        match evaluate(world, condition, locals, context, frame, progress) {
            (Err(stop), after) => (Err(stop), after),
            (Ok(value), after) => match value.revealed() {
                ValueModel::Boolean(true) => (Ok(from), after),
                ValueModel::Boolean(false) => choose_branch(
                    world,
                    branches,
                    from + 1,
                    locals,
                    context,
                    frame,
                    after,
                ),
                _ => (
                    Err(
                        failed(
                            "if condition produced "@ + kind_name(value) + ", expected boolean"@,
                            condition.span,
                            frame,
                            after,
                        ),
                    ),
                    after,
                ),
            },
        }
    }
}

pub open spec fn evaluate_block(
    world: WorldModel,
    expression: PlanExpressionModel,
    locals: Seq<Option<ValueModel>>,
    context: ActiveContextModel,
    frame: FrameModel,
    progress: ProgressModel,
) -> Evaluated
    decreases depth(frame), expression, 1int,
{
    match expression.kind {
        PlanExpressionKindModel::Block { instructions, local_count } => match run(
            world,
            instructions,
            0,
            false,
            context,
            frame,
            RunModel {
                locals: widened(locals, local_count),
                assertions: Seq::empty(),
                progress,
            },
        ) {
            (Err(stop), after) => (Err(stop), after.progress),
            (Ok(Some(value)), after) => (Ok(value), after.progress),
            (Ok(None), after) => (
                Err(
                    failed(
                        "value block completed without a value"@,
                        expression.span,
                        frame,
                        after.progress,
                    ),
                ),
                after.progress,
            ),
        },
        _ => arbitrary(),
    }
}

/// The locals of one round of a loop.
pub open spec fn round_locals(
    locals: Seq<Option<ValueModel>>,
    count: int,
    key_slot: Option<int>,
    value_slot: int,
    item: (ValueModel, ValueModel),
) -> Seq<Option<ValueModel>> {
    let wide = widened(locals, count);
    let keyed = match key_slot {
        Some(slot) => stored(wide, slot, item.0),
        None => wide,
    };
    stored(keyed, value_slot, item.1)
}

pub open spec fn evaluate_loop(
    world: WorldModel,
    expression: PlanExpressionModel,
    locals: Seq<Option<ValueModel>>,
    context: ActiveContextModel,
    frame: FrameModel,
    progress: ProgressModel,
) -> Evaluated
    decreases depth(frame), expression, 1int,
{
    match expression.kind {
        PlanExpressionKindModel::For {
            iterable,
            key_slot,
            value_slot,
            instructions,
            local_count,
            produces_value,
        } => match evaluate(world, *iterable, locals, context, frame, progress) {
            (Err(stop), after) => (Err(stop), after),
            (Ok(value), after) => match items_of(value) {
                None => (
                    Err(
                        failed(
                            "`for` requires an array or object, found "@ + kind_name(value),
                            iterable.span,
                            frame,
                            after,
                        ),
                    ),
                    after,
                ),
                Some(items) => match evaluate_rounds(
                    world,
                    instructions,
                    items,
                    0,
                    key_slot,
                    value_slot,
                    local_count,
                    locals,
                    context,
                    frame,
                    after,
                    Seq::empty(),
                ) {
                    (Err(stop), last) => (Err(stop), last),
                    (Ok(values), last) => (
                        Ok(
                            if produces_value {
                                ValueModel::Array(values)
                            } else {
                                ValueModel::Null
                            },
                        ),
                        last,
                    ),
                },
            },
        },
        _ => arbitrary(),
    }
}

/// The values of the rounds of a loop from item `from` on, behind `done`.
pub open spec fn evaluate_rounds(
    world: WorldModel,
    instructions: Seq<InstructionModel>,
    items: Seq<(ValueModel, ValueModel)>,
    from: int,
    key_slot: Option<int>,
    value_slot: int,
    count: int,
    locals: Seq<Option<ValueModel>>,
    context: ActiveContextModel,
    frame: FrameModel,
    progress: ProgressModel,
    done: Seq<ValueModel>,
) -> (Result<Seq<ValueModel>, StopModel>, ProgressModel)
    decreases depth(frame), instructions, instructions.len() + 1 + items.len() - from,
{
    if from < 0 || from >= items.len() {
        (Ok(done), progress)
    } else {
        match run(
            world,
            instructions,
            0,
            false,
            context,
            frame,
            RunModel {
                locals: round_locals(locals, count, key_slot, value_slot, items[from]),
                assertions: Seq::empty(),
                progress,
            },
        ) {
            (Err(stop), after) => (Err(stop), after.progress),
            (Ok(value), after) => evaluate_rounds(
                world,
                instructions,
                items,
                from + 1,
                key_slot,
                value_slot,
                count,
                locals,
                context,
                frame,
                after.progress,
                match value {
                    Some(value) => done.push(value),
                    None => done,
                },
            ),
        }
    }
}

// ---------------------------------------------------------------------------
// Flows

pub type Activated = (Result<ActiveContextModel, StopModel>, ProgressModel);

pub open spec fn argument_locals(arguments: Seq<ValueModel>, count: int) -> Seq<Option<ValueModel>> {
    Seq::new(
        count as nat,
        |i: int|
            if i < arguments.len() {
                Some(arguments[i])
            } else {
                None
            },
    )
}

/// The error of a test with assertions that did not hold.
pub open spec fn test_error(
    assertions: Seq<FailureModel>,
    frame: FrameModel,
    progress: ProgressModel,
) -> RuntimeErrorModel {
    RuntimeErrorModel {
        assertions,
        assertion_only: true,
        ..error_at(
            if assertions.len() == 1 {
                assertions[0].message
            } else {
                decimal(assertions.len()) + " assertions failed"@
            },
            assertions[0].span,
            frame,
            progress,
        )
    }
}

/// What a flow comes to once its instructions ran.
pub open spec fn completed(flow: MettlePlanModel, frame: FrameModel, ran: Ran) -> Evaluated {
    let progress = ran.1.progress;
    match ran.0 {
        Err(stop) => (Err(stop), progress),
        Ok(Some(value)) => (Ok(value), progress),
        Ok(None) => if flow.kind == DeclarationKind::Test {
            if ran.1.assertions.len() > 0 {
                (
                    Err(StopModel::Failed(test_error(ran.1.assertions, frame, progress))),
                    progress,
                )
            } else {
                (Ok(ValueModel::Null), progress)
            }
        } else {
            (
                Err(
                    failed(
                        "flow `"@ + flow.display_name + "` completed without returning a value"@,
                        nowhere(),
                        frame,
                        progress,
                    ),
                ),
                progress,
            )
        },
    }
}

/// Runs a flow whose call is on top of the frame.
pub open spec fn run_flow(
    world: WorldModel,
    flow: MettlePlanModel,
    arguments: Seq<ValueModel>,
    context: ActiveContextModel,
    frame: FrameModel,
    progress: ProgressModel,
) -> Evaluated
    decreases depth(frame) + 4, None::<int>, 0int,
{
    match activate(world, flow.contexts, 0, context, frame, progress) {
        (Err(stop), after) => (Err(stop), after),
        (Ok(active), after) => completed(
            flow,
            frame,
            run(
                world,
                flow.instructions,
                0,
                flow.kind == DeclarationKind::Test,
                active,
                frame,
                RunModel {
                    locals: argument_locals(arguments, flow.local_count),
                    assertions: Seq::empty(),
                    progress: after,
                },
            ),
        ),
    }
}

/// Applies the contexts from `from` on, one over the other.
pub open spec fn activate(
    world: WorldModel,
    contexts: Seq<int>,
    from: int,
    active: ActiveContextModel,
    frame: FrameModel,
    progress: ProgressModel,
) -> Activated
    decreases depth(frame) + 3, None::<int>, contexts.len() - from,
{
    if from < 0 || from >= contexts.len() {
        (Ok(active), progress)
    } else if !(0 <= contexts[from] < world.plan.contexts.len()) {
        (
            Err(
                failed("execution plan references an unknown context"@, nowhere(), frame, progress),
            ),
            progress,
        )
    } else {
        match apply_context(world, world.plan.contexts[contexts[from]], active, frame, progress) {
            (Err(stop), after) => (Err(stop), after),
            (Ok(applied), after) => activate(world, contexts, from + 1, applied, frame, after),
        }
    }
}

pub open spec fn apply_context(
    world: WorldModel,
    context: ContextPlanModel,
    inherited: ActiveContextModel,
    frame: FrameModel,
    progress: ProgressModel,
) -> Activated
    decreases depth(frame) + 2, None::<int>, 0int,
{
    match context_values(
        world,
        context.fields,
        0,
        ActiveContextModel {
            values: Seq::empty(),
            defaults: resized(inherited.defaults, world.plan.capability_names.len()),
        },
        frame,
        progress,
    ) {
        (Err(stop), after) => (Err(stop), after),
        (Ok(active), after) => context_defaults(world, context.defaults, 0, active, frame, after),
    }
}

/// The context with the values of its fields from `from` on.
pub open spec fn context_values(
    world: WorldModel,
    fields: Seq<PlanFieldModel>,
    from: int,
    active: ActiveContextModel,
    frame: FrameModel,
    progress: ProgressModel,
) -> Activated
    decreases depth(frame) + 1, None::<int>, fields.len() - from,
{
    if from < 0 || from >= fields.len() {
        (Ok(active), progress)
    } else {
        match evaluate(world, fields[from].expression, Seq::empty(), active, frame, progress) {
            (Err(stop), after) => (Err(stop), after),
            (Ok(value), after) => context_values(
                world,
                fields,
                from + 1,
                ActiveContextModel { values: active.values.push(value), ..active },
                frame,
                after,
            ),
        }
    }
}

/// The context with its defaults from `from` on.
pub open spec fn context_defaults(
    world: WorldModel,
    defaults: Seq<CapabilityDefaultsModel>,
    from: int,
    active: ActiveContextModel,
    frame: FrameModel,
    progress: ProgressModel,
) -> Activated
    decreases depth(frame) + 1, None::<int>, defaults.len() - from,
{
    if from < 0 || from >= defaults.len() {
        (Ok(active), progress)
    } else {
        let capability = defaults[from].capability;
        match evaluate_fields(
            world,
            defaults[from].fields,
            0,
            Seq::empty(),
            active,
            frame,
            progress,
            Seq::empty(),
        ) {
            (Err(stop), after) => (Err(stop), after),
            (Ok(values), after) => if !(0 <= capability < active.defaults.len()) {
                (
                    Err(
                        failed(
                            "execution plan references an unknown capability default"@,
                            nowhere(),
                            frame,
                            after,
                        ),
                    ),
                    after,
                )
            } else {
                match merged_options(capability, active.defaults[capability], values, after) {
                    (Err(stop), last) => (Err(stop), last),
                    (Ok(entries), last) => context_defaults(
                        world,
                        defaults,
                        from + 1,
                        ActiveContextModel {
                            defaults: active.defaults.update(capability, entries),
                            ..active
                        },
                        frame,
                        last,
                    ),
                }
            },
        }
    }
}

/// The frame before any flow is called.
pub open spec fn first_frame() -> FrameModel {
    FrameModel { flow_stack: Seq::empty(), scope_path: Seq::empty(), inside_workload: false }
}

/// Runs a flow of the program with arguments.
pub open spec fn execute(
    world: WorldModel,
    flow: int,
    arguments: Seq<ValueModel>,
    replies: Seq<ReplyModel>,
) -> Evaluated {
    let progress = ProgressModel { replies, at: 0, secrets: Seq::empty() };
    match call_fault(world.plan, flow, arguments.len(), first_frame()) {
        Some(message) => (Err(failed(message, nowhere(), first_frame(), progress)), progress),
        None => run_flow(
            world,
            world.plan.flows[flow],
            arguments,
            no_context(),
            first_frame().calling(world.plan.flows[flow].display_name),
            progress,
        ),
    }
}

/// Runs a task.
pub open spec fn perform(world: WorldModel, task: TaskModel, replies: Seq<ReplyModel>) -> Evaluated {
    evaluate(
        world,
        task.expression,
        task.locals,
        task.context,
        task.frame,
        ProgressModel { replies, at: 0, secrets: task.secrets },
    )
}

} // verus!
