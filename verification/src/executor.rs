//! Runs flows: the executable side of an execution.

use vstd::prelude::*;
use vstd::string::*;

use crate::capability::{pair_models, CapabilityError};
use crate::duration::Duration;
use crate::execution::{
    acknowledged, activate, applied, apply_context, argument_locals, branch_tasks, branches_named,
    call_fault, check_assertion, choose_branch, completed, constant_value, context_defaults,
    context_values, count_value, defaults_of, depth, element_of, empty_slots, error_at, evaluate,
    evaluate_attempts, evaluate_block, evaluate_call, evaluate_fields, evaluate_index,
    evaluate_list, evaluate_listed, evaluate_loop, evaluate_mixed, evaluate_operation,
    evaluate_operator, evaluate_parts, evaluate_retry, evaluate_rounds, evaluate_unary, execute,
    exhausted, failed, first_frame, indexed, invoked, is_unary, items_of, joined_branches, marked,
    member_of, merged_options, message_of, named_branches, named_options, negated, no_context,
    numbered, operand, operation_secrets, opposite, perform, present, reported, resized,
    round_locals, run, run_flow, run_one, stopped, stored, taken, test_error, truth_of, variable,
    wait_measured, wait_parallel, wait_within, widened, ActiveContextModel, Evaluated,
    ExecutionScope, FailureModel, FrameModel, ProgressModel, Ran, ReplyModel, RequestModel,
    RunModel, RuntimeErrorModel, StopModel, TaskModel, WorldModel, MAX_CALL_DEPTH,
};
use crate::plan::{
    conditional_models, defaults_models, instruction_models, numbers, optional_instructions,
    optional_number, optional_plan, optional_text, part_models, plan_branch_models,
    plan_field_models, plan_models, CallEvaluation, CapabilityDefaultsPlan, ConditionalBranch,
    Constant, ContextPlan, ExecutionPlan, Instruction, InstructionModel, MettlePlan, PlanExpression,
    PlanExpressionKind, PlanExpressionKindModel, PlanField, PlanParallelBranch, StringPart,
};
use crate::redaction::{clear, keep_secrets};
use crate::syntax::{BinaryOperator, DeclarationKind, Span};
use crate::text::{decimal_text, no_text, same, signed_decimal_text, views, wrapped};
use crate::timing::format_duration;
use crate::value::{
    copied_values, entry_models, entry_texts, evaluate_binary, kind_name, listed_texts,
    optional_value, sensitive_texts, shown, truth_model, value_models, EntryModel, Object, Value,
    ValueModel,
};

verus! {

// ---------------------------------------------------------------------------
// Types

/// An assertion of a test that did not hold.
#[derive(Debug, PartialEq, Eq)]
pub struct AssertionFailure {
    pub message: String,
    pub span: Span,
}

impl AssertionFailure {
    pub open spec fn model(self) -> FailureModel {
        FailureModel { message: self.message@, span: self.span }
    }
}

pub open spec fn failure_models(failures: Seq<AssertionFailure>) -> Seq<FailureModel> {
    Seq::new(failures.len(), |i: int| failures[i].model())
}

/// Why an execution failed, and where.
#[derive(Debug, PartialEq, Eq)]
pub struct RuntimeError {
    pub message: String,
    pub span: Span,
    pub flow_stack: Vec<String>,
    pub scope_path: Vec<ExecutionScope>,
    pub assertions: Vec<AssertionFailure>,
    pub assertion_only: bool,
}

impl RuntimeError {
    pub open spec fn model(self) -> RuntimeErrorModel {
        RuntimeErrorModel {
            message: self.message@,
            span: self.span,
            flow_stack: views(self.flow_stack@),
            scope_path: self.scope_path@,
            assertions: failure_models(self.assertions@),
            assertion_only: self.assertion_only,
        }
    }

    pub fn duplicate(&self) -> (copy: RuntimeError)
        ensures
            copy.model() == self.model(),
    {
        RuntimeError {
            message: self.message.clone(),
            span: self.span,
            flow_stack: copied_texts(&self.flow_stack),
            scope_path: copied_scopes(&self.scope_path),
            assertions: copied_failures(&self.assertions),
            assertion_only: self.assertion_only,
        }
    }

    /// The error with assertions that had failed before it.
    fn with_assertions(self, assertions: &Vec<AssertionFailure>) -> (error: RuntimeError)
        ensures
            error.model() == self.model().after(failure_models(assertions@)),
    {
        let mut error: RuntimeError = self;
        let ghost first = failure_models(error.assertions@);
        let ghost given = failure_models(assertions@);
        let ghost before = error;
        let mut at: usize = 0;
        proof {
            assert(first + given.take(0) =~= first);
        }
        while at < assertions.len()
            invariant
                given == failure_models(assertions@),
                at <= assertions@.len(),
                failure_models(error.assertions@) == first + given.take(at as int),
                error.message == before.message,
                error.span == before.span,
                error.flow_stack == before.flow_stack,
                error.scope_path == before.scope_path,
                error.assertion_only == before.assertion_only,
            decreases assertions@.len() - at,
        {
            let ghost held = failure_models(error.assertions@);
            error.assertions.push(
                AssertionFailure {
                    message: assertions[at].message.clone(),
                    span: assertions[at].span,
                },
            );
            proof {
                assert(failure_models(error.assertions@) =~= held.push(given[at as int]));
                assert(first + given.take(at + 1) =~= (first + given.take(at as int)).push(
                    given[at as int],
                ));
            }
            at += 1;
        }
        proof {
            assert(given.take(given.len() as int) =~= given);
        }
        error
    }
}

pub fn copied_texts(texts: &Vec<String>) -> (copy: Vec<String>)
    ensures
        views(copy@) == views(texts@),
        copy@.len() == texts@.len(),
{
    let mut copy: Vec<String> = Vec::new();
    let mut at: usize = 0;
    while at < texts.len()
        invariant
            at <= texts@.len(),
            copy@.len() == at,
            forall|i: int| 0 <= i < at ==> (#[trigger] copy@[i])@ == texts@[i]@,
        decreases texts@.len() - at,
    {
        copy.push(texts[at].clone());
        at += 1;
    }
    proof {
        assert(views(copy@) =~= views(texts@));
    }
    copy
}

fn copied_scopes(scopes: &Vec<ExecutionScope>) -> (copy: Vec<ExecutionScope>)
    ensures
        copy@ == scopes@,
{
    let mut copy: Vec<ExecutionScope> = Vec::new();
    let mut at: usize = 0;
    while at < scopes.len()
        invariant
            at <= scopes@.len(),
            copy@ == scopes@.take(at as int),
        decreases scopes@.len() - at,
    {
        copy.push(scopes[at]);
        proof {
            assert(copy@ =~= scopes@.take(at + 1));
        }
        at += 1;
    }
    proof {
        assert(copy@ =~= scopes@);
    }
    copy
}

fn copied_failures(failures: &Vec<AssertionFailure>) -> (copy: Vec<AssertionFailure>)
    ensures
        failure_models(copy@) == failure_models(failures@),
{
    let mut copy: Vec<AssertionFailure> = Vec::new();
    let mut at: usize = 0;
    while at < failures.len()
        invariant
            at <= failures@.len(),
            copy@.len() == at,
            forall|i: int| 0 <= i < at ==> (#[trigger] copy@[i]).model() == failures@[i].model(),
        decreases failures@.len() - at,
    {
        copy.push(
            AssertionFailure { message: failures[at].message.clone(), span: failures[at].span },
        );
        at += 1;
    }
    proof {
        assert(failure_models(copy@) =~= failure_models(failures@));
    }
    copy
}

pub open spec fn local_models(locals: Seq<Option<Value>>) -> Seq<Option<ValueModel>> {
    Seq::new(locals.len(), |i: int| optional_value(locals[i]))
}

fn copied_locals(locals: &Vec<Option<Value>>) -> (copy: Vec<Option<Value>>)
    ensures
        local_models(copy@) == local_models(locals@),
{
    let mut copy: Vec<Option<Value>> = Vec::new();
    let mut at: usize = 0;
    while at < locals.len()
        invariant
            at <= locals@.len(),
            copy@.len() == at,
            forall|i: int|
                0 <= i < at ==> optional_value(#[trigger] copy@[i]) == optional_value(locals@[i]),
        decreases locals@.len() - at,
    {
        let value: Option<Value> = match &locals[at] {
            Some(value) => Some(value.duplicate()),
            None => None,
        };
        copy.push(value);
        at += 1;
    }
    proof {
        assert(local_models(copy@) =~= local_models(locals@));
    }
    copy
}

pub open spec fn object_models(objects: Seq<Object>) -> Seq<Seq<EntryModel>> {
    Seq::new(objects.len(), |i: int| objects[i].model())
}

/// The context of a running flow.
pub struct ActiveContext {
    pub values: Vec<Value>,
    pub defaults: Vec<Object>,
}

impl ActiveContext {
    pub open spec fn model(self) -> ActiveContextModel {
        ActiveContextModel {
            values: value_models(self.values@),
            defaults: object_models(self.defaults@),
        }
    }

    pub fn empty() -> (context: ActiveContext)
        ensures
            context.model() == no_context(),
    {
        let context: ActiveContext = ActiveContext { values: Vec::new(), defaults: Vec::new() };
        proof {
            assert(value_models(context.values@) =~= Seq::empty());
            assert(object_models(context.defaults@) =~= Seq::empty());
        }
        context
    }

    fn duplicate(&self) -> (copy: ActiveContext)
        ensures
            copy.model() == self.model(),
    {
        let mut defaults: Vec<Object> = Vec::new();
        let mut at: usize = 0;
        while at < self.defaults.len()
            invariant
                at <= self.defaults@.len(),
                defaults@.len() == at,
                forall|i: int|
                    0 <= i < at ==> (#[trigger] defaults@[i]).model() == self.defaults@[i].model(),
            decreases self.defaults@.len() - at,
        {
            defaults.push(self.defaults[at].duplicate());
            at += 1;
        }
        proof {
            assert(object_models(defaults@) =~= object_models(self.defaults@));
        }
        ActiveContext { values: copied_values(&self.values), defaults }
    }
}

/// Where in an execution something happens.
pub struct Frame {
    pub flow_stack: Vec<String>,
    pub scope_path: Vec<ExecutionScope>,
    pub inside_workload: bool,
}

impl Frame {
    pub open spec fn model(self) -> FrameModel {
        FrameModel {
            flow_stack: views(self.flow_stack@),
            scope_path: self.scope_path@,
            inside_workload: self.inside_workload,
        }
    }

    pub fn first() -> (frame: Frame)
        ensures
            frame.model() == first_frame(),
    {
        let frame: Frame = Frame {
            flow_stack: Vec::new(),
            scope_path: Vec::new(),
            inside_workload: false,
        };
        proof {
            assert(views(frame.flow_stack@) =~= Seq::empty());
        }
        frame
    }

    pub fn duplicate(&self) -> (copy: Frame)
        ensures
            copy.model() == self.model(),
    {
        Frame {
            flow_stack: copied_texts(&self.flow_stack),
            scope_path: copied_scopes(&self.scope_path),
            inside_workload: self.inside_workload,
        }
    }

    fn calling(&self, name: &str) -> (frame: Frame)
        ensures
            frame.model() == self.model().calling(name@),
    {
        let mut frame: Frame = self.duplicate();
        let ghost before = views(frame.flow_stack@);
        frame.flow_stack.push(name.to_owned());
        proof {
            assert(views(frame.flow_stack@) =~= before.push(name@));
        }
        frame
    }

    fn within(&self, scope: ExecutionScope) -> (frame: Frame)
        ensures
            frame.model() == self.model().within(scope),
    {
        let mut frame: Frame = self.duplicate();
        frame.scope_path.push(scope);
        frame
    }

    fn loaded(&self) -> (frame: Frame)
        ensures
            frame.model() == self.model().loaded(),
    {
        let mut frame: Frame = self.duplicate();
        frame.inside_workload = true;
        frame
    }
}

/// Work that runs on its own.
pub struct Task<'a> {
    pub expression: &'a PlanExpression,
    pub locals: Vec<Option<Value>>,
    pub context: ActiveContext,
    pub frame: Frame,
    pub secrets: Vec<String>,
}

impl<'a> Task<'a> {
    pub open spec fn model(self) -> TaskModel {
        TaskModel {
            expression: self.expression.model(),
            locals: local_models(self.locals@),
            context: self.context.model(),
            frame: self.frame.model(),
            secrets: views(self.secrets@),
        }
    }

    /// The same work once more.
    pub fn duplicate(&self) -> (copy: Task<'a>)
        ensures
            copy.model() == self.model(),
    {
        Task {
            expression: self.expression,
            locals: copied_locals(&self.locals),
            context: self.context.duplicate(),
            frame: self.frame.duplicate(),
            secrets: copied_texts(&self.secrets),
        }
    }
}

pub open spec fn task_models(tasks: Seq<Task<'_>>) -> Seq<TaskModel> {
    Seq::new(tasks.len(), |i: int| tasks[i].model())
}

/// What has become of a part of an execution.
#[derive(Clone, Copy, Debug, PartialEq, Eq, Structural)]
pub enum ExecutionEventKind {
    BranchCancelled,
}

/// Something that has happened to a part of an execution.
#[derive(Debug, PartialEq, Eq)]
pub struct ExecutionEvent {
    pub kind: ExecutionEventKind,
    pub scope_path: Vec<ExecutionScope>,
    pub span: Span,
    pub inside_workload: bool,
}

pub struct ExecutionEventModel {
    pub kind: ExecutionEventKind,
    pub scope_path: Seq<ExecutionScope>,
    pub span: Span,
    pub inside_workload: bool,
}

impl ExecutionEvent {
    pub open spec fn model(self) -> ExecutionEventModel {
        ExecutionEventModel {
            kind: self.kind,
            scope_path: self.scope_path@,
            span: self.span,
            inside_workload: self.inside_workload,
        }
    }
}

pub open spec fn execution_event_models(events: Seq<ExecutionEvent>) -> Seq<ExecutionEventModel> {
    Seq::new(events.len(), |i: int| events[i].model())
}

/// What is told of branches that are cancelled, from `from` on, behind `done`:
/// of each that does not belong to a workload.
pub open spec fn cancellations(
    tasks: Seq<TaskModel>,
    cancelled: Seq<usize>,
    from: int,
    done: Seq<ExecutionEventModel>,
) -> Seq<ExecutionEventModel>
    decreases cancelled.len() - from,
{
    if from < 0 || from >= cancelled.len() {
        done
    } else {
        let task = tasks[cancelled[from] as int];
        cancellations(
            tasks,
            cancelled,
            from + 1,
            if task.frame.inside_workload {
                done
            } else {
                done.push(
                    ExecutionEventModel {
                        kind: ExecutionEventKind::BranchCancelled,
                        scope_path: task.frame.scope_path,
                        span: task.expression.span,
                        inside_workload: false,
                    },
                )
            },
        )
    }
}

/// What to tell of branches that are cancelled.
pub fn cancelled_branches(tasks: &Vec<Task<'_>>, cancelled: &Vec<usize>) -> (events: Vec<
    ExecutionEvent,
>)
    requires
        forall|i: int| 0 <= i < cancelled@.len() ==> #[trigger] cancelled@[i] < tasks@.len(),
    ensures
        execution_event_models(events@) == cancellations(
            task_models(tasks@),
            cancelled@,
            0,
            Seq::empty(),
        ),
{
    let ghost models = task_models(tasks@);
    let mut events: Vec<ExecutionEvent> = Vec::new();
    let mut at: usize = 0;
    proof {
        assert(execution_event_models(events@) =~= Seq::empty());
    }
    while at < cancelled.len()
        invariant
            models == task_models(tasks@),
            forall|i: int| 0 <= i < cancelled@.len() ==> #[trigger] cancelled@[i] < tasks@.len(),
            at <= cancelled@.len(),
            cancellations(models, cancelled@, 0, Seq::empty()) == cancellations(
                models,
                cancelled@,
                at as int,
                execution_event_models(events@),
            ),
        decreases cancelled@.len() - at,
    {
        let task: &Task<'_> = &tasks[cancelled[at]];
        proof {
            assert(models[cancelled@[at as int] as int] == task.model());
        }
        if !task.frame.inside_workload {
            let ghost before = execution_event_models(events@);
            let event: ExecutionEvent = ExecutionEvent {
                kind: ExecutionEventKind::BranchCancelled,
                scope_path: copied_scopes(&task.frame.scope_path),
                span: task.expression.span,
                inside_workload: false,
            };
            events.push(event);
            proof {
                assert(execution_event_models(events@) =~= before.push(event.model()));
            }
        }
        at += 1;
    }
    events
}

/// What an execution asks for.
#[allow(inconsistent_fields)]
pub enum Request<'a> {
    Number,
    Echo { value: Value, span: Span, frame: Frame },
    Report {
        capability: usize,
        operation: usize,
        result: Result<Value, String>,
        span: Span,
        frame: Frame,
    },
    Merge { capability: usize, target: Object, overrides: Object },
    Invoke {
        capability: usize,
        operation: usize,
        arguments: Vec<Value>,
        options: Object,
        span: Span,
    },
    Sleep(Duration),
    Within { timeout: Duration, task: Task<'a> },
    Parallel { limit: usize, invocation: u64, tasks: Vec<Task<'a>> },
    Rate {
        target: usize,
        period: Duration,
        duration: Duration,
        limit: usize,
        task: Task<'a>,
    },
    Concurrency { limit: usize, duration: Duration, task: Task<'a> },
}

pub open spec fn text_result(result: Result<Value, String>) -> Result<ValueModel, Seq<char>> {
    match result {
        Ok(value) => Ok(value.model()),
        Err(message) => Err(message@),
    }
}

impl<'a> Request<'a> {
    pub open spec fn model(self) -> RequestModel {
        match self {
            Request::Number => RequestModel::Number,
            Request::Echo { value, span, frame } => RequestModel::Echo {
                value: value.model(),
                span,
                frame: frame.model(),
            },
            Request::Report { capability, operation, result, span, frame } =>
                RequestModel::Report {
                    capability: capability as int,
                    operation: operation as int,
                    result: text_result(result),
                    span,
                    frame: frame.model(),
                },
            Request::Merge { capability, target, overrides } => RequestModel::Merge {
                capability: capability as int,
                target: target.model(),
                overrides: overrides.model(),
            },
            Request::Invoke { capability, operation, arguments, options, span } =>
                RequestModel::Invoke {
                    capability: capability as int,
                    operation: operation as int,
                    arguments: value_models(arguments@),
                    options: options.model(),
                    span,
                },
            Request::Sleep(duration) => RequestModel::Sleep(duration),
            Request::Within { timeout, task } => RequestModel::Within {
                timeout,
                task: task.model(),
            },
            Request::Parallel { limit, invocation, tasks } => RequestModel::Parallel {
                limit: limit as int,
                invocation,
                tasks: task_models(tasks@),
            },
            Request::Rate { target, period, duration, limit, task } => RequestModel::Rate {
                target: target as int,
                period,
                duration,
                limit: limit as int,
                task: task.model(),
            },
            Request::Concurrency { limit, duration, task } => RequestModel::Concurrency {
                limit: limit as int,
                duration,
                task: task.model(),
            },
        }
    }
}

/// What an execution is told.
#[allow(inconsistent_fields)]
pub enum Reply {
    Done,
    Number(u64),
    Merged(Object),
    Invoked(Result<Value, CapabilityError>),
    Ended { result: Option<Result<Value, RuntimeError>>, secrets: Vec<String> },
    Joined(Result<Vec<Value>, RuntimeError>),
    Measured(Value),
}

impl Reply {
    pub open spec fn model(self) -> ReplyModel {
        match self {
            Reply::Done => ReplyModel::Done,
            Reply::Number(number) => ReplyModel::Number(number),
            Reply::Merged(object) => ReplyModel::Merged(object.model()),
            Reply::Invoked(result) => ReplyModel::Invoked(
                match result {
                    Ok(value) => Ok(value.model()),
                    Err(error) => Err(error.model()),
                },
            ),
            Reply::Ended { result, secrets } => ReplyModel::Ended {
                result: match result {
                    Some(Ok(value)) => Some(Ok(value.model())),
                    Some(Err(error)) => Some(Err(error.model())),
                    None => None,
                },
                secrets: views(secrets@),
            },
            Reply::Joined(result) => ReplyModel::Joined(
                match result {
                    Ok(values) => Ok(value_models(values@)),
                    Err(error) => Err(error.model()),
                },
            ),
            Reply::Measured(value) => ReplyModel::Measured(value.model()),
        }
    }
}

pub open spec fn reply_models(replies: Seq<Reply>) -> Seq<ReplyModel> {
    Seq::new(replies.len(), |i: int| replies[i].model())
}

/// Why an execution does not come to a value.
#[allow(inconsistent_fields)]
pub enum Stop<'a> {
    Failed(RuntimeError),
    Waiting(Request<'a>),
}

impl<'a> Stop<'a> {
    pub open spec fn model(self) -> StopModel {
        match self {
            Stop::Failed(error) => StopModel::Failed(error.model()),
            Stop::Waiting(request) => StopModel::Waiting(request.model()),
        }
    }

    fn after(self, assertions: &Vec<AssertionFailure>) -> (stop: Stop<'a>)
        ensures
            stop.model() == stopped(self.model(), failure_models(assertions@)),
    {
        match self {
            Stop::Failed(error) => Stop::Failed(error.with_assertions(assertions)),
            Stop::Waiting(request) => Stop::Waiting(request),
        }
    }
}

pub open spec fn value_result(result: Result<Value, Stop<'_>>) -> Result<ValueModel, StopModel> {
    match result {
        Ok(value) => Ok(value.model()),
        Err(stop) => Err(stop.model()),
    }
}

/// How far an execution is.
pub struct Progress<'r> {
    pub replies: &'r Vec<Reply>,
    pub at: usize,
    pub secrets: Vec<String>,
}

impl<'r> Progress<'r> {
    pub open spec fn model(self) -> ProgressModel {
        ProgressModel {
            replies: reply_models(self.replies@),
            at: self.at as int,
            secrets: views(self.secrets@),
        }
    }

    fn reply(&self) -> (reply: Option<&'r Reply>)
        ensures
            (match reply {
                Some(reply) => Some(reply.model()),
                None => None,
            }) == self.model().reply(),
            reply is Some ==> self.at < usize::MAX,
    {
        if self.at < self.replies.len() {
            Some(&self.replies[self.at])
        } else {
            None
        }
    }

    fn advance(&mut self)
        requires
            old(self).at < usize::MAX,
        ensures
            final(self).model() == old(self).model().advanced(),
    {
        self.at = self.at + 1;
    }
}

/// What stays the same while a program runs.
pub struct World<'a> {
    pub plan: &'a ExecutionPlan,
    pub environment: &'a Vec<(String, String)>,
}

// ---------------------------------------------------------------------------
// Values

fn failure(message: String, span: Span, frame: &Frame, progress: &Progress<'_>) -> (error:
    RuntimeError)
    ensures
        error.model() == error_at(message@, span, frame.model(), progress.model()),
{
    let error: RuntimeError = RuntimeError {
        message: clear(message, &progress.secrets),
        span,
        flow_stack: copied_texts(&frame.flow_stack),
        scope_path: copied_scopes(&frame.scope_path),
        assertions: Vec::new(),
        assertion_only: false,
    };
    proof {
        assert(failure_models(error.assertions@) =~= Seq::empty());
    }
    error
}

fn fail<'a>(message: String, span: Span, frame: &Frame, progress: &Progress<'_>) -> (stop: Stop<'a>)
    ensures
        stop.model() == failed(message@, span, frame.model(), progress.model()),
{
    Stop::Failed(failure(message, span, frame, progress))
}

fn fail_with<'a>(message: &str, span: Span, frame: &Frame, progress: &Progress<'_>) -> (stop: Stop<'a>)
    ensures
        stop.model() == failed(message@, span, frame.model(), progress.model()),
{
    fail(message.to_owned(), span, frame, progress)
}

fn with_kind(prefix: &str, value: &Value) -> (message: String)
    ensures
        message@ == prefix@ + kind_name(value.model()),
{
    let mut message: String = prefix.to_owned();
    message.append(value.kind_name());
    message
}

fn value_of(constant: &Constant) -> (value: Value)
    ensures
        value.model() == constant_value(constant.model()),
{
    match constant {
        Constant::Null => Value::Null,
        Constant::Boolean(value) => Value::Boolean(*value),
        Constant::Integer(value) => Value::Integer(*value),
        Constant::Float(value) => Value::Float(*value),
        Constant::String(value) => Value::String(value.clone()),
        Constant::DurationNanos(value) => Value::Duration(Duration::from_nanos(*value)),
    }
}

fn find_variable(environment: &Vec<(String, String)>, name: &str) -> (value: Option<String>)
    ensures
        optional_text(value) == variable(pair_models(environment@), name@, 0),
{
    let ghost models = pair_models(environment@);
    let mut at: usize = 0;
    while at < environment.len()
        invariant
            models == pair_models(environment@),
            at <= environment@.len(),
            variable(models, name@, 0) == variable(models, name@, at as int),
        decreases environment@.len() - at,
    {
        if same(environment[at].0.as_str(), name) {
            return Some(environment[at].1.clone());
        }
        at += 1;
    }
    None
}

fn mark(value: Value, sensitive: bool) -> (result: Value)
    ensures
        result.model() == marked(value.model(), sensitive),
{
    if sensitive {
        value.sensitive()
    } else {
        value
    }
}

fn read_member(value: &Value, member: &str) -> (result: Result<Value, String>)
    ensures
        text_result(result) == member_of(value.model(), member@),
{
    match value.revealed() {
        Value::Object(object) => match object.get(member) {
            Some(found) => Ok(mark(found.duplicate(), value.is_sensitive())),
            None => Err(wrapped("object has no member `", member, "`")),
        },
        _ => {
            let words: String = wrapped("cannot read member `", member, "` from ");
            Err(with_kind(words.as_str(), value))
        },
    }
}

fn read_element(value: &Value, index: &Value) -> (result: Result<Value, String>)
    ensures
        text_result(result) == element_of(value.model(), index.model()),
{
    match value.revealed() {
        Value::Object(object) => match index.revealed() {
            Value::String(key) => match object.get(key.as_str()) {
                Some(found) => Ok(found.duplicate()),
                None => Err(wrapped("object has no member `", key.as_str(), "`")),
            },
            _ => Err(with_kind("object index must be a string, found ", index)),
        },
        Value::Array(values) => match index.revealed() {
            Value::Integer(position) => {
                let digits: String = signed_decimal_text(*position);
                if *position < 0 {
                    Err(wrapped("array index ", digits.as_str(), " must be non-negative"))
                } else if (*position as u128) < values.len() as u128 {
                    let at: usize = *position as usize;
                    proof {
                        assert(value_models(values@)[at as int] == values@[at as int].model());
                    }
                    Ok(values[at].duplicate())
                } else {
                    Err(wrapped("array index ", digits.as_str(), " is out of range"))
                }
            },
            _ => Err(with_kind("array index must be an integer, found ", index)),
        },
        _ => Err(with_kind("cannot index ", value)),
    }
}

fn read_index(value: &Value, index: &Value) -> (result: Result<Value, String>)
    ensures
        text_result(result) == indexed(value.model(), index.model()),
{
    match read_element(value, index) {
        Ok(found) => Ok(mark(found, value.is_sensitive() || index.is_sensitive())),
        Err(message) => Err(message),
    }
}

fn negate_truth(value: &Value) -> (result: Result<Value, String>)
    ensures
        text_result(result) == negated(value.model()),
{
    match value.revealed() {
        Value::Boolean(truth) => Ok(Value::Boolean(!*truth)),
        _ => Err(with_kind("`not` requires boolean, found ", value)),
    }
}

fn negate_number(value: &Value) -> (result: Result<Value, String>)
    ensures
        text_result(result) == opposite(value.model()),
{
    match value.revealed() {
        Value::Integer(number) => {
            if *number == i64::MIN {
                Err("integer overflow in `-`".to_owned())
            } else {
                Ok(mark(Value::Integer(-*number), value.is_sensitive()))
            }
        },
        Value::Float(number) => Ok(mark(Value::Float(number.flip()), value.is_sensitive())),
        _ => Err(with_kind("`-` requires a number, found ", value)),
    }
}

fn read_truth(value: &Value) -> (result: Result<bool, String>)
    ensures
        truth_model(result) == truth_of(value.model()),
{
    match value.revealed() {
        Value::Boolean(truth) => Ok(*truth),
        _ => Err(with_kind("logical operator requires boolean, found ", value)),
    }
}

fn read_message(value: &Value) -> (message: Option<String>)
    ensures
        optional_text(message) == message_of(value.model()),
{
    match value.revealed() {
        Value::String(text) => if value.is_sensitive() {
            Some("[REDACTED]".to_owned())
        } else {
            Some(text.clone())
        },
        _ => None,
    }
}

/// Locals in a frame of another size.
fn widen(locals: &Vec<Option<Value>>, count: usize) -> (wide: Vec<Option<Value>>)
    ensures
        local_models(wide@) == widened(local_models(locals@), count as int),
{
    let mut wide: Vec<Option<Value>> = Vec::new();
    let mut at: usize = 0;
    while at < count
        invariant
            at <= count,
            wide@.len() == at,
            forall|i: int|
                0 <= i < at ==> optional_value(#[trigger] wide@[i]) == (if i < locals@.len() {
                    optional_value(locals@[i])
                } else {
                    None
                }),
        decreases count - at,
    {
        let mut value: Option<Value> = None;
        if at < locals.len() {
            if let Some(known) = &locals[at] {
                value = Some(known.duplicate());
            }
        }
        wide.push(value);
        at += 1;
    }
    proof {
        assert(local_models(wide@) =~= widened(local_models(locals@), count as int));
    }
    wide
}

fn store(locals: &mut Vec<Option<Value>>, slot: usize, value: Value)
    ensures
        local_models(final(locals)@) == stored(
            local_models(old(locals)@),
            slot as int,
            value.model(),
        ),
        final(locals)@.len() == old(locals)@.len(),
{
    if slot < locals.len() {
        let ghost before = local_models(locals@);
        locals.set(slot, Some(value));
        proof {
            assert(local_models(locals@) =~= before.update(slot as int, Some(value.model())));
        }
    }
}

fn count_of(count: usize) -> (value: Value)
    ensures
        value.model() == count_value(count as int),
{
    let limit: u128 = i64::MAX as u128;
    if count as u128 <= limit {
        Value::Integer(count as i64)
    } else {
        Value::Integer(i64::MAX)
    }
}

spec fn item_models(items: Seq<(Value, Value)>) -> Seq<(ValueModel, ValueModel)> {
    Seq::new(items.len(), |i: int| (items[i].0.model(), items[i].1.model()))
}

/// What a loop goes over.
fn list_items(value: &Value) -> (items: Option<Vec<(Value, Value)>>)
    ensures
        (match items {
            Some(items) => Some(item_models(items@)),
            None => None,
        }) == items_of(value.model()),
{
    let sensitive: bool = value.is_sensitive();
    match value.revealed() {
        Value::Array(values) => {
            let ghost models = value_models(values@);
            let mut items: Vec<(Value, Value)> = Vec::new();
            let mut at: usize = 0;
            while at < values.len()
                invariant
                    models == value_models(values@),
                    at <= values@.len(),
                    items@.len() == at,
                    forall|i: int|
                        0 <= i < at ==> (#[trigger] items@[i]).0.model() == count_value(i)
                            && items@[i].1.model() == marked(models[i], sensitive),
                decreases values@.len() - at,
            {
                proof {
                    assert(models[at as int] == values@[at as int].model());
                }
                items.push((count_of(at), mark(values[at].duplicate(), sensitive)));
                at += 1;
            }
            proof {
                assert(item_models(items@) =~= Seq::new(
                    models.len(),
                    |i: int| (count_value(i), marked(models[i], sensitive)),
                ));
            }
            Some(items)
        },
        Value::Object(object) => {
            let ghost models = object.model();
            let mut items: Vec<(Value, Value)> = Vec::new();
            let mut at: usize = 0;
            while at < object.entries.len()
                invariant
                    models == object.model(),
                    at <= object.entries@.len(),
                    items@.len() == at,
                    forall|i: int|
                        0 <= i < at ==> (#[trigger] items@[i]).0.model() == ValueModel::String(
                            models[i].name,
                        ) && items@[i].1.model() == marked(models[i].value, sensitive),
                decreases object.entries@.len() - at,
            {
                proof {
                    assert(models == entry_models(object.entries@));
                    assert(models[at as int] == object.entries@[at as int].model());
                }
                let name: String = object.entries[at].name.clone();
                items.push(
                    (
                        Value::String(name),
                        mark(object.entries[at].value.duplicate(), sensitive),
                    ),
                );
                at += 1;
            }
            proof {
                assert(models == entry_models(object.entries@));
                assert(item_models(items@) =~= Seq::new(
                    models.len(),
                    |i: int|
                        (
                            ValueModel::String(models[i].name),
                            marked(models[i].value, sensitive),
                        ),
                ));
            }
            Some(items)
        },
        _ => None,
    }
}

fn no_values(count: usize) -> (slots: Vec<Option<Value>>)
    ensures
        local_models(slots@) == empty_slots(count as nat),
        slots@.len() == count,
{
    let mut slots: Vec<Option<Value>> = Vec::new();
    while slots.len() < count
        invariant
            slots@.len() <= count,
            forall|i: int| 0 <= i < slots@.len() ==> (#[trigger] slots@[i]) is None,
        decreases count - slots@.len(),
    {
        slots.push(None);
    }
    proof {
        assert(local_models(slots@) =~= empty_slots(count as nat));
    }
    slots
}

/// All the values, if each slot has one.
fn take_all(slots: Vec<Option<Value>>) -> (values: Option<Vec<Value>>)
    ensures
        (match values {
            Some(values) => Some(value_models(values@)),
            None => None,
        }) == (if present(local_models(slots@)) {
            Some(taken(local_models(slots@)))
        } else {
            None
        }),
        values matches Some(values) ==> values@.len() == slots@.len(),
{
    let ghost models = local_models(slots@);
    let ghost whole = taken(models);
    let mut values: Vec<Value> = Vec::new();
    let mut rest: Vec<Option<Value>> = slots;
    proof {
        assert(rest@ =~= slots@.skip(0));
        assert(value_models(values@) =~= whole.take(0));
    }
    while rest.len() > 0
        invariant
            models == local_models(slots@),
            whole == taken(models),
            values@.len() <= slots@.len(),
            rest@ == slots@.skip(values@.len() as int),
            value_models(values@) == whole.take(values@.len() as int),
            forall|i: int| 0 <= i < values@.len() ==> (#[trigger] models[i]) is Some,
        decreases rest@.len(),
    {
        let ghost count = values@.len() as int;
        proof {
            assert(models[count] == optional_value(slots@[count]));
        }
        match rest.remove(0) {
            Some(value) => {
                let ghost before = value_models(values@);
                values.push(value);
                proof {
                    assert(rest@ =~= slots@.skip(count + 1));
                    assert(value_models(values@) =~= before.push(value.model()));
                    assert(whole.take(count + 1) =~= whole.take(count).push(whole[count]));
                }
            },
            None => {
                return None;
            },
        }
    }
    proof {
        assert(whole.take(whole.len() as int) =~= whole);
    }
    Some(values)
}

/// The options by name.
fn name_options(fields: &Vec<PlanField>, values: &Vec<Value>) -> (options: Object)
    requires
        values@.len() == fields@.len(),
    ensures
        options.model() == named_options(
            plan_field_models(fields@),
            value_models(values@),
            0,
            Seq::empty(),
        ),
{
    let ghost names = plan_field_models(fields@);
    let ghost models = value_models(values@);
    let mut options: Object = Object::new();
    let mut at: usize = 0;
    while at < fields.len()
        invariant
            names == plan_field_models(fields@),
            models == value_models(values@),
            values@.len() == fields@.len(),
            at <= fields@.len(),
            named_options(names, models, 0, Seq::empty()) == named_options(
                names,
                models,
                at as int,
                options.model(),
            ),
        decreases fields@.len() - at,
    {
        proof {
            assert(names[at as int] == fields@[at as int].model());
            assert(models[at as int] == values@[at as int].model());
        }
        options.insert(fields[at].name.clone(), values[at].duplicate());
        at += 1;
    }
    options
}

fn all_branches_named(branches: &Vec<PlanParallelBranch>) -> (yes: bool)
    ensures
        yes == branches_named(plan_branch_models(branches@)),
{
    let ghost models = plan_branch_models(branches@);
    if branches.len() == 0 {
        return false;
    }
    let mut at: usize = 0;
    while at < branches.len()
        invariant
            models == plan_branch_models(branches@),
            at <= branches@.len(),
            forall|i: int| 0 <= i < at ==> (#[trigger] models[i]).name is Some,
        decreases branches@.len() - at,
    {
        proof {
            assert(models[at as int] == branches@[at as int].model());
        }
        if branches[at].name.is_none() {
            return false;
        }
        at += 1;
    }
    true
}

/// What the values of all branches make up.
fn join_branches(branches: &Vec<PlanParallelBranch>, values: &Vec<Value>) -> (value: Value)
    requires
        values@.len() == branches@.len(),
    ensures
        value.model() == joined_branches(plan_branch_models(branches@), value_models(values@)),
{
    if !all_branches_named(branches) {
        return Value::Array(copied_values(values));
    }
    let ghost names = plan_branch_models(branches@);
    let ghost models = value_models(values@);
    let mut object: Object = Object::new();
    let mut at: usize = 0;
    while at < branches.len()
        invariant
            names == plan_branch_models(branches@),
            models == value_models(values@),
            values@.len() == branches@.len(),
            at <= branches@.len(),
            named_branches(names, models, 0, Seq::empty()) == named_branches(
                names,
                models,
                at as int,
                object.model(),
            ),
        decreases branches@.len() - at,
    {
        proof {
            assert(names[at as int] == branches@[at as int].model());
            assert(models[at as int] == values@[at as int].model());
        }
        if let Some(name) = &branches[at].name {
            object.insert(name.clone(), values[at].duplicate());
        }
        at += 1;
    }
    Value::Object(object)
}

/// One defaults object for each capability.
fn resize(defaults: &Vec<Object>, count: usize) -> (all: Vec<Object>)
    ensures
        object_models(all@) == resized(object_models(defaults@), count as nat),
        all@.len() == count,
{
    let mut all: Vec<Object> = Vec::new();
    let mut at: usize = 0;
    while at < count
        invariant
            at <= count,
            all@.len() == at,
            forall|i: int|
                0 <= i < at ==> (#[trigger] all@[i]).model() == (if i < defaults@.len() {
                    defaults@[i].model()
                } else {
                    Seq::empty()
                }),
        decreases count - at,
    {
        if at < defaults.len() {
            all.push(defaults[at].duplicate());
        } else {
            all.push(Object::new());
        }
        at += 1;
    }
    proof {
        assert(object_models(all@) =~= resized(object_models(defaults@), count as nat));
    }
    all
}

fn read_defaults(context: &ActiveContext, capability: usize) -> (object: Object)
    ensures
        object.model() == defaults_of(context.model(), capability as int),
{
    if capability < context.defaults.len() {
        context.defaults[capability].duplicate()
    } else {
        Object::new()
    }
}

/// The tasks of parallel branches.
fn list_tasks<'a>(
    branches: &'a Vec<PlanParallelBranch>,
    invocation: u64,
    locals: &Vec<Option<Value>>,
    context: &ActiveContext,
    frame: &Frame,
    secrets: &Vec<String>,
) -> (tasks: Vec<Task<'a>>)
    ensures
        task_models(tasks@) == branch_tasks(
            plan_branch_models(branches@),
            invocation,
            local_models(locals@),
            context.model(),
            frame.model(),
            views(secrets@),
        ),
{
    let ghost models = plan_branch_models(branches@);
    let ghost whole = branch_tasks(
        models,
        invocation,
        local_models(locals@),
        context.model(),
        frame.model(),
        views(secrets@),
    );
    let total: usize = branches.len();
    let mut tasks: Vec<Task<'a>> = Vec::new();
    let mut at: usize = 0;
    while at < total
        invariant
            models == plan_branch_models(branches@),
            total == branches@.len(),
            whole == branch_tasks(
                models,
                invocation,
                local_models(locals@),
                context.model(),
                frame.model(),
                views(secrets@),
            ),
            at <= total,
            tasks@.len() == at,
            forall|i: int| 0 <= i < at ==> (#[trigger] tasks@[i]).model() == whole[i],
        decreases total - at,
    {
        proof {
            assert(models[at as int] == branches@[at as int].model());
            assert(models[at as int].expression == branches@[at as int].expression.model());
        }
        tasks.push(
            Task {
                expression: &branches[at].expression,
                locals: copied_locals(locals),
                context: context.duplicate(),
                frame: frame.within(
                    ExecutionScope::Parallel { invocation, branch: at + 1, total },
                ),
                secrets: copied_texts(secrets),
            },
        );
        at += 1;
    }
    proof {
        assert(task_models(tasks@) =~= whole);
    }
    tasks
}

fn collect_secrets(secrets: &mut Vec<String>, arguments: &Vec<Value>, options: &Object)
    ensures
        views(final(secrets)@) == operation_secrets(
            views(old(secrets)@),
            value_models(arguments@),
            options.model(),
        ),
{
    let ghost values = value_models(arguments@);
    let ghost entries = options.model();
    let ghost first = listed_texts(values, 0, false);
    let ghost second = entry_texts(entries, 0, false);
    let mut texts: Vec<String> = Vec::new();
    proof {
        assert(views(texts@) + first =~= first);
    }
    let mut at: usize = 0;
    while at < arguments.len()
        invariant
            values == value_models(arguments@),
            first == listed_texts(values, 0, false),
            at <= arguments@.len(),
            views(texts@) + listed_texts(values, at as int, false) == first,
        decreases arguments@.len() - at,
    {
        let ghost held = views(texts@);
        proof {
            assert(values[at as int] == arguments@[at as int].model());
        }
        arguments[at].collect_sensitive(&mut texts, false);
        proof {
            let here = sensitive_texts(values[at as int], false);
            let rest = listed_texts(values, at + 1, false);
            assert(held + (here + rest) =~= (held + here) + rest);
        }
        at += 1;
    }
    proof {
        assert(views(texts@) + Seq::<Seq<char>>::empty() =~= views(texts@));
        assert(entries == entry_models(options.entries@));
    }
    let mut at: usize = 0;
    while at < options.entries.len()
        invariant
            entries == entry_models(options.entries@),
            second == entry_texts(entries, 0, false),
            at <= options.entries@.len(),
            views(texts@) + entry_texts(entries, at as int, false) == first + second,
        decreases options.entries@.len() - at,
    {
        let ghost held = views(texts@);
        proof {
            assert(entries[at as int] == options.entries@[at as int].model());
        }
        options.entries[at].value.collect_sensitive(&mut texts, false);
        proof {
            let here = sensitive_texts(entries[at as int].value, false);
            let rest = entry_texts(entries, at + 1, false);
            assert(held + (here + rest) =~= (held + here) + rest);
        }
        at += 1;
    }
    proof {
        assert(views(texts@) + Seq::<Seq<char>>::empty() =~= views(texts@));
    }
    keep_secrets(secrets, &texts);
}

// ---------------------------------------------------------------------------
// Requests

fn acknowledge<'a>(request: Request<'a>, progress: &mut Progress<'_>) -> (result: Result<
    (),
    Stop<'a>,
>)
    ensures
        (
            match result {
                Ok(_) => Ok(()),
                Err(stop) => Err(stop.model()),
            },
            final(progress).model(),
        ) == acknowledged(request.model(), old(progress).model()),
{
    if let Some(Reply::Done) = progress.reply() {
        progress.advance();
        Ok(())
    } else {
        Err(Stop::Waiting(request))
    }
}

fn ask_number<'a>(progress: &mut Progress<'_>) -> (result: Result<u64, Stop<'a>>)
    ensures
        (
            match result {
                Ok(number) => Ok(number),
                Err(stop) => Err(stop.model()),
            },
            final(progress).model(),
        ) == numbered(old(progress).model()),
{
    if let Some(Reply::Number(number)) = progress.reply() {
        let number: u64 = *number;
        progress.advance();
        Ok(number)
    } else {
        Err(Stop::Waiting(Request::Number))
    }
}

fn ask_merged<'a>(
    capability: usize,
    target: Object,
    overrides: Object,
    progress: &mut Progress<'_>,
) -> (result: Result<Object, Stop<'a>>)
    ensures
        (
            match result {
                Ok(object) => Ok(object.model()),
                Err(stop) => Err(stop.model()),
            },
            final(progress).model(),
        ) == merged_options(
            capability as int,
            target.model(),
            overrides.model(),
            old(progress).model(),
        ),
{
    if let Some(Reply::Merged(object)) = progress.reply() {
        let copy: Object = object.duplicate();
        progress.advance();
        Ok(copy)
    } else {
        Err(Stop::Waiting(Request::Merge { capability, target, overrides }))
    }
}

/// Reports the result of an operation, and comes to it.
fn report<'a>(
    capability: usize,
    operation: usize,
    result: &Result<Value, CapabilityError>,
    span: Span,
    frame: &Frame,
    progress: &mut Progress<'_>,
) -> (outcome: Result<Value, Stop<'a>>)
    ensures
        (value_result(outcome), final(progress).model()) == reported(
            capability as int,
            operation as int,
            (match *result {
                Ok(value) => Ok(value.model()),
                Err(error) => Err(error.model()),
            }),
            span,
            frame.model(),
            old(progress).model(),
        ),
{
    let (outcome, shown): (Result<Value, Stop<'a>>, Result<Value, String>) = match result {
        Ok(value) => (Ok(value.duplicate()), Ok(value.duplicate())),
        Err(error) => {
            let failed: RuntimeError = failure(error.message.clone(), error.span, frame, progress);
            let message: String = failed.message.clone();
            (Err(Stop::Failed(failed)), Err(message))
        },
    };
    if frame.inside_workload {
        return outcome;
    }
    match acknowledge(
        Request::Report { capability, operation, result: shown, span, frame: frame.duplicate() },
        progress,
    ) {
        Ok(_) => outcome,
        Err(stop) => Err(stop),
    }
}

fn invoke<'a>(
    capability: usize,
    operation: usize,
    arguments: Vec<Value>,
    options: Object,
    span: Span,
    frame: &Frame,
    progress: &mut Progress<'_>,
) -> (outcome: Result<Value, Stop<'a>>)
    ensures
        (value_result(outcome), final(progress).model()) == invoked(
            capability as int,
            operation as int,
            value_models(arguments@),
            options.model(),
            span,
            frame.model(),
            old(progress).model(),
        ),
{
    collect_secrets(&mut progress.secrets, &arguments, &options);
    proof {
        assert(progress.model() == old(progress).model().knowing(
            operation_secrets(
                old(progress).model().secrets,
                value_models(arguments@),
                options.model(),
            ),
        ));
    }
    if let Some(Reply::Invoked(result)) = progress.reply() {
        progress.advance();
        report(capability, operation, result, span, frame, progress)
    } else {
        Err(
            Stop::Waiting(
                Request::Invoke { capability, operation, arguments, options, span },
            ),
        )
    }
}

fn await_within<'a>(
    timeout: Duration,
    task: Task<'a>,
    span: Span,
    frame: &Frame,
    progress: &mut Progress<'_>,
) -> (outcome: Result<Value, Stop<'a>>)
    ensures
        (value_result(outcome), final(progress).model()) == wait_within(
            timeout,
            task.model(),
            span,
            frame.model(),
            old(progress).model(),
        ),
{
    if let Some(Reply::Ended { result, secrets }) = progress.reply() {
        let outcome: Result<Value, Stop<'a>> = match result {
            Some(Ok(value)) => Ok(value.duplicate()),
            Some(Err(error)) => Err(Stop::Failed(error.duplicate())),
            None => {
                let mut message: String = "deadline exceeded after ".to_owned();
                message.append(format_duration(timeout).as_str());
                Err(fail(message, span, frame, progress))
            },
        };
        progress.advance();
        keep_secrets(&mut progress.secrets, secrets);
        outcome
    } else {
        Err(Stop::Waiting(Request::Within { timeout, task }))
    }
}

fn await_parallel<'a>(
    limit: usize,
    branches: &'a Vec<PlanParallelBranch>,
    locals: &Vec<Option<Value>>,
    context: &ActiveContext,
    frame: &Frame,
    progress: &mut Progress<'_>,
) -> (outcome: Result<Value, Stop<'a>>)
    ensures
        (value_result(outcome), final(progress).model()) == wait_parallel(
            limit as int,
            plan_branch_models(branches@),
            local_models(locals@),
            context.model(),
            frame.model(),
            old(progress).model(),
        ),
{
    let invocation: u64 = match ask_number(progress) {
        Ok(number) => number,
        Err(stop) => {
            return Err(stop);
        },
    };
    match progress.reply() {
        Some(Reply::Joined(Ok(values))) => {
            if values.len() == branches.len() {
                let value: Value = join_branches(branches, values);
                progress.advance();
                return Ok(value);
            }
        },
        Some(Reply::Joined(Err(error))) => {
            let copy: RuntimeError = error.duplicate();
            progress.advance();
            return Err(Stop::Failed(copy));
        },
        _ => {},
    }
    let tasks: Vec<Task<'a>> = list_tasks(
        branches,
        invocation,
        locals,
        context,
        frame,
        &progress.secrets,
    );
    Err(Stop::Waiting(Request::Parallel { limit, invocation, tasks }))
}

fn await_measured<'a>(request: Request<'a>, progress: &mut Progress<'_>) -> (outcome: Result<
    Value,
    Stop<'a>,
>)
    ensures
        (value_result(outcome), final(progress).model()) == wait_measured(
            request.model(),
            old(progress).model(),
        ),
{
    if let Some(Reply::Measured(value)) = progress.reply() {
        let copy: Value = value.duplicate();
        progress.advance();
        Ok(copy)
    } else {
        Err(Stop::Waiting(request))
    }
}

fn exhaust(attempts: usize, error: RuntimeError) -> (result: RuntimeError)
    ensures
        result.model() == exhausted(attempts as int, error.model()),
{
    let mut result: RuntimeError = error;
    let digits: String = decimal_text(attempts as u128);
    let mut message: String = wrapped("retry exhausted after ", digits.as_str(), " attempts: ");
    message.append(result.message.as_str());
    result.message = message;
    result
}

// ---------------------------------------------------------------------------
// Expressions

/// Locals and failed assertions of a row of instructions.
struct Run {
    locals: Vec<Option<Value>>,
    assertions: Vec<AssertionFailure>,
}

impl Run {
    spec fn model(self, progress: ProgressModel) -> RunModel {
        RunModel {
            locals: local_models(self.locals@),
            assertions: failure_models(self.assertions@),
            progress,
        }
    }
}

spec fn ran_model(outcome: Result<Option<Value>, Stop<'_>>, state: Run, progress: ProgressModel) -> Ran {
    (
        match outcome {
            Ok(value) => Ok(optional_value(value)),
            Err(stop) => Err(stop.model()),
        },
        state.model(progress),
    )
}

spec fn context_result(outcome: Result<ActiveContext, Stop<'_>>) -> Result<
    ActiveContextModel,
    StopModel,
> {
    match outcome {
        Ok(context) => Ok(context.model()),
        Err(stop) => Err(stop.model()),
    }
}

fn appended(text: String, suffix: &str) -> (whole: String)
    ensures
        whole@ == text@ + suffix@,
{
    let mut whole: String = text;
    whole.append(suffix);
    whole
}

fn place_arguments(arguments: &Vec<Value>, count: usize) -> (locals: Vec<Option<Value>>)
    ensures
        local_models(locals@) == argument_locals(value_models(arguments@), count as int),
{
    let ghost models = value_models(arguments@);
    let mut locals: Vec<Option<Value>> = Vec::new();
    let mut at: usize = 0;
    while at < count
        invariant
            models == value_models(arguments@),
            at <= count,
            locals@.len() == at,
            forall|i: int|
                0 <= i < at ==> optional_value(#[trigger] locals@[i]) == (if i < models.len() {
                    Some(models[i])
                } else {
                    None
                }),
        decreases count - at,
    {
        if at < arguments.len() {
            proof {
                assert(models[at as int] == arguments@[at as int].model());
            }
            locals.push(Some(arguments[at].duplicate()));
        } else {
            locals.push(None);
        }
        at += 1;
    }
    proof {
        assert(local_models(locals@) =~= argument_locals(models, count as int));
    }
    locals
}

fn test_failure(assertions: Vec<AssertionFailure>, frame: &Frame, progress: &Progress<'_>) -> (error:
    RuntimeError)
    requires
        assertions@.len() > 0,
    ensures
        error.model() == test_error(
            failure_models(assertions@),
            frame.model(),
            progress.model(),
        ),
{
    let message: String = if assertions.len() == 1 {
        assertions[0].message.clone()
    } else {
        appended(decimal_text(assertions.len() as u128), " assertions failed")
    };
    let mut error: RuntimeError = failure(message, assertions[0].span, frame, progress);
    error.assertions = assertions;
    error.assertion_only = true;
    error
}

/// What an execution came to with the replies that it had.
pub struct Turn<'a> {
    pub outcome: Result<Value, Stop<'a>>,
    /// How many replies it used.
    pub used: usize,
    /// The sensitive texts that it knows.
    pub secrets: Vec<String>,
}

impl<'a> Turn<'a> {
    /// Whether the turn is how the evaluation went.
    pub open spec fn shows(self, evaluated: Evaluated) -> bool {
        &&& value_result(self.outcome) == evaluated.0
        &&& self.used == evaluated.1.at
        &&& views(self.secrets@) == evaluated.1.secrets
    }
}

impl<'a> World<'a> {
    pub open spec fn model(self) -> WorldModel {
        WorldModel { plan: self.plan.model(), environment: pair_models(self.environment@) }
    }

    pub fn evaluate(
        &self,
        expression: &'a PlanExpression,
        locals: &Vec<Option<Value>>,
        context: &ActiveContext,
        frame: &Frame,
        progress: &mut Progress<'_>,
    ) -> (outcome: Result<Value, Stop<'a>>)
        ensures
            (value_result(outcome), final(progress).model()) == evaluate(
                self.model(),
                expression.model(),
                local_models(locals@),
                context.model(),
                frame.model(),
                old(progress).model(),
            ),
        decreases depth(frame.model()), expression, 3int,
    {
        proof {
            reveal(PlanExpressionKind::model);
            assert(expression.model().kind == expression.kind.model());
        }
        match &expression.kind {
            PlanExpressionKind::Constant(constant) => Ok(value_of(constant)),
            PlanExpressionKind::Local(_) => self.evaluate_name(
                expression,
                locals,
                context,
                frame,
                progress,
            ),
            PlanExpressionKind::Context(_) => self.evaluate_name(
                expression,
                locals,
                context,
                frame,
                progress,
            ),
            PlanExpressionKind::Environment(_) => self.evaluate_name(
                expression,
                locals,
                context,
                frame,
                progress,
            ),
            PlanExpressionKind::Array(_) => self.evaluate_list_kind(
                expression,
                locals,
                context,
                frame,
                progress,
            ),
            PlanExpressionKind::Object(_) => self.evaluate_list_kind(
                expression,
                locals,
                context,
                frame,
                progress,
            ),
            PlanExpressionKind::InterpolatedString(_) => self.evaluate_list_kind(
                expression,
                locals,
                context,
                frame,
                progress,
            ),
            PlanExpressionKind::Sensitive(_) => self.evaluate_unary(
                expression,
                locals,
                context,
                frame,
                progress,
            ),
            PlanExpressionKind::Member { .. } => self.evaluate_unary(
                expression,
                locals,
                context,
                frame,
                progress,
            ),
            PlanExpressionKind::Not(_) => self.evaluate_unary(
                expression,
                locals,
                context,
                frame,
                progress,
            ),
            PlanExpressionKind::Negate(_) => self.evaluate_unary(
                expression,
                locals,
                context,
                frame,
                progress,
            ),
            PlanExpressionKind::Fail(_) => self.evaluate_unary(
                expression,
                locals,
                context,
                frame,
                progress,
            ),
            PlanExpressionKind::Index { .. } => self.evaluate_index(
                expression,
                locals,
                context,
                frame,
                progress,
            ),
            PlanExpressionKind::Binary { .. } => self.evaluate_operator(
                expression,
                locals,
                context,
                frame,
                progress,
            ),
            PlanExpressionKind::Block { .. } => self.evaluate_block(
                expression,
                locals,
                context,
                frame,
                progress,
            ),
            PlanExpressionKind::For { .. } => self.evaluate_loop(
                expression,
                locals,
                context,
                frame,
                progress,
            ),
            PlanExpressionKind::MettleCall { .. } => self.evaluate_call(
                expression,
                locals,
                context,
                frame,
                progress,
            ),
            PlanExpressionKind::CapabilityCall { .. } => self.evaluate_operation(
                expression,
                locals,
                context,
                frame,
                progress,
            ),
            PlanExpressionKind::Retry { .. } => self.evaluate_retry(
                expression,
                locals,
                context,
                frame,
                progress,
            ),
            PlanExpressionKind::Within { .. } => self.evaluate_policy(
                expression,
                locals,
                context,
                frame,
                progress,
            ),
            PlanExpressionKind::Parallel { .. } => self.evaluate_policy(
                expression,
                locals,
                context,
                frame,
                progress,
            ),
            PlanExpressionKind::Rate { .. } => self.evaluate_policy(
                expression,
                locals,
                context,
                frame,
                progress,
            ),
            PlanExpressionKind::Concurrency { .. } => self.evaluate_policy(
                expression,
                locals,
                context,
                frame,
                progress,
            ),
        }
    }

    fn evaluate_name(
        &self,
        expression: &'a PlanExpression,
        locals: &Vec<Option<Value>>,
        context: &ActiveContext,
        frame: &Frame,
        progress: &mut Progress<'_>,
    ) -> (outcome: Result<Value, Stop<'a>>)
        requires
            expression.model().kind is Local || expression.model().kind is Context || expression.model().kind is Environment,
        ensures
            (value_result(outcome), final(progress).model()) == evaluate(
                self.model(),
                expression.model(),
                local_models(locals@),
                context.model(),
                frame.model(),
                old(progress).model(),
            ),
        decreases depth(frame.model()), expression, 1int,
    {
        proof {
            reveal(PlanExpressionKind::model);
            assert(expression.model().kind == expression.kind.model());
        }
        let span: Span = expression.span;
        match &expression.kind {
            PlanExpressionKind::Local(slot) => {
                if *slot < locals.len() {
                    if let Some(value) = &locals[*slot] {
                        return Ok(value.duplicate());
                    }
                }
                Err(
                    fail_with(
                        "execution plan read an uninitialized local value",
                        span,
                        frame,
                        progress,
                    ),
                )
            },
            PlanExpressionKind::Context(slot) => {
                if *slot < context.values.len() {
                    proof {
                        assert(value_models(context.values@)[*slot as int]
                            == context.values@[*slot as int].model());
                    }
                    return Ok(context.values[*slot].duplicate());
                }
                Err(
                    fail_with(
                        "execution plan read an uninitialized context value",
                        span,
                        frame,
                        progress,
                    ),
                )
            },
            PlanExpressionKind::Environment(name) => match find_variable(
                self.environment,
                name.as_str(),
            ) {
                Some(value) => Ok(Value::String(value)),
                None => Err(
                    fail(
                        wrapped(
                            "required environment variable `",
                            name.as_str(),
                            "` is not set",
                        ),
                        span,
                        frame,
                        progress,
                    ),
                ),
            },
            _ => {
                proof {
                    assert(false);
                }
                Ok(Value::Null)
            },
        }
    }

    fn evaluate_list_kind(
        &self,
        expression: &'a PlanExpression,
        locals: &Vec<Option<Value>>,
        context: &ActiveContext,
        frame: &Frame,
        progress: &mut Progress<'_>,
    ) -> (outcome: Result<Value, Stop<'a>>)
        requires
            expression.model().kind is Array || expression.model().kind is Object || expression.model().kind is InterpolatedString,
        ensures
            (value_result(outcome), final(progress).model()) == evaluate(
                self.model(),
                expression.model(),
                local_models(locals@),
                context.model(),
                frame.model(),
                old(progress).model(),
            ),
        decreases depth(frame.model()), expression, 2int,
    {
        proof {
            reveal(PlanExpressionKind::model);
            assert(expression.model().kind == expression.kind.model());
        }
        match &expression.kind {
            PlanExpressionKind::Array(values) => match self.evaluate_list(
                values,
                locals,
                context,
                frame,
                progress,
            ) {
                Ok(items) => Ok(Value::Array(items)),
                Err(stop) => Err(stop),
            },
            PlanExpressionKind::Object(fields) => match self.evaluate_fields(
                fields,
                locals,
                context,
                frame,
                progress,
            ) {
                Ok(object) => Ok(Value::Object(object)),
                Err(stop) => Err(stop),
            },
            PlanExpressionKind::InterpolatedString(parts) => match self.evaluate_parts(
                parts,
                locals,
                context,
                frame,
                progress,
            ) {
                Ok((text, sensitive)) => Ok(mark(Value::String(text), sensitive)),
                Err(stop) => Err(stop),
            },
            _ => {
                proof {
                    assert(false);
                }
                Ok(Value::Null)
            },
        }
    }

    fn evaluate_policy(
        &self,
        expression: &'a PlanExpression,
        locals: &Vec<Option<Value>>,
        context: &ActiveContext,
        frame: &Frame,
        progress: &mut Progress<'_>,
    ) -> (outcome: Result<Value, Stop<'a>>)
        requires
            expression.model().kind is Within || expression.model().kind is Parallel || expression.model().kind is Rate || expression.model().kind is Concurrency,
        ensures
            (value_result(outcome), final(progress).model()) == evaluate(
                self.model(),
                expression.model(),
                local_models(locals@),
                context.model(),
                frame.model(),
                old(progress).model(),
            ),
        decreases depth(frame.model()), expression, 1int,
    {
        proof {
            reveal(PlanExpressionKind::model);
            assert(expression.model().kind == expression.kind.model());
        }
        let span: Span = expression.span;
        match &expression.kind {
            PlanExpressionKind::Within { timeout, body } => {
                let task: Task<'a> = Task {
                    expression: &**body,
                    locals: copied_locals(locals),
                    context: context.duplicate(),
                    frame: frame.duplicate(),
                    secrets: copied_texts(&progress.secrets),
                };
                await_within(*timeout, task, span, frame, progress)
            },
            PlanExpressionKind::Parallel { limit, branches } => await_parallel(
                *limit,
                branches,
                locals,
                context,
                frame,
                progress,
            ),
            PlanExpressionKind::Rate { target, period, duration, limit, body } => {
                let task: Task<'a> = Task {
                    expression: &**body,
                    locals: copied_locals(locals),
                    context: context.duplicate(),
                    frame: frame.loaded(),
                    secrets: copied_texts(&progress.secrets),
                };
                await_measured(
                    Request::Rate {
                        target: *target,
                        period: *period,
                        duration: *duration,
                        limit: *limit,
                        task,
                    },
                    progress,
                )
            },
            PlanExpressionKind::Concurrency { limit, duration, body } => {
                let task: Task<'a> = Task {
                    expression: &**body,
                    locals: copied_locals(locals),
                    context: context.duplicate(),
                    frame: frame.loaded(),
                    secrets: copied_texts(&progress.secrets),
                };
                await_measured(
                    Request::Concurrency { limit: *limit, duration: *duration, task },
                    progress,
                )
            },
            _ => {
                proof {
                    assert(false);
                }
                Ok(Value::Null)
            },
        }
    }

    fn evaluate_list(
        &self,
        values: &'a Vec<PlanExpression>,
        locals: &Vec<Option<Value>>,
        context: &ActiveContext,
        frame: &Frame,
        progress: &mut Progress<'_>,
    ) -> (outcome: Result<Vec<Value>, Stop<'a>>)
        ensures
            (
                match outcome {
                    Ok(items) => Ok(value_models(items@)),
                    Err(stop) => Err(stop.model()),
                },
                final(progress).model(),
            ) == evaluate_list(
                self.model(),
                plan_models(values@),
                0,
                local_models(locals@),
                context.model(),
                frame.model(),
                old(progress).model(),
                Seq::empty(),
            ),
        decreases depth(frame.model()), values, 0int,
    {
        let ghost models = plan_models(values@);
        let ghost world = self.model();
        let ghost scope = local_models(locals@);
        let ghost active = context.model();
        let ghost place = frame.model();
        let ghost start = progress.model();
        let mut items: Vec<Value> = Vec::new();
        proof {
            assert(value_models(items@) =~= Seq::empty());
        }
        let mut at: usize = 0;
        while at < values.len()
            invariant
                models == plan_models(values@),
                world == self.model(),
                scope == local_models(locals@),
                active == context.model(),
                place == frame.model(),
                start == old(progress).model(),
                at <= values@.len(),
                evaluate_list(world, models, 0, scope, active, place, start, Seq::empty(),)
                    == evaluate_list(
                    world,
                    models,
                    at as int,
                    scope,
                    active,
                    place,
                    progress.model(),
                    value_models(items@),
                ),
            decreases values@.len() - at,
        {
            proof {
                assert(models[at as int] == values@[at as int].model());
            }
            let value: Value = match self.evaluate(&values[at], locals, context, frame, progress) {
                Ok(value) => value,
                Err(stop) => {
                    return Err(stop);
                },
            };
            let ghost before = value_models(items@);
            items.push(value);
            proof {
                assert(value_models(items@) =~= before.push(value.model()));
            }
            at += 1;
        }
        Ok(items)
    }

    fn evaluate_fields(
        &self,
        fields: &'a Vec<PlanField>,
        locals: &Vec<Option<Value>>,
        context: &ActiveContext,
        frame: &Frame,
        progress: &mut Progress<'_>,
    ) -> (outcome: Result<Object, Stop<'a>>)
        ensures
            (
                match outcome {
                    Ok(object) => Ok(object.model()),
                    Err(stop) => Err(stop.model()),
                },
                final(progress).model(),
            ) == evaluate_fields(
                self.model(),
                plan_field_models(fields@),
                0,
                local_models(locals@),
                context.model(),
                frame.model(),
                old(progress).model(),
                Seq::empty(),
            ),
        decreases depth(frame.model()), fields, 0int,
    {
        let ghost models = plan_field_models(fields@);
        let ghost world = self.model();
        let ghost scope = local_models(locals@);
        let ghost active = context.model();
        let ghost place = frame.model();
        let ghost start = progress.model();
        let mut object: Object = Object::new();
        let mut at: usize = 0;
        while at < fields.len()
            invariant
                models == plan_field_models(fields@),
                world == self.model(),
                scope == local_models(locals@),
                active == context.model(),
                place == frame.model(),
                start == old(progress).model(),
                at <= fields@.len(),
                evaluate_fields(world, models, 0, scope, active, place, start, Seq::empty(),)
                    == evaluate_fields(
                    world,
                    models,
                    at as int,
                    scope,
                    active,
                    place,
                    progress.model(),
                    object.model(),
                ),
            decreases fields@.len() - at,
        {
            proof {
                assert(models[at as int] == fields@[at as int].model());
                assert(models[at as int].expression == fields@[at as int].expression.model());
            }
            let value: Value = match self.evaluate(&fields[at].expression, locals, context, frame, progress) {
                Ok(value) => value,
                Err(stop) => {
                    return Err(stop);
                },
            };
            object.insert(fields[at].name.clone(), value);
            at += 1;
        }
        Ok(object)
    }

    fn evaluate_parts(
        &self,
        parts: &'a Vec<StringPart>,
        locals: &Vec<Option<Value>>,
        context: &ActiveContext,
        frame: &Frame,
        progress: &mut Progress<'_>,
    ) -> (outcome: Result<(String, bool), Stop<'a>>)
        ensures
            (
                match outcome {
                    Ok((text, sensitive)) => Ok((text@, sensitive)),
                    Err(stop) => Err(stop.model()),
                },
                final(progress).model(),
            ) == evaluate_parts(
                self.model(),
                part_models(parts@),
                0,
                local_models(locals@),
                context.model(),
                frame.model(),
                old(progress).model(),
                Seq::empty(),
                false,
            ),
        decreases depth(frame.model()), parts, 0int,
    {
        let ghost models = part_models(parts@);
        let ghost world = self.model();
        let ghost scope = local_models(locals@);
        let ghost active = context.model();
        let ghost place = frame.model();
        let ghost start = progress.model();
        let mut text: String = no_text();
        let mut sensitive: bool = false;
        proof {
            assert(text@ =~= Seq::empty());
        }
        let mut at: usize = 0;
        while at < parts.len()
            invariant
                models == part_models(parts@),
                world == self.model(),
                scope == local_models(locals@),
                active == context.model(),
                place == frame.model(),
                start == old(progress).model(),
                at <= parts@.len(),
                evaluate_parts(world, models, 0, scope, active, place, start, Seq::empty(), false)
                    == evaluate_parts(
                    world,
                    models,
                    at as int,
                    scope,
                    active,
                    place,
                    progress.model(),
                    text@,
                    sensitive,
                ),
            decreases parts@.len() - at,
        {
            proof {
                assert(models[at as int] == parts@[at as int].model());
            }
            match &parts[at] {
                StringPart::Text(words) => {
                    text.append(words.as_str());
                },
                StringPart::Value(expression) => {
                    let value: Value = match self.evaluate(
                        expression,
                        locals,
                        context,
                        frame,
                        progress,
                    ) {
                        Ok(value) => value,
                        Err(stop) => {
                            return Err(stop);
                        },
                    };
                    if value.contains_sensitive() {
                        sensitive = true;
                    }
                    text.append(value.exposed_string().as_str());
                },
            }
            at += 1;
        }
        Ok((text, sensitive))
    }

    fn evaluate_unary(
        &self,
        expression: &'a PlanExpression,
        locals: &Vec<Option<Value>>,
        context: &ActiveContext,
        frame: &Frame,
        progress: &mut Progress<'_>,
    ) -> (outcome: Result<Value, Stop<'a>>)
        requires
            is_unary(expression.model().kind),
        ensures
            (value_result(outcome), final(progress).model()) == evaluate_unary(
                self.model(),
                expression.model(),
                local_models(locals@),
                context.model(),
                frame.model(),
                old(progress).model(),
            ),
        decreases depth(frame.model()), expression, 1int,
    {
        proof {
            reveal(PlanExpressionKind::model);
            assert(expression.model().kind == expression.kind.model());
        }
        let inner: &'a PlanExpression = match &expression.kind {
            PlanExpressionKind::Sensitive(value) => &**value,
            PlanExpressionKind::Member { value, .. } => &**value,
            PlanExpressionKind::Not(value) => &**value,
            PlanExpressionKind::Negate(value) => &**value,
            PlanExpressionKind::Fail(value) => &**value,
            _ => expression,
        };
        proof {
            assert(inner.model() == operand(expression.model().kind));
        }
        let value: Value = match self.evaluate(inner, locals, context, frame, progress) {
            Ok(value) => value,
            Err(stop) => {
                return Err(stop);
            },
        };
        let result: Result<Value, String> = match &expression.kind {
            PlanExpressionKind::Sensitive(_) => Ok(value.sensitive()),
            PlanExpressionKind::Member { member, .. } => read_member(&value, member.as_str()),
            PlanExpressionKind::Not(_) => negate_truth(&value),
            PlanExpressionKind::Negate(_) => negate_number(&value),
            _ => match read_message(&value) {
                Some(message) => Err(message),
                None => Err("fail message produced a non-string value".to_owned()),
            },
        };
        match result {
            Ok(value) => Ok(value),
            Err(message) => Err(fail(message, expression.span, frame, progress)),
        }
    }

    fn evaluate_index(
        &self,
        expression: &'a PlanExpression,
        locals: &Vec<Option<Value>>,
        context: &ActiveContext,
        frame: &Frame,
        progress: &mut Progress<'_>,
    ) -> (outcome: Result<Value, Stop<'a>>)
        requires
            expression.model().kind is Index,
        ensures
            (value_result(outcome), final(progress).model()) == evaluate_index(
                self.model(),
                expression.model(),
                local_models(locals@),
                context.model(),
                frame.model(),
                old(progress).model(),
            ),
        decreases depth(frame.model()), expression, 1int,
    {
        proof {
            reveal(PlanExpressionKind::model);
            assert(expression.model().kind == expression.kind.model());
        }
        match &expression.kind {
            PlanExpressionKind::Index { value, index } => {
                let value: Value = match self.evaluate(&**value, locals, context, frame, progress) {
                    Ok(value) => value,
                    Err(stop) => {
                        return Err(stop);
                    },
                };
                let index: Value = match self.evaluate(&**index, locals, context, frame, progress) {
                    Ok(index) => index,
                    Err(stop) => {
                        return Err(stop);
                    },
                };
                match read_index(&value, &index) {
                    Ok(result) => Ok(result),
                    Err(message) => Err(fail(message, expression.span, frame, progress)),
                }
            },
            _ => {
                proof {
                    assert(false);
                }
                Ok(Value::Null)
            },
        }
    }

    fn evaluate_operator(
        &self,
        expression: &'a PlanExpression,
        locals: &Vec<Option<Value>>,
        context: &ActiveContext,
        frame: &Frame,
        progress: &mut Progress<'_>,
    ) -> (outcome: Result<Value, Stop<'a>>)
        requires
            expression.model().kind is Binary,
        ensures
            (value_result(outcome), final(progress).model()) == evaluate_operator(
                self.model(),
                expression.model(),
                local_models(locals@),
                context.model(),
                frame.model(),
                old(progress).model(),
            ),
        decreases depth(frame.model()), expression, 1int,
    {
        proof {
            reveal(PlanExpressionKind::model);
            assert(expression.model().kind == expression.kind.model());
        }
        let span: Span = expression.span;
        match &expression.kind {
            PlanExpressionKind::Binary { left, operator, right } => {
                let first: Value = match self.evaluate(&**left, locals, context, frame, progress) {
                    Ok(first) => first,
                    Err(stop) => {
                        return Err(stop);
                    },
                };
                if *operator == BinaryOperator::And || *operator == BinaryOperator::Or {
                    let truth: bool = match read_truth(&first) {
                        Ok(truth) => truth,
                        Err(message) => {
                            return Err(fail(message, span, frame, progress));
                        },
                    };
                    if truth == (*operator == BinaryOperator::Or) {
                        return Ok(Value::Boolean(truth));
                    }
                    let second: Value = match self.evaluate(&**right, locals, context, frame, progress) {
                        Ok(second) => second,
                        Err(stop) => {
                            return Err(stop);
                        },
                    };
                    return match read_truth(&second) {
                        Ok(truth) => Ok(Value::Boolean(truth)),
                        Err(message) => Err(fail(message, span, frame, progress)),
                    };
                }
                let second: Value = match self.evaluate(&**right, locals, context, frame, progress) {
                    Ok(second) => second,
                    Err(stop) => {
                        return Err(stop);
                    },
                };
                match evaluate_binary(&first, *operator, &second) {
                    Ok(truth) => Ok(Value::Boolean(truth)),
                    Err(message) => Err(fail(message, span, frame, progress)),
                }
            },
            _ => {
                proof {
                    assert(false);
                }
                Ok(Value::Null)
            },
        }
    }

    fn evaluate_call(
        &self,
        expression: &'a PlanExpression,
        locals: &Vec<Option<Value>>,
        context: &ActiveContext,
        frame: &Frame,
        progress: &mut Progress<'_>,
    ) -> (outcome: Result<Value, Stop<'a>>)
        requires
            expression.model().kind is MettleCall,
        ensures
            (value_result(outcome), final(progress).model()) == evaluate_call(
                self.model(),
                expression.model(),
                local_models(locals@),
                context.model(),
                frame.model(),
                old(progress).model(),
            ),
        decreases depth(frame.model()), expression, 1int,
    {
        proof {
            reveal(PlanExpressionKind::model);
            assert(expression.model().kind == expression.kind.model());
        }
        match &expression.kind {
            PlanExpressionKind::MettleCall { flow, arguments, evaluation_order } => {
                let slots: Vec<Option<Value>> = match self.evaluate_listed(
                    evaluation_order,
                    arguments,
                    locals,
                    context,
                    frame,
                    progress,
                ) {
                    Ok(slots) => slots,
                    Err(stop) => {
                        return Err(stop);
                    },
                };
                let values: Vec<Value> = match take_all(slots) {
                    Some(values) => values,
                    None => {
                        return Err(
                            fail_with(
                                "execution plan leaves an argument without a value",
                                expression.span,
                                frame,
                                progress,
                            ),
                        );
                    },
                };
                if let Some(message) = self.find_call_fault(*flow, values.len(), frame) {
                    return Err(fail(message, Span::new(0, 0), frame, progress));
                }
                let target: &'a MettlePlan = &self.plan.flows[*flow];
                proof {
                    assert(self.model().plan.flows[*flow as int] == target.model());
                }
                let inner: Frame = frame.calling(target.display_name.as_str());
                self.run_flow(target, values, context, &inner, progress)
            },
            _ => {
                proof {
                    assert(false);
                }
                Ok(Value::Null)
            },
        }
    }

    fn evaluate_listed(
        &self,
        order: &Vec<usize>,
        arguments: &'a Vec<PlanExpression>,
        locals: &Vec<Option<Value>>,
        context: &ActiveContext,
        frame: &Frame,
        progress: &mut Progress<'_>,
    ) -> (outcome: Result<Vec<Option<Value>>, Stop<'a>>)
        ensures
            (
                match outcome {
                    Ok(values) => Ok(local_models(values@)),
                    Err(stop) => Err(stop.model()),
                },
                final(progress).model(),
            ) == evaluate_listed(
                self.model(),
                numbers(order@),
                0,
                plan_models(arguments@),
                local_models(locals@),
                context.model(),
                frame.model(),
                old(progress).model(),
                empty_slots(arguments@.len()),
            ),
            outcome matches Ok(values) ==> values@.len() == arguments@.len(),
        decreases depth(frame.model()), arguments, 0int,
    {
        let ghost models = plan_models(arguments@);
        let ghost places = numbers(order@);
        let ghost world = self.model();
        let ghost scope = local_models(locals@);
        let ghost active = context.model();
        let ghost place = frame.model();
        let ghost start = progress.model();
        let mut values: Vec<Option<Value>> = no_values(arguments.len());
        let ghost first = local_models(values@);
        let mut at: usize = 0;
        while at < order.len()
            invariant
                models == plan_models(arguments@),
                places == numbers(order@),
                world == self.model(),
                scope == local_models(locals@),
                active == context.model(),
                place == frame.model(),
                start == old(progress).model(),
                first == empty_slots(arguments@.len()),
                values@.len() == arguments@.len(),
                at <= order@.len(),
                evaluate_listed(world, places, 0, models, scope, active, place, start, first)
                    == evaluate_listed(
                    world,
                    places,
                    at as int,
                    models,
                    scope,
                    active,
                    place,
                    progress.model(),
                    local_models(values@),
                ),
            decreases order@.len() - at,
        {
            let slot: usize = order[at];
            proof {
                assert(places[at as int] == slot);
            }
            if slot < arguments.len() {
                proof {
                    assert(models[slot as int] == arguments@[slot as int].model());
                }
                let value: Value = match self.evaluate(
                    &arguments[slot],
                    locals,
                    context,
                    frame,
                    progress,
                ) {
                    Ok(value) => value,
                    Err(stop) => {
                        return Err(stop);
                    },
                };
                store(&mut values, slot, value);
            }
            at += 1;
        }
        Ok(values)
    }

    fn evaluate_operation(
        &self,
        expression: &'a PlanExpression,
        locals: &Vec<Option<Value>>,
        context: &ActiveContext,
        frame: &Frame,
        progress: &mut Progress<'_>,
    ) -> (outcome: Result<Value, Stop<'a>>)
        requires
            expression.model().kind is CapabilityCall,
        ensures
            (value_result(outcome), final(progress).model()) == evaluate_operation(
                self.model(),
                expression.model(),
                local_models(locals@),
                context.model(),
                frame.model(),
                old(progress).model(),
            ),
        decreases depth(frame.model()), expression, 1int,
    {
        proof {
            reveal(PlanExpressionKind::model);
            assert(expression.model().kind == expression.kind.model());
        }
        let span: Span = expression.span;
        match &expression.kind {
            PlanExpressionKind::CapabilityCall {
                capability,
                operation,
                arguments,
                options,
                evaluation_order,
            } => {
                let (slots, settings): (Vec<Option<Value>>, Vec<Option<Value>>) =
                    match self.evaluate_mixed(
                    &expression.kind,
                    locals,
                    context,
                    frame,
                    progress,
                ) {
                    Ok(found) => found,
                    Err(stop) => {
                        return Err(stop);
                    },
                };
                let values: Option<Vec<Value>> = take_all(slots);
                let chosen: Option<Vec<Value>> = take_all(settings);
                let (values, chosen): (Vec<Value>, Vec<Value>) = match (values, chosen) {
                    (Some(values), Some(chosen)) => (values, chosen),
                    _ => {
                        return Err(
                            fail_with(
                                "execution plan leaves an argument without a value",
                                span,
                                frame,
                                progress,
                            ),
                        );
                    },
                };
                if *capability >= self.plan.capability_names.len() {
                    return Err(
                        fail_with(
                            "execution plan references an unknown capability",
                            span,
                            frame,
                            progress,
                        ),
                    );
                }
                let defaults: Object = read_defaults(context, *capability);
                let given: Object = name_options(options, &chosen);
                match ask_merged(*capability, defaults, given, progress) {
                    Ok(effective) => invoke(
                        *capability,
                        *operation,
                        values,
                        effective,
                        span,
                        frame,
                        progress,
                    ),
                    Err(stop) => Err(stop),
                }
            },
            _ => {
                proof {
                    assert(false);
                }
                Ok(Value::Null)
            },
        }
    }

    fn evaluate_mixed(
        &self,
        kind: &'a PlanExpressionKind,
        locals: &Vec<Option<Value>>,
        context: &ActiveContext,
        frame: &Frame,
        progress: &mut Progress<'_>,
    ) -> (outcome: Result<(Vec<Option<Value>>, Vec<Option<Value>>), Stop<'a>>)
        requires
            kind is CapabilityCall,
        ensures
            (
                match outcome {
                    Ok((values, settings)) => Ok(
                        (local_models(values@), local_models(settings@)),
                    ),
                    Err(stop) => Err(stop.model()),
                },
                final(progress).model(),
            ) == evaluate_mixed(
                self.model(),
                kind.model(),
                0,
                local_models(locals@),
                context.model(),
                frame.model(),
                old(progress).model(),
                empty_slots(kind->CapabilityCall_arguments@.len()),
                empty_slots(kind->options@.len()),
            ),
            outcome matches Ok((values, settings)) ==> values@.len()
                == kind->CapabilityCall_arguments@.len() && settings@.len()
                == kind->options@.len(),
        decreases depth(frame.model()), kind, 0int,
    {
        match kind {
            PlanExpressionKind::CapabilityCall {
                capability,
                operation,
                arguments,
                options,
                evaluation_order,
            } => {
                let ghost whole = kind.model();
                let ghost world = self.model();
                let ghost scope = local_models(locals@);
                let ghost active = context.model();
                let ghost place = frame.model();
                let ghost start = progress.model();
                proof {
                    reveal(PlanExpressionKind::model);
                    assert(whole == (PlanExpressionKindModel::CapabilityCall {
                        capability: *capability as int,
                        operation: *operation as int,
                        arguments: plan_models(arguments@),
                        options: plan_field_models(options@),
                        evaluation_order: evaluation_order@,
                    }));
                }
                let mut values: Vec<Option<Value>> = no_values(arguments.len());
                let mut settings: Vec<Option<Value>> = no_values(options.len());
                let ghost first = local_models(values@);
                let ghost second = local_models(settings@);
                let mut at: usize = 0;
                while at < evaluation_order.len()
                    invariant
                        whole == (PlanExpressionKindModel::CapabilityCall {
                            capability: *capability as int,
                            operation: *operation as int,
                            arguments: plan_models(arguments@),
                            options: plan_field_models(options@),
                            evaluation_order: evaluation_order@,
                        }),
                        whole == kind.model(),
                        *kind == (PlanExpressionKind::CapabilityCall {
                            capability: *capability,
                            operation: *operation,
                            arguments: *arguments,
                            options: *options,
                            evaluation_order: *evaluation_order,
                        }),
                        world == self.model(),
                        scope == local_models(locals@),
                        active == context.model(),
                        place == frame.model(),
                        start == old(progress).model(),
                        first == empty_slots(arguments@.len()),
                        second == empty_slots(options@.len()),
                        values@.len() == arguments@.len(),
                        settings@.len() == options@.len(),
                        at <= evaluation_order@.len(),
                        evaluate_mixed(
                            world,
                            whole,
                            0,
                            scope,
                            active,
                            place,
                            start,
                            first,
                            second,
                        ) == evaluate_mixed(
                            world,
                            whole,
                            at as int,
                            scope,
                            active,
                            place,
                            progress.model(),
                            local_models(values@),
                            local_models(settings@),
                        ),
                    decreases evaluation_order@.len() - at,
                {
                    match evaluation_order[at] {
                        CallEvaluation::Parameter(slot) => {
                            if slot < arguments.len() {
                                proof {
                                    assert(plan_models(arguments@)[slot as int]
                                        == arguments@[slot as int].model());
                                    assert(decreases_to!(*kind => kind->CapabilityCall_arguments));
                                    assert(decreases_to!(*arguments => arguments@));
                                    assert(decreases_to!(arguments@ => arguments@[slot as int]));
                                }
                                let value: Value = match self.evaluate(
                                    &arguments[slot],
                                    locals,
                                    context,
                                    frame,
                                    progress,
                                ) {
                                    Ok(value) => value,
                                    Err(stop) => {
                                        return Err(stop);
                                    },
                                };
                                store(&mut values, slot, value);
                            }
                        },
                        CallEvaluation::Option(slot) => {
                            if slot < options.len() {
                                proof {
                                    assert(plan_field_models(options@)[slot as int]
                                        == options@[slot as int].model());
                                    assert(plan_field_models(options@)[slot as int].expression
                                        == options@[slot as int].expression.model());
                                    assert(decreases_to!(*kind => kind->options));
                                    assert(decreases_to!(*options => options@));
                                    assert(decreases_to!(options@ => options@[slot as int]));
                                }
                                let value: Value = match self.evaluate(
                                    &options[slot].expression,
                                    locals,
                                    context,
                                    frame,
                                    progress,
                                ) {
                                    Ok(value) => value,
                                    Err(stop) => {
                                        return Err(stop);
                                    },
                                };
                                store(&mut settings, slot, value);
                            }
                        },
                    }
                    at += 1;
                }
                Ok((values, settings))
            },
            _ => {
                proof {
                    assert(false);
                }
                Ok((Vec::new(), Vec::new()))
            },
        }
    }

    fn evaluate_retry(
        &self,
        expression: &'a PlanExpression,
        locals: &Vec<Option<Value>>,
        context: &ActiveContext,
        frame: &Frame,
        progress: &mut Progress<'_>,
    ) -> (outcome: Result<Value, Stop<'a>>)
        requires
            expression.model().kind is Retry,
        ensures
            (value_result(outcome), final(progress).model()) == evaluate_retry(
                self.model(),
                expression.model(),
                local_models(locals@),
                context.model(),
                frame.model(),
                old(progress).model(),
            ),
        decreases depth(frame.model()), expression, 1int,
    {
        proof {
            reveal(PlanExpressionKind::model);
            assert(expression.model().kind == expression.kind.model());
        }
        match &expression.kind {
            PlanExpressionKind::Retry { attempts, delay, body } => {
                let invocation: u64 = match ask_number(progress) {
                    Ok(number) => number,
                    Err(stop) => {
                        return Err(stop);
                    },
                };
                self.evaluate_attempts(
                    &**body,
                    *attempts,
                    *delay,
                    invocation,
                    locals,
                    context,
                    frame,
                    progress,
                )
            },
            _ => {
                proof {
                    assert(false);
                }
                Ok(Value::Null)
            },
        }
    }

    fn evaluate_attempts(
        &self,
        body: &'a PlanExpression,
        attempts: usize,
        delay: Duration,
        invocation: u64,
        locals: &Vec<Option<Value>>,
        context: &ActiveContext,
        frame: &Frame,
        progress: &mut Progress<'_>,
    ) -> (outcome: Result<Value, Stop<'a>>)
        ensures
            (value_result(outcome), final(progress).model()) == evaluate_attempts(
                self.model(),
                body.model(),
                0,
                attempts as int,
                delay,
                invocation,
                local_models(locals@),
                context.model(),
                frame.model(),
                old(progress).model(),
            ),
        decreases depth(frame.model()), body, 4int,
    {
        let ghost world = self.model();
        let ghost work = body.model();
        let ghost scope = local_models(locals@);
        let ghost active = context.model();
        let ghost place = frame.model();
        let ghost start = progress.model();
        let mut attempt: usize = 0;
        while attempt < attempts
            invariant
                world == self.model(),
                work == body.model(),
                scope == local_models(locals@),
                active == context.model(),
                place == frame.model(),
                start == old(progress).model(),
                attempt <= attempts,
                evaluate_attempts(
                    world,
                    work,
                    0,
                    attempts as int,
                    delay,
                    invocation,
                    scope,
                    active,
                    place,
                    start,
                ) == evaluate_attempts(
                    world,
                    work,
                    attempt as int,
                    attempts as int,
                    delay,
                    invocation,
                    scope,
                    active,
                    place,
                    progress.model(),
                ),
            decreases attempts - attempt,
        {
            let inner: Frame = frame.within(
                ExecutionScope::Retry { invocation, attempt: attempt + 1, total: attempts },
            );
            proof {
                assert(depth(inner.model()) == depth(frame.model()));
            }
            match self.evaluate(body, locals, context, &inner, progress) {
                Ok(value) => {
                    return Ok(value);
                },
                Err(Stop::Waiting(request)) => {
                    return Err(Stop::Waiting(request));
                },
                Err(Stop::Failed(error)) => {
                    if attempt + 1 >= attempts {
                        return Err(Stop::Failed(exhaust(attempts, error)));
                    }
                    if delay.nanos != 0 {
                        match acknowledge(Request::Sleep(delay), progress) {
                            Ok(_) => {},
                            Err(stop) => {
                                return Err(stop);
                            },
                        }
                    }
                },
            }
            attempt += 1;
        }
        Err(
            fail_with(
                "execution plan retries without an attempt",
                body.span,
                frame,
                progress,
            ),
        )
    }

    fn run(
        &self,
        instructions: &'a Vec<Instruction>,
        collect: bool,
        context: &ActiveContext,
        frame: &Frame,
        state: &mut Run,
        progress: &mut Progress<'_>,
    ) -> (outcome: Result<Option<Value>, Stop<'a>>)
        ensures
            ran_model(outcome, *final(state), final(progress).model()) == run(
                self.model(),
                instruction_models(instructions@),
                0,
                collect,
                context.model(),
                frame.model(),
                old(state).model(old(progress).model()),
            ),
            final(state).locals@.len() == old(state).locals@.len(),
        decreases depth(frame.model()), instructions, 0int,
    {
        let ghost models = instruction_models(instructions@);
        let ghost world = self.model();
        let ghost active = context.model();
        let ghost place = frame.model();
        let ghost start = state.model(progress.model());
        let mut at: usize = 0;
        while at < instructions.len()
            invariant
                models == instruction_models(instructions@),
                world == self.model(),
                active == context.model(),
                place == frame.model(),
                start == old(state).model(old(progress).model()),
                state.locals@.len() == old(state).locals@.len(),
                at <= instructions@.len(),
                run(world, models, 0, collect, active, place, start) == run(
                    world,
                    models,
                    at as int,
                    collect,
                    active,
                    place,
                    state.model(progress.model()),
                ),
            decreases instructions@.len() - at,
        {
            proof {
                assert(models[at as int] == instructions@[at as int].model());
            }
            match self.run_one(&instructions[at], collect, context, frame, state, progress) {
                Ok(None) => {},
                Ok(Some(value)) => {
                    return Ok(Some(value));
                },
                Err(stop) => {
                    return Err(stop);
                },
            }
            at += 1;
        }
        Ok(None)
    }

    fn run_one(
        &self,
        instruction: &'a Instruction,
        collect: bool,
        context: &ActiveContext,
        frame: &Frame,
        state: &mut Run,
        progress: &mut Progress<'_>,
    ) -> (outcome: Result<Option<Value>, Stop<'a>>)
        ensures
            ran_model(outcome, *final(state), final(progress).model()) == run_one(
                self.model(),
                instruction.model(),
                collect,
                context.model(),
                frame.model(),
                old(state).model(old(progress).model()),
            ),
            final(state).locals@.len() == old(state).locals@.len(),
        decreases depth(frame.model()), instruction, 2int,
    {
        match instruction {
            Instruction::Echo { .. } => self.run_step(
                instruction,
                collect,
                context,
                frame,
                state,
                progress,
            ),
            Instruction::Bind { .. } => self.run_step(
                instruction,
                collect,
                context,
                frame,
                state,
                progress,
            ),
            Instruction::Evaluate(_) => self.run_value(
                instruction,
                collect,
                context,
                frame,
                state,
                progress,
            ),
            Instruction::Return(_) => self.run_value(
                instruction,
                collect,
                context,
                frame,
                state,
                progress,
            ),
            Instruction::Assert { .. } => self.run_assertion(
                instruction,
                collect,
                context,
                frame,
                state,
                progress,
            ),
            Instruction::If { .. } => self.run_conditional(
                instruction,
                collect,
                context,
                frame,
                state,
                progress,
            ),
        }
    }

    fn run_step(
        &self,
        instruction: &'a Instruction,
        collect: bool,
        context: &ActiveContext,
        frame: &Frame,
        state: &mut Run,
        progress: &mut Progress<'_>,
    ) -> (outcome: Result<Option<Value>, Stop<'a>>)
        requires
            instruction is Echo || instruction is Bind,
        ensures
            ran_model(outcome, *final(state), final(progress).model()) == run_one(
                self.model(),
                instruction.model(),
                collect,
                context.model(),
                frame.model(),
                old(state).model(old(progress).model()),
            ),
            final(state).locals@.len() == old(state).locals@.len(),
        decreases depth(frame.model()), instruction, 1int,
    {
        match instruction {
            Instruction::Echo { value, span } => match self.evaluate(
                value,
                &state.locals,
                context,
                frame,
                progress,
            ) {
                Err(stop) => Err(stop.after(&state.assertions)),
                Ok(value) => match acknowledge(
                    Request::Echo { value, span: *span, frame: frame.duplicate() },
                    progress,
                ) {
                    Err(stop) => Err(stop),
                    Ok(_) => Ok(None),
                },
            },
            Instruction::Bind { slot, expression } => match self.evaluate(
                expression,
                &state.locals,
                context,
                frame,
                progress,
            ) {
                Err(stop) => Err(stop.after(&state.assertions)),
                Ok(value) => {
                    if *slot < state.locals.len() {
                        store(&mut state.locals, *slot, value);
                        Ok(None)
                    } else {
                        let stop: Stop<'a> = fail_with(
                            "execution plan references an invalid local slot",
                            expression.span,
                            frame,
                            progress,
                        );
                        Err(stop.after(&state.assertions))
                    }
                },
            },
            _ => {
                proof {
                    assert(false);
                }
                Ok(None)
            },
        }
    }

    fn run_value(
        &self,
        instruction: &'a Instruction,
        collect: bool,
        context: &ActiveContext,
        frame: &Frame,
        state: &mut Run,
        progress: &mut Progress<'_>,
    ) -> (outcome: Result<Option<Value>, Stop<'a>>)
        requires
            instruction is Evaluate || instruction is Return,
        ensures
            ran_model(outcome, *final(state), final(progress).model()) == run_one(
                self.model(),
                instruction.model(),
                collect,
                context.model(),
                frame.model(),
                old(state).model(old(progress).model()),
            ),
            final(state).locals@.len() == old(state).locals@.len(),
        decreases depth(frame.model()), instruction, 1int,
    {
        match instruction {
            Instruction::Evaluate(expression) => match self.evaluate(
                expression,
                &state.locals,
                context,
                frame,
                progress,
            ) {
                Err(stop) => Err(stop.after(&state.assertions)),
                Ok(_) => Ok(None),
            },
            Instruction::Return(expression) => match self.evaluate(
                expression,
                &state.locals,
                context,
                frame,
                progress,
            ) {
                Err(stop) => Err(stop.after(&state.assertions)),
                Ok(value) => Ok(Some(value)),
            },
            _ => {
                proof {
                    assert(false);
                }
                Ok(None)
            },
        }
    }

    fn run_assertion(
        &self,
        instruction: &'a Instruction,
        collect: bool,
        context: &ActiveContext,
        frame: &Frame,
        state: &mut Run,
        progress: &mut Progress<'_>,
    ) -> (outcome: Result<Option<Value>, Stop<'a>>)
        requires
            instruction is Assert,
        ensures
            ran_model(outcome, *final(state), final(progress).model()) == run_one(
                self.model(),
                instruction.model(),
                collect,
                context.model(),
                frame.model(),
                old(state).model(old(progress).model()),
            ),
            final(state).locals@.len() == old(state).locals@.len(),
        decreases depth(frame.model()), instruction, 1int,
    {
        match instruction {
            Instruction::Assert { .. } => match self.evaluate_assertion(
                instruction,
                &state.locals,
                context,
                frame,
                progress,
            ) {
                Err(stop) => Err(stop.after(&state.assertions)),
                Ok(None) => Ok(None),
                Ok(Some(error)) => {
                    if collect {
                        let ghost before = failure_models(state.assertions@);
                        state.assertions.push(
                            AssertionFailure { message: error.message, span: error.span },
                        );
                        proof {
                            assert(failure_models(state.assertions@) =~= before.push(
                                FailureModel { message: error.message@, span: error.span },
                            ));
                        }
                        Ok(None)
                    } else {
                        let stop: Stop<'a> = Stop::Failed(error);
                        Err(stop.after(&state.assertions))
                    }
                },
            },
            _ => {
                proof {
                    assert(false);
                }
                Ok(None)
            },
        }
    }

    fn run_conditional(
        &self,
        instruction: &'a Instruction,
        collect: bool,
        context: &ActiveContext,
        frame: &Frame,
        state: &mut Run,
        progress: &mut Progress<'_>,
    ) -> (outcome: Result<Option<Value>, Stop<'a>>)
        requires
            instruction is If,
        ensures
            ran_model(outcome, *final(state), final(progress).model()) == run_one(
                self.model(),
                instruction.model(),
                collect,
                context.model(),
                frame.model(),
                old(state).model(old(progress).model()),
            ),
            final(state).locals@.len() == old(state).locals@.len(),
        decreases depth(frame.model()), instruction, 1int,
    {
        match instruction {
            Instruction::If { branches, else_body } => {
                proof {
                    assert(instruction.model() == (InstructionModel::If {
                        branches: conditional_models(branches@),
                        else_body: optional_instructions(*else_body),
                    }));
                    assert(optional_instructions(*else_body) == (match *else_body {
                        Some(body) => Some(instruction_models(body@)),
                        None => None,
                    }));
                }
                let chosen: usize = match self.choose_branch(
                    branches,
                    &state.locals,
                    context,
                    frame,
                    progress,
                ) {
                    Ok(chosen) => chosen,
                    Err(stop) => {
                        return Err(stop.after(&state.assertions));
                    },
                };
                if chosen < branches.len() {
                    proof {
                        assert(conditional_models(branches@)[chosen as int]
                            == branches@[chosen as int].model());
                        assert(conditional_models(branches@)[chosen as int].instructions
                            == instruction_models(branches@[chosen as int].instructions@));
                    }
                    return self.run(
                        &branches[chosen].instructions,
                        collect,
                        context,
                        frame,
                        state,
                        progress,
                    );
                }
                match else_body {
                    Some(body) => self.run(body, collect, context, frame, state, progress),
                    None => Ok(None),
                }
            },
            _ => {
                proof {
                    assert(false);
                }
                Ok(None)
            },
        }
    }

    fn evaluate_assertion(
        &self,
        instruction: &'a Instruction,
        locals: &Vec<Option<Value>>,
        context: &ActiveContext,
        frame: &Frame,
        progress: &mut Progress<'_>,
    ) -> (outcome: Result<Option<RuntimeError>, Stop<'a>>)
        requires
            instruction is Assert,
        ensures
            (
                match outcome {
                    Ok(Some(error)) => Ok(Some(error.model())),
                    Ok(None) => Ok(None),
                    Err(stop) => Err(stop.model()),
                },
                final(progress).model(),
            ) == check_assertion(
                self.model(),
                instruction.model(),
                local_models(locals@),
                context.model(),
                frame.model(),
                old(progress).model(),
            ),
        decreases depth(frame.model()), instruction, 0int,
    {
        match instruction {
            Instruction::Assert { condition, message } => {
                proof {
                    assert(instruction.model() == (InstructionModel::Assert {
                        condition: condition.model(),
                        message: optional_plan(*message),
                    }));
                    assert(optional_plan(*message) == (match *message {
                        Some(message) => Some(message.model()),
                        None => None,
                    }));
                }
                let value: Value = match self.evaluate(
                    condition,
                    locals,
                    context,
                    frame,
                    progress,
                ) {
                    Ok(value) => value,
                    Err(stop) => {
                        return Err(stop);
                    },
                };
                match value.revealed() {
                    Value::Boolean(truth) => {
                        if *truth {
                            return Ok(None);
                        }
                    },
                    _ => {
                        let words: String = with_kind("assertion produced ", &value);
                        return Err(
                            fail(
                                appended(words, ", expected boolean"),
                                condition.span,
                                frame,
                                progress,
                            ),
                        );
                    },
                }
                match message {
                    None => Ok(
                        Some(
                            failure(
                                "assertion failed".to_owned(),
                                condition.span,
                                frame,
                                progress,
                            ),
                        ),
                    ),
                    Some(message) => {
                        let text: Value = match self.evaluate(
                            message,
                            locals,
                            context,
                            frame,
                            progress,
                        ) {
                            Ok(text) => text,
                            Err(stop) => {
                                return Err(stop);
                            },
                        };
                        match read_message(&text) {
                            Some(words) => Ok(
                                Some(failure(words, condition.span, frame, progress)),
                            ),
                            None => Err(
                                fail_with(
                                    "assertion message produced a non-string value",
                                    message.span,
                                    frame,
                                    progress,
                                ),
                            ),
                        }
                    },
                }
            },
            _ => {
                proof {
                    assert(false);
                }
                Ok(None)
            },
        }
    }

    fn choose_branch(
        &self,
        branches: &'a Vec<ConditionalBranch>,
        locals: &Vec<Option<Value>>,
        context: &ActiveContext,
        frame: &Frame,
        progress: &mut Progress<'_>,
    ) -> (outcome: Result<usize, Stop<'a>>)
        ensures
            (
                match outcome {
                    Ok(chosen) => Ok(chosen as int),
                    Err(stop) => Err(stop.model()),
                },
                final(progress).model(),
            ) == choose_branch(
                self.model(),
                conditional_models(branches@),
                0,
                local_models(locals@),
                context.model(),
                frame.model(),
                old(progress).model(),
            ),
        decreases depth(frame.model()), branches, 0int,
    {
        let ghost models = conditional_models(branches@);
        let ghost world = self.model();
        let ghost scope = local_models(locals@);
        let ghost active = context.model();
        let ghost place = frame.model();
        let ghost start = progress.model();
        let mut at: usize = 0;
        while at < branches.len()
            invariant
                models == conditional_models(branches@),
                world == self.model(),
                scope == local_models(locals@),
                active == context.model(),
                place == frame.model(),
                start == old(progress).model(),
                at <= branches@.len(),
                choose_branch(world, models, 0, scope, active, place, start) == choose_branch(
                    world,
                    models,
                    at as int,
                    scope,
                    active,
                    place,
                    progress.model(),
                ),
            decreases branches@.len() - at,
        {
            let condition: &'a PlanExpression = &branches[at].condition;
            proof {
                assert(models[at as int] == branches@[at as int].model());
                assert(models[at as int].condition == condition.model());
            }
            let value: Value = match self.evaluate(condition, locals, context, frame, progress) {
                Ok(value) => value,
                Err(stop) => {
                    return Err(stop);
                },
            };
            match value.revealed() {
                Value::Boolean(truth) => {
                    if *truth {
                        return Ok(at);
                    }
                },
                _ => {
                    let words: String = with_kind("if condition produced ", &value);
                    return Err(
                        fail(
                            appended(words, ", expected boolean"),
                            condition.span,
                            frame,
                            progress,
                        ),
                    );
                },
            }
            at += 1;
        }
        Ok(branches.len())
    }

    fn evaluate_block(
        &self,
        expression: &'a PlanExpression,
        locals: &Vec<Option<Value>>,
        context: &ActiveContext,
        frame: &Frame,
        progress: &mut Progress<'_>,
    ) -> (outcome: Result<Value, Stop<'a>>)
        requires
            expression.model().kind is Block,
        ensures
            (value_result(outcome), final(progress).model()) == evaluate_block(
                self.model(),
                expression.model(),
                local_models(locals@),
                context.model(),
                frame.model(),
                old(progress).model(),
            ),
        decreases depth(frame.model()), expression, 1int,
    {
        proof {
            reveal(PlanExpressionKind::model);
            assert(expression.model().kind == expression.kind.model());
        }
        match &expression.kind {
            PlanExpressionKind::Block { instructions, local_count } => {
                let mut state: Run = Run {
                    locals: widen(locals, *local_count),
                    assertions: Vec::new(),
                };
                proof {
                    assert(failure_models(state.assertions@) =~= Seq::empty());
                }
                match self.run(instructions, false, context, frame, &mut state, progress) {
                    Err(stop) => Err(stop),
                    Ok(Some(value)) => Ok(value),
                    Ok(None) => Err(
                        fail_with(
                            "value block completed without a value",
                            expression.span,
                            frame,
                            progress,
                        ),
                    ),
                }
            },
            _ => {
                proof {
                    assert(false);
                }
                Ok(Value::Null)
            },
        }
    }

    fn evaluate_loop(
        &self,
        expression: &'a PlanExpression,
        locals: &Vec<Option<Value>>,
        context: &ActiveContext,
        frame: &Frame,
        progress: &mut Progress<'_>,
    ) -> (outcome: Result<Value, Stop<'a>>)
        requires
            expression.model().kind is For,
        ensures
            (value_result(outcome), final(progress).model()) == evaluate_loop(
                self.model(),
                expression.model(),
                local_models(locals@),
                context.model(),
                frame.model(),
                old(progress).model(),
            ),
        decreases depth(frame.model()), expression, 1int,
    {
        proof {
            reveal(PlanExpressionKind::model);
            assert(expression.model().kind == expression.kind.model());
        }
        match &expression.kind {
            PlanExpressionKind::For {
                iterable,
                key_slot,
                value_slot,
                instructions,
                local_count,
                produces_value,
            } => {
                let value: Value = match self.evaluate(&**iterable, locals, context, frame, progress) {
                    Ok(value) => value,
                    Err(stop) => {
                        return Err(stop);
                    },
                };
                let items: Vec<(Value, Value)> = match list_items(&value) {
                    Some(items) => items,
                    None => {
                        return Err(
                            fail(
                                with_kind("`for` requires an array or object, found ", &value),
                                iterable.span,
                                frame,
                                progress,
                            ),
                        );
                    },
                };
                match self.evaluate_rounds(
                    instructions,
                    &items,
                    *key_slot,
                    *value_slot,
                    *local_count,
                    locals,
                    context,
                    frame,
                    progress,
                ) {
                    Err(stop) => Err(stop),
                    Ok(values) => if *produces_value {
                        Ok(Value::Array(values))
                    } else {
                        Ok(Value::Null)
                    },
                }
            },
            _ => {
                proof {
                    assert(false);
                }
                Ok(Value::Null)
            },
        }
    }

    fn evaluate_rounds(
        &self,
        instructions: &'a Vec<Instruction>,
        items: &Vec<(Value, Value)>,
        key_slot: Option<usize>,
        value_slot: usize,
        count: usize,
        locals: &Vec<Option<Value>>,
        context: &ActiveContext,
        frame: &Frame,
        progress: &mut Progress<'_>,
    ) -> (outcome: Result<Vec<Value>, Stop<'a>>)
        ensures
            (
                match outcome {
                    Ok(values) => Ok(value_models(values@)),
                    Err(stop) => Err(stop.model()),
                },
                final(progress).model(),
            ) == evaluate_rounds(
                self.model(),
                instruction_models(instructions@),
                item_models(items@),
                0,
                optional_number(key_slot),
                value_slot as int,
                count as int,
                local_models(locals@),
                context.model(),
                frame.model(),
                old(progress).model(),
                Seq::empty(),
            ),
        decreases depth(frame.model()), instructions, 1int,
    {
        let ghost models = instruction_models(instructions@);
        let ghost rounds = item_models(items@);
        let ghost world = self.model();
        let ghost scope = local_models(locals@);
        let ghost active = context.model();
        let ghost place = frame.model();
        let ghost start = progress.model();
        let mut values: Vec<Value> = Vec::new();
        proof {
            assert(value_models(values@) =~= Seq::empty());
        }
        let mut at: usize = 0;
        while at < items.len()
            invariant
                models == instruction_models(instructions@),
                rounds == item_models(items@),
                world == self.model(),
                scope == local_models(locals@),
                active == context.model(),
                place == frame.model(),
                start == old(progress).model(),
                at <= items@.len(),
                evaluate_rounds(
                    world,
                    models,
                    rounds,
                    0,
                    optional_number(key_slot),
                    value_slot as int,
                    count as int,
                    scope,
                    active,
                    place,
                    start,
                    Seq::empty(),
                ) == evaluate_rounds(
                    world,
                    models,
                    rounds,
                    at as int,
                    optional_number(key_slot),
                    value_slot as int,
                    count as int,
                    scope,
                    active,
                    place,
                    progress.model(),
                    value_models(values@),
                ),
            decreases items@.len() - at,
        {
            let mut inner: Vec<Option<Value>> = widen(locals, count);
            if let Some(slot) = key_slot {
                store(&mut inner, slot, items[at].0.duplicate());
            }
            store(&mut inner, value_slot, items[at].1.duplicate());
            let mut state: Run = Run { locals: inner, assertions: Vec::new() };
            proof {
                assert(failure_models(state.assertions@) =~= Seq::empty());
                assert(local_models(state.locals@) == round_locals(
                    scope,
                    count as int,
                    optional_number(key_slot),
                    value_slot as int,
                    rounds[at as int],
                ));
            }
            match self.run(instructions, false, context, frame, &mut state, progress) {
                Err(stop) => {
                    return Err(stop);
                },
                Ok(None) => {},
                Ok(Some(value)) => {
                    let ghost before = value_models(values@);
                    values.push(value);
                    proof {
                        assert(value_models(values@) =~= before.push(value.model()));
                    }
                },
            }
            at += 1;
        }
        Ok(values)
    }

    fn find_call_fault(&self, flow: usize, count: usize, frame: &Frame) -> (fault: Option<String>)
        ensures
            optional_text(fault) == call_fault(
                self.model().plan,
                flow as int,
                count as nat,
                frame.model(),
            ),
            fault is None ==> flow < self.plan.flows@.len() && frame.flow_stack@.len()
                < MAX_CALL_DEPTH,
    {
        if frame.flow_stack.len() >= MAX_CALL_DEPTH {
            return Some("maximum flow call depth exceeded".to_owned());
        }
        if flow >= self.plan.flows.len() {
            return Some("execution plan references an unknown flow".to_owned());
        }
        let target: &'a MettlePlan = &self.plan.flows[flow];
        proof {
            assert(self.model().plan.flows[flow as int] == target.model());
        }
        if count != target.parameters.len() {
            let first: String = decimal_text(count as u128);
            let second: String = decimal_text(target.parameters.len() as u128);
            let words: String = wrapped(
                wrapped("execution plan passed ", first.as_str(), " argument(s) to `").as_str(),
                target.display_name.as_str(),
                "`, which expects ",
            );
            return Some(appended(words, second.as_str()));
        }
        None
    }

    fn run_flow(
        &self,
        flow: &'a MettlePlan,
        arguments: Vec<Value>,
        context: &ActiveContext,
        frame: &Frame,
        progress: &mut Progress<'_>,
    ) -> (outcome: Result<Value, Stop<'a>>)
        ensures
            (value_result(outcome), final(progress).model()) == run_flow(
                self.model(),
                flow.model(),
                value_models(arguments@),
                context.model(),
                frame.model(),
                old(progress).model(),
            ),
        decreases depth(frame.model()) + 4, None::<int>, 0int,
    {
        let active: ActiveContext = match self.activate(&flow.contexts, context, frame, progress) {
            Ok(active) => active,
            Err(stop) => {
                return Err(stop);
            },
        };
        let test: bool = flow.kind == DeclarationKind::Test;
        let mut state: Run = Run {
            locals: place_arguments(&arguments, flow.local_count),
            assertions: Vec::new(),
        };
        proof {
            assert(failure_models(state.assertions@) =~= Seq::empty());
        }
        match self.run(&flow.instructions, test, &active, frame, &mut state, progress) {
            Err(stop) => Err(stop),
            Ok(Some(value)) => Ok(value),
            Ok(None) => {
                if test {
                    if state.assertions.len() > 0 {
                        Err(Stop::Failed(test_failure(state.assertions, frame, progress)))
                    } else {
                        Ok(Value::Null)
                    }
                } else {
                    Err(
                        fail(
                            wrapped(
                                "flow `",
                                flow.display_name.as_str(),
                                "` completed without returning a value",
                            ),
                            Span::new(0, 0),
                            frame,
                            progress,
                        ),
                    )
                }
            },
        }
    }

    fn activate(
        &self,
        contexts: &Vec<usize>,
        inherited: &ActiveContext,
        frame: &Frame,
        progress: &mut Progress<'_>,
    ) -> (outcome: Result<ActiveContext, Stop<'a>>)
        ensures
            (context_result(outcome), final(progress).model()) == activate(
                self.model(),
                numbers(contexts@),
                0,
                inherited.model(),
                frame.model(),
                old(progress).model(),
            ),
        decreases depth(frame.model()) + 3, None::<int>, 0int,
    {
        let ghost ids = numbers(contexts@);
        let ghost world = self.model();
        let ghost place = frame.model();
        let ghost first = inherited.model();
        let ghost start = progress.model();
        let mut active: ActiveContext = inherited.duplicate();
        let mut at: usize = 0;
        while at < contexts.len()
            invariant
                ids == numbers(contexts@),
                world == self.model(),
                place == frame.model(),
                first == inherited.model(),
                start == old(progress).model(),
                at <= contexts@.len(),
                activate(world, ids, 0, first, place, start) == activate(
                    world,
                    ids,
                    at as int,
                    active.model(),
                    place,
                    progress.model(),
                ),
            decreases contexts@.len() - at,
        {
            let id: usize = contexts[at];
            proof {
                assert(ids[at as int] == id);
            }
            if id >= self.plan.contexts.len() {
                return Err(
                    fail_with(
                        "execution plan references an unknown context",
                        Span::new(0, 0),
                        frame,
                        progress,
                    ),
                );
            }
            let context: &'a ContextPlan = &self.plan.contexts[id];
            proof {
                assert(world.plan.contexts[id as int] == context.model());
            }
            active = match self.apply_context(context, &active, frame, progress) {
                Ok(applied) => applied,
                Err(stop) => {
                    return Err(stop);
                },
            };
            at += 1;
        }
        Ok(active)
    }

    fn apply_context(
        &self,
        context: &'a ContextPlan,
        inherited: &ActiveContext,
        frame: &Frame,
        progress: &mut Progress<'_>,
    ) -> (outcome: Result<ActiveContext, Stop<'a>>)
        ensures
            (context_result(outcome), final(progress).model()) == apply_context(
                self.model(),
                context.model(),
                inherited.model(),
                frame.model(),
                old(progress).model(),
            ),
        decreases depth(frame.model()) + 2, None::<int>, 0int,
    {
        let mut active: ActiveContext = ActiveContext {
            values: Vec::new(),
            defaults: resize(&inherited.defaults, self.plan.capability_names.len()),
        };
        proof {
            assert(value_models(active.values@) =~= Seq::empty());
        }
        match self.evaluate_context_values(&context.fields, &mut active, frame, progress) {
            Err(stop) => {
                return Err(stop);
            },
            Ok(_) => {},
        }
        match self.evaluate_context_defaults(&context.defaults, &mut active, frame, progress) {
            Err(stop) => Err(stop),
            Ok(_) => Ok(active),
        }
    }

    fn evaluate_context_values(
        &self,
        fields: &'a Vec<PlanField>,
        active: &mut ActiveContext,
        frame: &Frame,
        progress: &mut Progress<'_>,
    ) -> (outcome: Result<(), Stop<'a>>)
        ensures
            (
                match outcome {
                    Ok(_) => Ok(final(active).model()),
                    Err(stop) => Err(stop.model()),
                },
                final(progress).model(),
            ) == context_values(
                self.model(),
                plan_field_models(fields@),
                0,
                old(active).model(),
                frame.model(),
                old(progress).model(),
            ),
        decreases depth(frame.model()) + 1, None::<int>, 0int,
    {
        let ghost models = plan_field_models(fields@);
        let ghost world = self.model();
        let ghost place = frame.model();
        let ghost first = active.model();
        let ghost start = progress.model();
        let none: Vec<Option<Value>> = Vec::new();
        proof {
            assert(local_models(none@) =~= Seq::empty());
        }
        let mut at: usize = 0;
        while at < fields.len()
            invariant
                models == plan_field_models(fields@),
                world == self.model(),
                place == frame.model(),
                first == old(active).model(),
                start == old(progress).model(),
                local_models(none@) == Seq::<Option<ValueModel>>::empty(),
                at <= fields@.len(),
                context_values(world, models, 0, first, place, start) == context_values(
                    world,
                    models,
                    at as int,
                    active.model(),
                    place,
                    progress.model(),
                ),
            decreases fields@.len() - at,
        {
            proof {
                assert(models[at as int] == fields@[at as int].model());
                assert(models[at as int].expression == fields@[at as int].expression.model());
            }
            let value: Value = match self.evaluate(
                &fields[at].expression,
                &none,
                active,
                frame,
                progress,
            ) {
                Ok(value) => value,
                Err(stop) => {
                    return Err(stop);
                },
            };
            let ghost before = value_models(active.values@);
            active.values.push(value);
            proof {
                assert(value_models(active.values@) =~= before.push(value.model()));
            }
            at += 1;
        }
        Ok(())
    }

    fn evaluate_context_defaults(
        &self,
        defaults: &'a Vec<CapabilityDefaultsPlan>,
        active: &mut ActiveContext,
        frame: &Frame,
        progress: &mut Progress<'_>,
    ) -> (outcome: Result<(), Stop<'a>>)
        ensures
            (
                match outcome {
                    Ok(_) => Ok(final(active).model()),
                    Err(stop) => Err(stop.model()),
                },
                final(progress).model(),
            ) == context_defaults(
                self.model(),
                defaults_models(defaults@),
                0,
                old(active).model(),
                frame.model(),
                old(progress).model(),
            ),
        decreases depth(frame.model()) + 1, None::<int>, 0int,
    {
        let ghost models = defaults_models(defaults@);
        let ghost world = self.model();
        let ghost place = frame.model();
        let ghost first = active.model();
        let ghost start = progress.model();
        let none: Vec<Option<Value>> = Vec::new();
        proof {
            assert(local_models(none@) =~= Seq::empty());
        }
        let mut at: usize = 0;
        while at < defaults.len()
            invariant
                models == defaults_models(defaults@),
                world == self.model(),
                place == frame.model(),
                first == old(active).model(),
                start == old(progress).model(),
                local_models(none@) == Seq::<Option<ValueModel>>::empty(),
                at <= defaults@.len(),
                context_defaults(world, models, 0, first, place, start) == context_defaults(
                    world,
                    models,
                    at as int,
                    active.model(),
                    place,
                    progress.model(),
                ),
            decreases defaults@.len() - at,
        {
            proof {
                assert(models[at as int] == defaults@[at as int].model());
            }
            let capability: usize = defaults[at].capability;
            let values: Object = match self.evaluate_fields(
                &defaults[at].fields,
                &none,
                active,
                frame,
                progress,
            ) {
                Ok(values) => values,
                Err(stop) => {
                    return Err(stop);
                },
            };
            if capability >= active.defaults.len() {
                return Err(
                    fail_with(
                        "execution plan references an unknown capability default",
                        Span::new(0, 0),
                        frame,
                        progress,
                    ),
                );
            }
            let current: Object = active.defaults[capability].duplicate();
            match ask_merged(capability, current, values, progress) {
                Ok(merged) => {
                    let ghost before = object_models(active.defaults@);
                    active.defaults.set(capability, merged);
                    proof {
                        assert(object_models(active.defaults@) =~= before.update(
                            capability as int,
                            merged.model(),
                        ));
                    }
                },
                Err(stop) => {
                    return Err(stop);
                },
            }
            at += 1;
        }
        Ok(())
    }

    /// Runs a flow with arguments, as far as the replies go.
    pub fn execute(&self, flow: usize, arguments: Vec<Value>, replies: &Vec<Reply>) -> (turn: Turn<
        'a,
    >)
        ensures
            turn.shows(
                execute(
                    self.model(),
                    flow as int,
                    value_models(arguments@),
                    reply_models(replies@),
                ),
            ),
    {
        let mut progress: Progress<'_> = Progress { replies, at: 0, secrets: Vec::new() };
        let frame: Frame = Frame::first();
        proof {
            assert(views(progress.secrets@) =~= Seq::empty());
        }
        if let Some(message) = self.find_call_fault(flow, arguments.len(), &frame) {
            let stop: Stop<'a> = fail(message, Span::new(0, 0), &frame, &progress);
            return Turn { outcome: Err(stop), used: progress.at, secrets: progress.secrets };
        }
        let target: &'a MettlePlan = &self.plan.flows[flow];
        proof {
            assert(self.model().plan.flows[flow as int] == target.model());
        }
        let inner: Frame = frame.calling(target.display_name.as_str());
        let context: ActiveContext = ActiveContext::empty();
        let outcome: Result<Value, Stop<'a>> = self.run_flow(
            target,
            arguments,
            &context,
            &inner,
            &mut progress,
        );
        Turn { outcome, used: progress.at, secrets: progress.secrets }
    }

    /// Runs a task, as far as the replies go.
    pub fn perform(&self, task: Task<'a>, replies: &Vec<Reply>) -> (turn: Turn<'a>)
        ensures
            turn.shows(perform(self.model(), task.model(), reply_models(replies@))),
    {
        let mut progress: Progress<'_> = Progress { replies, at: 0, secrets: task.secrets };
        let outcome: Result<Value, Stop<'a>> = self.evaluate(
            task.expression,
            &task.locals,
            &task.context,
            &task.frame,
            &mut progress,
        );
        Turn { outcome, used: progress.at, secrets: progress.secrets }
    }
}

} // verus!
