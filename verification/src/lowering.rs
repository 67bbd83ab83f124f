//! What expressions and statements become in an execution plan, and what is
//! wrong with those that become nothing.

use vstd::prelude::*;

use crate::capability::{CapabilityModel, FieldSchemaModel, OperationModel, SchemaTypeModel};
use crate::definition::root_of;
use crate::duration::Duration;
use crate::names::{id_of, is_identifier, resolution, suggested, NameTable, ResolutionModel};
use crate::plan::{
    type_of_schema, CallEvaluation, ConditionalBranchModel, ConstantModel, InstructionModel,
    PlanBranchModel, PlanExpressionKindModel, PlanExpressionModel, PlanFieldModel, StringPartModel,
    ValueType,
};
use crate::syntax::{
    error_of, BinaryOperator, ErrorModel, ExpressionKindModel, ExpressionModel, IfBranchModel,
    ObjectFieldModel, ParallelBranchModel, ProgramModel, Span, SpannedModel, StatementModel,
};
use crate::text::{decimal, joined, position_of, split_at};

verus! {

// ---------------------------------------------------------------------------
// Notes, environments and scopes

/// One flow calls another.
pub struct EdgeModel {
    pub from: int,
    pub target: int,
    pub span: Span,
}

/// What was noticed so far: errors, and which flows call which.
pub struct NotesModel {
    pub errors: Seq<ErrorModel>,
    pub edges: Seq<EdgeModel>,
}

impl NotesModel {
    pub open spec fn with(self, message: Seq<char>, span: Span) -> NotesModel {
        NotesModel { errors: self.errors.push(error_of(message, span)), edges: self.edges }
    }

    pub open spec fn unless(self, fine: bool, message: Seq<char>, span: Span) -> NotesModel {
        if fine {
            self
        } else {
            self.with(message, span)
        }
    }

    pub open spec fn calling(self, from: int, target: int, span: Span) -> NotesModel {
        NotesModel { errors: self.errors, edges: self.edges.push(EdgeModel { from, target, span }) }
    }
}

/// What names can mean in a program.
pub struct EnvironmentModel {
    pub program: ProgramModel,
    pub capabilities: Seq<CapabilityModel>,
    pub capability_names: NameTable,
    pub contexts: NameTable,
    pub flows: NameTable,
    /// The fields of each context, in the order of their slots.
    pub fields: Seq<Seq<Seq<char>>>,
}

/// What names can mean at one place of a flow or a context.
pub struct ScopeModel {
    pub flow: Option<int>,
    pub test: bool,
    pub locals: NameTable,
    pub slots: int,
    pub context: Option<int>,
}

pub open spec fn plan(kind: PlanExpressionKindModel, value_type: ValueType, span: Span) -> PlanExpressionModel {
    PlanExpressionModel { kind, value_type, span }
}

/// Whether the value is, or may turn out to be, of the type.
pub open spec fn may_be(value: PlanExpressionModel, value_type: ValueType) -> bool {
    value.value_type == value_type || value.value_type == ValueType::Inferred
}

pub type Lowered = (Option<PlanExpressionModel>, NotesModel);

// ---------------------------------------------------------------------------
// Names

/// The position of the name in the list, from `from` on.
pub open spec fn slot_of(names: Seq<Seq<char>>, name: Seq<char>, from: int) -> Option<int>
    decreases names.len() - from,
{
    if from < 0 || from >= names.len() {
        None
    } else if names[from] == name {
        Some(from)
    } else {
        slot_of(names, name, from + 1)
    }
}

/// The members that the path names from `from` on, read from `value`.
pub open spec fn read_members(
    value: PlanExpressionModel,
    path: Seq<char>,
    from: int,
    span: Span,
) -> PlanExpressionModel
    decreases path.len() - from,
{
    let end = position_of(path, '.', from);
    if from < 0 || from > path.len() || end < from {
        value
    } else {
        let read = plan(
            PlanExpressionKindModel::Member {
                value: Box::new(value),
                member: path.subrange(from, end),
            },
            ValueType::Inferred,
            span,
        );
        if end >= path.len() {
            read
        } else {
            read_members(read, path, end + 1, span)
        }
    }
}

/// What a path of names reads: a local, else a field of the context.
pub open spec fn known_name(
    env: EnvironmentModel,
    path: Seq<char>,
    span: Span,
    scope: ScopeModel,
) -> Option<PlanExpressionModel> {
    let root = root_of(path);
    let base = match id_of(scope.locals, root) {
        Some(slot) => Some(PlanExpressionKindModel::Local(slot)),
        None => match scope.context {
            Some(context) => match slot_of(env.fields[context], root, 0) {
                Some(slot) => Some(PlanExpressionKindModel::Context(slot)),
                None => None,
            },
            None => None,
        },
    };
    match base {
        Some(kind) => {
            let value = plan(kind, ValueType::Inferred, span);
            let dot = position_of(path, '.', 0);
            if dot < path.len() {
                Some(read_members(value, path, dot + 1, span))
            } else {
                Some(value)
            }
        },
        None => None,
    }
}

pub open spec fn lower_name(
    env: EnvironmentModel,
    path: Seq<char>,
    span: Span,
    scope: ScopeModel,
    notes: NotesModel,
) -> Lowered {
    match known_name(env, path, span, scope) {
        Some(value) => (Some(value), notes),
        None => (None, notes.with("name `"@ + root_of(path) + "` is not defined"@, span)),
    }
}

// ---------------------------------------------------------------------------
// Texts

/// The position of the next `${` from `from` on, or the length.
pub open spec fn next_opening(text: Seq<char>, from: int) -> int
    decreases text.len() - from,
{
    if from >= text.len() {
        text.len() as int
    } else if text[from] == '$' && from + 1 < text.len() && text[from + 1] == '{' {
        from
    } else {
        next_opening(text, from + 1)
    }
}

/// Whether every part between dots is an identifier, from `from` on.
pub open spec fn is_path(text: Seq<char>, from: int) -> bool
    decreases text.len() - from,
{
    let end = position_of(text, '.', from);
    if from < 0 || from > text.len() || end < from {
        false
    } else {
        is_identifier(text.subrange(from, end)) && (end >= text.len() || is_path(text, end + 1))
    }
}

/// A name inside a text: a known value, else a variable of the environment.
pub open spec fn lower_inserted(
    env: EnvironmentModel,
    path: Seq<char>,
    span: Span,
    scope: ScopeModel,
    notes: NotesModel,
) -> Lowered {
    match known_name(env, path, span, scope) {
        Some(value) => (Some(value), notes),
        None => if path.contains('.') {
            (None, notes.with("name `"@ + path + "` is not defined"@, span))
        } else {
            (
                Some(plan(PlanExpressionKindModel::Environment(path), ValueType::String, span)),
                notes,
            )
        },
    }
}

/// The parts of a text from `from` on, behind those before it.
pub open spec fn lower_parts(
    env: EnvironmentModel,
    text: Seq<char>,
    from: int,
    span: Span,
    scope: ScopeModel,
    notes: NotesModel,
    done: Seq<StringPartModel>,
) -> (Option<Seq<StringPartModel>>, NotesModel)
    decreases text.len() - from,
{
    let start = next_opening(text, from);
    let end = position_of(text, '}', start + 2);
    if from < 0 || from > text.len() || start >= text.len() {
        if from < text.len() {
            (
                Some(done.push(StringPartModel::Text(text.subrange(from, text.len() as int)))),
                notes,
            )
        } else {
            (Some(done), notes)
        }
    } else if end >= text.len() {
        (None, notes.with("unterminated string interpolation"@, span))
    } else if start < from || end < start + 2 {
        (None, notes)
    } else if !is_path(text.subrange(start + 2, end), 0) {
        (None, notes.with("string interpolation must contain a name or member path"@, span))
    } else {
        match lower_inserted(env, text.subrange(start + 2, end), span, scope, notes) {
            (None, noted) => (None, noted),
            (Some(value), noted) => {
                let before = if start > from {
                    done.push(StringPartModel::Text(text.subrange(from, start)))
                } else {
                    done
                };
                lower_parts(
                    env,
                    text,
                    end + 1,
                    span,
                    scope,
                    noted,
                    before.push(StringPartModel::Value(value)),
                )
            },
        }
    }
}

/// A text: a constant, or one with values in it.
pub open spec fn lower_text(
    env: EnvironmentModel,
    text: Seq<char>,
    span: Span,
    scope: ScopeModel,
    notes: NotesModel,
) -> Lowered {
    if next_opening(text, 0) >= text.len() {
        (
            Some(
                plan(
                    PlanExpressionKindModel::Constant(ConstantModel::String(text)),
                    ValueType::String,
                    span,
                ),
            ),
            notes,
        )
    } else {
        match lower_parts(env, text, 0, span, scope, notes, Seq::empty()) {
            (Some(parts), noted) => (
                Some(
                    plan(
                        PlanExpressionKindModel::InterpolatedString(parts),
                        ValueType::String,
                        span,
                    ),
                ),
                noted,
            ),
            (None, noted) => (None, noted),
        }
    }
}

// ---------------------------------------------------------------------------
// Schemas

pub open spec fn fits(value: ValueType, expected: SchemaTypeModel) -> bool {
    match expected {
        SchemaTypeModel::Boolean => value == ValueType::Boolean,
        SchemaTypeModel::Bytes => value == ValueType::Bytes,
        SchemaTypeModel::Duration => value == ValueType::Duration,
        SchemaTypeModel::Integer => value == ValueType::Integer,
        SchemaTypeModel::String => value == ValueType::String,
        SchemaTypeModel::Object(_) => value == ValueType::Object,
        SchemaTypeModel::StringMap => value == ValueType::Object,
        SchemaTypeModel::Json => value != ValueType::Duration,
    }
}

/// Complaints about fields that are no texts, from `from` on.
pub open spec fn check_headers(
    fields: Seq<PlanFieldModel>,
    from: int,
    notes: NotesModel,
) -> NotesModel
    decreases fields.len() - from,
{
    if from < 0 || from >= fields.len() {
        notes
    } else {
        check_headers(
            fields,
            from + 1,
            notes.unless(
                may_be(fields[from].expression, ValueType::String),
                "header values must be strings"@,
                fields[from].expression.span,
            ),
        )
    }
}

/// Complaints about a value where a schema asks for `expected`.
pub open spec fn check_type(
    value: PlanExpressionModel,
    expected: SchemaTypeModel,
    span: Span,
    notes: NotesModel,
) -> NotesModel {
    if value.value_type == ValueType::Inferred {
        notes
    } else if !fits(value.value_type, expected) {
        notes.with(
            "expected "@ + expected.name() + ", found "@ + value.value_type.called(),
            span,
        )
    } else {
        match (expected, value.kind) {
            (SchemaTypeModel::StringMap, PlanExpressionKindModel::Object(fields)) =>
                check_headers(fields, 0, notes),
            _ => notes,
        }
    }
}

/// The position of the field in the schema, from `from` on.
pub open spec fn field_of(schema: Seq<FieldSchemaModel>, name: Seq<char>, from: int) -> Option<int>
    decreases schema.len() - from,
{
    if from < 0 || from >= schema.len() {
        None
    } else if schema[from].name == name {
        Some(from)
    } else {
        field_of(schema, name, from + 1)
    }
}

pub open spec fn schema_names(schema: Seq<FieldSchemaModel>) -> Seq<Seq<char>> {
    Seq::new(schema.len(), |i: int| schema[i].name)
}

// ---------------------------------------------------------------------------
// Literals of policies

/// A literal above zero.
pub open spec fn positive_literal(
    expression: ExpressionModel,
    label: Seq<char>,
    notes: NotesModel,
) -> (Option<usize>, NotesModel) {
    match expression.kind {
        ExpressionKindModel::Integer(value) => if 0 < value <= usize::MAX {
            (Some(value as usize), notes)
        } else {
            (None, notes.with(label + " must be greater than zero"@, expression.span))
        },
        _ => (None, notes.with(label + " must be a positive integer literal"@, expression.span)),
    }
}

/// A literal span of time.
pub open spec fn duration_literal(
    expression: ExpressionModel,
    label: Seq<char>,
    notes: NotesModel,
) -> (Option<Duration>, NotesModel) {
    match expression.kind {
        ExpressionKindModel::DurationNanos(value) => if value == 0 {
            (None, notes.with(label + " must be greater than zero"@, expression.span))
        } else {
            (Some(Duration { nanos: value as u128 }), notes)
        },
        _ => (None, notes.with(label + " must be a duration literal"@, expression.span)),
    }
}

/// An optional literal above zero; `usual` stands in for a missing one.
pub open spec fn optional_limit(
    expression: Option<Box<ExpressionModel>>,
    label: Seq<char>,
    usual: usize,
    notes: NotesModel,
) -> (Option<usize>, NotesModel) {
    match expression {
        Some(expression) => positive_literal(*expression, label, notes),
        None => (Some(usual), notes),
    }
}

// ---------------------------------------------------------------------------
// Arguments of calls

/// Which parameters the named arguments from `from` on stand for, behind
/// `order`, and whether each can stand there.
pub open spec fn order_named(
    parameters: Seq<Seq<char>>,
    named: Seq<ObjectFieldModel>,
    from: int,
    callee: Option<Seq<char>>,
    order: Seq<int>,
    fine: bool,
    notes: NotesModel,
) -> (Seq<int>, bool, NotesModel)
    decreases named.len() - from,
{
    if from < 0 || from >= named.len() {
        (order, fine, notes)
    } else {
        let name = named[from].name;
        match slot_of(parameters, name.value, 0) {
            None => match callee {
                Some(callee) => order_named(
                    parameters,
                    named,
                    from + 1,
                    Some(callee),
                    order,
                    false,
                    notes.with(
                        "flow `"@ + callee + "` has no parameter `"@ + name.value + "`"@,
                        name.span,
                    ),
                ),
                None => order_named(parameters, named, from + 1, callee, order, fine, notes),
            },
            Some(parameter) => if order.contains(parameter) {
                order_named(
                    parameters,
                    named,
                    from + 1,
                    callee,
                    order,
                    false,
                    notes.with(
                        "argument `"@ + name.value + "` was supplied more than once"@,
                        name.span,
                    ),
                )
            } else {
                order_named(
                    parameters,
                    named,
                    from + 1,
                    callee,
                    order.push(parameter),
                    fine,
                    notes,
                )
            },
        }
    }
}

/// The first `count` numbers.
pub open spec fn counted(count: nat) -> Seq<int> {
    Seq::new(count, |i: int| i)
}

/// How many of the named arguments from `from` on stand for parameters.
pub open spec fn named_parameters(
    parameters: Seq<Seq<char>>,
    named: Seq<ObjectFieldModel>,
    from: int,
) -> int
    decreases named.len() - from,
{
    if from < 0 || from >= named.len() {
        0
    } else {
        (if slot_of(parameters, named[from].name.value, 0) is Some {
            1int
        } else {
            0
        }) + named_parameters(parameters, named, from + 1)
    }
}

/// The parameters after the first `count` values were put where `order` says.
pub open spec fn arranged(
    values: Seq<PlanExpressionModel>,
    order: Seq<int>,
    expected: nat,
    count: int,
) -> Seq<Option<PlanExpressionModel>>
    decreases count,
{
    if count <= 0 {
        Seq::new(expected, |i: int| None)
    } else {
        let before = arranged(values, order, expected, count - 1);
        let slot = order[count - 1];
        if 0 <= slot < expected {
            before.update(slot, Some(values[count - 1]))
        } else {
            before
        }
    }
}

/// The values of all parameters, if each has one.
pub open spec fn all_filled(slots: Seq<Option<PlanExpressionModel>>) -> bool {
    forall|i: int| 0 <= i < slots.len() ==> (#[trigger] slots[i]) is Some
}

/// The arguments in the order of the parameters, if every parameter has one.
pub open spec fn complete(
    values: Seq<PlanExpressionModel>,
    order: Seq<int>,
    expected: nat,
) -> Option<Seq<PlanExpressionModel>> {
    let slots = arranged(values, order, expected, order.len() as int);
    if values.len() == order.len() && all_filled(slots) {
        Some(Seq::new(expected, |i: int| slots[i]->0))
    } else {
        None
    }
}

/// The arguments that a call hands over: those of all parameters, in their
/// order, else those that there are.
#[verifier::opaque]
pub open spec fn handed(
    values: Seq<PlanExpressionModel>,
    order: Seq<int>,
    expected: nat,
    fine: bool,
) -> Seq<PlanExpressionModel> {
    match complete(values, order, expected) {
        Some(placed) if fine => placed,
        _ => values,
    }
}

/// In which order the named arguments of an operation are evaluated, from
/// `from` on, with `options` options before them.
pub open spec fn evaluate_named(
    parameters: Seq<Seq<char>>,
    named: Seq<ObjectFieldModel>,
    from: int,
    options: int,
    done: Seq<CallEvaluation>,
) -> (Seq<CallEvaluation>, int)
    decreases named.len() - from,
{
    if from < 0 || from >= named.len() {
        (done, options)
    } else {
        match slot_of(parameters, named[from].name.value, 0) {
            Some(parameter) => evaluate_named(
                parameters,
                named,
                from + 1,
                options,
                done.push(CallEvaluation::Parameter(parameter as usize)),
            ),
            None => evaluate_named(
                parameters,
                named,
                from + 1,
                options + 1,
                done.push(CallEvaluation::Option(options as usize)),
            ),
        }
    }
}

/// In which order the arguments and options of an operation are evaluated:
/// as they stand in the source.
pub open spec fn evaluation(
    parameters: Seq<Seq<char>>,
    positional: nat,
    named: Seq<ObjectFieldModel>,
    options: nat,
) -> Seq<CallEvaluation> {
    let first = Seq::new(positional, |i: int| CallEvaluation::Parameter(i as usize));
    let second = evaluate_named(parameters, named, 0, 0, first);
    second.0 + Seq::new(options, |i: int| CallEvaluation::Option((second.1 + i) as usize))
}

/// Options of one group, as they are given from `from` on.
pub open spec fn present_options(
    group: Seq<Seq<char>>,
    fields: Seq<ObjectFieldModel>,
    from: int,
    done: Seq<SpannedModel>,
) -> Seq<SpannedModel>
    decreases fields.len() - from,
{
    if from < 0 || from >= fields.len() {
        done
    } else if group.contains(fields[from].name.value) {
        present_options(group, fields, from + 1, done.push(fields[from].name))
    } else {
        present_options(group, fields, from + 1, done)
    }
}

pub open spec fn in_backquotes(names: Seq<SpannedModel>) -> Seq<Seq<char>> {
    Seq::new(names.len(), |i: int| "`"@ + names[i].value + "`"@)
}

/// Complaints about options that exclude each other, from group `from` on.
pub open spec fn check_exclusive(
    groups: Seq<Seq<Seq<char>>>,
    from: int,
    named: Seq<ObjectFieldModel>,
    options: Seq<ObjectFieldModel>,
    notes: NotesModel,
) -> NotesModel
    decreases groups.len() - from,
{
    if from < 0 || from >= groups.len() {
        notes
    } else {
        let group = groups[from];
        let present = present_options(
            group,
            options,
            0,
            present_options(group, named, 0, Seq::empty()),
        );
        check_exclusive(
            groups,
            from + 1,
            named,
            options,
            if present.len() > 1 {
                notes.with(
                    "options "@ + joined(in_backquotes(present), " and "@, 0)
                        + " cannot be used together"@,
                    present[1].span,
                )
            } else {
                notes
            },
        )
    }
}

/// The position of the operation, from `from` on.
pub open spec fn operation_of(operations: Seq<OperationModel>, name: Seq<char>, from: int) -> Option<
    int,
>
    decreases operations.len() - from,
{
    if from < 0 || from >= operations.len() {
        None
    } else if operations[from].name == name {
        Some(from)
    } else {
        operation_of(operations, name, from + 1)
    }
}

pub open spec fn operation_names(operations: Seq<OperationModel>) -> Seq<Seq<char>> {
    Seq::new(operations.len(), |i: int| operations[i].name)
}

/// The number of a context or flow that a name means, with a complaint if it
/// may mean several.
pub open spec fn resolved(
    names: NameTable,
    what: Seq<char>,
    name: Seq<char>,
    namespace: Seq<char>,
    uses: Seq<SpannedModel>,
    span: Span,
    notes: NotesModel,
) -> (Option<int>, NotesModel) {
    match resolution(names, name, namespace, uses) {
        ResolutionModel::Found(id) => (Some(id), notes),
        ResolutionModel::Missing => (
            None,
            notes.with(what + " `"@ + name + "` is not defined"@, span),
        ),
        ResolutionModel::Ambiguous(candidates) => (
            None,
            notes.with(
                what + " `"@ + name + "` is ambiguous; it is provided by "@ + joined(
                    candidates,
                    ", "@,
                    0,
                ),
                span,
            ),
        ),
    }
}

// ---------------------------------------------------------------------------
// Expressions

pub open spec fn lower_expression(
    env: EnvironmentModel,
    expression: ExpressionModel,
    scope: ScopeModel,
    notes: NotesModel,
) -> Lowered
    decreases expression, 2int,
{
    let span = expression.span;
    match expression.kind {
        ExpressionKindModel::Null => (
            Some(
                plan(
                    PlanExpressionKindModel::Constant(ConstantModel::Null),
                    ValueType::Null,
                    span,
                ),
            ),
            notes,
        ),
        ExpressionKindModel::Boolean(value) => (
            Some(
                plan(
                    PlanExpressionKindModel::Constant(ConstantModel::Boolean(value)),
                    ValueType::Boolean,
                    span,
                ),
            ),
            notes,
        ),
        ExpressionKindModel::Integer(value) => (
            Some(
                plan(
                    PlanExpressionKindModel::Constant(ConstantModel::Integer(value)),
                    ValueType::Integer,
                    span,
                ),
            ),
            notes,
        ),
        ExpressionKindModel::Float(value) => (
            Some(
                plan(
                    PlanExpressionKindModel::Constant(ConstantModel::Float(value)),
                    ValueType::Float,
                    span,
                ),
            ),
            notes,
        ),
        ExpressionKindModel::DurationNanos(value) => (
            Some(
                plan(
                    PlanExpressionKindModel::Constant(ConstantModel::DurationNanos(value)),
                    ValueType::Duration,
                    span,
                ),
            ),
            notes,
        ),
        ExpressionKindModel::String(text) => lower_text(env, text, span, scope, notes),
        ExpressionKindModel::Name(path) => lower_name(env, path, span, scope, notes),
        ExpressionKindModel::Array(values) => {
            let (items, noted) = lower_list(env, values, 0, scope, notes, Seq::empty());
            (Some(plan(PlanExpressionKindModel::Array(items), ValueType::Array, span)), noted)
        },
        ExpressionKindModel::Object(fields) => {
            let (items, seen, noted) = lower_fields(
                env,
                fields,
                0,
                scope,
                None,
                Seq::empty(),
                notes,
                Seq::empty(),
                Seq::empty(),
            );
            (Some(plan(PlanExpressionKindModel::Object(items), ValueType::Object, span)), noted)
        },
        ExpressionKindModel::Block(statements) => lower_block(env, expression, scope, notes),
        ExpressionKindModel::For { key, value, iterable, body } => lower_loop(
            env,
            expression,
            scope,
            notes,
        ),
        ExpressionKindModel::Member { value, member } => lower_member(
            env,
            expression,
            scope,
            notes,
        ),
        ExpressionKindModel::Index { value, index } => lower_index(env, expression, scope, notes),
        ExpressionKindModel::Not(value) => lower_unary(env, expression, scope, notes),
        ExpressionKindModel::Negate(value) => lower_unary(env, expression, scope, notes),
        ExpressionKindModel::Fail(value) => lower_unary(env, expression, scope, notes),
        ExpressionKindModel::Binary { left, operator, right } => lower_binary(
            env,
            expression,
            scope,
            notes,
        ),
        ExpressionKindModel::Call { callee, arguments, named_arguments, options } => lower_call(
            env,
            expression,
            scope,
            notes,
        ),
        ExpressionKindModel::Within { timeout, body } => lower_within(
            env,
            expression,
            scope,
            notes,
        ),
        ExpressionKindModel::Retry { attempts, delay, body } => lower_retry(
            env,
            expression,
            scope,
            notes,
        ),
        ExpressionKindModel::Parallel { limit, branches } => lower_parallel(
            env,
            expression,
            scope,
            notes,
        ),
        ExpressionKindModel::Rate { target, period, duration, limit, body } => lower_rate(
            env,
            expression,
            scope,
            notes,
        ),
        ExpressionKindModel::Concurrency { limit, duration, body } => lower_concurrency(
            env,
            expression,
            scope,
            notes,
        ),
    }
}

/// The expressions from `from` on that became something, behind `done`.
pub open spec fn lower_list(
    env: EnvironmentModel,
    values: Seq<ExpressionModel>,
    from: int,
    scope: ScopeModel,
    notes: NotesModel,
    done: Seq<PlanExpressionModel>,
) -> (Seq<PlanExpressionModel>, NotesModel)
    decreases values, values.len() - from,
{
    if from < 0 || from >= values.len() {
        (done, notes)
    } else {
        let (lowered, noted) = lower_expression(env, values[from], scope, notes);
        lower_list(
            env,
            values,
            from + 1,
            scope,
            noted,
            match lowered {
                Some(value) => done.push(value),
                None => done,
            },
        )
    }
}

/// The fields from `from` on that became something, behind `done`. With a
/// schema, they have to fit it; `skip` holds names that belong to parameters,
/// and `seen` those that were given before.
pub open spec fn lower_fields(
    env: EnvironmentModel,
    fields: Seq<ObjectFieldModel>,
    from: int,
    scope: ScopeModel,
    schema: Option<Seq<FieldSchemaModel>>,
    skip: Seq<Seq<char>>,
    notes: NotesModel,
    seen: Seq<Seq<char>>,
    done: Seq<PlanFieldModel>,
) -> (Seq<PlanFieldModel>, Seq<Seq<char>>, NotesModel)
    decreases fields, fields.len() - from,
{
    if from < 0 || from >= fields.len() {
        (done, seen, notes)
    } else {
        let name = fields[from].name;
        if slot_of(skip, name.value, 0) is Some {
            lower_fields(env, fields, from + 1, scope, schema, skip, notes, seen, done)
        } else if seen.contains(name.value) {
            lower_fields(
                env,
                fields,
                from + 1,
                scope,
                schema,
                skip,
                notes.with("field `"@ + name.value + "` is declared more than once"@, name.span),
                seen,
                done,
            )
        } else {
            let (lowered, noted) = lower_field(env, fields[from], scope, schema, notes);
            lower_fields(
                env,
                fields,
                from + 1,
                scope,
                schema,
                skip,
                noted,
                seen.push(name.value),
                match lowered {
                    Some(expression) => done.push(PlanFieldModel { name: name.value, expression }),
                    None => done,
                },
            )
        }
    }
}

/// The value of one field, held against the schema.
pub open spec fn lower_field(
    env: EnvironmentModel,
    field: ObjectFieldModel,
    scope: ScopeModel,
    schema: Option<Seq<FieldSchemaModel>>,
    notes: NotesModel,
) -> Lowered
    decreases field, 1int,
{
    let name = field.name;
    match schema {
        None => lower_expression(env, field.expression, scope, notes),
        Some(schema) => match field_of(schema, name.value, 0) {
            None => lower_expression(
                env,
                field.expression,
                scope,
                notes.with(
                    suggested(
                        "unknown option `"@ + name.value + "`"@,
                        name.value,
                        schema_names(schema),
                    ),
                    name.span,
                ),
            ),
            Some(at) => match lower_nested(env, field, scope, schema[at].value_type, notes) {
                (Some(value), noted) => (
                    Some(value),
                    check_type(value, schema[at].value_type, field.expression.span, noted),
                ),
                (None, noted) => (None, noted),
            },
        },
    }
}

/// The value of a field whose schema is known; an object literal has to fit
/// the fields that the schema gives.
pub open spec fn lower_nested(
    env: EnvironmentModel,
    field: ObjectFieldModel,
    scope: ScopeModel,
    value_type: SchemaTypeModel,
    notes: NotesModel,
) -> Lowered
    decreases field, 0int,
{
    match (value_type, field.expression.kind) {
        (SchemaTypeModel::Object(nested), ExpressionKindModel::Object(source)) => {
            let (items, seen, noted) = lower_fields(
                env,
                source,
                0,
                scope,
                Some(nested),
                Seq::empty(),
                notes,
                Seq::empty(),
                Seq::empty(),
            );
            (
                Some(
                    plan(
                        PlanExpressionKindModel::Object(items),
                        ValueType::Object,
                        field.expression.span,
                    ),
                ),
                noted,
            )
        },
        _ => lower_expression(env, field.expression, scope, notes),
    }
}

pub open spec fn lower_member(
    env: EnvironmentModel,
    expression: ExpressionModel,
    scope: ScopeModel,
    notes: NotesModel,
) -> Lowered
    decreases expression, 1int,
{
    match expression.kind {
        ExpressionKindModel::Member { value, member } => match lower_expression(
            env,
            *value,
            scope,
            notes,
        ) {
            (Some(value), noted) => (
                Some(
                    plan(
                        PlanExpressionKindModel::Member {
                            value: Box::new(value),
                            member: member.value,
                        },
                        ValueType::Inferred,
                        expression.span,
                    ),
                ),
                noted,
            ),
            (None, noted) => (None, noted),
        },
        _ => (None, notes),
    }
}

pub open spec fn lower_index(
    env: EnvironmentModel,
    expression: ExpressionModel,
    scope: ScopeModel,
    notes: NotesModel,
) -> Lowered
    decreases expression, 1int,
{
    match expression.kind {
        ExpressionKindModel::Index { value, index } => match lower_expression(
            env,
            *value,
            scope,
            notes,
        ) {
            (None, noted) => (None, noted),
            (Some(value), noted) => match lower_expression(env, *index, scope, noted) {
                (None, last) => (None, last),
                (Some(index), last) => (
                    Some(
                        plan(
                            PlanExpressionKindModel::Index {
                                value: Box::new(value),
                                index: Box::new(index),
                            },
                            ValueType::Inferred,
                            expression.span,
                        ),
                    ),
                    last.unless(
                        may_be(index, ValueType::String) || index.value_type == ValueType::Integer,
                        "index must be a string key or integer position"@,
                        index.span,
                    ),
                ),
            },
        },
        _ => (None, notes),
    }
}

/// `not`, a minus sign, or `fail`.
pub open spec fn lower_unary(
    env: EnvironmentModel,
    expression: ExpressionModel,
    scope: ScopeModel,
    notes: NotesModel,
) -> Lowered
    decreases expression, 1int,
{
    let span = expression.span;
    match expression.kind {
        ExpressionKindModel::Not(value) => match lower_expression(env, *value, scope, notes) {
            (None, noted) => (None, noted),
            (Some(value), noted) => (
                Some(
                    plan(
                        PlanExpressionKindModel::Not(Box::new(value)),
                        ValueType::Boolean,
                        span,
                    ),
                ),
                noted.unless(
                    may_be(value, ValueType::Boolean),
                    "`not` requires a boolean"@,
                    value.span,
                ),
            ),
        },
        ExpressionKindModel::Negate(value) => match lower_expression(env, *value, scope, notes) {
            (None, noted) => (None, noted),
            (Some(value), noted) => (
                Some(
                    plan(
                        PlanExpressionKindModel::Negate(Box::new(value)),
                        value.value_type,
                        span,
                    ),
                ),
                noted.unless(
                    may_be(value, ValueType::Integer) || value.value_type == ValueType::Float,
                    "`-` requires a number"@,
                    value.span,
                ),
            ),
        },
        ExpressionKindModel::Fail(value) => match lower_expression(env, *value, scope, notes) {
            (None, noted) => (None, noted),
            (Some(value), noted) => (
                Some(
                    plan(
                        PlanExpressionKindModel::Fail(Box::new(value)),
                        ValueType::Inferred,
                        span,
                    ),
                ),
                noted.unless(
                    may_be(value, ValueType::String),
                    "fail message must be a string"@,
                    value.span,
                ),
            ),
        },
        _ => (None, notes),
    }
}

pub open spec fn is_logical(operator: BinaryOperator) -> bool {
    operator == BinaryOperator::And || operator == BinaryOperator::Or
}

pub open spec fn lower_binary(
    env: EnvironmentModel,
    expression: ExpressionModel,
    scope: ScopeModel,
    notes: NotesModel,
) -> Lowered
    decreases expression, 1int,
{
    match expression.kind {
        ExpressionKindModel::Binary { left, operator, right } => match lower_expression(
            env,
            *left,
            scope,
            notes,
        ) {
            (None, noted) => (None, noted),
            (Some(left), noted) => match lower_expression(env, *right, scope, noted) {
                (None, last) => (None, last),
                (Some(right), last) => (
                    Some(
                        plan(
                            PlanExpressionKindModel::Binary {
                                left: Box::new(left),
                                operator,
                                right: Box::new(right),
                            },
                            ValueType::Boolean,
                            expression.span,
                        ),
                    ),
                    last.unless(
                        !is_logical(operator) || may_be(left, ValueType::Boolean),
                        "logical operators require booleans"@,
                        left.span,
                    ).unless(
                        !is_logical(operator) || may_be(right, ValueType::Boolean),
                        "logical operators require booleans"@,
                        right.span,
                    ),
                ),
            },
        },
        _ => (None, notes),
    }
}

// ---------------------------------------------------------------------------
// Policies

pub open spec fn lower_within(
    env: EnvironmentModel,
    expression: ExpressionModel,
    scope: ScopeModel,
    notes: NotesModel,
) -> Lowered
    decreases expression, 1int,
{
    match expression.kind {
        ExpressionKindModel::Within { timeout, body } => match duration_literal(
            *timeout,
            "`within` timeout"@,
            notes,
        ) {
            (None, noted) => (None, noted),
            (Some(timeout), noted) => match lower_expression(env, *body, scope, noted) {
                (None, last) => (None, last),
                (Some(body), last) => (
                    Some(
                        plan(
                            PlanExpressionKindModel::Within { timeout, body: Box::new(body) },
                            body.value_type,
                            expression.span,
                        ),
                    ),
                    last,
                ),
            },
        },
        _ => (None, notes),
    }
}

pub open spec fn retry_delay(delay: Option<Box<ExpressionModel>>, notes: NotesModel) -> (
    Option<Duration>,
    NotesModel,
) {
    match delay {
        Some(delay) => duration_literal(*delay, "`retry` delay"@, notes),
        None => (Some(Duration { nanos: 0 }), notes),
    }
}

pub open spec fn lower_retry(
    env: EnvironmentModel,
    expression: ExpressionModel,
    scope: ScopeModel,
    notes: NotesModel,
) -> Lowered
    decreases expression, 1int,
{
    match expression.kind {
        ExpressionKindModel::Retry { attempts, delay, body } => match positive_literal(
            *attempts,
            "`retry` attempts"@,
            notes,
        ) {
            (None, noted) => (None, noted),
            (Some(attempts), noted) => match retry_delay(delay, noted) {
                (None, later) => (None, later),
                (Some(delay), later) => match lower_expression(env, *body, scope, later) {
                    (None, last) => (None, last),
                    (Some(body), last) => (
                        Some(
                            plan(
                                PlanExpressionKindModel::Retry {
                                    attempts: attempts as int,
                                    delay,
                                    body: Box::new(body),
                                },
                                body.value_type,
                                expression.span,
                            ),
                        ),
                        last,
                    ),
                },
            },
        },
        _ => (None, notes),
    }
}

pub open spec fn all_named(branches: Seq<ParallelBranchModel>) -> bool {
    forall|i: int| 0 <= i < branches.len() ==> (#[trigger] branches[i]).name is Some
}

pub open spec fn none_named(branches: Seq<ParallelBranchModel>) -> bool {
    forall|i: int| 0 <= i < branches.len() ==> (#[trigger] branches[i]).name is None
}

/// Complaints about branches whose names were given before, from `from` on.
pub open spec fn check_branch_names(
    branches: Seq<ParallelBranchModel>,
    from: int,
    seen: Seq<Seq<char>>,
    notes: NotesModel,
) -> NotesModel
    decreases branches.len() - from,
{
    if from < 0 || from >= branches.len() {
        notes
    } else {
        match branches[from].name {
            Some(name) => check_branch_names(
                branches,
                from + 1,
                seen.push(name.value),
                notes.unless(
                    !seen.contains(name.value),
                    "parallel branch `"@ + name.value + "` is declared more than once"@,
                    name.span,
                ),
            ),
            None => check_branch_names(branches, from + 1, seen, notes),
        }
    }
}

pub open spec fn lower_branches(
    env: EnvironmentModel,
    branches: Seq<ParallelBranchModel>,
    from: int,
    scope: ScopeModel,
    notes: NotesModel,
    done: Seq<PlanBranchModel>,
) -> (Seq<PlanBranchModel>, NotesModel)
    decreases branches, branches.len() - from,
{
    if from < 0 || from >= branches.len() {
        (done, notes)
    } else {
        let (lowered, noted) = lower_expression(env, branches[from].expression, scope, notes);
        lower_branches(
            env,
            branches,
            from + 1,
            scope,
            noted,
            match lowered {
                Some(expression) => done.push(
                    PlanBranchModel {
                        name: match branches[from].name {
                            Some(name) => Some(name.value),
                            None => None,
                        },
                        expression,
                    },
                ),
                None => done,
            },
        )
    }
}

pub open spec fn lower_parallel(
    env: EnvironmentModel,
    expression: ExpressionModel,
    scope: ScopeModel,
    notes: NotesModel,
) -> Lowered
    decreases expression, 1int,
{
    let span = expression.span;
    match expression.kind {
        ExpressionKindModel::Parallel { limit, branches } => if branches.len() == 0 {
            (None, notes.with("`parallel` requires at least one branch"@, span))
        } else if branches.len() > 1024 {
            (None, notes.with("`parallel` supports at most 1024 branches"@, span))
        } else {
            match optional_limit(limit, "`parallel` limit"@, branches.len() as usize, notes) {
                (None, noted) => (None, noted),
                (Some(limit), noted) => {
                    let named = noted.unless(
                        all_named(branches) || none_named(branches),
                        "parallel branches must be all named or all unnamed"@,
                        span,
                    );
                    let checked = check_branch_names(branches, 0, Seq::empty(), named);
                    let (items, last) = lower_branches(
                        env,
                        branches,
                        0,
                        scope,
                        checked,
                        Seq::empty(),
                    );
                    (
                        Some(
                            plan(
                                PlanExpressionKindModel::Parallel {
                                    limit: if limit < branches.len() {
                                        limit as int
                                    } else {
                                        branches.len() as int
                                    },
                                    branches: items,
                                },
                                if all_named(branches) {
                                    ValueType::Object
                                } else {
                                    ValueType::Array
                                },
                                span,
                            ),
                        ),
                        last,
                    )
                },
            }
        },
        _ => (None, notes),
    }
}

/// What is wrong with the settings of a rate.
pub open spec fn rate_fault(
    target: usize,
    period: Duration,
    duration: Duration,
    limit: usize,
) -> Option<
    Seq<char>,
> {
    let total = (duration.nanos * target) / (period.nanos as int);
    if target > 1_000_000 {
        Some("`rate` target supports at most 1,000,000 starts per period"@)
    } else if limit > 100_000 {
        Some("`rate` limit supports at most 100,000 active iterations"@)
    } else if duration.nanos * target > u128::MAX {
        Some("`rate` configuration exceeds the supported workload size"@)
    } else if total == 0 || total > 100_000_000 {
        Some("`rate` must schedule between 1 and 100,000,000 iterations"@)
    } else {
        None
    }
}

/// The literals of a rate.
pub open spec fn rate_settings(
    target: ExpressionModel,
    period: ExpressionModel,
    duration: ExpressionModel,
    limit: Option<Box<ExpressionModel>>,
    notes: NotesModel,
) -> (Option<(usize, Duration, Duration, usize)>, NotesModel) {
    match positive_literal(target, "`rate` target"@, notes) {
        (None, noted) => (None, noted),
        (Some(target), noted) => match duration_literal(period, "`rate` period"@, noted) {
            (None, noted) => (None, noted),
            (Some(period), noted) => match duration_literal(duration, "`rate` duration"@, noted) {
                (None, noted) => (None, noted),
                (Some(duration), noted) => match optional_limit(
                    limit,
                    "`rate` limit"@,
                    1024,
                    noted,
                ) {
                    (None, noted) => (None, noted),
                    (Some(limit), noted) => (Some((target, period, duration, limit)), noted),
                },
            },
        },
    }
}

pub open spec fn lower_rate(
    env: EnvironmentModel,
    expression: ExpressionModel,
    scope: ScopeModel,
    notes: NotesModel,
) -> Lowered
    decreases expression, 1int,
{
    match expression.kind {
        ExpressionKindModel::Rate { target, period, duration, limit, body } => match rate_settings(
            *target,
            *period,
            *duration,
            limit,
            notes,
        ) {
            (None, noted) => (None, noted),
            (Some((target, period, duration, limit)), noted) => match rate_fault(
                target,
                period,
                duration,
                limit,
            ) {
                Some(message) => (None, noted.with(message, expression.span)),
                None => match lower_expression(env, *body, scope, noted) {
                    (None, last) => (None, last),
                    (Some(body), last) => (
                        Some(
                            plan(
                                PlanExpressionKindModel::Rate {
                                    target: target as int,
                                    period,
                                    duration,
                                    limit: limit as int,
                                    body: Box::new(body),
                                },
                                ValueType::Object,
                                expression.span,
                            ),
                        ),
                        last,
                    ),
                },
            },
        },
        _ => (None, notes),
    }
}

pub open spec fn lower_concurrency(
    env: EnvironmentModel,
    expression: ExpressionModel,
    scope: ScopeModel,
    notes: NotesModel,
) -> Lowered
    decreases expression, 1int,
{
    match expression.kind {
        ExpressionKindModel::Concurrency { limit, duration, body } => match positive_literal(
            *limit,
            "`concurrency` limit"@,
            notes,
        ) {
            (None, noted) => (None, noted),
            (Some(limit), noted) => match duration_literal(
                *duration,
                "`concurrency` duration"@,
                noted,
            ) {
                (None, noted) => (None, noted),
                (Some(duration), noted) => if limit > 100_000 {
                    (
                        None,
                        noted.with(
                            "`concurrency` supports at most 100,000 active iterations"@,
                            expression.span,
                        ),
                    )
                } else {
                    match lower_expression(env, *body, scope, noted) {
                        (None, last) => (None, last),
                        (Some(body), last) => (
                            Some(
                                plan(
                                    PlanExpressionKindModel::Concurrency {
                                        limit: limit as int,
                                        duration,
                                        body: Box::new(body),
                                    },
                                    ValueType::Object,
                                    expression.span,
                                ),
                            ),
                            last,
                        ),
                    }
                },
            },
        },
        _ => (None, notes),
    }
}

// ---------------------------------------------------------------------------
// Calls

pub open spec fn lower_call(
    env: EnvironmentModel,
    expression: ExpressionModel,
    scope: ScopeModel,
    notes: NotesModel,
) -> Lowered
    decreases expression, 1int,
{
    match expression.kind {
        ExpressionKindModel::Call { callee, arguments, named_arguments, options } =>
            if callee.value == "env"@ || callee.value == "senv"@ {
                lower_variable(callee, arguments, named_arguments, options, expression.span, notes)
            } else if callee.value == "secret"@ {
                lower_secret(env, expression, scope, notes)
            } else if callee.value == "echo"@ {
                (
                    None,
                    notes.with(
                        "`echo` is a standalone statement and has no value"@,
                        expression.span,
                    ),
                )
            } else {
                match split_at(callee.value, '.') {
                    Some((capability, operation)) => lower_operation(
                        env,
                        expression,
                        capability,
                        operation,
                        scope,
                        notes,
                    ),
                    None => lower_flow_call(env, expression, scope, notes),
                }
            },
        _ => (None, notes),
    }
}

/// `env` and `senv`.
pub open spec fn lower_variable(
    callee: SpannedModel,
    arguments: Seq<ExpressionModel>,
    named: Seq<ObjectFieldModel>,
    options: Seq<ObjectFieldModel>,
    span: Span,
    notes: NotesModel,
) -> Lowered {
    if options.len() > 0 || named.len() > 0 || arguments.len() != 1 {
        (
            None,
            notes.with(
                "`"@ + callee.value
                    + "` expects exactly one string argument and no option block"@,
                span,
            ),
        )
    } else {
        match arguments[0].kind {
            ExpressionKindModel::String(name) => {
                let variable = plan(
                    PlanExpressionKindModel::Environment(name),
                    ValueType::String,
                    span,
                );
                if callee.value == "senv"@ {
                    (
                        Some(
                            plan(
                                PlanExpressionKindModel::Sensitive(Box::new(variable)),
                                ValueType::String,
                                span,
                            ),
                        ),
                        notes,
                    )
                } else {
                    (Some(variable), notes)
                }
            },
            _ => (
                None,
                notes.with(
                    "environment variable name must be a string literal"@,
                    arguments[0].span,
                ),
            ),
        }
    }
}

pub open spec fn lower_secret(
    env: EnvironmentModel,
    expression: ExpressionModel,
    scope: ScopeModel,
    notes: NotesModel,
) -> Lowered
    decreases expression, 0int,
{
    match expression.kind {
        ExpressionKindModel::Call { callee, arguments, named_arguments, options } =>
            if options.len() > 0 || named_arguments.len() > 0 || arguments.len() != 1 {
                (
                    None,
                    notes.with(
                        "`secret` expects exactly one argument and no option block"@,
                        expression.span,
                    ),
                )
            } else {
                match lower_expression(env, arguments[0], scope, notes) {
                    (None, noted) => (None, noted),
                    (Some(value), noted) => (
                        Some(
                            plan(
                                PlanExpressionKindModel::Sensitive(Box::new(value)),
                                value.value_type,
                                expression.span,
                            ),
                        ),
                        noted,
                    ),
                }
            },
        _ => (None, notes),
    }
}

/// Arguments in the places of parameters, from `from` on, held against the
/// types of the parameters.
pub open spec fn lower_arguments(
    env: EnvironmentModel,
    arguments: Seq<ExpressionModel>,
    from: int,
    scope: ScopeModel,
    types: Seq<SchemaTypeModel>,
    notes: NotesModel,
    done: Seq<PlanExpressionModel>,
) -> (Seq<PlanExpressionModel>, NotesModel)
    decreases arguments, arguments.len() - from,
{
    if from < 0 || from >= arguments.len() {
        (done, notes)
    } else {
        match lower_expression(env, arguments[from], scope, notes) {
            (None, noted) => lower_arguments(env, arguments, from + 1, scope, types, noted, done),
            (Some(value), noted) => lower_arguments(
                env,
                arguments,
                from + 1,
                scope,
                types,
                if from < types.len() {
                    check_type(value, types[from], arguments[from].span, noted)
                } else {
                    noted
                },
                done.push(value),
            ),
        }
    }
}

/// Named arguments from `from` on that stand for parameters, held against the
/// types of the parameters.
pub open spec fn lower_named(
    env: EnvironmentModel,
    named: Seq<ObjectFieldModel>,
    from: int,
    scope: ScopeModel,
    parameters: Seq<Seq<char>>,
    types: Seq<SchemaTypeModel>,
    notes: NotesModel,
    done: Seq<PlanExpressionModel>,
) -> (Seq<PlanExpressionModel>, NotesModel)
    decreases named, named.len() - from,
{
    if from < 0 || from >= named.len() {
        (done, notes)
    } else {
        match slot_of(parameters, named[from].name.value, 0) {
            None => lower_named(env, named, from + 1, scope, parameters, types, notes, done),
            Some(parameter) => match lower_expression(env, named[from].expression, scope, notes) {
                (None, noted) => lower_named(
                    env,
                    named,
                    from + 1,
                    scope,
                    parameters,
                    types,
                    noted,
                    done,
                ),
                (Some(value), noted) => lower_named(
                    env,
                    named,
                    from + 1,
                    scope,
                    parameters,
                    types,
                    if parameter < types.len() {
                        check_type(
                            value,
                            types[parameter],
                            named[from].expression.span,
                            noted,
                        )
                    } else {
                        noted
                    },
                    done.push(value),
                ),
            },
        }
    }
}

/// A call of an operation of a capability.
pub open spec fn lower_operation(
    env: EnvironmentModel,
    expression: ExpressionModel,
    capability: Seq<char>,
    operation: Seq<char>,
    scope: ScopeModel,
    notes: NotesModel,
) -> Lowered
    decreases expression, 0int,
{
    match expression.kind {
        ExpressionKindModel::Call { callee, arguments, named_arguments, options } => match id_of(
            env.capability_names,
            capability,
        ) {
            None => (
                None,
                notes.with("capability `"@ + capability + "` is not registered"@, callee.span),
            ),
            Some(id) => {
                let operations = env.capabilities[id].operations;
                match operation_of(operations, operation, 0) {
                    None => (
                        None,
                        notes.with(
                            suggested(
                                "capability `"@ + capability + "` has no operation `"@ + operation
                                    + "`"@,
                                operation,
                                operation_names(operations),
                            ),
                            callee.span,
                        ),
                    ),
                    Some(at) => {
                        let called = operations[at];
                        let (order, fine, ordered) = order_named(
                            called.parameter_names,
                            named_arguments,
                            0,
                            None,
                            counted(arguments.len()),
                            true,
                            notes,
                        );
                        let provided = arguments.len() + named_parameters(
                            called.parameter_names,
                            named_arguments,
                            0,
                        );
                        let counted = ordered.unless(
                            provided == called.parameters.len(),
                            "operation `"@ + callee.value + "` expects "@ + decimal(
                                called.parameters.len(),
                            ) + " argument(s), but "@ + decimal(provided as nat)
                                + " were provided"@,
                            expression.span,
                        );
                        let (first, noted) = lower_arguments(
                            env,
                            arguments,
                            0,
                            scope,
                            called.parameters,
                            counted,
                            Seq::empty(),
                        );
                        let (values, named) = lower_named(
                            env,
                            named_arguments,
                            0,
                            scope,
                            called.parameter_names,
                            called.parameters,
                            noted,
                            first,
                        );
                        let checked = check_exclusive(
                            called.mutually_exclusive,
                            0,
                            named_arguments,
                            options,
                            named,
                        );
                        let (given, seen, some) = lower_fields(
                            env,
                            named_arguments,
                            0,
                            scope,
                            Some(called.options),
                            called.parameter_names,
                            checked,
                            Seq::empty(),
                            Seq::empty(),
                        );
                        let (fields, all_seen, last) = lower_fields(
                            env,
                            options,
                            0,
                            scope,
                            Some(called.options),
                            Seq::empty(),
                            some,
                            seen,
                            given,
                        );
                        if named_arguments.len() + options.len() > usize::MAX {
                            (None, last.with("too many options are given"@, expression.span))
                        } else {
                            (
                                Some(
                                    plan(
                                        PlanExpressionKindModel::CapabilityCall {
                                            capability: id,
                                            operation: at,
                                            arguments: handed(
                                                values,
                                                order,
                                                called.parameters.len(),
                                                fine,
                                            ),
                                            options: fields,
                                            evaluation_order: evaluation(
                                                called.parameter_names,
                                                arguments.len(),
                                                named_arguments,
                                                options.len(),
                                            ),
                                        },
                                        type_of_schema(called.result),
                                        expression.span,
                                    ),
                                ),
                                last,
                            )
                        }
                    },
                }
            },
        },
        _ => (None, notes),
    }
}

pub open spec fn name_values(names: Seq<SpannedModel>) -> Seq<Seq<char>> {
    Seq::new(names.len(), |i: int| names[i].value)
}

/// The values of fields from `from` on that became something, behind `done`.
pub open spec fn lower_values(
    env: EnvironmentModel,
    fields: Seq<ObjectFieldModel>,
    from: int,
    scope: ScopeModel,
    notes: NotesModel,
    done: Seq<PlanExpressionModel>,
) -> (Seq<PlanExpressionModel>, NotesModel)
    decreases fields, fields.len() - from,
{
    if from < 0 || from >= fields.len() {
        (done, notes)
    } else {
        let (lowered, noted) = lower_expression(env, fields[from].expression, scope, notes);
        lower_values(
            env,
            fields,
            from + 1,
            scope,
            noted,
            match lowered {
                Some(value) => done.push(value),
                None => done,
            },
        )
    }
}

/// A call of a flow.
pub open spec fn lower_flow_call(
    env: EnvironmentModel,
    expression: ExpressionModel,
    scope: ScopeModel,
    notes: NotesModel,
) -> Lowered
    decreases expression, 0int,
{
    match (expression.kind, scope.flow) {
        (
            ExpressionKindModel::Call { callee, arguments, named_arguments, options },
            None,
        ) => (
            None,
            notes.with(
                "flow calls are not available while evaluating a context"@,
                callee.span,
            ),
        ),
        (
            ExpressionKindModel::Call { callee, arguments, named_arguments, options },
            Some(current),
        ) => {
            let home = env.program.flows[current];
            match resolved(
                env.flows,
                "flow"@,
                callee.value,
                home.namespace,
                home.namespace_uses,
                callee.span,
                notes,
            ) {
                (None, noted) => (None, noted),
                (Some(target), noted) => {
                    let parameters = name_values(env.program.flows[target].parameters);
                    let blocked = noted.unless(
                        options.len() == 0,
                        "option blocks are only supported by capability operations"@,
                        expression.span,
                    );
                    let (order, fine, ordered) = order_named(
                        parameters,
                        named_arguments,
                        0,
                        Some(callee.value),
                        counted(arguments.len()),
                        true,
                        blocked,
                    );
                    let provided = arguments.len() + named_arguments.len();
                    let counted = ordered.unless(
                        provided == parameters.len(),
                        "flow `"@ + callee.value + "` expects "@ + decimal(parameters.len())
                            + " argument(s), but "@ + decimal(provided as nat)
                            + " were provided"@,
                        expression.span,
                    );
                    let (first, some) = lower_list(
                        env,
                        arguments,
                        0,
                        scope,
                        counted,
                        Seq::empty(),
                    );
                    let (values, all) = lower_values(
                        env,
                        named_arguments,
                        0,
                        scope,
                        some,
                        first,
                    );
                    let last = all.calling(current, target, callee.span);
                    (
                        Some(
                            plan(
                                PlanExpressionKindModel::MettleCall {
                                    flow: target,
                                    arguments: handed(values, order, parameters.len(), fine),
                                    evaluation_order: order,
                                },
                                ValueType::Inferred,
                                expression.span,
                            ),
                        ),
                        last,
                    )
                },
            }
        },
        _ => (None, notes),
    }
}

// ---------------------------------------------------------------------------
// Statements

/// Which statements stand in a row: whether a value block is around them,
/// whether their last value is the value of that block, and whether they are
/// the body of a flow.
pub struct RowModel {
    pub block: bool,
    pub tail: bool,
    pub top: bool,
}

/// What a row of statements becomes.
pub struct RowResult {
    pub instructions: Seq<InstructionModel>,
    pub returned: bool,
    pub slots: int,
    pub notes: NotesModel,
}

/// What one statement becomes.
pub struct StepResult {
    pub instruction: Option<InstructionModel>,
    pub returned: bool,
    pub scope: ScopeModel,
    pub notes: NotesModel,
}

pub open spec fn step(
    instruction: Option<InstructionModel>,
    returned: bool,
    scope: ScopeModel,
    notes: NotesModel,
) -> StepResult {
    StepResult { instruction, returned, scope, notes }
}

impl ScopeModel {
    pub open spec fn at_slots(self, slots: int) -> ScopeModel {
        ScopeModel { slots, ..self }
    }

    /// The scope with a name for the next slot.
    pub open spec fn naming(self, name: Seq<char>) -> ScopeModel {
        ScopeModel { locals: self.locals.push((name, self.slots)), slots: self.slots + 1, ..self }
    }
}

/// Complaints about a name that is to be defined.
pub open spec fn check_new(scope: ScopeModel, name: SpannedModel, notes: NotesModel) -> NotesModel {
    if id_of(scope.locals, name.value) is Some {
        notes.with("name `"@ + name.value + "` is already defined in this flow"@, name.span)
    } else {
        notes.unless(scope.slots < usize::MAX, "too many names are defined"@, name.span)
    }
}

pub open spec fn can_define(scope: ScopeModel, name: Seq<char>) -> bool {
    id_of(scope.locals, name) is None && scope.slots < usize::MAX
}

/// Whether a call is the diagnostic `echo`.
pub open spec fn is_echo(expression: ExpressionModel) -> bool {
    match expression.kind {
        ExpressionKindModel::Call { callee, arguments, named_arguments, options } => callee.value
            == "echo"@,
        _ => false,
    }
}

pub open spec fn lower_echo(
    env: EnvironmentModel,
    expression: ExpressionModel,
    scope: ScopeModel,
    notes: NotesModel,
) -> (Option<InstructionModel>, NotesModel)
    decreases expression, 3int,
{
    match expression.kind {
        ExpressionKindModel::Call { callee, arguments, named_arguments, options } =>
            if options.len() > 0 || named_arguments.len() > 0 || arguments.len() != 1 {
                (
                    None,
                    notes.with(
                        "`echo` expects exactly one argument and no option block"@,
                        expression.span,
                    ),
                )
            } else {
                match lower_expression(env, arguments[0], scope, notes) {
                    (None, noted) => (None, noted),
                    (Some(value), noted) => (
                        Some(InstructionModel::Echo { value, span: expression.span }),
                        noted,
                    ),
                }
            },
        _ => (None, notes),
    }
}

pub open spec fn lower_statement(
    env: EnvironmentModel,
    statement: StatementModel,
    last: bool,
    row: RowModel,
    scope: ScopeModel,
    notes: NotesModel,
) -> StepResult
    decreases statement, 1int,
{
    match statement {
        StatementModel::UseContext { name, span } => step(
            None,
            false,
            scope,
            notes.unless(row.top, "`use context` is only allowed at flow entry"@, span),
        ),
        StatementModel::Bind { name, expression, span } => if can_define(scope, name.value) {
            let (lowered, noted) = lower_expression(env, expression, scope, notes);
            step(
                match lowered {
                    Some(expression) => Some(
                        InstructionModel::Bind { slot: scope.slots, expression },
                    ),
                    None => None,
                },
                false,
                scope.naming(name.value),
                noted,
            )
        } else {
            step(None, false, scope, check_new(scope, name, notes))
        },
        StatementModel::Expression(expression) => if is_echo(expression) {
            let (lowered, noted) = lower_echo(env, expression, scope, notes);
            step(lowered, false, scope, noted)
        } else {
            let (lowered, noted) = lower_expression(env, expression, scope, notes);
            let value = row.tail && last;
            step(
                match lowered {
                    Some(expression) => Some(
                        if value {
                            InstructionModel::Return(expression)
                        } else {
                            InstructionModel::Evaluate(expression)
                        },
                    ),
                    None => None,
                },
                value || expression.kind is Fail,
                scope,
                noted,
            )
        },
        StatementModel::Return { expression, span } => if row.block {
            step(
                None,
                false,
                scope,
                notes.with("`return` cannot exit a flow from inside a value block"@, span),
            )
        } else if scope.test {
            step(None, false, scope, notes.with("`return` is not allowed in a test"@, span))
        } else {
            let (lowered, noted) = lower_expression(env, expression, scope, notes);
            step(
                match lowered {
                    Some(expression) => Some(InstructionModel::Return(expression)),
                    None => None,
                },
                true,
                scope,
                noted,
            )
        },
        StatementModel::Assert { expression, message, span } => lower_assertion(
            env,
            statement,
            scope,
            notes,
        ),
        StatementModel::If { branches, else_body, span } => lower_conditional(
            env,
            statement,
            last,
            row,
            scope,
            notes,
        ),
    }
}

pub open spec fn lower_assertion(
    env: EnvironmentModel,
    statement: StatementModel,
    scope: ScopeModel,
    notes: NotesModel,
) -> StepResult
    decreases statement, 0int,
{
    match statement {
        StatementModel::Assert { expression, message, span } => match lower_expression(
            env,
            expression,
            scope,
            notes,
        ) {
            (None, noted) => step(None, false, scope, noted),
            (Some(condition), noted) => {
                let checked = noted.unless(
                    may_be(condition, ValueType::Boolean),
                    "assertion expression must be boolean"@,
                    condition.span,
                );
                match message {
                    None => step(
                        Some(InstructionModel::Assert { condition, message: None }),
                        false,
                        scope,
                        checked,
                    ),
                    Some(message) => match lower_expression(env, message, scope, checked) {
                        (None, last) => step(
                            Some(InstructionModel::Assert { condition, message: None }),
                            false,
                            scope,
                            last,
                        ),
                        (Some(text), last) => step(
                            Some(InstructionModel::Assert { condition, message: Some(text) }),
                            false,
                            scope,
                            last.unless(
                                may_be(text, ValueType::String),
                                "assertion message must be a string"@,
                                text.span,
                            ),
                        ),
                    },
                }
            },
        },
        _ => step(None, false, scope, notes),
    }
}

/// What the branches of a conditional become, from `from` on.
pub open spec fn lower_if_branches(
    env: EnvironmentModel,
    branches: Seq<IfBranchModel>,
    from: int,
    row: RowModel,
    scope: ScopeModel,
    notes: NotesModel,
    done: Seq<ConditionalBranchModel>,
    returned: bool,
) -> (Seq<ConditionalBranchModel>, bool, int, NotesModel)
    decreases branches, branches.len() - from,
{
    if from < 0 || from >= branches.len() {
        (done, returned, scope.slots, notes)
    } else {
        let (condition, noted) = lower_expression(env, branches[from].condition, scope, notes);
        let checked = match condition {
            Some(condition) => noted.unless(
                may_be(condition, ValueType::Boolean),
                "if condition must be boolean"@,
                condition.span,
            ),
            None => noted,
        };
        let body = lower_row(
            env,
            branches[from].body,
            0,
            row,
            scope,
            checked,
            Seq::empty(),
            false,
        );
        lower_if_branches(
            env,
            branches,
            from + 1,
            row,
            scope.at_slots(body.slots),
            body.notes,
            match condition {
                Some(condition) => done.push(
                    ConditionalBranchModel { condition, instructions: body.instructions },
                ),
                None => done,
            },
            returned && body.returned,
        )
    }
}

pub open spec fn lower_conditional(
    env: EnvironmentModel,
    statement: StatementModel,
    last: bool,
    row: RowModel,
    scope: ScopeModel,
    notes: NotesModel,
) -> StepResult
    decreases statement, 0int,
{
    match statement {
        StatementModel::If { branches, else_body, span } => {
            let inner = RowModel { block: row.block, tail: row.tail && last, top: false };
            let (lowered, all, slots, noted) = lower_if_branches(
                env,
                branches,
                0,
                inner,
                scope,
                notes,
                Seq::empty(),
                true,
            );
            match else_body {
                None => step(
                    Some(InstructionModel::If { branches: lowered, else_body: None }),
                    false,
                    scope.at_slots(slots),
                    noted,
                ),
                Some(body) => {
                    let other = lower_row(
                        env,
                        body,
                        0,
                        inner,
                        scope.at_slots(slots),
                        noted,
                        Seq::empty(),
                        false,
                    );
                    step(
                        Some(
                            InstructionModel::If {
                                branches: lowered,
                                else_body: Some(other.instructions),
                            },
                        ),
                        all && other.returned,
                        scope.at_slots(other.slots),
                        other.notes,
                    )
                },
            }
        },
        _ => step(None, false, scope, notes),
    }
}

/// What a row of statements becomes, from `from` on, behind `done`.
pub open spec fn lower_row(
    env: EnvironmentModel,
    statements: Seq<StatementModel>,
    from: int,
    row: RowModel,
    scope: ScopeModel,
    notes: NotesModel,
    done: Seq<InstructionModel>,
    returned: bool,
) -> RowResult
    decreases statements, statements.len() - from,
{
    if from < 0 || from >= statements.len() {
        RowResult { instructions: done, returned, slots: scope.slots, notes }
    } else if returned {
        lower_row(
            env,
            statements,
            from + 1,
            row,
            scope,
            notes.with(
                "statement is unreachable because the flow already returned"@,
                statements[from].span(),
            ),
            done,
            returned,
        )
    } else {
        let result = lower_statement(
            env,
            statements[from],
            from + 1 == statements.len(),
            row,
            scope,
            notes,
        );
        lower_row(
            env,
            statements,
            from + 1,
            row,
            result.scope,
            result.notes,
            match result.instruction {
                Some(instruction) => done.push(instruction),
                None => done,
            },
            result.returned,
        )
    }
}

/// The type of the value of a block.
pub open spec fn block_type(instructions: Seq<InstructionModel>) -> ValueType {
    if instructions.len() > 0 {
        match instructions.last() {
            InstructionModel::Return(expression) => expression.value_type,
            _ => ValueType::Inferred,
        }
    } else {
        ValueType::Inferred
    }
}

/// A block whose last value is its own.
pub open spec fn lower_block(
    env: EnvironmentModel,
    expression: ExpressionModel,
    scope: ScopeModel,
    notes: NotesModel,
) -> Lowered
    decreases expression, 1int,
{
    match expression.kind {
        ExpressionKindModel::Block(statements) => {
            let body = lower_row(
                env,
                statements,
                0,
                RowModel { block: true, tail: true, top: false },
                scope,
                notes,
                Seq::empty(),
                false,
            );
            (
                Some(
                    plan(
                        PlanExpressionKindModel::Block {
                            instructions: body.instructions,
                            local_count: body.slots,
                        },
                        block_type(body.instructions),
                        expression.span,
                    ),
                ),
                body.notes.unless(
                    body.returned,
                    "a value block must end with an expression"@,
                    expression.span,
                ),
            )
        },
        _ => (None, notes),
    }
}

/// The scope inside a loop, with its names, and complaints about those.
pub open spec fn loop_scope(
    scope: ScopeModel,
    key: Option<SpannedModel>,
    value: SpannedModel,
    notes: NotesModel,
) -> (Option<ScopeModel>, NotesModel) {
    match key {
        None => if can_define(scope, value.value) {
            (Some(scope.naming(value.value)), notes)
        } else {
            (None, check_new(scope, value, notes))
        },
        Some(key) => if !can_define(scope, key.value) {
            (None, check_new(scope, key, notes))
        } else if !can_define(scope.naming(key.value), value.value) {
            (None, check_new(scope.naming(key.value), value, notes))
        } else {
            (Some(scope.naming(key.value).naming(value.value)), notes)
        },
    }
}

/// A loop over an array or an object.
pub open spec fn lower_loop(
    env: EnvironmentModel,
    expression: ExpressionModel,
    scope: ScopeModel,
    notes: NotesModel,
) -> Lowered
    decreases expression, 1int,
{
    match expression.kind {
        ExpressionKindModel::For { key, value, iterable, body } => match lower_expression(
            env,
            *iterable,
            scope,
            notes,
        ) {
            (None, noted) => (None, noted),
            (Some(iterable), noted) => {
                let checked = noted.unless(
                    may_be(iterable, ValueType::Array) || iterable.value_type == ValueType::Object,
                    "`for` requires an array or object"@,
                    iterable.span,
                );
                match loop_scope(scope, key, value, checked) {
                    (None, last) => (None, last),
                    (Some(inner), named) => {
                        let lowered = lower_row(
                            env,
                            body,
                            0,
                            RowModel { block: true, tail: true, top: false },
                            inner,
                            named,
                            Seq::empty(),
                            false,
                        );
                        (
                            Some(
                                plan(
                                    PlanExpressionKindModel::For {
                                        iterable: Box::new(iterable),
                                        key_slot: match key {
                                            Some(_) => Some(scope.slots),
                                            None => None,
                                        },
                                        value_slot: inner.slots - 1,
                                        instructions: lowered.instructions,
                                        local_count: lowered.slots,
                                        produces_value: lowered.returned,
                                    },
                                    if lowered.returned {
                                        ValueType::Array
                                    } else {
                                        ValueType::Null
                                    },
                                    expression.span,
                                ),
                            ),
                            lowered.notes,
                        )
                    },
                }
            },
        },
        _ => (None, notes),
    }
}

} // verus!
