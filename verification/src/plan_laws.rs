//! What a plan refers to is there, whatever the program was.

use vstd::prelude::*;

use crate::assembly::{
    capability_table, check_names, check_parameters, compiled, context_of_file, context_of_flow,
    context_scope, environment_of, file_context, flat_nothing, flatten, flatten_all, flatten_uses,
    flattened, inline_context, parameter_table, plan_context, plan_context_fields, plan_contexts,
    plan_defaults, plan_flow, plan_flows, unflattened, untraced, with_fields, FlatModel,
    FlatteningModel, VisitState,
};
use crate::call_laws::{lemma_all_errors_grow, lemma_distinct_bound};
use crate::capability::{CapabilityModel, FieldSchemaModel, OperationModel, SchemaTypeModel};
use crate::definition::{context_table, flow_table, root_of};
use crate::lowering::{
    all_named, arranged, check_branch_names, check_exclusive, check_headers, check_type, complete,
    counted, duration_literal, evaluate_named, evaluation, field_of, fits, handed, in_backquotes,
    is_echo, known_name, loop_scope, lower_arguments, lower_block, lower_branches, lower_call,
    lower_conditional, lower_echo, lower_expression, lower_field, lower_fields, lower_flow_call,
    lower_if_branches, lower_inserted, lower_list, lower_loop, lower_named, lower_nested,
    lower_operation, lower_parallel, lower_parts, lower_row, lower_statement, lower_text,
    lower_values, may_be, name_values, named_parameters, next_opening, none_named, operation_of,
    optional_limit, order_named, plan, positive_literal, present_options, rate_settings,
    read_members, resolved, retry_delay, schema_names, slot_of, EnvironmentModel, Lowered,
    NotesModel, RowModel, ScopeModel, StepResult,
};
use crate::names::{id_of, qualified, suggested, visible, NameTable};
use crate::placing::{lemma_arranged_len, lemma_filled};
use crate::plan::{
    CallEvaluation, CapabilityDefaultsModel, ConditionalBranchModel, ContextPlanModel,
    ExecutionPlanModel, InstructionModel, MettlePlanModel, PlanBranchModel, PlanExpressionKindModel,
    PlanExpressionModel, PlanFieldModel, StringPartModel, ValueType,
};
use crate::syntax::{
    ContextDeclModel, ContextMemberModel, DeclarationKind, ExpressionKindModel, ExpressionModel,
    FileContextUseModel, IfBranchModel, MettleDeclModel, ObjectFieldModel, ParallelBranchModel,
    ProgramModel, Span, SpannedModel, StatementModel,
};
use crate::text::{decimal, joined, lemma_position_of, position_of, split_at};

verus! {

// ---------------------------------------------------------------------------
// Valid plans

/// What the expressions of a flow or a context may refer to.
pub struct LimitsModel {
    /// How many parameters each flow has.
    pub flows: Seq<nat>,
    pub capabilities: Seq<CapabilityModel>,
    /// How many fields the context has that the expressions are evaluated in.
    pub fields: nat,
}

/// Whether an expression refers to locals below `slots`, to fields, flows and
/// operations that are there, hands each what it expects, and keeps the bounds
/// of its policies.
pub open spec fn valid_expression(
    limits: LimitsModel,
    expression: PlanExpressionModel,
    slots: int,
) -> bool
    decreases expression,
{
    match expression.kind {
        PlanExpressionKindModel::Constant(_) => true,
        PlanExpressionKindModel::Local(slot) => 0 <= slot < slots,
        PlanExpressionKindModel::Context(slot) => 0 <= slot < limits.fields,
        PlanExpressionKindModel::Environment(_) => true,
        PlanExpressionKindModel::Sensitive(value) => valid_expression(limits, *value, slots),
        PlanExpressionKindModel::Array(values) => valid_list(limits, values, slots),
        PlanExpressionKindModel::Object(fields) => valid_fields(limits, fields, slots),
        PlanExpressionKindModel::Block { instructions, local_count } => valid_instructions(
            limits,
            instructions,
            local_count,
        ),
        PlanExpressionKindModel::For {
            iterable,
            key_slot,
            value_slot,
            instructions,
            local_count,
            produces_value,
        } => {
            &&& valid_expression(limits, *iterable, slots)
            &&& (key_slot matches Some(slot) ==> 0 <= slot < local_count)
            &&& 0 <= value_slot < local_count
            &&& valid_instructions(limits, instructions, local_count)
        },
        PlanExpressionKindModel::Member { value, member } => valid_expression(
            limits,
            *value,
            slots,
        ),
        PlanExpressionKindModel::Index { value, index } => {
            &&& valid_expression(limits, *value, slots)
            &&& valid_expression(limits, *index, slots)
        },
        PlanExpressionKindModel::Not(value) => valid_expression(limits, *value, slots),
        PlanExpressionKindModel::Negate(value) => valid_expression(limits, *value, slots),
        PlanExpressionKindModel::Binary { left, operator, right } => {
            &&& valid_expression(limits, *left, slots)
            &&& valid_expression(limits, *right, slots)
        },
        PlanExpressionKindModel::InterpolatedString(parts) => valid_parts(limits, parts, slots),
        PlanExpressionKindModel::Fail(value) => valid_expression(limits, *value, slots),
        PlanExpressionKindModel::MettleCall { flow, arguments, evaluation_order } => {
            &&& 0 <= flow < limits.flows.len()
            &&& arguments.len() == limits.flows[flow]
            &&& valid_list(limits, arguments, slots)
            &&& forall|i: int|
                0 <= i < arguments.len() ==> #[trigger] evaluation_order.contains(i)
        },
        PlanExpressionKindModel::CapabilityCall {
            capability,
            operation,
            arguments,
            options,
            evaluation_order,
        } => {
            &&& 0 <= capability < limits.capabilities.len()
            &&& 0 <= operation < limits.capabilities[capability].operations.len()
            &&& arguments.len()
                == limits.capabilities[capability].operations[operation].parameters.len()
            &&& valid_list(limits, arguments, slots)
            &&& valid_fields(limits, options, slots)
            &&& fitting_options(limits.capabilities[capability].operations[operation], options)
            &&& evaluates_all(evaluation_order, arguments.len(), options.len())
        },
        PlanExpressionKindModel::Within { timeout, body } => {
            &&& timeout.nanos > 0
            &&& valid_expression(limits, *body, slots)
        },
        PlanExpressionKindModel::Retry { attempts, delay, body } => {
            &&& attempts > 0
            &&& valid_expression(limits, *body, slots)
        },
        PlanExpressionKindModel::Parallel { limit, branches } => {
            &&& 0 < limit <= 1024
            &&& branches.len() <= 1024
            &&& valid_branches(limits, branches, slots)
        },
        PlanExpressionKindModel::Rate { target, period, duration, limit, body } => {
            &&& 0 < target <= 1_000_000
            &&& period.nanos > 0
            &&& duration.nanos > 0
            &&& 0 < limit <= 100_000
            &&& 0 < (duration.nanos * target) / (period.nanos as int) <= 100_000_000
            &&& valid_expression(limits, *body, slots)
        },
        PlanExpressionKindModel::Concurrency { limit, duration, body } => {
            &&& 0 < limit <= 100_000
            &&& duration.nanos > 0
            &&& valid_expression(limits, *body, slots)
        },
    }
}

/// Whether fields are there only once, are known to the schema, and have values
/// of its types, as far as those are known.
pub open spec fn fitting_fields(
    schema: Seq<FieldSchemaModel>,
    fields: Seq<PlanFieldModel>,
) -> bool {
    &&& forall|i: int, j: int|
        0 <= i < j < fields.len() ==> (#[trigger] fields[i]).name != (#[trigger] fields[j]).name
    &&& forall|i: int| 0 <= i < fields.len() ==> fitting_field(schema, #[trigger] fields[i])
}

pub open spec fn fitting_field(schema: Seq<FieldSchemaModel>, field: PlanFieldModel) -> bool {
    match field_of(schema, field.name, 0) {
        Some(at) => field.expression.value_type == ValueType::Inferred || fits(
            field.expression.value_type,
            schema[at].value_type,
        ),
        None => false,
    }
}

/// Whether two options exclude each other.
pub open spec fn excluded(groups: Seq<Seq<Seq<char>>>, one: Seq<char>, other: Seq<char>) -> bool {
    exists|i: int|
        0 <= i < groups.len() && (#[trigger] groups[i]).contains(one) && groups[i].contains(other)
}

/// Whether an operation can take options, and none excludes another.
pub open spec fn fitting_options(
    operation: OperationModel,
    options: Seq<PlanFieldModel>,
) -> bool {
    &&& fitting_fields(operation.options, options)
    &&& forall|i: int, j: int|
        0 <= i < j < options.len() ==> !excluded(
            operation.mutually_exclusive,
            (#[trigger] options[i]).name,
            (#[trigger] options[j]).name,
        )
}

/// Whether every argument and every option has its turn.
pub open spec fn evaluates_all(order: Seq<CallEvaluation>, arguments: nat, options: nat) -> bool {
    &&& forall|i: int|
        0 <= i < arguments ==> #[trigger] order.contains(CallEvaluation::Parameter(i as usize))
    &&& forall|i: int|
        0 <= i < options ==> #[trigger] order.contains(CallEvaluation::Option(i as usize))
}

pub open spec fn valid_list(
    limits: LimitsModel,
    values: Seq<PlanExpressionModel>,
    slots: int,
) -> bool
    decreases values,
{
    forall|i: int| 0 <= i < values.len() ==> valid_expression(limits, #[trigger] values[i], slots)
}

pub open spec fn valid_fields(
    limits: LimitsModel,
    fields: Seq<PlanFieldModel>,
    slots: int,
) -> bool
    decreases fields,
{
    forall|i: int|
        0 <= i < fields.len() ==> valid_expression(limits, (#[trigger] fields[i]).expression, slots)
}

pub open spec fn valid_branches(
    limits: LimitsModel,
    branches: Seq<PlanBranchModel>,
    slots: int,
) -> bool
    decreases branches,
{
    forall|i: int|
        0 <= i < branches.len() ==> valid_expression(
            limits,
            (#[trigger] branches[i]).expression,
            slots,
        )
}

pub open spec fn valid_parts(limits: LimitsModel, parts: Seq<StringPartModel>, slots: int) -> bool
    decreases parts,
{
    forall|i: int| 0 <= i < parts.len() ==> valid_part(limits, #[trigger] parts[i], slots)
}

pub open spec fn valid_part(limits: LimitsModel, part: StringPartModel, slots: int) -> bool
    decreases part,
{
    match part {
        StringPartModel::Text(_) => true,
        StringPartModel::Value(value) => valid_expression(limits, value, slots),
    }
}

pub open spec fn valid_instructions(
    limits: LimitsModel,
    instructions: Seq<InstructionModel>,
    slots: int,
) -> bool
    decreases instructions,
{
    forall|i: int|
        0 <= i < instructions.len() ==> valid_instruction(
            limits,
            #[trigger] instructions[i],
            slots,
        )
}

pub open spec fn valid_instruction(
    limits: LimitsModel,
    instruction: InstructionModel,
    slots: int,
) -> bool
    decreases instruction,
{
    match instruction {
        InstructionModel::Echo { value, span } => valid_expression(limits, value, slots),
        InstructionModel::If { branches, else_body } => {
            &&& valid_if_branches(limits, branches, slots)
            &&& match else_body {
                Some(body) => valid_instructions(limits, body, slots),
                None => true,
            }
        },
        InstructionModel::Bind { slot, expression } => {
            &&& 0 <= slot < slots
            &&& valid_expression(limits, expression, slots)
        },
        InstructionModel::Evaluate(expression) => valid_expression(limits, expression, slots),
        InstructionModel::Assert { condition, message } => {
            &&& valid_expression(limits, condition, slots)
            &&& match message {
                Some(message) => valid_expression(limits, message, slots),
                None => true,
            }
        },
        InstructionModel::Return(expression) => valid_expression(limits, expression, slots),
    }
}

pub open spec fn valid_if_branches(
    limits: LimitsModel,
    branches: Seq<ConditionalBranchModel>,
    slots: int,
) -> bool
    decreases branches,
{
    forall|i: int|
        0 <= i < branches.len() ==> valid_if_branch(limits, #[trigger] branches[i], slots)
}

pub open spec fn valid_if_branch(
    limits: LimitsModel,
    branch: ConditionalBranchModel,
    slots: int,
) -> bool
    decreases branch,
{
    &&& valid_expression(limits, branch.condition, slots)
    &&& valid_instructions(limits, branch.instructions, slots)
}

// ---------------------------------------------------------------------------
// Names

/// Whether the numbers of a table stay below a bound.
pub open spec fn names_below(names: NameTable, count: int) -> bool {
    forall|i: int| 0 <= i < names.len() ==> 0 <= (#[trigger] names[i]).1 < count
}

proof fn lemma_id_below(names: NameTable, name: Seq<char>, count: int)
    requires
        names_below(names, count),
    ensures
        id_of(names, name) matches Some(id) ==> 0 <= id < count,
    decreases names.len(),
{
    if names.len() > 0 && names.last().0 != name {
        let rest = names.drop_last();
        assert forall|i: int| 0 <= i < rest.len() implies 0 <= (#[trigger] rest[i]).1 < count by {
            assert(rest[i] == names[i]);
        }
        lemma_id_below(rest, name, count);
    }
}

spec fn all_known(names: NameTable, found: Seq<Seq<char>>) -> bool {
    forall|i: int| 0 <= i < found.len() ==> id_of(names, #[trigger] found[i]) is Some
}

proof fn lemma_visible(
    names: NameTable,
    name: Seq<char>,
    uses: Seq<SpannedModel>,
    from: int,
    found: Seq<Seq<char>>,
)
    requires
        all_known(names, found),
    ensures
        all_known(names, visible(names, name, uses, from, found)),
    decreases uses.len() - from,
{
    if 0 <= from < uses.len() {
        let candidate = qualified(uses[from].value, name);
        if id_of(names, candidate) is Some && !found.contains(candidate) {
            lemma_visible(names, name, uses, from + 1, found.push(candidate));
        } else {
            lemma_visible(names, name, uses, from + 1, found);
        }
    }
}

pub(crate) proof fn lemma_resolved(
    names: NameTable,
    what: Seq<char>,
    name: Seq<char>,
    namespace: Seq<char>,
    uses: Seq<SpannedModel>,
    span: Span,
    notes: NotesModel,
    count: int,
)
    requires
        names_below(names, count),
    ensures
        resolved(names, what, name, namespace, uses, span, notes).0 matches Some(id) ==> 0 <= id
            < count,
{
    lemma_id_below(names, qualified(namespace, name), count);
    let global = if namespace.len() > 0 && id_of(names, name) is Some {
        seq![name]
    } else {
        Seq::empty()
    };
    lemma_visible(names, name, uses, 0, global);
    let candidates = visible(names, name, uses, 0, global);
    if candidates.len() == 1 {
        assert(id_of(names, candidates[0]) is Some);
        lemma_id_below(names, candidates[0], count);
    }
}

proof fn lemma_slot_of(names: Seq<Seq<char>>, name: Seq<char>, from: int)
    ensures
        slot_of(names, name, from) matches Some(slot) ==> 0 <= from <= slot < names.len(),
    decreases names.len() - from,
{
    if 0 <= from < names.len() && names[from] != name {
        lemma_slot_of(names, name, from + 1);
    }
}

/// What a program gives names for.
spec fn sound(env: EnvironmentModel) -> bool {
    &&& names_below(env.capability_names, env.capabilities.len() as int)
    &&& names_below(env.contexts, env.program.contexts.len() as int)
    &&& names_below(env.flows, env.program.flows.len() as int)
    &&& env.fields.len() == env.program.contexts.len()
    &&& well_named(env.capabilities)
}

/// Whether no operation names more parameters than it has.
pub open spec fn well_named(capabilities: Seq<CapabilityModel>) -> bool {
    forall|i: int, j: int|
        0 <= i < capabilities.len() && 0 <= j < capabilities[i].operations.len() ==> (
        #[trigger] capabilities[i].operations[j]).parameter_names.len()
            <= capabilities[i].operations[j].parameters.len()
}

/// Whether a scope gives names to slots below its own.
spec fn sound_scope(env: EnvironmentModel, scope: ScopeModel) -> bool {
    &&& names_below(scope.locals, scope.slots)
    &&& 0 <= scope.slots
}

pub open spec fn parameter_counts(flows: Seq<MettleDeclModel>) -> Seq<nat> {
    Seq::new(flows.len(), |i: int| flows[i].parameters.len())
}

spec fn limits_in(env: EnvironmentModel, context: Option<int>) -> LimitsModel {
    LimitsModel {
        flows: parameter_counts(env.program.flows),
        capabilities: env.capabilities,
        fields: match context {
            Some(context) => env.fields[context].len(),
            None => 0,
        },
    }
}

proof fn lemma_read_members(
    limits: LimitsModel,
    value: PlanExpressionModel,
    path: Seq<char>,
    from: int,
    span: Span,
    slots: int,
)
    requires
        valid_expression(limits, value, slots),
    ensures
        valid_expression(limits, read_members(value, path, from, span), slots),
    decreases path.len() - from,
{
    let end = position_of(path, '.', from);
    if !(from < 0 || from > path.len() || end < from) {
        let read = plan(
            PlanExpressionKindModel::Member {
                value: Box::new(value),
                member: path.subrange(from, end),
            },
            ValueType::Inferred,
            span,
        );
        assert(valid_expression(limits, read, slots));
        if end < path.len() {
            lemma_read_members(limits, read, path, end + 1, span, slots);
        }
    }
}

proof fn lemma_known_name(
    env: EnvironmentModel,
    path: Seq<char>,
    span: Span,
    scope: ScopeModel,
    slots: int,
)
    requires
        sound_scope(env, scope),
        scope.slots <= slots,
    ensures
        known_name(env, path, span, scope) matches Some(value) ==> valid_expression(
            limits_in(env, scope.context),
            value,
            slots,
        ),
{
    let root = root_of(path);
    let limits = limits_in(env, scope.context);
    lemma_id_below(scope.locals, root, scope.slots);
    let base = match id_of(scope.locals, root) {
        Some(slot) => Some(PlanExpressionKindModel::Local(slot)),
        None => match scope.context {
            Some(context) => match slot_of(env.fields[context], root, 0) {
                Some(slot) => Some(PlanExpressionKindModel::Context(slot)),
                None => None,
            },
            None => None,
        },
    };
    if scope.context is Some {
        lemma_slot_of(env.fields[scope.context->0], root, 0);
    }
    if base is Some {
        let value = plan(base->0, ValueType::Inferred, span);
        assert(valid_expression(limits, value, slots));
        let dot = position_of(path, '.', 0);
        lemma_read_members(limits, value, path, dot + 1, span, slots);
    }
}

// ---------------------------------------------------------------------------
// Texts

proof fn lemma_opening(text: Seq<char>, from: int)
    requires
        0 <= from <= text.len(),
    ensures
        from <= next_opening(text, from) <= text.len(),
        next_opening(text, from) < text.len() ==> next_opening(text, from) + 2 <= text.len(),
    decreases text.len() - from,
{
    if from < text.len() {
        lemma_opening(text, from + 1);
    }
}

proof fn lemma_parts(
    env: EnvironmentModel,
    text: Seq<char>,
    from: int,
    span: Span,
    scope: ScopeModel,
    notes: NotesModel,
    done: Seq<StringPartModel>,
    slots: int,
)
    requires
        sound_scope(env, scope),
        scope.slots <= slots,
        valid_parts(limits_in(env, scope.context), done, slots),
    ensures
        lower_parts(env, text, from, span, scope, notes, done).0 matches Some(parts)
            ==> valid_parts(limits_in(env, scope.context), parts, slots),
        grows(notes, lower_parts(env, text, from, span, scope, notes, done).1),
        0 <= from <= text.len() && clean(
            lower_parts(env, text, from, span, scope, notes, done).1,
        ) ==> lower_parts(env, text, from, span, scope, notes, done).0 is Some,
    decreases text.len() - from,
{
    let start = next_opening(text, from);
    let end = position_of(text, '}', start + 2);
    if 0 <= from <= text.len() {
        lemma_opening(text, from);
        if start < text.len() {
            lemma_position_of(text, '}', start + 2);
        }
    }
    if from < 0 || from > text.len() || start >= text.len() {
    } else if end >= text.len() || start < from || end < start + 2 {
    } else {
        let path = text.subrange(start + 2, end);
        match lower_inserted(env, path, span, scope, notes) {
            (None, _) => {},
            (Some(value), noted) => {
                lemma_known_name(env, path, span, scope, slots);
                assert(valid_expression(limits_in(env, scope.context), value, slots));
                let before = if start > from {
                    done.push(StringPartModel::Text(text.subrange(from, start)))
                } else {
                    done
                };
                lemma_parts(
                    env,
                    text,
                    end + 1,
                    span,
                    scope,
                    noted,
                    before.push(StringPartModel::Value(value)),
                    slots,
                );
            },
        }
    }
}

proof fn lemma_text(
    env: EnvironmentModel,
    text: Seq<char>,
    span: Span,
    scope: ScopeModel,
    notes: NotesModel,
    slots: int,
)
    requires
        sound_scope(env, scope),
        scope.slots <= slots,
    ensures
        lower_text(env, text, span, scope, notes).0 matches Some(value) ==> valid_expression(
            limits_in(env, scope.context),
            value,
            slots,
        ),
        grows(notes, lower_text(env, text, span, scope, notes).1),
        clean(lower_text(env, text, span, scope, notes).1) ==> lower_text(
            env,
            text,
            span,
            scope,
            notes,
        ).0 is Some,
{
    lemma_parts(env, text, 0, span, scope, notes, Seq::empty(), slots);
}

// ---------------------------------------------------------------------------
// Arguments

/// Which value stands in a slot.
proof fn lemma_arranged(
    values: Seq<PlanExpressionModel>,
    order: Seq<int>,
    expected: nat,
    count: int,
    slot: int,
)
    requires
        0 <= count <= order.len(),
        0 <= slot < expected,
    ensures
        arranged(values, order, expected, count).len() == expected,
        arranged(values, order, expected, count)[slot] matches Some(value) ==> exists|i: int|
            0 <= i < count && #[trigger] order[i] == slot && value == values[i],
    decreases count,
{
    if count > 0 {
        lemma_arranged(values, order, expected, count - 1, slot);
        let last = order[count - 1];
        if arranged(values, order, expected, count)[slot] is Some && last != slot {
            let i = choose|i: int|
                0 <= i < count - 1 && #[trigger] order[i] == slot && arranged(
                    values,
                    order,
                    expected,
                    count - 1,
                )[slot]->0 == values[i];
            assert(order[i] == slot);
        }
    }
}

proof fn lemma_complete(
    limits: LimitsModel,
    values: Seq<PlanExpressionModel>,
    order: Seq<int>,
    expected: nat,
    slots: int,
)
    requires
        valid_list(limits, values, slots),
    ensures
        complete(values, order, expected) matches Some(placed) ==> {
            &&& placed.len() == expected
            &&& valid_list(limits, placed, slots)
            &&& forall|i: int| 0 <= i < expected ==> #[trigger] order.contains(i)
        },
{
    if complete(values, order, expected) is Some {
        let placed = complete(values, order, expected)->0;
        let filled = arranged(values, order, expected, order.len() as int);
        assert forall|i: int| 0 <= i < expected implies #[trigger] order.contains(i)
            && valid_expression(limits, placed[i], slots) by {
            lemma_arranged(values, order, expected, order.len() as int, i);
            assert(filled[i] is Some);
            let k = choose|k: int|
                0 <= k < order.len() && #[trigger] order[k] == i && filled[i]->0 == values[k];
            assert(order[k] == i);
            assert(valid_expression(limits, values[k], slots));
        }
        assert forall|i: int| 0 <= i < placed.len() implies valid_expression(
            limits,
            #[trigger] placed[i],
            slots,
        ) by {
            assert(order.contains(i));
        }
    }
}

/// How many fields from `from` on belong to no parameter.
spec fn spare(parameters: Seq<Seq<char>>, fields: Seq<ObjectFieldModel>, from: int) -> nat
    decreases fields.len() - from,
{
    if from < 0 || from >= fields.len() {
        0
    } else {
        (if slot_of(parameters, fields[from].name.value, 0) is None {
            1nat
        } else {
            0nat
        }) + spare(parameters, fields, from + 1)
    }
}

/// The named arguments of an operation have their turns.
proof fn lemma_evaluate_named(
    parameters: Seq<Seq<char>>,
    named: Seq<ObjectFieldModel>,
    from: int,
    order: Seq<int>,
    fine: bool,
    notes: NotesModel,
    options: int,
    done: Seq<CallEvaluation>,
)
    requires
        0 <= options,
        forall|i: int|
            order.contains(i) ==> #[trigger] done.contains(CallEvaluation::Parameter(i as usize)),
        forall|i: int|
            0 <= i < options ==> #[trigger] done.contains(CallEvaluation::Option(i as usize)),
    ensures
        ({
            let placed = order_named(parameters, named, from, None, order, fine, notes).0;
            let (turns, total) = evaluate_named(parameters, named, from, options, done);
            &&& total == options + spare(parameters, named, from)
            &&& forall|i: int|
                placed.contains(i) ==> #[trigger] turns.contains(
                    CallEvaluation::Parameter(i as usize),
                )
            &&& forall|i: int|
                0 <= i < total ==> #[trigger] turns.contains(CallEvaluation::Option(i as usize))
        }),
    decreases named.len() - from,
{
    if 0 <= from < named.len() {
        let name = named[from].name;
        match slot_of(parameters, name.value, 0) {
            None => {
                let turn = CallEvaluation::Option(options as usize);
                let after = done.push(turn);
                lemma_pushed(done, turn);
                lemma_evaluate_named(
                    parameters,
                    named,
                    from + 1,
                    order,
                    fine,
                    notes,
                    options + 1,
                    after,
                );
            },
            Some(parameter) => {
                let turn = CallEvaluation::Parameter(parameter as usize);
                let after = done.push(turn);
                lemma_pushed(done, turn);
                if order.contains(parameter) {
                    lemma_evaluate_named(
                        parameters,
                        named,
                        from + 1,
                        order,
                        false,
                        notes.with(
                            "argument `"@ + name.value + "` was supplied more than once"@,
                            name.span,
                        ),
                        options,
                        after,
                    );
                } else {
                    let longer = order.push(parameter);
                    assert forall|i: int| longer.contains(i) implies #[trigger] after.contains(
                        CallEvaluation::Parameter(i as usize),
                    ) by {
                        if i != parameter {
                            let k = choose|k: int| 0 <= k < longer.len() && longer[k] == i;
                            assert(order[k] == i);
                            assert(order.contains(i));
                        }
                    }
                    lemma_evaluate_named(
                        parameters,
                        named,
                        from + 1,
                        longer,
                        fine,
                        notes,
                        options,
                        after,
                    );
                }
            },
        }
    }
}

proof fn lemma_pushed(done: Seq<CallEvaluation>, turn: CallEvaluation)
    ensures
        forall|other: CallEvaluation|
            #[trigger] done.push(turn).contains(other) <==> done.contains(other) || other == turn,
{
    let after = done.push(turn);
    assert forall|other: CallEvaluation| #[trigger] after.contains(other) <==> done.contains(other)
        || other == turn by {
        if done.contains(other) {
            let k = choose|k: int| 0 <= k < done.len() && done[k] == other;
            assert(after[k] == other);
        }
        if other == turn {
            assert(after[done.len() as int] == other);
        }
        if after.contains(other) && other != turn {
            let k = choose|k: int| 0 <= k < after.len() && after[k] == other;
            assert(done[k] == other);
        }
    }
}

proof fn lemma_evaluation(
    parameters: Seq<Seq<char>>,
    positional: nat,
    named: Seq<ObjectFieldModel>,
    options: nat,
    notes: NotesModel,
    arguments: nat,
    fields: nat,
)
    requires
        ({
            let order = order_named(
                parameters,
                named,
                0,
                None,
                counted(positional),
                true,
                notes,
            ).0;
            forall|i: int| 0 <= i < arguments ==> #[trigger] order.contains(i)
        }),
        fields <= spare(parameters, named, 0) + options,
    ensures
        evaluates_all(evaluation(parameters, positional, named, options), arguments, fields),
{
    let first = Seq::new(positional, |i: int| CallEvaluation::Parameter(i as usize));
    let start = counted(positional);
    assert forall|i: int| start.contains(i) implies #[trigger] first.contains(
        CallEvaluation::Parameter(i as usize),
    ) by {
        let k = choose|k: int| 0 <= k < start.len() && start[k] == i;
        assert(first[k] == CallEvaluation::Parameter(i as usize));
    }
    lemma_evaluate_named(parameters, named, 0, start, true, notes, 0, first);
    let (turns, total) = evaluate_named(parameters, named, 0, 0, first);
    let rest = Seq::new(options, |i: int| CallEvaluation::Option((total + i) as usize));
    let all = evaluation(parameters, positional, named, options);
    assert(all == turns + rest);
    let order = order_named(parameters, named, 0, None, start, true, notes).0;
    assert forall|i: int| 0 <= i < arguments implies #[trigger] all.contains(
        CallEvaluation::Parameter(i as usize),
    ) by {
        assert(order.contains(i));
        let turn = CallEvaluation::Parameter(i as usize);
        assert(turns.contains(turn));
        let k = choose|k: int| 0 <= k < turns.len() && turns[k] == turn;
        assert(all[k] == turn);
    }
    assert forall|i: int| 0 <= i < fields implies #[trigger] all.contains(
        CallEvaluation::Option(i as usize),
    ) by {
        let turn = CallEvaluation::Option(i as usize);
        if i < total {
            assert(turns.contains(turn));
            let k = choose|k: int| 0 <= k < turns.len() && turns[k] == turn;
            assert(all[k] == turn);
        } else {
            assert(rest[i - total] == turn);
            assert(all[turns.len() + (i - total)] == turn);
        }
    }
}

proof fn lemma_operation_of(
    operations: Seq<OperationModel>,
    name: Seq<char>,
    from: int,
)
    ensures
        operation_of(operations, name, from) matches Some(at) ==> 0 <= at < operations.len(),
    decreases operations.len() - from,
{
    if 0 <= from < operations.len() && operations[from].name != name {
        lemma_operation_of(operations, name, from + 1);
    }
}

// ---------------------------------------------------------------------------
// Slots

proof fn lemma_row_slots(
    env: EnvironmentModel,
    statements: Seq<StatementModel>,
    from: int,
    row: RowModel,
    scope: ScopeModel,
    notes: NotesModel,
    done: Seq<InstructionModel>,
    returned: bool,
)
    ensures
        lower_row(env, statements, from, row, scope, notes, done, returned).slots >= scope.slots,
    decreases statements, statements.len() - from,
{
    if 0 <= from < statements.len() {
        if returned {
            lemma_row_slots(
                env,
                statements,
                from + 1,
                row,
                scope,
                notes.with(
                    "statement is unreachable because the flow already returned"@,
                    statements[from].span(),
                ),
                done,
                returned,
            );
        } else {
            let last = from + 1 == statements.len();
            let result = lower_statement(env, statements[from], last, row, scope, notes);
            lemma_statement_slots(env, statements[from], last, row, scope, notes);
            lemma_row_slots(
                env,
                statements,
                from + 1,
                row,
                result.scope,
                result.notes,
                match result.instruction {
                    Some(instruction) => done.push(instruction),
                    None => done,
                },
                result.returned,
            );
        }
    }
}

proof fn lemma_statement_slots(
    env: EnvironmentModel,
    statement: StatementModel,
    last: bool,
    row: RowModel,
    scope: ScopeModel,
    notes: NotesModel,
)
    ensures
        ({
            let after = lower_statement(env, statement, last, row, scope, notes).scope;
            &&& after.slots >= scope.slots
            &&& after.context == scope.context
            &&& after.flow == scope.flow
            &&& sound_scope(env, scope) ==> sound_scope(env, after)
        }),
    decreases statement, 1int,
{
    match statement {
        StatementModel::If { branches, else_body, span } => {
            lemma_conditional_slots(env, statement, last, row, scope, notes);
        },
        _ => {},
    }
}

proof fn lemma_conditional_slots(
    env: EnvironmentModel,
    statement: StatementModel,
    last: bool,
    row: RowModel,
    scope: ScopeModel,
    notes: NotesModel,
)
    ensures
        ({
            let after = lower_conditional(env, statement, last, row, scope, notes).scope;
            &&& after.slots >= scope.slots
            &&& after.context == scope.context
            &&& after.flow == scope.flow
            &&& after.locals == scope.locals
        }),
    decreases statement, 0int,
{
    match statement {
        StatementModel::If { branches, else_body, span } => {
            let inner = RowModel { block: row.block, tail: row.tail && last, top: false };
            lemma_if_slots(env, branches, 0, inner, scope, notes, Seq::empty(), true);
            let (lowered, all, slots, noted) = lower_if_branches(
                env,
                branches,
                0,
                inner,
                scope,
                notes,
                Seq::empty(),
                true,
            );
            match else_body {
                None => {},
                Some(body) => {
                    lemma_row_slots(
                        env,
                        body,
                        0,
                        inner,
                        scope.at_slots(slots),
                        noted,
                        Seq::empty(),
                        false,
                    );
                },
            }
        },
        _ => {},
    }
}

proof fn lemma_if_slots(
    env: EnvironmentModel,
    branches: Seq<IfBranchModel>,
    from: int,
    row: RowModel,
    scope: ScopeModel,
    notes: NotesModel,
    done: Seq<ConditionalBranchModel>,
    returned: bool,
)
    ensures
        lower_if_branches(env, branches, from, row, scope, notes, done, returned).2 >= scope.slots,
    decreases branches, branches.len() - from,
{
    if 0 <= from < branches.len() {
        let (condition, noted) = lower_expression(env, branches[from].condition, scope, notes);
        let checked = match condition {
            Some(condition) => noted.unless(
                may_be(condition, ValueType::Boolean),
                "if condition must be boolean"@,
                condition.span,
            ),
            None => noted,
        };
        lemma_row_slots(
            env,
            branches[from].body,
            0,
            row,
            scope,
            checked,
            Seq::empty(),
            false,
        );
        let body = lower_row(
            env,
            branches[from].body,
            0,
            row,
            scope,
            checked,
            Seq::empty(),
            false,
        );
        lemma_if_slots(
            env,
            branches,
            from + 1,
            row,
            scope.at_slots(body.slots),
            body.notes,
            match condition {
                Some(condition) => done.push(
                    ConditionalBranchModel { condition, instructions: body.instructions },
                ),
                None => done,
            },
            returned && body.returned,
        );
    }
}

// ---------------------------------------------------------------------------
// Complaints

/// Whether nothing was complained about.
spec fn clean(notes: NotesModel) -> bool {
    notes.errors.len() == 0
}

/// Whether no complaint was taken back.
spec fn grows(before: NotesModel, after: NotesModel) -> bool {
    before.errors.len() <= after.errors.len()
}

/// Whether there is a lowered value and it is valid, unless there are complaints.
spec fn well_lowered(
    env: EnvironmentModel,
    scope: ScopeModel,
    notes: NotesModel,
    lowered: Lowered,
    slots: int,
) -> bool {
    &&& grows(notes, lowered.1)
    &&& clean(lowered.1) ==> (lowered.0 matches Some(value) && valid_expression(
        limits_in(env, scope.context),
        value,
        slots,
    ))
}

spec fn well_listed(
    env: EnvironmentModel,
    scope: ScopeModel,
    notes: NotesModel,
    listed: (Seq<PlanExpressionModel>, NotesModel),
    slots: int,
) -> bool {
    &&& grows(notes, listed.1)
    &&& clean(listed.1) ==> valid_list(limits_in(env, scope.context), listed.0, slots)
}

spec fn well_stepped(
    env: EnvironmentModel,
    scope: ScopeModel,
    notes: NotesModel,
    stepped: StepResult,
    slots: int,
) -> bool {
    &&& grows(notes, stepped.notes)
    &&& clean(stepped.notes) ==> (stepped.instruction matches Some(instruction)
        ==> valid_instruction(limits_in(env, scope.context), instruction, slots))
}

proof fn lemma_order_grows(
    parameters: Seq<Seq<char>>,
    named: Seq<ObjectFieldModel>,
    from: int,
    callee: Option<Seq<char>>,
    order: Seq<int>,
    fine: bool,
    notes: NotesModel,
)
    ensures
        grows(notes, order_named(parameters, named, from, callee, order, fine, notes).2),
    decreases named.len() - from,
{
    if 0 <= from < named.len() {
        let name = named[from].name;
        match slot_of(parameters, name.value, 0) {
            None => match callee {
                Some(called) => {
                    let noted = notes.with(
                        "flow `"@ + called + "` has no parameter `"@ + name.value + "`"@,
                        name.span,
                    );
                    lemma_order_grows(parameters, named, from + 1, callee, order, false, noted);
                },
                None => {
                    lemma_order_grows(parameters, named, from + 1, callee, order, fine, notes);
                },
            },
            Some(parameter) => if order.contains(parameter) {
                let noted = notes.with(
                    "argument `"@ + name.value + "` was supplied more than once"@,
                    name.span,
                );
                lemma_order_grows(parameters, named, from + 1, callee, order, false, noted);
            } else {
                let longer = order.push(parameter);
                lemma_order_grows(parameters, named, from + 1, callee, longer, fine, notes);
            },
        }
    }
}

/// Whether numbers differ and lie below a bound.
spec fn distinct_below(order: Seq<int>, bound: int) -> bool {
    &&& order.no_duplicates()
    &&& forall|i: int| 0 <= i < order.len() ==> 0 <= #[trigger] order[i] < bound
}

/// Without complaints every named argument stands for a parameter of its own, or
/// for none.
proof fn lemma_order_distinct(
    parameters: Seq<Seq<char>>,
    named: Seq<ObjectFieldModel>,
    from: int,
    callee: Option<Seq<char>>,
    order: Seq<int>,
    fine: bool,
    notes: NotesModel,
    bound: int,
)
    requires
        0 <= from <= named.len(),
        parameters.len() <= bound,
        distinct_below(order, bound),
    ensures
        ({
            let (placed, still, noted) = order_named(
                parameters,
                named,
                from,
                callee,
                order,
                fine,
                notes,
            );
            clean(noted) ==> {
                &&& still == fine
                &&& distinct_below(placed, bound)
                &&& placed.len() == order.len() + named_parameters(parameters, named, from)
                &&& callee is Some ==> named_parameters(parameters, named, from) == named.len()
                    - from
            }
        }),
    decreases named.len() - from,
{
    lemma_order_grows(parameters, named, from, callee, order, fine, notes);
    if from < named.len() {
        let name = named[from].name;
        lemma_slot_of(parameters, name.value, 0);
        match slot_of(parameters, name.value, 0) {
            None => match callee {
                Some(called) => {
                    let noted = notes.with(
                        "flow `"@ + called + "` has no parameter `"@ + name.value + "`"@,
                        name.span,
                    );
                    lemma_order_grows(parameters, named, from + 1, callee, order, false, noted);
                },
                None => {
                    lemma_order_distinct(
                        parameters,
                        named,
                        from + 1,
                        callee,
                        order,
                        fine,
                        notes,
                        bound,
                    );
                },
            },
            Some(parameter) => if order.contains(parameter) {
                let noted = notes.with(
                    "argument `"@ + name.value + "` was supplied more than once"@,
                    name.span,
                );
                lemma_order_grows(parameters, named, from + 1, callee, order, false, noted);
            } else {
                let longer = order.push(parameter);
                assert(distinct_below(longer, bound)) by {
                    assert forall|i: int, j: int|
                        0 <= i < j < longer.len() implies longer[i] != longer[j] by {
                        assert(order.contains(longer[i]));
                    }
                }
                lemma_order_distinct(
                    parameters,
                    named,
                    from + 1,
                    callee,
                    longer,
                    fine,
                    notes,
                    bound,
                );
            },
        }
    }
}

/// Where as many parameters have an argument as there are, each has one.
proof fn lemma_all_placed(values: Seq<PlanExpressionModel>, order: Seq<int>, expected: nat)
    requires
        distinct_below(order, expected as int),
        order.len() == expected,
        values.len() == expected,
    ensures
        complete(values, order, expected) is Some,
{
    let filled = arranged(values, order, expected, order.len() as int);
    lemma_arranged_len(values, order, expected, order.len() as int);
    assert forall|slot: int| 0 <= slot < filled.len() implies (#[trigger] filled[slot]) is Some by {
        if !order.contains(slot) {
            let more = order.push(slot);
            assert forall|i: int, j: int| 0 <= i < j < more.len() implies more[i] != more[j] by {
                assert(order.contains(more[i]));
            }
            lemma_distinct_bound(more, expected);
        }
        let i = choose|i: int| 0 <= i < order.len() && order[i] == slot;
        lemma_filled(values, order, expected, order.len() as int, slot);
        assert(order[i] == slot);
    }
}

proof fn lemma_names_grow(
    branches: Seq<ParallelBranchModel>,
    from: int,
    seen: Seq<Seq<char>>,
    notes: NotesModel,
)
    ensures
        grows(notes, check_branch_names(branches, from, seen, notes)),
    decreases branches.len() - from,
{
    if 0 <= from < branches.len() {
        match branches[from].name {
            Some(name) => {
                lemma_names_grow(
                    branches,
                    from + 1,
                    seen.push(name.value),
                    notes.unless(
                        !seen.contains(name.value),
                        "parallel branch `"@ + name.value + "` is declared more than once"@,
                        name.span,
                    ),
                );
            },
            None => {
                lemma_names_grow(branches, from + 1, seen, notes);
            },
        }
    }
}

proof fn lemma_headers_grow(fields: Seq<PlanFieldModel>, from: int, notes: NotesModel)
    ensures
        grows(notes, check_headers(fields, from, notes)),
    decreases fields.len() - from,
{
    if 0 <= from < fields.len() {
        lemma_headers_grow(
            fields,
            from + 1,
            notes.unless(
                may_be(fields[from].expression, ValueType::String),
                "header values must be strings"@,
                fields[from].expression.span,
            ),
        );
    }
}

/// A type that does not fit is complained about.
proof fn lemma_type(
    value: PlanExpressionModel,
    expected: SchemaTypeModel,
    span: Span,
    notes: NotesModel,
)
    ensures
        grows(notes, check_type(value, expected, span, notes)),
        clean(check_type(value, expected, span, notes)) ==> value.value_type == ValueType::Inferred
            || fits(value.value_type, expected),
{
    match (expected, value.kind) {
        (SchemaTypeModel::StringMap, PlanExpressionKindModel::Object(fields)) => {
            lemma_headers_grow(fields, 0, notes);
        },
        _ => {},
    }
}

proof fn lemma_parameters_grow(parameters: Seq<SpannedModel>, count: int, notes: NotesModel)
    ensures
        grows(notes, check_parameters(parameters, count, notes)),
    decreases count,
{
    if count > 0 {
        lemma_parameters_grow(parameters, count - 1, notes);
    }
}

// ---------------------------------------------------------------------------
// Options

spec fn has_field(fields: Seq<PlanFieldModel>, name: Seq<char>) -> bool {
    exists|i: int| 0 <= i < fields.len() && (#[trigger] fields[i]).name == name
}

spec fn given(fields: Seq<ObjectFieldModel>, name: Seq<char>) -> bool {
    exists|i: int| 0 <= i < fields.len() && (#[trigger] fields[i]).name.value == name
}

/// Whether the names of fields differ, and all were seen.
spec fn named_once(fields: Seq<PlanFieldModel>, seen: Seq<Seq<char>>) -> bool {
    &&& forall|i: int, j: int|
        0 <= i < j < fields.len() ==> (#[trigger] fields[i]).name != (#[trigger] fields[j]).name
    &&& forall|i: int| 0 <= i < fields.len() ==> seen.contains((#[trigger] fields[i]).name)
}

proof fn lemma_named_once(
    fields: Seq<PlanFieldModel>,
    seen: Seq<Seq<char>>,
    name: Seq<char>,
    lowered: Option<PlanExpressionModel>,
)
    requires
        named_once(fields, seen),
        !seen.contains(name),
    ensures
        named_once(
            match lowered {
                Some(expression) => fields.push(PlanFieldModel { name, expression }),
                None => fields,
            },
            seen.push(name),
        ),
{
    let more = seen.push(name);
    assert forall|other: Seq<char>| seen.contains(other) implies more.contains(other) by {
        let i = choose|i: int| 0 <= i < seen.len() && seen[i] == other;
        assert(more[i] == other);
    }
    assert(more[seen.len() as int] == name);
}

spec fn named_by(names: Seq<SpannedModel>, name: Seq<char>) -> bool {
    exists|i: int| 0 <= i < names.len() && (#[trigger] names[i]).value == name
}

/// Options of a group that are given are found.
proof fn lemma_present(
    group: Seq<Seq<char>>,
    fields: Seq<ObjectFieldModel>,
    from: int,
    done: Seq<SpannedModel>,
    name: Seq<char>,
)
    requires
        0 <= from <= fields.len(),
        group.contains(name),
        named_by(done, name) || exists|i: int|
            from <= i < fields.len() && (#[trigger] fields[i]).name.value == name,
    ensures
        named_by(present_options(group, fields, from, done), name),
    decreases fields.len() - from,
{
    if from < fields.len() {
        let field = fields[from].name;
        if group.contains(field.value) {
            let more = done.push(field);
            if named_by(done, name) {
                let i = choose|i: int| 0 <= i < done.len() && (#[trigger] done[i]).value == name;
                assert(more[i].value == name);
            } else if field.value == name {
                assert(more[done.len() as int].value == name);
            }
            lemma_present(group, fields, from + 1, more, name);
        } else {
            lemma_present(group, fields, from + 1, done, name);
        }
    }
}

/// What is complained about where options exclude each other.
spec fn exclusion(
    group: Seq<Seq<char>>,
    named: Seq<ObjectFieldModel>,
    options: Seq<ObjectFieldModel>,
    notes: NotesModel,
) -> NotesModel {
    let present = present_options(
        group,
        options,
        0,
        present_options(group, named, 0, Seq::empty()),
    );
    if present.len() > 1 {
        notes.with(
            "options "@ + joined(in_backquotes(present), " and "@, 0)
                + " cannot be used together"@,
            present[1].span,
        )
    } else {
        notes
    }
}

proof fn lemma_exclusive_grows(
    groups: Seq<Seq<Seq<char>>>,
    from: int,
    named: Seq<ObjectFieldModel>,
    options: Seq<ObjectFieldModel>,
    notes: NotesModel,
)
    ensures
        grows(notes, check_exclusive(groups, from, named, options, notes)),
    decreases groups.len() - from,
{
    if 0 <= from < groups.len() {
        let noted = exclusion(groups[from], named, options, notes);
        lemma_exclusive_grows(groups, from + 1, named, options, noted);
    }
}

/// Two options of one group that are given together are complained about.
proof fn lemma_exclusive(
    groups: Seq<Seq<Seq<char>>>,
    from: int,
    named: Seq<ObjectFieldModel>,
    options: Seq<ObjectFieldModel>,
    notes: NotesModel,
    group: int,
    one: Seq<char>,
    other: Seq<char>,
)
    requires
        0 <= from <= group < groups.len(),
        groups[group].contains(one),
        groups[group].contains(other),
        one != other,
        given(named, one) || given(options, one),
        given(named, other) || given(options, other),
    ensures
        !clean(check_exclusive(groups, from, named, options, notes)),
    decreases groups.len() - from,
{
    let noted = exclusion(groups[from], named, options, notes);
    if from < group {
        lemma_exclusive(groups, from + 1, named, options, noted, group, one, other);
    } else {
        let first = present_options(groups[from], named, 0, Seq::empty());
        let present = present_options(groups[from], options, 0, first);
        if given(named, one) {
            lemma_present(groups[from], named, 0, Seq::empty(), one);
        }
        if given(named, other) {
            lemma_present(groups[from], named, 0, Seq::empty(), other);
        }
        lemma_present(groups[from], options, 0, first, one);
        lemma_present(groups[from], options, 0, first, other);
        let i = choose|i: int| 0 <= i < present.len() && (#[trigger] present[i]).value == one;
        let j = choose|j: int| 0 <= j < present.len() && (#[trigger] present[j]).value == other;
        assert(i != j);
        lemma_exclusive_grows(groups, from + 1, named, options, noted);
    }
}

// ---------------------------------------------------------------------------
// Expressions

proof fn lemma_expression(
    env: EnvironmentModel,
    expression: ExpressionModel,
    scope: ScopeModel,
    notes: NotesModel,
    slots: int,
)
    requires
        sound(env),
        sound_scope(env, scope),
        scope.slots <= slots,
    ensures
        well_lowered(env, scope, notes, lower_expression(env, expression, scope, notes), slots),
    decreases expression, 2int,
{
    let span = expression.span;
    match expression.kind {
        ExpressionKindModel::String(text) => {
            lemma_text(env, text, span, scope, notes, slots);
        },
        ExpressionKindModel::Name(path) => {
            lemma_known_name(env, path, span, scope, slots);
        },
        ExpressionKindModel::Array(values) => {
            lemma_list(env, values, 0, scope, notes, Seq::empty(), slots);
        },
        ExpressionKindModel::Object(fields) => {
            lemma_fields(
                env,
                fields,
                0,
                scope,
                None,
                Seq::empty(),
                notes,
                Seq::empty(),
                Seq::empty(),
                slots,
            );
        },
        ExpressionKindModel::Block(statements) => {
            lemma_block(env, expression, scope, notes, slots);
        },
        ExpressionKindModel::For { key, value, iterable, body } => {
            lemma_loop(env, expression, scope, notes, slots);
        },
        ExpressionKindModel::Member { value, member } => {
            lemma_expression(env, *value, scope, notes, slots);
        },
        ExpressionKindModel::Index { value, index } => {
            lemma_expression(env, *value, scope, notes, slots);
            let noted = lower_expression(env, *value, scope, notes).1;
            lemma_expression(env, *index, scope, noted, slots);
        },
        ExpressionKindModel::Not(value) => {
            lemma_expression(env, *value, scope, notes, slots);
        },
        ExpressionKindModel::Negate(value) => {
            lemma_expression(env, *value, scope, notes, slots);
        },
        ExpressionKindModel::Fail(value) => {
            lemma_expression(env, *value, scope, notes, slots);
        },
        ExpressionKindModel::Binary { left, operator, right } => {
            lemma_expression(env, *left, scope, notes, slots);
            let noted = lower_expression(env, *left, scope, notes).1;
            lemma_expression(env, *right, scope, noted, slots);
        },
        ExpressionKindModel::Call { callee, arguments, named_arguments, options } => {
            lemma_call_expression(env, expression, scope, notes, slots);
        },
        ExpressionKindModel::Within { timeout, body } => {
            let noted = duration_literal(
                *timeout,
                "`within` timeout"@,
                notes,
            ).1;
            lemma_expression(env, *body, scope, noted, slots);
        },
        ExpressionKindModel::Retry { attempts, delay, body } => {
            let noted = positive_literal(
                *attempts,
                "`retry` attempts"@,
                notes,
            ).1;
            let later = retry_delay(delay, noted).1;
            lemma_expression(env, *body, scope, later, slots);
        },
        ExpressionKindModel::Parallel { limit, branches } => {
            lemma_parallel(env, expression, scope, notes, slots);
        },
        ExpressionKindModel::Rate { target, period, duration, limit, body } => {
            let noted = rate_settings(
                *target,
                *period,
                *duration,
                limit,
                notes,
            ).1;
            lemma_expression(env, *body, scope, noted, slots);
        },
        ExpressionKindModel::Concurrency { limit, duration, body } => {
            let noted = positive_literal(
                *limit,
                "`concurrency` limit"@,
                notes,
            ).1;
            let later = duration_literal(
                *duration,
                "`concurrency` duration"@,
                noted,
            ).1;
            lemma_expression(env, *body, scope, later, slots);
        },
        _ => {},
    }
}

proof fn lemma_list(
    env: EnvironmentModel,
    values: Seq<ExpressionModel>,
    from: int,
    scope: ScopeModel,
    notes: NotesModel,
    done: Seq<PlanExpressionModel>,
    slots: int,
)
    requires
        sound(env),
        sound_scope(env, scope),
        scope.slots <= slots,
        clean(notes) ==> valid_list(limits_in(env, scope.context), done, slots),
    ensures
        well_listed(env, scope, notes, lower_list(env, values, from, scope, notes, done), slots),
        0 <= from <= values.len() && clean(lower_list(env, values, from, scope, notes, done).1)
            ==> lower_list(env, values, from, scope, notes, done).0.len() == done.len()
            + values.len() - from,
    decreases values, values.len() - from,
{
    if 0 <= from < values.len() {
        lemma_expression(env, values[from], scope, notes, slots);
        let (lowered, noted) = lower_expression(env, values[from], scope, notes);
        lemma_list(
            env,
            values,
            from + 1,
            scope,
            noted,
            match lowered {
                Some(value) => done.push(value),
                None => done,
            },
            slots,
        );
    }
}

proof fn lemma_fields(
    env: EnvironmentModel,
    fields: Seq<ObjectFieldModel>,
    from: int,
    scope: ScopeModel,
    schema: Option<Seq<FieldSchemaModel>>,
    skip: Seq<Seq<char>>,
    notes: NotesModel,
    seen: Seq<Seq<char>>,
    done: Seq<PlanFieldModel>,
    slots: int,
)
    requires
        sound(env),
        sound_scope(env, scope),
        scope.slots <= slots,
        clean(notes) ==> valid_fields(limits_in(env, scope.context), done, slots),
        named_once(done, seen),
        clean(notes) ==> (schema matches Some(schema) ==> fitting_fields(schema, done)),
    ensures
        ({
            let (result, known, noted) = lower_fields(
                env,
                fields,
                from,
                scope,
                schema,
                skip,
                notes,
                seen,
                done,
            );
            &&& grows(notes, noted)
            &&& clean(noted) ==> valid_fields(limits_in(env, scope.context), result, slots)
            &&& clean(noted) ==> (schema matches Some(schema) ==> fitting_fields(schema, result))
            &&& result.len() <= done.len() + spare(skip, fields, from)
            &&& named_once(result, known)
            &&& forall|i: int|
                0 <= i < result.len() ==> has_field(done, (#[trigger] result[i]).name) || given(
                    fields,
                    result[i].name,
                )
        }),
    decreases fields, fields.len() - from,
{
    if 0 <= from < fields.len() {
        let name = fields[from].name;
        if slot_of(skip, name.value, 0) is Some {
            lemma_fields(
                env,
                fields,
                from + 1,
                scope,
                schema,
                skip,
                notes,
                seen,
                done,
                slots,
            );
        } else if seen.contains(name.value) {
            lemma_fields(
                env,
                fields,
                from + 1,
                scope,
                schema,
                skip,
                notes.with("field `"@ + name.value + "` is declared more than once"@, name.span),
                seen,
                done,
                slots,
            );
        } else {
            lemma_field(env, fields[from], scope, schema, notes, slots);
            let (lowered, noted) = lower_field(env, fields[from], scope, schema, notes);
            lemma_named_once(done, seen, name.value, lowered);
            lemma_fields(
                env,
                fields,
                from + 1,
                scope,
                schema,
                skip,
                noted,
                seen.push(name.value),
                match lowered {
                    Some(expression) => done.push(PlanFieldModel { name: name.value, expression }),
                    None => done,
                },
                slots,
            );
        }
    }
}

proof fn lemma_field(
    env: EnvironmentModel,
    field: ObjectFieldModel,
    scope: ScopeModel,
    schema: Option<Seq<FieldSchemaModel>>,
    notes: NotesModel,
    slots: int,
)
    requires
        sound(env),
        sound_scope(env, scope),
        scope.slots <= slots,
    ensures
        well_lowered(env, scope, notes, lower_field(env, field, scope, schema, notes), slots),
        schema matches Some(schema) ==> ({
            let (lowered, noted) = lower_field(env, field, scope, Some(schema), notes);
            clean(noted) ==> (lowered matches Some(expression) ==> fitting_field(
                schema,
                PlanFieldModel { name: field.name.value, expression },
            ))
        }),
    decreases field, 1int,
{
    let name = field.name;
    match schema {
        None => {
            lemma_expression(env, field.expression, scope, notes, slots);
        },
        Some(schema) => match field_of(schema, name.value, 0) {
            None => {
                lemma_expression(
                    env,
                    field.expression,
                    scope,
                    notes.with(
                        suggested(
                            "unknown option `"@ + name.value + "`"@,
                            name.value,
                            schema_names(schema),
                        ),
                        name.span,
                    ),
                    slots,
                );
            },
            Some(at) => {
                let value_type = schema[at].value_type;
                lemma_nested(env, field, scope, value_type, notes, slots);
                match lower_nested(env, field, scope, value_type, notes) {
                    (Some(value), noted) => {
                        lemma_type(value, value_type, field.expression.span, noted);
                    },
                    _ => {},
                }
            },
        },
    }
}

proof fn lemma_nested(
    env: EnvironmentModel,
    field: ObjectFieldModel,
    scope: ScopeModel,
    value_type: SchemaTypeModel,
    notes: NotesModel,
    slots: int,
)
    requires
        sound(env),
        sound_scope(env, scope),
        scope.slots <= slots,
    ensures
        well_lowered(env, scope, notes, lower_nested(env, field, scope, value_type, notes), slots),
    decreases field, 0int,
{
    match (value_type, field.expression.kind) {
        (SchemaTypeModel::Object(nested), ExpressionKindModel::Object(source)) => {
            lemma_fields(
                env,
                source,
                0,
                scope,
                Some(nested),
                Seq::empty(),
                notes,
                Seq::empty(),
                Seq::empty(),
                slots,
            );
        },
        _ => {
            lemma_expression(env, field.expression, scope, notes, slots);
        },
    }
}

proof fn lemma_branches(
    env: EnvironmentModel,
    branches: Seq<ParallelBranchModel>,
    from: int,
    scope: ScopeModel,
    notes: NotesModel,
    done: Seq<PlanBranchModel>,
    slots: int,
)
    requires
        sound(env),
        sound_scope(env, scope),
        scope.slots <= slots,
        0 <= from <= branches.len(),
        clean(notes) ==> valid_branches(limits_in(env, scope.context), done, slots),
    ensures
        ({
            let (result, noted) = lower_branches(env, branches, from, scope, notes, done);
            &&& grows(notes, noted)
            &&& clean(noted) ==> valid_branches(limits_in(env, scope.context), result, slots)
            &&& result.len() <= done.len() + branches.len() - from
        }),
    decreases branches, branches.len() - from,
{
    if 0 <= from < branches.len() {
        lemma_expression(env, branches[from].expression, scope, notes, slots);
        let (lowered, noted) = lower_expression(env, branches[from].expression, scope, notes);
        lemma_branches(
            env,
            branches,
            from + 1,
            scope,
            noted,
            match lowered {
                Some(expression) => done.push(
                    PlanBranchModel {
                        name: match branches[from].name {
                            Some(name) => Some(name.value),
                            None => None,
                        },
                        expression,
                    },
                ),
                None => done,
            },
            slots,
        );
    }
}

proof fn lemma_parallel(
    env: EnvironmentModel,
    expression: ExpressionModel,
    scope: ScopeModel,
    notes: NotesModel,
    slots: int,
)
    requires
        sound(env),
        sound_scope(env, scope),
        scope.slots <= slots,
        expression.kind is Parallel,
    ensures
        well_lowered(env, scope, notes, lower_parallel(env, expression, scope, notes), slots),
    decreases expression, 1int,
{
    match expression.kind {
        ExpressionKindModel::Parallel { limit, branches } => {
            let (chosen, noted) = optional_limit(
                limit,
                "`parallel` limit"@,
                branches.len() as usize,
                notes,
            );
            let named = noted.unless(
                all_named(branches) || none_named(branches),
                "parallel branches must be all named or all unnamed"@,
                expression.span,
            );
            let checked = check_branch_names(branches, 0, Seq::empty(), named);
            lemma_names_grow(branches, 0, Seq::empty(), named);
            lemma_branches(env, branches, 0, scope, checked, Seq::empty(), slots);
        },
        _ => {},
    }
}

proof fn lemma_call_expression(
    env: EnvironmentModel,
    expression: ExpressionModel,
    scope: ScopeModel,
    notes: NotesModel,
    slots: int,
)
    requires
        sound(env),
        sound_scope(env, scope),
        scope.slots <= slots,
        expression.kind is Call,
    ensures
        well_lowered(env, scope, notes, lower_call(env, expression, scope, notes), slots),
    decreases expression, 1int,
{
    match expression.kind {
        ExpressionKindModel::Call { callee, arguments, named_arguments, options } => {
            if callee.value == "env"@ || callee.value == "senv"@ {
                if arguments.len() == 1 {
                    match arguments[0].kind {
                        ExpressionKindModel::String(name) => {
                            let variable = plan(
                                PlanExpressionKindModel::Environment(name),
                                ValueType::String,
                                expression.span,
                            );
                            assert(valid_expression(
                                limits_in(env, scope.context),
                                variable,
                                slots,
                            ));
                        },
                        _ => {},
                    }
                }
            } else if callee.value == "secret"@ {
                if arguments.len() == 1 {
                    lemma_expression(env, arguments[0], scope, notes, slots);
                }
            } else if callee.value != "echo"@ {
                match split_at(callee.value, '.') {
                    Some((capability, operation)) => {
                        lemma_operation(
                            env,
                            expression,
                            capability,
                            operation,
                            scope,
                            notes,
                            slots,
                        );
                    },
                    None => {
                        lemma_flow_call(env, expression, scope, notes, slots);
                    },
                }
            }
        },
        _ => {},
    }
}

proof fn lemma_arguments(
    env: EnvironmentModel,
    arguments: Seq<ExpressionModel>,
    from: int,
    scope: ScopeModel,
    types: Seq<SchemaTypeModel>,
    notes: NotesModel,
    done: Seq<PlanExpressionModel>,
    slots: int,
)
    requires
        sound(env),
        sound_scope(env, scope),
        scope.slots <= slots,
        clean(notes) ==> valid_list(limits_in(env, scope.context), done, slots),
    ensures
        well_listed(
            env,
            scope,
            notes,
            lower_arguments(env, arguments, from, scope, types, notes, done),
            slots,
        ),
        0 <= from <= arguments.len() && clean(
            lower_arguments(env, arguments, from, scope, types, notes, done).1,
        ) ==> lower_arguments(env, arguments, from, scope, types, notes, done).0.len()
            == done.len() + arguments.len() - from,
    decreases arguments, arguments.len() - from,
{
    if 0 <= from < arguments.len() {
        lemma_expression(env, arguments[from], scope, notes, slots);
        match lower_expression(env, arguments[from], scope, notes) {
            (None, noted) => {
                lemma_arguments(env, arguments, from + 1, scope, types, noted, done, slots);
            },
            (Some(value), noted) => {
                if from < types.len() {
                    lemma_type(value, types[from], arguments[from].span, noted);
                }
                lemma_arguments(
                    env,
                    arguments,
                    from + 1,
                    scope,
                    types,
                    if from < types.len() {
                        check_type(
                            value,
                            types[from],
                            arguments[from].span,
                            noted,
                        )
                    } else {
                        noted
                    },
                    done.push(value),
                    slots,
                );
            },
        }
    }
}

proof fn lemma_named(
    env: EnvironmentModel,
    named: Seq<ObjectFieldModel>,
    from: int,
    scope: ScopeModel,
    parameters: Seq<Seq<char>>,
    types: Seq<SchemaTypeModel>,
    notes: NotesModel,
    done: Seq<PlanExpressionModel>,
    slots: int,
)
    requires
        sound(env),
        sound_scope(env, scope),
        scope.slots <= slots,
        clean(notes) ==> valid_list(limits_in(env, scope.context), done, slots),
    ensures
        well_listed(
            env,
            scope,
            notes,
            lower_named(env, named, from, scope, parameters, types, notes, done),
            slots,
        ),
        clean(lower_named(env, named, from, scope, parameters, types, notes, done).1)
            ==> lower_named(env, named, from, scope, parameters, types, notes, done).0.len()
            == done.len() + named_parameters(parameters, named, from),
    decreases named, named.len() - from,
{
    if 0 <= from < named.len() {
        match slot_of(parameters, named[from].name.value, 0) {
            None => {
                lemma_named(
                    env,
                    named,
                    from + 1,
                    scope,
                    parameters,
                    types,
                    notes,
                    done,
                    slots,
                );
            },
            Some(parameter) => {
                lemma_expression(env, named[from].expression, scope, notes, slots);
                match lower_expression(env, named[from].expression, scope, notes) {
                    (None, noted) => {
                        lemma_named(
                            env,
                            named,
                            from + 1,
                            scope,
                            parameters,
                            types,
                            noted,
                            done,
                            slots,
                        );
                    },
                    (Some(value), noted) => {
                        if parameter < types.len() {
                            let span = named[from].expression.span;
                            lemma_type(value, types[parameter], span, noted);
                        }
                        lemma_named(
                            env,
                            named,
                            from + 1,
                            scope,
                            parameters,
                            types,
                            if parameter < types.len() {
                                check_type(
                                    value,
                                    types[parameter],
                                    named[from].expression.span,
                                    noted,
                                )
                            } else {
                                noted
                            },
                            done.push(value),
                            slots,
                        );
                    },
                }
            },
        }
    }
}

proof fn lemma_values(
    env: EnvironmentModel,
    fields: Seq<ObjectFieldModel>,
    from: int,
    scope: ScopeModel,
    notes: NotesModel,
    done: Seq<PlanExpressionModel>,
    slots: int,
)
    requires
        sound(env),
        sound_scope(env, scope),
        scope.slots <= slots,
        clean(notes) ==> valid_list(limits_in(env, scope.context), done, slots),
    ensures
        well_listed(env, scope, notes, lower_values(env, fields, from, scope, notes, done), slots),
        0 <= from <= fields.len() && clean(lower_values(env, fields, from, scope, notes, done).1)
            ==> lower_values(env, fields, from, scope, notes, done).0.len() == done.len()
            + fields.len() - from,
    decreases fields, fields.len() - from,
{
    if 0 <= from < fields.len() {
        lemma_expression(env, fields[from].expression, scope, notes, slots);
        let (lowered, noted) = lower_expression(env, fields[from].expression, scope, notes);
        lemma_values(
            env,
            fields,
            from + 1,
            scope,
            noted,
            match lowered {
                Some(value) => done.push(value),
                None => done,
            },
            slots,
        );
    }
}

proof fn lemma_operation(
    env: EnvironmentModel,
    expression: ExpressionModel,
    capability: Seq<char>,
    operation: Seq<char>,
    scope: ScopeModel,
    notes: NotesModel,
    slots: int,
)
    requires
        sound(env),
        sound_scope(env, scope),
        scope.slots <= slots,
        expression.kind is Call,
    ensures
        well_lowered(
            env,
            scope,
            notes,
            lower_operation(env, expression, capability, operation, scope, notes),
            slots,
        ),
    decreases expression, 0int,
{
    match expression.kind {
        ExpressionKindModel::Call { callee, arguments, named_arguments, options } => {
            lemma_id_below(env.capability_names, capability, env.capabilities.len() as int);
            match id_of(env.capability_names, capability) {
                None => {},
                Some(id) => {
                    let operations = env.capabilities[id].operations;
                    lemma_operation_of(operations, operation, 0);
                    match operation_of(operations, operation, 0) {
                        None => {},
                        Some(at) => {
                            let called = operations[at];
                            let (order, fine, ordered) = order_named(
                                called.parameter_names,
                                named_arguments,
                                0,
                                None,
                                counted(arguments.len()),
                                true,
                                notes,
                            );
                            lemma_order_grows(
                                called.parameter_names,
                                named_arguments,
                                0,
                                None,
                                counted(arguments.len()),
                                true,
                                notes,
                            );
                            let provided = arguments.len() + named_parameters(
                                called.parameter_names,
                                named_arguments,
                                0,
                            );
                            let tallied = ordered.unless(
                                provided == called.parameters.len(),
                                "operation `"@ + callee.value + "` expects "@
                                    + decimal(called.parameters.len())
                                    + " argument(s), but "@ + decimal(
                                    provided as nat,
                                ) + " were provided"@,
                                expression.span,
                            );
                            lemma_arguments(
                                env,
                                arguments,
                                0,
                                scope,
                                called.parameters,
                                tallied,
                                Seq::empty(),
                                slots,
                            );
                            let (first, noted) = lower_arguments(
                                env,
                                arguments,
                                0,
                                scope,
                                called.parameters,
                                tallied,
                                Seq::empty(),
                            );
                            lemma_named(
                                env,
                                named_arguments,
                                0,
                                scope,
                                called.parameter_names,
                                called.parameters,
                                noted,
                                first,
                                slots,
                            );
                            let (values, named) = lower_named(
                                env,
                                named_arguments,
                                0,
                                scope,
                                called.parameter_names,
                                called.parameters,
                                noted,
                                first,
                            );
                            let checked = check_exclusive(
                                called.mutually_exclusive,
                                0,
                                named_arguments,
                                options,
                                named,
                            );
                            lemma_exclusive_grows(
                                called.mutually_exclusive,
                                0,
                                named_arguments,
                                options,
                                named,
                            );
                            lemma_fields(
                                env,
                                named_arguments,
                                0,
                                scope,
                                Some(called.options),
                                called.parameter_names,
                                checked,
                                Seq::empty(),
                                Seq::empty(),
                                slots,
                            );
                            let (given, seen, some) = lower_fields(
                                env,
                                named_arguments,
                                0,
                                scope,
                                Some(called.options),
                                called.parameter_names,
                                checked,
                                Seq::empty(),
                                Seq::empty(),
                            );
                            lemma_fields(
                                env,
                                options,
                                0,
                                scope,
                                Some(called.options),
                                Seq::empty(),
                                some,
                                seen,
                                given,
                                slots,
                            );
                            lemma_spare(options, 0);
                            let (fields, all_seen, last) = lower_fields(
                                env,
                                options,
                                0,
                                scope,
                                Some(called.options),
                                Seq::empty(),
                                some,
                                seen,
                                given,
                            );
                            let limits = limits_in(env, scope.context);
                            assert forall|i: int, j: int|
                                clean(last) && 0 <= i < j < fields.len() implies !excluded(
                                called.mutually_exclusive,
                                (#[trigger] fields[i]).name,
                                (#[trigger] fields[j]).name,
                            ) by {
                                let groups = called.mutually_exclusive;
                                let one = fields[i].name;
                                let other = fields[j].name;
                                if excluded(groups, one, other) {
                                    let group = choose|g: int|
                                        0 <= g < groups.len() && (#[trigger] groups[g]).contains(
                                            one,
                                        ) && groups[g].contains(other);
                                    lemma_exclusive(
                                        groups,
                                        0,
                                        named_arguments,
                                        options,
                                        named,
                                        group,
                                        one,
                                        other,
                                    );
                                }
                            }
                            if clean(last) && named_arguments.len() + options.len()
                                <= usize::MAX {
                                let start = counted(arguments.len());
                                let expected = called.parameters.len();
                                lemma_parameters_counted(
                                    called.parameter_names,
                                    named_arguments,
                                    0,
                                );
                                assert(distinct_below(start, expected as int));
                                lemma_order_distinct(
                                    called.parameter_names,
                                    named_arguments,
                                    0,
                                    None,
                                    start,
                                    true,
                                    notes,
                                    expected as int,
                                );
                                lemma_all_placed(values, order, expected);
                                reveal(handed);
                                lemma_complete(
                                    limits,
                                    values,
                                    order,
                                    called.parameters.len(),
                                    slots,
                                );
                                if complete(values, order, called.parameters.len()) is Some {
                                    lemma_evaluation(
                                        called.parameter_names,
                                        arguments.len(),
                                        named_arguments,
                                        options.len(),
                                        notes,
                                        called.parameters.len(),
                                        fields.len(),
                                    );
                                }
                            }
                        },
                    }
                },
            }
        },
        _ => {},
    }
}

proof fn lemma_parameters_counted(
    parameters: Seq<Seq<char>>,
    named: Seq<ObjectFieldModel>,
    from: int,
)
    ensures
        named_parameters(parameters, named, from) >= 0,
    decreases named.len() - from,
{
    if 0 <= from < named.len() {
        lemma_parameters_counted(parameters, named, from + 1);
    }
}

proof fn lemma_spare(fields: Seq<ObjectFieldModel>, from: int)
    requires
        0 <= from <= fields.len(),
    ensures
        spare(Seq::empty(), fields, from) == fields.len() - from,
    decreases fields.len() - from,
{
    if from < fields.len() {
        lemma_spare(fields, from + 1);
    }
}

proof fn lemma_flow_call(
    env: EnvironmentModel,
    expression: ExpressionModel,
    scope: ScopeModel,
    notes: NotesModel,
    slots: int,
)
    requires
        sound(env),
        sound_scope(env, scope),
        scope.slots <= slots,
        expression.kind is Call,
    ensures
        well_lowered(env, scope, notes, lower_flow_call(env, expression, scope, notes), slots),
    decreases expression, 0int,
{
    match (expression.kind, scope.flow) {
        (
            ExpressionKindModel::Call { callee, arguments, named_arguments, options },
            Some(current),
        ) => {
            let home = env.program.flows[current];
            lemma_resolved(
                env.flows,
                "flow"@,
                callee.value,
                home.namespace,
                home.namespace_uses,
                callee.span,
                notes,
                env.program.flows.len() as int,
            );
            match resolved(
                env.flows,
                "flow"@,
                callee.value,
                home.namespace,
                home.namespace_uses,
                callee.span,
                notes,
            ) {
                (None, noted) => {},
                (Some(target), noted) => {
                    let parameters = name_values(env.program.flows[target].parameters);
                    let blocked = noted.unless(
                        options.len() == 0,
                        "option blocks are only supported by capability operations"@,
                        expression.span,
                    );
                    let (order, fine, ordered) = order_named(
                        parameters,
                        named_arguments,
                        0,
                        Some(callee.value),
                        counted(arguments.len()),
                        true,
                        blocked,
                    );
                    lemma_order_grows(
                        parameters,
                        named_arguments,
                        0,
                        Some(callee.value),
                        counted(arguments.len()),
                        true,
                        blocked,
                    );
                    let provided = arguments.len() + named_arguments.len();
                    let tallied = ordered.unless(
                        provided == parameters.len(),
                        "flow `"@ + callee.value + "` expects "@ + decimal(
                            parameters.len(),
                        ) + " argument(s), but "@ + decimal(provided as nat)
                            + " were provided"@,
                        expression.span,
                    );
                    lemma_list(env, arguments, 0, scope, tallied, Seq::empty(), slots);
                    let (first, some) = lower_list(
                        env,
                        arguments,
                        0,
                        scope,
                        tallied,
                        Seq::empty(),
                    );
                    lemma_values(env, named_arguments, 0, scope, some, first, slots);
                    let (values, all) = lower_values(
                        env,
                        named_arguments,
                        0,
                        scope,
                        some,
                        first,
                    );
                    let limits = limits_in(env, scope.context);
                    if clean(all) {
                        let start = counted(arguments.len());
                        let expected = parameters.len();
                        assert(distinct_below(start, expected as int));
                        lemma_order_distinct(
                            parameters,
                            named_arguments,
                            0,
                            Some(callee.value),
                            start,
                            true,
                            blocked,
                            expected as int,
                        );
                        lemma_all_placed(values, order, expected);
                        reveal(handed);
                        lemma_complete(limits, values, order, parameters.len(), slots);
                    }
                    assert(limits.flows[target] == parameters.len());
                },
            }
        },
        _ => {},
    }
}

// ---------------------------------------------------------------------------
// Statements

proof fn lemma_statement(
    env: EnvironmentModel,
    statement: StatementModel,
    last: bool,
    row: RowModel,
    scope: ScopeModel,
    notes: NotesModel,
    slots: int,
)
    requires
        sound(env),
        sound_scope(env, scope),
        lower_statement(env, statement, last, row, scope, notes).scope.slots <= slots,
    ensures
        well_stepped(
            env,
            scope,
            notes,
            lower_statement(env, statement, last, row, scope, notes),
            slots,
        ),
    decreases statement, 1int,
{
    lemma_statement_slots(env, statement, last, row, scope, notes);
    match statement {
        StatementModel::UseContext { name, span } => {},
        StatementModel::Bind { name, expression, span } => {
            lemma_expression(env, expression, scope, notes, slots);
        },
        StatementModel::Expression(expression) => {
            if is_echo(expression) {
                lemma_echo(env, expression, scope, notes, slots);
            } else {
                lemma_expression(env, expression, scope, notes, slots);
            }
        },
        StatementModel::Return { expression, span } => {
            lemma_expression(env, expression, scope, notes, slots);
        },
        StatementModel::Assert { expression, message, span } => {
            lemma_expression(env, expression, scope, notes, slots);
            match (message, lower_expression(env, expression, scope, notes)) {
                (Some(message), (Some(condition), noted)) => {
                    let checked = noted.unless(
                        may_be(condition, ValueType::Boolean),
                        "assertion expression must be boolean"@,
                        condition.span,
                    );
                    lemma_expression(env, message, scope, checked, slots);
                },
                _ => {},
            }
        },
        StatementModel::If { branches, else_body, span } => {
            lemma_conditional(env, statement, last, row, scope, notes, slots);
        },
    }
}

proof fn lemma_echo(
    env: EnvironmentModel,
    expression: ExpressionModel,
    scope: ScopeModel,
    notes: NotesModel,
    slots: int,
)
    requires
        sound(env),
        sound_scope(env, scope),
        scope.slots <= slots,
    ensures
        ({
            let (lowered, noted) = lower_echo(env, expression, scope, notes);
            &&& grows(notes, noted)
            &&& clean(noted) ==> (lowered matches Some(instruction) ==> valid_instruction(
                limits_in(env, scope.context),
                instruction,
                slots,
            ))
        }),
    decreases expression, 3int,
{
    match expression.kind {
        ExpressionKindModel::Call { callee, arguments, named_arguments, options } => {
            if arguments.len() == 1 {
                lemma_expression(env, arguments[0], scope, notes, slots);
            }
        },
        _ => {},
    }
}

proof fn lemma_conditional(
    env: EnvironmentModel,
    statement: StatementModel,
    last: bool,
    row: RowModel,
    scope: ScopeModel,
    notes: NotesModel,
    slots: int,
)
    requires
        sound(env),
        sound_scope(env, scope),
        lower_conditional(env, statement, last, row, scope, notes).scope.slots <= slots,
    ensures
        well_stepped(
            env,
            scope,
            notes,
            lower_conditional(env, statement, last, row, scope, notes),
            slots,
        ),
    decreases statement, 0int,
{
    match statement {
        StatementModel::If { branches, else_body, span } => {
            let inner = RowModel { block: row.block, tail: row.tail && last, top: false };
            lemma_if_slots(env, branches, 0, inner, scope, notes, Seq::empty(), true);
            let (lowered, all, reached, noted) = lower_if_branches(
                env,
                branches,
                0,
                inner,
                scope,
                notes,
                Seq::empty(),
                true,
            );
            let later = scope.at_slots(reached);
            assert(sound_scope(env, later));
            match else_body {
                None => {
                    lemma_if_branches(
                        env,
                        branches,
                        0,
                        inner,
                        scope,
                        notes,
                        Seq::empty(),
                        true,
                        slots,
                    );
                },
                Some(body) => {
                    lemma_row_slots(env, body, 0, inner, later, noted, Seq::empty(), false);
                    lemma_if_branches(
                        env,
                        branches,
                        0,
                        inner,
                        scope,
                        notes,
                        Seq::empty(),
                        true,
                        slots,
                    );
                    lemma_row(env, body, 0, inner, later, noted, Seq::empty(), false, slots);
                },
            }
        },
        _ => {},
    }
}

proof fn lemma_if_branches(
    env: EnvironmentModel,
    branches: Seq<IfBranchModel>,
    from: int,
    row: RowModel,
    scope: ScopeModel,
    notes: NotesModel,
    done: Seq<ConditionalBranchModel>,
    returned: bool,
    slots: int,
)
    requires
        sound(env),
        sound_scope(env, scope),
        lower_if_branches(env, branches, from, row, scope, notes, done, returned).2 <= slots,
        clean(notes) ==> valid_if_branches(limits_in(env, scope.context), done, slots),
    ensures
        ({
            let (result, ends, last, noted) = lower_if_branches(
                env,
                branches,
                from,
                row,
                scope,
                notes,
                done,
                returned,
            );
            &&& grows(notes, noted)
            &&& clean(noted) ==> valid_if_branches(limits_in(env, scope.context), result, slots)
        }),
    decreases branches, branches.len() - from,
{
    if 0 <= from < branches.len() {
        let (condition, noted) = lower_expression(env, branches[from].condition, scope, notes);
        let checked = match condition {
            Some(condition) => noted.unless(
                may_be(condition, ValueType::Boolean),
                "if condition must be boolean"@,
                condition.span,
            ),
            None => noted,
        };
        let inside = branches[from].body;
        let body = lower_row(env, inside, 0, row, scope, checked, Seq::empty(), false);
        lemma_row_slots(env, inside, 0, row, scope, checked, Seq::empty(), false);
        let later = scope.at_slots(body.slots);
        assert(sound_scope(env, later));
        let longer = match condition {
            Some(condition) => done.push(
                ConditionalBranchModel { condition, instructions: body.instructions },
            ),
            None => done,
        };
        let both = returned && body.returned;
        lemma_if_slots(env, branches, from + 1, row, later, body.notes, longer, both);
        lemma_expression(env, branches[from].condition, scope, notes, slots);
        lemma_row(env, inside, 0, row, scope, checked, Seq::empty(), false, slots);
        let limits = limits_in(env, scope.context);
        if clean(body.notes) {
            assert(valid_if_branches(limits, longer, slots)) by {
                assert forall|i: int| 0 <= i < longer.len() implies valid_if_branch(
                    limits,
                    #[trigger] longer[i],
                    slots,
                ) by {
                    if i < done.len() {
                        assert(longer[i] == done[i]);
                    }
                }
            }
        }
        lemma_if_branches(
            env,
            branches,
            from + 1,
            row,
            later,
            body.notes,
            longer,
            both,
            slots,
        );
    }
}

proof fn lemma_row(
    env: EnvironmentModel,
    statements: Seq<StatementModel>,
    from: int,
    row: RowModel,
    scope: ScopeModel,
    notes: NotesModel,
    done: Seq<InstructionModel>,
    returned: bool,
    slots: int,
)
    requires
        sound(env),
        sound_scope(env, scope),
        lower_row(env, statements, from, row, scope, notes, done, returned).slots <= slots,
        clean(notes) ==> valid_instructions(limits_in(env, scope.context), done, slots),
    ensures
        ({
            let result = lower_row(env, statements, from, row, scope, notes, done, returned);
            &&& grows(notes, result.notes)
            &&& clean(result.notes) ==> valid_instructions(
                limits_in(env, scope.context),
                result.instructions,
                slots,
            )
        }),
    decreases statements, statements.len() - from,
{
    if 0 <= from < statements.len() {
        if returned {
            lemma_row(
                env,
                statements,
                from + 1,
                row,
                scope,
                notes.with(
                    "statement is unreachable because the flow already returned"@,
                    statements[from].span(),
                ),
                done,
                returned,
                slots,
            );
        } else {
            let last = from + 1 == statements.len();
            let result = lower_statement(env, statements[from], last, row, scope, notes);
            lemma_statement_slots(env, statements[from], last, row, scope, notes);
            let longer = match result.instruction {
                Some(instruction) => done.push(instruction),
                None => done,
            };
            lemma_row_slots(
                env,
                statements,
                from + 1,
                row,
                result.scope,
                result.notes,
                longer,
                result.returned,
            );
            lemma_statement(env, statements[from], last, row, scope, notes, slots);
            let limits = limits_in(env, scope.context);
            if clean(result.notes) {
                assert(valid_instructions(limits, longer, slots)) by {
                    assert forall|i: int| 0 <= i < longer.len() implies valid_instruction(
                        limits,
                        #[trigger] longer[i],
                        slots,
                    ) by {
                        if i < done.len() {
                            assert(longer[i] == done[i]);
                        }
                    }
                }
            }
            lemma_row(
                env,
                statements,
                from + 1,
                row,
                result.scope,
                result.notes,
                longer,
                result.returned,
                slots,
            );
        }
    }
}

proof fn lemma_block(
    env: EnvironmentModel,
    expression: ExpressionModel,
    scope: ScopeModel,
    notes: NotesModel,
    slots: int,
)
    requires
        sound(env),
        sound_scope(env, scope),
        expression.kind is Block,
    ensures
        well_lowered(env, scope, notes, lower_block(env, expression, scope, notes), slots),
    decreases expression, 1int,
{
    match expression.kind {
        ExpressionKindModel::Block(statements) => {
            let row = RowModel { block: true, tail: true, top: false };
            let body = lower_row(
                env,
                statements,
                0,
                row,
                scope,
                notes,
                Seq::empty(),
                false,
            );
            lemma_row(
                env,
                statements,
                0,
                row,
                scope,
                notes,
                Seq::empty(),
                false,
                body.slots,
            );
        },
        _ => {},
    }
}

proof fn lemma_loop(
    env: EnvironmentModel,
    expression: ExpressionModel,
    scope: ScopeModel,
    notes: NotesModel,
    slots: int,
)
    requires
        sound(env),
        sound_scope(env, scope),
        scope.slots <= slots,
        expression.kind is For,
    ensures
        well_lowered(env, scope, notes, lower_loop(env, expression, scope, notes), slots),
    decreases expression, 1int,
{
    match expression.kind {
        ExpressionKindModel::For { key, value, iterable, body } => {
            lemma_expression(env, *iterable, scope, notes, slots);
            match lower_expression(env, *iterable, scope, notes) {
                (None, noted) => {},
                (Some(iterable), noted) => {
                    let checked = noted.unless(
                        may_be(iterable, ValueType::Array)
                            || iterable.value_type == ValueType::Object,
                        "`for` requires an array or object"@,
                        iterable.span,
                    );
                    match loop_scope(scope, key, value, checked) {
                        (None, _) => {},
                        (Some(inner), named) => {
                            assert(sound_scope(env, inner));
                            assert(inner.context == scope.context);
                            assert(inner.slots > scope.slots);
                            let row = RowModel { block: true, tail: true, top: false };
                            let lowered = lower_row(
                                env,
                                body,
                                0,
                                row,
                                inner,
                                named,
                                Seq::empty(),
                                false,
                            );
                            lemma_row_slots(
                                env,
                                body,
                                0,
                                row,
                                inner,
                                named,
                                Seq::empty(),
                                false,
                            );
                            lemma_row(
                                env,
                                body,
                                0,
                                row,
                                inner,
                                named,
                                Seq::empty(),
                                false,
                                lowered.slots,
                            );
                        },
                    }
                },
            }
        },
        _ => {},
    }
}

// ---------------------------------------------------------------------------
// Contexts

/// How many fields each context of a program has, with those of the contexts
/// that it uses.
pub open spec fn field_counts(program: ProgramModel, capabilities: Seq<CapabilityModel>) -> Seq<
    nat,
> {
    let cache = flattened(program, capabilities).cache;
    Seq::new(cache.len(), |i: int| cache[i].fields.len())
}

pub open spec fn limits_of(
    flows: Seq<MettlePlanModel>,
    capabilities: Seq<CapabilityModel>,
    fields: nat,
) -> LimitsModel {
    LimitsModel {
        flows: Seq::new(flows.len(), |i: int| flows[i].parameters.len()),
        capabilities,
        fields,
    }
}

/// Whether a context is valid; its expressions have no locals.
pub open spec fn valid_context(limits: LimitsModel, context: ContextPlanModel) -> bool {
    &&& valid_fields(limits, context.fields, 0)
    &&& forall|i: int|
        0 <= i < context.defaults.len() ==> valid_defaults(limits, #[trigger] context.defaults[i])
}

pub open spec fn valid_defaults(limits: LimitsModel, defaults: CapabilityDefaultsModel) -> bool {
    &&& 0 <= defaults.capability < limits.capabilities.len()
    &&& fitting_fields(limits.capabilities[defaults.capability].defaults, defaults.fields)
    &&& valid_fields(limits, defaults.fields, 0)
}

/// Whether a flow is valid; its parameters are its first locals.
pub open spec fn valid_flow(
    plan: ExecutionPlanModel,
    capabilities: Seq<CapabilityModel>,
    counts: Seq<nat>,
    flow: MettlePlanModel,
) -> bool {
    &&& flow.parameters.len() <= flow.local_count
    &&& flow.contexts.len() <= 1
    &&& flow.contexts.len() == 1 ==> 0 <= flow.contexts[0] < plan.contexts.len()
    &&& valid_instructions(
        limits_of(
            plan.flows,
            capabilities,
            if flow.contexts.len() == 1 {
                counts[flow.contexts[0]]
            } else {
                0
            },
        ),
        flow.instructions,
        flow.local_count,
    )
}

/// Whether everything that a plan refers to is there.
pub open spec fn valid_plan(
    plan: ExecutionPlanModel,
    capabilities: Seq<CapabilityModel>,
    counts: Seq<nat>,
) -> bool {
    &&& plan.capability_names.len() == capabilities.len()
    &&& plan.contexts.len() == counts.len()
    &&& (plan.default_flow matches Some(flow) ==> 0 <= flow < plan.flows.len())
    &&& forall|i: int|
        0 <= i < plan.contexts.len() ==> valid_context(
            limits_of(plan.flows, capabilities, counts[i]),
            #[trigger] plan.contexts[i],
        )
    &&& forall|i: int|
        0 <= i < plan.flows.len() ==> valid_flow(
            plan,
            capabilities,
            counts,
            #[trigger] plan.flows[i],
        )
}

proof fn lemma_flatten_size(
    contexts: Seq<ContextDeclModel>,
    names: NameTable,
    id: int,
    stack: Seq<int>,
    state: FlatteningModel,
)
    requires
        names_below(names, contexts.len() as int),
        0 <= id < contexts.len(),
        state.cache.len() == contexts.len(),
    ensures
        flatten(contexts, names, id, stack, state).1.cache.len() == contexts.len(),
    decreases contexts.len() - stack.len(), 0int,
{
    if state.states[id] == VisitState::Unvisited && stack.len() < contexts.len() {
        lemma_flatten_uses_size(
            contexts,
            names,
            contexts[id],
            0,
            stack.push(id),
            state.entering(id),
            flat_nothing(),
        );
    }
}

proof fn lemma_flatten_uses_size(
    contexts: Seq<ContextDeclModel>,
    names: NameTable,
    context: ContextDeclModel,
    from: int,
    stack: Seq<int>,
    state: FlatteningModel,
    flat: FlatModel,
)
    requires
        names_below(names, contexts.len() as int),
        state.cache.len() == contexts.len(),
    ensures
        flatten_uses(contexts, names, context, from, stack, state, flat).1.cache.len()
            == contexts.len(),
    decreases contexts.len() - stack.len(), context.members.len() - from + 1,
{
    if 0 <= from < context.members.len() {
        match context.members[from] {
            ContextMemberModel::UseContext { name, span } => {
                lemma_resolved(
                    names,
                    "context"@,
                    name.value,
                    context.namespace,
                    context.namespace_uses,
                    name.span,
                    state.notes,
                    contexts.len() as int,
                );
                match resolved(
                    names,
                    "context"@,
                    name.value,
                    context.namespace,
                    context.namespace_uses,
                    name.span,
                    state.notes,
                ) {
                    (None, notes) => {
                        lemma_flatten_uses_size(
                            contexts,
                            names,
                            context,
                            from + 1,
                            stack,
                            state.noting(notes),
                            flat,
                        );
                    },
                    (Some(parent), notes) => {
                        lemma_flatten_size(contexts, names, parent, stack, state.noting(notes));
                        let (used, after) = flatten(
                            contexts,
                            names,
                            parent,
                            stack,
                            state.noting(notes),
                        );
                        lemma_flatten_uses_size(
                            contexts,
                            names,
                            context,
                            from + 1,
                            stack,
                            after,
                            FlatModel {
                                fields: with_fields(flat.fields, used.fields, 0),
                                defaults: flat.defaults + used.defaults,
                            },
                        );
                    },
                }
            },
            _ => {
                lemma_flatten_uses_size(contexts, names, context, from + 1, stack, state, flat);
            },
        }
    }
}

proof fn lemma_flatten_all_size(
    contexts: Seq<ContextDeclModel>,
    names: NameTable,
    from: int,
    state: FlatteningModel,
)
    requires
        names_below(names, contexts.len() as int),
        state.cache.len() == contexts.len(),
    ensures
        flatten_all(contexts, names, from, state).cache.len() == contexts.len(),
    decreases contexts.len() - from,
{
    if 0 <= from < contexts.len() {
        lemma_flatten_size(contexts, names, from, Seq::empty(), state);
        lemma_flatten_all_size(
            contexts,
            names,
            from + 1,
            flatten(contexts, names, from, Seq::empty(), state).1,
        );
    }
}

pub(crate) proof fn lemma_tables(
    contexts: Seq<ContextDeclModel>,
    flows: Seq<MettleDeclModel>,
    capabilities: Seq<CapabilityModel>,
    parameters: Seq<SpannedModel>,
    count: int,
)
    ensures
        0 <= count ==> names_below(context_table(contexts, count), count),
        0 <= count ==> names_below(flow_table(flows, count), count),
        0 <= count ==> names_below(capability_table(capabilities, count), count),
        0 <= count ==> names_below(parameter_table(parameters, count), count),
    decreases count,
{
    if count > 0 {
        lemma_tables(contexts, flows, capabilities, parameters, count - 1);
    }
}

/// Whether the value that a plan has for a field of a context is the one that
/// the field's expression becomes.
pub open spec fn stands_for(
    env: EnvironmentModel,
    id: int,
    field: ObjectFieldModel,
    planned: PlanFieldModel,
) -> bool {
    &&& planned.name == field.name.value
    &&& exists|notes: NotesModel| #[trigger]
        lower_expression(env, field.expression, context_scope(id), notes).0 == Some(
            planned.expression,
        )
}

/// Whether a plan has a value for each of the first fields of a context.
pub open spec fn stand_for_fields(
    env: EnvironmentModel,
    id: int,
    fields: Seq<ObjectFieldModel>,
    count: int,
    planned: Seq<PlanFieldModel>,
) -> bool {
    &&& planned.len() == count
    &&& forall|i: int| 0 <= i < count ==> stands_for(env, id, fields[i], #[trigger] planned[i])
}

proof fn lemma_context_fields(
    env: EnvironmentModel,
    fields: Seq<ObjectFieldModel>,
    from: int,
    id: int,
    notes: NotesModel,
    done: Seq<PlanFieldModel>,
)
    requires
        sound(env),
        0 <= from <= fields.len(),
        clean(notes) ==> valid_fields(limits_in(env, Some(id)), done, 0),
        clean(notes) ==> stand_for_fields(env, id, fields, from, done),
    ensures
        ({
            let (result, noted) = plan_context_fields(env, fields, from, id, notes, done);
            &&& grows(notes, noted)
            &&& clean(noted) ==> valid_fields(limits_in(env, Some(id)), result, 0)
            &&& clean(noted) ==> stand_for_fields(
                env,
                id,
                fields,
                fields.len() as int,
                result,
            )
        }),
    decreases fields.len() - from,
{
    if 0 <= from < fields.len() {
        let scope = context_scope(id);
        lemma_expression(env, fields[from].expression, scope, notes, 0);
        let (lowered, noted) = lower_expression(env, fields[from].expression, scope, notes);
        if let Some(expression) = lowered {
            assert(stands_for(
                env,
                id,
                fields[from],
                PlanFieldModel { name: fields[from].name.value, expression },
            ));
        }
        lemma_context_fields(
            env,
            fields,
            from + 1,
            id,
            noted,
            match lowered {
                Some(expression) => done.push(
                    PlanFieldModel { name: fields[from].name.value, expression },
                ),
                None => done,
            },
        );
    }
}

spec fn all_defaults_valid(limits: LimitsModel, defaults: Seq<CapabilityDefaultsModel>) -> bool {
    forall|i: int| 0 <= i < defaults.len() ==> valid_defaults(limits, #[trigger] defaults[i])
}

proof fn lemma_defaults(
    env: EnvironmentModel,
    defaults: Seq<(SpannedModel, Seq<ObjectFieldModel>)>,
    from: int,
    id: int,
    notes: NotesModel,
    done: Seq<CapabilityDefaultsModel>,
)
    requires
        sound(env),
        clean(notes) ==> all_defaults_valid(limits_in(env, Some(id)), done),
    ensures
        ({
            let (result, noted) = plan_defaults(env, defaults, from, id, notes, done);
            &&& grows(notes, noted)
            &&& clean(noted) ==> all_defaults_valid(limits_in(env, Some(id)), result)
        }),
    decreases defaults.len() - from,
{
    if 0 <= from < defaults.len() {
        let (capability, fields) = defaults[from];
        lemma_id_below(env.capability_names, capability.value, env.capabilities.len() as int);
        match id_of(env.capability_names, capability.value) {
            None => {
                lemma_defaults(
                    env,
                    defaults,
                    from + 1,
                    id,
                    notes.with(
                        "capability `"@ + capability.value + "` is not registered"@,
                        capability.span,
                    ),
                    done,
                );
            },
            Some(capability_id) => {
                let schema = Some(env.capabilities[capability_id].defaults);
                lemma_fields(
                    env,
                    fields,
                    0,
                    context_scope(id),
                    schema,
                    Seq::empty(),
                    notes,
                    Seq::empty(),
                    Seq::empty(),
                    0,
                );
                let (lowered, seen, noted) = lower_fields(
                    env,
                    fields,
                    0,
                    context_scope(id),
                    schema,
                    Seq::empty(),
                    notes,
                    Seq::empty(),
                    Seq::empty(),
                );
                lemma_defaults(
                    env,
                    defaults,
                    from + 1,
                    id,
                    noted,
                    done.push(
                        CapabilityDefaultsModel { capability: capability_id, fields: lowered },
                    ),
                );
            },
        }
    }
}

spec fn all_contexts_valid(env: EnvironmentModel, contexts: Seq<ContextPlanModel>) -> bool {
    forall|i: int|
        0 <= i < contexts.len() ==> valid_context(
            limits_in(env, Some(i)),
            #[trigger] contexts[i],
        )
}

spec fn stand_for_contexts(
    env: EnvironmentModel,
    cache: Seq<FlatModel>,
    count: int,
    planned: Seq<ContextPlanModel>,
) -> bool {
    forall|i: int|
        0 <= i < count ==> stand_for_fields(
            env,
            i,
            cache[i].fields,
            cache[i].fields.len() as int,
            (#[trigger] planned[i]).fields,
        )
}

proof fn lemma_contexts(
    env: EnvironmentModel,
    cache: Seq<FlatModel>,
    from: int,
    notes: NotesModel,
    done: Seq<ContextPlanModel>,
)
    requires
        sound(env),
        0 <= from <= cache.len(),
        done.len() == from,
        clean(notes) ==> all_contexts_valid(env, done),
        clean(notes) ==> stand_for_contexts(env, cache, from, done),
    ensures
        ({
            let (contexts, noted) = plan_contexts(env, cache, from, notes, done);
            &&& grows(notes, noted)
            &&& contexts.len() == cache.len()
            &&& clean(noted) ==> all_contexts_valid(env, contexts)
            &&& clean(noted) ==> stand_for_contexts(env, cache, cache.len() as int, contexts)
        }),
    decreases cache.len() - from,
{
    if from < cache.len() {
        let flat = cache[from];
        lemma_context_fields(env, flat.fields, 0, from, notes, Seq::empty());
        let noted = plan_context_fields(env, flat.fields, 0, from, notes, Seq::empty()).1;
        lemma_defaults(env, flat.defaults, 0, from, noted, Seq::empty());
        let (context, last) = plan_context(env, flat, from, notes);
        assert(clean(last) ==> valid_context(limits_in(env, Some(from)), context));
        lemma_contexts(env, cache, from + 1, last, done.push(context));
    }
}

// ---------------------------------------------------------------------------
// Flows

proof fn lemma_inline_context(contexts: Seq<ContextDeclModel>, span: Span, from: int)
    ensures
        inline_context(contexts, span, from) matches Some(id) ==> 0 <= id < contexts.len(),
    decreases contexts.len() - from,
{
    if 0 <= from < contexts.len() {
        lemma_inline_context(contexts, span, from + 1);
    }
}

proof fn lemma_context_of_file(env: EnvironmentModel, flow: MettleDeclModel, notes: NotesModel)
    requires
        sound(env),
    ensures
        context_of_file(env, flow, notes).0 matches Some(id) ==> 0 <= id
            < env.program.contexts.len(),
        grows(notes, context_of_file(env, flow, notes).1),
{
    match file_context(env.program.file_contexts, flow.span.source, 0) {
        None => {},
        Some(FileContextUseModel::Inline(span)) => {
            lemma_inline_context(env.program.contexts, span, 0);
        },
        Some(FileContextUseModel::Named(name)) => {
            lemma_resolved(
                env.contexts,
                "context"@,
                name.value,
                flow.namespace,
                flow.namespace_uses,
                name.span,
                notes,
                env.program.contexts.len() as int,
            );
        },
    }
}

proof fn lemma_context_of_flow(
    env: EnvironmentModel,
    flow: MettleDeclModel,
    from: int,
    executable: bool,
    chosen: bool,
    active: Option<int>,
    notes: NotesModel,
)
    requires
        sound(env),
        active matches Some(id) ==> 0 <= id < env.program.contexts.len(),
    ensures
        context_of_flow(env, flow, from, executable, chosen, active, notes).0 matches Some(id)
            ==> 0 <= id < env.program.contexts.len(),
        grows(notes, context_of_flow(env, flow, from, executable, chosen, active, notes).1),
    decreases flow.body.len() - from,
{
    if 0 <= from < flow.body.len() {
        match flow.body[from] {
            StatementModel::UseContext { name, span } => {
                if executable {
                    lemma_context_of_flow(
                        env,
                        flow,
                        from + 1,
                        executable,
                        chosen,
                        active,
                        notes.with(
                            "`use context` must appear before executable statements"@,
                            span,
                        ),
                    );
                } else {
                    lemma_resolved(
                        env.contexts,
                        "context"@,
                        name.value,
                        flow.namespace,
                        flow.namespace_uses,
                        name.span,
                        notes,
                        env.program.contexts.len() as int,
                    );
                    match resolved(
                        env.contexts,
                        "context"@,
                        name.value,
                        flow.namespace,
                        flow.namespace_uses,
                        name.span,
                        notes,
                    ) {
                        (None, noted) => {
                            lemma_context_of_flow(
                                env,
                                flow,
                                from + 1,
                                executable,
                                chosen,
                                active,
                                noted,
                            );
                        },
                        (Some(context), noted) => {
                            if chosen {
                                lemma_context_of_flow(
                                    env,
                                    flow,
                                    from + 1,
                                    executable,
                                    chosen,
                                    active,
                                    noted.with(
                                        "a flow may apply one context; compose reusable contexts in a context declaration"@,
                                        span,
                                    ),
                                );
                            } else {
                                lemma_context_of_flow(
                                    env,
                                    flow,
                                    from + 1,
                                    executable,
                                    true,
                                    Some(context),
                                    noted,
                                );
                            }
                        },
                    }
                }
            },
            _ => {
                lemma_context_of_flow(env, flow, from + 1, true, chosen, active, notes);
            },
        }
    }
}

/// What is known of the plan of a flow, with what was noted of it.
spec fn planned_well(env: EnvironmentModel, id: int, plan: MettlePlanModel, fine: bool) -> bool {
    &&& plan.parameters.len() == env.program.flows[id].parameters.len()
    &&& plan.parameters.len() <= plan.local_count
    &&& plan.contexts.len() <= 1
    &&& plan.contexts.len() == 1 ==> 0 <= plan.contexts[0] < env.program.contexts.len()
    &&& fine ==> valid_instructions(
        limits_in(
            env,
            if plan.contexts.len() == 1 {
                Some(plan.contexts[0])
            } else {
                None
            },
        ),
        plan.instructions,
        plan.local_count,
    )
}

proof fn lemma_flow(env: EnvironmentModel, id: int, notes: NotesModel)
    requires
        sound(env),
        0 <= id < env.program.flows.len(),
    ensures
        grows(notes, plan_flow(env, id, notes).1),
        planned_well(env, id, plan_flow(env, id, notes).0, clean(plan_flow(env, id, notes).1)),
{
    let flow = env.program.flows[id];
    let (file, filed) = context_of_file(env, flow, notes);
    lemma_context_of_file(env, flow, notes);
    lemma_parameters_grow(flow.parameters, flow.parameters.len() as int, filed);
    let count = flow.parameters.len() as int;
    let checked = check_parameters(flow.parameters, count, filed);
    let (context, found) = context_of_flow(env, flow, 0, false, false, file, checked);
    lemma_context_of_flow(env, flow, 0, false, false, file, checked);
    lemma_tables(Seq::empty(), Seq::empty(), Seq::empty(), flow.parameters, count);
    let scope = ScopeModel {
        flow: Some(id),
        test: flow.kind == DeclarationKind::Test,
        locals: parameter_table(flow.parameters, count),
        slots: count,
        context,
    };
    let row = RowModel { block: false, tail: false, top: true };
    lemma_row_slots(env, flow.body, 0, row, scope, found, Seq::empty(), false);
    let body = lower_row(env, flow.body, 0, row, scope, found, Seq::empty(), false);
    lemma_row(env, flow.body, 0, row, scope, found, Seq::empty(), false, body.slots);
}

proof fn lemma_flows(
    env: EnvironmentModel,
    from: int,
    notes: NotesModel,
    done: Seq<MettlePlanModel>,
)
    requires
        sound(env),
        0 <= from <= env.program.flows.len(),
        done.len() == from,
        forall|i: int|
            0 <= i < done.len() ==> planned_well(env, i, #[trigger] done[i], clean(notes)),
    ensures
        ({
            let (flows, noted) = plan_flows(env, from, notes, done);
            &&& grows(notes, noted)
            &&& flows.len() == env.program.flows.len()
            &&& forall|i: int|
                0 <= i < flows.len() ==> planned_well(env, i, #[trigger] flows[i], clean(noted))
        }),
    decreases env.program.flows.len() - from,
{
    if from < env.program.flows.len() {
        lemma_flow(env, from, notes);
        let (flow, noted) = plan_flow(env, from, notes);
        lemma_flows(env, from + 1, noted, done.push(flow));
    }
}

/// Where a program compiles, nothing was complained about on the way to its
/// contexts, and the plan has the values of their fields.
pub(crate) proof fn lemma_compiled_contexts(
    program: ProgramModel,
    capabilities: Seq<CapabilityModel>,
    id: int,
)
    requires
        well_named(capabilities),
        compiled(program, capabilities) is Ok,
        0 <= id < program.contexts.len(),
    ensures
        ({
            let flat = flattened(program, capabilities);
            let plan = compiled(program, capabilities)->Ok_0;
            &&& flat.notes.errors.len() == 0
            &&& plan.contexts.len() == program.contexts.len()
            &&& flat.cache.len() == program.contexts.len()
            &&& stand_for_fields(
                environment_of(program, capabilities),
                id,
                flat.cache[id].fields,
                flat.cache[id].fields.len() as int,
                plan.contexts[id].fields,
            )
        }),
{
    let env = environment_of(program, capabilities);
    let contexts = program.contexts;
    let none = Seq::<SpannedModel>::empty();
    lemma_tables(contexts, program.flows, capabilities, none, contexts.len() as int);
    lemma_tables(contexts, program.flows, capabilities, none, program.flows.len() as int);
    lemma_tables(contexts, program.flows, capabilities, none, capabilities.len() as int);
    lemma_flatten_all_size(
        contexts,
        env.contexts,
        0,
        unflattened(contexts.len(), check_names(program, capabilities)),
    );
    let flat = flattened(program, capabilities);
    assert(sound(env));
    lemma_contexts(env, flat.cache, 0, flat.notes, Seq::empty());
    let noted = plan_contexts(env, flat.cache, 0, flat.notes, Seq::empty()).1;
    lemma_flows(env, 0, noted, Seq::empty());
    let last = plan_flows(env, 0, noted, Seq::empty()).1;
    lemma_all_errors_grow(
        program.flows,
        last.edges,
        0,
        untraced(program.flows.len(), last.errors),
    );
    assert(clean(last));
}

/// What a compiled plan refers to is there: every local has a slot, every
/// context field, flow, capability and operation exists, every call hands over
/// as many arguments as are expected and evaluates all of them, the options of
/// operations and the defaults of capabilities fit their schemas, no two options
/// exclude each other, and every policy keeps its bounds. No operation may name
/// more parameters than it has: an argument for such a name has no place.
pub proof fn law_compiled_plans_are_valid(
    program: ProgramModel,
    capabilities: Seq<CapabilityModel>,
)
    requires
        well_named(capabilities),
    ensures
        compiled(program, capabilities) matches Ok(plan) ==> valid_plan(
            plan,
            capabilities,
            field_counts(program, capabilities),
        ),
{
    let env = environment_of(program, capabilities);
    let contexts = program.contexts;
    lemma_tables(
        contexts,
        program.flows,
        capabilities,
        Seq::empty(),
        contexts.len() as int,
    );
    lemma_tables(
        contexts,
        program.flows,
        capabilities,
        Seq::empty(),
        program.flows.len() as int,
    );
    lemma_tables(
        contexts,
        program.flows,
        capabilities,
        Seq::empty(),
        capabilities.len() as int,
    );
    lemma_flatten_all_size(
        contexts,
        env.contexts,
        0,
        unflattened(contexts.len(), check_names(program, capabilities)),
    );
    let flat = flattened(program, capabilities);
    assert(sound(env));
    lemma_contexts(env, flat.cache, 0, flat.notes, Seq::empty());
    let noted = plan_contexts(env, flat.cache, 0, flat.notes, Seq::empty()).1;
    lemma_flows(env, 0, noted, Seq::empty());
    lemma_id_below(env.flows, "main"@, program.flows.len() as int);
    let last = plan_flows(env, 0, noted, Seq::empty()).1;
    lemma_all_errors_grow(
        program.flows,
        last.edges,
        0,
        untraced(program.flows.len(), last.errors),
    );
    if compiled(program, capabilities) is Ok {
        assert(clean(last));
        let plan = compiled(program, capabilities)->Ok_0;
        let counts = field_counts(program, capabilities);
        let flows = limits_of(plan.flows, capabilities, 0).flows;
        assert forall|i: int| 0 <= i < flows.len() implies flows[i] == parameter_counts(
            program.flows,
        )[i] by {
            assert(planned_well(env, i, plan.flows[i], true));
        }
        assert(flows =~= parameter_counts(program.flows));
        assert forall|i: int| 0 <= i < plan.contexts.len() implies valid_context(
            limits_of(plan.flows, capabilities, counts[i]),
            #[trigger] plan.contexts[i],
        ) by {
            assert(env.fields[i].len() == counts[i]);
            assert(limits_in(env, Some(i)) == limits_of(plan.flows, capabilities, counts[i]));
        }
        assert forall|i: int| 0 <= i < plan.flows.len() implies valid_flow(
            plan,
            capabilities,
            counts,
            #[trigger] plan.flows[i],
        ) by {
            let flow = plan.flows[i];
            assert(planned_well(env, i, flow, true));
            if flow.contexts.len() == 1 {
                assert(env.fields[flow.contexts[0]].len() == counts[flow.contexts[0]]);
            }
        }
    }
}

} // verus!
