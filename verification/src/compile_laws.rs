//! What programs become when they are compiled.

use vstd::prelude::*;

use crate::assembly::parameter_table;
use crate::capability::SchemaTypeModel;
use crate::definition::{context_table, flow_table, root_of};
use crate::lowering::{
    duration_literal, fits, lower_assertion, lower_branches, lower_concurrency, lower_expression,
    lower_if_branches, lower_list, lower_parallel, lower_rate, lower_retry, lower_row,
    lower_statement, lower_within, positive_literal, rate_settings, retry_delay, slot_of,
    EnvironmentModel, NotesModel, RowModel, ScopeModel,
};
use crate::names::{id_of, qualified, resolution, visible, NameTable, ResolutionModel};
use crate::plan::{
    ConditionalBranchModel, ConstantModel, InstructionModel, PlanBranchModel,
    PlanExpressionKindModel, PlanExpressionModel, ValueType,
};
use crate::syntax::{
    ContextDeclModel, DeclarationKind, ExpressionKindModel, ExpressionModel, IfBranchModel,
    MettleDeclModel, ParallelBranchModel, Span, SpannedModel, StatementModel,
};
use crate::text::{lemma_position_of, position_of};

verus! {

// ---------------------------------------------------------------------------
// Expressions

/// Whether an expression becomes another in a scope, whatever was noticed before.
pub open spec fn becomes(
    env: EnvironmentModel,
    scope: ScopeModel,
    expression: ExpressionModel,
    planned: PlanExpressionModel,
) -> bool {
    exists|notes: NotesModel| #[trigger]
        lower_expression(env, expression, scope, notes).0 == Some(planned)
}

/// The compiled expression is of the kind of the one that was written: a literal
/// is that constant, and an operator stays that operator, with its operands in
/// their places.
pub proof fn law_expressions_keep_their_kind(
    env: EnvironmentModel,
    scope: ScopeModel,
    expression: ExpressionModel,
    notes: NotesModel,
)
    ensures
        lower_expression(env, expression, scope, notes).0 matches Some(planned) ==> {
            let kind = planned.kind;
            &&& planned.span == expression.span || expression.kind is Name
            &&& match expression.kind {
                ExpressionKindModel::Null => kind == PlanExpressionKindModel::Constant(
                    ConstantModel::Null,
                ),
                ExpressionKindModel::Boolean(value) => kind == PlanExpressionKindModel::Constant(
                    ConstantModel::Boolean(value),
                ),
                ExpressionKindModel::Integer(value) => kind == PlanExpressionKindModel::Constant(
                    ConstantModel::Integer(value),
                ),
                ExpressionKindModel::Float(value) => kind == PlanExpressionKindModel::Constant(
                    ConstantModel::Float(value),
                ),
                ExpressionKindModel::DurationNanos(value) => kind
                    == PlanExpressionKindModel::Constant(ConstantModel::DurationNanos(value)),
                ExpressionKindModel::String(text) => !text.contains('$') ==> kind
                    == PlanExpressionKindModel::Constant(ConstantModel::String(text)),
                ExpressionKindModel::Not(value) => kind matches PlanExpressionKindModel::Not(inner)
                    && becomes(env, scope, *value, *inner),
                ExpressionKindModel::Negate(value) =>
                    kind matches PlanExpressionKindModel::Negate(inner) && becomes(
                    env,
                    scope,
                    *value,
                    *inner,
                ),
                ExpressionKindModel::Fail(value) =>
                    kind matches PlanExpressionKindModel::Fail(inner) && becomes(
                    env,
                    scope,
                    *value,
                    *inner,
                ),
                ExpressionKindModel::Binary { left, operator, right } =>
                    kind matches PlanExpressionKindModel::Binary {
                    left: one,
                    operator: same,
                    right: other,
                } && same == operator && becomes(env, scope, *left, *one) && becomes(
                    env,
                    scope,
                    *right,
                    *other,
                ),
                ExpressionKindModel::Member { value, member } =>
                    kind matches PlanExpressionKindModel::Member { value: inner, member: name }
                    && name == member.value && becomes(env, scope, *value, *inner),
                ExpressionKindModel::Index { value, index } =>
                    kind matches PlanExpressionKindModel::Index { value: inner, index: place }
                    && becomes(env, scope, *value, *inner) && becomes(env, scope, *index, *place),
                _ => true,
            }
        },
{
    match expression.kind {
        ExpressionKindModel::String(text) => {
            if !text.contains('$') {
                lemma_nothing_inserted(text, 0);
            }
        },
        ExpressionKindModel::Binary { left, operator, right } => {
            let (first, noted) = lower_expression(env, *left, scope, notes);
            let second = lower_expression(env, *right, scope, noted).0;
        },
        ExpressionKindModel::Index { value, index } => {
            let (first, noted) = lower_expression(env, *value, scope, notes);
            let second = lower_expression(env, *index, scope, noted).0;
        },
        ExpressionKindModel::Not(value) => {
            let inner = lower_expression(env, *value, scope, notes).0;
        },
        ExpressionKindModel::Negate(value) => {
            let inner = lower_expression(env, *value, scope, notes).0;
        },
        ExpressionKindModel::Fail(value) => {
            let inner = lower_expression(env, *value, scope, notes).0;
        },
        ExpressionKindModel::Member { value, member } => {
            let inner = lower_expression(env, *value, scope, notes).0;
        },
        _ => {},
    }
    lemma_spans(env, scope, expression, notes);
}

proof fn lemma_spans(
    env: EnvironmentModel,
    scope: ScopeModel,
    expression: ExpressionModel,
    notes: NotesModel,
)
    ensures
        lower_expression(env, expression, scope, notes).0 matches Some(planned) ==> planned.span
            == expression.span || expression.kind is Name,
{
    match expression.kind {
        ExpressionKindModel::Call { callee, arguments, named_arguments, options } => {
            lemma_call_span(env, scope, expression, notes);
        },
        _ => {},
    }
}

proof fn lemma_call_span(
    env: EnvironmentModel,
    scope: ScopeModel,
    expression: ExpressionModel,
    notes: NotesModel,
)
    requires
        expression.kind is Call,
    ensures
        crate::lowering::lower_call(env, expression, scope, notes).0 matches Some(planned)
            ==> planned.span == expression.span,
{
}

proof fn lemma_nothing_inserted(text: Seq<char>, from: int)
    requires
        !text.contains('$'),
        0 <= from <= text.len(),
    ensures
        crate::lowering::next_opening(text, from) == text.len(),
    decreases text.len() - from,
{
    if from < text.len() {
        assert(text[from] != '$');
        lemma_nothing_inserted(text, from + 1);
    }
}

pub(crate) proof fn lemma_list(
    env: EnvironmentModel,
    values: Seq<ExpressionModel>,
    from: int,
    scope: ScopeModel,
    notes: NotesModel,
    done: Seq<PlanExpressionModel>,
    at: int,
)
    requires
        0 <= from <= values.len(),
        done.len() <= from,
        0 <= at < values.len(),
        done.len() == from && at < from ==> becomes(env, scope, values[at], done[at]),
    ensures
        ({
            let found = lower_list(env, values, from, scope, notes, done).0;
            &&& found.len() <= done.len() + values.len() - from
            &&& found.len() == values.len() ==> becomes(env, scope, values[at], found[at])
        }),
    decreases values.len() - from,
{
    if from < values.len() {
        let (lowered, noted) = lower_expression(env, values[from], scope, notes);
        let more = match lowered {
            Some(value) => done.push(value),
            None => done,
        };
        if let Some(value) = lowered {
            assert(becomes(env, scope, values[from], value));
        }
        lemma_list(env, values, from + 1, scope, noted, more, at);
    }
}

/// The elements of a compiled array are those that were written, in their order.
pub proof fn law_elements_keep_their_places(
    env: EnvironmentModel,
    scope: ScopeModel,
    expression: ExpressionModel,
    values: Seq<ExpressionModel>,
    notes: NotesModel,
    at: int,
)
    requires
        expression.kind == ExpressionKindModel::Array(values),
        0 <= at < values.len(),
    ensures
        lower_expression(env, expression, scope, notes).0 matches Some(planned) && (
        planned.kind matches PlanExpressionKindModel::Array(items) && (items.len() == values.len()
            ==> becomes(env, scope, values[at], items[at]))),
{
    lemma_list(env, values, 0, scope, notes, Seq::empty(), at);
}

/// A name without members is the local of that name, the last one bound, else
/// the field of that name in the context; there is nothing else that it can be.
pub proof fn law_names_are_looked_up(
    env: EnvironmentModel,
    scope: ScopeModel,
    expression: ExpressionModel,
    name: Seq<char>,
    notes: NotesModel,
)
    requires
        expression.kind == ExpressionKindModel::Name(name),
        !name.contains('.'),
    ensures
        ({
            let (planned, noted) = lower_expression(env, expression, scope, notes);
            let field = match scope.context {
                Some(context) => slot_of(env.fields[context], name, 0),
                None => None,
            };
            &&& id_of(scope.locals, name) matches Some(slot) ==> (planned matches Some(planned)
                && planned.kind == PlanExpressionKindModel::Local(slot) && noted == notes)
            &&& id_of(scope.locals, name) is None ==> (field matches Some(slot) ==> (
            planned matches Some(planned) && planned.kind == PlanExpressionKindModel::Context(slot)
                && noted == notes))
            &&& id_of(scope.locals, name) is None && field is None ==> planned is None
                && noted.errors.len() == notes.errors.len() + 1
        }),
{
    lemma_position_of(name, '.', 0);
    if position_of(name, '.', 0) < name.len() {
        assert(name.contains(name[position_of(name, '.', 0)]));
    }
    assert(root_of(name) =~= name);
}

/// The policies of a program have the settings that are written, and run the
/// block that is written behind them. A missing delay is none, a missing limit
/// of a rate is 1024, and no more branches run at a time than there are.
pub proof fn law_policies_keep_their_settings(
    env: EnvironmentModel,
    scope: ScopeModel,
    expression: ExpressionModel,
    notes: NotesModel,
)
    ensures
        lower_expression(env, expression, scope, notes).0 matches Some(planned) ==> {
            let kind = planned.kind;
            match expression.kind {
                ExpressionKindModel::Within { timeout, body } =>
                    kind matches PlanExpressionKindModel::Within { timeout: limit, body: inner }
                    && timeout.kind == ExpressionKindModel::DurationNanos(limit.nanos as u64)
                    && 0 < limit.nanos <= u64::MAX && becomes(env, scope, *body, *inner),
                ExpressionKindModel::Retry { attempts, delay, body } =>
                    kind matches PlanExpressionKindModel::Retry {
                    attempts: count,
                    delay: wait,
                    body: inner,
                } && attempts.kind == ExpressionKindModel::Integer(count as i64) && 0 < count
                    && becomes(env, scope, *body, *inner) && (delay matches Some(delay)
                    ==> delay.kind == ExpressionKindModel::DurationNanos(wait.nanos as u64)) && (
                delay is None ==> wait.nanos == 0),
                ExpressionKindModel::Rate { target, period, duration, limit, body } =>
                    kind matches PlanExpressionKindModel::Rate {
                    target: starts,
                    period: every,
                    duration: window,
                    limit: most,
                    body: inner,
                } && target.kind == ExpressionKindModel::Integer(starts as i64) && period.kind
                    == ExpressionKindModel::DurationNanos(every.nanos as u64) && duration.kind
                    == ExpressionKindModel::DurationNanos(window.nanos as u64) && (
                limit matches Some(limit) ==> limit.kind == ExpressionKindModel::Integer(
                    most as i64,
                )) && (limit is None ==> most == 1024) && becomes(env, scope, *body, *inner),
                ExpressionKindModel::Concurrency { limit, duration, body } =>
                    kind matches PlanExpressionKindModel::Concurrency {
                    limit: most,
                    duration: window,
                    body: inner,
                } && limit.kind == ExpressionKindModel::Integer(most as i64) && duration.kind
                    == ExpressionKindModel::DurationNanos(window.nanos as u64) && becomes(
                    env,
                    scope,
                    *body,
                    *inner,
                ),
                ExpressionKindModel::Parallel { limit, branches } =>
                    kind matches PlanExpressionKindModel::Parallel { limit: most, branches: inner }
                    && most <= branches.len() && (limit is None ==> most == branches.len()) && (
                limit matches Some(limit) ==> (limit.kind matches ExpressionKindModel::Integer(
                    asked,
                ) && (asked <= branches.len() ==> most == asked))),
                _ => true,
            }
        },
{
    match expression.kind {
        ExpressionKindModel::Within { timeout, body } => {
            assert(lower_expression(env, expression, scope, notes) == lower_within(
                env,
                expression,
                scope,
                notes,
            ));
            let noted = duration_literal(*timeout, "`within` timeout"@, notes).1;
            let inner = lower_expression(env, *body, scope, noted).0;
        },
        ExpressionKindModel::Retry { attempts, delay, body } => {
            assert(lower_expression(env, expression, scope, notes) == lower_retry(
                env,
                expression,
                scope,
                notes,
            ));
            let noted = positive_literal(*attempts, "`retry` attempts"@, notes).1;
            let later = retry_delay(delay, noted).1;
            let inner = lower_expression(env, *body, scope, later).0;
        },
        ExpressionKindModel::Rate { target, period, duration, limit, body } => {
            assert(lower_expression(env, expression, scope, notes) == lower_rate(
                env,
                expression,
                scope,
                notes,
            ));
            let noted = rate_settings(*target, *period, *duration, limit, notes).1;
            let inner = lower_expression(env, *body, scope, noted).0;
        },
        ExpressionKindModel::Concurrency { limit, duration, body } => {
            assert(lower_expression(env, expression, scope, notes) == lower_concurrency(
                env,
                expression,
                scope,
                notes,
            ));
            let noted = positive_literal(*limit, "`concurrency` limit"@, notes).1;
            let later = duration_literal(*duration, "`concurrency` duration"@, noted).1;
            let inner = lower_expression(env, *body, scope, later).0;
        },
        ExpressionKindModel::Parallel { limit, branches } => {
            assert(lower_expression(env, expression, scope, notes) == lower_parallel(
                env,
                expression,
                scope,
                notes,
            ));
        },
        _ => {},
    }
}

proof fn lemma_branches(
    env: EnvironmentModel,
    branches: Seq<ParallelBranchModel>,
    from: int,
    scope: ScopeModel,
    notes: NotesModel,
    done: Seq<PlanBranchModel>,
    at: int,
)
    requires
        0 <= from <= branches.len(),
        done.len() <= from,
        0 <= at < branches.len(),
        done.len() == from && at < from ==> same_branch(env, scope, branches[at], done[at]),
    ensures
        ({
            let found = lower_branches(env, branches, from, scope, notes, done).0;
            &&& found.len() <= done.len() + branches.len() - from
            &&& found.len() == branches.len() ==> same_branch(env, scope, branches[at], found[at])
        }),
    decreases branches.len() - from,
{
    if from < branches.len() {
        let (lowered, noted) = lower_expression(env, branches[from].expression, scope, notes);
        let name = match branches[from].name {
            Some(name) => Some(name.value),
            None => None,
        };
        let more = match lowered {
            Some(expression) => done.push(PlanBranchModel { name, expression }),
            None => done,
        };
        if let Some(value) = lowered {
            assert(becomes(env, scope, branches[from].expression, value));
        }
        lemma_branches(env, branches, from + 1, scope, noted, more, at);
    }
}

/// Whether a branch of a plan is one that was written.
pub open spec fn same_branch(
    env: EnvironmentModel,
    scope: ScopeModel,
    branch: ParallelBranchModel,
    planned: PlanBranchModel,
) -> bool {
    &&& becomes(env, scope, branch.expression, planned.expression)
    &&& planned.name is Some <==> branch.name is Some
    &&& branch.name matches Some(name) ==> planned.name == Some(name.value)
}

/// The branches of a compiled `parallel` are those that were written, under their
/// names, in their order.
pub proof fn law_branches_keep_their_places(
    env: EnvironmentModel,
    scope: ScopeModel,
    expression: ExpressionModel,
    notes: NotesModel,
    at: int,
)
    requires
        expression.kind is Parallel,
        0 <= at < expression.kind->branches.len(),
    ensures
        lower_expression(env, expression, scope, notes).0 matches Some(planned) ==> (
        planned.kind matches PlanExpressionKindModel::Parallel { limit, branches } && (
        branches.len() == expression.kind->branches.len() ==> same_branch(
            env,
            scope,
            expression.kind->branches[at],
            branches[at],
        ))),
{
    if let ExpressionKindModel::Parallel { limit, branches } = expression.kind {
        if let (Some(limit), noted) = crate::lowering::optional_limit(
            limit,
            "`parallel` limit"@,
            branches.len() as usize,
            notes,
        ) {
            let named = noted.unless(
                crate::lowering::all_named(branches) || crate::lowering::none_named(branches),
                "parallel branches must be all named or all unnamed"@,
                expression.span,
            );
            let checked = crate::lowering::check_branch_names(branches, 0, Seq::empty(), named);
            lemma_branches(env, branches, 0, scope, checked, Seq::empty(), at);
        }
    }
}

// ---------------------------------------------------------------------------
// Statements

/// What a statement becomes: a `return` returns what its expression becomes, an
/// assertion asserts it, and a binding puts it into a slot of its own, for which
/// the name stands from there on.
pub proof fn law_statements_keep_their_kind(
    env: EnvironmentModel,
    statement: StatementModel,
    last: bool,
    row: RowModel,
    scope: ScopeModel,
    notes: NotesModel,
    other: Seq<char>,
)
    ensures
        ({
            let result = lower_statement(env, statement, last, row, scope, notes);
            match statement {
                StatementModel::Return { expression, span } =>
                    result.instruction matches Some(instruction) ==> (
                    instruction matches InstructionModel::Return(planned) && becomes(
                        env,
                        scope,
                        expression,
                        planned,
                    ) && result.returned && result.scope == scope),
                StatementModel::Assert { expression, message, span } =>
                    result.instruction matches Some(instruction) ==> (
                    instruction matches InstructionModel::Assert { condition, message: text }
                    && becomes(env, scope, expression, condition) && !result.returned
                    && result.scope == scope && (message is None ==> text is None) && (
                    text matches Some(text) ==> (message matches Some(message) && becomes(
                        env,
                        scope,
                        message,
                        text,
                    )))),
                StatementModel::Bind { name, expression, span } => {
                    &&& result.instruction matches Some(instruction) ==> (
                    instruction matches InstructionModel::Bind { slot, expression: planned }
                        && slot == scope.slots && becomes(env, scope, expression, planned)
                        && id_of(result.scope.locals, name.value) == Some(slot)
                        && result.scope.slots == slot + 1 && !result.returned)
                    &&& other != name.value ==> id_of(result.scope.locals, other) == id_of(
                        scope.locals,
                        other,
                    )
                },
                StatementModel::If { branches, else_body, span } =>
                    result.instruction matches Some(InstructionModel::If {
                        branches: planned,
                        else_body: planned_else,
                    }) && (planned_else is Some <==> else_body is Some) && planned.len()
                        <= branches.len(),
                _ => true,
            }
        }),
{
    match statement {
        StatementModel::Bind { name, expression, span } => {
            let more = scope.locals.push((name.value, scope.slots));
            assert(more.drop_last() =~= scope.locals);
            let planned = lower_expression(env, expression, scope, notes).0;
            let result = lower_statement(env, statement, last, row, scope, notes);
            if planned is Some && crate::lowering::can_define(scope, name.value) {
                assert(becomes(env, scope, expression, planned->0));
                assert(result.scope.locals == more);
            }
        },
        StatementModel::If { branches, else_body, span } => {
            let inner = RowModel { block: row.block, tail: row.tail && last, top: false };
            lemma_if_branches(env, branches, 0, inner, scope, notes, Seq::empty(), true, -1);
        },
        StatementModel::Assert { expression, message, span } => {
            let (condition, noted) = lower_expression(env, expression, scope, notes);
            assert(lower_statement(env, statement, last, row, scope, notes) == lower_assertion(
                env,
                statement,
                scope,
                notes,
            ));
            if let (Some(condition), Some(message)) = (condition, message) {
                let checked = noted.unless(
                    crate::lowering::may_be(condition, ValueType::Boolean),
                    "assertion expression must be boolean"@,
                    condition.span,
                );
                let text = lower_expression(env, message, scope, checked).0;
            }
        },
        StatementModel::Return { expression, span } => {
            let planned = lower_expression(env, expression, scope, notes).0;
        },
        _ => {},
    }
}

/// Whether a branch of a plan has the condition and the body of one that was
/// written.
pub open spec fn same_condition(
    env: EnvironmentModel,
    branch: IfBranchModel,
    row: RowModel,
    planned: ConditionalBranchModel,
) -> bool {
    exists|scope: ScopeModel, notes: NotesModel|
        {
            &&& becomes(env, scope, branch.condition, planned.condition)
            &&& planned.instructions == #[trigger] lower_row(
                env,
                branch.body,
                0,
                row,
                scope,
                notes,
                Seq::empty(),
                false,
            ).instructions
        }
}

proof fn lemma_if_branches(
    env: EnvironmentModel,
    branches: Seq<IfBranchModel>,
    from: int,
    row: RowModel,
    scope: ScopeModel,
    notes: NotesModel,
    done: Seq<ConditionalBranchModel>,
    returned: bool,
    at: int,
)
    requires
        0 <= from <= branches.len(),
        done.len() <= from,
        done.len() == from && 0 <= at < from ==> same_condition(env, branches[at], row, done[at]),
    ensures
        ({
            let found = lower_if_branches(
                env,
                branches,
                from,
                row,
                scope,
                notes,
                done,
                returned,
            ).0;
            &&& found.len() <= done.len() + branches.len() - from
            &&& found.len() == branches.len() && 0 <= at < branches.len() ==> same_condition(
                env,
                branches[at],
                row,
                found[at],
            )
        }),
    decreases branches.len() - from,
{
    if from < branches.len() {
        let (condition, noted) = lower_expression(env, branches[from].condition, scope, notes);
        let checked = match condition {
            Some(condition) => noted.unless(
                crate::lowering::may_be(condition, ValueType::Boolean),
                "if condition must be boolean"@,
                condition.span,
            ),
            None => noted,
        };
        let body = lower_row(
            env,
            branches[from].body,
            0,
            row,
            scope,
            checked,
            Seq::empty(),
            false,
        );
        let more = match condition {
            Some(condition) => done.push(
                ConditionalBranchModel { condition, instructions: body.instructions },
            ),
            None => done,
        };
        if let Some(found) = condition {
            assert(becomes(env, scope, branches[from].condition, found));
            assert(same_condition(
                env,
                branches[from],
                row,
                ConditionalBranchModel { condition: found, instructions: body.instructions },
            ));
        }
        lemma_if_branches(
            env,
            branches,
            from + 1,
            row,
            scope.at_slots(body.slots),
            body.notes,
            more,
            returned && body.returned,
            at,
        );
    }
}

/// The branches of a compiled `if` have the conditions and the bodies that were
/// written, in their order.
pub proof fn law_conditions_keep_their_bodies(
    env: EnvironmentModel,
    branches: Seq<IfBranchModel>,
    else_body: Option<Seq<StatementModel>>,
    span: Span,
    last: bool,
    row: RowModel,
    scope: ScopeModel,
    notes: NotesModel,
    at: int,
)
    requires
        0 <= at < branches.len(),
    ensures
        lower_statement(
            env,
            StatementModel::If { branches, else_body, span },
            last,
            row,
            scope,
            notes,
        ).instruction matches Some(InstructionModel::If { branches: planned, else_body: _ }) && (
        planned.len() == branches.len() ==> same_condition(
            env,
            branches[at],
            RowModel { block: row.block, tail: row.tail && last, top: false },
            planned[at],
        )),
{
    let inner = RowModel { block: row.block, tail: row.tail && last, top: false };
    lemma_if_branches(env, branches, 0, inner, scope, notes, Seq::empty(), true, at);
}

proof fn lemma_row(
    env: EnvironmentModel,
    statements: Seq<StatementModel>,
    from: int,
    row: RowModel,
    scope: ScopeModel,
    notes: NotesModel,
    done: Seq<InstructionModel>,
    returned: bool,
)
    requires
        0 <= from <= statements.len(),
    ensures
        ({
            let found = lower_row(
                env,
                statements,
                from,
                row,
                scope,
                notes,
                done,
                returned,
            ).instructions;
            &&& done.len() <= found.len()
            &&& found.take(done.len() as int) == done
        }),
    decreases statements.len() - from,
{
    if from >= statements.len() {
        assert(done.take(done.len() as int) =~= done);
    } else if returned {
        lemma_row(
            env,
            statements,
            from + 1,
            row,
            scope,
            notes.with(
                "statement is unreachable because the flow already returned"@,
                statements[from].span(),
            ),
            done,
            returned,
        );
    } else {
        let result = lower_statement(
            env,
            statements[from],
            from + 1 == statements.len(),
            row,
            scope,
            notes,
        );
        let more = match result.instruction {
            Some(instruction) => done.push(instruction),
            None => done,
        };
        lemma_row(
            env,
            statements,
            from + 1,
            row,
            result.scope,
            result.notes,
            more,
            result.returned,
        );
        let found = lower_row(
            env,
            statements,
            from,
            row,
            scope,
            notes,
            done,
            returned,
        ).instructions;
        assert(found.take(done.len() as int) =~= found.take(more.len() as int).take(
            done.len() as int,
        ));
        assert(more.take(done.len() as int) =~= done);
    }
}

/// The instructions of a row stand in the order of its statements: what the next
/// statement becomes stands right behind what those before it became, and the
/// ones after it see the names that it bound.
pub proof fn law_statements_keep_their_order(
    env: EnvironmentModel,
    statements: Seq<StatementModel>,
    from: int,
    row: RowModel,
    scope: ScopeModel,
    notes: NotesModel,
    done: Seq<InstructionModel>,
)
    requires
        0 <= from < statements.len(),
    ensures
        ({
            let next = lower_statement(
                env,
                statements[from],
                from + 1 == statements.len(),
                row,
                scope,
                notes,
            );
            let found = lower_row(
                env,
                statements,
                from,
                row,
                scope,
                notes,
                done,
                false,
            ).instructions;
            &&& done.len() <= found.len() && found.take(done.len() as int) == done
            &&& next.instruction matches Some(instruction) ==> done.len() < found.len() && found[
            done.len() as int] == instruction
        }),
{
    lemma_row(env, statements, from, row, scope, notes, done, false);
    let next = lower_statement(
        env,
        statements[from],
        from + 1 == statements.len(),
        row,
        scope,
        notes,
    );
    if let Some(instruction) = next.instruction {
        let more = done.push(instruction);
        lemma_row(
            env,
            statements,
            from + 1,
            row,
            next.scope,
            next.notes,
            more,
            next.returned,
        );
        let found = lower_row(
            env,
            statements,
            from,
            row,
            scope,
            notes,
            done,
            false,
        ).instructions;
        assert(found.take(more.len() as int)[done.len() as int] == instruction);
    }
}

// ---------------------------------------------------------------------------
// Names

proof fn lemma_visible(
    names: NameTable,
    name: Seq<char>,
    uses: Seq<SpannedModel>,
    from: int,
    found: Seq<Seq<char>>,
)
    requires
        0 <= from <= uses.len(),
        found.no_duplicates(),
        forall|i: int| 0 <= i < found.len() ==> id_of(names, #[trigger] found[i]) is Some,
    ensures
        ({
            let all = visible(names, name, uses, from, found);
            &&& all.no_duplicates()
            &&& found.len() <= all.len()
            &&& forall|i: int| 0 <= i < found.len() ==> all[i] == found[i]
            &&& forall|i: int| 0 <= i < all.len() ==> id_of(names, #[trigger] all[i]) is Some
            &&& forall|i: int|
                found.len() <= i < all.len() ==> exists|k: int|
                    from <= k < uses.len() && #[trigger] all[i] == qualified(
                        #[trigger] uses[k].value,
                        name,
                    )
            &&& forall|k: int|
                from <= k < uses.len() && id_of(names, qualified(uses[k].value, name)) is Some
                    ==> all.contains(qualified(#[trigger] uses[k].value, name))
        }),
    decreases uses.len() - from,
{
    if from < uses.len() {
        let candidate = qualified(uses[from].value, name);
        let more = if id_of(names, candidate) is Some && !found.contains(candidate) {
            found.push(candidate)
        } else {
            found
        };
        assert(more.no_duplicates()) by {
            assert forall|i: int, j: int| 0 <= i < j < more.len() implies more[i] != more[j] by {
                if j == found.len() {
                    assert(found.contains(found[i]));
                }
            }
        }
        lemma_visible(names, name, uses, from + 1, more);
        let all = visible(names, name, uses, from, found);
        assert(all == visible(names, name, uses, from + 1, more));
        assert forall|i: int| found.len() <= i < all.len() implies exists|k: int|
            from <= k < uses.len() && #[trigger] all[i] == qualified(
                #[trigger] uses[k].value,
                name,
            ) by {
            if i < more.len() {
                assert(all[i] == more[i]);
                assert(all[i] == qualified(uses[from].value, name));
            } else {
                let k = choose|k: int|
                    from + 1 <= k < uses.len() && all[i] == qualified(
                        #[trigger] uses[k].value,
                        name,
                    );
                assert(all[i] == qualified(uses[k].value, name));
            }
        }
        assert forall|k: int|
            from <= k < uses.len() && id_of(names, qualified(uses[k].value, name)) is Some implies all.contains(
            qualified(#[trigger] uses[k].value, name),
        ) by {
            if k == from {
                if found.contains(candidate) {
                    let i = choose|i: int| 0 <= i < found.len() && found[i] == candidate;
                    assert(all[i] == candidate);
                } else {
                    assert(more[found.len() as int] == candidate);
                    assert(all[found.len() as int] == candidate);
                }
            }
        }
    }
}

/// Whether a name can be meant by another through the namespaces in use, or as
/// one that belongs to no namespace.
pub open spec fn may_mean(
    names: NameTable,
    name: Seq<char>,
    namespace: Seq<char>,
    uses: Seq<SpannedModel>,
    whole: Seq<char>,
) -> bool {
    &&& id_of(names, whole) is Some
    &&& namespace.len() > 0 && whole == name || exists|k: int|
        0 <= k < uses.len() && whole == qualified(#[trigger] uses[k].value, name)
}

/// A name means the one of its own namespace before all others. Otherwise it
/// means the one name that it can mean; if there is none it is missing, and if
/// there are several it is ambiguous.
pub proof fn law_names_are_resolved(
    names: NameTable,
    name: Seq<char>,
    namespace: Seq<char>,
    uses: Seq<SpannedModel>,
    whole: Seq<char>,
    other: Seq<char>,
)
    ensures
        ({
            let own = id_of(names, qualified(namespace, name));
            let found = resolution(names, name, namespace, uses);
            &&& own matches Some(id) ==> found == ResolutionModel::Found(id)
            &&& own is None && may_mean(names, name, namespace, uses, whole) ==> {
                &&& !(found is Missing)
                &&& found matches ResolutionModel::Found(id) ==> id_of(names, whole) == Some(id)
                &&& other != whole && may_mean(names, name, namespace, uses, other)
                    ==> found is Ambiguous
            }
            &&& own is None && found is Found ==> exists|one: Seq<char>| #[trigger]
                may_mean(names, name, namespace, uses, one) && found == ResolutionModel::Found(
                    id_of(names, one)->0,
                )
        }),
{
    let global = if namespace.len() > 0 && id_of(names, name) is Some {
        seq![name]
    } else {
        Seq::empty()
    };
    lemma_visible(names, name, uses, 0, global);
    let all = visible(names, name, uses, 0, global);
    if id_of(names, qualified(namespace, name)) is None {
        if may_mean(names, name, namespace, uses, whole) {
            lemma_meant(names, name, namespace, uses, whole);
            let i = choose|i: int| 0 <= i < all.len() && all[i] == whole;
            if other != whole && may_mean(names, name, namespace, uses, other) {
                lemma_meant(names, name, namespace, uses, other);
                let j = choose|j: int| 0 <= j < all.len() && all[j] == other;
                assert(i != j);
            }
        }
        if all.len() == 1 {
            let one = all[0];
            if global.len() == 0 {
                let k = choose|k: int|
                    0 <= k < uses.len() && all[0] == qualified(#[trigger] uses[k].value, name);
                assert(one == qualified(uses[k].value, name));
            } else {
                assert(one == global[0]);
            }
            assert(may_mean(names, name, namespace, uses, one));
        }
    }
}

proof fn lemma_meant(
    names: NameTable,
    name: Seq<char>,
    namespace: Seq<char>,
    uses: Seq<SpannedModel>,
    whole: Seq<char>,
)
    requires
        may_mean(names, name, namespace, uses, whole),
    ensures
        visible(
            names,
            name,
            uses,
            0,
            (if namespace.len() > 0 && id_of(names, name) is Some {
                seq![name]
            } else {
                Seq::empty()
            }),
        ).contains(whole),
{
    let global = if namespace.len() > 0 && id_of(names, name) is Some {
        seq![name]
    } else {
        Seq::empty()
    };
    lemma_visible(names, name, uses, 0, global);
    let all = visible(names, name, uses, 0, global);
    if namespace.len() > 0 && whole == name {
        assert(all[0] == global[0]);
    } else {
        let k = choose|k: int|
            0 <= k < uses.len() && whole == qualified(#[trigger] uses[k].value, name);
        assert(all.contains(qualified(uses[k].value, name)));
    }
}

/// The names of a program are those of its flows and contexts, in their
/// namespaces; each stands for the last declaration of that name. Tests have no
/// name to be called by.
pub proof fn law_names_stand_for_declarations(
    flows: Seq<MettleDeclModel>,
    contexts: Seq<ContextDeclModel>,
    count: int,
    whole: Seq<char>,
)
    requires
        0 <= count,
    ensures
        count <= flows.len() ==> (id_of(flow_table(flows, count), whole) matches Some(id) ==> {
            &&& 0 <= id < count
            &&& flows[id].kind == DeclarationKind::Flow
            &&& flows[id].name matches Some(name) && whole == qualified(
                flows[id].namespace,
                name.value,
            )
            &&& forall|i: int|
                id < i < count && (#[trigger] flows[i]).kind == DeclarationKind::Flow ==> (
                flows[i].name matches Some(name) ==> whole != qualified(
                    flows[i].namespace,
                    name.value,
                ))
        }),
        count <= flows.len() && id_of(flow_table(flows, count), whole) is None ==> forall|i: int|
            0 <= i < count && (#[trigger] flows[i]).kind == DeclarationKind::Flow ==> (
            flows[i].name matches Some(name) ==> whole != qualified(
                flows[i].namespace,
                name.value,
            )),
        count <= contexts.len() ==> (id_of(context_table(contexts, count), whole) matches Some(id)
            ==> {
            &&& 0 <= id < count
            &&& contexts[id].name matches Some(name) && whole == qualified(
                contexts[id].namespace,
                name.value,
            )
        }),
    decreases count,
{
    if count > 0 {
        law_names_stand_for_declarations(flows, contexts, count - 1, whole);
        if count <= flows.len() {
            let flow = flows[count - 1];
            if let Some(name) = flow.name {
                if flow.kind == DeclarationKind::Flow {
                    let table = flow_table(flows, count - 1);
                    assert(flow_table(flows, count).drop_last() =~= table);
                }
            }
        }
        if count <= contexts.len() {
            let context = contexts[count - 1];
            if let Some(name) = context.name {
                let table = context_table(contexts, count - 1);
                assert(context_table(contexts, count).drop_last() =~= table);
            }
        }
    }
}

/// Inside a flow, a parameter stands for the slot of its place among the
/// parameters, so long as no other has its name.
pub proof fn law_parameters_have_their_slots(
    parameters: Seq<SpannedModel>,
    count: int,
    at: int,
)
    requires
        0 <= at < count <= parameters.len(),
        forall|i: int|
            0 <= i < count && i != at ==> (#[trigger] parameters[i]).value != parameters[at].value,
    ensures
        id_of(parameter_table(parameters, count), parameters[at].value) == Some(at),
    decreases count,
{
    let table = parameter_table(parameters, count - 1);
    assert(parameter_table(parameters, count).drop_last() =~= table);
    if at < count - 1 {
        law_parameters_have_their_slots(parameters, count - 1, at);
    }
}

/// An option takes values of the type that it is called by. Any value but a span
/// of time can be a document.
pub proof fn law_options_take_what_they_say(found: ValueType, expected: SchemaTypeModel)
    ensures
        expected is Boolean || expected is Bytes || expected is Duration || expected is Integer
            || expected is String || expected is Object ==> (fits(found, expected)
            <==> found.called() == expected.name()),
        expected is StringMap ==> (fits(found, expected) <==> found.called() == "object"@),
        expected is Json ==> (fits(found, expected) <==> found.called() != "duration"@),
{
    reveal_strlit("null");
    reveal_strlit("boolean");
    reveal_strlit("bytes");
    reveal_strlit("integer");
    reveal_strlit("number");
    reveal_strlit("string");
    reveal_strlit("duration");
    reveal_strlit("array");
    reveal_strlit("object");
    reveal_strlit("inferred value");
    assert("null"@.len() == 4 && "boolean"@.len() == 7 && "bytes"@.len() == 5);
    assert("integer"@.len() == 7 && "number"@.len() == 6 && "string"@.len() == 6);
    assert("duration"@.len() == 8 && "array"@.len() == 5 && "object"@.len() == 6);
    assert("inferred value"@.len() == 14);
    assert("boolean"@[0] == 'b' && "integer"@[0] == 'i' && "bytes"@[0] == 'b');
    assert("array"@[0] == 'a' && "number"@[0] == 'n' && "string"@[0] == 's');
    assert("object"@[0] == 'o');
}

} // verus!
