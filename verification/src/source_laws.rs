//! Where the spans of a program lie.

use vstd::prelude::*;

use crate::relocation::{
    law_last_source_counts, moved_branches, moved_expressions, moved_fields, moved_if_branches,
    moved_names, moved_optional, moved_statements,
};
use crate::syntax::{
    ContextDeclModel, ContextMemberModel, ExpressionKindModel, ExpressionModel, IfBranchModel,
    MettleDeclModel, ObjectFieldModel, ParallelBranchModel, ProgramModel, SpannedModel,
    StatementModel,
};

verus! {

// ---------------------------------------------------------------------------
// Spans

pub open spec fn name_in(name: SpannedModel, source: usize) -> bool {
    name.span.source == source
}

pub open spec fn optional_name_in(name: Option<SpannedModel>, source: usize) -> bool {
    name matches Some(name) ==> name_in(name, source)
}

pub open spec fn names_in(names: Seq<SpannedModel>, source: usize) -> bool {
    forall|i: int| 0 <= i < names.len() ==> name_in(#[trigger] names[i], source)
}

/// Whether every span of an expression, at any depth, lies in a source file.
pub open spec fn expression_in(expression: ExpressionModel, source: usize) -> bool
    decreases expression,
{
    expression.span.source == source && kind_in(expression.kind, source)
}

pub open spec fn kind_in(kind: ExpressionKindModel, source: usize) -> bool
    decreases kind,
{
    match kind {
        ExpressionKindModel::Array(values) => expressions_in(values, source),
        ExpressionKindModel::Object(fields) => fields_in(fields, source),
        ExpressionKindModel::Block(statements) => statements_in(statements, source),
        ExpressionKindModel::Fail(value) => expression_in(*value, source),
        ExpressionKindModel::Not(value) => expression_in(*value, source),
        ExpressionKindModel::Negate(value) => expression_in(*value, source),
        ExpressionKindModel::For { key, value, iterable, body } => {
            &&& optional_name_in(key, source)
            &&& name_in(value, source)
            &&& expression_in(*iterable, source)
            &&& statements_in(body, source)
        },
        ExpressionKindModel::Call { callee, arguments, named_arguments, options } => {
            &&& name_in(callee, source)
            &&& expressions_in(arguments, source)
            &&& fields_in(named_arguments, source)
            &&& fields_in(options, source)
        },
        ExpressionKindModel::Member { value, member } => {
            &&& expression_in(*value, source)
            &&& name_in(member, source)
        },
        ExpressionKindModel::Index { value, index } => {
            &&& expression_in(*value, source)
            &&& expression_in(*index, source)
        },
        ExpressionKindModel::Binary { left, operator, right } => {
            &&& expression_in(*left, source)
            &&& expression_in(*right, source)
        },
        ExpressionKindModel::Within { timeout, body } => {
            &&& expression_in(*timeout, source)
            &&& expression_in(*body, source)
        },
        ExpressionKindModel::Retry { attempts, delay, body } => {
            &&& expression_in(*attempts, source)
            &&& optional_in(delay, source)
            &&& expression_in(*body, source)
        },
        ExpressionKindModel::Parallel { limit, branches } => {
            &&& optional_in(limit, source)
            &&& branches_in(branches, source)
        },
        ExpressionKindModel::Rate { target, period, duration, limit, body } => {
            &&& expression_in(*target, source)
            &&& expression_in(*period, source)
            &&& expression_in(*duration, source)
            &&& optional_in(limit, source)
            &&& expression_in(*body, source)
        },
        ExpressionKindModel::Concurrency { limit, duration, body } => {
            &&& expression_in(*limit, source)
            &&& expression_in(*duration, source)
            &&& expression_in(*body, source)
        },
        _ => true,
    }
}

pub open spec fn optional_in(expression: Option<Box<ExpressionModel>>, source: usize) -> bool
    decreases expression,
{
    match expression {
        Some(expression) => expression_in(*expression, source),
        None => true,
    }
}

pub open spec fn field_in(field: ObjectFieldModel, source: usize) -> bool
    decreases field,
{
    &&& name_in(field.name, source)
    &&& expression_in(field.expression, source)
    &&& field.span.source == source
}

pub open spec fn branch_in(branch: ParallelBranchModel, source: usize) -> bool
    decreases branch,
{
    optional_name_in(branch.name, source) && expression_in(branch.expression, source)
}

pub open spec fn if_branch_in(branch: IfBranchModel, source: usize) -> bool
    decreases branch,
{
    &&& expression_in(branch.condition, source)
    &&& statements_in(branch.body, source)
    &&& branch.span.source == source
}

pub open spec fn statement_in(statement: StatementModel, source: usize) -> bool
    decreases statement,
{
    match statement {
        StatementModel::If { branches, else_body, span } => {
            &&& if_branches_in(branches, source)
            &&& match else_body {
                Some(body) => statements_in(body, source),
                None => true,
            }
            &&& span.source == source
        },
        StatementModel::UseContext { name, span } => name_in(name, source) && span.source == source,
        StatementModel::Bind { name, expression, span } => {
            &&& name_in(name, source)
            &&& expression_in(expression, source)
            &&& span.source == source
        },
        StatementModel::Return { expression, span } => expression_in(expression, source)
            && span.source == source,
        StatementModel::Assert { expression, message, span } => {
            &&& expression_in(expression, source)
            &&& match message {
                Some(message) => expression_in(message, source),
                None => true,
            }
            &&& span.source == source
        },
        StatementModel::Expression(expression) => expression_in(expression, source),
    }
}

pub open spec fn expressions_in(items: Seq<ExpressionModel>, source: usize) -> bool
    decreases items,
{
    forall|i: int| 0 <= i < items.len() ==> expression_in(#[trigger] items[i], source)
}

pub open spec fn fields_in(items: Seq<ObjectFieldModel>, source: usize) -> bool
    decreases items,
{
    forall|i: int| 0 <= i < items.len() ==> field_in(#[trigger] items[i], source)
}

pub open spec fn branches_in(items: Seq<ParallelBranchModel>, source: usize) -> bool
    decreases items,
{
    forall|i: int| 0 <= i < items.len() ==> branch_in(#[trigger] items[i], source)
}

pub open spec fn if_branches_in(items: Seq<IfBranchModel>, source: usize) -> bool
    decreases items,
{
    forall|i: int| 0 <= i < items.len() ==> if_branch_in(#[trigger] items[i], source)
}

pub open spec fn statements_in(items: Seq<StatementModel>, source: usize) -> bool
    decreases items,
{
    forall|i: int| 0 <= i < items.len() ==> statement_in(#[trigger] items[i], source)
}

pub open spec fn member_in(member: ContextMemberModel, source: usize) -> bool {
    match member {
        ContextMemberModel::UseContext { name, span } => name_in(name, source) && span.source
            == source,
        ContextMemberModel::Field(field) => field_in(field, source),
        ContextMemberModel::Defaults { capability, fields, span } => {
            &&& name_in(capability, source)
            &&& fields_in(fields, source)
            &&& span.source == source
        },
    }
}

pub open spec fn context_in(context: ContextDeclModel, source: usize) -> bool {
    &&& names_in(context.namespace_uses, source)
    &&& optional_name_in(context.name, source)
    &&& forall|i: int|
        0 <= i < context.members.len() ==> member_in(#[trigger] context.members[i], source)
    &&& context.span.source == source
}

pub open spec fn flow_in(flow: MettleDeclModel, source: usize) -> bool {
    &&& names_in(flow.namespace_uses, source)
    &&& optional_name_in(flow.name, source)
    &&& names_in(flow.parameters, source)
    &&& statements_in(flow.body, source)
    &&& flow.span.source == source
}

/// Whether every span of a program lies in a source file.
pub open spec fn program_in(program: ProgramModel, source: usize) -> bool {
    &&& optional_name_in(program.namespace, source)
    &&& names_in(program.namespace_uses, source)
    &&& forall|i: int|
        0 <= i < program.contexts.len() ==> context_in(#[trigger] program.contexts[i], source)
    &&& forall|i: int|
        0 <= i < program.file_contexts.len() ==> (
        #[trigger] program.file_contexts[i]).span().source == source
    &&& forall|i: int|
        0 <= i < program.flows.len() ==> flow_in(#[trigger] program.flows[i], source)
}

// ---------------------------------------------------------------------------
// Moving

proof fn lemma_names(names: Seq<SpannedModel>, source: usize)
    ensures
        names_in(moved_names(names, source), source),
        names_in(names, source) ==> moved_names(names, source) == names,
{
    if names_in(names, source) {
        assert forall|i: int| 0 <= i < names.len() implies (#[trigger] names[i]).moved(source)
            == names[i] by {
            assert(name_in(names[i], source));
        }
        assert(moved_names(names, source) =~= names);
    }
}

proof fn lemma_expression(expression: ExpressionModel, source: usize)
    ensures
        expression_in(expression.moved(source), source),
        expression_in(expression, source) ==> expression.moved(source) == expression,
    decreases expression,
{
    reveal(ExpressionKindModel::moved);
    match expression.kind {
        ExpressionKindModel::Array(values) => {
            lemma_expressions(values, source);
        },
        ExpressionKindModel::Object(fields) => {
            lemma_fields(fields, source);
        },
        ExpressionKindModel::Block(statements) => {
            lemma_statements(statements, source);
        },
        ExpressionKindModel::Fail(value) => {
            lemma_expression(*value, source);
        },
        ExpressionKindModel::Not(value) => {
            lemma_expression(*value, source);
        },
        ExpressionKindModel::Negate(value) => {
            lemma_expression(*value, source);
        },
        ExpressionKindModel::For { key, value, iterable, body } => {
            lemma_expression(*iterable, source);
            lemma_statements(body, source);
        },
        ExpressionKindModel::Call { callee, arguments, named_arguments, options } => {
            lemma_expressions(arguments, source);
            lemma_fields(named_arguments, source);
            lemma_fields(options, source);
        },
        ExpressionKindModel::Member { value, member } => {
            lemma_expression(*value, source);
        },
        ExpressionKindModel::Index { value, index } => {
            lemma_expression(*value, source);
            lemma_expression(*index, source);
        },
        ExpressionKindModel::Binary { left, operator, right } => {
            lemma_expression(*left, source);
            lemma_expression(*right, source);
        },
        ExpressionKindModel::Within { timeout, body } => {
            lemma_expression(*timeout, source);
            lemma_expression(*body, source);
        },
        ExpressionKindModel::Retry { attempts, delay, body } => {
            lemma_expression(*attempts, source);
            lemma_optional(delay, source);
            lemma_expression(*body, source);
        },
        ExpressionKindModel::Parallel { limit, branches } => {
            lemma_optional(limit, source);
            lemma_branches(branches, source);
        },
        ExpressionKindModel::Rate { target, period, duration, limit, body } => {
            lemma_expression(*target, source);
            lemma_expression(*period, source);
            lemma_expression(*duration, source);
            lemma_optional(limit, source);
            lemma_expression(*body, source);
        },
        ExpressionKindModel::Concurrency { limit, duration, body } => {
            lemma_expression(*limit, source);
            lemma_expression(*duration, source);
            lemma_expression(*body, source);
        },
        _ => {},
    }
}

proof fn lemma_optional(expression: Option<Box<ExpressionModel>>, source: usize)
    ensures
        optional_in(moved_optional(expression, source), source),
        optional_in(expression, source) ==> moved_optional(expression, source) == expression,
    decreases expression,
{
    if let Some(expression) = expression {
        lemma_expression(*expression, source);
    }
}

proof fn lemma_field(field: ObjectFieldModel, source: usize)
    ensures
        field_in(field.moved(source), source),
        field_in(field, source) ==> field.moved(source) == field,
    decreases field,
{
    lemma_expression(field.expression, source);
}

proof fn lemma_branch(branch: ParallelBranchModel, source: usize)
    ensures
        branch_in(branch.moved(source), source),
        branch_in(branch, source) ==> branch.moved(source) == branch,
    decreases branch,
{
    lemma_expression(branch.expression, source);
}

proof fn lemma_if_branch(branch: IfBranchModel, source: usize)
    ensures
        if_branch_in(branch.moved(source), source),
        if_branch_in(branch, source) ==> branch.moved(source) == branch,
    decreases branch,
{
    lemma_expression(branch.condition, source);
    lemma_statements(branch.body, source);
}

proof fn lemma_statement(statement: StatementModel, source: usize)
    ensures
        statement_in(statement.moved(source), source),
        statement_in(statement, source) ==> statement.moved(source) == statement,
    decreases statement,
{
    match statement {
        StatementModel::If { branches, else_body, span } => {
            lemma_if_branches(branches, source);
            if let Some(body) = else_body {
                lemma_statements(body, source);
            }
        },
        StatementModel::UseContext { name, span } => {},
        StatementModel::Bind { name, expression, span } => {
            lemma_expression(expression, source);
        },
        StatementModel::Return { expression, span } => {
            lemma_expression(expression, source);
        },
        StatementModel::Assert { expression, message, span } => {
            lemma_expression(expression, source);
            if let Some(message) = message {
                lemma_expression(message, source);
            }
        },
        StatementModel::Expression(expression) => {
            lemma_expression(expression, source);
        },
    }
}

proof fn lemma_expressions(items: Seq<ExpressionModel>, source: usize)
    ensures
        expressions_in(moved_expressions(items, source), source),
        expressions_in(items, source) ==> moved_expressions(items, source) == items,
    decreases items,
{
    let moved = moved_expressions(items, source);
    assert forall|i: int| 0 <= i < items.len() implies expression_in(#[trigger] moved[i], source) && (
    expression_in(items[i], source) ==> moved[i] == items[i]) by {
        lemma_expression(items[i], source);
    }
    if expressions_in(items, source) {
        assert forall|i: int| 0 <= i < items.len() implies moved[i] == items[i] by {
            assert(expression_in(items[i], source));
        }
        assert(moved =~= items);
    }
}

proof fn lemma_fields(items: Seq<ObjectFieldModel>, source: usize)
    ensures
        fields_in(moved_fields(items, source), source),
        fields_in(items, source) ==> moved_fields(items, source) == items,
    decreases items,
{
    let moved = moved_fields(items, source);
    assert forall|i: int| 0 <= i < items.len() implies field_in(#[trigger] moved[i], source) && (
    field_in(items[i], source) ==> moved[i] == items[i]) by {
        lemma_field(items[i], source);
    }
    if fields_in(items, source) {
        assert forall|i: int| 0 <= i < items.len() implies moved[i] == items[i] by {
            assert(field_in(items[i], source));
        }
        assert(moved =~= items);
    }
}

proof fn lemma_branches(items: Seq<ParallelBranchModel>, source: usize)
    ensures
        branches_in(moved_branches(items, source), source),
        branches_in(items, source) ==> moved_branches(items, source) == items,
    decreases items,
{
    let moved = moved_branches(items, source);
    assert forall|i: int| 0 <= i < items.len() implies branch_in(#[trigger] moved[i], source) && (
    branch_in(items[i], source) ==> moved[i] == items[i]) by {
        lemma_branch(items[i], source);
    }
    if branches_in(items, source) {
        assert forall|i: int| 0 <= i < items.len() implies moved[i] == items[i] by {
            assert(branch_in(items[i], source));
        }
        assert(moved =~= items);
    }
}

proof fn lemma_if_branches(items: Seq<IfBranchModel>, source: usize)
    ensures
        if_branches_in(moved_if_branches(items, source), source),
        if_branches_in(items, source) ==> moved_if_branches(items, source) == items,
    decreases items,
{
    let moved = moved_if_branches(items, source);
    assert forall|i: int| 0 <= i < items.len() implies if_branch_in(#[trigger] moved[i], source) && (
    if_branch_in(items[i], source) ==> moved[i] == items[i]) by {
        lemma_if_branch(items[i], source);
    }
    if if_branches_in(items, source) {
        assert forall|i: int| 0 <= i < items.len() implies moved[i] == items[i] by {
            assert(if_branch_in(items[i], source));
        }
        assert(moved =~= items);
    }
}

proof fn lemma_statements(items: Seq<StatementModel>, source: usize)
    ensures
        statements_in(moved_statements(items, source), source),
        statements_in(items, source) ==> moved_statements(items, source) == items,
    decreases items,
{
    let moved = moved_statements(items, source);
    assert forall|i: int| 0 <= i < items.len() implies statement_in(#[trigger] moved[i], source) && (
    statement_in(items[i], source) ==> moved[i] == items[i]) by {
        lemma_statement(items[i], source);
    }
    if statements_in(items, source) {
        assert forall|i: int| 0 <= i < items.len() implies moved[i] == items[i] by {
            assert(statement_in(items[i], source));
        }
        assert(moved =~= items);
    }
}

proof fn lemma_member(member: ContextMemberModel, source: usize)
    ensures
        member_in(member.moved(source), source),
        member_in(member, source) ==> member.moved(source) == member,
{
    match member {
        ContextMemberModel::UseContext { name, span } => {},
        ContextMemberModel::Field(field) => {
            lemma_field(field, source);
        },
        ContextMemberModel::Defaults { capability, fields, span } => {
            lemma_fields(fields, source);
        },
    }
}

proof fn lemma_context(context: ContextDeclModel, source: usize)
    ensures
        context_in(context.moved(source), source),
        context_in(context, source) ==> context.moved(source) == context,
{
    let moved = context.moved(source);
    let members = context.members;
    lemma_names(context.namespace_uses, source);
    assert forall|i: int| 0 <= i < members.len() implies member_in(
        #[trigger] moved.members[i],
        source,
    ) && (member_in(members[i], source) ==> moved.members[i] == members[i]) by {
        lemma_member(members[i], source);
    }
    if context_in(context, source) {
        assert forall|i: int| 0 <= i < members.len() implies moved.members[i] == members[i] by {
            assert(member_in(members[i], source));
        }
        assert(moved.members =~= members);
    }
}

proof fn lemma_flow(flow: MettleDeclModel, source: usize)
    ensures
        flow_in(flow.moved(source), source),
        flow_in(flow, source) ==> flow.moved(source) == flow,
{
    lemma_names(flow.namespace_uses, source);
    lemma_names(flow.parameters, source);
    lemma_statements(flow.body, source);
}

/// Every span of a program that is moved to a source file lies in that file,
/// and a program that lies there already is not changed.
pub proof fn law_moved_programs_lie_in_their_source(program: ProgramModel, source: usize)
    ensures
        program_in(program.moved(source), source),
        program_in(program, source) ==> program.moved(source) == program,
{
    let moved = program.moved(source);
    lemma_names(program.namespace_uses, source);
    assert forall|i: int| 0 <= i < program.contexts.len() implies context_in(
        #[trigger] moved.contexts[i],
        source,
    ) && (context_in(program.contexts[i], source) ==> moved.contexts[i]
        == program.contexts[i]) by {
        lemma_context(program.contexts[i], source);
    }
    assert forall|i: int| 0 <= i < program.flows.len() implies flow_in(
        #[trigger] moved.flows[i],
        source,
    ) && (flow_in(program.flows[i], source) ==> moved.flows[i] == program.flows[i]) by {
        lemma_flow(program.flows[i], source);
    }
    if program_in(program, source) {
        assert forall|i: int| 0 <= i < program.contexts.len() implies moved.contexts[i]
            == program.contexts[i] by {
            assert(context_in(program.contexts[i], source));
        }
        assert forall|i: int| 0 <= i < program.flows.len() implies moved.flows[i]
            == program.flows[i] by {
            assert(flow_in(program.flows[i], source));
        }
        assert forall|i: int| 0 <= i < program.file_contexts.len() implies moved.file_contexts[i]
            == program.file_contexts[i] by {
            assert(program.file_contexts[i].span().source == source);
        }
        assert(moved.contexts =~= program.contexts);
        assert(moved.flows =~= program.flows);
        assert(moved.file_contexts =~= program.file_contexts);
    }
}

/// Moving a program changes nothing but where its spans lie: moved back to the
/// file that it came from, it is what it was.
pub proof fn law_moving_can_be_undone(program: ProgramModel, home: usize, source: usize)
    requires
        program_in(program, home),
    ensures
        program.moved(source).moved(home) == program,
{
    law_last_source_counts(program, source, home);
    law_moved_programs_lie_in_their_source(program, home);
}

} // verus!
