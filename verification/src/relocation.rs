//! Moving a program to another source file of a project.

use vstd::prelude::*;

use crate::syntax::{
    branch_models, context_models, expression_models, field_models, file_context_models,
    flow_models, if_branch_models, member_models, optional_expression_model, optional_spanned_model,
    spanned_models, statement_models, ContextDecl, ContextDeclModel, ContextMember,
    ContextMemberModel, Expression, ExpressionKind, ExpressionKindModel, ExpressionModel,
    FileContextUse, FileContextUseModel, IfBranch, IfBranchModel, MettleDecl, MettleDeclModel,
    ObjectField, ObjectFieldModel, ParallelBranch, ParallelBranchModel, Program, ProgramModel,
    Spanned, SpannedModel, Statement, StatementModel,
};

verus! {

impl SpannedModel {
    pub open spec fn moved(self, source: usize) -> SpannedModel {
        SpannedModel { value: self.value, span: self.span.moved(source) }
    }
}

pub open spec fn moved_name(name: Option<SpannedModel>, source: usize) -> Option<SpannedModel> {
    match name {
        Some(name) => Some(name.moved(source)),
        None => None,
    }
}

pub open spec fn moved_names(names: Seq<SpannedModel>, source: usize) -> Seq<SpannedModel> {
    Seq::new(names.len(), |i: int| names[i].moved(source))
}

pub open spec fn moved_expressions(items: Seq<ExpressionModel>, source: usize) -> Seq<ExpressionModel>
    decreases items,
{
    Seq::new(
        items.len(),
        |i: int|
            if 0 <= i < items.len() {
                items[i].moved(source)
            } else {
                arbitrary()
            },
    )
}

pub open spec fn moved_fields(items: Seq<ObjectFieldModel>, source: usize) -> Seq<ObjectFieldModel>
    decreases items,
{
    Seq::new(
        items.len(),
        |i: int|
            if 0 <= i < items.len() {
                items[i].moved(source)
            } else {
                arbitrary()
            },
    )
}

pub open spec fn moved_statements(items: Seq<StatementModel>, source: usize) -> Seq<StatementModel>
    decreases items,
{
    Seq::new(
        items.len(),
        |i: int|
            if 0 <= i < items.len() {
                items[i].moved(source)
            } else {
                arbitrary()
            },
    )
}

pub open spec fn moved_if_branches(items: Seq<IfBranchModel>, source: usize) -> Seq<IfBranchModel>
    decreases items,
{
    Seq::new(
        items.len(),
        |i: int|
            if 0 <= i < items.len() {
                items[i].moved(source)
            } else {
                arbitrary()
            },
    )
}

pub open spec fn moved_branches(items: Seq<ParallelBranchModel>, source: usize) -> Seq<ParallelBranchModel>
    decreases items,
{
    Seq::new(
        items.len(),
        |i: int|
            if 0 <= i < items.len() {
                items[i].moved(source)
            } else {
                arbitrary()
            },
    )
}

pub open spec fn moved_optional(
    expression: Option<Box<ExpressionModel>>,
    source: usize,
) -> Option<Box<ExpressionModel>>
    decreases expression,
{
    match expression {
        Some(expression) => Some(Box::new((*expression).moved(source))),
        None => None,
    }
}

impl ObjectFieldModel {
    pub open spec fn moved(self, source: usize) -> ObjectFieldModel
        decreases self,
    {
        ObjectFieldModel {
            name: self.name.moved(source),
            expression: self.expression.moved(source),
            span: self.span.moved(source),
        }
    }
}

impl IfBranchModel {
    pub open spec fn moved(self, source: usize) -> IfBranchModel
        decreases self,
    {
        IfBranchModel {
            condition: self.condition.moved(source),
            body: moved_statements(self.body, source),
            span: self.span.moved(source),
        }
    }
}

impl ParallelBranchModel {
    pub open spec fn moved(self, source: usize) -> ParallelBranchModel
        decreases self,
    {
        ParallelBranchModel {
            name: moved_name(self.name, source),
            expression: self.expression.moved(source),
        }
    }
}

impl StatementModel {
    /// The same statement with every span in source file `source`.
    pub open spec fn moved(self, source: usize) -> StatementModel
        decreases self,
    {
        match self {
            StatementModel::If { branches, else_body, span } => StatementModel::If {
                branches: moved_if_branches(branches, source),
                else_body: match else_body {
                    Some(body) => Some(moved_statements(body, source)),
                    None => None,
                },
                span: span.moved(source),
            },
            StatementModel::UseContext { name, span } => StatementModel::UseContext {
                name: name.moved(source),
                span: span.moved(source),
            },
            StatementModel::Bind { name, expression, span } => StatementModel::Bind {
                name: name.moved(source),
                expression: expression.moved(source),
                span: span.moved(source),
            },
            StatementModel::Return { expression, span } => StatementModel::Return {
                expression: expression.moved(source),
                span: span.moved(source),
            },
            StatementModel::Assert { expression, message, span } => StatementModel::Assert {
                expression: expression.moved(source),
                message: match message {
                    Some(message) => Some(message.moved(source)),
                    None => None,
                },
                span: span.moved(source),
            },
            StatementModel::Expression(expression) => StatementModel::Expression(
                expression.moved(source),
            ),
        }
    }
}

impl ExpressionModel {
    /// The same expression with every span in source file `source`.
    pub open spec fn moved(self, source: usize) -> ExpressionModel
        decreases self,
    {
        ExpressionModel { kind: self.kind.moved(source), span: self.span.moved(source) }
    }
}

impl ExpressionKindModel {
    #[verifier::opaque]
    pub open spec fn moved(self, source: usize) -> ExpressionKindModel
        decreases self,
    {
        match self {
            ExpressionKindModel::Array(values) => ExpressionKindModel::Array(
                moved_expressions(values, source),
            ),
            ExpressionKindModel::Object(fields) => ExpressionKindModel::Object(
                moved_fields(fields, source),
            ),
            ExpressionKindModel::Block(statements) => ExpressionKindModel::Block(
                moved_statements(statements, source),
            ),
            ExpressionKindModel::Fail(message) => ExpressionKindModel::Fail(
                Box::new((*message).moved(source)),
            ),
            ExpressionKindModel::For { key, value, iterable, body } => ExpressionKindModel::For {
                key: moved_name(key, source),
                value: value.moved(source),
                iterable: Box::new((*iterable).moved(source)),
                body: moved_statements(body, source),
            },
            ExpressionKindModel::Call { callee, arguments, named_arguments, options } =>
                ExpressionKindModel::Call {
                    callee: callee.moved(source),
                    arguments: moved_expressions(arguments, source),
                    named_arguments: moved_fields(named_arguments, source),
                    options: moved_fields(options, source),
                },
            ExpressionKindModel::Member { value, member } => ExpressionKindModel::Member {
                value: Box::new((*value).moved(source)),
                member: member.moved(source),
            },
            ExpressionKindModel::Index { value, index } => ExpressionKindModel::Index {
                value: Box::new((*value).moved(source)),
                index: Box::new((*index).moved(source)),
            },
            ExpressionKindModel::Not(value) => ExpressionKindModel::Not(
                Box::new((*value).moved(source)),
            ),
            ExpressionKindModel::Negate(value) => ExpressionKindModel::Negate(
                Box::new((*value).moved(source)),
            ),
            ExpressionKindModel::Binary { left, operator, right } => ExpressionKindModel::Binary {
                left: Box::new((*left).moved(source)),
                operator,
                right: Box::new((*right).moved(source)),
            },
            ExpressionKindModel::Within { timeout, body } => ExpressionKindModel::Within {
                timeout: Box::new((*timeout).moved(source)),
                body: Box::new((*body).moved(source)),
            },
            ExpressionKindModel::Retry { attempts, delay, body } => ExpressionKindModel::Retry {
                attempts: Box::new((*attempts).moved(source)),
                delay: moved_optional(delay, source),
                body: Box::new((*body).moved(source)),
            },
            ExpressionKindModel::Parallel { limit, branches } => ExpressionKindModel::Parallel {
                limit: moved_optional(limit, source),
                branches: moved_branches(branches, source),
            },
            ExpressionKindModel::Rate { target, period, duration, limit, body } =>
                ExpressionKindModel::Rate {
                    target: Box::new((*target).moved(source)),
                    period: Box::new((*period).moved(source)),
                    duration: Box::new((*duration).moved(source)),
                    limit: moved_optional(limit, source),
                    body: Box::new((*body).moved(source)),
                },
            ExpressionKindModel::Concurrency { limit, duration, body } =>
                ExpressionKindModel::Concurrency {
                    limit: Box::new((*limit).moved(source)),
                    duration: Box::new((*duration).moved(source)),
                    body: Box::new((*body).moved(source)),
                },
            _ => self,
        }
    }
}

impl ContextMemberModel {
    pub open spec fn moved(self, source: usize) -> ContextMemberModel {
        match self {
            ContextMemberModel::UseContext { name, span } => ContextMemberModel::UseContext {
                name: name.moved(source),
                span: span.moved(source),
            },
            ContextMemberModel::Field(field) => ContextMemberModel::Field(field.moved(source)),
            ContextMemberModel::Defaults { capability, fields, span } =>
                ContextMemberModel::Defaults {
                    capability: capability.moved(source),
                    fields: moved_fields(fields, source),
                    span: span.moved(source),
                },
        }
    }
}

impl ContextDeclModel {
    pub open spec fn moved(self, source: usize) -> ContextDeclModel {
        ContextDeclModel {
            namespace: self.namespace,
            namespace_uses: moved_names(self.namespace_uses, source),
            name: moved_name(self.name, source),
            members: Seq::new(self.members.len(), |i: int| self.members[i].moved(source)),
            span: self.span.moved(source),
        }
    }
}

impl FileContextUseModel {
    pub open spec fn moved(self, source: usize) -> FileContextUseModel {
        match self {
            FileContextUseModel::Named(name) => FileContextUseModel::Named(name.moved(source)),
            FileContextUseModel::Inline(span) => FileContextUseModel::Inline(span.moved(source)),
        }
    }
}

impl MettleDeclModel {
    pub open spec fn moved(self, source: usize) -> MettleDeclModel {
        MettleDeclModel {
            kind: self.kind,
            namespace: self.namespace,
            namespace_uses: moved_names(self.namespace_uses, source),
            name: moved_name(self.name, source),
            parameters: moved_names(self.parameters, source),
            body: moved_statements(self.body, source),
            span: self.span.moved(source),
        }
    }
}

impl ProgramModel {
    /// The same program with every span in source file `source`.
    pub open spec fn moved(self, source: usize) -> ProgramModel {
        ProgramModel {
            namespace: moved_name(self.namespace, source),
            namespace_uses: moved_names(self.namespace_uses, source),
            contexts: Seq::new(self.contexts.len(), |i: int| self.contexts[i].moved(source)),
            file_contexts: Seq::new(
                self.file_contexts.len(),
                |i: int| self.file_contexts[i].moved(source),
            ),
            flows: Seq::new(self.flows.len(), |i: int| self.flows[i].moved(source)),
        }
    }
}

fn set_name_source(name: &mut Spanned<String>, source: usize)
    ensures
        final(name).model() == old(name).model().moved(source),
{
    name.span = name.span.with_source(source);
}

fn set_optional_name_source(name: &mut Option<Spanned<String>>, source: usize)
    ensures
        optional_spanned_model(*final(name)) == moved_name(
            optional_spanned_model(*old(name)),
            source,
        ),
{
    match name {
        Some(name) => set_name_source(name, source),
        None => {},
    }
}

fn set_names_source(items: &mut Vec<Spanned<String>>, source: usize)
    ensures
        spanned_models(final(items)@) == moved_names(spanned_models(old(items)@), source),
{
    let ghost before = items@;
    let count: usize = items.len();
    let mut at: usize = 0;
    while at < count
        invariant
            before == old(items)@,
            count == items@.len(),
            items@.len() == before.len(),
            at <= count,
            forall|i: int|
                0 <= i < at ==> (#[trigger] items@[i]).model() == before[i].model().moved(source),
            forall|i: int| at <= i < count ==> #[trigger] items@[i] == before[i],
        decreases count - at,
    {
        set_name_source(&mut items[at], source);
        at += 1;
    }
    proof {
        assert(spanned_models(items@) =~= moved_names(spanned_models(before), source));
    }
}

fn set_statements_source(items: &mut Vec<Statement>, source: usize)
    ensures
        statement_models(final(items)@) == moved_statements(statement_models(old(items)@), source),
    decreases *old(items),
{
    let ghost before = items@;
    let count: usize = items.len();
    let mut at: usize = 0;
    while at < count
        invariant
            before == old(items)@,
            count == items@.len(),
            items@.len() == before.len(),
            at <= count,
            forall|i: int|
                0 <= i < at ==> (#[trigger] items@[i]).model() == before[i].model().moved(source),
            forall|i: int| at <= i < count ==> #[trigger] items@[i] == before[i],
        decreases count - at,
    {
        proof {
            assert(decreases_to!(*old(items) => old(items)@));
            assert(decreases_to!(before => before[at as int]));
        }
        set_statement_source(&mut items[at], source);
        at += 1;
    }
    proof {
        assert(statement_models(items@) =~= moved_statements(statement_models(before), source));
    }
}

fn set_fields_source(items: &mut Vec<ObjectField>, source: usize)
    ensures
        field_models(final(items)@) == moved_fields(field_models(old(items)@), source),
    decreases *old(items),
{
    let ghost before = items@;
    let count: usize = items.len();
    let mut at: usize = 0;
    while at < count
        invariant
            before == old(items)@,
            count == items@.len(),
            items@.len() == before.len(),
            at <= count,
            forall|i: int|
                0 <= i < at ==> (#[trigger] items@[i]).model() == before[i].model().moved(source),
            forall|i: int| at <= i < count ==> #[trigger] items@[i] == before[i],
        decreases count - at,
    {
        proof {
            assert(decreases_to!(*old(items) => old(items)@));
            assert(decreases_to!(before => before[at as int]));
        }
        set_field_source(&mut items[at], source);
        at += 1;
    }
    proof {
        assert(field_models(items@) =~= moved_fields(field_models(before), source));
    }
}

fn set_expressions_source(items: &mut Vec<Expression>, source: usize)
    ensures
        expression_models(final(items)@) == moved_expressions(
            expression_models(old(items)@),
            source,
        ),
    decreases *old(items),
{
    let ghost before = items@;
    let count: usize = items.len();
    let mut at: usize = 0;
    while at < count
        invariant
            before == old(items)@,
            count == items@.len(),
            items@.len() == before.len(),
            at <= count,
            forall|i: int|
                0 <= i < at ==> (#[trigger] items@[i]).model() == before[i].model().moved(source),
            forall|i: int| at <= i < count ==> #[trigger] items@[i] == before[i],
        decreases count - at,
    {
        proof {
            assert(decreases_to!(*old(items) => old(items)@));
            assert(decreases_to!(before => before[at as int]));
        }
        set_expression_source(&mut items[at], source);
        at += 1;
    }
    proof {
        assert(expression_models(items@) =~= moved_expressions(expression_models(before), source));
    }
}

fn set_if_branches_source(items: &mut Vec<IfBranch>, source: usize)
    ensures
        if_branch_models(final(items)@) == moved_if_branches(if_branch_models(old(items)@), source),
    decreases *old(items),
{
    let ghost before = items@;
    let count: usize = items.len();
    let mut at: usize = 0;
    while at < count
        invariant
            before == old(items)@,
            count == items@.len(),
            items@.len() == before.len(),
            at <= count,
            forall|i: int|
                0 <= i < at ==> (#[trigger] items@[i]).model() == before[i].model().moved(source),
            forall|i: int| at <= i < count ==> #[trigger] items@[i] == before[i],
        decreases count - at,
    {
        proof {
            assert(decreases_to!(*old(items) => old(items)@));
            assert(decreases_to!(before => before[at as int]));
        }
        set_if_branch_source(&mut items[at], source);
        at += 1;
    }
    proof {
        assert(if_branch_models(items@) =~= moved_if_branches(if_branch_models(before), source));
    }
}

fn set_branches_source(items: &mut Vec<ParallelBranch>, source: usize)
    ensures
        branch_models(final(items)@) == moved_branches(branch_models(old(items)@), source),
    decreases *old(items),
{
    let ghost before = items@;
    let count: usize = items.len();
    let mut at: usize = 0;
    while at < count
        invariant
            before == old(items)@,
            count == items@.len(),
            items@.len() == before.len(),
            at <= count,
            forall|i: int|
                0 <= i < at ==> (#[trigger] items@[i]).model() == before[i].model().moved(source),
            forall|i: int| at <= i < count ==> #[trigger] items@[i] == before[i],
        decreases count - at,
    {
        proof {
            assert(decreases_to!(*old(items) => old(items)@));
            assert(decreases_to!(before => before[at as int]));
        }
        set_branch_source(&mut items[at], source);
        at += 1;
    }
    proof {
        assert(branch_models(items@) =~= moved_branches(branch_models(before), source));
    }
}

fn set_if_branch_source(branch: &mut IfBranch, source: usize)
    ensures
        final(branch).model() == old(branch).model().moved(source),
    decreases *old(branch),
{
    branch.span = branch.span.with_source(source);
    set_expression_source(&mut branch.condition, source);
    set_statements_source(&mut branch.body, source);
}

fn set_branch_source(branch: &mut ParallelBranch, source: usize)
    ensures
        final(branch).model() == old(branch).model().moved(source),
    decreases *old(branch),
{
    set_optional_name_source(&mut branch.name, source);
    set_expression_source(&mut branch.expression, source);
}

fn set_field_source(field: &mut ObjectField, source: usize)
    ensures
        final(field).model() == old(field).model().moved(source),
    decreases *old(field),
{
    field.span = field.span.with_source(source);
    set_name_source(&mut field.name, source);
    set_expression_source(&mut field.expression, source);
}

fn set_optional_source(expression: &mut Option<Box<Expression>>, source: usize)
    ensures
        optional_expression_model(*final(expression)) == moved_optional(
            optional_expression_model(*old(expression)),
            source,
        ),
    decreases *old(expression),
{
    match expression {
        Some(expression) => set_expression_source(&mut **expression, source),
        None => {},
    }
}

fn set_statement_source(statement: &mut Statement, source: usize)
    ensures
        final(statement).model() == old(statement).model().moved(source),
    decreases *old(statement),
{
    match statement {
        Statement::If { branches, else_body, span } => {
            *span = span.with_source(source);
            set_if_branches_source(branches, source);
            match else_body {
                Some(body) => set_statements_source(body, source),
                None => {},
            }
        },
        Statement::UseContext { name, span } => {
            *span = span.with_source(source);
            set_name_source(name, source);
        },
        Statement::Bind { name, expression, span } => {
            *span = span.with_source(source);
            set_name_source(name, source);
            set_expression_source(expression, source);
        },
        Statement::Return { expression, span } => {
            *span = span.with_source(source);
            set_expression_source(expression, source);
        },
        Statement::Assert { expression, message, span } => {
            *span = span.with_source(source);
            set_expression_source(expression, source);
            match message {
                Some(message) => set_expression_source(message, source),
                None => {},
            }
        },
        Statement::Expression(expression) => set_expression_source(expression, source),
    }
}

fn set_expression_source(expression: &mut Expression, source: usize)
    ensures
        final(expression).model() == old(expression).model().moved(source),
    decreases *old(expression),
{
    proof {
        reveal(ExpressionKind::model);
        reveal(ExpressionKindModel::moved);
    }
    expression.span = expression.span.with_source(source);
    match &mut expression.kind {
        ExpressionKind::Array(values) => set_expressions_source(values, source),
        ExpressionKind::Object(fields) => set_fields_source(fields, source),
        ExpressionKind::Block(statements) => set_statements_source(statements, source),
        ExpressionKind::Fail(value) => set_expression_source(&mut **value, source),
        ExpressionKind::Not(value) => set_expression_source(&mut **value, source),
        ExpressionKind::Negate(value) => set_expression_source(&mut **value, source),
        ExpressionKind::For { key, value, iterable, body } => {
            set_optional_name_source(key, source);
            set_name_source(value, source);
            set_expression_source(&mut **iterable, source);
            set_statements_source(body, source);
        },
        ExpressionKind::Call { callee, arguments, named_arguments, options } => {
            set_name_source(callee, source);
            set_expressions_source(arguments, source);
            set_fields_source(named_arguments, source);
            set_fields_source(options, source);
        },
        ExpressionKind::Member { value, member } => {
            set_expression_source(&mut **value, source);
            set_name_source(member, source);
        },
        ExpressionKind::Index { value, index } => {
            set_expression_source(&mut **value, source);
            set_expression_source(&mut **index, source);
        },
        ExpressionKind::Binary { left, right, .. } => {
            set_expression_source(&mut **left, source);
            set_expression_source(&mut **right, source);
        },
        ExpressionKind::Within { timeout, body } => {
            set_expression_source(&mut **timeout, source);
            set_expression_source(&mut **body, source);
        },
        ExpressionKind::Retry { attempts, delay, body } => {
            set_expression_source(&mut **attempts, source);
            set_optional_source(delay, source);
            set_expression_source(&mut **body, source);
        },
        ExpressionKind::Parallel { limit, branches } => {
            set_optional_source(limit, source);
            set_branches_source(branches, source);
        },
        ExpressionKind::Rate { target, period, duration, limit, body } => {
            set_expression_source(&mut **target, source);
            set_expression_source(&mut **period, source);
            set_expression_source(&mut **duration, source);
            set_optional_source(limit, source);
            set_expression_source(&mut **body, source);
        },
        ExpressionKind::Concurrency { limit, duration, body } => {
            set_expression_source(&mut **limit, source);
            set_expression_source(&mut **duration, source);
            set_expression_source(&mut **body, source);
        },
        ExpressionKind::Null => {},
        ExpressionKind::Boolean(_) => {},
        ExpressionKind::Integer(_) => {},
        ExpressionKind::Float(_) => {},
        ExpressionKind::String(_) => {},
        ExpressionKind::DurationNanos(_) => {},
        ExpressionKind::Name(_) => {},
    }
}

fn set_member_source(member: &mut ContextMember, source: usize)
    ensures
        final(member).model() == old(member).model().moved(source),
{
    match member {
        ContextMember::UseContext { name, span } => {
            *span = span.with_source(source);
            set_name_source(name, source);
        },
        ContextMember::Field(field) => set_field_source(field, source),
        ContextMember::Defaults { capability, fields, span } => {
            *span = span.with_source(source);
            set_name_source(capability, source);
            set_fields_source(fields, source);
        },
    }
}

fn set_members_source(items: &mut Vec<ContextMember>, source: usize)
    ensures
        member_models(final(items)@) == Seq::new(member_models(old(items)@).len(), |i: int| member_models(old(items)@)[i].moved(source)),
{
    let ghost before = items@;
    let count: usize = items.len();
    let mut at: usize = 0;
    while at < count
        invariant
            before == old(items)@,
            count == items@.len(),
            items@.len() == before.len(),
            at <= count,
            forall|i: int|
                0 <= i < at ==> (#[trigger] items@[i]).model() == before[i].model().moved(source),
            forall|i: int| at <= i < count ==> #[trigger] items@[i] == before[i],
        decreases count - at,
    {
        set_member_source(&mut items[at], source);
        at += 1;
    }
    proof {
        assert(member_models(items@) =~= Seq::new(member_models(before).len(), |i: int| member_models(old(items)@)[i].moved(source)));
    }
}

fn set_context_source(context: &mut ContextDecl, source: usize)
    ensures
        final(context).model() == old(context).model().moved(source),
{
    context.span = context.span.with_source(source);
    set_optional_name_source(&mut context.name, source);
    set_names_source(&mut context.namespace_uses, source);
    set_members_source(&mut context.members, source);
}

fn set_file_context_source(context: &mut FileContextUse, source: usize)
    ensures
        final(context).model() == old(context).model().moved(source),
{
    match context {
        FileContextUse::Named(name) => set_name_source(name, source),
        FileContextUse::Inline(span) => {
            *span = span.with_source(source);
        },
    }
}

fn set_flow_source(flow: &mut MettleDecl, source: usize)
    ensures
        final(flow).model() == old(flow).model().moved(source),
{
    flow.span = flow.span.with_source(source);
    set_optional_name_source(&mut flow.name, source);
    set_names_source(&mut flow.namespace_uses, source);
    set_names_source(&mut flow.parameters, source);
    set_statements_source(&mut flow.body, source);
}

fn set_contexts_source(items: &mut Vec<ContextDecl>, source: usize)
    ensures
        context_models(final(items)@) == Seq::new(context_models(old(items)@).len(), |i: int| context_models(old(items)@)[i].moved(source)),
{
    let ghost before = items@;
    let count: usize = items.len();
    let mut at: usize = 0;
    while at < count
        invariant
            before == old(items)@,
            count == items@.len(),
            items@.len() == before.len(),
            at <= count,
            forall|i: int|
                0 <= i < at ==> (#[trigger] items@[i]).model() == before[i].model().moved(source),
            forall|i: int| at <= i < count ==> #[trigger] items@[i] == before[i],
        decreases count - at,
    {
        set_context_source(&mut items[at], source);
        at += 1;
    }
    proof {
        assert(context_models(items@) =~= Seq::new(context_models(before).len(), |i: int| context_models(old(items)@)[i].moved(source)));
    }
}

fn set_file_contexts_source(items: &mut Vec<FileContextUse>, source: usize)
    ensures
        file_context_models(final(items)@) == Seq::new(file_context_models(old(items)@).len(), |i: int| file_context_models(old(items)@)[i].moved(source)),
{
    let ghost before = items@;
    let count: usize = items.len();
    let mut at: usize = 0;
    while at < count
        invariant
            before == old(items)@,
            count == items@.len(),
            items@.len() == before.len(),
            at <= count,
            forall|i: int|
                0 <= i < at ==> (#[trigger] items@[i]).model() == before[i].model().moved(source),
            forall|i: int| at <= i < count ==> #[trigger] items@[i] == before[i],
        decreases count - at,
    {
        set_file_context_source(&mut items[at], source);
        at += 1;
    }
    proof {
        assert(file_context_models(items@) =~= Seq::new(file_context_models(before).len(), |i: int| file_context_models(old(items)@)[i].moved(source)));
    }
}

fn set_flows_source(items: &mut Vec<MettleDecl>, source: usize)
    ensures
        flow_models(final(items)@) == Seq::new(flow_models(old(items)@).len(), |i: int| flow_models(old(items)@)[i].moved(source)),
{
    let ghost before = items@;
    let count: usize = items.len();
    let mut at: usize = 0;
    while at < count
        invariant
            before == old(items)@,
            count == items@.len(),
            items@.len() == before.len(),
            at <= count,
            forall|i: int|
                0 <= i < at ==> (#[trigger] items@[i]).model() == before[i].model().moved(source),
            forall|i: int| at <= i < count ==> #[trigger] items@[i] == before[i],
        decreases count - at,
    {
        set_flow_source(&mut items[at], source);
        at += 1;
    }
    proof {
        assert(flow_models(items@) =~= Seq::new(flow_models(before).len(), |i: int| flow_models(old(items)@)[i].moved(source)));
    }
}

impl Program {
    /// Marks every span of the program as lying in source file `source`.
    pub fn set_source(&mut self, source: usize)
        ensures
            final(self).model() == old(self).model().moved(source),
    {
        set_optional_name_source(&mut self.namespace, source);
        set_names_source(&mut self.namespace_uses, source);
        set_contexts_source(&mut self.contexts, source);
        set_file_contexts_source(&mut self.file_contexts, source);
        set_flows_source(&mut self.flows, source);
    }
}

// ---------------------------------------------------------------------------
// Laws

proof fn lemma_expression_moved_twice(expression: ExpressionModel, first: usize, second: usize)
    ensures
        expression.moved(first).moved(second) == expression.moved(second),
    decreases expression,
{
    reveal(ExpressionKindModel::moved);
    match expression.kind {
        ExpressionKindModel::Array(values) => lemma_expressions_moved_twice(values, first, second),
        ExpressionKindModel::Object(fields) => lemma_fields_moved_twice(fields, first, second),
        ExpressionKindModel::Block(statements) => lemma_statements_moved_twice(
            statements,
            first,
            second,
        ),
        ExpressionKindModel::Fail(value) => lemma_expression_moved_twice(*value, first, second),
        ExpressionKindModel::Not(value) => lemma_expression_moved_twice(*value, first, second),
        ExpressionKindModel::Negate(value) => lemma_expression_moved_twice(*value, first, second),
        ExpressionKindModel::For { key, value, iterable, body } => {
            lemma_expression_moved_twice(*iterable, first, second);
            lemma_statements_moved_twice(body, first, second);
        },
        ExpressionKindModel::Call { callee, arguments, named_arguments, options } => {
            lemma_expressions_moved_twice(arguments, first, second);
            lemma_fields_moved_twice(named_arguments, first, second);
            lemma_fields_moved_twice(options, first, second);
        },
        ExpressionKindModel::Member { value, member } => lemma_expression_moved_twice(
            *value,
            first,
            second,
        ),
        ExpressionKindModel::Index { value, index } => {
            lemma_expression_moved_twice(*value, first, second);
            lemma_expression_moved_twice(*index, first, second);
        },
        ExpressionKindModel::Binary { left, operator, right } => {
            lemma_expression_moved_twice(*left, first, second);
            lemma_expression_moved_twice(*right, first, second);
        },
        ExpressionKindModel::Within { timeout, body } => {
            lemma_expression_moved_twice(*timeout, first, second);
            lemma_expression_moved_twice(*body, first, second);
        },
        ExpressionKindModel::Retry { attempts, delay, body } => {
            lemma_expression_moved_twice(*attempts, first, second);
            lemma_optional_moved_twice(delay, first, second);
            lemma_expression_moved_twice(*body, first, second);
        },
        ExpressionKindModel::Parallel { limit, branches } => {
            lemma_optional_moved_twice(limit, first, second);
            lemma_branches_moved_twice(branches, first, second);
        },
        ExpressionKindModel::Rate { target, period, duration, limit, body } => {
            lemma_expression_moved_twice(*target, first, second);
            lemma_expression_moved_twice(*period, first, second);
            lemma_expression_moved_twice(*duration, first, second);
            lemma_optional_moved_twice(limit, first, second);
            lemma_expression_moved_twice(*body, first, second);
        },
        ExpressionKindModel::Concurrency { limit, duration, body } => {
            lemma_expression_moved_twice(*limit, first, second);
            lemma_expression_moved_twice(*duration, first, second);
            lemma_expression_moved_twice(*body, first, second);
        },
        _ => {},
    }
}

proof fn lemma_optional_moved_twice(
    expression: Option<Box<ExpressionModel>>,
    first: usize,
    second: usize,
)
    ensures
        moved_optional(moved_optional(expression, first), second) == moved_optional(
            expression,
            second,
        ),
    decreases expression,
{
    if let Some(expression) = expression {
        lemma_expression_moved_twice(*expression, first, second);
    }
}

proof fn lemma_statement_moved_twice(statement: StatementModel, first: usize, second: usize)
    ensures
        statement.moved(first).moved(second) == statement.moved(second),
    decreases statement,
{
    match statement {
        StatementModel::If { branches, else_body, span } => {
            lemma_if_branches_moved_twice(branches, first, second);
            if let Some(body) = else_body {
                lemma_statements_moved_twice(body, first, second);
            }
        },
        StatementModel::UseContext { name, span } => {},
        StatementModel::Bind { name, expression, span } => lemma_expression_moved_twice(
            expression,
            first,
            second,
        ),
        StatementModel::Return { expression, span } => lemma_expression_moved_twice(
            expression,
            first,
            second,
        ),
        StatementModel::Assert { expression, message, span } => {
            lemma_expression_moved_twice(expression, first, second);
            if let Some(message) = message {
                lemma_expression_moved_twice(message, first, second);
            }
        },
        StatementModel::Expression(expression) => lemma_expression_moved_twice(
            expression,
            first,
            second,
        ),
    }
}

proof fn lemma_expressions_moved_twice(items: Seq<ExpressionModel>, first: usize, second: usize)
    ensures
        moved_expressions(
            moved_expressions(items, first),
            second,
        ) == moved_expressions(items, second),
    decreases items,
{
    assert forall|i: int| 0 <= i < items.len() implies (
    #[trigger] items[i]).moved(first).moved(second) == items[i].moved(second) by {
        lemma_expression_moved_twice(items[i], first, second);
    }
    assert(
        moved_expressions(
            moved_expressions(items, first),
            second,
        ) =~= moved_expressions(items, second)
    );
}

proof fn lemma_statements_moved_twice(items: Seq<StatementModel>, first: usize, second: usize)
    ensures
        moved_statements(moved_statements(items, first), second) == moved_statements(items, second),
    decreases items,
{
    assert forall|i: int| 0 <= i < items.len() implies (
    #[trigger] items[i]).moved(first).moved(second) == items[i].moved(second) by {
        lemma_statement_moved_twice(items[i], first, second);
    }
    assert(
        moved_statements(
            moved_statements(items, first),
            second,
        ) =~= moved_statements(items, second)
    );
}

proof fn lemma_fields_moved_twice(items: Seq<ObjectFieldModel>, first: usize, second: usize)
    ensures
        moved_fields(moved_fields(items, first), second) == moved_fields(items, second),
    decreases items,
{
    assert forall|i: int| 0 <= i < items.len() implies (
    #[trigger] items[i]).moved(first).moved(second) == items[i].moved(second) by {
        lemma_expression_moved_twice(items[i].expression, first, second);
    }
    assert(moved_fields(moved_fields(items, first), second) =~= moved_fields(items, second));
}

proof fn lemma_branches_moved_twice(items: Seq<ParallelBranchModel>, first: usize, second: usize)
    ensures
        moved_branches(moved_branches(items, first), second) == moved_branches(items, second),
    decreases items,
{
    assert forall|i: int| 0 <= i < items.len() implies (
    #[trigger] items[i]).moved(first).moved(second) == items[i].moved(second) by {
        lemma_expression_moved_twice(items[i].expression, first, second);
    }
    assert(moved_branches(moved_branches(items, first), second) =~= moved_branches(items, second));
}

proof fn lemma_if_branches_moved_twice(items: Seq<IfBranchModel>, first: usize, second: usize)
    ensures
        moved_if_branches(
            moved_if_branches(items, first),
            second,
        ) == moved_if_branches(items, second),
    decreases items,
{
    assert forall|i: int| 0 <= i < items.len() implies (
    #[trigger] items[i]).moved(first).moved(second) == items[i].moved(second) by {
        lemma_expression_moved_twice(items[i].condition, first, second);
        lemma_statements_moved_twice(items[i].body, first, second);
    }
    assert(
        moved_if_branches(
            moved_if_branches(items, first),
            second,
        ) =~= moved_if_branches(items, second)
    );
}

/// Only the last source file that a program was moved to counts.
pub proof fn law_last_source_counts(program: ProgramModel, first: usize, second: usize)
    ensures
        program.moved(first).moved(second) == program.moved(second),
{
    let once = program.moved(second);
    let twice = program.moved(first).moved(second);
    assert(twice.namespace_uses =~= once.namespace_uses);
    assert forall|i: int| 0 <= i < program.contexts.len() implies (
    #[trigger] program.contexts[i]).moved(first).moved(second) == program.contexts[i].moved(
        second,
    ) by {
        let context = program.contexts[i];
        let members = context.members;
        assert(context.moved(first).moved(second).namespace_uses =~= context.moved(
            second,
        ).namespace_uses);
        assert forall|j: int| 0 <= j < members.len() implies (#[trigger] members[j]).moved(
            first,
        ).moved(second) == members[j].moved(second) by {
            match members[j] {
                ContextMemberModel::UseContext { name, span } => {},
                ContextMemberModel::Field(field) => lemma_expression_moved_twice(
                    field.expression,
                    first,
                    second,
                ),
                ContextMemberModel::Defaults { capability, fields, span } =>
                    lemma_fields_moved_twice(fields, first, second),
            }
        }
        assert(context.moved(first).moved(second).members =~= context.moved(second).members);
    }
    assert(twice.contexts =~= once.contexts);
    assert(twice.file_contexts =~= once.file_contexts);
    assert forall|i: int| 0 <= i < program.flows.len() implies (#[trigger] program.flows[i]).moved(
        first,
    ).moved(second) == program.flows[i].moved(second) by {
        let flow = program.flows[i];
        assert(flow.moved(first).moved(second).namespace_uses =~= flow.moved(
            second,
        ).namespace_uses);
        assert(flow.moved(first).moved(second).parameters =~= flow.moved(second).parameters);
        lemma_statements_moved_twice(flow.body, first, second);
    }
    assert(twice.flows =~= once.flows);
}

} // verus!
