//! Syntax trees and source locations of the Mettle language.
//!
//! Every tree type has a model: the same tree over mathematical sequences,
//! which contracts compare.

use vstd::prelude::*;

use crate::binary64::Binary64;

verus! {

/// A range of bytes in one source file.
#[derive(Clone, Copy, Debug, PartialEq, Eq, Structural)]
pub struct Span {
    pub source: usize,
    pub start: usize,
    pub end: usize,
}

impl Default for Span {
    fn default() -> (span: Span)
        ensures
            span == (Span { source: 0, start: 0, end: 0 }),
    {
        Span { source: 0, start: 0, end: 0 }
    }
}

/// The span from byte `start` to byte `end` of the first source.
pub open spec fn span_of(start: int, end: int) -> Span {
    Span { source: 0, start: start as usize, end: end as usize }
}

impl Span {
    /// The span from where `self` starts to where `other` ends.
    pub open spec fn joined(self, other: Span) -> Span {
        Span { source: self.source, start: self.start, end: other.end }
    }

    /// The same range in source file `source`.
    pub open spec fn moved(self, source: usize) -> Span {
        Span { source, start: self.start, end: self.end }
    }

    #[must_use]
    pub fn new(start: usize, end: usize) -> (span: Span)
        ensures
            span == (Span { source: 0, start, end }),
    {
        Span { source: 0, start, end }
    }

    #[must_use]
    pub fn with_source(self, source: usize) -> (span: Span)
        ensures
            span == self.moved(source),
    {
        Span { source, start: self.start, end: self.end }
    }

    #[must_use]
    pub fn join(self, other: Span) -> (span: Span)
        ensures
            span == self.joined(other),
    {
        Span { source: self.source, start: self.start, end: other.end }
    }
}

/// A value with the place that it was read from.
#[derive(Debug, PartialEq)]
pub struct Spanned<T> {
    pub value: T,
    pub span: Span,
}

/// A piece of text with the place that it was read from.
pub struct SpannedModel {
    pub value: Seq<char>,
    pub span: Span,
}

impl Spanned<String> {
    pub open spec fn model(self) -> SpannedModel {
        SpannedModel { value: self.value@, span: self.span }
    }

    /// The same text and place once more.
    pub fn duplicate(&self) -> (copy: Spanned<String>)
        ensures
            copy.model() == self.model(),
    {
        Spanned { value: self.value.clone(), span: self.span }
    }
}

pub open spec fn spanned_models(names: Seq<Spanned<String>>) -> Seq<SpannedModel> {
    Seq::new(names.len(), |i: int| names[i].model())
}

pub open spec fn optional_spanned_model(name: Option<Spanned<String>>) -> Option<SpannedModel> {
    match name {
        Some(name) => Some(name.model()),
        None => None,
    }
}

/// A whole source file, or several that were put together.
#[derive(Debug, PartialEq)]
pub struct Program {
    pub namespace: Option<Spanned<String>>,
    pub namespace_uses: Vec<Spanned<String>>,
    pub contexts: Vec<ContextDecl>,
    pub file_contexts: Vec<FileContextUse>,
    pub flows: Vec<MettleDecl>,
}

pub struct ProgramModel {
    pub namespace: Option<SpannedModel>,
    pub namespace_uses: Seq<SpannedModel>,
    pub contexts: Seq<ContextDeclModel>,
    pub file_contexts: Seq<FileContextUseModel>,
    pub flows: Seq<MettleDeclModel>,
}

impl Program {
    pub open spec fn model(self) -> ProgramModel {
        ProgramModel {
            namespace: optional_spanned_model(self.namespace),
            namespace_uses: spanned_models(self.namespace_uses@),
            contexts: context_models(self.contexts@),
            file_contexts: file_context_models(self.file_contexts@),
            flows: flow_models(self.flows@),
        }
    }
}

/// A context: immutable values and defaults of capabilities.
#[derive(Debug, PartialEq)]
pub struct ContextDecl {
    pub namespace: String,
    pub namespace_uses: Vec<Spanned<String>>,
    pub name: Option<Spanned<String>>,
    pub members: Vec<ContextMember>,
    pub span: Span,
}

pub struct ContextDeclModel {
    pub namespace: Seq<char>,
    pub namespace_uses: Seq<SpannedModel>,
    pub name: Option<SpannedModel>,
    pub members: Seq<ContextMemberModel>,
    pub span: Span,
}

impl ContextDecl {
    pub open spec fn model(self) -> ContextDeclModel {
        ContextDeclModel {
            namespace: self.namespace@,
            namespace_uses: spanned_models(self.namespace_uses@),
            name: optional_spanned_model(self.name),
            members: member_models(self.members@),
            span: self.span,
        }
    }
}

pub open spec fn context_models(contexts: Seq<ContextDecl>) -> Seq<ContextDeclModel> {
    Seq::new(contexts.len(), |i: int| contexts[i].model())
}

/// A context that a file applies to all its flows and tests.
#[derive(Debug, PartialEq)]
pub enum FileContextUse {
    Named(Spanned<String>),
    Inline(Span),
}

pub enum FileContextUseModel {
    Named(SpannedModel),
    Inline(Span),
}

impl FileContextUseModel {
    pub open spec fn span(self) -> Span {
        match self {
            FileContextUseModel::Named(name) => name.span,
            FileContextUseModel::Inline(span) => span,
        }
    }
}

impl FileContextUse {
    pub open spec fn model(self) -> FileContextUseModel {
        match self {
            FileContextUse::Named(name) => FileContextUseModel::Named(name.model()),
            FileContextUse::Inline(span) => FileContextUseModel::Inline(span),
        }
    }

    #[must_use]
    pub fn span(&self) -> (span: Span)
        ensures
            span == self.model().span(),
    {
        match self {
            FileContextUse::Named(name) => name.span,
            FileContextUse::Inline(span) => *span,
        }
    }
}

pub open spec fn file_context_models(uses: Seq<FileContextUse>) -> Seq<FileContextUseModel> {
    Seq::new(uses.len(), |i: int| uses[i].model())
}

/// One entry of a context.
#[derive(Debug, PartialEq)]
pub enum ContextMember {
    UseContext { name: Spanned<String>, span: Span },
    Field(ObjectField),
    Defaults { capability: Spanned<String>, fields: Vec<ObjectField>, span: Span },
}

pub enum ContextMemberModel {
    UseContext { name: SpannedModel, span: Span },
    Field(ObjectFieldModel),
    Defaults { capability: SpannedModel, fields: Seq<ObjectFieldModel>, span: Span },
}

impl ContextMember {
    pub open spec fn model(self) -> ContextMemberModel {
        match self {
            ContextMember::UseContext { name, span } => ContextMemberModel::UseContext {
                name: name.model(),
                span,
            },
            ContextMember::Field(field) => ContextMemberModel::Field(field.model()),
            ContextMember::Defaults { capability, fields, span } => ContextMemberModel::Defaults {
                capability: capability.model(),
                fields: field_models(fields@),
                span,
            },
        }
    }
}

pub open spec fn member_models(members: Seq<ContextMember>) -> Seq<ContextMemberModel> {
    Seq::new(members.len(), |i: int| members[i].model())
}

/// `name: expression`.
#[derive(Debug, PartialEq)]
pub struct ObjectField {
    pub name: Spanned<String>,
    pub expression: Expression,
    pub span: Span,
}

pub struct ObjectFieldModel {
    pub name: SpannedModel,
    pub expression: ExpressionModel,
    pub span: Span,
}

impl ObjectField {
    pub open spec fn model(self) -> ObjectFieldModel
        decreases self,
    {
        ObjectFieldModel {
            name: self.name.model(),
            expression: self.expression.model(),
            span: self.span,
        }
    }
}

pub open spec fn field_models(fields: Seq<ObjectField>) -> Seq<ObjectFieldModel>
    decreases fields,
{
    Seq::new(
        fields.len(),
        |i: int|
            if 0 <= i < fields.len() {
                fields[i].model()
            } else {
                arbitrary()
            },
    )
}

/// A flow or a test.
#[derive(Debug, PartialEq)]
pub struct MettleDecl {
    pub kind: DeclarationKind,
    pub namespace: String,
    pub namespace_uses: Vec<Spanned<String>>,
    pub name: Option<Spanned<String>>,
    pub parameters: Vec<Spanned<String>>,
    pub body: Vec<Statement>,
    pub span: Span,
}

pub struct MettleDeclModel {
    pub kind: DeclarationKind,
    pub namespace: Seq<char>,
    pub namespace_uses: Seq<SpannedModel>,
    pub name: Option<SpannedModel>,
    pub parameters: Seq<SpannedModel>,
    pub body: Seq<StatementModel>,
    pub span: Span,
}

impl MettleDecl {
    pub open spec fn model(self) -> MettleDeclModel {
        MettleDeclModel {
            kind: self.kind,
            namespace: self.namespace@,
            namespace_uses: spanned_models(self.namespace_uses@),
            name: optional_spanned_model(self.name),
            parameters: spanned_models(self.parameters@),
            body: statement_models(self.body@),
            span: self.span,
        }
    }
}

pub open spec fn flow_models(flows: Seq<MettleDecl>) -> Seq<MettleDeclModel> {
    Seq::new(flows.len(), |i: int| flows[i].model())
}

#[derive(Clone, Copy, Debug, PartialEq, Eq, Structural)]
pub enum DeclarationKind {
    Flow,
    Test,
}

#[derive(Debug, PartialEq)]
pub enum Statement {
    If { branches: Vec<IfBranch>, else_body: Option<Vec<Statement>>, span: Span },
    UseContext { name: Spanned<String>, span: Span },
    Bind { name: Spanned<String>, expression: Expression, span: Span },
    Return { expression: Expression, span: Span },
    Assert { expression: Expression, message: Option<Expression>, span: Span },
    Expression(Expression),
}

pub enum StatementModel {
    If { branches: Seq<IfBranchModel>, else_body: Option<Seq<StatementModel>>, span: Span },
    UseContext { name: SpannedModel, span: Span },
    Bind { name: SpannedModel, expression: ExpressionModel, span: Span },
    Return { expression: ExpressionModel, span: Span },
    Assert { expression: ExpressionModel, message: Option<ExpressionModel>, span: Span },
    Expression(ExpressionModel),
}

impl StatementModel {
    pub open spec fn span(self) -> Span {
        match self {
            StatementModel::If { span, .. } => span,
            StatementModel::UseContext { span, .. } => span,
            StatementModel::Bind { span, .. } => span,
            StatementModel::Return { span, .. } => span,
            StatementModel::Assert { span, .. } => span,
            StatementModel::Expression(expression) => expression.span,
        }
    }
}

impl Statement {
    pub open spec fn model(self) -> StatementModel
        decreases self,
    {
        match self {
            Statement::If { branches, else_body, span } => StatementModel::If {
                branches: if_branch_models(branches@),
                else_body: match else_body {
                    Some(body) => Some(statement_models(body@)),
                    None => None,
                },
                span,
            },
            Statement::UseContext { name, span } => StatementModel::UseContext {
                name: name.model(),
                span,
            },
            Statement::Bind { name, expression, span } => StatementModel::Bind {
                name: name.model(),
                expression: expression.model(),
                span,
            },
            Statement::Return { expression, span } => StatementModel::Return {
                expression: expression.model(),
                span,
            },
            Statement::Assert { expression, message, span } => StatementModel::Assert {
                expression: expression.model(),
                message: match message {
                    Some(message) => Some(message.model()),
                    None => None,
                },
                span,
            },
            Statement::Expression(expression) => StatementModel::Expression(expression.model()),
        }
    }

    #[must_use]
    pub fn span(&self) -> (span: Span)
        ensures
            span == self.model().span(),
    {
        match self {
            Statement::If { span, .. } => *span,
            Statement::UseContext { span, .. } => *span,
            Statement::Bind { span, .. } => *span,
            Statement::Return { span, .. } => *span,
            Statement::Assert { span, .. } => *span,
            Statement::Expression(expression) => expression.span,
        }
    }
}

pub open spec fn statement_models(statements: Seq<Statement>) -> Seq<StatementModel>
    decreases statements,
{
    Seq::new(
        statements.len(),
        |i: int|
            if 0 <= i < statements.len() {
                statements[i].model()
            } else {
                arbitrary()
            },
    )
}

/// One `if` or `else if` of a conditional.
#[derive(Debug, PartialEq)]
pub struct IfBranch {
    pub condition: Expression,
    pub body: Vec<Statement>,
    pub span: Span,
}

pub struct IfBranchModel {
    pub condition: ExpressionModel,
    pub body: Seq<StatementModel>,
    pub span: Span,
}

impl IfBranch {
    pub open spec fn model(self) -> IfBranchModel
        decreases self,
    {
        IfBranchModel {
            condition: self.condition.model(),
            body: statement_models(self.body@),
            span: self.span,
        }
    }
}

pub open spec fn if_branch_models(branches: Seq<IfBranch>) -> Seq<IfBranchModel>
    decreases branches,
{
    Seq::new(
        branches.len(),
        |i: int|
            if 0 <= i < branches.len() {
                branches[i].model()
            } else {
                arbitrary()
            },
    )
}

#[derive(Debug, PartialEq)]
pub struct Expression {
    pub kind: ExpressionKind,
    pub span: Span,
}

pub struct ExpressionModel {
    pub kind: ExpressionKindModel,
    pub span: Span,
}

impl Expression {
    pub open spec fn model(self) -> ExpressionModel
        decreases self,
    {
        ExpressionModel { kind: self.kind.model(), span: self.span }
    }
}

pub open spec fn expression_models(expressions: Seq<Expression>) -> Seq<ExpressionModel>
    decreases expressions,
{
    Seq::new(
        expressions.len(),
        |i: int|
            if 0 <= i < expressions.len() {
                expressions[i].model()
            } else {
                arbitrary()
            },
    )
}

pub open spec fn optional_expression_model(expression: Option<Box<Expression>>) -> Option<
    Box<ExpressionModel>,
>
    decreases expression,
{
    match expression {
        Some(expression) => Some(Box::new((*expression).model())),
        None => None,
    }
}

/// One branch of `parallel`.
#[derive(Debug, PartialEq)]
pub struct ParallelBranch {
    pub name: Option<Spanned<String>>,
    pub expression: Expression,
}

pub struct ParallelBranchModel {
    pub name: Option<SpannedModel>,
    pub expression: ExpressionModel,
}

impl ParallelBranch {
    pub open spec fn model(self) -> ParallelBranchModel
        decreases self,
    {
        ParallelBranchModel {
            name: optional_spanned_model(self.name),
            expression: self.expression.model(),
        }
    }
}

pub open spec fn branch_models(branches: Seq<ParallelBranch>) -> Seq<ParallelBranchModel>
    decreases branches,
{
    Seq::new(
        branches.len(),
        |i: int|
            if 0 <= i < branches.len() {
                branches[i].model()
            } else {
                arbitrary()
            },
    )
}

#[allow(inconsistent_fields)]
#[derive(Debug, PartialEq)]
pub enum ExpressionKind {
    Null,
    Boolean(bool),
    Integer(i64),
    Float(Binary64),
    String(String),
    DurationNanos(u64),
    Name(String),
    Array(Vec<Expression>),
    Object(Vec<ObjectField>),
    Block(Vec<Statement>),
    Fail(Box<Expression>),
    For {
        key: Option<Spanned<String>>,
        value: Spanned<String>,
        iterable: Box<Expression>,
        body: Vec<Statement>,
    },
    Call {
        callee: Spanned<String>,
        arguments: Vec<Expression>,
        named_arguments: Vec<ObjectField>,
        options: Vec<ObjectField>,
    },
    Member { value: Box<Expression>, member: Spanned<String> },
    Index { value: Box<Expression>, index: Box<Expression> },
    Not(Box<Expression>),
    Negate(Box<Expression>),
    Binary { left: Box<Expression>, operator: BinaryOperator, right: Box<Expression> },
    Within { timeout: Box<Expression>, body: Box<Expression> },
    Retry { attempts: Box<Expression>, delay: Option<Box<Expression>>, body: Box<Expression> },
    Parallel { limit: Option<Box<Expression>>, branches: Vec<ParallelBranch> },
    Rate {
        target: Box<Expression>,
        period: Box<Expression>,
        duration: Box<Expression>,
        limit: Option<Box<Expression>>,
        body: Box<Expression>,
    },
    Concurrency { limit: Box<Expression>, duration: Box<Expression>, body: Box<Expression> },
}

#[allow(inconsistent_fields)]
pub enum ExpressionKindModel {
    Null,
    Boolean(bool),
    Integer(i64),
    Float(Binary64),
    String(Seq<char>),
    DurationNanos(u64),
    Name(Seq<char>),
    Array(Seq<ExpressionModel>),
    Object(Seq<ObjectFieldModel>),
    Block(Seq<StatementModel>),
    Fail(Box<ExpressionModel>),
    For {
        key: Option<SpannedModel>,
        value: SpannedModel,
        iterable: Box<ExpressionModel>,
        body: Seq<StatementModel>,
    },
    Call {
        callee: SpannedModel,
        arguments: Seq<ExpressionModel>,
        named_arguments: Seq<ObjectFieldModel>,
        options: Seq<ObjectFieldModel>,
    },
    Member { value: Box<ExpressionModel>, member: SpannedModel },
    Index { value: Box<ExpressionModel>, index: Box<ExpressionModel> },
    Not(Box<ExpressionModel>),
    Negate(Box<ExpressionModel>),
    Binary { left: Box<ExpressionModel>, operator: BinaryOperator, right: Box<ExpressionModel> },
    Within { timeout: Box<ExpressionModel>, body: Box<ExpressionModel> },
    Retry {
        attempts: Box<ExpressionModel>,
        delay: Option<Box<ExpressionModel>>,
        body: Box<ExpressionModel>,
    },
    Parallel { limit: Option<Box<ExpressionModel>>, branches: Seq<ParallelBranchModel> },
    Rate {
        target: Box<ExpressionModel>,
        period: Box<ExpressionModel>,
        duration: Box<ExpressionModel>,
        limit: Option<Box<ExpressionModel>>,
        body: Box<ExpressionModel>,
    },
    Concurrency {
        limit: Box<ExpressionModel>,
        duration: Box<ExpressionModel>,
        body: Box<ExpressionModel>,
    },
}

impl ExpressionKind {
    #[verifier::opaque]
    pub open spec fn model(self) -> ExpressionKindModel
        decreases self,
    {
        match self {
            ExpressionKind::Null => ExpressionKindModel::Null,
            ExpressionKind::Boolean(value) => ExpressionKindModel::Boolean(value),
            ExpressionKind::Integer(value) => ExpressionKindModel::Integer(value),
            ExpressionKind::Float(value) => ExpressionKindModel::Float(value),
            ExpressionKind::String(value) => ExpressionKindModel::String(value@),
            ExpressionKind::DurationNanos(value) => ExpressionKindModel::DurationNanos(value),
            ExpressionKind::Name(name) => ExpressionKindModel::Name(name@),
            ExpressionKind::Array(values) => ExpressionKindModel::Array(
                expression_models(values@),
            ),
            ExpressionKind::Object(fields) => ExpressionKindModel::Object(field_models(fields@)),
            ExpressionKind::Block(statements) => ExpressionKindModel::Block(
                statement_models(statements@),
            ),
            ExpressionKind::Fail(message) => ExpressionKindModel::Fail(
                Box::new((*message).model()),
            ),
            ExpressionKind::For { key, value, iterable, body } => ExpressionKindModel::For {
                key: optional_spanned_model(key),
                value: value.model(),
                iterable: Box::new((*iterable).model()),
                body: statement_models(body@),
            },
            ExpressionKind::Call { callee, arguments, named_arguments, options } =>
                ExpressionKindModel::Call {
                    callee: callee.model(),
                    arguments: expression_models(arguments@),
                    named_arguments: field_models(named_arguments@),
                    options: field_models(options@),
                },
            ExpressionKind::Member { value, member } => ExpressionKindModel::Member {
                value: Box::new((*value).model()),
                member: member.model(),
            },
            ExpressionKind::Index { value, index } => ExpressionKindModel::Index {
                value: Box::new((*value).model()),
                index: Box::new((*index).model()),
            },
            ExpressionKind::Not(value) => ExpressionKindModel::Not(Box::new((*value).model())),
            ExpressionKind::Negate(value) => ExpressionKindModel::Negate(
                Box::new((*value).model()),
            ),
            ExpressionKind::Binary { left, operator, right } => ExpressionKindModel::Binary {
                left: Box::new((*left).model()),
                operator,
                right: Box::new((*right).model()),
            },
            ExpressionKind::Within { timeout, body } => ExpressionKindModel::Within {
                timeout: Box::new((*timeout).model()),
                body: Box::new((*body).model()),
            },
            ExpressionKind::Retry { attempts, delay, body } => ExpressionKindModel::Retry {
                attempts: Box::new((*attempts).model()),
                delay: optional_expression_model(delay),
                body: Box::new((*body).model()),
            },
            ExpressionKind::Parallel { limit, branches } => ExpressionKindModel::Parallel {
                limit: optional_expression_model(limit),
                branches: branch_models(branches@),
            },
            ExpressionKind::Rate { target, period, duration, limit, body } =>
                ExpressionKindModel::Rate {
                    target: Box::new((*target).model()),
                    period: Box::new((*period).model()),
                    duration: Box::new((*duration).model()),
                    limit: optional_expression_model(limit),
                    body: Box::new((*body).model()),
                },
            ExpressionKind::Concurrency { limit, duration, body } =>
                ExpressionKindModel::Concurrency {
                    limit: Box::new((*limit).model()),
                    duration: Box::new((*duration).model()),
                    body: Box::new((*body).model()),
                },
        }
    }
}

#[derive(Clone, Copy, Debug, PartialEq, Eq, Structural)]
pub enum BinaryOperator {
    And,
    Or,
    Equal,
    NotEqual,
    Less,
    LessEqual,
    Greater,
    GreaterEqual,
}

/// The first error in a source file, with the bytes that it is about.
#[derive(Debug, PartialEq, Eq)]
pub struct SyntaxError {
    pub message: String,
    pub span: Span,
}

/// An error message with its place.
pub struct ErrorModel {
    pub message: Seq<char>,
    pub span: Span,
}

/// An error with the given words.
pub open spec fn error_of(message: Seq<char>, span: Span) -> ErrorModel {
    ErrorModel { message, span }
}

impl SyntaxError {
    pub open spec fn model(self) -> ErrorModel {
        ErrorModel { message: self.message@, span: self.span }
    }

    pub fn new(message: &str, span: Span) -> (error: SyntaxError)
        ensures
            error.model() == error_of(message@, span),
    {
        SyntaxError { message: message.to_owned(), span }
    }
}

} // verus!
