//! Execution plans: programs with every name resolved and every policy bounded.

use vstd::prelude::*;
use vstd::string::*;

use crate::binary64::Binary64;
use crate::capability::{SchemaType, SchemaTypeModel};
use crate::duration::Duration;
use crate::syntax::{error_of, BinaryOperator, DeclarationKind, ErrorModel, Span};
use crate::text::views;

verus! {

pub open spec fn optional_text(text: Option<String>) -> Option<Seq<char>> {
    match text {
        Some(text) => Some(text@),
        None => None,
    }
}

pub open spec fn numbers(values: Seq<usize>) -> Seq<int> {
    Seq::new(values.len(), |i: int| values[i] as int)
}

pub open spec fn optional_number(value: Option<usize>) -> Option<int> {
    match value {
        Some(value) => Some(value as int),
        None => None,
    }
}

/// A validated program.
#[derive(Debug, PartialEq)]
pub struct ExecutionPlan {
    pub capability_names: Vec<String>,
    pub contexts: Vec<ContextPlan>,
    pub flows: Vec<MettlePlan>,
    pub default_flow: Option<usize>,
}

pub struct ExecutionPlanModel {
    pub capability_names: Seq<Seq<char>>,
    pub contexts: Seq<ContextPlanModel>,
    pub flows: Seq<MettlePlanModel>,
    pub default_flow: Option<int>,
}

impl ExecutionPlan {
    pub open spec fn model(self) -> ExecutionPlanModel {
        ExecutionPlanModel {
            capability_names: views(self.capability_names@),
            contexts: context_plan_models(self.contexts@),
            flows: flow_plan_models(self.flows@),
            default_flow: optional_number(self.default_flow),
        }
    }
}

/// A context with the fields and defaults of the contexts that it uses.
#[derive(Debug, PartialEq)]
pub struct ContextPlan {
    pub name: String,
    pub fields: Vec<PlanField>,
    pub defaults: Vec<CapabilityDefaultsPlan>,
}

pub struct ContextPlanModel {
    pub name: Seq<char>,
    pub fields: Seq<PlanFieldModel>,
    pub defaults: Seq<CapabilityDefaultsModel>,
}

impl ContextPlan {
    pub open spec fn model(self) -> ContextPlanModel {
        ContextPlanModel {
            name: self.name@,
            fields: plan_field_models(self.fields@),
            defaults: defaults_models(self.defaults@),
        }
    }
}

pub open spec fn context_plan_models(contexts: Seq<ContextPlan>) -> Seq<ContextPlanModel> {
    Seq::new(contexts.len(), |i: int| contexts[i].model())
}

/// What a context sets for all operations of a capability.
#[derive(Debug, PartialEq)]
pub struct CapabilityDefaultsPlan {
    pub capability: usize,
    pub fields: Vec<PlanField>,
}

pub struct CapabilityDefaultsModel {
    pub capability: int,
    pub fields: Seq<PlanFieldModel>,
}

impl CapabilityDefaultsPlan {
    pub open spec fn model(self) -> CapabilityDefaultsModel {
        CapabilityDefaultsModel {
            capability: self.capability as int,
            fields: plan_field_models(self.fields@),
        }
    }
}

pub open spec fn defaults_models(defaults: Seq<CapabilityDefaultsPlan>) -> Seq<
    CapabilityDefaultsModel,
> {
    Seq::new(defaults.len(), |i: int| defaults[i].model())
}

/// A flow or a test.
#[derive(Debug, PartialEq)]
pub struct MettlePlan {
    pub kind: DeclarationKind,
    pub name: Option<String>,
    pub display_name: String,
    pub parameters: Vec<String>,
    pub span: Span,
    pub local_count: usize,
    pub contexts: Vec<usize>,
    pub instructions: Vec<Instruction>,
}

pub struct MettlePlanModel {
    pub kind: DeclarationKind,
    pub name: Option<Seq<char>>,
    pub display_name: Seq<char>,
    pub parameters: Seq<Seq<char>>,
    pub span: Span,
    pub local_count: int,
    pub contexts: Seq<int>,
    pub instructions: Seq<InstructionModel>,
}

impl MettlePlan {
    pub open spec fn model(self) -> MettlePlanModel {
        MettlePlanModel {
            kind: self.kind,
            name: optional_text(self.name),
            display_name: self.display_name@,
            parameters: views(self.parameters@),
            span: self.span,
            local_count: self.local_count as int,
            contexts: numbers(self.contexts@),
            instructions: instruction_models(self.instructions@),
        }
    }
}

pub open spec fn flow_plan_models(flows: Seq<MettlePlan>) -> Seq<MettlePlanModel> {
    Seq::new(flows.len(), |i: int| flows[i].model())
}

/// Which argument of a call is evaluated next.
#[derive(Clone, Copy, Debug, PartialEq, Eq, Structural)]
pub enum CallEvaluation {
    Parameter(usize),
    Option(usize),
}

#[derive(Clone, Copy, Debug, PartialEq, Eq, Structural)]
pub enum ValueType {
    Null,
    Boolean,
    Bytes,
    Integer,
    Float,
    String,
    Duration,
    Array,
    Object,
    Inferred,
}

impl ValueType {
    /// What error messages call the type.
    pub open spec fn called(self) -> Seq<char> {
        match self {
            ValueType::Null => "null"@,
            ValueType::Boolean => "boolean"@,
            ValueType::Bytes => "bytes"@,
            ValueType::Integer => "integer"@,
            ValueType::Float => "number"@,
            ValueType::String => "string"@,
            ValueType::Duration => "duration"@,
            ValueType::Array => "array"@,
            ValueType::Object => "object"@,
            ValueType::Inferred => "inferred value"@,
        }
    }

    pub fn name(self) -> (name: &'static str)
        ensures
            name@ == self.called(),
    {
        match self {
            ValueType::Null => "null",
            ValueType::Boolean => "boolean",
            ValueType::Bytes => "bytes",
            ValueType::Integer => "integer",
            ValueType::Float => "number",
            ValueType::String => "string",
            ValueType::Duration => "duration",
            ValueType::Array => "array",
            ValueType::Object => "object",
            ValueType::Inferred => "inferred value",
        }
    }
}

/// The type of the values that a schema describes.
pub open spec fn type_of_schema(schema: SchemaTypeModel) -> ValueType {
    match schema {
        SchemaTypeModel::Boolean => ValueType::Boolean,
        SchemaTypeModel::Json => ValueType::Inferred,
        SchemaTypeModel::Bytes => ValueType::Bytes,
        SchemaTypeModel::Duration => ValueType::Duration,
        SchemaTypeModel::Integer => ValueType::Integer,
        SchemaTypeModel::Object(_) => ValueType::Object,
        SchemaTypeModel::StringMap => ValueType::Object,
        SchemaTypeModel::String => ValueType::String,
    }
}

pub fn schema_value_type(schema: &SchemaType) -> (value_type: ValueType)
    ensures
        value_type == type_of_schema(schema.model()),
{
    match schema {
        SchemaType::Boolean => ValueType::Boolean,
        SchemaType::Json => ValueType::Inferred,
        SchemaType::Bytes => ValueType::Bytes,
        SchemaType::Duration => ValueType::Duration,
        SchemaType::Integer => ValueType::Integer,
        SchemaType::Object(_) => ValueType::Object,
        SchemaType::StringMap => ValueType::Object,
        SchemaType::String => ValueType::String,
    }
}

/// A value that is written out in the program.
#[derive(Debug, PartialEq)]
pub enum Constant {
    Null,
    Boolean(bool),
    Integer(i64),
    Float(Binary64),
    String(String),
    DurationNanos(u64),
}

pub enum ConstantModel {
    Null,
    Boolean(bool),
    Integer(i64),
    Float(Binary64),
    String(Seq<char>),
    DurationNanos(u64),
}

impl Constant {
    pub open spec fn model(self) -> ConstantModel {
        match self {
            Constant::Null => ConstantModel::Null,
            Constant::Boolean(value) => ConstantModel::Boolean(value),
            Constant::Integer(value) => ConstantModel::Integer(value),
            Constant::Float(value) => ConstantModel::Float(value),
            Constant::String(value) => ConstantModel::String(value@),
            Constant::DurationNanos(value) => ConstantModel::DurationNanos(value),
        }
    }
}

/// An expression with the type of its value, as far as it is known.
#[derive(Debug, PartialEq)]
pub struct PlanExpression {
    pub kind: PlanExpressionKind,
    pub value_type: ValueType,
    pub span: Span,
}

pub struct PlanExpressionModel {
    pub kind: PlanExpressionKindModel,
    pub value_type: ValueType,
    pub span: Span,
}

impl PlanExpression {
    pub open spec fn model(self) -> PlanExpressionModel
        decreases self,
    {
        PlanExpressionModel {
            kind: self.kind.model(),
            value_type: self.value_type,
            span: self.span,
        }
    }
}

pub open spec fn optional_plan(expression: Option<PlanExpression>) -> Option<PlanExpressionModel>
    decreases expression,
{
    match expression {
        Some(expression) => Some(expression.model()),
        None => None,
    }
}

pub open spec fn optional_instructions(instructions: Option<Vec<Instruction>>) -> Option<
    Seq<InstructionModel>,
>
    decreases instructions,
{
    match instructions {
        Some(instructions) => Some(instruction_models(instructions@)),
        None => None,
    }
}

/// A named expression.
#[derive(Debug, PartialEq)]
pub struct PlanField {
    pub name: String,
    pub expression: PlanExpression,
}

pub struct PlanFieldModel {
    pub name: Seq<char>,
    pub expression: PlanExpressionModel,
}

impl PlanField {
    pub open spec fn model(self) -> PlanFieldModel
        decreases self,
    {
        PlanFieldModel {
            name: self.name@,
            expression: self.expression.model(),
        }
    }
}

/// One branch of a conditional.
#[derive(Debug, PartialEq)]
pub struct ConditionalBranch {
    pub condition: PlanExpression,
    pub instructions: Vec<Instruction>,
}

pub struct ConditionalBranchModel {
    pub condition: PlanExpressionModel,
    pub instructions: Seq<InstructionModel>,
}

impl ConditionalBranch {
    pub open spec fn model(self) -> ConditionalBranchModel
        decreases self,
    {
        ConditionalBranchModel {
            condition: self.condition.model(),
            instructions: instruction_models(self.instructions@),
        }
    }
}

/// One branch of `parallel`.
#[derive(Debug, PartialEq)]
pub struct PlanParallelBranch {
    pub name: Option<String>,
    pub expression: PlanExpression,
}

pub struct PlanBranchModel {
    pub name: Option<Seq<char>>,
    pub expression: PlanExpressionModel,
}

impl PlanParallelBranch {
    pub open spec fn model(self) -> PlanBranchModel
        decreases self,
    {
        PlanBranchModel {
            name: optional_text(self.name),
            expression: self.expression.model(),
        }
    }
}

/// A part of a text with values in it.
#[allow(inconsistent_fields)]
#[derive(Debug, PartialEq)]
pub enum StringPart {
    Text(String),
    Value(PlanExpression),
}

#[allow(inconsistent_fields)]
pub enum StringPartModel {
    Text(Seq<char>),
    Value(PlanExpressionModel),
}

impl StringPart {
    pub open spec fn model(self) -> StringPartModel
        decreases self,
    {
        match self {
            StringPart::Text(value) => StringPartModel::Text(value@),
            StringPart::Value(value) => StringPartModel::Value(value.model()),
        }
    }
}

/// One step of a flow.
#[allow(inconsistent_fields)]
#[derive(Debug, PartialEq)]
pub enum Instruction {
    Echo { value: PlanExpression, span: Span },
    If { branches: Vec<ConditionalBranch>, else_body: Option<Vec<Instruction>> },
    Bind { slot: usize, expression: PlanExpression },
    Evaluate(PlanExpression),
    Assert { condition: PlanExpression, message: Option<PlanExpression> },
    Return(PlanExpression),
}

#[allow(inconsistent_fields)]
pub enum InstructionModel {
    Echo { value: PlanExpressionModel, span: Span },
    If { branches: Seq<ConditionalBranchModel>, else_body: Option<Seq<InstructionModel>> },
    Bind { slot: int, expression: PlanExpressionModel },
    Evaluate(PlanExpressionModel),
    Assert { condition: PlanExpressionModel, message: Option<PlanExpressionModel> },
    Return(PlanExpressionModel),
}

impl Instruction {
    pub open spec fn model(self) -> InstructionModel
        decreases self,
    {
        match self {
            Instruction::Echo { value, span } => InstructionModel::Echo {
                value: value.model(),
                span: span,
            },
            Instruction::If { branches, else_body } => InstructionModel::If {
                branches: conditional_models(branches@),
                else_body: optional_instructions(else_body),
            },
            Instruction::Bind { slot, expression } => InstructionModel::Bind {
                slot: slot as int,
                expression: expression.model(),
            },
            Instruction::Evaluate(value) => InstructionModel::Evaluate(value.model()),
            Instruction::Assert { condition, message } => InstructionModel::Assert {
                condition: condition.model(),
                message: optional_plan(message),
            },
            Instruction::Return(value) => InstructionModel::Return(value.model()),
        }
    }
}

/// What an expression computes.
#[allow(inconsistent_fields)]
#[derive(Debug, PartialEq)]
pub enum PlanExpressionKind {
    Constant(Constant),
    Local(usize),
    Context(usize),
    Environment(String),
    Sensitive(Box<PlanExpression>),
    Array(Vec<PlanExpression>),
    Object(Vec<PlanField>),
    Block { instructions: Vec<Instruction>, local_count: usize },
    For { iterable: Box<PlanExpression>, key_slot: Option<usize>, value_slot: usize, instructions: Vec<Instruction>, local_count: usize, produces_value: bool },
    Member { value: Box<PlanExpression>, member: String },
    Index { value: Box<PlanExpression>, index: Box<PlanExpression> },
    Not(Box<PlanExpression>),
    Negate(Box<PlanExpression>),
    Binary { left: Box<PlanExpression>, operator: BinaryOperator, right: Box<PlanExpression> },
    InterpolatedString(Vec<StringPart>),
    Fail(Box<PlanExpression>),
    MettleCall { flow: usize, arguments: Vec<PlanExpression>, evaluation_order: Vec<usize> },
    CapabilityCall { capability: usize, operation: usize, arguments: Vec<PlanExpression>, options: Vec<PlanField>, evaluation_order: Vec<CallEvaluation> },
    Within { timeout: Duration, body: Box<PlanExpression> },
    Retry { attempts: usize, delay: Duration, body: Box<PlanExpression> },
    Parallel { limit: usize, branches: Vec<PlanParallelBranch> },
    Rate { target: usize, period: Duration, duration: Duration, limit: usize, body: Box<PlanExpression> },
    Concurrency { limit: usize, duration: Duration, body: Box<PlanExpression> },
}

#[allow(inconsistent_fields)]
pub enum PlanExpressionKindModel {
    Constant(ConstantModel),
    Local(int),
    Context(int),
    Environment(Seq<char>),
    Sensitive(Box<PlanExpressionModel>),
    Array(Seq<PlanExpressionModel>),
    Object(Seq<PlanFieldModel>),
    Block { instructions: Seq<InstructionModel>, local_count: int },
    For { iterable: Box<PlanExpressionModel>, key_slot: Option<int>, value_slot: int, instructions: Seq<InstructionModel>, local_count: int, produces_value: bool },
    Member { value: Box<PlanExpressionModel>, member: Seq<char> },
    Index { value: Box<PlanExpressionModel>, index: Box<PlanExpressionModel> },
    Not(Box<PlanExpressionModel>),
    Negate(Box<PlanExpressionModel>),
    Binary { left: Box<PlanExpressionModel>, operator: BinaryOperator, right: Box<PlanExpressionModel> },
    InterpolatedString(Seq<StringPartModel>),
    Fail(Box<PlanExpressionModel>),
    MettleCall { flow: int, arguments: Seq<PlanExpressionModel>, evaluation_order: Seq<int> },
    CapabilityCall { capability: int, operation: int, arguments: Seq<PlanExpressionModel>, options: Seq<PlanFieldModel>, evaluation_order: Seq<CallEvaluation> },
    Within { timeout: Duration, body: Box<PlanExpressionModel> },
    Retry { attempts: int, delay: Duration, body: Box<PlanExpressionModel> },
    Parallel { limit: int, branches: Seq<PlanBranchModel> },
    Rate { target: int, period: Duration, duration: Duration, limit: int, body: Box<PlanExpressionModel> },
    Concurrency { limit: int, duration: Duration, body: Box<PlanExpressionModel> },
}

impl PlanExpressionKind {
    #[verifier::opaque]
    pub open spec fn model(self) -> PlanExpressionKindModel
        decreases self,
    {
        match self {
            PlanExpressionKind::Constant(value) => PlanExpressionKindModel::Constant(value.model()),
            PlanExpressionKind::Local(value) => PlanExpressionKindModel::Local(value as int),
            PlanExpressionKind::Context(value) => PlanExpressionKindModel::Context(value as int),
            PlanExpressionKind::Environment(value) => PlanExpressionKindModel::Environment(value@),
            PlanExpressionKind::Sensitive(value) => PlanExpressionKindModel::Sensitive(Box::new((*value).model())),
            PlanExpressionKind::Array(value) => PlanExpressionKindModel::Array(plan_models(value@)),
            PlanExpressionKind::Object(value) => PlanExpressionKindModel::Object(plan_field_models(value@)),
            PlanExpressionKind::Block { instructions, local_count } => PlanExpressionKindModel::Block {
                instructions: instruction_models(instructions@),
                local_count: local_count as int,
            },
            PlanExpressionKind::For { iterable, key_slot, value_slot, instructions, local_count, produces_value } => PlanExpressionKindModel::For {
                iterable: Box::new((*iterable).model()),
                key_slot: optional_number(key_slot),
                value_slot: value_slot as int,
                instructions: instruction_models(instructions@),
                local_count: local_count as int,
                produces_value: produces_value,
            },
            PlanExpressionKind::Member { value, member } => PlanExpressionKindModel::Member {
                value: Box::new((*value).model()),
                member: member@,
            },
            PlanExpressionKind::Index { value, index } => PlanExpressionKindModel::Index {
                value: Box::new((*value).model()),
                index: Box::new((*index).model()),
            },
            PlanExpressionKind::Not(value) => PlanExpressionKindModel::Not(Box::new((*value).model())),
            PlanExpressionKind::Negate(value) => PlanExpressionKindModel::Negate(Box::new((*value).model())),
            PlanExpressionKind::Binary { left, operator, right } => PlanExpressionKindModel::Binary {
                left: Box::new((*left).model()),
                operator: operator,
                right: Box::new((*right).model()),
            },
            PlanExpressionKind::InterpolatedString(value) => PlanExpressionKindModel::InterpolatedString(part_models(value@)),
            PlanExpressionKind::Fail(value) => PlanExpressionKindModel::Fail(Box::new((*value).model())),
            PlanExpressionKind::MettleCall { flow, arguments, evaluation_order } => PlanExpressionKindModel::MettleCall {
                flow: flow as int,
                arguments: plan_models(arguments@),
                evaluation_order: numbers(evaluation_order@),
            },
            PlanExpressionKind::CapabilityCall { capability, operation, arguments, options, evaluation_order } => PlanExpressionKindModel::CapabilityCall {
                capability: capability as int,
                operation: operation as int,
                arguments: plan_models(arguments@),
                options: plan_field_models(options@),
                evaluation_order: evaluation_order@,
            },
            PlanExpressionKind::Within { timeout, body } => PlanExpressionKindModel::Within {
                timeout: timeout,
                body: Box::new((*body).model()),
            },
            PlanExpressionKind::Retry { attempts, delay, body } => PlanExpressionKindModel::Retry {
                attempts: attempts as int,
                delay: delay,
                body: Box::new((*body).model()),
            },
            PlanExpressionKind::Parallel { limit, branches } => PlanExpressionKindModel::Parallel {
                limit: limit as int,
                branches: plan_branch_models(branches@),
            },
            PlanExpressionKind::Rate { target, period, duration, limit, body } => PlanExpressionKindModel::Rate {
                target: target as int,
                period: period,
                duration: duration,
                limit: limit as int,
                body: Box::new((*body).model()),
            },
            PlanExpressionKind::Concurrency { limit, duration, body } => PlanExpressionKindModel::Concurrency {
                limit: limit as int,
                duration: duration,
                body: Box::new((*body).model()),
            },
        }
    }
}

pub open spec fn plan_models(items: Seq<PlanExpression>) -> Seq<PlanExpressionModel>
    decreases items,
{
    Seq::new(
        items.len(),
        |i: int|
            if 0 <= i < items.len() {
                items[i].model()
            } else {
                arbitrary()
            },
    )
}

pub open spec fn plan_field_models(items: Seq<PlanField>) -> Seq<PlanFieldModel>
    decreases items,
{
    Seq::new(
        items.len(),
        |i: int|
            if 0 <= i < items.len() {
                items[i].model()
            } else {
                arbitrary()
            },
    )
}

pub open spec fn instruction_models(items: Seq<Instruction>) -> Seq<InstructionModel>
    decreases items,
{
    Seq::new(
        items.len(),
        |i: int|
            if 0 <= i < items.len() {
                items[i].model()
            } else {
                arbitrary()
            },
    )
}

pub open spec fn conditional_models(items: Seq<ConditionalBranch>) -> Seq<ConditionalBranchModel>
    decreases items,
{
    Seq::new(
        items.len(),
        |i: int|
            if 0 <= i < items.len() {
                items[i].model()
            } else {
                arbitrary()
            },
    )
}

pub open spec fn part_models(items: Seq<StringPart>) -> Seq<StringPartModel>
    decreases items,
{
    Seq::new(
        items.len(),
        |i: int|
            if 0 <= i < items.len() {
                items[i].model()
            } else {
                arbitrary()
            },
    )
}

pub open spec fn plan_branch_models(items: Seq<PlanParallelBranch>) -> Seq<PlanBranchModel>
    decreases items,
{
    Seq::new(
        items.len(),
        |i: int|
            if 0 <= i < items.len() {
                items[i].model()
            } else {
                arbitrary()
            },
    )
}

/// Why a program was refused.
#[derive(Debug, PartialEq, Eq)]
pub struct CompileError {
    pub message: String,
    pub span: Span,
}

impl CompileError {
    pub open spec fn model(self) -> ErrorModel {
        ErrorModel { message: self.message@, span: self.span }
    }

    pub fn new(message: String, span: Span) -> (error: CompileError)
        ensures
            error.model() == error_of(message@, span),
    {
        CompileError { message, span }
    }
}

pub open spec fn error_models(errors: Seq<CompileError>) -> Seq<ErrorModel> {
    Seq::new(errors.len(), |i: int| errors[i].model())
}

} // verus!
