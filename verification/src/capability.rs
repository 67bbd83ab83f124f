//! What a capability offers: the operations that programs can call, with
//! their parameters and options.

use vstd::prelude::*;
use vstd::string::*;

use crate::syntax::{error_of, ErrorModel, Span};
use crate::value::{Value, ValueModel};

verus! {

/// The type that a schema asks of a value.
#[derive(Debug, PartialEq)]
pub enum SchemaType {
    Boolean,
    Bytes,
    Duration,
    Integer,
    Json,
    Object(Vec<FieldSchema>),
    String,
    StringMap,
}

pub enum SchemaTypeModel {
    Boolean,
    Bytes,
    Duration,
    Integer,
    Json,
    Object(Seq<FieldSchemaModel>),
    String,
    StringMap,
}

impl SchemaTypeModel {
    /// What error messages call the type.
    pub open spec fn name(self) -> Seq<char> {
        match self {
            SchemaTypeModel::Boolean => "boolean"@,
            SchemaTypeModel::Bytes => "bytes"@,
            SchemaTypeModel::Duration => "duration"@,
            SchemaTypeModel::Integer => "integer"@,
            SchemaTypeModel::Json => "JSON value"@,
            SchemaTypeModel::Object(_) => "object"@,
            SchemaTypeModel::String => "string"@,
            SchemaTypeModel::StringMap => "object containing string values"@,
        }
    }
}

impl SchemaType {
    pub open spec fn model(self) -> SchemaTypeModel
        decreases self,
    {
        match self {
            SchemaType::Boolean => SchemaTypeModel::Boolean,
            SchemaType::Bytes => SchemaTypeModel::Bytes,
            SchemaType::Duration => SchemaTypeModel::Duration,
            SchemaType::Integer => SchemaTypeModel::Integer,
            SchemaType::Json => SchemaTypeModel::Json,
            SchemaType::Object(fields) => SchemaTypeModel::Object(schema_models(fields@)),
            SchemaType::String => SchemaTypeModel::String,
            SchemaType::StringMap => SchemaTypeModel::StringMap,
        }
    }

    /// What error messages call the type.
    #[must_use]
    pub fn name(&self) -> (name: &'static str)
        ensures
            name@ == self.model().name(),
    {
        match self {
            SchemaType::Boolean => "boolean",
            SchemaType::Bytes => "bytes",
            SchemaType::Duration => "duration",
            SchemaType::Integer => "integer",
            SchemaType::Json => "JSON value",
            SchemaType::Object(_) => "object",
            SchemaType::String => "string",
            SchemaType::StringMap => "object containing string values",
        }
    }
}

/// A field that an object may have.
#[derive(Debug, PartialEq)]
pub struct FieldSchema {
    pub name: &'static str,
    pub value_type: SchemaType,
}

pub struct FieldSchemaModel {
    pub name: Seq<char>,
    pub value_type: SchemaTypeModel,
}

impl FieldSchema {
    pub open spec fn model(self) -> FieldSchemaModel
        decreases self,
    {
        FieldSchemaModel { name: self.name@, value_type: self.value_type.model() }
    }
}

pub open spec fn schema_models(fields: Seq<FieldSchema>) -> Seq<FieldSchemaModel>
    decreases fields,
{
    Seq::new(
        fields.len(),
        |i: int|
            if 0 <= i < fields.len() {
                fields[i].model()
            } else {
                arbitrary()
            },
    )
}

pub open spec fn type_models(types: Seq<SchemaType>) -> Seq<SchemaTypeModel> {
    Seq::new(types.len(), |i: int| types[i].model())
}

pub open spec fn name_models(names: Seq<&'static str>) -> Seq<Seq<char>> {
    Seq::new(names.len(), |i: int| names[i]@)
}

/// An operation of a capability.
#[derive(Debug, PartialEq)]
pub struct OperationSchema {
    pub name: &'static str,
    pub parameters: Vec<SchemaType>,
    pub parameter_names: Vec<&'static str>,
    pub options: Vec<FieldSchema>,
    pub mutually_exclusive: Vec<Vec<&'static str>>,
    pub result: SchemaType,
}

pub struct OperationModel {
    pub name: Seq<char>,
    pub parameters: Seq<SchemaTypeModel>,
    pub parameter_names: Seq<Seq<char>>,
    pub options: Seq<FieldSchemaModel>,
    pub mutually_exclusive: Seq<Seq<Seq<char>>>,
    pub result: SchemaTypeModel,
}

pub open spec fn group_models(groups: Seq<Vec<&'static str>>) -> Seq<Seq<Seq<char>>> {
    Seq::new(groups.len(), |i: int| name_models(groups[i]@))
}

impl OperationSchema {
    pub open spec fn model(self) -> OperationModel {
        OperationModel {
            name: self.name@,
            parameters: type_models(self.parameters@),
            parameter_names: name_models(self.parameter_names@),
            options: schema_models(self.options@),
            mutually_exclusive: group_models(self.mutually_exclusive@),
            result: self.result.model(),
        }
    }
}

pub open spec fn operation_models(operations: Seq<OperationSchema>) -> Seq<OperationModel> {
    Seq::new(operations.len(), |i: int| operations[i].model())
}

/// A capability: its name, what contexts may set for all its operations, and
/// the operations.
#[derive(Debug, PartialEq)]
pub struct CapabilityDescriptor {
    pub name: &'static str,
    pub defaults: Vec<FieldSchema>,
    pub operations: Vec<OperationSchema>,
}

pub struct CapabilityModel {
    pub name: Seq<char>,
    pub defaults: Seq<FieldSchemaModel>,
    pub operations: Seq<OperationModel>,
}

impl CapabilityDescriptor {
    pub open spec fn model(self) -> CapabilityModel {
        CapabilityModel {
            name: self.name@,
            defaults: schema_models(self.defaults@),
            operations: operation_models(self.operations@),
        }
    }
}

pub open spec fn capability_models(capabilities: Seq<CapabilityDescriptor>) -> Seq<
    CapabilityModel,
> {
    Seq::new(capabilities.len(), |i: int| capabilities[i].model())
}

/// Why an operation failed.
#[derive(Debug, PartialEq, Eq)]
pub struct CapabilityError {
    pub message: String,
    pub span: Span,
}

impl CapabilityError {
    pub open spec fn model(self) -> ErrorModel {
        ErrorModel { message: self.message@, span: self.span }
    }

    #[must_use]
    pub fn new(message: String, span: Span) -> (error: CapabilityError)
        ensures
            error.model() == error_of(message@, span),
    {
        CapabilityError { message, span }
    }
}

/// How an operation went, for the colour of its report.
#[derive(Clone, Copy, Debug, PartialEq, Eq, Structural)]
pub enum ReportOutcome {
    Success,
    Warning,
    Failure,
    Neutral,
}

/// A part of the report on an operation.
#[allow(inconsistent_fields)]
#[derive(Debug, PartialEq)]
pub enum ReportSection {
    Fields { title: String, fields: Vec<(String, String)> },
    Value { title: String, value: Value },
}

#[allow(inconsistent_fields)]
pub enum ReportSectionModel {
    Fields { title: Seq<char>, fields: Seq<(Seq<char>, Seq<char>)> },
    Value { title: Seq<char>, value: ValueModel },
}

pub open spec fn pair_models(pairs: Seq<(String, String)>) -> Seq<(Seq<char>, Seq<char>)> {
    Seq::new(pairs.len(), |i: int| (pairs[i].0@, pairs[i].1@))
}

impl ReportSection {
    pub open spec fn model(self) -> ReportSectionModel {
        match self {
            ReportSection::Fields { title, fields } => ReportSectionModel::Fields {
                title: title@,
                fields: pair_models(fields@),
            },
            ReportSection::Value { title, value } => ReportSectionModel::Value {
                title: title@,
                value: value.model(),
            },
        }
    }
}

pub open spec fn section_models(sections: Seq<ReportSection>) -> Seq<ReportSectionModel> {
    Seq::new(sections.len(), |i: int| sections[i].model())
}

/// What a capability says of one of its operations.
#[derive(Debug, PartialEq)]
pub struct OperationReport {
    pub summary: String,
    pub outcome: String,
    pub outcome_kind: ReportOutcome,
    pub sections: Vec<ReportSection>,
    pub payload: Option<Value>,
}

pub struct OperationReportModel {
    pub summary: Seq<char>,
    pub outcome: Seq<char>,
    pub outcome_kind: ReportOutcome,
    pub sections: Seq<ReportSectionModel>,
    pub payload: Option<ValueModel>,
}

impl OperationReport {
    pub open spec fn model(self) -> OperationReportModel {
        OperationReportModel {
            summary: self.summary@,
            outcome: self.outcome@,
            outcome_kind: self.outcome_kind,
            sections: section_models(self.sections@),
            payload: match self.payload {
                Some(value) => Some(value.model()),
                None => None,
            },
        }
    }
}

} // verus!
