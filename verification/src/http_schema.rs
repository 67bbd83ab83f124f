//! The operations of the HTTP capability and what they take.

use vstd::prelude::*;

use crate::capability::{
    group_models, name_models, operation_models, schema_models, type_models, CapabilityDescriptor,
    CapabilityModel, FieldSchema, FieldSchemaModel, OperationModel, OperationSchema, SchemaType,
    SchemaTypeModel,
};

verus! {

pub open spec fn field_model(name: Seq<char>, value_type: SchemaTypeModel) -> FieldSchemaModel {
    FieldSchemaModel { name, value_type }
}

pub open spec fn tls_fields() -> Seq<FieldSchemaModel> {
    seq![field_model("verifyCertificates"@, SchemaTypeModel::Boolean)]
}

/// What every operation takes.
pub open spec fn common_fields() -> Seq<FieldSchemaModel> {
    seq![
        field_model("baseUrl"@, SchemaTypeModel::String),
        field_model("timeout"@, SchemaTypeModel::Duration),
        field_model("headers"@, SchemaTypeModel::StringMap),
        field_model("tls"@, SchemaTypeModel::Object(tls_fields())),
        field_model("maxResponseBytes"@, SchemaTypeModel::Integer),
    ]
}

/// What operations with a body take.
pub open spec fn body_fields() -> Seq<FieldSchemaModel> {
    common_fields().push(field_model("json"@, SchemaTypeModel::Json)).push(
        field_model("body"@, SchemaTypeModel::String),
    )
}

/// What every operation comes to.
pub open spec fn response_fields() -> Seq<FieldSchemaModel> {
    seq![
        field_model("body"@, SchemaTypeModel::String),
        field_model("bodyBytes"@, SchemaTypeModel::Bytes),
        field_model("duration"@, SchemaTypeModel::Duration),
        field_model("headers"@, SchemaTypeModel::StringMap),
        field_model("json"@, SchemaTypeModel::Json),
        field_model("method"@, SchemaTypeModel::String),
        field_model("status"@, SchemaTypeModel::Integer),
        field_model("url"@, SchemaTypeModel::String),
    ]
}

pub open spec fn operation_model(name: Seq<char>, body: bool) -> OperationModel {
    OperationModel {
        name,
        parameters: seq![SchemaTypeModel::String],
        parameter_names: seq!["url"@],
        options: if body {
            body_fields()
        } else {
            common_fields()
        },
        mutually_exclusive: if body {
            seq![seq!["json"@, "body"@]]
        } else {
            Seq::empty()
        },
        result: SchemaTypeModel::Object(response_fields()),
    }
}

pub open spec fn http_model() -> CapabilityModel {
    CapabilityModel {
        name: "http"@,
        defaults: common_fields(),
        operations: seq![
            operation_model("get"@, false),
            operation_model("post"@, true),
            operation_model("put"@, true),
            operation_model("patch"@, true),
            operation_model("delete"@, true),
            operation_model("head"@, false),
            operation_model("options"@, false),
        ],
    }
}

fn add_field(fields: &mut Vec<FieldSchema>, name: &'static str, value_type: SchemaType)
    ensures
        schema_models(final(fields)@) == schema_models(old(fields)@).push(
            field_model(name@, value_type.model()),
        ),
{
    let ghost before = schema_models(fields@);
    fields.push(FieldSchema { name, value_type });
    proof {
        assert(schema_models(fields@) =~= before.push(field_model(name@, value_type.model())));
    }
}

fn no_fields() -> (fields: Vec<FieldSchema>)
    ensures
        schema_models(fields@) == Seq::<FieldSchemaModel>::empty(),
{
    let fields: Vec<FieldSchema> = Vec::new();
    proof {
        assert(schema_models(fields@) =~= Seq::empty());
    }
    fields
}

fn common() -> (fields: Vec<FieldSchema>)
    ensures
        schema_models(fields@) == common_fields(),
{
    let mut tls: Vec<FieldSchema> = no_fields();
    add_field(&mut tls, "verifyCertificates", SchemaType::Boolean);
    proof {
        assert(schema_models(tls@) =~= tls_fields());
    }
    let mut fields: Vec<FieldSchema> = no_fields();
    add_field(&mut fields, "baseUrl", SchemaType::String);
    add_field(&mut fields, "timeout", SchemaType::Duration);
    add_field(&mut fields, "headers", SchemaType::StringMap);
    add_field(&mut fields, "tls", SchemaType::Object(tls));
    add_field(&mut fields, "maxResponseBytes", SchemaType::Integer);
    proof {
        assert(schema_models(fields@) =~= common_fields());
    }
    fields
}

fn with_body() -> (fields: Vec<FieldSchema>)
    ensures
        schema_models(fields@) == body_fields(),
{
    let mut fields: Vec<FieldSchema> = common();
    add_field(&mut fields, "json", SchemaType::Json);
    add_field(&mut fields, "body", SchemaType::String);
    fields
}

fn response() -> (fields: Vec<FieldSchema>)
    ensures
        schema_models(fields@) == response_fields(),
{
    let mut fields: Vec<FieldSchema> = no_fields();
    add_field(&mut fields, "body", SchemaType::String);
    add_field(&mut fields, "bodyBytes", SchemaType::Bytes);
    add_field(&mut fields, "duration", SchemaType::Duration);
    add_field(&mut fields, "headers", SchemaType::StringMap);
    add_field(&mut fields, "json", SchemaType::Json);
    add_field(&mut fields, "method", SchemaType::String);
    add_field(&mut fields, "status", SchemaType::Integer);
    add_field(&mut fields, "url", SchemaType::String);
    proof {
        assert(schema_models(fields@) =~= response_fields());
    }
    fields
}

fn add_operation(operations: &mut Vec<OperationSchema>, name: &'static str, body: bool)
    ensures
        operation_models(final(operations)@) == operation_models(old(operations)@).push(
            operation_model(name@, body),
        ),
{
    let mut parameters: Vec<SchemaType> = Vec::new();
    parameters.push(SchemaType::String);
    let mut parameter_names: Vec<&'static str> = Vec::new();
    parameter_names.push("url");
    let mut mutually_exclusive: Vec<Vec<&'static str>> = Vec::new();
    if body {
        let mut group: Vec<&'static str> = Vec::new();
        group.push("json");
        group.push("body");
        proof {
            assert(name_models(group@) =~= seq!["json"@, "body"@]);
        }
        mutually_exclusive.push(group);
    }
    let options: Vec<FieldSchema> = if body {
        with_body()
    } else {
        common()
    };
    let operation: OperationSchema = OperationSchema {
        name,
        parameters,
        parameter_names,
        options,
        mutually_exclusive,
        result: SchemaType::Object(response()),
    };
    proof {
        assert(type_models(parameters@) =~= seq![SchemaTypeModel::String]);
        assert(name_models(parameter_names@) =~= seq!["url"@]);
        assert(group_models(mutually_exclusive@) =~= (if body {
            seq![seq!["json"@, "body"@]]
        } else {
            Seq::empty()
        }));
        assert(operation.model() == operation_model(name@, body));
    }
    let ghost before = operation_models(operations@);
    operations.push(operation);
    proof {
        assert(operation_models(operations@) =~= before.push(operation_model(name@, body)));
    }
}

/// The HTTP capability.
pub fn descriptor() -> (descriptor: CapabilityDescriptor)
    ensures
        descriptor.model() == http_model(),
{
    let mut operations: Vec<OperationSchema> = Vec::new();
    proof {
        assert(operation_models(operations@) =~= Seq::empty());
    }
    add_operation(&mut operations, "get", false);
    add_operation(&mut operations, "post", true);
    add_operation(&mut operations, "put", true);
    add_operation(&mut operations, "patch", true);
    add_operation(&mut operations, "delete", true);
    add_operation(&mut operations, "head", false);
    add_operation(&mut operations, "options", false);
    proof {
        assert(operation_models(operations@) =~= http_model().operations);
    }
    CapabilityDescriptor { name: "http", defaults: common(), operations }
}

/// What reports call an operation.
pub open spec fn operation_text(operation: int) -> Seq<char> {
    if 0 <= operation < http_model().operations.len() {
        http_model().operations[operation].name
    } else {
        "request"@
    }
}

pub fn operation_name(operation: usize) -> (name: &'static str)
    ensures
        name@ == operation_text(operation as int),
{
    if operation == 0 {
        "get"
    } else if operation == 1 {
        "post"
    } else if operation == 2 {
        "put"
    } else if operation == 3 {
        "patch"
    } else if operation == 4 {
        "delete"
    } else if operation == 5 {
        "head"
    } else if operation == 6 {
        "options"
    } else {
        "request"
    }
}

} // verus!
