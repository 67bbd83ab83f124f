//! JSON documents as text.
//!
//! `serde_json` reads and writes the text; a document is handed to it and taken
//! from it part by part.

use bytes::Buf;
use serde_json::Value as Tree;
use vstd::prelude::*;

use crate::binary64::Binary64;
use crate::json::{decoded_model, Json, JsonField, JsonFieldModel, JsonModel};
use crate::value::{order, Order};

verus! {

/// A `serde_json::Value`: a tree of values, of which only `serde_json` sees the
/// inside.
#[verifier::external_body]
pub struct Document(serde_json::Value);

/// What a document of `serde_json` holds.
pub uninterp spec fn content(document: Document) -> JsonModel;

/// The document that bytes encode, or what is wrong with them.
pub uninterp spec fn parsed(bytes: Seq<u8>) -> Result<JsonModel, Seq<char>>;

/// The bytes that encode a document, or why there are none.
pub uninterp spec fn compact(json: JsonModel) -> Result<Seq<u8>, Seq<char>>;

/// A document in lines.
pub uninterp spec fn pretty(json: JsonModel) -> Seq<char>;

/// A document in one line.
pub uninterp spec fn line(json: JsonModel) -> Seq<char>;

/// Whether a document is one that `serde_json` keeps as it is: its numbers are
/// finite, those that fit stand as `Integer`s, and its fields are in the order
/// of their names.
pub open spec fn regular(json: JsonModel) -> bool
    decreases json,
{
    match json {
        JsonModel::Natural(value) => value > i64::MAX,
        JsonModel::Float(value) => value.finite(),
        JsonModel::Array(values) => regular_list(values),
        JsonModel::Object(fields) => regular_fields(fields) && in_order(fields),
        _ => true,
    }
}

pub open spec fn regular_list(values: Seq<JsonModel>) -> bool
    decreases values,
{
    forall|i: int| 0 <= i < values.len() ==> regular(#[trigger] values[i])
}

pub open spec fn regular_fields(fields: Seq<JsonFieldModel>) -> bool
    decreases fields,
{
    forall|i: int| 0 <= i < fields.len() ==> regular((#[trigger] fields[i]).value)
}

pub open spec fn in_order(fields: Seq<JsonFieldModel>) -> bool {
    forall|i: int, j: int|
        0 <= i < j < fields.len() ==> order(
            (#[trigger] fields[i]).name,
            (#[trigger] fields[j]).name,
        ) == Order::Before
}

/// The position of the first field from `from` on whose name does not come
/// before `name`.
pub open spec fn field_place(fields: Seq<JsonFieldModel>, name: Seq<char>, from: int) -> int
    decreases fields.len() - from,
{
    if from >= fields.len() || order(fields[from].name, name) != Order::Before {
        from
    } else {
        field_place(fields, name, from + 1)
    }
}

/// The fields with one more, which takes the place of one of its name.
pub open spec fn with_field(fields: Seq<JsonFieldModel>, field: JsonFieldModel) -> Seq<
    JsonFieldModel,
> {
    let at = field_place(fields, field.name, 0);
    if at < fields.len() && fields[at].name == field.name {
        fields.update(at, field)
    } else {
        fields.insert(at, field)
    }
}

/// What `serde_json` makes of a document that is handed to it: numbers that are
/// not finite become null, naturals that fit become integers, and fields stand
/// in the order of their names, the last of each name.
pub open spec fn settled(json: JsonModel) -> JsonModel
    decreases json, 0int,
{
    match json {
        JsonModel::Natural(value) => if value <= i64::MAX {
            JsonModel::Integer(value as i64)
        } else {
            json
        },
        JsonModel::Float(value) => if value.finite() {
            json
        } else {
            JsonModel::Null
        },
        JsonModel::Array(values) => JsonModel::Array(settled_list(values)),
        JsonModel::Object(fields) => JsonModel::Object(settled_fields(fields, 0, Seq::empty())),
        _ => json,
    }
}

pub open spec fn settled_list(values: Seq<JsonModel>) -> Seq<JsonModel>
    decreases values, 0int,
{
    Seq::new(
        values.len(),
        |i: int|
            if 0 <= i < values.len() {
                settled(values[i])
            } else {
                arbitrary()
            },
    )
}

/// The fields from `from` on, settled, over those before them.
pub open spec fn settled_fields(
    fields: Seq<JsonFieldModel>,
    from: int,
    done: Seq<JsonFieldModel>,
) -> Seq<JsonFieldModel>
    decreases fields, fields.len() - from,
{
    if from < 0 || from >= fields.len() {
        done
    } else {
        let field = JsonFieldModel {
            name: fields[from].name,
            value: settled(fields[from].value),
        };
        settled_fields(fields, from + 1, with_field(done, field))
    }
}

/// A regular document is settled.
pub proof fn law_regular_documents_stay(json: JsonModel)
    requires
        regular(json),
    ensures
        settled(json) == json,
    decreases json, 0int,
{
    match json {
        JsonModel::Array(values) => {
            assert forall|i: int| 0 <= i < values.len() implies settled(#[trigger] values[i])
                == values[i] by {
                assert(regular(values[i]));
                law_regular_documents_stay(values[i]);
            }
            assert(settled_list(values) =~= values);
        },
        JsonModel::Object(fields) => {
            assert(fields.take(0) =~= Seq::empty());
            lemma_regular_fields(fields, 0, Seq::empty());
        },
        _ => {},
    }
}

proof fn lemma_regular_fields(fields: Seq<JsonFieldModel>, from: int, done: Seq<JsonFieldModel>)
    requires
        regular_fields(fields),
        in_order(fields),
        0 <= from <= fields.len(),
        done == fields.take(from),
    ensures
        settled_fields(fields, from, done) == fields,
    decreases fields, fields.len() - from,
{
    if from < fields.len() {
        let field = fields[from];
        assert(regular(field.value));
        law_regular_documents_stay(field.value);
        lemma_last_place(fields, from, 0);
        assert(with_field(done, field) =~= fields.take(from + 1));
        lemma_regular_fields(fields, from + 1, fields.take(from + 1));
    } else {
        assert(fields.take(from) =~= fields);
    }
}

proof fn lemma_last_place(fields: Seq<JsonFieldModel>, until: int, from: int)
    requires
        in_order(fields),
        0 <= from <= until < fields.len(),
    ensures
        field_place(fields.take(until), fields[until].name, from) == until,
    decreases until - from,
{
    if from < until {
        assert(order(fields[from].name, fields[until].name) == Order::Before);
        lemma_last_place(fields, until, from + 1);
    }
}

/// Reads a document with `serde_json::from_slice`. Which bytes encode a
/// document, which one, and what is said of the others is given by name only.
#[verifier::external_body]
fn parse(bytes: &Vec<u8>) -> (result: Result<Document, String>)
    ensures
        match result {
            Ok(document) => parsed(bytes@) == Ok::<JsonModel, Seq<char>>(content(document)),
            Err(message) => parsed(bytes@) == Err::<JsonModel, Seq<char>>(message@),
        },
{
    match serde_json::from_slice(bytes.as_slice()) {
        Ok(tree) => Ok(Document(tree)),
        Err(error) => Err(error.to_string()),
    }
}

/// Takes a `serde_json::Value` apart by its variants and `Number::as_i64`,
/// `Number::as_u64` and `Number::as_f64`: the result is what it holds.
#[verifier::external_body]
fn load(document: Document) -> (json: Json)
    ensures
        json.model() == content(document),
{
    match document.0 {
        Tree::Bool(value) => Json::Boolean(value),
        Tree::Number(number) => match (number.as_i64(), number.as_u64()) {
            (Some(value), _) => Json::Integer(value),
            (_, Some(value)) => Json::Natural(value),
            _ => Json::Float(Binary64 { bits: number.as_f64().unwrap_or_default().to_bits() })
        },
        Tree::String(text) => Json::String(text),
        Tree::Array(values) => Json::Array(values.into_iter().map(Document).map(load).collect()),
        Tree::Object(fields) => Json::Object(
            fields.into_iter().map(|(name, value)| JsonField { name, value: load(Document(value)) }).collect()
        ),
        _ => Json::Null
    }
}

/// Builds a `serde_json::Value` by its `From` impls and its variants;
/// `Buf::get_f64` reads a number from its bits. It holds the settled document:
/// a number that is not finite becomes null, and a map keeps its keys in order,
/// each with its last value.
#[verifier::external_body]
fn build(json: &Json) -> (document: Document)
    ensures
        content(document) == settled(json.model()),
{
    Document(match json {
        Json::Null => Tree::Null,
        Json::Boolean(value) => (*value).into(),
        Json::Integer(value) => (*value).into(),
        Json::Natural(value) => (*value).into(),
        Json::Float(value) => value.bits.to_be_bytes().as_slice().get_f64().into(),
        Json::String(text) => text.as_str().into(),
        Json::Array(values) => values.iter().map(|value| build(value).0).collect(),
        Json::Object(fields) => Tree::Object(
            fields.iter().map(|field| (field.name.clone(), build(&field.value).0)).collect(),
        ),
    })
}

/// Writes a document with `serde_json::to_vec`. The bytes are given by name
/// only.
#[verifier::external_body]
fn write(document: &Document) -> (result: Result<Vec<u8>, String>)
    ensures
        match result {
            Ok(bytes) => compact(content(*document)) == Ok::<Seq<u8>, Seq<char>>(bytes@),
            Err(message) => compact(content(*document)) == Err::<Seq<u8>, Seq<char>>(message@),
        },
{
    match serde_json::to_vec(&document.0) {
        Ok(bytes) => Ok(bytes),
        Err(error) => Err(error.to_string()),
    }
}

/// Writes a document in lines with `serde_json::to_string_pretty`, which fails
/// on no `serde_json::Value`. The text is given by name only.
#[verifier::external_body]
fn write_lines(document: &Document) -> (text: String)
    ensures
        text@ == pretty(content(*document)),
{
    serde_json::to_string_pretty(&document.0).expect("values always convert to JSON")
}

/// Writes a document in one line with `serde_json::Value::to_string`. The text
/// is given by name only.
#[verifier::external_body]
fn write_short(document: &Document) -> (text: String)
    ensures
        text@ == line(content(*document)),
{
    document.0.to_string()
}

/// Reads the document that bytes encode.
pub fn decode(bytes: &Vec<u8>) -> (result: Result<Json, String>)
    ensures
        decoded_model(result) == parsed(bytes@),
{
    match parse(bytes) {
        Ok(document) => Ok(load(document)),
        Err(message) => Err(message),
    }
}

pub open spec fn bytes_model(result: Result<Vec<u8>, String>) -> Result<Seq<u8>, Seq<char>> {
    match result {
        Ok(bytes) => Ok(bytes@),
        Err(message) => Err(message@),
    }
}

/// Encodes a document as bytes.
pub fn encode(json: &Json) -> (result: Result<Vec<u8>, String>)
    ensures
        bytes_model(result) == compact(settled(json.model())),
        regular(json.model()) ==> bytes_model(result) == compact(json.model()),
{
    proof {
        if regular(json.model()) {
            law_regular_documents_stay(json.model());
        }
    }
    let document: Document = build(json);
    write(&document)
}

/// Writes a document in lines.
pub fn write_pretty(json: &Json) -> (text: String)
    ensures
        text@ == pretty(settled(json.model())),
        regular(json.model()) ==> text@ == pretty(json.model()),
{
    proof {
        if regular(json.model()) {
            law_regular_documents_stay(json.model());
        }
    }
    let document: Document = build(json);
    write_lines(&document)
}

/// Writes a document in one line.
pub fn write_line(json: &Json) -> (text: String)
    ensures
        text@ == line(settled(json.model())),
        regular(json.model()) ==> text@ == line(json.model()),
{
    proof {
        if regular(json.model()) {
            law_regular_documents_stay(json.model());
        }
    }
    let document: Document = build(json);
    write_short(&document)
}

} // verus!
