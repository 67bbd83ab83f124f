//! Values as JSON and back.

use vstd::prelude::*;
use vstd::string::*;

use crate::binary64::{Binary64, INFINITY, SIGN};
use crate::capability::CapabilityError;
use crate::syntax::{error_of, ErrorModel, Span};
use crate::value::{
    entry_models, inserted, order, place, sorted, value_models, Entry, EntryModel, Object, Order,
    Value, ValueModel,
};

verus! {

// ---------------------------------------------------------------------------
// Documents

/// A JSON document. Whole numbers below zero are `Integer`s; others are
/// `Integer`s or, where those end, `Natural`s.
#[derive(Debug, PartialEq)]
pub enum Json {
    Null,
    Boolean(bool),
    Integer(i64),
    Natural(u64),
    Float(Binary64),
    String(String),
    Array(Vec<Json>),
    Object(Vec<JsonField>),
}

#[derive(Debug, PartialEq)]
pub struct JsonField {
    pub name: String,
    pub value: Json,
}

pub enum JsonModel {
    Null,
    Boolean(bool),
    Integer(i64),
    Natural(u64),
    Float(Binary64),
    String(Seq<char>),
    Array(Seq<JsonModel>),
    Object(Seq<JsonFieldModel>),
}

pub struct JsonFieldModel {
    pub name: Seq<char>,
    pub value: JsonModel,
}

impl Json {
    pub open spec fn model(self) -> JsonModel
        decreases self,
    {
        match self {
            Json::Null => JsonModel::Null,
            Json::Boolean(value) => JsonModel::Boolean(value),
            Json::Integer(value) => JsonModel::Integer(value),
            Json::Natural(value) => JsonModel::Natural(value),
            Json::Float(value) => JsonModel::Float(value),
            Json::String(value) => JsonModel::String(value@),
            Json::Array(values) => JsonModel::Array(json_models(values@)),
            Json::Object(fields) => JsonModel::Object(json_field_models(fields@)),
        }
    }
}

impl JsonField {
    pub open spec fn model(self) -> JsonFieldModel
        decreases self,
    {
        JsonFieldModel { name: self.name@, value: self.value.model() }
    }
}

pub open spec fn json_models(values: Seq<Json>) -> Seq<JsonModel>
    decreases values,
{
    Seq::new(
        values.len(),
        |i: int|
            if 0 <= i < values.len() {
                values[i].model()
            } else {
                arbitrary()
            },
    )
}

pub open spec fn json_field_models(fields: Seq<JsonField>) -> Seq<JsonFieldModel>
    decreases fields,
{
    Seq::new(
        fields.len(),
        |i: int|
            if 0 <= i < fields.len() {
                fields[i].model()
            } else {
                arbitrary()
            },
    )
}

// ---------------------------------------------------------------------------
// Values to documents

impl Binary64 {
    pub open spec fn finite(self) -> bool {
        self.bits < INFINITY || SIGN <= self.bits < SIGN + INFINITY
    }

    pub fn is_finite(self) -> (yes: bool)
        ensures
            yes == self.finite(),
    {
        self.bits < INFINITY || (self.bits >= SIGN && self.bits - SIGN < INFINITY)
    }
}

/// The document that shows a value.
pub open spec fn encoded(value: ValueModel, span: Span) -> Result<JsonModel, ErrorModel>
    decreases value, 0int,
{
    match value {
        ValueModel::Null => Ok(JsonModel::Null),
        ValueModel::Boolean(value) => Ok(JsonModel::Boolean(value)),
        ValueModel::Integer(value) => Ok(JsonModel::Integer(value)),
        ValueModel::Float(value) => if value.finite() {
            Ok(JsonModel::Float(value))
        } else {
            Err(error_of("JSON number must be finite"@, span))
        },
        ValueModel::String(value) => Ok(JsonModel::String(value)),
        ValueModel::Bytes(_) => Err(error_of("byte values cannot be encoded as JSON"@, span)),
        ValueModel::Duration(_) => Err(
            error_of("duration values cannot be encoded as JSON"@, span),
        ),
        ValueModel::Array(values) => match encoded_list(values, 0, span, Seq::empty()) {
            Ok(items) => Ok(JsonModel::Array(items)),
            Err(error) => Err(error),
        },
        ValueModel::Object(entries) => match encoded_entries(entries, 0, span, Seq::empty()) {
            Ok(fields) => Ok(JsonModel::Object(fields)),
            Err(error) => Err(error),
        },
        ValueModel::Sensitive(inner) => encoded(*inner, span),
    }
}

/// The documents of the values from `from` on, behind `done`.
pub open spec fn encoded_list(
    values: Seq<ValueModel>,
    from: int,
    span: Span,
    done: Seq<JsonModel>,
) -> Result<Seq<JsonModel>, ErrorModel>
    decreases values, values.len() - from,
{
    if from < 0 || from >= values.len() {
        Ok(done)
    } else {
        match encoded(values[from], span) {
            Ok(item) => encoded_list(values, from + 1, span, done.push(item)),
            Err(error) => Err(error),
        }
    }
}

pub open spec fn encoded_entries(
    entries: Seq<EntryModel>,
    from: int,
    span: Span,
    done: Seq<JsonFieldModel>,
) -> Result<Seq<JsonFieldModel>, ErrorModel>
    decreases entries, entries.len() - from,
{
    if from < 0 || from >= entries.len() {
        Ok(done)
    } else {
        match encoded(entries[from].value, span) {
            Ok(value) => encoded_entries(
                entries,
                from + 1,
                span,
                done.push(JsonFieldModel { name: entries[from].name, value }),
            ),
            Err(error) => Err(error),
        }
    }
}

pub open spec fn json_result(result: Result<Json, CapabilityError>) -> Result<JsonModel, ErrorModel> {
    match result {
        Ok(json) => Ok(json.model()),
        Err(error) => Err(error.model()),
    }
}

pub open spec fn decoded_model(decoded: Result<Json, String>) -> Result<JsonModel, Seq<char>> {
    match decoded {
        Ok(json) => Ok(json.model()),
        Err(message) => Err(message@),
    }
}

/// Shows a value as a document.
pub fn to_json(value: &Value, span: Span) -> (result: Result<Json, CapabilityError>)
    ensures
        json_result(result) == encoded(value.model(), span),
    decreases value, 1int,
{
    match value {
        Value::Null => Ok(Json::Null),
        Value::Boolean(value) => Ok(Json::Boolean(*value)),
        Value::Integer(value) => Ok(Json::Integer(*value)),
        Value::Float(value) => {
            if value.is_finite() {
                Ok(Json::Float(*value))
            } else {
                Err(CapabilityError::new("JSON number must be finite".to_owned(), span))
            }
        },
        Value::String(value) => Ok(Json::String(value.clone())),
        Value::Bytes(_) => Err(
            CapabilityError::new("byte values cannot be encoded as JSON".to_owned(), span),
        ),
        Value::Duration(_) => Err(
            CapabilityError::new("duration values cannot be encoded as JSON".to_owned(), span),
        ),
        Value::Array(values) => list_to_json(values, span),
        Value::Object(object) => {
            proof {
                assert(object.model() == entry_models(object.entries@));
            }
            entries_to_json(&object.entries, span)
        },
        Value::Sensitive(inner) => to_json(&**inner, span),
    }
}

fn list_to_json(values: &Vec<Value>, span: Span) -> (result: Result<Json, CapabilityError>)
    ensures
        json_result(result) == (match encoded_list(value_models(values@), 0, span, Seq::empty()) {
            Ok(items) => Ok(JsonModel::Array(items)),
            Err(error) => Err(error),
        }),
    decreases values, 0int,
{
    let ghost models = value_models(values@);
    let mut items: Vec<Json> = Vec::new();
    proof {
        assert(json_models(items@) =~= Seq::empty());
    }
    let mut at: usize = 0;
    while at < values.len()
        invariant
            models == value_models(values@),
            at <= values@.len(),
            encoded_list(models, 0, span, Seq::empty()) == encoded_list(
                models,
                at as int,
                span,
                json_models(items@),
            ),
        decreases values@.len() - at,
    {
        proof {
            assert(models[at as int] == values@[at as int].model());
        }
        match to_json(&values[at], span) {
            Ok(item) => {
                let ghost before = json_models(items@);
                items.push(item);
                proof {
                    assert(json_models(items@) =~= before.push(item.model()));
                }
            },
            Err(error) => {
                return Err(error);
            },
        }
        at += 1;
    }
    Ok(Json::Array(items))
}

fn entries_to_json(entries: &Vec<Entry>, span: Span) -> (result: Result<Json, CapabilityError>)
    ensures
        json_result(result) == (match encoded_entries(
            entry_models(entries@),
            0,
            span,
            Seq::empty(),
        ) {
            Ok(fields) => Ok(JsonModel::Object(fields)),
            Err(error) => Err(error),
        }),
    decreases entries, 0int,
{
    let ghost models = entry_models(entries@);
    let mut fields: Vec<JsonField> = Vec::new();
    proof {
        assert(json_field_models(fields@) =~= Seq::empty());
    }
    let mut at: usize = 0;
    while at < entries.len()
        invariant
            models == entry_models(entries@),
            at <= entries@.len(),
            encoded_entries(models, 0, span, Seq::empty()) == encoded_entries(
                models,
                at as int,
                span,
                json_field_models(fields@),
            ),
        decreases entries@.len() - at,
    {
        proof {
            assert(models[at as int] == entries@[at as int].model());
            assert(models[at as int].value == entries@[at as int].value.model());
        }
        match to_json(&entries[at].value, span) {
            Ok(value) => {
                let ghost before = json_field_models(fields@);
                let name: String = entries[at].name.clone();
                fields.push(JsonField { name, value });
                proof {
                    assert(json_field_models(fields@) =~= before.push(
                        JsonFieldModel { name: name@, value: value.model() },
                    ));
                }
            },
            Err(error) => {
                return Err(error);
            },
        }
        at += 1;
    }
    Ok(Json::Object(fields))
}

// ---------------------------------------------------------------------------
// Documents to values

/// The value that a document shows.
pub open spec fn decoded(json: JsonModel, span: Span) -> Result<ValueModel, ErrorModel>
    decreases json, 0int,
{
    match json {
        JsonModel::Null => Ok(ValueModel::Null),
        JsonModel::Boolean(value) => Ok(ValueModel::Boolean(value)),
        JsonModel::Integer(value) => Ok(ValueModel::Integer(value)),
        JsonModel::Natural(value) => if value <= i64::MAX {
            Ok(ValueModel::Integer(value as i64))
        } else {
            Err(error_of("JSON integer is outside Mettle's supported 64-bit range"@, span))
        },
        JsonModel::Float(value) => if value.finite() {
            Ok(ValueModel::Float(value))
        } else {
            Err(error_of("JSON decimal is outside Mettle's finite number range"@, span))
        },
        JsonModel::String(value) => Ok(ValueModel::String(value)),
        JsonModel::Array(values) => match decoded_list(values, 0, span, Seq::empty()) {
            Ok(items) => Ok(ValueModel::Array(items)),
            Err(error) => Err(error),
        },
        JsonModel::Object(fields) => match decoded_fields(fields, 0, span, Seq::empty()) {
            Ok(entries) => Ok(ValueModel::Object(entries)),
            Err(error) => Err(error),
        },
    }
}

/// The values of the documents from `from` on, behind `done`.
pub open spec fn decoded_list(
    values: Seq<JsonModel>,
    from: int,
    span: Span,
    done: Seq<ValueModel>,
) -> Result<Seq<ValueModel>, ErrorModel>
    decreases values, values.len() - from,
{
    if from < 0 || from >= values.len() {
        Ok(done)
    } else {
        match decoded(values[from], span) {
            Ok(item) => decoded_list(values, from + 1, span, done.push(item)),
            Err(error) => Err(error),
        }
    }
}

/// The fields from `from` on, laid over `done`.
pub open spec fn decoded_fields(
    fields: Seq<JsonFieldModel>,
    from: int,
    span: Span,
    done: Seq<EntryModel>,
) -> Result<Seq<EntryModel>, ErrorModel>
    decreases fields, fields.len() - from,
{
    if from < 0 || from >= fields.len() {
        Ok(done)
    } else {
        match decoded(fields[from].value, span) {
            Ok(value) => decoded_fields(
                fields,
                from + 1,
                span,
                inserted(done, fields[from].name, value),
            ),
            Err(error) => Err(error),
        }
    }
}

pub open spec fn value_or_error(result: Result<Value, CapabilityError>) -> Result<
    ValueModel,
    ErrorModel,
> {
    match result {
        Ok(value) => Ok(value.model()),
        Err(error) => Err(error.model()),
    }
}

/// Reads the value that a document shows.
pub fn from_json(json: &Json, span: Span) -> (result: Result<Value, CapabilityError>)
    ensures
        value_or_error(result) == decoded(json.model(), span),
    decreases json, 1int,
{
    match json {
        Json::Null => Ok(Value::Null),
        Json::Boolean(value) => Ok(Value::Boolean(*value)),
        Json::Integer(value) => Ok(Value::Integer(*value)),
        Json::Natural(value) => {
            if *value <= i64::MAX as u64 {
                Ok(Value::Integer(*value as i64))
            } else {
                Err(
                    CapabilityError::new(
                        "JSON integer is outside Mettle's supported 64-bit range".to_owned(),
                        span,
                    ),
                )
            }
        },
        Json::Float(value) => {
            if value.is_finite() {
                Ok(Value::Float(*value))
            } else {
                Err(
                    CapabilityError::new(
                        "JSON decimal is outside Mettle's finite number range".to_owned(),
                        span,
                    ),
                )
            }
        },
        Json::String(value) => Ok(Value::String(value.clone())),
        Json::Array(values) => list_from_json(values, span),
        Json::Object(fields) => fields_from_json(fields, span),
    }
}

fn list_from_json(values: &Vec<Json>, span: Span) -> (result: Result<Value, CapabilityError>)
    ensures
        value_or_error(result) == (match decoded_list(json_models(values@), 0, span, Seq::empty()) {
            Ok(items) => Ok(ValueModel::Array(items)),
            Err(error) => Err(error),
        }),
    decreases values, 0int,
{
    let ghost models = json_models(values@);
    let mut items: Vec<Value> = Vec::new();
    proof {
        assert(value_models(items@) =~= Seq::empty());
    }
    let mut at: usize = 0;
    while at < values.len()
        invariant
            models == json_models(values@),
            at <= values@.len(),
            decoded_list(models, 0, span, Seq::empty()) == decoded_list(
                models,
                at as int,
                span,
                value_models(items@),
            ),
        decreases values@.len() - at,
    {
        proof {
            assert(models[at as int] == values@[at as int].model());
        }
        match from_json(&values[at], span) {
            Ok(item) => {
                let ghost before = value_models(items@);
                items.push(item);
                proof {
                    assert(value_models(items@) =~= before.push(item.model()));
                }
            },
            Err(error) => {
                return Err(error);
            },
        }
        at += 1;
    }
    Ok(Value::Array(items))
}

fn fields_from_json(fields: &Vec<JsonField>, span: Span) -> (result: Result<Value, CapabilityError>)
    ensures
        value_or_error(result) == (match decoded_fields(
            json_field_models(fields@),
            0,
            span,
            Seq::empty(),
        ) {
            Ok(entries) => Ok(ValueModel::Object(entries)),
            Err(error) => Err(error),
        }),
    decreases fields, 0int,
{
    let ghost models = json_field_models(fields@);
    let mut object: Object = Object::new();
    let mut at: usize = 0;
    while at < fields.len()
        invariant
            models == json_field_models(fields@),
            at <= fields@.len(),
            decoded_fields(models, 0, span, Seq::empty()) == decoded_fields(
                models,
                at as int,
                span,
                object.model(),
            ),
        decreases fields@.len() - at,
    {
        proof {
            assert(models[at as int] == fields@[at as int].model());
            assert(models[at as int].value == fields@[at as int].value.model());
        }
        match from_json(&fields[at].value, span) {
            Ok(value) => {
                object.insert(fields[at].name.clone(), value);
            },
            Err(error) => {
                return Err(error);
            },
        }
        at += 1;
    }
    Ok(Value::Object(object))
}

// ---------------------------------------------------------------------------
// There and back

/// Whether every object inside the value has its entries in order.
pub open spec fn tidy(value: ValueModel) -> bool
    decreases value,
{
    match value {
        ValueModel::Array(values) => all_tidy(values),
        ValueModel::Object(entries) => sorted(entries) && all_entries_tidy(entries),
        ValueModel::Sensitive(inner) => tidy(*inner),
        _ => true,
    }
}

pub open spec fn all_tidy(values: Seq<ValueModel>) -> bool
    decreases values,
{
    forall|i: int| 0 <= i < values.len() ==> tidy(#[trigger] values[i])
}

pub open spec fn all_entries_tidy(entries: Seq<EntryModel>) -> bool
    decreases entries,
{
    forall|i: int| 0 <= i < entries.len() ==> tidy((#[trigger] entries[i]).value)
}

/// The value without its marks of sensitivity.
pub open spec fn bare(value: ValueModel) -> ValueModel
    decreases value,
{
    match value {
        ValueModel::Array(values) => ValueModel::Array(bare_list(values)),
        ValueModel::Object(entries) => ValueModel::Object(bare_entries(entries)),
        ValueModel::Sensitive(inner) => bare(*inner),
        _ => value,
    }
}

pub open spec fn bare_list(values: Seq<ValueModel>) -> Seq<ValueModel>
    decreases values,
{
    Seq::new(
        values.len(),
        |i: int|
            if 0 <= i < values.len() {
                bare(values[i])
            } else {
                arbitrary()
            },
    )
}

pub open spec fn bare_entries(entries: Seq<EntryModel>) -> Seq<EntryModel>
    decreases entries,
{
    Seq::new(
        entries.len(),
        |i: int|
            if 0 <= i < entries.len() {
                EntryModel { name: entries[i].name, value: bare(entries[i].value) }
            } else {
                arbitrary()
            },
    )
}

/// A name behind all others is entered at the end.
proof fn lemma_inserted_last(entries: Seq<EntryModel>, name: Seq<char>, value: ValueModel, from: int)
    requires
        0 <= from <= entries.len(),
        forall|i: int|
            0 <= i < entries.len() ==> order((#[trigger] entries[i]).name, name) == Order::Before,
    ensures
        place(entries, name, from) == entries.len(),
        from == 0 ==> inserted(entries, name, value) == entries.push(EntryModel { name, value }),
    decreases entries.len() - from,
{
    if from < entries.len() {
        lemma_inserted_last(entries, name, value, from + 1);
    }
    if from == 0 {
        assert(entries.insert(entries.len() as int, EntryModel { name, value }) =~= entries.push(
            EntryModel { name, value },
        ));
    }
}

/// What a value becomes as a document is what it was, but for marks of
/// sensitivity.
pub proof fn law_json_round_trip(value: ValueModel, span: Span)
    requires
        tidy(value),
    ensures
        encoded(value, span) matches Ok(json) ==> decoded(json, span) == Ok::<
            ValueModel,
            ErrorModel,
        >(bare(value)),
    decreases value, 0int,
{
    match value {
        ValueModel::Array(values) => {
            assert(bare_list(values).take(0) =~= Seq::empty());
            lemma_list_round_trip(values, 0, span, Seq::empty(), Seq::empty());
        },
        ValueModel::Object(entries) => {
            assert(bare_entries(entries).take(0) =~= Seq::empty());
            lemma_entries_round_trip(entries, 0, span, Seq::empty(), Seq::empty());
        },
        ValueModel::Sensitive(inner) => {
            law_json_round_trip(*inner, span);
        },
        _ => {},
    }
}

proof fn lemma_list_round_trip(
    values: Seq<ValueModel>,
    from: int,
    span: Span,
    shown: Seq<JsonModel>,
    read: Seq<ValueModel>,
)
    requires
        0 <= from <= values.len(),
        all_tidy(values),
        shown.len() == from,
        read == bare_list(values).take(from),
    ensures
        encoded_list(values, from, span, shown) matches Ok(items) ==> items.len() == values.len()
            && items.take(from) == shown && decoded_list(items, from, span, read) == Ok::<
            Seq<ValueModel>,
            ErrorModel,
        >(bare_list(values)),
    decreases values, values.len() - from,
{
    let whole = bare_list(values);
    if from == values.len() {
        assert(whole.take(from) =~= whole);
        assert(shown.take(from) =~= shown);
    } else {
        law_json_round_trip(values[from], span);
        if encoded(values[from], span) is Ok {
            let item = encoded(values[from], span)->Ok_0;
            assert(whole.take(from + 1) =~= read.push(bare(values[from])));
            lemma_list_round_trip(
                values,
                from + 1,
                span,
                shown.push(item),
                read.push(bare(values[from])),
            );
            if encoded_list(values, from, span, shown) is Ok {
                let items = encoded_list(values, from, span, shown)->Ok_0;
                assert(items.take(from + 1)[from] == item);
                assert(items.take(from) =~= items.take(from + 1).take(from));
                assert(shown.push(item).take(from) =~= shown);
            }
        }
    }
}

proof fn lemma_entries_round_trip(
    entries: Seq<EntryModel>,
    from: int,
    span: Span,
    shown: Seq<JsonFieldModel>,
    read: Seq<EntryModel>,
)
    requires
        0 <= from <= entries.len(),
        all_entries_tidy(entries),
        sorted(entries),
        shown.len() == from,
        read == bare_entries(entries).take(from),
    ensures
        encoded_entries(entries, from, span, shown) matches Ok(fields) ==> fields.len()
            == entries.len() && fields.take(from) == shown && decoded_fields(
            fields,
            from,
            span,
            read,
        ) == Ok::<Seq<EntryModel>, ErrorModel>(bare_entries(entries)),
    decreases entries, entries.len() - from,
{
    let whole = bare_entries(entries);
    if from == entries.len() {
        assert(whole.take(from) =~= whole);
        assert(shown.take(from) =~= shown);
    } else {
        let name = entries[from].name;
        law_json_round_trip(entries[from].value, span);
        if encoded(entries[from].value, span) is Ok {
            let value = encoded(entries[from].value, span)->Ok_0;
            let item = JsonFieldModel { name, value };
            let entry = EntryModel { name, value: bare(entries[from].value) };
            assert(whole.take(from + 1) =~= read.push(entry));
            assert forall|i: int| 0 <= i < read.len() implies order(
                (#[trigger] read[i]).name,
                name,
            ) == Order::Before by {
                assert(order(entries[i].name, entries[from].name) == Order::Before);
            }
            lemma_inserted_last(read, name, entry.value, 0);
            lemma_entries_round_trip(entries, from + 1, span, shown.push(item), read.push(entry));
            if encoded_entries(entries, from, span, shown) is Ok {
                let fields = encoded_entries(entries, from, span, shown)->Ok_0;
                assert(fields.take(from + 1)[from] == item);
                assert(fields.take(from) =~= fields.take(from + 1).take(from));
                assert(shown.push(item).take(from) =~= shown);
            }
        }
    }
}

} // verus!
