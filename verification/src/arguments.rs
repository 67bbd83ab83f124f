//! The arguments that flows are given on the command line.

use vstd::prelude::*;
use vstd::string::*;

use crate::capability::pair_models;
use crate::duration::Duration;
use crate::grammar::value_of;
use crate::parser::parse_value;
use crate::plan::MettlePlan;
use crate::syntax::{
    expression_models, field_models, Expression, ExpressionKind, ExpressionKindModel,
    ExpressionModel, ObjectField, ObjectFieldModel,
};
use crate::text::{chars_of, decimal, decimal_text, digit_char, is_digit, same, views, wrapped};
use crate::value::{inserted, value_models, EntryModel, Object, Value, ValueModel};

verus! {

// ---------------------------------------------------------------------------
// Literals

/// The value of a literal.
pub open spec fn literal(expression: ExpressionModel) -> Option<ValueModel>
    decreases expression, 0int,
{
    match expression.kind {
        ExpressionKindModel::Null => Some(ValueModel::Null),
        ExpressionKindModel::Boolean(value) => Some(ValueModel::Boolean(value)),
        ExpressionKindModel::Integer(value) => Some(ValueModel::Integer(value)),
        ExpressionKindModel::Float(value) => Some(ValueModel::Float(value)),
        ExpressionKindModel::String(value) => Some(ValueModel::String(value)),
        ExpressionKindModel::Name(value) => Some(ValueModel::String(value)),
        ExpressionKindModel::DurationNanos(nanos) => Some(
            ValueModel::Duration(Duration { nanos: nanos as u128 }),
        ),
        ExpressionKindModel::Array(values) => match literal_list(values, 0, Seq::empty()) {
            Some(values) => Some(ValueModel::Array(values)),
            None => None,
        },
        ExpressionKindModel::Object(fields) => match literal_fields(fields, 0, Seq::empty()) {
            Some(entries) => Some(ValueModel::Object(entries)),
            None => None,
        },
        _ => None,
    }
}

pub open spec fn literal_list(
    values: Seq<ExpressionModel>,
    from: int,
    done: Seq<ValueModel>,
) -> Option<Seq<ValueModel>>
    decreases values, values.len() - from,
{
    if from < 0 || from >= values.len() {
        Some(done)
    } else {
        match literal(values[from]) {
            Some(value) => literal_list(values, from + 1, done.push(value)),
            None => None,
        }
    }
}

pub open spec fn literal_fields(
    fields: Seq<ObjectFieldModel>,
    from: int,
    done: Seq<EntryModel>,
) -> Option<Seq<EntryModel>>
    decreases fields, fields.len() - from,
{
    if from < 0 || from >= fields.len() {
        Some(done)
    } else {
        match literal_field(fields[from]) {
            Some(value) => literal_fields(
                fields,
                from + 1,
                inserted(done, fields[from].name.value, value),
            ),
            None => None,
        }
    }
}

pub open spec fn literal_field(field: ObjectFieldModel) -> Option<ValueModel>
    decreases field, 0int,
{
    literal(field.expression)
}

pub open spec fn optional_model(value: Option<Value>) -> Option<ValueModel> {
    match value {
        Some(value) => Some(value.model()),
        None => None,
    }
}

fn read_literals(values: &Vec<Expression>) -> (result: Option<Vec<Value>>)
    ensures
        (match result {
            Some(values) => Some(value_models(values@)),
            None => None,
        }) == literal_list(expression_models(values@), 0, Seq::empty()),
    decreases *values,
{
    let ghost models = expression_models(values@);
    let mut read: Vec<Value> = Vec::new();
    proof {
        assert(value_models(read@) =~= Seq::empty());
    }
    let mut at: usize = 0;
    while at < values.len()
        invariant
            models == expression_models(values@),
            at <= values@.len(),
            literal_list(models, 0, Seq::empty()) == literal_list(
                models,
                at as int,
                value_models(read@),
            ),
        decreases values@.len() - at,
    {
        proof {
            assert(models[at as int] == values@[at as int].model());
            assert(decreases_to!(*values => values@));
            assert(decreases_to!(values@ => values@[at as int]));
        }
        let ghost before = value_models(read@);
        match value_from_expression(&values[at]) {
            Some(value) => {
                read.push(value);
                proof {
                    assert(value_models(read@) =~= before.push(value.model()));
                }
            },
            None => {
                return None;
            },
        }
        at += 1;
    }
    Some(read)
}

fn read_fields(fields: &Vec<ObjectField>) -> (result: Option<Object>)
    ensures
        (match result {
            Some(object) => Some(object.model()),
            None => None,
        }) == literal_fields(field_models(fields@), 0, Seq::empty()),
    decreases *fields,
{
    let ghost models = field_models(fields@);
    let mut object: Object = Object::new();
    let mut at: usize = 0;
    while at < fields.len()
        invariant
            models == field_models(fields@),
            at <= fields@.len(),
            literal_fields(models, 0, Seq::empty()) == literal_fields(
                models,
                at as int,
                object.model(),
            ),
        decreases fields@.len() - at,
    {
        proof {
            assert(models[at as int] == fields@[at as int].model());
            assert(models[at as int].expression == fields@[at as int].expression.model());
            assert(literal_field(models[at as int]) == literal(models[at as int].expression));
            assert(decreases_to!(*fields => fields@));
            assert(decreases_to!(fields@ => fields@[at as int]));
            assert(decreases_to!(fields@[at as int] => fields@[at as int].expression));
        }
        match value_from_expression(&fields[at].expression) {
            Some(value) => {
                object.insert(fields[at].name.value.clone(), value);
            },
            None => {
                return None;
            },
        }
        at += 1;
    }
    Some(object)
}

/// The value of an expression, where it is a literal.
pub fn value_from_expression(expression: &Expression) -> (value: Option<Value>)
    ensures
        optional_model(value) == literal(expression.model()),
    decreases *expression,
{
    proof {
        reveal(ExpressionKind::model);
        assert(expression.model().kind == expression.kind.model());
    }
    match &expression.kind {
        ExpressionKind::Null => Some(Value::Null),
        ExpressionKind::Boolean(value) => Some(Value::Boolean(*value)),
        ExpressionKind::Integer(value) => Some(Value::Integer(*value)),
        ExpressionKind::Float(value) => Some(Value::Float(*value)),
        ExpressionKind::String(value) => Some(Value::String(value.clone())),
        ExpressionKind::Name(value) => Some(Value::String(value.clone())),
        ExpressionKind::DurationNanos(nanos) => Some(Value::Duration(Duration::from_nanos(*nanos))),
        ExpressionKind::Array(values) => match read_literals(values) {
            Some(values) => Some(Value::Array(values)),
            None => None,
        },
        ExpressionKind::Object(fields) => match read_fields(fields) {
            Some(object) => Some(Value::Object(object)),
            None => None,
        },
        _ => None,
    }
}

// ---------------------------------------------------------------------------
// Single arguments

/// Whether a text is meant as a literal.
pub open spec fn explicit(text: Seq<char>) -> bool {
    ||| text.len() > 0 && (text[0] == '"' || text[0] == '[' || text[0] == '{' || is_digit(text[0]))
    ||| text == "true"@
    ||| text == "false"@
    ||| text == "null"@
}

pub fn looks_like_explicit_literal(text: &str) -> (yes: bool)
    ensures
        yes == explicit(text@),
{
    let chars: Vec<char> = chars_of(text);
    if chars.len() > 0 {
        let first: char = chars[0];
        if first == '"' || first == '[' || first == '{' || digit_char(first) {
            return true;
        }
    }
    same(text, "true") || same(text, "false") || same(text, "null")
}

/// The value that a text stands for: that of a literal, or the text itself
/// where it is not meant as one.
pub open spec fn argument_value(name: Seq<char>, text: Seq<char>) -> Result<
    ValueModel,
    Seq<char>,
> {
    let start = "invalid value for argument `"@ + name + "`: "@;
    match value_of(text) {
        Ok(expression) => match literal(expression) {
            Some(value) => Ok(value),
            None => Err(start + "flow arguments must be literal values"@),
        },
        Err(error) => if explicit(text) {
            Err(start + error.message + " at byte "@ + decimal(error.span.start as nat))
        } else {
            Ok(ValueModel::String(text))
        },
    }
}

pub open spec fn value_result(result: Result<Value, String>) -> Result<ValueModel, Seq<char>> {
    match result {
        Ok(value) => Ok(value.model()),
        Err(message) => Err(message@),
    }
}

/// Reads the value of an argument.
pub fn parse_argument_value(name: &str, text: &str) -> (result: Result<Value, String>)
    ensures
        value_result(result) == argument_value(name@, text@),
{
    match parse_value(text) {
        Ok(expression) => match value_from_expression(&expression) {
            Some(value) => Ok(value),
            None => {
                let mut message: String = wrapped("invalid value for argument `", name, "`: ");
                message.append("flow arguments must be literal values");
                Err(message)
            },
        },
        Err(error) => {
            if !looks_like_explicit_literal(text) {
                return Ok(Value::String(text.to_owned()));
            }
            let mut message: String = wrapped("invalid value for argument `", name, "`: ");
            message.append(error.message.as_str());
            message.append(" at byte ");
            message.append(decimal_text(error.span.start as u128).as_str());
            Err(message)
        },
    }
}

// ---------------------------------------------------------------------------
// All arguments

/// The first argument with a name, from `from` on.
pub open spec fn argument_named(
    arguments: Seq<(Seq<char>, Seq<char>)>,
    name: Seq<char>,
    from: int,
) -> Option<int>
    decreases arguments.len() - from,
{
    if from < 0 || from >= arguments.len() {
        None
    } else if arguments[from].0 == name {
        Some(from)
    } else {
        argument_named(arguments, name, from + 1)
    }
}

/// The first name that is given a second time, from `from` on.
pub open spec fn repeated_name(arguments: Seq<(Seq<char>, Seq<char>)>, from: int) -> Option<
    Seq<char>,
>
    decreases arguments.len() - from,
{
    if from < 0 || from >= arguments.len() {
        None
    } else if argument_named(arguments.take(from), arguments[from].0, 0) is Some {
        Some(arguments[from].0)
    } else {
        repeated_name(arguments, from + 1)
    }
}

/// The values of the parameters from `from` on, out of the arguments that are
/// left.
pub open spec fn resolved(
    flow: Seq<char>,
    parameters: Seq<Seq<char>>,
    from: int,
    left: Seq<(Seq<char>, Seq<char>)>,
    done: Seq<ValueModel>,
) -> Result<Seq<ValueModel>, Seq<char>>
    decreases parameters.len() - from,
{
    if from < 0 || from >= parameters.len() {
        if left.len() > 0 {
            Err("flow `"@ + flow + "` has no argument named `"@ + left[0].0 + "`"@)
        } else {
            Ok(done)
        }
    } else {
        match argument_named(left, parameters[from], 0) {
            None => Err("flow `"@ + flow + "` requires argument `"@ + parameters[from] + "`"@),
            Some(at) => match argument_value(parameters[from], left[at].1) {
                Ok(value) => resolved(
                    flow,
                    parameters,
                    from + 1,
                    left.remove(at),
                    done.push(value),
                ),
                Err(message) => Err(message),
            },
        }
    }
}

/// The values that a flow is run with.
pub open spec fn resolved_arguments(
    flow: Seq<char>,
    parameters: Seq<Seq<char>>,
    supplied: Seq<(Seq<char>, Seq<char>)>,
) -> Result<Seq<ValueModel>, Seq<char>> {
    match repeated_name(supplied, 0) {
        Some(name) => Err("flow argument `"@ + name + "` was supplied more than once"@),
        None => resolved(flow, parameters, 0, supplied, Seq::empty()),
    }
}

fn find_argument(arguments: &Vec<(String, String)>, name: &str) -> (at: Option<usize>)
    ensures
        (match at {
            Some(at) => Some(at as int),
            None => None,
        }) == argument_named(pair_models(arguments@), name@, 0),
        at matches Some(at) ==> at < arguments@.len(),
{
    let ghost models = pair_models(arguments@);
    let mut at: usize = 0;
    while at < arguments.len()
        invariant
            models == pair_models(arguments@),
            at <= arguments@.len(),
            argument_named(models, name@, 0) == argument_named(models, name@, at as int),
        decreases arguments@.len() - at,
    {
        proof {
            assert(models[at as int] == (arguments@[at as int].0@, arguments@[at as int].1@));
        }
        if same(arguments[at].0.as_str(), name) {
            return Some(at);
        }
        at += 1;
    }
    None
}

fn find_repeated(supplied: &Vec<(String, String)>) -> (result: Result<Vec<(String, String)>, String>)
    ensures
        match result {
            Ok(left) => repeated_name(pair_models(supplied@), 0) is None && pair_models(
                left@,
            ) == pair_models(supplied@),
            Err(name) => repeated_name(pair_models(supplied@), 0) == Some(name@),
        },
{
    let ghost models = pair_models(supplied@);
    let mut left: Vec<(String, String)> = Vec::new();
    let mut at: usize = 0;
    proof {
        assert(pair_models(left@) =~= models.take(0));
    }
    while at < supplied.len()
        invariant
            models == pair_models(supplied@),
            at <= supplied@.len(),
            pair_models(left@) == models.take(at as int),
            repeated_name(models, 0) == repeated_name(models, at as int),
        decreases supplied@.len() - at,
    {
        proof {
            assert(models[at as int] == (supplied@[at as int].0@, supplied@[at as int].1@));
        }
        if find_argument(&left, supplied[at].0.as_str()).is_some() {
            return Err(supplied[at].0.clone());
        }
        let ghost before = left@;
        left.push((supplied[at].0.clone(), supplied[at].1.clone()));
        proof {
            assert(pair_models(left@) =~= pair_models(before).push(models[at as int]));
            assert(models.take(at + 1) =~= models.take(at as int).push(models[at as int]));
        }
        at += 1;
    }
    proof {
        assert(models.take(at as int) =~= models);
    }
    Ok(left)
}

pub open spec fn values_result(result: Result<Vec<Value>, String>) -> Result<
    Seq<ValueModel>,
    Seq<char>,
> {
    match result {
        Ok(values) => Ok(value_models(values@)),
        Err(message) => Err(message@),
    }
}

/// The values that a flow is run with.
pub fn resolve_arguments(flow: &MettlePlan, supplied: &Vec<(String, String)>) -> (result: Result<
    Vec<Value>,
    String,
>)
    ensures
        values_result(result) == resolved_arguments(
            flow.display_name@,
            views(flow.parameters@),
            pair_models(supplied@),
        ),
{
    let ghost parameters = views(flow.parameters@);
    let ghost name = flow.display_name@;
    let mut left: Vec<(String, String)> = match find_repeated(supplied) {
        Ok(left) => left,
        Err(name) => {
            return Err(
                wrapped("flow argument `", name.as_str(), "` was supplied more than once"),
            );
        },
    };
    let ghost first = pair_models(left@);
    let mut values: Vec<Value> = Vec::new();
    proof {
        assert(value_models(values@) =~= Seq::empty());
    }
    let mut at: usize = 0;
    while at < flow.parameters.len()
        invariant
            parameters == views(flow.parameters@),
            name == flow.display_name@,
            at <= flow.parameters@.len(),
            repeated_name(pair_models(supplied@), 0) is None,
            first == pair_models(supplied@),
            resolved(name, parameters, 0, first, Seq::empty()) == resolved(
                name,
                parameters,
                at as int,
                pair_models(left@),
                value_models(values@),
            ),
        decreases flow.parameters@.len() - at,
    {
        proof {
            assert(parameters[at as int] == flow.parameters@[at as int]@);
        }
        let parameter: &str = flow.parameters[at].as_str();
        match find_argument(&left, parameter) {
            None => {
                let start: String = wrapped(
                    "flow `",
                    flow.display_name.as_str(),
                    "` requires argument `",
                );
                return Err(wrapped(start.as_str(), parameter, "`"));
            },
            Some(found) => {
                let ghost held = left@;
                proof {
                    assert(pair_models(held)[found as int] == (
                        held[found as int].0@,
                        held[found as int].1@,
                    ));
                    assert(pair_models(held.remove(found as int)) =~= pair_models(
                        held,
                    ).remove(found as int));
                }
                let pair: (String, String) = left.remove(found);
                match parse_argument_value(parameter, pair.1.as_str()) {
                    Ok(value) => {
                        let ghost before = value_models(values@);
                        values.push(value);
                        proof {
                            assert(value_models(values@) =~= before.push(value.model()));
                        }
                    },
                    Err(message) => {
                        return Err(message);
                    },
                }
            },
        }
        at += 1;
    }
    if left.len() > 0 {
        proof {
            assert(pair_models(left@)[0] == (left@[0].0@, left@[0].1@));
        }
        let start: String = wrapped(
            "flow `",
            flow.display_name.as_str(),
            "` has no argument named `",
        );
        return Err(wrapped(start.as_str(), left[0].0.as_str(), "`"));
    }
    Ok(values)
}

} // verus!
