//! The messages of the language server.

use vstd::prelude::*;
use vstd::string::*;

use crate::json::{json_field_models, json_models, Json, JsonField, JsonFieldModel, JsonModel};
use crate::lsp::{
    classify, file_uri_to_path, handling_of, path_uri, path_to_file_uri, uri_path, Handling, Range,
};
use crate::records::{field, no_fields, number, number_json, put, text_json};
use crate::text::{decimal, decimal_text, same};

verus! {

// ---------------------------------------------------------------------------
// Parts of documents

/// The position of the field with a name, from `from` on.
pub open spec fn field_at(fields: Seq<JsonFieldModel>, name: Seq<char>, from: int) -> Option<int>
    decreases fields.len() - from,
{
    if from < 0 || from >= fields.len() {
        None
    } else if fields[from].name == name {
        Some(from)
    } else {
        field_at(fields, name, from + 1)
    }
}

/// The part of a document with a name.
pub open spec fn part(json: JsonModel, name: Seq<char>) -> Option<JsonModel> {
    match json {
        JsonModel::Object(fields) => match field_at(fields, name, 0) {
            Some(at) => Some(fields[at].value),
            None => None,
        },
        _ => None,
    }
}

/// The part of a part that may be missing.
pub open spec fn part_of(json: Option<JsonModel>, name: Seq<char>) -> Option<JsonModel> {
    match json {
        Some(json) => part(json, name),
        None => None,
    }
}

/// The first item of a list, or what an object has under the name `0`.
pub open spec fn first_of(json: Option<JsonModel>) -> Option<JsonModel> {
    match json {
        Some(JsonModel::Array(values)) => if values.len() > 0 {
            Some(values[0])
        } else {
            None
        },
        _ => part_of(json, "0"@),
    }
}

pub open spec fn as_text(json: Option<JsonModel>) -> Option<Seq<char>> {
    match json {
        Some(JsonModel::String(text)) => Some(text),
        _ => None,
    }
}

/// A number that counts something.
pub open spec fn as_count(json: Option<JsonModel>) -> Option<usize> {
    match json {
        Some(JsonModel::Integer(value)) => if 0 <= value <= usize::MAX {
            Some(value as usize)
        } else {
            None
        },
        Some(JsonModel::Natural(value)) => if value <= usize::MAX {
            Some(value as usize)
        } else {
            None
        },
        _ => None,
    }
}

pub open spec fn optional_json(json: Option<&Json>) -> Option<JsonModel> {
    match json {
        Some(json) => Some(json.model()),
        None => None,
    }
}

pub open spec fn optional_str(text: Option<&str>) -> Option<Seq<char>> {
    match text {
        Some(text) => Some(text@),
        None => None,
    }
}

fn get<'a>(json: Option<&'a Json>, name: &str) -> (found: Option<&'a Json>)
    ensures
        optional_json(found) == part_of(optional_json(json), name@),
{
    let fields: &'a Vec<JsonField> = match json {
        Some(Json::Object(fields)) => fields,
        _ => {
            return None;
        },
    };
    let ghost models = json_field_models(fields@);
    let mut at: usize = 0;
    while at < fields.len()
        invariant
            models == json_field_models(fields@),
            at <= fields@.len(),
            field_at(models, name@, 0) == field_at(models, name@, at as int),
            optional_json(json) == Some(JsonModel::Object(models)),
        decreases fields@.len() - at,
    {
        proof {
            assert(models[at as int] == fields@[at as int].model());
        }
        if same(fields[at].name.as_str(), name) {
            return Some(&fields[at].value);
        }
        at += 1;
    }
    None
}

fn get_first<'a>(json: Option<&'a Json>) -> (found: Option<&'a Json>)
    ensures
        optional_json(found) == first_of(optional_json(json)),
{
    match json {
        Some(Json::Array(values)) => {
            if values.len() > 0 {
                proof {
                    assert(json_models(values@)[0] == values@[0].model());
                }
                Some(&values[0])
            } else {
                None
            }
        },
        _ => get(json, "0"),
    }
}

fn text_in<'a>(json: Option<&'a Json>) -> (text: Option<&'a str>)
    ensures
        optional_str(text) == as_text(optional_json(json)),
{
    match json {
        Some(Json::String(text)) => Some(text.as_str()),
        _ => None,
    }
}

fn count_in(json: Option<&Json>) -> (count: Option<usize>)
    ensures
        count == as_count(optional_json(json)),
{
    match json {
        Some(Json::Integer(value)) => {
            if *value >= 0 && *value as u64 <= usize::MAX as u64 {
                Some(*value as usize)
            } else {
                None
            }
        },
        Some(Json::Natural(value)) => {
            if *value <= usize::MAX as u64 {
                Some(*value as usize)
            } else {
                None
            }
        },
        _ => None,
    }
}

impl Json {
    /// A copy of the document.
    pub fn duplicate(&self) -> (copy: Json)
        ensures
            copy.model() == self.model(),
        decreases self, 1int,
    {
        match self {
            Json::Null => Json::Null,
            Json::Boolean(value) => Json::Boolean(*value),
            Json::Integer(value) => Json::Integer(*value),
            Json::Natural(value) => Json::Natural(*value),
            Json::Float(value) => Json::Float(*value),
            Json::String(text) => Json::String(text.clone()),
            Json::Array(values) => Json::Array(copied_documents(values)),
            Json::Object(fields) => Json::Object(copied_fields(fields)),
        }
    }
}

fn copied_documents(values: &Vec<Json>) -> (copy: Vec<Json>)
    ensures
        json_models(copy@) == json_models(values@),
    decreases values, 0int,
{
    let mut copy: Vec<Json> = Vec::new();
    let mut at: usize = 0;
    while at < values.len()
        invariant
            at <= values@.len(),
            copy@.len() == at,
            forall|i: int| 0 <= i < at ==> (#[trigger] copy@[i]).model() == values@[i].model(),
        decreases values@.len() - at,
    {
        proof {
            assert(decreases_to!(values => values@[at as int]));
        }
        copy.push(values[at].duplicate());
        at += 1;
    }
    proof {
        assert(json_models(copy@) =~= json_models(values@));
    }
    copy
}

fn copied_fields(fields: &Vec<JsonField>) -> (copy: Vec<JsonField>)
    ensures
        json_field_models(copy@) == json_field_models(fields@),
    decreases fields, 0int,
{
    let mut copy: Vec<JsonField> = Vec::new();
    let mut at: usize = 0;
    while at < fields.len()
        invariant
            at <= fields@.len(),
            copy@.len() == at,
            forall|i: int| 0 <= i < at ==> (#[trigger] copy@[i]).model() == fields@[i].model(),
        decreases fields@.len() - at,
    {
        proof {
            assert(decreases_to!(fields => fields@[at as int]));
            assert(decreases_to!(fields@[at as int] => fields@[at as int].value));
        }
        let name: String = fields[at].name.clone();
        let value: Json = fields[at].value.duplicate();
        copy.push(JsonField { name, value });
        at += 1;
    }
    proof {
        assert(json_field_models(copy@) =~= json_field_models(fields@));
    }
    copy
}

// ---------------------------------------------------------------------------
// Answers

/// An answer with a result.
pub open spec fn result_answer(id: JsonModel, result: JsonModel) -> JsonModel {
    JsonModel::Object(
        seq![
            field("id"@, id),
            field("jsonrpc"@, JsonModel::String("2.0"@)),
            field("result"@, result),
        ],
    )
}

fn result_json(id: Json, result: Json) -> (json: Json)
    ensures
        json.model() == result_answer(id.model(), result.model()),
{
    let mut fields: Vec<JsonField> = no_fields();
    put(&mut fields, "id", id);
    put(&mut fields, "jsonrpc", text_json("2.0"));
    put(&mut fields, "result", result);
    proof {
        assert(json_field_models(fields@) =~= result_answer(
            id.model(),
            result.model(),
        )->Object_0);
    }
    Json::Object(fields)
}

/// The answer to a method that there is not.
pub open spec fn unknown_answer(id: JsonModel) -> JsonModel {
    JsonModel::Object(
        seq![
            field(
                "error"@,
                JsonModel::Object(
                    seq![
                        field("code"@, JsonModel::Integer((-32601) as i64)),
                        field("message"@, JsonModel::String("method not found"@)),
                    ],
                ),
            ),
            field("id"@, id),
            field("jsonrpc"@, JsonModel::String("2.0"@)),
        ],
    )
}

fn unknown_json(id: Json) -> (json: Json)
    ensures
        json.model() == unknown_answer(id.model()),
{
    let mut error: Vec<JsonField> = no_fields();
    put(&mut error, "code", Json::Integer(-32601));
    put(&mut error, "message", text_json("method not found"));
    proof {
        assert(json_field_models(error@) =~= seq![
            field("code"@, JsonModel::Integer((-32601) as i64)),
            field("message"@, JsonModel::String("method not found"@)),
        ]);
    }
    let mut fields: Vec<JsonField> = no_fields();
    put(&mut fields, "error", Json::Object(error));
    put(&mut fields, "id", id);
    put(&mut fields, "jsonrpc", text_json("2.0"));
    proof {
        assert(json_field_models(fields@) =~= unknown_answer(id.model())->Object_0);
    }
    Json::Object(fields)
}

/// What the server can do: it finds definitions, and takes in whole documents.
pub open spec fn abilities() -> JsonModel {
    JsonModel::Object(
        seq![
            field(
                "capabilities"@,
                JsonModel::Object(
                    seq![
                        field("definitionProvider"@, JsonModel::Boolean(true)),
                        field(
                            "textDocumentSync"@,
                            JsonModel::Object(
                                seq![
                                    field("change"@, JsonModel::Integer(1)),
                                    field("openClose"@, JsonModel::Boolean(true)),
                                ],
                            ),
                        ),
                    ],
                ),
            ),
            field(
                "serverInfo"@,
                JsonModel::Object(
                    seq![
                        field("name"@, JsonModel::String("mettle"@)),
                        field("version"@, JsonModel::String("0.1.0"@)),
                    ],
                ),
            ),
        ],
    )
}

fn abilities_json() -> (json: Json)
    ensures
        json.model() == abilities(),
{
    let mut sync: Vec<JsonField> = no_fields();
    put(&mut sync, "change", Json::Integer(1));
    put(&mut sync, "openClose", Json::Boolean(true));
    let ghost inner = seq![
        field("change"@, JsonModel::Integer(1)),
        field("openClose"@, JsonModel::Boolean(true)),
    ];
    proof {
        assert(json_field_models(sync@) =~= inner);
    }
    let mut capabilities: Vec<JsonField> = no_fields();
    put(&mut capabilities, "definitionProvider", Json::Boolean(true));
    put(&mut capabilities, "textDocumentSync", Json::Object(sync));
    let ghost middle = seq![
        field("definitionProvider"@, JsonModel::Boolean(true)),
        field("textDocumentSync"@, JsonModel::Object(inner)),
    ];
    proof {
        assert(json_field_models(capabilities@) =~= middle);
    }
    let mut server: Vec<JsonField> = no_fields();
    put(&mut server, "name", text_json("mettle"));
    put(&mut server, "version", text_json("0.1.0"));
    let ghost info = seq![
        field("name"@, JsonModel::String("mettle"@)),
        field("version"@, JsonModel::String("0.1.0"@)),
    ];
    proof {
        assert(json_field_models(server@) =~= info);
    }
    let mut fields: Vec<JsonField> = no_fields();
    put(&mut fields, "capabilities", Json::Object(capabilities));
    put(&mut fields, "serverInfo", Json::Object(server));
    proof {
        assert(json_field_models(fields@) =~= seq![
            field("capabilities"@, JsonModel::Object(middle)),
            field("serverInfo"@, JsonModel::Object(info)),
        ]);
    }
    Json::Object(fields)
}

/// A place in a file.
pub open spec fn place(place: (usize, usize)) -> JsonModel {
    JsonModel::Object(
        seq![
            field("character"@, number(place.1 as nat)),
            field("line"@, number(place.0 as nat)),
        ],
    )
}

fn place_json(at: (usize, usize)) -> (json: Json)
    ensures
        json.model() == place(at),
{
    let mut fields: Vec<JsonField> = no_fields();
    put(&mut fields, "character", number_json(at.1 as u64));
    put(&mut fields, "line", number_json(at.0 as u64));
    proof {
        assert(json_field_models(fields@) =~= place(at)->Object_0);
    }
    Json::Object(fields)
}

/// Where a definition is: its file and its range there.
pub open spec fn definition_place(path: Seq<char>, range: Range) -> JsonModel {
    JsonModel::Object(
        seq![
            field(
                "range"@,
                JsonModel::Object(
                    seq![field("end"@, place(range.end)), field("start"@, place(range.start))],
                ),
            ),
            field("uri"@, JsonModel::String(path_uri(path))),
        ],
    )
}

fn definition_json(path: &str, range: Range) -> (json: Json)
    ensures
        json.model() == definition_place(path@, range),
{
    let mut ends: Vec<JsonField> = no_fields();
    put(&mut ends, "end", place_json(range.end));
    put(&mut ends, "start", place_json(range.start));
    proof {
        assert(json_field_models(ends@) =~= seq![
            field("end"@, place(range.end)),
            field("start"@, place(range.start)),
        ]);
    }
    let uri: String = path_to_file_uri(path);
    let mut fields: Vec<JsonField> = no_fields();
    put(&mut fields, "range", Json::Object(ends));
    put(&mut fields, "uri", text_json(uri.as_str()));
    proof {
        assert(json_field_models(fields@) =~= definition_place(path@, range)->Object_0);
    }
    Json::Object(fields)
}

/// The answer to the question where something is defined; `None` where it is
/// not.
pub open spec fn definition_answer(id: JsonModel, found: Option<(Seq<char>, Range)>) -> JsonModel {
    result_answer(
        id,
        match found {
            Some((path, range)) => definition_place(path, range),
            None => JsonModel::Null,
        },
    )
}

pub fn answer_definition(id: Json, found: Option<(String, Range)>) -> (json: Json)
    ensures
        json.model() == definition_answer(
            id.model(),
            match found {
                Some((path, range)) => Some((path@, range)),
                None => None,
            },
        ),
{
    match found {
        Some((path, range)) => result_json(id, definition_json(path.as_str(), range)),
        None => result_json(id, Json::Null),
    }
}

// ---------------------------------------------------------------------------
// Messages

/// What a message asks for.
#[derive(Debug, PartialEq)]
pub enum Task {
    /// To send an answer.
    Answer(Json),
    /// To find what is defined at a place, and to answer.
    Define { id: Json, path: String, line: usize, character: usize },
    /// To take in the text of a document.
    Keep { path: String, text: String },
    /// To forget a document.
    Forget { path: String },
    Exit,
    Nothing,
}

pub enum TaskModel {
    Answer(JsonModel),
    Define { id: JsonModel, path: Seq<char>, line: usize, character: usize },
    Keep { path: Seq<char>, text: Seq<char> },
    Forget { path: Seq<char> },
    Exit,
    Nothing,
}

impl Task {
    pub open spec fn model(self) -> TaskModel {
        match self {
            Task::Answer(json) => TaskModel::Answer(json.model()),
            Task::Define { id, path, line, character } => TaskModel::Define {
                id: id.model(),
                path: path@,
                line,
                character,
            },
            Task::Keep { path, text } => TaskModel::Keep { path: path@, text: text@ },
            Task::Forget { path } => TaskModel::Forget { path: path@ },
            Task::Exit => TaskModel::Exit,
            Task::Nothing => TaskModel::Nothing,
        }
    }
}

/// The path that a URI names.
pub open spec fn named_path(uri: Option<Seq<char>>) -> Option<Seq<char>> {
    match uri {
        Some(uri) => uri_path(uri),
        None => None,
    }
}

fn path_in(uri: Option<&str>) -> (path: Option<String>)
    ensures
        (match path {
            Some(path) => Some(path@),
            None => None,
        }) == named_path(optional_str(uri)),
{
    match uri {
        Some(uri) => file_uri_to_path(uri),
        None => None,
    }
}

/// A document that is to be kept, where the message names it and its text.
pub open spec fn kept(uri: Option<Seq<char>>, text: Option<Seq<char>>) -> TaskModel {
    match (named_path(uri), text) {
        (Some(path), Some(text)) => TaskModel::Keep { path, text },
        _ => TaskModel::Nothing,
    }
}

fn keep(uri: Option<&str>, text: Option<&str>) -> (task: Task)
    ensures
        task.model() == kept(optional_str(uri), optional_str(text)),
{
    match (path_in(uri), text) {
        (Some(path), Some(text)) => Task::Keep { path, text: text.to_owned() },
        _ => Task::Nothing,
    }
}

/// The question where something is defined. One that is not understood has no
/// answer but nothing.
pub open spec fn asked(id: JsonModel, params: Option<JsonModel>) -> TaskModel {
    let at = part_of(params, "position"@);
    match (
        named_path(as_text(part_of(part_of(params, "textDocument"@), "uri"@))),
        as_count(part_of(at, "line"@)),
        as_count(part_of(at, "character"@)),
    ) {
        (Some(path), Some(line), Some(character)) => TaskModel::Define {
            id,
            path,
            line,
            character,
        },
        _ => TaskModel::Answer(definition_answer(id, None)),
    }
}

fn ask(id: Json, params: Option<&Json>) -> (task: Task)
    ensures
        task.model() == asked(id.model(), optional_json(params)),
{
    let at: Option<&Json> = get(params, "position");
    let path: Option<String> = path_in(text_in(get(get(params, "textDocument"), "uri")));
    let line: Option<usize> = count_in(get(at, "line"));
    let character: Option<usize> = count_in(get(at, "character"));
    match (path, line, character) {
        (Some(path), Some(line), Some(character)) => Task::Define { id, path, line, character },
        _ => Task::Answer(answer_definition(id, None)),
    }
}

/// What a message asks for.
pub open spec fn task_of(message: JsonModel) -> TaskModel {
    let given = part(message, "id"@);
    let id = match given {
        Some(id) => id,
        None => JsonModel::Null,
    };
    let params = part(message, "params"@);
    let document = part_of(params, "textDocument"@);
    let uri = as_text(part_of(document, "uri"@));
    match handling_of(as_text(part(message, "method"@)), given is Some) {
        Handling::Initialize => TaskModel::Answer(result_answer(id, abilities())),
        Handling::Shutdown => TaskModel::Answer(result_answer(id, JsonModel::Null)),
        Handling::Definition => asked(id, params),
        Handling::Open => kept(uri, as_text(part_of(document, "text"@))),
        Handling::Change => kept(
            uri,
            as_text(part_of(first_of(part_of(params, "contentChanges"@)), "text"@)),
        ),
        Handling::Close => match named_path(uri) {
            Some(path) => TaskModel::Forget { path },
            None => TaskModel::Nothing,
        },
        Handling::Exit => TaskModel::Exit,
        Handling::Unknown => TaskModel::Answer(unknown_answer(id)),
        Handling::Ignore => TaskModel::Nothing,
    }
}

/// Reads what a message asks for.
pub fn read_task(message: &Json) -> (task: Task)
    ensures
        task.model() == task_of(message.model()),
{
    let whole: Option<&Json> = Some(message);
    let given: Option<&Json> = get(whole, "id");
    let id: Json = match given {
        Some(id) => id.duplicate(),
        None => Json::Null,
    };
    let params: Option<&Json> = get(whole, "params");
    let document: Option<&Json> = get(params, "textDocument");
    let uri: Option<&str> = text_in(get(document, "uri"));
    match classify(text_in(get(whole, "method")), given.is_some()) {
        Handling::Initialize => Task::Answer(result_json(id, abilities_json())),
        Handling::Shutdown => Task::Answer(result_json(id, Json::Null)),
        Handling::Definition => ask(id, params),
        Handling::Open => keep(uri, text_in(get(document, "text"))),
        Handling::Change => keep(
            uri,
            text_in(get(get_first(get(params, "contentChanges")), "text")),
        ),
        Handling::Close => match path_in(uri) {
            Some(path) => Task::Forget { path },
            None => Task::Nothing,
        },
        Handling::Exit => Task::Exit,
        Handling::Unknown => Task::Answer(unknown_json(id)),
        Handling::Ignore => Task::Nothing,
    }
}

/// The lines before content of a length.
pub open spec fn content_header(length: nat) -> Seq<char> {
    "Content-Length: "@ + decimal(length) + "\r\n\r\n"@
}

pub fn write_header(length: usize) -> (header: String)
    ensures
        header@ == content_header(length as nat),
{
    let mut header: String = "Content-Length: ".to_owned();
    header.append(decimal_text(length as u128).as_str());
    header.append("\r\n\r\n");
    header
}

/// A message with an identifier is answered or asks for a definition; one
/// without is not answered.
pub proof fn law_requests_are_answered(message: JsonModel)
    ensures
        as_text(part(message, "method"@)) is Some ==> (part(message, "id"@) is Some <==> task_of(
            message,
        ) is Answer || task_of(message) is Define),
{
}

/// An answer carries the identifier of the message that it answers.
pub proof fn law_answers_name_their_request(message: JsonModel)
    ensures
        task_of(message) matches TaskModel::Answer(answer) ==> part(answer, "id"@) == part(
            message,
            "id"@,
        ),
        task_of(message) matches TaskModel::Define { id, .. } ==> Some(id) == part(message, "id"@),
{
    let given = part(message, "id"@);
    if given is Some {
        let id = given->0;
        lemma_result_id(id, abilities());
        lemma_result_id(id, JsonModel::Null);
        lemma_unknown_id(id);
    }
}

proof fn lemma_result_id(id: JsonModel, result: JsonModel)
    ensures
        part(result_answer(id, result), "id"@) == Some(id),
{
    let fields = result_answer(id, result)->Object_0;
    assert(fields[0] == field("id"@, id));
}

proof fn lemma_unknown_id(id: JsonModel)
    ensures
        part(unknown_answer(id), "id"@) == Some(id),
{
    reveal_strlit("error");
    reveal_strlit("id");
    let fields = unknown_answer(id)->Object_0;
    assert("error"@.len() == 5);
    assert("id"@.len() == 2);
    assert(fields[0].name == "error"@);
    assert(fields[1] == field("id"@, id));
    reveal_with_fuel(field_at, 3);
}

} // verus!
