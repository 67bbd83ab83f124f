//! The records that commands print as JSON, one in each line.

use vstd::prelude::*;
use vstd::string::*;

use crate::documents::{line, settled, write_line};
use crate::duration::Duration;
use crate::json::{json_field_models, json_models, Json, JsonField, JsonFieldModel, JsonModel};
use crate::plan::{
    flow_plan_models, ExecutionPlan, ExecutionPlanModel, MettlePlan, MettlePlanModel,
};
use crate::positions::{location, source_location};
use crate::report::{document, value_json};
use crate::selection::sources_known;
use crate::sources::{document_models, DocumentModel, SourceDocument};
use crate::summary::ExecutionReport;
use crate::syntax::DeclarationKind;
use crate::text::views;
use crate::value::{Value, ValueModel};

verus! {

// ---------------------------------------------------------------------------
// Parts

pub open spec fn field(name: Seq<char>, value: JsonModel) -> JsonFieldModel {
    JsonFieldModel { name, value }
}

/// A number that is not below zero.
pub open spec fn number(value: nat) -> JsonModel {
    if value <= i64::MAX {
        JsonModel::Integer(value as i64)
    } else {
        JsonModel::Natural(value as u64)
    }
}

/// A span of time in nanoseconds, as far as they can be counted.
pub open spec fn nanoseconds(duration: Duration) -> JsonModel {
    number(
        if duration.nanos <= u64::MAX {
            duration.nanos as nat
        } else {
            u64::MAX as nat
        },
    )
}

pub fn number_json(value: u64) -> (json: Json)
    ensures
        json.model() == number(value as nat),
{
    if value <= 0x7fff_ffff_ffff_ffff {
        Json::Integer(value as i64)
    } else {
        Json::Natural(value)
    }
}

fn nanoseconds_json(duration: Duration) -> (json: Json)
    ensures
        json.model() == nanoseconds(duration),
{
    if duration.nanos <= u64::MAX as u128 {
        number_json(duration.nanos as u64)
    } else {
        number_json(u64::MAX)
    }
}

pub fn text_json(text: &str) -> (json: Json)
    ensures
        json.model() == JsonModel::String(text@),
{
    Json::String(text.to_owned())
}

pub open spec fn text_documents(texts: Seq<Seq<char>>) -> Seq<JsonModel> {
    Seq::new(texts.len(), |i: int| JsonModel::String(texts[i]))
}

fn texts_json(texts: &Vec<String>) -> (json: Json)
    ensures
        json.model() == JsonModel::Array(text_documents(views(texts@))),
{
    let mut values: Vec<Json> = Vec::new();
    let mut at: usize = 0;
    while at < texts.len()
        invariant
            at <= texts@.len(),
            values@.len() == at,
            forall|i: int|
                0 <= i < at ==> (#[trigger] values@[i]).model() == JsonModel::String(texts@[i]@),
        decreases texts@.len() - at,
    {
        values.push(text_json(texts[at].as_str()));
        at += 1;
    }
    proof {
        assert(json_models(values@) =~= text_documents(views(texts@)));
    }
    Json::Array(values)
}

/// Puts a field behind others.
pub fn put(fields: &mut Vec<JsonField>, name: &str, value: Json)
    ensures
        json_field_models(final(fields)@) == json_field_models(old(fields)@).push(
            field(name@, value.model()),
        ),
{
    let ghost before = json_field_models(fields@);
    fields.push(JsonField { name: name.to_owned(), value });
    proof {
        assert(json_field_models(fields@) =~= before.push(field(name@, value.model())));
    }
}

pub fn no_fields() -> (fields: Vec<JsonField>)
    ensures
        json_field_models(fields@) == Seq::<JsonFieldModel>::empty(),
{
    let fields: Vec<JsonField> = Vec::new();
    proof {
        assert(json_field_models(fields@) =~= Seq::empty());
    }
    fields
}

// ---------------------------------------------------------------------------
// Batches

/// How many flows are about to run, and how many are left out.
pub open spec fn batch_start(eligible: nat, skipped: nat) -> JsonModel {
    JsonModel::Object(
        seq![
            field("eligible"@, number(eligible)),
            field("skipped"@, number(skipped)),
            field("type"@, JsonModel::String("start"@)),
        ],
    )
}

pub fn batch_start_record(eligible: usize, skipped: usize) -> (json: Json)
    ensures
        json.model() == batch_start(eligible as nat, skipped as nat),
{
    let mut fields: Vec<JsonField> = no_fields();
    put(&mut fields, "eligible", number_json(eligible as u64));
    put(&mut fields, "skipped", number_json(skipped as u64));
    put(&mut fields, "type", text_json("start"));
    proof {
        assert(
            json_field_models(fields@) =~= batch_start(eligible as nat, skipped as nat)->Object_0
        );
    }
    Json::Object(fields)
}

/// How many tests are about to run.
pub open spec fn tests_start(eligible: nat) -> JsonModel {
    JsonModel::Object(
        seq![
            field("eligible"@, number(eligible)),
            field("kind"@, JsonModel::String("test"@)),
            field("type"@, JsonModel::String("start"@)),
        ],
    )
}

pub fn tests_start_record(eligible: usize) -> (json: Json)
    ensures
        json.model() == tests_start(eligible as nat),
{
    let mut fields: Vec<JsonField> = no_fields();
    put(&mut fields, "eligible", number_json(eligible as u64));
    put(&mut fields, "kind", text_json("test"));
    put(&mut fields, "type", text_json("start"));
    proof {
        assert(json_field_models(fields@) =~= tests_start(eligible as nat)->Object_0);
    }
    Json::Object(fields)
}

/// How a batch of flows went.
pub open spec fn batch_end(passed: nat, failed: nat, skipped: nat, duration: Duration) -> JsonModel {
    JsonModel::Object(
        seq![
            field("durationNanos"@, nanoseconds(duration)),
            field("eligible"@, number(passed + failed)),
            field("failed"@, number(failed)),
            field("passed"@, number(passed)),
            field("skipped"@, number(skipped)),
            field("type"@, JsonModel::String("summary"@)),
        ],
    )
}

pub fn batch_end_record(passed: usize, failed: usize, skipped: usize, duration: Duration) -> (json:
    Json)
    requires
        passed + failed <= usize::MAX,
    ensures
        json.model() == batch_end(passed as nat, failed as nat, skipped as nat, duration),
{
    let mut fields: Vec<JsonField> = no_fields();
    put(&mut fields, "durationNanos", nanoseconds_json(duration));
    put(&mut fields, "eligible", number_json((passed + failed) as u64));
    put(&mut fields, "failed", number_json(failed as u64));
    put(&mut fields, "passed", number_json(passed as u64));
    put(&mut fields, "skipped", number_json(skipped as u64));
    put(&mut fields, "type", text_json("summary"));
    proof {
        assert(
            json_field_models(fields@) =~= batch_end(
                passed as nat,
                failed as nat,
                skipped as nat,
                duration,
            )->Object_0
        );
    }
    Json::Object(fields)
}

/// How the tests of a file went.
pub open spec fn tests_end(passed: nat, failed: nat, duration: Duration) -> JsonModel {
    JsonModel::Object(
        seq![
            field("durationNanos"@, nanoseconds(duration)),
            field("eligible"@, number(passed + failed)),
            field("failed"@, number(failed)),
            field("kind"@, JsonModel::String("test"@)),
            field("passed"@, number(passed)),
            field("type"@, JsonModel::String("summary"@)),
        ],
    )
}

pub fn tests_end_record(passed: usize, failed: usize, duration: Duration) -> (json: Json)
    requires
        passed + failed <= usize::MAX,
    ensures
        json.model() == tests_end(passed as nat, failed as nat, duration),
{
    let mut fields: Vec<JsonField> = no_fields();
    put(&mut fields, "durationNanos", nanoseconds_json(duration));
    put(&mut fields, "eligible", number_json((passed + failed) as u64));
    put(&mut fields, "failed", number_json(failed as u64));
    put(&mut fields, "kind", text_json("test"));
    put(&mut fields, "passed", number_json(passed as u64));
    put(&mut fields, "type", text_json("summary"));
    proof {
        assert(
            json_field_models(fields@) =~= tests_end(
                passed as nat,
                failed as nat,
                duration,
            )->Object_0
        );
    }
    Json::Object(fields)
}

// ---------------------------------------------------------------------------
// Outcomes

/// The result of a flow; in a batch the record says what it is.
pub open spec fn flow_result(
    flow: Seq<char>,
    duration: Duration,
    result: ValueModel,
    batch: bool,
) -> JsonModel {
    let fields = seq![
        field("durationNanos"@, nanoseconds(duration)),
        field("flow"@, JsonModel::String(flow)),
        field("result"@, document(result)),
    ];
    JsonModel::Object(
        if batch {
            fields.push(field("type"@, JsonModel::String("result"@)))
        } else {
            fields
        },
    )
}

pub fn flow_result_record(flow: &str, duration: Duration, result: &Value, batch: bool) -> (json:
    Json)
    ensures
        json.model() == flow_result(flow@, duration, result.model(), batch),
{
    let mut fields: Vec<JsonField> = no_fields();
    put(&mut fields, "durationNanos", nanoseconds_json(duration));
    put(&mut fields, "flow", text_json(flow));
    put(&mut fields, "result", value_json(result));
    if batch {
        put(&mut fields, "type", text_json("result"));
    }
    proof {
        assert(
            json_field_models(fields@) =~= flow_result(
                flow@,
                duration,
                result.model(),
                batch,
            )->Object_0
        );
    }
    Json::Object(fields)
}

impl<'a> ExecutionReport<'a> {
    /// The report as a record.
    pub fn json(&self) -> (text: String)
        ensures
            text@ == line(
                settled(flow_result(self.flow@, self.duration, self.result.model(), false)),
            ),
    {
        write_line(&flow_result_record(self.flow, self.duration, self.result, false))
    }
}

/// A test that has passed.
pub open spec fn test_result(test: Seq<char>, duration: Duration) -> JsonModel {
    JsonModel::Object(
        seq![
            field("durationNanos"@, nanoseconds(duration)),
            field("kind"@, JsonModel::String("test"@)),
            field("status"@, JsonModel::String("passed"@)),
            field("test"@, JsonModel::String(test)),
            field("type"@, JsonModel::String("result"@)),
        ],
    )
}

pub fn test_result_record(test: &str, duration: Duration) -> (json: Json)
    ensures
        json.model() == test_result(test@, duration),
{
    let mut fields: Vec<JsonField> = no_fields();
    put(&mut fields, "durationNanos", nanoseconds_json(duration));
    put(&mut fields, "kind", text_json("test"));
    put(&mut fields, "status", text_json("passed"));
    put(&mut fields, "test", text_json(test));
    put(&mut fields, "type", text_json("result"));
    proof {
        assert(json_field_models(fields@) =~= test_result(test@, duration)->Object_0);
    }
    Json::Object(fields)
}

/// What went wrong, and where.
pub open spec fn error_record(
    message: Seq<char>,
    source: DocumentModel,
    byte: int,
    flow_stack: Seq<Seq<char>>,
) -> JsonModel {
    let (row, column) = location(source.text, byte);
    JsonModel::Object(
        seq![
            field("column"@, number(column as nat)),
            field("flowStack"@, JsonModel::Array(text_documents(flow_stack))),
            field("line"@, number(row as nat)),
            field("message"@, JsonModel::String(message)),
            field("path"@, JsonModel::String(source.path)),
        ],
    )
}

/// A flow or a test that has failed; in a batch, and of a test, the record says
/// what it is.
pub open spec fn failure(
    name: Seq<char>,
    kind: DeclarationKind,
    batch: bool,
    duration: Duration,
    error: JsonModel,
) -> JsonModel {
    let fields = seq![
        field("durationNanos"@, nanoseconds(duration)),
        field("error"@, error),
    ];
    JsonModel::Object(
        if kind == DeclarationKind::Test {
            fields + seq![
                field("kind"@, JsonModel::String("test"@)),
                field("status"@, JsonModel::String("failed"@)),
                field("test"@, JsonModel::String(name)),
                field("type"@, JsonModel::String("failure"@)),
            ]
        } else if batch {
            fields + seq![
                field("flow"@, JsonModel::String(name)),
                field("type"@, JsonModel::String("failure"@)),
            ]
        } else {
            fields.push(field("flow"@, JsonModel::String(name)))
        },
    )
}

fn error_json(message: &str, source: &SourceDocument, byte: usize, flow_stack: &Vec<String>) -> (
    json: Json)
    ensures
        json.model() == error_record(
            message@,
            source.model(),
            byte as int,
            views(flow_stack@),
        ),
{
    let place: (usize, usize) = source_location(source.text.as_str(), byte);
    let mut fields: Vec<JsonField> = no_fields();
    put(&mut fields, "column", number_json(place.1 as u64));
    put(&mut fields, "flowStack", texts_json(flow_stack));
    put(&mut fields, "line", number_json(place.0 as u64));
    put(&mut fields, "message", text_json(message));
    put(&mut fields, "path", text_json(source.path.as_str()));
    proof {
        assert(
            json_field_models(fields@) =~= error_record(
                message@,
                source.model(),
                byte as int,
                views(flow_stack@),
            )->Object_0
        );
    }
    Json::Object(fields)
}

pub fn failure_record(
    flow: &MettlePlan,
    batch: bool,
    duration: Duration,
    message: &str,
    source: &SourceDocument,
    byte: usize,
    flow_stack: &Vec<String>,
) -> (json: Json)
    ensures
        json.model() == failure(
            flow.display_name@,
            flow.kind,
            batch,
            duration,
            error_record(message@, source.model(), byte as int, views(flow_stack@)),
        ),
{
    let name: &str = flow.display_name.as_str();
    let mut fields: Vec<JsonField> = no_fields();
    put(&mut fields, "durationNanos", nanoseconds_json(duration));
    put(&mut fields, "error", error_json(message, source, byte, flow_stack));
    let ghost start = json_field_models(fields@);
    if flow.kind == DeclarationKind::Test {
        put(&mut fields, "kind", text_json("test"));
        put(&mut fields, "status", text_json("failed"));
        put(&mut fields, "test", text_json(name));
        put(&mut fields, "type", text_json("failure"));
        proof {
            assert(json_field_models(fields@) =~= start + seq![
                field("kind"@, JsonModel::String("test"@)),
                field("status"@, JsonModel::String("failed"@)),
                field("test"@, JsonModel::String(name@)),
                field("type"@, JsonModel::String("failure"@)),
            ]);
        }
    } else {
        put(&mut fields, "flow", text_json(name));
        if batch {
            put(&mut fields, "type", text_json("failure"));
            proof {
                assert(json_field_models(fields@) =~= start + seq![
                    field("flow"@, JsonModel::String(name@)),
                    field("type"@, JsonModel::String("failure"@)),
                ]);
            }
        }
    }
    proof {
        assert(
            json_field_models(fields@) =~= failure(
                flow.display_name@,
                flow.kind,
                batch,
                duration,
                error_record(message@, source.model(), byte as int, views(flow_stack@)),
            )->Object_0
        );
    }
    Json::Object(fields)
}

// ---------------------------------------------------------------------------
// Lists

/// A flow or a test of a list.
pub open spec fn listed(id: nat, flow: MettlePlanModel, documents: Seq<DocumentModel>) -> JsonModel {
    let source = documents[flow.span.source as int];
    let (row, column) = location(source.text, flow.span.start as int);
    JsonModel::Object(
        if flow.kind == DeclarationKind::Test {
            seq![
                field("column"@, number(column as nat)),
                field("id"@, number(id)),
                field("line"@, number(row as nat)),
                field("name"@, JsonModel::String(flow.display_name)),
                field("path"@, JsonModel::String(source.path)),
            ]
        } else {
            seq![
                field("column"@, number(column as nat)),
                field("displayName"@, JsonModel::String(flow.display_name)),
                field("id"@, number(id)),
                field("line"@, number(row as nat)),
                field(
                    "name"@,
                    match flow.name {
                        Some(name) => JsonModel::String(name),
                        None => JsonModel::Null,
                    },
                ),
                field("parameters"@, JsonModel::Array(text_documents(flow.parameters))),
                field("path"@, JsonModel::String(source.path)),
            ]
        },
    )
}

/// The declarations of a kind, from `from` on.
pub open spec fn listed_from(
    flows: Seq<MettlePlanModel>,
    kind: DeclarationKind,
    documents: Seq<DocumentModel>,
    from: int,
    done: Seq<JsonModel>,
) -> Seq<JsonModel>
    decreases flows.len() - from,
{
    if from < 0 || from >= flows.len() {
        done
    } else if flows[from].kind == kind {
        listed_from(
            flows,
            kind,
            documents,
            from + 1,
            done.push(listed(from as nat, flows[from], documents)),
        )
    } else {
        listed_from(flows, kind, documents, from + 1, done)
    }
}

/// The flows and the tests of a plan.
pub open spec fn list(plan: ExecutionPlanModel, documents: Seq<DocumentModel>) -> JsonModel {
    JsonModel::Object(
        seq![
            field(
                "flows"@,
                JsonModel::Array(
                    listed_from(plan.flows, DeclarationKind::Flow, documents, 0, Seq::empty()),
                ),
            ),
            field(
                "tests"@,
                JsonModel::Array(
                    listed_from(plan.flows, DeclarationKind::Test, documents, 0, Seq::empty()),
                ),
            ),
        ],
    )
}

fn listed_json(id: usize, flow: &MettlePlan, documents: &Vec<SourceDocument>) -> (json: Json)
    requires
        flow.span.source < documents@.len(),
    ensures
        json.model() == listed(id as nat, flow.model(), document_models(documents@)),
{
    let source: &SourceDocument = &documents[flow.span.source];
    proof {
        assert(document_models(documents@)[flow.span.source as int] == source.model());
    }
    let place: (usize, usize) = source_location(source.text.as_str(), flow.span.start);
    let mut fields: Vec<JsonField> = no_fields();
    put(&mut fields, "column", number_json(place.1 as u64));
    if flow.kind == DeclarationKind::Test {
        put(&mut fields, "id", number_json(id as u64));
        put(&mut fields, "line", number_json(place.0 as u64));
        put(&mut fields, "name", text_json(flow.display_name.as_str()));
    } else {
        let name: Json = match &flow.name {
            Some(name) => text_json(name.as_str()),
            None => Json::Null,
        };
        put(&mut fields, "displayName", text_json(flow.display_name.as_str()));
        put(&mut fields, "id", number_json(id as u64));
        put(&mut fields, "line", number_json(place.0 as u64));
        put(&mut fields, "name", name);
        put(&mut fields, "parameters", texts_json(&flow.parameters));
    }
    put(&mut fields, "path", text_json(source.path.as_str()));
    proof {
        assert(
            json_field_models(fields@) =~= listed(
                id as nat,
                flow.model(),
                document_models(documents@),
            )->Object_0
        );
    }
    Json::Object(fields)
}

fn list_kind(plan: &ExecutionPlan, kind: DeclarationKind, documents: &Vec<SourceDocument>) -> (json:
    Json)
    requires
        sources_known(plan.model().flows, documents@.len()),
    ensures
        json.model() == JsonModel::Array(
            listed_from(plan.model().flows, kind, document_models(documents@), 0, Seq::empty()),
        ),
{
    let ghost flows = plan.model().flows;
    let ghost models = document_models(documents@);
    let mut values: Vec<Json> = Vec::new();
    let mut at: usize = 0;
    proof {
        assert(json_models(values@) =~= Seq::empty());
    }
    while at < plan.flows.len()
        invariant
            flows == plan.model().flows,
            flows == flow_plan_models(plan.flows@),
            models == document_models(documents@),
            sources_known(flows, documents@.len()),
            at <= plan.flows@.len(),
            listed_from(flows, kind, models, 0, Seq::empty()) == listed_from(
                flows,
                kind,
                models,
                at as int,
                json_models(values@),
            ),
        decreases plan.flows@.len() - at,
    {
        proof {
            assert(flows[at as int] == plan.flows@[at as int].model());
        }
        if plan.flows[at].kind == kind {
            let ghost before = json_models(values@);
            let value: Json = listed_json(at, &plan.flows[at], documents);
            values.push(value);
            proof {
                assert(json_models(values@) =~= before.push(value.model()));
            }
        }
        at += 1;
    }
    Json::Array(values)
}

/// Lists the flows and the tests of a plan.
pub fn list_record(plan: &ExecutionPlan, documents: &Vec<SourceDocument>) -> (json: Json)
    requires
        sources_known(plan.model().flows, documents@.len()),
    ensures
        json.model() == list(plan.model(), document_models(documents@)),
{
    let mut fields: Vec<JsonField> = no_fields();
    put(&mut fields, "flows", list_kind(plan, DeclarationKind::Flow, documents));
    put(&mut fields, "tests", list_kind(plan, DeclarationKind::Test, documents));
    proof {
        assert(
            json_field_models(fields@) =~= list(
                plan.model(),
                document_models(documents@),
            )->Object_0
        );
    }
    Json::Object(fields)
}

} // verus!
