//! What is shown of executions.
//!
//! Reports are laid out in pieces. Documents are written by whoever prints the
//! report; everything else is text already.

use vstd::prelude::*;
use vstd::string::*;

use crate::capability::{
    pair_models, section_models, OperationReport, OperationReportModel, ReportOutcome,
    ReportSection, ReportSectionModel,
};
use crate::documents::{pretty, settled, write_pretty};
use crate::duration::Duration;
use crate::figures::{display_duration, displayed};
use crate::json::{json_field_models, json_models, Json, JsonField, JsonFieldModel, JsonModel};
use crate::syntax::Span;
use crate::text::{
    chars_of, decimal, decimal_text, find_char, no_text, position_of, repeat, repeated,
    text_between, views, wrapped,
};
use crate::value::{entry_models, shown, value_models, Entry, EntryModel, Object, Value, ValueModel};

verus! {

/// How much of a value is shown unless all of it is asked for.
pub const DEFAULT_PREVIEW_CHARS: usize = 8192;

// ---------------------------------------------------------------------------
// Texts

/// A text in a terminal colour.
pub open spec fn styled(text: Seq<char>, code: Seq<char>, enabled: bool) -> Seq<char> {
    if enabled {
        "\x1b["@ + code + "m"@ + text + "\x1b[0m"@
    } else {
        text
    }
}

pub fn style(text: &str, code: &str, enabled: bool) -> (result: String)
    ensures
        result@ == styled(text@, code@, enabled),
{
    if enabled {
        let mut result: String = wrapped("\x1b[", code, "m");
        result.append(text);
        result.append("\x1b[0m");
        result
    } else {
        text.to_owned()
    }
}

/// A text up to a number of characters, with a note where that is not all.
pub open spec fn truncated(text: Seq<char>, limit: nat) -> Seq<char> {
    if text.len() <= limit {
        text
    } else {
        text.take(limit as int) + "\n… response truncated after "@ + decimal(limit / 1024)
            + " KiB; use --verbose or --raw for the complete value"@
    }
}

pub fn truncate(text: &str, limit: usize) -> (result: String)
    ensures
        result@ == truncated(text@, limit as nat),
{
    let chars: Vec<char> = chars_of(text);
    if chars.len() <= limit {
        return text.to_owned();
    }
    let mut result: String = text_between(&chars, 0, limit);
    proof {
        assert(result@ =~= text@.take(limit as int));
    }
    result.append("\n… response truncated after ");
    result.append(decimal_text((limit / 1024) as u128).as_str());
    result.append(" KiB; use --verbose or --raw for the complete value");
    result
}

/// The lines of a text from `from` on, each behind so many spaces.
pub open spec fn indented(text: Seq<char>, indent: int, from: int, done: Seq<char>) -> Seq<char>
    decreases text.len() - from,
    when 0 <= from <= text.len()
    via indented_ends
{
    if from >= text.len() {
        done
    } else {
        let end = position_of(text, '\n', from);
        let next = if end < text.len() {
            end + 1
        } else {
            end
        };
        let stop = if end < text.len() && from < end && text[end - 1] == '\r' {
            end - 1
        } else {
            end
        };
        indented(
            text,
            indent,
            next,
            done + repeated(' ', indent) + text.subrange(from, stop) + "\n"@,
        )
    }
}

#[via_fn]
proof fn indented_ends(text: Seq<char>, indent: int, from: int, done: Seq<char>) {
    crate::text::lemma_position_of(text, '\n', from);
}

fn push_indented(output: &mut String, text: &str, indent: usize)
    ensures
        final(output)@ == indented(text@, indent as int, 0, old(output)@),
{
    let chars: Vec<char> = chars_of(text);
    let total: usize = chars.len();
    let space: String = repeat(' ', indent);
    let ghost first = output@;
    let mut from: usize = 0;
    while from < total
        invariant
            chars@ == text@,
            total == chars@.len(),
            from <= total,
            space@ == repeated(' ', indent as int),
            first == old(output)@,
            indented(text@, indent as int, 0, first) == indented(
                text@,
                indent as int,
                from as int,
                output@,
            ),
        decreases total - from,
    {
        let end: usize = find_char(&chars, '\n', from);
        let stop: usize = if end < total && from < end && chars[end - 1] == '\r' {
            end - 1
        } else {
            end
        };
        output.append(space.as_str());
        output.append(text_between(&chars, from, stop).as_str());
        output.append("\n");
        from = if end < total {
            end + 1
        } else {
            end
        };
    }
}

pub open spec fn outcome_code(outcome: ReportOutcome) -> Seq<char> {
    match outcome {
        ReportOutcome::Success => "32"@,
        ReportOutcome::Warning => "33"@,
        ReportOutcome::Failure => "31"@,
        ReportOutcome::Neutral => "36"@,
    }
}

fn report_outcome_color(outcome: ReportOutcome) -> (code: &'static str)
    ensures
        code@ == outcome_code(outcome),
{
    match outcome {
        ReportOutcome::Success => "32",
        ReportOutcome::Warning => "33",
        ReportOutcome::Failure => "31",
        ReportOutcome::Neutral => "36",
    }
}

// ---------------------------------------------------------------------------
// Documents of values

pub open spec fn byte_documents(bytes: Seq<u8>) -> Seq<JsonModel> {
    Seq::new(bytes.len(), |i: int| JsonModel::Integer(bytes[i] as i64))
}

/// The document that shows a value. What is sensitive is not shown.
pub open spec fn document(value: ValueModel) -> JsonModel
    decreases value,
{
    match value {
        ValueModel::Null => JsonModel::Null,
        ValueModel::Boolean(value) => JsonModel::Boolean(value),
        ValueModel::Integer(value) => JsonModel::Integer(value),
        ValueModel::Float(value) => if value.finite() {
            JsonModel::Float(value)
        } else {
            JsonModel::Null
        },
        ValueModel::String(value) => JsonModel::String(value),
        ValueModel::Bytes(bytes) => JsonModel::Array(byte_documents(bytes)),
        ValueModel::Duration(value) => JsonModel::String(decimal(value.nanos as nat) + "ns"@),
        ValueModel::Array(values) => JsonModel::Array(documents(values)),
        ValueModel::Object(entries) => JsonModel::Object(field_documents(entries)),
        ValueModel::Sensitive(_) => JsonModel::String("[REDACTED]"@),
    }
}

pub open spec fn documents(values: Seq<ValueModel>) -> Seq<JsonModel>
    decreases values,
{
    Seq::new(
        values.len(),
        |i: int|
            if 0 <= i < values.len() {
                document(values[i])
            } else {
                arbitrary()
            },
    )
}

pub open spec fn field_documents(entries: Seq<EntryModel>) -> Seq<JsonFieldModel>
    decreases entries,
{
    Seq::new(
        entries.len(),
        |i: int|
            if 0 <= i < entries.len() {
                field_document(entries[i])
            } else {
                arbitrary()
            },
    )
}

pub open spec fn field_document(entry: EntryModel) -> JsonFieldModel
    decreases entry,
{
    JsonFieldModel { name: entry.name, value: document(entry.value) }
}

fn document_bytes(bytes: &Vec<u8>) -> (values: Vec<Json>)
    ensures
        json_models(values@) == byte_documents(bytes@),
{
    let mut values: Vec<Json> = Vec::new();
    let mut at: usize = 0;
    while at < bytes.len()
        invariant
            at <= bytes@.len(),
            values@.len() == at,
            forall|i: int|
                0 <= i < at ==> (#[trigger] values@[i]).model() == JsonModel::Integer(
                    bytes@[i] as i64,
                ),
        decreases bytes@.len() - at,
    {
        values.push(Json::Integer(bytes[at] as i64));
        at += 1;
    }
    proof {
        assert(json_models(values@) =~= byte_documents(bytes@));
    }
    values
}

fn document_list(values: &Vec<Value>) -> (result: Vec<Json>)
    ensures
        json_models(result@) == documents(value_models(values@)),
    decreases *values,
{
    let ghost models = value_models(values@);
    let mut result: Vec<Json> = Vec::new();
    let mut at: usize = 0;
    while at < values.len()
        invariant
            models == value_models(values@),
            at <= values@.len(),
            result@.len() == at,
            forall|i: int|
                0 <= i < at ==> (#[trigger] result@[i]).model() == document(models[i]),
        decreases values@.len() - at,
    {
        proof {
            assert(models[at as int] == values@[at as int].model());
            assert(decreases_to!(*values => values@));
            assert(decreases_to!(values@ => values@[at as int]));
        }
        result.push(value_json(&values[at]));
        at += 1;
    }
    proof {
        assert(json_models(result@) =~= documents(models));
    }
    result
}

fn document_entries(entries: &Vec<Entry>) -> (result: Vec<JsonField>)
    ensures
        json_field_models(result@) == field_documents(entry_models(entries@)),
    decreases *entries,
{
    let ghost models = entry_models(entries@);
    let mut result: Vec<JsonField> = Vec::new();
    let mut at: usize = 0;
    while at < entries.len()
        invariant
            models == entry_models(entries@),
            at <= entries@.len(),
            result@.len() == at,
            forall|i: int|
                0 <= i < at ==> (#[trigger] result@[i]).model() == field_document(models[i]),
        decreases entries@.len() - at,
    {
        proof {
            assert(models[at as int] == entries@[at as int].model());
            assert(models[at as int].value == entries@[at as int].value.model());
            assert(decreases_to!(*entries => entries@));
            assert(decreases_to!(entries@ => entries@[at as int]));
            assert(decreases_to!(entries@[at as int] => entries@[at as int].value));
        }
        let value: Json = value_json(&entries[at].value);
        let field: JsonField = JsonField { name: entries[at].name.clone(), value };
        proof {
            assert(field.model() == field_document(models[at as int]));
        }
        result.push(field);
        at += 1;
    }
    proof {
        assert(json_field_models(result@) =~= field_documents(models));
    }
    result
}

/// The document that shows a value. What is sensitive is not shown.
pub fn value_json(value: &Value) -> (json: Json)
    ensures
        json.model() == document(value.model()),
    decreases *value,
{
    match value {
        Value::Null => Json::Null,
        Value::Boolean(value) => Json::Boolean(*value),
        Value::Integer(value) => Json::Integer(*value),
        Value::Float(value) => if value.is_finite() {
            Json::Float(*value)
        } else {
            Json::Null
        },
        Value::String(value) => Json::String(value.clone()),
        Value::Bytes(bytes) => Json::Array(document_bytes(bytes)),
        Value::Duration(value) => {
            let mut text: String = decimal_text(value.nanos);
            text.append("ns");
            Json::String(text)
        },
        Value::Array(values) => Json::Array(document_list(values)),
        Value::Object(object) => {
            proof {
                assert(object.model() == entry_models(object.entries@));
            }
            Json::Object(document_entries(&object.entries))
        },
        Value::Sensitive(_) => Json::String("[REDACTED]".to_owned()),
    }
}

/// A value as it is shown: a text, or a document that is still to be written.
#[derive(Debug, PartialEq)]
pub enum Rendered {
    Text(String),
    Document(Json),
}

pub enum RenderedModel {
    Text(Seq<char>),
    Document(JsonModel),
}

impl Rendered {
    pub open spec fn model(self) -> RenderedModel {
        match self {
            Rendered::Text(text) => RenderedModel::Text(text@),
            Rendered::Document(json) => RenderedModel::Document(json.model()),
        }
    }
}

/// How a value is shown in a report.
pub open spec fn rendered(value: ValueModel) -> RenderedModel {
    match value {
        ValueModel::Array(_) => RenderedModel::Document(document(value)),
        ValueModel::Object(_) => RenderedModel::Document(document(value)),
        ValueModel::Bytes(_) => RenderedModel::Document(document(value)),
        ValueModel::String(text) => RenderedModel::Text(text),
        ValueModel::Sensitive(_) => RenderedModel::Text("[REDACTED]"@),
        _ => RenderedModel::Text(shown(value, false)),
    }
}

pub fn format_value(value: &Value) -> (result: Rendered)
    ensures
        result.model() == rendered(value.model()),
{
    match value {
        Value::Array(_) => Rendered::Document(value_json(value)),
        Value::Object(_) => Rendered::Document(value_json(value)),
        Value::Bytes(_) => Rendered::Document(value_json(value)),
        Value::String(text) => Rendered::Text(text.clone()),
        Value::Sensitive(_) => Rendered::Text("[REDACTED]".to_owned()),
        _ => Rendered::Text(value.to_text()),
    }
}

/// How a value is shown on its own.
pub open spec fn raw(value: ValueModel) -> RenderedModel {
    match value {
        ValueModel::String(text) => RenderedModel::Text(text),
        _ => RenderedModel::Document(document(value)),
    }
}

pub fn raw_value(value: &Value) -> (result: Rendered)
    ensures
        result.model() == raw(value.model()),
{
    match value {
        Value::String(text) => Rendered::Text(text.clone()),
        _ => Rendered::Document(value_json(value)),
    }
}

// ---------------------------------------------------------------------------
// Pieces

/// A piece of a report: text, or a value behind spaces, of which only so much
/// may be shown.
#[derive(Debug, PartialEq)]
pub enum Piece {
    Text(String),
    Value { rendered: Rendered, indent: usize, complete: bool },
}

pub enum PieceModel {
    Text(Seq<char>),
    Value { rendered: RenderedModel, indent: nat, complete: bool },
}

impl Piece {
    pub open spec fn model(self) -> PieceModel {
        match self {
            Piece::Text(text) => PieceModel::Text(text@),
            Piece::Value { rendered, indent, complete } => PieceModel::Value {
                rendered: rendered.model(),
                indent: indent as nat,
                complete,
            },
        }
    }
}

pub open spec fn piece_models(pieces: Seq<Piece>) -> Seq<PieceModel> {
    Seq::new(pieces.len(), |i: int| pieces[i].model())
}

pub open spec fn said(pieces: Seq<PieceModel>, text: Seq<char>) -> Seq<PieceModel> {
    pieces.push(PieceModel::Text(text))
}

pub open spec fn placed(
    pieces: Seq<PieceModel>,
    value: ValueModel,
    indent: nat,
    complete: bool,
) -> Seq<PieceModel> {
    pieces.push(PieceModel::Value { rendered: rendered(value), indent, complete })
}

pub fn say(pieces: &mut Vec<Piece>, text: String)
    ensures
        piece_models(final(pieces)@) == said(piece_models(old(pieces)@), text@),
{
    let ghost before = piece_models(pieces@);
    pieces.push(Piece::Text(text));
    proof {
        assert(piece_models(pieces@) =~= said(before, text@));
    }
}

pub fn place_value(pieces: &mut Vec<Piece>, value: &Value, indent: usize, complete: bool)
    ensures
        piece_models(final(pieces)@) == placed(
            piece_models(old(pieces)@),
            value.model(),
            indent as nat,
            complete,
        ),
{
    let ghost before = piece_models(pieces@);
    pieces.push(Piece::Value { rendered: format_value(value), indent, complete });
    proof {
        assert(piece_models(pieces@) =~= placed(before, value.model(), indent as nat, complete));
    }
}

/// A value where its text is known.
pub open spec fn value_text(
    text: Seq<char>,
    indent: nat,
    complete: bool,
    done: Seq<char>,
) -> Seq<char> {
    indented(
        if complete {
            text
        } else {
            truncated(text, DEFAULT_PREVIEW_CHARS as nat)
        },
        indent as int,
        0,
        done,
    )
}

/// The pieces from `from` on as one text. The documents stand in `written`, in
/// the order of the pieces, from `used` on.
pub open spec fn assembled(
    pieces: Seq<PieceModel>,
    written: Seq<Seq<char>>,
    from: int,
    used: int,
    done: Seq<char>,
) -> Seq<char>
    decreases pieces.len() - from,
{
    if from < 0 || from >= pieces.len() {
        done
    } else {
        match pieces[from] {
            PieceModel::Text(text) => assembled(pieces, written, from + 1, used, done + text),
            PieceModel::Value { rendered, indent, complete } => match rendered {
                RenderedModel::Text(text) => assembled(
                    pieces,
                    written,
                    from + 1,
                    used,
                    value_text(text, indent, complete, done),
                ),
                RenderedModel::Document(_) => assembled(
                    pieces,
                    written,
                    from + 1,
                    used + 1,
                    if 0 <= used < written.len() {
                        value_text(written[used], indent, complete, done)
                    } else {
                        done
                    },
                ),
            },
        }
    }
}

fn push_value(output: &mut String, text: &str, indent: usize, complete: bool)
    ensures
        final(output)@ == value_text(text@, indent as nat, complete, old(output)@),
{
    if complete {
        push_indented(output, text, indent);
    } else {
        push_indented(output, truncate(text, DEFAULT_PREVIEW_CHARS).as_str(), indent);
    }
}

/// Puts pieces together. The documents stand in `written`, in the order of the
/// pieces.
pub fn assemble(pieces: &Vec<Piece>, written: &Vec<String>) -> (output: String)
    ensures
        output@ == assembled(
            piece_models(pieces@),
            views(written@),
            0,
            0,
            Seq::empty(),
        ),
{
    let ghost models = piece_models(pieces@);
    let ghost texts = views(written@);
    let mut output: String = no_text();
    let mut used: usize = 0;
    let mut at: usize = 0;
    while at < pieces.len()
        invariant
            models == piece_models(pieces@),
            texts == views(written@),
            used <= at <= pieces@.len(),
            assembled(models, texts, 0, 0, Seq::empty()) == assembled(
                models,
                texts,
                at as int,
                used as int,
                output@,
            ),
        decreases pieces@.len() - at,
    {
        proof {
            assert(models[at as int] == pieces@[at as int].model());
        }
        match &pieces[at] {
            Piece::Text(text) => {
                output.append(text.as_str());
            },
            Piece::Value { rendered, indent, complete } => match rendered {
                Rendered::Text(text) => {
                    push_value(&mut output, text.as_str(), *indent, *complete);
                },
                Rendered::Document(_) => {
                    if used < written.len() {
                        proof {
                            assert(texts[used as int] == written@[used as int]@);
                        }
                        push_value(&mut output, written[used].as_str(), *indent, *complete);
                    }
                    used += 1;
                },
            },
        }
        at += 1;
    }
    output
}

/// The documents of the pieces from `from` on, written in lines.
pub open spec fn written_documents(
    pieces: Seq<PieceModel>,
    from: int,
    done: Seq<Seq<char>>,
) -> Seq<Seq<char>>
    decreases pieces.len() - from,
{
    if from < 0 || from >= pieces.len() {
        done
    } else {
        written_documents(
            pieces,
            from + 1,
            match pieces[from] {
                PieceModel::Value { rendered: RenderedModel::Document(json), .. } => done.push(
                    pretty(settled(json)),
                ),
                _ => done,
            },
        )
    }
}

/// Writes a report.
pub fn print(pieces: &Vec<Piece>) -> (output: String)
    ensures
        output@ == assembled(
            piece_models(pieces@),
            written_documents(piece_models(pieces@), 0, Seq::empty()),
            0,
            0,
            Seq::empty(),
        ),
{
    let ghost models = piece_models(pieces@);
    let mut written: Vec<String> = Vec::new();
    let mut at: usize = 0;
    proof {
        assert(views(written@) =~= Seq::empty());
    }
    while at < pieces.len()
        invariant
            models == piece_models(pieces@),
            at <= pieces@.len(),
            written_documents(models, 0, Seq::empty()) == written_documents(
                models,
                at as int,
                views(written@),
            ),
        decreases pieces@.len() - at,
    {
        proof {
            assert(models[at as int] == pieces@[at as int].model());
        }
        if let Piece::Value { rendered: Rendered::Document(json), .. } = &pieces[at] {
            let ghost before = views(written@);
            let text: String = write_pretty(json);
            written.push(text);
            proof {
                assert(views(written@) =~= before.push(text@));
            }
        }
        at += 1;
    }
    assemble(pieces, &written)
}

// ---------------------------------------------------------------------------
// Operations

/// An operation that was performed.
#[derive(Debug, PartialEq)]
pub struct OperationEvent {
    pub capability: String,
    pub operation: String,
    pub duration: Duration,
    pub span: Span,
    pub result: Result<Value, String>,
    pub report: Option<OperationReport>,
}

pub struct EventModel {
    pub capability: Seq<char>,
    pub operation: Seq<char>,
    pub duration: Duration,
    pub span: Span,
    pub result: Result<ValueModel, Seq<char>>,
    pub report: Option<OperationReportModel>,
}

pub open spec fn optional_report(report: Option<OperationReport>) -> Option<OperationReportModel> {
    match report {
        Some(report) => Some(report.model()),
        None => None,
    }
}

impl OperationEvent {
    pub open spec fn model(self) -> EventModel {
        EventModel {
            capability: self.capability@,
            operation: self.operation@,
            duration: self.duration,
            span: self.span,
            result: match self.result {
                Ok(value) => Ok(value.model()),
                Err(message) => Err(message@),
            },
            report: optional_report(self.report),
        }
    }
}

pub open spec fn event_models(events: Seq<OperationEvent>) -> Seq<EventModel> {
    Seq::new(events.len(), |i: int| events[i].model())
}

/// The lines for named texts, from `from` on.
pub open spec fn field_lines(fields: Seq<(Seq<char>, Seq<char>)>, from: int, done: Seq<char>) -> Seq<
    char,
>
    decreases fields.len() - from,
{
    if from < 0 || from >= fields.len() {
        done
    } else {
        field_lines(
            fields,
            from + 1,
            done + "      "@ + fields[from].0 + ": "@ + fields[from].1 + "\n"@,
        )
    }
}

pub open spec fn title_line(title: Seq<char>, color: bool) -> Seq<char> {
    "    "@ + styled(title, "2"@, color) + "\n"@
}

pub open spec fn section_pieces(
    pieces: Seq<PieceModel>,
    section: ReportSectionModel,
    color: bool,
) -> Seq<PieceModel> {
    match section {
        ReportSectionModel::Fields { title, fields } => said(
            pieces,
            if fields.len() == 0 {
                title_line(title, color) + "      (none)\n"@
            } else {
                field_lines(fields, 0, title_line(title, color))
            },
        ),
        ReportSectionModel::Value { title, value } => placed(
            said(pieces, title_line(title, color)),
            value,
            6,
            true,
        ),
    }
}

pub open spec fn sections_pieces(
    pieces: Seq<PieceModel>,
    sections: Seq<ReportSectionModel>,
    from: int,
    color: bool,
) -> Seq<PieceModel>
    decreases sections.len() - from,
{
    if from < 0 || from >= sections.len() {
        said(pieces, "\n"@)
    } else {
        sections_pieces(section_pieces(pieces, sections[from], color), sections, from + 1, color)
    }
}

/// What is shown of an operation.
pub open spec fn operation_pieces(
    pieces: Seq<PieceModel>,
    event: EventModel,
    color: bool,
    verbose: bool,
) -> Seq<PieceModel> {
    match event.result {
        Ok(value) => match event.report {
            Some(report) => {
                let head = said(
                    pieces,
                    "  "@ + styled("✓"@, "32"@, color) + " "@ + report.summary + "\n    "@ + styled(
                        report.outcome,
                        outcome_code(report.outcome_kind),
                        color,
                    ) + " · "@ + displayed(event.duration) + "\n\n"@,
                );
                if verbose {
                    sections_pieces(head, report.sections, 0, color)
                } else {
                    head
                }
            },
            None => {
                let head = said(
                    pieces,
                    "  "@ + styled("✓"@, "32"@, color) + " "@ + event.capability + "."@
                        + event.operation + " · "@ + displayed(event.duration) + "\n\n"@,
                );
                if verbose {
                    said(
                        placed(said(head, title_line("Details"@, color)), value, 6, true),
                        "\n"@,
                    )
                } else {
                    head
                }
            },
        },
        Err(message) => said(
            pieces,
            "  "@ + styled("✗"@, "31"@, color) + " "@ + event.capability + "."@ + event.operation
                + " · "@ + displayed(event.duration) + "\n    "@ + message + "\n\n"@,
        ),
    }
}

/// What is shown of the operations from `from` on.
pub open spec fn operations_pieces(
    pieces: Seq<PieceModel>,
    events: Seq<EventModel>,
    from: int,
    color: bool,
    verbose: bool,
) -> Seq<PieceModel>
    decreases events.len() - from,
{
    if from < 0 || from >= events.len() {
        pieces
    } else {
        operations_pieces(
            operation_pieces(pieces, events[from], color, verbose),
            events,
            from + 1,
            color,
            verbose,
        )
    }
}

fn make_title(title: &str, color: bool) -> (line: String)
    ensures
        line@ == title_line(title@, color),
{
    wrapped("    ", style(title, "2", color).as_str(), "\n")
}

fn make_fields(title: &str, fields: &Vec<(String, String)>, color: bool) -> (text: String)
    ensures
        text@ == (if fields@.len() == 0 {
            title_line(title@, color) + "      (none)\n"@
        } else {
            field_lines(pair_models(fields@), 0, title_line(title@, color))
        }),
{
    let ghost models = pair_models(fields@);
    let mut text: String = make_title(title, color);
    let ghost first = text@;
    if fields.len() == 0 {
        text.append("      (none)\n");
        return text;
    }
    let mut at: usize = 0;
    while at < fields.len()
        invariant
            models == pair_models(fields@),
            at <= fields@.len(),
            field_lines(models, 0, first) == field_lines(models, at as int, text@),
        decreases fields@.len() - at,
    {
        proof {
            assert(models[at as int] == (fields@[at as int].0@, fields@[at as int].1@));
        }
        text.append("      ");
        text.append(fields[at].0.as_str());
        text.append(": ");
        text.append(fields[at].1.as_str());
        text.append("\n");
        at += 1;
    }
    text
}

fn render_operation_report(pieces: &mut Vec<Piece>, report: &OperationReport, color: bool)
    ensures
        piece_models(final(pieces)@) == sections_pieces(
            piece_models(old(pieces)@),
            report.model().sections,
            0,
            color,
        ),
{
    let ghost models = section_models(report.sections@);
    let ghost first = piece_models(pieces@);
    let mut at: usize = 0;
    while at < report.sections.len()
        invariant
            models == section_models(report.sections@),
            at <= report.sections@.len(),
            sections_pieces(first, models, 0, color) == sections_pieces(
                piece_models(pieces@),
                models,
                at as int,
                color,
            ),
        decreases report.sections@.len() - at,
    {
        proof {
            assert(models[at as int] == report.sections@[at as int].model());
        }
        match &report.sections[at] {
            ReportSection::Fields { title, fields } => {
                say(pieces, make_fields(title.as_str(), fields, color));
            },
            ReportSection::Value { title, value } => {
                say(pieces, make_title(title.as_str(), color));
                place_value(pieces, value, 6, true);
            },
        }
        at += 1;
    }
    say(pieces, "\n".to_owned());
}

fn operation_line(event: &OperationEvent, mark: &str, code: &str, color: bool) -> (text: String)
    ensures
        text@ == "  "@ + styled(mark@, code@, color) + " "@ + event.capability@ + "."@
            + event.operation@ + " · "@ + displayed(event.duration),
{
    let mut text: String = "  ".to_owned();
    text.append(style(mark, code, color).as_str());
    text.append(" ");
    text.append(event.capability.as_str());
    text.append(".");
    text.append(event.operation.as_str());
    text.append(" · ");
    text.append(display_duration(event.duration).as_str());
    text
}

fn render_operation(pieces: &mut Vec<Piece>, event: &OperationEvent, color: bool, verbose: bool)
    ensures
        piece_models(final(pieces)@) == operation_pieces(
            piece_models(old(pieces)@),
            event.model(),
            color,
            verbose,
        ),
{
    match &event.result {
        Ok(value) => match &event.report {
            Some(report) => {
                let mut text: String = "  ".to_owned();
                text.append(style("✓", "32", color).as_str());
                text.append(" ");
                text.append(report.summary.as_str());
                text.append("\n    ");
                text.append(
                    style(
                        report.outcome.as_str(),
                        report_outcome_color(report.outcome_kind),
                        color,
                    ).as_str(),
                );
                text.append(" · ");
                text.append(display_duration(event.duration).as_str());
                text.append("\n\n");
                say(pieces, text);
                if verbose {
                    render_operation_report(pieces, report, color);
                }
            },
            None => {
                let mut text: String = operation_line(event, "✓", "32", color);
                text.append("\n\n");
                say(pieces, text);
                if verbose {
                    say(pieces, make_title("Details", color));
                    place_value(pieces, value, 6, true);
                    say(pieces, "\n".to_owned());
                }
            },
        },
        Err(message) => {
            let mut text: String = operation_line(event, "✗", "31", color);
            text.append("\n    ");
            text.append(message.as_str());
            text.append("\n\n");
            say(pieces, text);
        },
    }
}

pub fn render_operations(
    pieces: &mut Vec<Piece>,
    events: &Vec<OperationEvent>,
    color: bool,
    verbose: bool,
)
    ensures
        piece_models(final(pieces)@) == operations_pieces(
            piece_models(old(pieces)@),
            event_models(events@),
            0,
            color,
            verbose,
        ),
{
    let ghost models = event_models(events@);
    let ghost first = piece_models(pieces@);
    let mut at: usize = 0;
    while at < events.len()
        invariant
            models == event_models(events@),
            first == piece_models(old(pieces)@),
            at <= events@.len(),
            operations_pieces(first, models, 0, color, verbose) == operations_pieces(
                piece_models(pieces@),
                models,
                at as int,
                color,
                verbose,
            ),
        decreases events@.len() - at,
    {
        proof {
            assert(models[at as int] == events@[at as int].model());
        }
        render_operation(pieces, &events[at], color, verbose);
        at += 1;
    }
}

} // verus!
