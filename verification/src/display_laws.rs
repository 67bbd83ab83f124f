//! What people and editors are shown.

use vstd::prelude::*;

use crate::capability::ReportOutcome;
use crate::command_laws::lemma_count;
use crate::duration::Duration;
use crate::duration_laws::lemma_decimal;
use crate::figures::{displayed, displayed_shortly};
use crate::http_report::{outcome_of, report_of};
use crate::json::JsonModel;
use crate::lsp::{closed, header_of, HeaderLine, Range};
use crate::measure_laws::tells;
use crate::messages::{
    as_count, as_text, asked, definition_place, named_path, part, part_of, place, task_of,
    TaskModel,
};
use crate::plan::MettlePlanModel;
use crate::positions::location;
use crate::records::{error_record, listed, number, text_documents};
use crate::report::{document, outcome_code, rendered, styled, truncated, RenderedModel};
use crate::sources::{
    diagnostic, file_program, joined_program, named_flows, searched, DocumentModel,
};
use crate::summary::{
    batch_text, counts_line, duration_at, integer_at, latency_line, plural, tests_text,
};
use crate::syntax::{DeclarationKind, MettleDeclModel, ProgramModel, Span};
use crate::text::{
    begins_with, decimal, first_solid, grouped, is_digit, last_solid, signed_decimal, trimmed,
};
use crate::value::{lookup, shown, EntryModel, ValueModel};

verus! {

// ---------------------------------------------------------------------------
// Responses

/// A status below four hundred is a success, one below five hundred a warning,
/// and any that is no status of either a failure.
pub proof fn law_statuses_decide_the_outcome(status: i64)
    ensures
        outcome_of(status) == ReportOutcome::Success <==> status / 100 == 2 || status / 100 == 3,
        outcome_of(status) == ReportOutcome::Warning <==> status / 100 == 4,
        outcome_of(status) != ReportOutcome::Neutral,
{
}

/// A response is reported with its method, its address, its status, and the
/// document that it holds; where there is none, with its text.
pub proof fn law_responses_are_reported(
    entries: Seq<EntryModel>,
    method: Seq<char>,
    url: ValueModel,
    status: i64,
    headers: Seq<EntryModel>,
)
    requires
        lookup(entries, "method"@) == Some(ValueModel::String(method)),
        lookup(entries, "url"@) == Some(url),
        lookup(entries, "status"@) == Some(ValueModel::Integer(status)),
        lookup(entries, "headers"@) == Some(ValueModel::Object(headers)),
    ensures
        report_of(ValueModel::Object(entries)) matches Some(report) && {
            &&& report.outcome == signed_decimal(status as int)
            &&& report.outcome_kind == outcome_of(status)
            &&& report.summary.take(method.len() as int) == method
            &&& report.summary.len() >= shown(url, false).len() && report.summary.skip(
                report.summary.len() - shown(url, false).len(),
            ) == shown(url, false)
            &&& lookup(entries, "json"@) matches Some(json) ==> (json != ValueModel::Null
                ==> report.payload == Some(json))
            &&& lookup(entries, "json"@) is None || lookup(entries, "json"@) == Some(
                ValueModel::Null,
            ) ==> report.payload == lookup(entries, "body"@)
        },
{
    reveal_with_fuel(ValueModel::revealed, 2);
    if let Some(report) = report_of(ValueModel::Object(entries)) {
        let tail = shown(url, false);
        assert(report.summary.take(method.len() as int) =~= method);
        assert(report.summary.skip(report.summary.len() - tail.len()) =~= tail);
    }
}

// ---------------------------------------------------------------------------
// Text

/// Without colours a text is shown as it is; with them it stands between two
/// marks, and kinds of outcomes have different ones.
pub proof fn law_colours_leave_the_text(
    text: Seq<char>,
    code: Seq<char>,
    one: ReportOutcome,
    other: ReportOutcome,
)
    ensures
        styled(text, code, false) == text,
        exists|from: int|
            0 <= from && from + text.len() <= styled(text, code, true).len()
                && #[trigger] styled(text, code, true).subrange(from, from + text.len()) == text,
        outcome_code(one) == outcome_code(other) <==> one == other,
{
    let whole = styled(text, code, true);
    let from = ("\x1b["@ + code + "m"@).len() as int;
    assert(whole.subrange(from, from + text.len()) =~= text);
    reveal_strlit("31");
    reveal_strlit("32");
    reveal_strlit("33");
    reveal_strlit("36");
    assert("31"@[1] == '1' && "32"@[1] == '2' && "33"@[1] == '3' && "36"@[1] == '6');
}

/// A text that is not too long is shown whole; of any other its beginning is.
pub proof fn law_long_texts_are_cut(text: Seq<char>, limit: nat)
    ensures
        text.len() <= limit ==> truncated(text, limit) == text,
        text.len() > limit ==> truncated(text, limit).len() > limit && truncated(text, limit).take(
            limit as int,
        ) == text.take(limit as int),
{
    if text.len() > limit {
        reveal_strlit("\n… response truncated after ");
        assert("\n… response truncated after "@.len() > 0);
        assert(truncated(text, limit).take(limit as int) =~= text.take(limit as int));
    }
}

/// One thing is counted by its name alone, and any other number of them with an
/// `s` behind it.
pub proof fn law_counts_have_their_number(count: nat, noun: Seq<char>)
    ensures
        plural(count, noun) == decimal(count) + seq![' '] + noun + (if count == 1 {
            Seq::empty()
        } else {
            seq!['s']
        }),
{
    reveal_strlit(" ");
    reveal_strlit("");
    reveal_strlit("s");
    assert(" "@ =~= seq![' ']);
    assert(""@ =~= Seq::empty());
    assert("s"@ =~= seq!['s']);
}

/// A span of whole seconds is shown as such, and so is one of whole milliseconds
/// below a second.
pub proof fn law_whole_spans_are_shown_whole(count: nat)
    ensures
        0 < count && count * 1_000_000_000 <= u128::MAX ==> displayed(
            Duration { nanos: (count * 1_000_000_000) as u128 },
        ) == decimal(count) + "s"@ && displayed_shortly(
            Duration { nanos: (count * 1_000_000_000) as u128 },
        ) == decimal(count) + "s"@,
        0 < count < 1000 ==> displayed(Duration { nanos: (count * 1_000_000) as u128 }) == decimal(
            count,
        ) + "ms"@,
{
}

/// Whether a text says a label behind a text of its own.
pub open spec fn says(text: Seq<char>, what: Seq<char>, label: Seq<char>) -> bool {
    exists|before: Seq<char>, after: Seq<char>| text == #[trigger] (before + what + label + after)
}

proof fn lemma_says(before: Seq<char>, what: Seq<char>, label: Seq<char>, after: Seq<char>)
    ensures
        says(before + what + (label + after), what, label),
{
    assert(before + what + (label + after) =~= before + what + label + after);
}

proof fn lemma_still_says(
    text: Seq<char>,
    what: Seq<char>,
    label: Seq<char>,
    more: Seq<char>,
    last: Seq<char>,
)
    requires
        says(text, what, label),
    ensures
        says(text + more + last, what, label),
{
    let (before, after) = choose|before: Seq<char>, after: Seq<char>|
        text == #[trigger] (before + what + label + after);
    assert(text + more + last =~= before + what + label + (after + more + last));
}

/// The line of counts says of each what it counts.
pub proof fn law_counts_say_what_they_count(entries: Seq<EntryModel>)
    ensures
        counts_line(entries) matches Some(line) ==> {
            &&& integer_at(entries, "started"@) matches Some(count) && says(
                line,
                signed_decimal(count as int),
                " started"@,
            )
            &&& integer_at(entries, "success"@) matches Some(count) && says(
                line,
                signed_decimal(count as int),
                " successful"@,
            )
            &&& integer_at(entries, "failed"@) matches Some(count) && says(
                line,
                signed_decimal(count as int),
                " failed"@,
            )
            &&& integer_at(entries, "dropped"@) matches Some(count) && says(
                line,
                signed_decimal(count as int),
                " dropped"@,
            )
            &&& integer_at(entries, "count"@) matches Some(count) && says(
                line,
                signed_decimal(count as int),
                " completed"@,
            )
        },
{
    reveal(counts_line);
    if let (Some(completed), Some(started), Some(success), Some(failed), Some(dropped)) = (
        integer_at(entries, "count"@),
        integer_at(entries, "started"@),
        integer_at(entries, "success"@),
        integer_at(entries, "failed"@),
        integer_at(entries, "dropped"@),
    ) {
        let line = counts_line(entries)->0;
        let started = signed_decimal(started as int);
        let success = signed_decimal(success as int);
        let failed = signed_decimal(failed as int);
        let dropped = signed_decimal(dropped as int);
        let completed = signed_decimal(completed as int);
        lemma_line_labels();
        let dot = " · "@;
        let a = "\n"@;
        let b = a + started + " started · "@;
        let c = b + success + " successful · "@;
        let d = c + failed + " failed · "@;
        let e = d + dropped + " dropped · "@;
        let last = " completed\n"@;
        lemma_says(a, started, " started"@, dot);
        lemma_still_says(b, started, " started"@, success, " successful · "@);
        lemma_still_says(c, started, " started"@, failed, " failed · "@);
        lemma_still_says(d, started, " started"@, dropped, " dropped · "@);
        lemma_still_says(e, started, " started"@, completed, last);
        lemma_says(b, success, " successful"@, dot);
        lemma_still_says(c, success, " successful"@, failed, " failed · "@);
        lemma_still_says(d, success, " successful"@, dropped, " dropped · "@);
        lemma_still_says(e, success, " successful"@, completed, last);
        lemma_says(c, failed, " failed"@, dot);
        lemma_still_says(d, failed, " failed"@, dropped, " dropped · "@);
        lemma_still_says(e, failed, " failed"@, completed, last);
        lemma_says(d, dropped, " dropped"@, dot);
        lemma_still_says(e, dropped, " dropped"@, completed, last);
        lemma_says(e, completed, " completed"@, "\n"@);
        assert(line == e + completed + last);
    }
}

proof fn lemma_line_labels()
    ensures
        " started · "@ == " started"@ + " · "@,
        " successful · "@ == " successful"@ + " · "@,
        " failed · "@ == " failed"@ + " · "@,
        " dropped · "@ == " dropped"@ + " · "@,
        " completed\n"@ == " completed"@ + "\n"@,
{
    reveal_strlit(" · ");
    reveal_strlit("\n");
    reveal_strlit(" started");
    reveal_strlit(" started · ");
    reveal_strlit(" successful");
    reveal_strlit(" successful · ");
    reveal_strlit(" failed");
    reveal_strlit(" failed · ");
    reveal_strlit(" dropped");
    reveal_strlit(" dropped · ");
    reveal_strlit(" completed");
    reveal_strlit(" completed\n");
    assert(" started · "@ =~= " started"@ + " · "@);
    assert(" successful · "@ =~= " successful"@ + " · "@);
    assert(" failed · "@ =~= " failed"@ + " · "@);
    assert(" dropped · "@ =~= " dropped"@ + " · "@);
    assert(" completed\n"@ =~= " completed"@ + "\n"@);
}

/// The line of times says each percentile behind its name, and the greatest
/// behind `max`.
pub proof fn law_times_say_what_they_are(entries: Seq<EntryModel>, latency: Seq<EntryModel>)
    requires
        lookup(entries, "latency"@) == Some(ValueModel::Object(latency)),
    ensures
        latency_line(entries) matches Some(line) ==> {
            &&& duration_at(latency, "p50"@) matches Some(time) && says(
                line,
                "p50 "@,
                displayed(time),
            )
            &&& duration_at(latency, "p95"@) matches Some(time) && says(
                line,
                "p95 "@,
                displayed(time),
            )
            &&& duration_at(latency, "p99"@) matches Some(time) && says(
                line,
                "p99 "@,
                displayed(time),
            )
            &&& duration_at(latency, "max"@) matches Some(time) && says(
                line,
                "max "@,
                displayed(time),
            )
        },
{
    reveal(latency_line);
    if let (Some(p50), Some(p95), Some(p99), Some(max)) = (
        duration_at(latency, "p50"@),
        duration_at(latency, "p95"@),
        duration_at(latency, "p99"@),
        duration_at(latency, "max"@),
    ) {
        let line = latency_line(entries)->0;
        reveal_strlit("Latency ");
        reveal_strlit("Latency p50 ");
        reveal_strlit("p50 ");
        reveal_strlit("p95 ");
        reveal_strlit("p99 ");
        reveal_strlit("max ");
        reveal_strlit(" · ");
        reveal_strlit(" · p95 ");
        reveal_strlit(" · p99 ");
        reveal_strlit(" · max ");
        let dot = " · "@;
        assert("Latency p50 "@ =~= "Latency "@ + "p50 "@);
        assert(" · p95 "@ =~= dot + "p95 "@);
        assert(" · p99 "@ =~= dot + "p99 "@);
        assert(" · max "@ =~= dot + "max "@);
        let a = "Latency "@ + "p50 "@ + displayed(p50);
        let b = a + (dot + "p95 "@) + displayed(p95);
        let c = b + (dot + "p99 "@) + displayed(p99);
        let d = c + (dot + "max "@) + displayed(max);
        assert(line == d);
        lemma_names("Latency "@, "p50 "@, displayed(p50));
        lemma_still_says(a, "p50 "@, displayed(p50), dot + "p95 "@, displayed(p95));
        lemma_still_says(b, "p50 "@, displayed(p50), dot + "p99 "@, displayed(p99));
        lemma_still_says(c, "p50 "@, displayed(p50), dot + "max "@, displayed(max));
        lemma_names_behind(a, dot, "p95 "@, displayed(p95));
        lemma_still_says(b, "p95 "@, displayed(p95), dot + "p99 "@, displayed(p99));
        lemma_still_says(c, "p95 "@, displayed(p95), dot + "max "@, displayed(max));
        lemma_names_behind(b, dot, "p99 "@, displayed(p99));
        lemma_still_says(c, "p99 "@, displayed(p99), dot + "max "@, displayed(max));
        lemma_names_behind(c, dot, "max "@, displayed(max));
    }
}

proof fn lemma_names(before: Seq<char>, what: Seq<char>, label: Seq<char>)
    ensures
        says(before + what + label, what, label),
{
    let none = Seq::<char>::empty();
    assert(before + what + label =~= before + what + label + none);
}

proof fn lemma_names_behind(text: Seq<char>, dot: Seq<char>, what: Seq<char>, label: Seq<char>)
    ensures
        says(text + (dot + what) + label, what, label),
{
    let none = Seq::<char>::empty();
    assert(text + (dot + what) + label =~= (text + dot) + what + label + none);
}

/// The summary of tests says how many have passed and how many have failed.
pub proof fn law_summaries_say_the_counts(passed: nat, failed: nat, duration: Duration)
    ensures
        says(tests_text(passed, failed, duration), "Passed: "@, decimal(passed)),
        says(tests_text(passed, failed, duration), "Failed: "@, decimal(failed)),
{
    reveal_strlit("Passed: ");
    reveal_strlit("Failed: ");
    reveal_strlit("   ");
    reveal_strlit("   Failed: ");
    reveal_strlit("\nTest summary\n  ");
    reveal_strlit("\nTest summary\n  Passed: ");
    assert("   Failed: "@ =~= "   "@ + "Failed: "@);
    let title = "\nTest summary\n  "@;
    assert("\nTest summary\n  Passed: "@ =~= title + "Passed: "@);
    let head = "\n"@ + crate::summary::double_rule();
    let a = head + (title + "Passed: "@) + decimal(passed);
    let b = a + ("   "@ + "Failed: "@) + decimal(failed);
    let c = b + "\n  Duration: "@ + displayed(duration);
    let d = c + "\n"@ + crate::summary::double_rule();
    assert(tests_text(passed, failed, duration) == d);
    lemma_names_behind(head, title, "Passed: "@, decimal(passed));
    lemma_still_says(a, "Passed: "@, decimal(passed), "   "@ + "Failed: "@, decimal(failed));
    lemma_still_says(b, "Passed: "@, decimal(passed), "\n  Duration: "@, displayed(duration));
    lemma_still_says(c, "Passed: "@, decimal(passed), "\n"@, crate::summary::double_rule());
    lemma_names_behind(a, "   "@, "Failed: "@, decimal(failed));
    lemma_still_says(b, "Failed: "@, decimal(failed), "\n  Duration: "@, displayed(duration));
    lemma_still_says(c, "Failed: "@, decimal(failed), "\n"@, crate::summary::double_rule());
}

// ---------------------------------------------------------------------------
// Documents

/// A value as a document keeps its kind, its elements and their order; what is
/// sensitive is not shown.
pub proof fn law_values_are_documents(value: ValueModel, at: int)
    ensures
        value matches ValueModel::Boolean(truth) ==> document(value) == JsonModel::Boolean(truth),
        value matches ValueModel::Integer(number) ==> document(value) == JsonModel::Integer(number),
        value matches ValueModel::String(text) ==> document(value) == JsonModel::String(text)
            && rendered(value) == RenderedModel::Text(text),
        value is Null ==> document(value) is Null,
        value is Sensitive ==> document(value) == JsonModel::String("[REDACTED]"@) && rendered(
            value,
        ) == RenderedModel::Text("[REDACTED]"@),
        value matches ValueModel::Array(items) ==> (document(value) matches JsonModel::Array(parts)
            && parts.len() == items.len() && (0 <= at < items.len() ==> parts[at] == document(
            items[at],
        ))),
        value matches ValueModel::Object(entries) ==> (
        document(value) matches JsonModel::Object(fields) && fields.len() == entries.len() && (0
            <= at < entries.len() ==> fields[at].name == entries[at].name && fields[at].value
            == document(entries[at].value))),
        value matches ValueModel::Bytes(bytes) ==> (document(value) matches JsonModel::Array(parts)
            && parts.len() == bytes.len() && (0 <= at < bytes.len() ==> parts[at]
            == JsonModel::Integer(bytes[at] as i64))),
{
    reveal_with_fuel(document, 2);
    if let ValueModel::Object(entries) = value {
        if 0 <= at < entries.len() {
            assert(crate::report::field_documents(entries)[at] == crate::report::field_document(
                entries[at],
            ));
        }
    }
    if let ValueModel::Array(items) = value {
        if 0 <= at < items.len() {
            assert(crate::report::documents(items)[at] == document(items[at]));
        }
    }
}

proof fn lemma_place_names()
    ensures
        "column"@.len() == 6 && "flowStack"@.len() == 9 && "message"@.len() == 7,
        "line"@.len() == 4 && "line"@[0] == 'l',
        "path"@.len() == 4 && "path"@[0] == 'p',
        "name"@.len() == 4 && "name"@[0] == 'n',
        "id"@.len() == 2 && "displayName"@.len() == 11 && "parameters"@.len() == 10,
        "character"@.len() == 9 && "range"@.len() == 5 && "uri"@.len() == 3,
        "end"@.len() == 3 && "start"@.len() == 5,
{
    reveal_strlit("column");
    reveal_strlit("flowStack");
    reveal_strlit("message");
    reveal_strlit("line");
    reveal_strlit("path");
    reveal_strlit("name");
    reveal_strlit("id");
    reveal_strlit("displayName");
    reveal_strlit("parameters");
    reveal_strlit("character");
    reveal_strlit("range");
    reveal_strlit("uri");
    reveal_strlit("end");
    reveal_strlit("start");
}

/// The record of an error says what went wrong and where.
pub proof fn law_errors_say_where(
    message: Seq<char>,
    source: DocumentModel,
    byte: int,
    flow_stack: Seq<Seq<char>>,
)
    ensures
        ({
            let record = error_record(message, source, byte, flow_stack);
            &&& tells(record, "message"@, JsonModel::String(message))
            &&& tells(record, "path"@, JsonModel::String(source.path))
            &&& tells(record, "line"@, number(location(source.text, byte).0 as nat))
            &&& tells(record, "column"@, number(location(source.text, byte).1 as nat))
            &&& tells(record, "flowStack"@, JsonModel::Array(text_documents(flow_stack)))
        }),
{
    lemma_place_names();
    if let JsonModel::Object(fields) = error_record(message, source, byte, flow_stack) {
        assert(fields[0].name == "column"@ && fields[1].name == "flowStack"@);
        assert(fields[2].name == "line"@ && fields[3].name == "message"@);
        assert(fields[4].name == "path"@);
    }
}

/// What is listed says its name, its position among all and where it stands.
pub proof fn law_listings_say_where(id: nat, flow: MettlePlanModel, documents: Seq<DocumentModel>)
    ensures
        ({
            let record = listed(id, flow, documents);
            let source = documents[flow.span.source as int];
            let place = location(source.text, flow.span.start as int);
            &&& tells(record, "id"@, number(id))
            &&& tells(record, "path"@, JsonModel::String(source.path))
            &&& tells(record, "line"@, number(place.0 as nat))
            &&& tells(record, "column"@, number(place.1 as nat))
            &&& flow.kind == DeclarationKind::Test ==> tells(
                record,
                "name"@,
                JsonModel::String(flow.display_name),
            )
            &&& flow.kind == DeclarationKind::Flow ==> tells(
                record,
                "displayName"@,
                JsonModel::String(flow.display_name),
            ) && tells(record, "parameters"@, JsonModel::Array(text_documents(flow.parameters)))
                && (flow.name matches Some(name) ==> tells(
                record,
                "name"@,
                JsonModel::String(name),
            ))
        }),
{
    lemma_place_names();
    if let JsonModel::Object(fields) = listed(id, flow, documents) {
        if flow.kind == DeclarationKind::Test {
            assert(fields[0].name == "column"@ && fields[1].name == "id"@);
            assert(fields[2].name == "line"@ && fields[3].name == "name"@);
            assert(fields[4].name == "path"@);
        } else {
            assert(fields[0].name == "column"@ && fields[1].name == "displayName"@);
            assert(fields[2].name == "id"@ && fields[3].name == "line"@);
            assert(fields[4].name == "name"@ && fields[5].name == "parameters"@);
            assert(fields[6].name == "path"@);
        }
    }
}

/// A message for people names the file, the line and the column, as they are
/// counted from one.
pub proof fn law_messages_name_the_place(
    path: Seq<char>,
    text: Seq<char>,
    message: Seq<char>,
    span: Span,
)
    ensures
        begins_with(
            diagnostic(path, text, message, span),
            "error: "@ + message + "\n --> "@ + path + ":"@ + decimal(
                location(text, span.start as int).0 as nat,
            ) + ":"@ + decimal(location(text, span.start as int).1 as nat) + "\n"@,
        ),
{
    let head = "error: "@ + message + "\n --> "@ + path + ":"@ + decimal(
        location(text, span.start as int).0 as nat,
    ) + ":"@ + decimal(location(text, span.start as int).1 as nat) + "\n"@;
    assert(diagnostic(path, text, message, span).take(head.len() as int) =~= head);
}

// ---------------------------------------------------------------------------
// Editors

/// A place is told by its line and the character in it, and a definition by
/// where it begins and ends.
pub proof fn law_places_are_told(path: Seq<char>, range: Range)
    ensures
        tells(place(range.start), "line"@, number(range.start.0 as nat)),
        tells(place(range.start), "character"@, number(range.start.1 as nat)),
        tells(
            definition_place(path, range),
            "uri"@,
            JsonModel::String(crate::lsp::path_uri(path)),
        ),
        part(definition_place(path, range), "range"@) matches Some(told) && tells(
            told,
            "start"@,
            place(range.start),
        ) && tells(told, "end"@, place(range.end)),
{
    lemma_place_names();
    if let JsonModel::Object(fields) = place(range.start) {
        assert(fields[0].name == "character"@ && fields[1].name == "line"@);
    }
    if let JsonModel::Object(fields) = definition_place(path, range) {
        assert(fields[0].name == "range"@ && fields[1].name == "uri"@);
        if let JsonModel::Object(ends) = fields[0].value {
            assert(ends[0].name == "end"@ && ends[1].name == "start"@);
        }
    }
}

/// Who asks for a definition is answered for the document, the line and the
/// character that they name.
pub proof fn law_questions_name_their_place(id: JsonModel, params: Option<JsonModel>)
    ensures
        asked(id, params) matches TaskModel::Define { id: given, path, line, character } ==> {
            &&& given == id
            &&& as_text(part_of(part_of(params, "textDocument"@), "uri"@)) matches Some(uri)
                && crate::lsp::uri_path(uri) == Some(path)
            &&& as_count(part_of(part_of(params, "position"@), "line"@)) == Some(line)
            &&& as_count(part_of(part_of(params, "position"@), "character"@)) == Some(character)
        },
{
}

proof fn lemma_methods()
    ensures
        "textDocument/didOpen"@.len() == 20,
        "textDocument/didChange"@.len() == 22,
        "textDocument/didClose"@.len() == 21,
        "exit"@.len() == 4,
{
    reveal_strlit("textDocument/didOpen");
    reveal_strlit("textDocument/didChange");
    reveal_strlit("textDocument/didClose");
    reveal_strlit("exit");
}

/// A document that is opened is kept as it is told, one that is closed is
/// forgotten, and only `exit` ends the exchange.
pub proof fn law_documents_are_kept(message: JsonModel)
    requires
        part(message, "id"@) is None,
    ensures
        ({
            let method = as_text(part(message, "method"@));
            let document = part_of(part(message, "params"@), "textDocument"@);
            let uri = as_text(part_of(document, "uri"@));
            &&& method == Some("textDocument/didOpen"@) ==> (as_text(part_of(document, "text"@))
                matches Some(text) ==> (named_path(uri) matches Some(path) ==> task_of(message)
                == TaskModel::Keep { path, text }))
            &&& method == Some("textDocument/didClose"@) ==> (named_path(uri) matches Some(path)
                ==> task_of(message) == TaskModel::Forget { path })
            &&& method == Some("exit"@) <==> task_of(message) is Exit
        }),
{
    lemma_methods();
}

// ---------------------------------------------------------------------------
// Files

/// Hidden directories and that of build outputs are not searched; all others
/// are.
pub proof fn law_hidden_directories_are_not_searched(name: Seq<char>)
    ensures
        searched(name) <==> !(name.len() > 0 && name[0] == '.') && name != "target"@,
{
    reveal_strlit(".");
    assert("."@.len() == 1 && "."@[0] == '.');
    if name.len() > 0 {
        assert(name.take(1) =~= seq![name[0]]);
        assert("."@ =~= seq!['.']);
        assert(seq![name[0]][0] == name[0] && seq!['.'][0] == '.');
    }
}

/// Of a file beside the one that is run, exactly the flows with a name count, in
/// their order.
pub proof fn law_only_named_flows_are_shared(flows: Seq<MettleDeclModel>, from: int)
    requires
        0 <= from <= flows.len(),
    ensures
        named_flows(flows, from) == flows.skip(from).filter(
            |flow: MettleDeclModel| flow.name is Some,
        ),
    decreases flows.len() - from,
{
    let named = |flow: MettleDeclModel| flow.name is Some;
    reveal(Seq::filter);
    if from < flows.len() {
        law_only_named_flows_are_shared(flows, from + 1);
        let rest = flows.skip(from);
        let first = seq![flows[from]];
        assert(rest =~= first + flows.skip(from + 1));
        Seq::filter_distributes_over_add(first, flows.skip(from + 1), named);
        assert(first.drop_last() =~= Seq::empty());
        assert(first.last() == flows[from]);
        assert(first.drop_last().filter(named) =~= Seq::empty());
        if named(flows[from]) {
            assert(first.filter(named) =~= first);
        } else {
            assert(first.filter(named) =~= Seq::empty());
            assert(Seq::empty() + named_flows(flows, from + 1) =~= named_flows(flows, from + 1));
        }
    } else {
        assert(flows.skip(from) =~= Seq::empty());
        assert(flows.skip(from).filter(named) =~= Seq::empty());
    }
}

// ---------------------------------------------------------------------------
// Lengths and groups

/// The length that is written before a message can be read back.
pub proof fn law_lengths_read_back(length: usize)
    ensures
        header_of("Content-Length: "@ + decimal(length as nat) + "\r\n"@) == HeaderLine::Length(
            Some(length),
        ),
{
    let digits = decimal(length as nat);
    lemma_decimal(length as nat);
    lemma_count(length);
    reveal_strlit("Content-Length: ");
    reveal_strlit("Content-Length:");
    reveal_strlit("\r\n");
    reveal_strlit("\n");
    let line = "Content-Length: "@ + digits + "\r\n"@;
    let count = line.len() as int;
    assert("Content-Length: "@.len() == 16 && "Content-Length:"@.len() == 15);
    assert("\r\n"@.len() == 2 && "\n"@.len() == 1);
    assert(line[0] == 'C' && "\r\n"@[0] == '\r' && "\r\n"@[1] == '\n');
    assert(line[count - 1] == '\n' && line[count - 2] == '\r');
    assert(line[count - 3] == digits.last());
    assert(is_digit(digits[digits.len() - 1]));
    let solid = "Content-Length: "@ + digits;
    assert(first_solid(line, 0) == 0);
    assert(last_solid(line, 0, count - 2) == count - 2);
    assert(last_solid(line, 0, count - 1) == count - 2);
    assert(last_solid(line, 0, count) == count - 2);
    assert(trimmed(line) =~= solid);
    assert(solid.take(15) =~= "Content-Length:"@);
    let rest = solid.skip(15);
    assert("Content-Length: "@[15] == ' ');
    assert(rest =~= seq![' '] + digits);
    assert(rest[0] == ' ' && rest[1] == digits[0]);
    assert(is_digit(digits[0]));
    assert(first_solid(rest, 1) == 1);
    assert(first_solid(rest, 0) == 1);
    assert(rest[rest.len() - 1] == digits.last());
    assert(last_solid(rest, 1, rest.len() as int) == rest.len());
    assert(trimmed(rest) =~= digits);
}

/// In a number that is shown in groups, every fourth place from the end is a
/// comma, and no other.
pub proof fn law_groups_have_three_digits(value: nat, at: int)
    requires
        0 <= at < grouped(value).len(),
    ensures
        grouped(value)[grouped(value).len() - 1 - at] == ',' <==> at % 4 == 3,
    decreases value,
{
    let text = grouped(value);
    let count = text.len() as int;
    if value < 1000 {
        lemma_decimal(value);
        assert(is_digit(text[count - 1 - at]));
        lemma_few_digits(value);
    } else {
        let front = grouped(value / 1000);
        assert(count == front.len() + 4);
        if at < 3 {
            assert(is_digit(text[count - 1 - at]));
        } else if at == 3 {
            assert(text[count - 4] == ',');
        } else {
            law_groups_have_three_digits(value / 1000, at - 4);
            assert(text[count - 1 - at] == front[front.len() - 1 - (at - 4)]);
        }
    }
}

proof fn lemma_few_digits(value: nat)
    requires
        value < 1000,
    ensures
        decimal(value).len() <= 3,
{
    reveal_with_fuel(decimal, 4);
}

/// Once a document is closed none of its path is left, so long as there was only
/// one, and all others are.
pub proof fn law_closed_documents_are_gone(
    documents: Seq<(Seq<char>, Seq<char>)>,
    path: Seq<char>,
    from: int,
    at: int,
)
    requires
        0 <= from <= at < documents.len(),
        documents[at].0 == path,
        forall|i: int| 0 <= i < documents.len() && i != at ==> (#[trigger] documents[i]).0 != path,
    ensures
        closed(documents, path, from) == documents.remove(at),
    decreases at - from,
{
    if from < at {
        assert(documents[from].0 != path);
        law_closed_documents_are_gone(documents, path, from + 1, at);
    }
}

/// The summary of a batch says how many have passed, failed and been skipped.
pub proof fn law_batches_say_the_counts(passed: nat, failed: nat, skipped: nat, duration: Duration)
    ensures
        ({
            let text = batch_text(passed, failed, skipped, Some(duration));
            &&& says(text, "Passed: "@, decimal(passed))
            &&& says(text, "Failed: "@, decimal(failed))
            &&& says(text, "Skipped: "@, decimal(skipped))
        }),
{
    reveal_strlit("Passed: ");
    reveal_strlit("Failed: ");
    reveal_strlit("Skipped: ");
    reveal_strlit("  ");
    reveal_strlit("   ");
    reveal_strlit("  Passed: ");
    reveal_strlit("   Failed: ");
    reveal_strlit("   Skipped: ");
    assert("  Passed: "@ =~= "  "@ + "Passed: "@);
    assert("   Failed: "@ =~= "   "@ + "Failed: "@);
    assert("   Skipped: "@ =~= "   "@ + "Skipped: "@);
    let head = "\n"@ + crate::summary::double_rule() + "\nBatch summary\n"@;
    let tail = "\n  Duration: "@;
    let rule = crate::summary::double_rule();
    let counts = "  Passed: "@ + decimal(passed) + "   Failed: "@ + decimal(failed)
        + "   Skipped: "@ + decimal(skipped);
    let a = head + ("  "@ + "Passed: "@) + decimal(passed);
    let b = a + ("   "@ + "Failed: "@) + decimal(failed);
    let c = b + ("   "@ + "Skipped: "@) + decimal(skipped);
    let d = c + tail + displayed(duration);
    let text = batch_text(passed, failed, skipped, Some(duration));
    assert(text == head + (counts + tail + displayed(duration)) + "\n"@ + rule);
    assert(text =~= d + "\n"@ + rule);
    lemma_names_behind(head, "  "@, "Passed: "@, decimal(passed));
    lemma_still_says(a, "Passed: "@, decimal(passed), "   "@ + "Failed: "@, decimal(failed));
    lemma_still_says(b, "Passed: "@, decimal(passed), "   "@ + "Skipped: "@, decimal(skipped));
    lemma_still_says(c, "Passed: "@, decimal(passed), tail, displayed(duration));
    lemma_still_says(d, "Passed: "@, decimal(passed), "\n"@, rule);
    lemma_names_behind(a, "   "@, "Failed: "@, decimal(failed));
    lemma_still_says(b, "Failed: "@, decimal(failed), "   "@ + "Skipped: "@, decimal(skipped));
    lemma_still_says(c, "Failed: "@, decimal(failed), tail, displayed(duration));
    lemma_still_says(d, "Failed: "@, decimal(failed), "\n"@, rule);
    lemma_names_behind(b, "   "@, "Skipped: "@, decimal(skipped));
    lemma_still_says(c, "Skipped: "@, decimal(skipped), tail, displayed(duration));
    lemma_still_says(d, "Skipped: "@, decimal(skipped), "\n"@, rule);
}

/// Files are joined in their order: each adds its contexts and flows behind
/// those before it, and the namespace is that of the file that is run.
pub proof fn law_files_are_joined_in_order(
    documents: Seq<DocumentModel>,
    entry: int,
    from: int,
    done: ProgramModel,
)
    requires
        0 <= from <= documents.len(),
    ensures
        joined_program(documents, entry, from, done) matches Ok(whole) ==> {
            &&& done.flows.len() <= whole.flows.len() && whole.flows.take(done.flows.len() as int)
                == done.flows
            &&& done.contexts.len() <= whole.contexts.len() && whole.contexts.take(
                done.contexts.len() as int,
            ) == done.contexts
            &&& entry < from || entry >= documents.len() ==> whole.namespace == done.namespace
            &&& from <= entry < documents.len() ==> (file_program(
                documents[entry].text,
                entry as usize,
                true,
            ) matches Ok(program) && whole.namespace == program.namespace)
        },
    decreases documents.len() - from,
{
    if from < documents.len() {
        if let Ok(program) = file_program(documents[from].text, from as usize, from == entry) {
            let next = ProgramModel {
                namespace: if from == entry {
                    program.namespace
                } else {
                    done.namespace
                },
                namespace_uses: if from == entry {
                    program.namespace_uses
                } else {
                    done.namespace_uses
                },
                contexts: done.contexts + program.contexts,
                file_contexts: done.file_contexts + program.file_contexts,
                flows: done.flows + program.flows,
            };
            law_files_are_joined_in_order(documents, entry, from + 1, next);
            if let Ok(whole) = joined_program(documents, entry, from, done) {
                let flows = done.flows.len() as int;
                let contexts = done.contexts.len() as int;
                assert(whole.flows.take(flows) =~= whole.flows.take(
                    next.flows.len() as int,
                ).take(flows));
                assert(next.flows.take(flows) =~= done.flows);
                assert(whole.contexts.take(contexts) =~= whole.contexts.take(
                    next.contexts.len() as int,
                ).take(contexts));
                assert(next.contexts.take(contexts) =~= done.contexts);
            }
        }
    } else {
        assert(done.flows.take(done.flows.len() as int) =~= done.flows);
        assert(done.contexts.take(done.contexts.len() as int) =~= done.contexts);
    }
}

} // verus!
