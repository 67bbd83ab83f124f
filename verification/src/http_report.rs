//! What is reported of HTTP operations, and laws of their headers.

use vstd::prelude::*;
use vstd::string::*;

use crate::capability::{
    pair_models, section_models, OperationReport, OperationReportModel, ReportOutcome,
    ReportSection, ReportSectionModel,
};
use crate::http::{find_any_case, matches_name, with_header, with_headers};
use crate::object_laws::{law_insert, law_remove};
use crate::text::{pad, padded, signed_decimal, signed_decimal_text};
use crate::value::{
    entry_models, find, inserted, lookup, place, removed, shown, sorted, EntryModel, Object, Value,
    ValueModel,
};

verus! {

// ---------------------------------------------------------------------------
// Reports

/// The headers as they are shown, from `from` on.
pub open spec fn shown_headers(
    entries: Seq<EntryModel>,
    from: int,
    done: Seq<(Seq<char>, Seq<char>)>,
) -> Seq<(Seq<char>, Seq<char>)>
    decreases entries.len() - from,
{
    if from < 0 || from >= entries.len() {
        done
    } else {
        shown_headers(
            entries,
            from + 1,
            done.push((entries[from].name, shown(entries[from].value, false))),
        )
    }
}

fn show_all(headers: &Object) -> (pairs: Vec<(String, String)>)
    ensures
        pair_models(pairs@) == shown_headers(headers.model(), 0, Seq::empty()),
{
    let ghost models = headers.model();
    let mut pairs: Vec<(String, String)> = Vec::new();
    proof {
        assert(pair_models(pairs@) =~= Seq::empty());
        assert(models == entry_models(headers.entries@));
    }
    let mut at: usize = 0;
    while at < headers.entries.len()
        invariant
            models == entry_models(headers.entries@),
            at <= headers.entries@.len(),
            shown_headers(models, 0, Seq::empty()) == shown_headers(
                models,
                at as int,
                pair_models(pairs@),
            ),
        decreases headers.entries@.len() - at,
    {
        proof {
            assert(models[at as int] == headers.entries@[at as int].model());
            assert(models[at as int].value == headers.entries@[at as int].value.model());
        }
        let ghost before = pair_models(pairs@);
        let name: String = headers.entries[at].name.clone();
        let text: String = headers.entries[at].value.to_text();
        pairs.push((name, text));
        proof {
            assert(pair_models(pairs@) =~= before.push((name@, text@)));
        }
        at += 1;
    }
    pairs
}

pub open spec fn outcome_of(status: i64) -> ReportOutcome {
    if 200 <= status <= 399 {
        ReportOutcome::Success
    } else if 400 <= status <= 499 {
        ReportOutcome::Warning
    } else {
        ReportOutcome::Failure
    }
}

/// The body that is reported, under its title.
pub open spec fn payload_of(entries: Seq<EntryModel>) -> (Seq<char>, Option<ValueModel>) {
    match lookup(entries, "json"@) {
        None => ("Body"@, lookup(entries, "body"@)),
        Some(ValueModel::Null) => ("Body"@, lookup(entries, "body"@)),
        Some(json) => ("JSON body"@, Some(json)),
    }
}

pub open spec fn report_with(
    entries: Seq<EntryModel>,
    method: Seq<char>,
    url: ValueModel,
    status: i64,
    headers: Seq<EntryModel>,
) -> OperationReportModel {
    let (title, payload) = payload_of(entries);
    let first = ReportSectionModel::Fields {
        title: "Headers"@,
        fields: shown_headers(headers, 0, Seq::empty()),
    };
    OperationReportModel {
        summary: padded(method, 6) + " "@ + shown(url, false),
        outcome: signed_decimal(status as int),
        outcome_kind: outcome_of(status),
        sections: match payload {
            Some(value) => seq![first, ReportSectionModel::Value { title, value }],
            None => seq![first],
        },
        payload,
    }
}

/// What is reported of the result of an operation.
pub open spec fn report_of(result: ValueModel) -> Option<OperationReportModel> {
    match result {
        ValueModel::Object(entries) => match (
            lookup(entries, "method"@),
            lookup(entries, "url"@),
            lookup(entries, "status"@),
            lookup(entries, "headers"@),
        ) {
            (Some(method), Some(url), Some(status), Some(ValueModel::Object(headers))) =>
                match (method.revealed(), status.revealed()) {
                (ValueModel::String(name), ValueModel::Integer(code)) => Some(
                    report_with(entries, name, url, code, headers),
                ),
                _ => None,
            },
            _ => None,
        },
        _ => None,
    }
}

fn read_payload(object: &Object) -> (payload: (&'static str, Option<Value>))
    ensures
        (payload.0@, crate::value::optional_value(payload.1)) == payload_of(object.model()),
{
    if let Some(json) = object.get("json") {
        match json {
            Value::Null => {},
            _ => {
                return ("JSON body", Some(json.duplicate()));
            },
        }
    }
    match object.get("body") {
        Some(body) => ("Body", Some(body.duplicate())),
        None => ("Body", None),
    }
}

fn make_report(object: &Object, method: &str, url: &Value, status: i64, headers: &Object) -> (report:
    OperationReport)
    ensures
        report.model() == report_with(
            object.model(),
            method@,
            url.model(),
            status,
            headers.model(),
        ),
{
    let (title, payload): (&'static str, Option<Value>) = read_payload(object);
    let mut summary: String = pad(method, 6);
    summary.append(" ");
    summary.append(url.to_text().as_str());
    let mut sections: Vec<ReportSection> = Vec::new();
    let first: ReportSection = ReportSection::Fields {
        title: "Headers".to_owned(),
        fields: show_all(headers),
    };
    sections.push(first);
    if let Some(value) = &payload {
        sections.push(
            ReportSection::Value { title: title.to_owned(), value: value.duplicate() },
        );
    }
    let outcome_kind: ReportOutcome = if 200 <= status && status <= 399 {
        ReportOutcome::Success
    } else if 400 <= status && status <= 499 {
        ReportOutcome::Warning
    } else {
        ReportOutcome::Failure
    };
    let report: OperationReport = OperationReport {
        summary,
        outcome: signed_decimal_text(status),
        outcome_kind,
        sections,
        payload,
    };
    proof {
        let target = report_with(object.model(), method@, url.model(), status, headers.model());
        assert(section_models(report.sections@) =~= target.sections);
    }
    report
}

/// Reports the result of an operation.
pub fn report(result: &Value) -> (report: Option<OperationReport>)
    ensures
        (match report {
            Some(report) => Some(report.model()),
            None => None,
        }) == report_of(result.model()),
{
    if let Value::Object(object) = result {
        if let (Some(method), Some(url), Some(status), Some(Value::Object(headers))) = (
            object.get("method"),
            object.get("url"),
            object.get("status"),
            object.get("headers"),
        ) {
            if let (Value::String(name), Value::Integer(code)) = (
                method.revealed(),
                status.revealed(),
            ) {
                return Some(make_report(object, name.as_str(), url, *code, headers));
            }
        }
    }
    None
}

// ---------------------------------------------------------------------------
// Laws of headers

/// Whether no two names are the same but for the size of letters.
pub open spec fn distinct_any_case(entries: Seq<EntryModel>) -> bool {
    forall|i: int, j: int|
        0 <= i < j < entries.len() ==> !matches_name(
            (#[trigger] entries[i]).name,
            (#[trigger] entries[j]).name,
        )
}

proof fn lemma_find_any_case(entries: Seq<EntryModel>, name: Seq<char>, from: int)
    requires
        0 <= from,
    ensures
        find_any_case(entries, name, from) matches Some(at) ==> from <= at < entries.len()
            && matches_name(entries[at].name, name),
        find_any_case(entries, name, from) is None ==> forall|i: int|
            from <= i < entries.len() ==> !matches_name((#[trigger] entries[i]).name, name),
    decreases entries.len() - from,
{
    if from < entries.len() && !matches_name(entries[from].name, name) {
        lemma_find_any_case(entries, name, from + 1);
    }
}

proof fn lemma_find_first(entries: Seq<EntryModel>, name: Seq<char>, from: int)
    requires
        0 <= from,
    ensures
        find(entries, name, from) matches Some(at) ==> from <= at < entries.len()
            && entries[at].name == name,
        find(entries, name, from) is None ==> forall|i: int|
            from <= i < entries.len() ==> (#[trigger] entries[i]).name != name,
    decreases entries.len() - from,
{
    if from < entries.len() && entries[from].name != name {
        lemma_find_first(entries, name, from + 1);
    }
}

proof fn lemma_place_bound(entries: Seq<EntryModel>, name: Seq<char>, from: int)
    requires
        0 <= from <= entries.len(),
    ensures
        from <= place(entries, name, from) <= entries.len(),
    decreases entries.len() - from,
{
    if from < entries.len() && crate::value::order(entries[from].name, name)
        == crate::value::Order::Before {
        lemma_place_bound(entries, name, from + 1);
    }
}

/// Entering a name that matches none keeps names distinct.
proof fn lemma_insert_distinct(entries: Seq<EntryModel>, entry: EntryModel)
    requires
        distinct_any_case(entries),
        forall|i: int|
            0 <= i < entries.len() ==> !matches_name((#[trigger] entries[i]).name, entry.name),
    ensures
        distinct_any_case(inserted(entries, entry.name, entry.value)),
{
    let at = place(entries, entry.name, 0);
    lemma_place_bound(entries, entry.name, 0);
    if at < entries.len() {
        assert(!matches_name(entries[at].name, entry.name));
    }
    let result = entries.insert(at, entry);
    assert(inserted(entries, entry.name, entry.value) == result);
    assert forall|i: int, j: int| 0 <= i < j < result.len() implies !matches_name(
        (#[trigger] result[i]).name,
        (#[trigger] result[j]).name,
    ) by {
        let first = if i < at {
            i
        } else {
            i - 1
        };
        let second = if j < at {
            j
        } else {
            j - 1
        };
        if i != at {
            assert(result[i] == entries[first]);
        }
        if j != at {
            assert(result[j] == entries[second]);
        }
    }
}

/// A header takes the place of one of the same name in any case, and of no
/// other: it is then the only one of its name.
pub proof fn law_header_override(entries: Seq<EntryModel>, entry: EntryModel, other: Seq<char>)
    requires
        sorted(entries),
        distinct_any_case(entries),
    ensures
        sorted(with_header(entries, entry)),
        distinct_any_case(with_header(entries, entry)),
        lookup(with_header(entries, entry), entry.name) == Some(entry.value),
        matches_name(other, entry.name) && other != entry.name ==> lookup(
            with_header(entries, entry),
            other,
        ) is None,
        !matches_name(other, entry.name) ==> lookup(with_header(entries, entry), other) == lookup(
            entries,
            other,
        ),
{
    lemma_find_any_case(entries, entry.name, 0);
    match find_any_case(entries, entry.name, 0) {
        None => {
            lemma_insert_distinct(entries, entry);
            law_insert(entries, entry.name, entry.value, entry.name);
            law_insert(entries, entry.name, entry.value, other);
            if matches_name(other, entry.name) && other != entry.name {
                lemma_find_first(entries, other, 0);
                if find(entries, other, 0) is Some {
                    let at = find(entries, other, 0)->0;
                    assert(matches_name(entries[at].name, entry.name));
                }
            }
        },
        Some(at) => {
            let name = entries[at].name;
            let rest = removed(entries, name);
            lemma_find_first(entries, name, 0);
            let found = find(entries, name, 0)->0;
            assert(found == at) by {
                if find(entries, name, 0) is None {
                    assert(entries[at].name != name);
                }
                if found != at {
                    if found < at {
                        assert(!matches_name(entries[found].name, entries[at].name));
                    } else {
                        assert(!matches_name(entries[at].name, entries[found].name));
                    }
                }
            }
            assert(rest == entries.remove(at));
            assert forall|i: int| 0 <= i < rest.len() implies !matches_name(
                (#[trigger] rest[i]).name,
                entry.name,
            ) by {
                if i < at {
                    assert(rest[i] == entries[i]);
                    assert(!matches_name(entries[i].name, entries[at].name));
                } else {
                    assert(rest[i] == entries[i + 1]);
                    assert(!matches_name(entries[at].name, entries[i + 1].name));
                }
            }
            assert(distinct_any_case(rest)) by {
                assert forall|i: int, j: int| 0 <= i < j < rest.len() implies !matches_name(
                    (#[trigger] rest[i]).name,
                    (#[trigger] rest[j]).name,
                ) by {
                    let first = if i < at {
                        i
                    } else {
                        i + 1
                    };
                    let second = if j < at {
                        j
                    } else {
                        j + 1
                    };
                    assert(rest[i] == entries[first] && rest[j] == entries[second]);
                }
            }
            law_remove(entries, name, other);
            law_remove(entries, name, entry.name);
            lemma_insert_distinct(rest, entry);
            law_insert(rest, entry.name, entry.value, entry.name);
            law_insert(rest, entry.name, entry.value, other);
            if matches_name(other, entry.name) && other != entry.name {
                lemma_find_first(rest, other, 0);
                if find(rest, other, 0) is Some {
                    let there = find(rest, other, 0)->0;
                    assert(matches_name(rest[there].name, entry.name));
                }
            }
        },
    }
}

/// Every header that is laid over others counts, in any case of letters.
pub proof fn law_headers_override(entries: Seq<EntryModel>, incoming: Seq<EntryModel>, at: int)
    requires
        sorted(entries),
        distinct_any_case(entries),
        distinct_any_case(incoming),
        0 <= at < incoming.len(),
    ensures
        sorted(with_headers(entries, incoming, 0)),
        distinct_any_case(with_headers(entries, incoming, 0)),
        lookup(with_headers(entries, incoming, 0), incoming[at].name) == Some(incoming[at].value),
{
    lemma_headers_from(entries, incoming, at, 0);
}

proof fn lemma_headers_from(
    entries: Seq<EntryModel>,
    incoming: Seq<EntryModel>,
    at: int,
    from: int,
)
    requires
        sorted(entries),
        distinct_any_case(entries),
        distinct_any_case(incoming),
        0 <= at < incoming.len(),
        0 <= from <= incoming.len(),
        at < from ==> lookup(entries, incoming[at].name) == Some(incoming[at].value),
    ensures
        sorted(with_headers(entries, incoming, from)),
        distinct_any_case(with_headers(entries, incoming, from)),
        lookup(with_headers(entries, incoming, from), incoming[at].name) == Some(
            incoming[at].value,
        ),
    decreases incoming.len() - from,
{
    if from < incoming.len() {
        law_header_override(entries, incoming[from], incoming[at].name);
        if at < from {
            assert(!matches_name(incoming[at].name, incoming[from].name));
        }
        lemma_headers_from(with_header(entries, incoming[from]), incoming, at, from + 1);
    }
}

} // verus!
