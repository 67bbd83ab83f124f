//! What every prepared request and every answer keeps to.

use vstd::prelude::*;

use crate::http::{
    completed, declares, find_any_case, is_json_type, matches_name, media_type, prepared,
    read_headers, text_of, Pairs, RequestModel, Response,
};
use crate::json::JsonModel;
use crate::plan::optional_text;
use crate::syntax::{ErrorModel, Span};
use crate::text::{first_solid, is_space, last_solid, lowered, position_of};
use crate::value::{lookup, EntryModel, ValueModel};

verus! {

/// Whether headers name a content type that is JSON.
pub open spec fn names_json(headers: Pairs) -> bool {
    exists|i: int|
        0 <= i < headers.len() && (#[trigger] headers[i]).0 == "content-type"@ && is_json_type(
            headers[i].1,
        )
}

proof fn lemma_no_such(text: Seq<char>, c: char, from: int)
    requires
        0 <= from <= text.len(),
        forall|i: int| 0 <= i < text.len() ==> text[i] != c,
    ensures
        position_of(text, c, from) == text.len(),
    decreases text.len() - from,
{
    if from < text.len() {
        lemma_no_such(text, c, from + 1);
    }
}

proof fn lemma_plain_json()
    ensures
        is_json_type("application/json"@),
{
    reveal_strlit("application/json");
    let text = "application/json"@;
    lemma_no_such(text, ';', 0);
    assert(text.subrange(0, text.len() as int) =~= text);
    assert(!is_space(text[0]) && !is_space(text[15]));
    assert(first_solid(text, 0) == 0);
    assert(last_solid(text, 0, 16) == 16);
    assert(media_type(text) =~= text);
    assert(lowered(text) =~= text);
}

/// Each entry becomes a header, in its place.
pub(crate) proof fn lemma_headers(entries: Seq<EntryModel>, from: int, span: Span, done: Pairs, at: int)
    requires
        0 <= from <= entries.len(),
        done.len() == from,
        0 <= at < entries.len(),
        at < from ==> text_of(Some(entries[at].value), "HTTP header value"@, span) == Ok::<
            Seq<char>,
            ErrorModel,
        >(done[at].1) && done[at].0 == lowered(entries[at].name),
    ensures
        read_headers(entries, from, span, done) matches Ok(pairs) ==> {
            &&& pairs.len() == entries.len()
            &&& pairs[at].0 == lowered(entries[at].name)
            &&& text_of(Some(entries[at].value), "HTTP header value"@, span) == Ok::<
                Seq<char>,
                ErrorModel,
            >(pairs[at].1)
        },
    decreases entries.len() - from,
{
    if from < entries.len() {
        if let Ok(value) = text_of(Some(entries[from].value), "HTTP header value"@, span) {
            lemma_headers(
                entries,
                from + 1,
                span,
                done.push((lowered(entries[from].name), value)),
                at,
            );
        }
    }
}

proof fn lemma_found(entries: Seq<EntryModel>, name: Seq<char>, from: int)
    requires
        0 <= from <= entries.len(),
    ensures
        find_any_case(entries, name, from) matches Some(at) ==> from <= at < entries.len()
            && matches_name(entries[at].name, name),
    decreases entries.len() - from,
{
    if from < entries.len() {
        lemma_found(entries, name, from + 1);
    }
}

/// A request whose body is a document says so: one of its headers names a JSON
/// content type.
pub proof fn law_documents_are_declared(
    operation: int,
    arguments: Seq<ValueModel>,
    options: Seq<EntryModel>,
    span: Span,
)
    ensures
        prepared(operation, arguments, options, span) matches Ok(request) ==> (request.body is Json
            ==> names_json(request.headers)),
{
    if let Ok(request) = prepared(operation, arguments, options, span) {
        if request.body is Json {
            lemma_plain_json();
            let headers = request.headers;
            let name = "content-type"@;
            match lookup(options, "headers"@) {
                Some(ValueModel::Object(entries)) => {
                    lemma_found(entries, name, 0);
                    match find_any_case(entries, name, 0) {
                        Some(at) => {
                            lemma_headers(entries, 0, span, Seq::empty(), at);
                            reveal_strlit("content-type");
                            assert(lowered(name) =~= name);
                            assert(headers[at].0 == name);
                            assert(is_json_type(headers[at].1));
                        },
                        None => {
                            assert(headers.last() == (name, "application/json"@));
                            assert(headers[headers.len() - 1].0 == name);
                        },
                    }
                },
                _ => {
                    assert(headers.last() == (name, "application/json"@));
                    assert(headers[headers.len() - 1].0 == name);
                },
            }
        }
    }
}

/// No request is sent with both a document and another body.
pub proof fn law_bodies_exclude_each_other(
    operation: int,
    arguments: Seq<ValueModel>,
    options: Seq<EntryModel>,
    span: Span,
)
    requires
        lookup(options, "json"@) is Some,
        lookup(options, "body"@) is Some,
    ensures
        prepared(operation, arguments, options, span) is Err,
{
}

/// An answer whose bytes are no document fails exactly if it declares JSON and
/// is not empty.
pub proof fn law_only_declared_documents_fail(
    request: RequestModel,
    response: Response,
    text: Seq<char>,
    message: Seq<char>,
    span: Span,
)
    ensures
        ({
            let unread = Err::<JsonModel, Seq<char>>(message);
            completed(request, response, text, unread, span) is Err <==> declares(
                optional_text(response.content_type),
            ) && response.bytes@.len() > 0
        }),
{
}

} // verus!
