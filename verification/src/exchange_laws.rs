//! What goes out with a request and what comes back from it.

use vstd::prelude::*;
use vstd::utf8::*;

use crate::capability::pair_models;
use crate::duration::Duration;
use crate::duration_laws::lemma_decimal;
use crate::http::{
    completed, digits_from, has_part, has_scheme, header_entries, is_json_type, is_secret_header,
    leading, length_fault, length_of, options_over, prepared, prepared_with, resolved_url,
    target_of, trailing, with_headers, with_incoming, BodyModel, Pairs, RequestModel, Response,
};
use crate::http_schema::http_model;
use crate::json::{encoded, JsonModel};
use crate::lexer::numeral;
use crate::lowering::operation_of;
use crate::object_laws::{laid_over, law_insert, law_merge, law_remove};
use crate::request_laws::lemma_headers;
use crate::syntax::{ErrorModel, Span};
use crate::text::{decimal, is_digit, lemma_position_of, lowered, position_of, uppered};
use crate::value::{inserted, lookup, removed, sorted, EntryModel, ValueModel};

verus! {

/// The names of the operations.
pub open spec fn http_names() -> Seq<Seq<char>> {
    seq!["get"@, "post"@, "put"@, "patch"@, "delete"@, "head"@, "options"@]
}

proof fn lemma_names()
    ensures
        uppered("get"@) == "GET"@,
        uppered("post"@) == "POST"@,
        uppered("put"@) == "PUT"@,
        uppered("patch"@) == "PATCH"@,
        uppered("delete"@) == "DELETE"@,
        uppered("head"@) == "HEAD"@,
        uppered("options"@) == "OPTIONS"@,
        http_names().no_duplicates(),
{
    reveal_strlit("get");
    reveal_strlit("post");
    reveal_strlit("put");
    reveal_strlit("patch");
    reveal_strlit("delete");
    reveal_strlit("head");
    reveal_strlit("options");
    reveal_strlit("GET");
    reveal_strlit("POST");
    reveal_strlit("PUT");
    reveal_strlit("PATCH");
    reveal_strlit("DELETE");
    reveal_strlit("HEAD");
    reveal_strlit("OPTIONS");
    assert(uppered("get"@) =~= "GET"@);
    assert(uppered("post"@) =~= "POST"@);
    assert(uppered("put"@) =~= "PUT"@);
    assert(uppered("patch"@) =~= "PATCH"@);
    assert(uppered("delete"@) =~= "DELETE"@);
    assert(uppered("head"@) =~= "HEAD"@);
    assert(uppered("options"@) =~= "OPTIONS"@);
    assert("get"@[0] == 'g' && "post"@[1] == 'o' && "put"@[1] == 'u' && "patch"@.len() == 5);
    assert("delete"@.len() == 6 && "head"@.len() == 4 && "options"@.len() == 7);
    assert("post"@[0] == 'p' && "head"@[0] == 'h' && "put"@[0] == 'p');
}

/// The method of a request is the name of its operation in capital letters.
pub proof fn law_methods_are_named_like_operations(
    operation: int,
    arguments: Seq<ValueModel>,
    options: Seq<EntryModel>,
    scheme: Result<Option<Seq<char>>, Seq<char>>,
    span: Span,
)
    ensures
        prepared_with(operation, arguments, options, scheme, span) matches Ok(request) ==> 0
            <= operation < http_model().operations.len() && request.method == uppered(
            http_model().operations[operation].name,
        ),
        prepared(operation, arguments, options, span) matches Ok(request) ==> 0 <= operation
            < http_model().operations.len() && request.method == uppered(
            http_model().operations[operation].name,
        ),
{
    lemma_names();
}

/// Each of the seven names is that of an operation, which sends the method of
/// that name. All of them may carry a body but `get`, `head` and `options`.
pub proof fn law_every_method_has_an_operation(
    name: Seq<char>,
    arguments: Seq<ValueModel>,
    options: Seq<EntryModel>,
    span: Span,
)
    requires
        http_names().contains(name),
    ensures
        operation_of(http_model().operations, name, 0) matches Some(at) && {
            let operation = http_model().operations[at];
            &&& 0 <= at < http_model().operations.len()
            &&& operation.name == name
            &&& target_of(at, arguments, options, span) matches Ok((method, url)) ==> method
                == uppered(name)
            &&& (exists|i: int|
                0 <= i < operation.options.len() && (#[trigger] operation.options[i]).name
                    == "body"@) <==> name != "get"@ && name != "head"@ && name != "options"@
        },
        http_model().operations.len() == http_names().len(),
{
    lemma_names();
    reveal_with_fuel(operation_of, 9);
    let names = http_names();
    let operations = http_model().operations;
    assert forall|i: int| 0 <= i < 7 implies #[trigger] operations[i].name == names[i] by {}
    let at = choose|i: int| 0 <= i < names.len() && names[i] == name;
    assert(0 <= at < 7);
    assert(operations[at].name == name);
    assert(operation_of(operations, name, 0) == Some(at));
    reveal_strlit("body");
    reveal_strlit("baseUrl");
    reveal_strlit("timeout");
    reveal_strlit("headers");
    reveal_strlit("tls");
    reveal_strlit("maxResponseBytes");
    reveal_strlit("json");
    assert("body"@[0] == 'b' && "json"@[0] == 'j');
    let given = operations[at].options;
    if at != 0 && at != 5 && at != 6 {
        assert(given[6].name == "body"@);
    } else {
        assert(given.len() == 5);
    }
}

proof fn lemma_trailing(text: Seq<char>, end: int)
    requires
        0 <= end <= text.len(),
    ensures
        0 <= trailing(text, end) <= end,
        trailing(text, end) > 0 ==> text[trailing(text, end) - 1] != '/',
        forall|i: int| trailing(text, end) <= i < end ==> text[i] == '/',
    decreases end,
{
    if end > 0 && text[end - 1] == '/' {
        lemma_trailing(text, end - 1);
    }
}

proof fn lemma_leading(text: Seq<char>, from: int)
    requires
        0 <= from <= text.len(),
    ensures
        from <= leading(text, from) <= text.len(),
        leading(text, from) < text.len() ==> text[leading(text, from)] != '/',
        forall|i: int| from <= i < leading(text, from) ==> text[i] == '/',
    decreases text.len() - from,
{
    if from < text.len() && text[from] == '/' {
        lemma_leading(text, from + 1);
    }
}

/// Whether a text is made of slashes.
pub open spec fn all_slashes(text: Seq<char>) -> bool {
    forall|i: int| 0 <= i < text.len() ==> #[trigger] text[i] == '/'
}

/// A URL with a scheme is sent to as it is. Any other one follows the base URL
/// with exactly one slash between them; without a base URL there is no request.
pub proof fn law_paths_follow_the_base(path: Seq<char>, options: Seq<EntryModel>, span: Span)
    ensures
        has_scheme(path) ==> resolved_url(path, options, span) == Ok::<Seq<char>, ErrorModel>(path),
        !has_scheme(path) && lookup(options, "baseUrl"@) is None ==> resolved_url(
            path,
            options,
            span,
        ) is Err,
        !has_scheme(path) ==> (lookup(options, "baseUrl"@) matches Some(ValueModel::String(base))
            ==> exists|front: Seq<char>, before: Seq<char>, behind: Seq<char>, back: Seq<char>|
            {
                &&& base == #[trigger] (front + before)
                &&& path == #[trigger] (behind + back)
                &&& all_slashes(before)
                &&& all_slashes(behind)
                &&& front.len() > 0 ==> front.last() != '/'
                &&& back.len() > 0 ==> back[0] != '/'
                &&& resolved_url(path, options, span) == Ok::<Seq<char>, ErrorModel>(
                    front + seq!['/'] + back,
                )
            }),
{
    if !has_scheme(path) {
        if let Some(ValueModel::String(base)) = lookup(options, "baseUrl"@) {
            let end = trailing(base, base.len() as int);
            let start = leading(path, 0);
            lemma_trailing(base, base.len() as int);
            lemma_leading(path, 0);
            let front = base.subrange(0, end);
            let before = base.subrange(end, base.len() as int);
            let behind = path.subrange(0, start);
            let back = path.subrange(start, path.len() as int);
            reveal_strlit("/");
            assert("/"@ =~= seq!['/']);
            assert(base =~= front + before);
            assert(path =~= behind + back);
            assert(all_slashes(before));
            assert(all_slashes(behind));
            assert(resolved_url(path, options, span) == Ok::<Seq<char>, ErrorModel>(
                front + seq!['/'] + back,
            ));
        }
    }
}

/// A request goes to the URL of its one argument, and its options decide how
/// long it may last, how much may come back and whether certificates have to be
/// valid. Without these options that is half a minute, ten mebibytes, and valid.
pub proof fn law_options_decide_requests(
    operation: int,
    arguments: Seq<ValueModel>,
    options: Seq<EntryModel>,
    scheme: Result<Option<Seq<char>>, Seq<char>>,
    span: Span,
)
    ensures
        prepared_with(operation, arguments, options, scheme, span) matches Ok(request) ==> {
            &&& arguments.len() > 0
            &&& arguments[0] matches ValueModel::String(path) ==> resolved_url(path, options, span)
                == Ok::<Seq<char>, ErrorModel>(request.url)
            &&& lookup(options, "timeout"@) matches Some(ValueModel::Duration(timeout))
                ==> request.timeout == timeout
            &&& lookup(options, "timeout"@) is None ==> request.timeout.nanos == 30_000_000_000
            &&& lookup(options, "maxResponseBytes"@) matches Some(ValueModel::Integer(limit))
                ==> limit > 0 && request.max_response_bytes == limit
            &&& lookup(options, "maxResponseBytes"@) is None ==> request.max_response_bytes == 10
                * 1024 * 1024
            &&& lookup(options, "tls"@) is None ==> request.verify_certificates
            &&& lookup(options, "tls"@) matches Some(ValueModel::Object(tls)) ==> (lookup(
                tls,
                "verifyCertificates"@,
            ) matches Some(ValueModel::Boolean(verify)) ==> request.verify_certificates == verify)
        },
{
}

/// A request sends what its options give it: the document of `json`, or the
/// bytes of the text of `body`, or nothing; and each of their headers.
pub proof fn law_options_are_sent(
    operation: int,
    arguments: Seq<ValueModel>,
    options: Seq<EntryModel>,
    scheme: Result<Option<Seq<char>>, Seq<char>>,
    span: Span,
    at: int,
)
    requires
        lookup(options, "bodyFormat"@) is None,
    ensures
        prepared_with(operation, arguments, options, scheme, span) matches Ok(request) ==> {
            &&& lookup(options, "json"@) matches Some(value) ==> (encoded(value, span) matches Ok(
                json,
            ) && request.body == BodyModel::Json(json))
            &&& lookup(options, "json"@) is None ==> (lookup(options, "body"@) matches Some(
                ValueModel::String(text),
            ) ==> request.body == BodyModel::Bytes(encode_utf8(text)))
            &&& lookup(options, "json"@) is None && lookup(options, "body"@) is None
                ==> request.body is Empty
            &&& lookup(options, "headers"@) matches Some(ValueModel::Object(entries)) ==> (0 <= at
                < entries.len() ==> (entries[at].value matches ValueModel::String(text) ==> at
                < request.headers.len() && request.headers[at] == (
                lowered(entries[at].name),
                text,
            )))
        },
{
    if let Some(ValueModel::Object(entries)) = lookup(options, "headers"@) {
        if 0 <= at < entries.len() {
            lemma_headers(entries, 0, span, Seq::empty(), at);
        }
    }
}

/// A response is an object of its status, its text, its bytes and how long it
/// took, with the method and the URL that were asked.
pub proof fn law_responses_show_what_came(
    request: RequestModel,
    response: Response,
    text: Seq<char>,
    json: Result<JsonModel, Seq<char>>,
    span: Span,
)
    ensures
        completed(request, response, text, json, span) matches Ok(value) ==> {
            &&& value matches ValueModel::Object(entries) && {
                &&& lookup(entries, "status"@) == Some(
                    ValueModel::Integer(response.status as i64),
                )
                &&& lookup(entries, "body"@) == Some(ValueModel::String(text))
                &&& lookup(entries, "bodyBytes"@) == Some(ValueModel::Bytes(response.bytes@))
                &&& lookup(entries, "duration"@) == Some(ValueModel::Duration(response.duration))
                &&& lookup(entries, "method"@) == Some(ValueModel::String(request.method))
                &&& lookup(entries, "url"@) matches Some(url) && url.revealed()
                    == ValueModel::String(request.url)
                &&& lookup(entries, "headers"@) matches Some(ValueModel::Object(_))
                &&& response.bytes@.len() == 0 && json is Err ==> lookup(entries, "json"@) == Some(
                    ValueModel::Null,
                )
                &&& json matches Ok(document) ==> (crate::json::decoded(document, span) matches Ok(
                    found,
                ) ==> lookup(entries, "json"@) == Some(found))
            }
        },
{
    reveal_strlit("body");
    reveal_strlit("bodyBytes");
    reveal_strlit("duration");
    reveal_strlit("headers");
    reveal_strlit("json");
    reveal_strlit("method");
    reveal_strlit("status");
    reveal_strlit("url");
    assert("body"@.len() == 4 && "bodyBytes"@.len() == 9 && "duration"@.len() == 8);
    assert("headers"@.len() == 7 && "json"@.len() == 4 && "method"@.len() == 6);
    assert("status"@.len() == 6 && "url"@.len() == 3);
    assert("body"@[0] == 'b' && "json"@[0] == 'j' && "method"@[0] == 'm' && "status"@[0] == 's');
    if let Ok(ValueModel::Object(entries)) = completed(request, response, text, json, span) {
        reveal_with_fuel(ValueModel::revealed, 3);
        let headers = header_entries(pair_models(response.headers@), 0, Seq::empty());
        let shown = crate::http::body_value(
            json,
            response.bytes@.len() == 0,
            crate::http::declares(crate::plan::optional_text(response.content_type)),
            span,
        )->Ok_0;
        let url = if request.url_sensitive {
            ValueModel::String(request.url).sensitive()
        } else {
            ValueModel::String(request.url)
        };
        let none = Seq::<EntryModel>::empty();
        let steps = seq![
            ("body"@, ValueModel::String(text)),
            ("bodyBytes"@, ValueModel::Bytes(response.bytes@)),
            ("duration"@, ValueModel::Duration(response.duration)),
            ("headers"@, ValueModel::Object(headers)),
            ("json"@, shown),
            ("method"@, ValueModel::String(request.method)),
            ("status"@, ValueModel::Integer(response.status as i64)),
            ("url"@, url),
        ];
        assert forall|i: int| 0 <= i < 8 implies lookup(
            entries,
            (#[trigger] steps[i]).0,
        ) == Some(steps[i].1) by {
            let name = steps[i].0;
            let one = inserted(none, steps[0].0, steps[0].1);
            law_insert(none, steps[0].0, steps[0].1, name);
            let two = inserted(one, steps[1].0, steps[1].1);
            law_insert(one, steps[1].0, steps[1].1, name);
            let three = inserted(two, steps[2].0, steps[2].1);
            law_insert(two, steps[2].0, steps[2].1, name);
            let four = inserted(three, steps[3].0, steps[3].1);
            law_insert(three, steps[3].0, steps[3].1, name);
            let five = inserted(four, steps[4].0, steps[4].1);
            law_insert(four, steps[4].0, steps[4].1, name);
            let six = inserted(five, steps[5].0, steps[5].1);
            law_insert(five, steps[5].0, steps[5].1, name);
            let seven = inserted(six, steps[6].0, steps[6].1);
            law_insert(six, steps[6].0, steps[6].1, name);
            law_insert(seven, steps[7].0, steps[7].1, name);
        }
        assert(lookup(entries, steps[0].0) == Some(steps[0].1));
        assert(lookup(entries, steps[1].0) == Some(steps[1].1));
        assert(lookup(entries, steps[2].0) == Some(steps[2].1));
        assert(lookup(entries, steps[3].0) == Some(steps[3].1));
        assert(lookup(entries, steps[4].0) == Some(steps[4].1));
        assert(lookup(entries, steps[5].0) == Some(steps[5].1));
        assert(lookup(entries, steps[6].0) == Some(steps[6].1));
        assert(lookup(entries, steps[7].0) == Some(steps[7].1));
    }
}

proof fn lemma_header_entries(headers: Pairs, from: int, done: Seq<EntryModel>, at: int)
    requires
        0 <= from <= headers.len(),
        0 <= at < headers.len(),
        sorted(done),
        forall|i: int| at < i < headers.len() ==> (#[trigger] headers[i]).0 != headers[at].0,
        at < from ==> (lookup(done, headers[at].0) matches Some(value) && value.revealed()
            == ValueModel::String(headers[at].1) && (value is Sensitive <==> is_secret_header(
            headers[at].0,
        ))),
    ensures
        lookup(header_entries(headers, from, done), headers[at].0) matches Some(value)
            && value.revealed() == ValueModel::String(headers[at].1) && (value is Sensitive
            <==> is_secret_header(headers[at].0)),
    decreases headers.len() - from,
{
    if from < headers.len() {
        reveal_with_fuel(ValueModel::revealed, 3);
        let (name, text) = headers[from];
        let value = if is_secret_header(name) {
            ValueModel::String(text).sensitive()
        } else {
            ValueModel::String(text)
        };
        law_insert(done, name, value, headers[at].0);
        lemma_header_entries(headers, from + 1, inserted(done, name, value), at);
    }
}

/// Every header of a response is shown under its name, the last of a name; it is
/// marked as sensitive exactly if its name says so.
pub proof fn law_headers_are_shown(headers: Pairs, at: int)
    requires
        0 <= at < headers.len(),
        forall|i: int| at < i < headers.len() ==> (#[trigger] headers[i]).0 != headers[at].0,
    ensures
        lookup(header_entries(headers, 0, Seq::empty()), headers[at].0) matches Some(value)
            && value.revealed() == ValueModel::String(headers[at].1) && (value is Sensitive
            <==> is_secret_header(headers[at].0)),
{
    lemma_header_entries(headers, 0, Seq::empty(), at);
}

/// Options of an operation count before the defaults under their names, objects
/// of options one by one; what they leave out the defaults give.
pub proof fn law_options_override(
    defaults: Seq<EntryModel>,
    overrides: Seq<EntryModel>,
    name: Seq<char>,
)
    requires
        sorted(defaults),
        sorted(overrides),
        name != "headers"@,
    ensures
        lookup(overrides, name) is None ==> lookup(options_over(defaults, overrides), name)
            == lookup(defaults, name),
        lookup(overrides, name) matches Some(value) ==> (!(value is Object) ==> lookup(
            options_over(defaults, overrides),
            name,
        ) == Some(value)),
        lookup(defaults, name) is None && lookup(overrides, name) is Some ==> lookup(
            options_over(defaults, overrides),
            name,
        ) == lookup(overrides, name),
{
    let incoming = lookup(overrides, "headers"@);
    let rest = removed(overrides, "headers"@);
    law_remove(overrides, "headers"@, name);
    let start = with_incoming(defaults, incoming);
    if let Some(ValueModel::Object(headers)) = incoming {
        match lookup(defaults, "headers"@) {
            None => {
                law_insert(
                    defaults,
                    "headers"@,
                    ValueModel::Object(with_headers(Seq::empty(), headers, 0)),
                    name,
                );
            },
            Some(ValueModel::Object(current)) => {
                law_insert(
                    defaults,
                    "headers"@,
                    ValueModel::Object(with_headers(current, headers, 0)),
                    name,
                );
            },
            _ => {},
        }
    }
    assert(sorted(start) && lookup(start, name) == lookup(defaults, name));
    law_merge(start, rest, name);
    assert(lookup(options_over(defaults, overrides), name) == laid_over(
        lookup(start, name),
        lookup(rest, name),
    ));
}

// ---------------------------------------------------------------------------
// Lengths, types and secrets

proof fn lemma_part_is_less(text: Seq<char>, until: int)
    requires
        0 <= until <= text.len(),
    ensures
        numeral(text.take(until), 10) <= numeral(text, 10),
    decreases text.len() - until,
{
    if until < text.len() {
        lemma_part_is_less(text, until + 1);
        let longer = text.take(until + 1);
        assert(longer.drop_last() =~= text.take(until));
    } else {
        assert(text.take(until) =~= text);
    }
}

proof fn lemma_length(text: Seq<char>, from: int)
    requires
        0 <= from <= text.len(),
        forall|i: int| 0 <= i < text.len() ==> is_digit(#[trigger] text[i]),
        numeral(text, 10) <= u64::MAX,
    ensures
        digits_from(text, from, numeral(text.take(from), 10)) == Some(numeral(text, 10)),
    decreases text.len() - from,
{
    if from < text.len() {
        let longer = text.take(from + 1);
        assert(longer.drop_last() =~= text.take(from));
        assert(longer.last() == text[from]);
        assert(is_digit(text[from]));
        lemma_part_is_less(text, from + 1);
        lemma_length(text, from + 1);
    } else {
        assert(text.take(from) =~= text);
    }
}

/// A response that announces a length is refused where that is greater than the
/// limit, unless it has no body; one that announces none is not.
pub proof fn law_announced_lengths_are_limited(
    method: Seq<char>,
    length: u64,
    limit: usize,
    span: Span,
)
    ensures
        length_fault(method, None, limit, span) is None,
        length_fault("HEAD"@, Some(decimal(length as nat)), limit, span) is None,
        method != "HEAD"@ ==> (length_fault(method, Some(decimal(length as nat)), limit, span)
            is Some <==> length > limit),
{
    let text = decimal(length as nat);
    lemma_decimal(length as nat);
    assert(is_digit(text[0]));
    assert(text.take(0) =~= Seq::empty());
    lemma_length(text, 0);
    assert(length_of(text) == Some(length as nat));
}

/// What stands behind a semicolon does not matter to a content type.
pub proof fn law_parameters_do_not_change_the_type(media: Seq<char>, parameters: Seq<char>)
    requires
        forall|i: int| 0 <= i < media.len() ==> #[trigger] media[i] != ';',
    ensures
        is_json_type(media + seq![';'] + parameters) == is_json_type(media),
{
    let whole = media + seq![';'] + parameters;
    lemma_position_of(whole, ';', 0);
    lemma_position_of(media, ';', 0);
    assert(whole[media.len() as int] == ';');
    let at = position_of(whole, ';', 0);
    if at < media.len() {
        assert(whole[at] == media[at]);
    }
    assert(at == media.len());
    assert(whole.subrange(0, at) =~= media);
    assert(media.subrange(0, media.len() as int) =~= media);
}

proof fn lemma_has_part(text: Seq<char>, part: Seq<char>, from: int)
    requires
        0 <= from,
    ensures
        has_part(text, part, from) <==> exists|k: int|
            from <= k <= text.len() - part.len() && #[trigger] text.subrange(k, k + part.len())
                == part,
    decreases text.len() - from + 1,
{
    if from + part.len() <= text.len() {
        lemma_has_part(text, part, from + 1);
        if text.subrange(from, from + part.len()) == part {
            let k = from;
            assert(text.subrange(k, k + part.len()) == part);
        } else if exists|k: int|
            from <= k <= text.len() - part.len() && #[trigger] text.subrange(k, k + part.len())
                == part {
            let k = choose|k: int|
                from <= k <= text.len() - part.len() && #[trigger] text.subrange(
                    k,
                    k + part.len(),
                ) == part;
            assert(from + 1 <= k);
        }
    }
}

/// A header is secret or not whatever the size of its letters, and it is where
/// its name speaks of a token or is one of those that carry credentials.
pub proof fn law_credentials_are_secret(name: Seq<char>, at: int)
    ensures
        is_secret_header(name) == is_secret_header(lowered(name)),
        0 <= at <= name.len() - 5 && lowered(name).subrange(at, at + 5) == "token"@
            ==> is_secret_header(name),
        ({
            let small = lowered(name);
            small == "authorization"@ || small == "proxy-authorization"@ || small == "cookie"@
                || small == "set-cookie"@ || small == "x-api-key"@ || small == "api-key"@
        }) ==> is_secret_header(name),
{
    let small = lowered(name);
    assert(lowered(small) =~= small);
    reveal_strlit("token");
    assert("token"@.len() == 5);
    lemma_has_part(small, "token"@, 0);
    if 0 <= at <= name.len() - 5 && small.subrange(at, at + 5) == "token"@ {
        assert(small.subrange(at, at + "token"@.len()) == "token"@);
    }
}

// ---------------------------------------------------------------------------
// Bodies

/// A body goes out in the format that is asked for, or in the one that its kind
/// suggests, and is declared as what it is where no header says so.
pub proof fn law_bodies_are_sent_in_their_format(
    operation: int,
    arguments: Seq<ValueModel>,
    options: Seq<EntryModel>,
    scheme: Result<Option<Seq<char>>, Seq<char>>,
    span: Span,
    body: ValueModel,
)
    requires
        lookup(options, "json"@) is None,
        lookup(options, "headers"@) is None,
        lookup(options, "body"@) == Some(body),
        !(body is Sensitive),
    ensures
        prepared_with(operation, arguments, options, scheme, span) matches Ok(request) ==> {
            let format = lookup(options, "bodyFormat"@);
            let none = format is None;
            &&& format == Some(ValueModel::String("json"@)) || none && (body is Object
                || body is Array) ==> (encoded(body, span) matches Ok(json) && request.body
                == BodyModel::Json(json)) && request.headers == seq![
                ("content-type"@, "application/json"@),
            ]
            &&& format == Some(ValueModel::String("text"@)) || none && body is String ==> (
            body matches ValueModel::String(text) && request.body == BodyModel::Bytes(
                encode_utf8(text),
            )) && request.headers == seq![("content-type"@, "text/plain; charset=utf-8"@)]
            &&& format == Some(ValueModel::String("bytes"@)) || none && body is Bytes ==> (
            body matches ValueModel::Bytes(bytes) && request.body == BodyModel::Bytes(bytes))
                && request.headers == seq![("content-type"@, "application/octet-stream"@)]
        },
{
    reveal_strlit("json");
    reveal_strlit("text");
    reveal_strlit("bytes");
    assert("json"@.len() == 4 && "text"@.len() == 4 && "bytes"@.len() == 5);
    assert("json"@[0] == 'j' && "text"@[0] == 't');
    reveal_with_fuel(ValueModel::revealed, 2);
    if let Ok(request) = prepared_with(operation, arguments, options, scheme, span) {
        let none = Seq::<(Seq<char>, Seq<char>)>::empty();
        assert(none.push(("content-type"@, "application/json"@)) =~= seq![
            ("content-type"@, "application/json"@),
        ]);
        assert(none.push(("content-type"@, "text/plain; charset=utf-8"@)) =~= seq![
            ("content-type"@, "text/plain; charset=utf-8"@),
        ]);
        assert(none.push(("content-type"@, "application/octet-stream"@)) =~= seq![
            ("content-type"@, "application/octet-stream"@),
        ]);
    }
}

/// A request goes out by HTTP only, plain or secured, and what it has no body
/// for it says nothing of.
pub proof fn law_requests_go_by_http(
    operation: int,
    arguments: Seq<ValueModel>,
    options: Seq<EntryModel>,
    scheme: Result<Option<Seq<char>>, Seq<char>>,
    span: Span,
)
    ensures
        prepared_with(operation, arguments, options, scheme, span) is Ok ==> (scheme matches Ok(
            Some(name),
        ) && (lowered(name) == "http"@ || lowered(name) == "https"@)),
        lookup(options, "json"@) is None && lookup(options, "body"@) is None && lookup(
            options,
            "headers"@,
        ) is None ==> (prepared_with(operation, arguments, options, scheme, span) matches Ok(
            request,
        ) ==> request.headers.len() == 0 && request.body is Empty),
{
}

/// A response that declares a document has to hold one, unless it is empty; of
/// any other it is no fault that it does not.
pub proof fn law_declared_documents_are_owed(
    request: RequestModel,
    response: Response,
    text: Seq<char>,
    json: Result<JsonModel, Seq<char>>,
    span: Span,
)
    requires
        json is Err,
    ensures
        completed(request, response, text, json, span) is Err <==> response.bytes@.len() > 0 && (
        response.content_type matches Some(declared) && is_json_type(declared@)),
{
}

} // verus!
