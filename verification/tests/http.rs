use mettle::capability::ReportOutcome;
use mettle::documents::{decode, encode, write_line, write_pretty};
use mettle::duration::Duration;
use mettle::http::{
    body_with, check_length, complete, complete_with, encode_body, extend_body,
    is_json_content_type, merge_options, prepare, prepare_with, resolve_url, sensitive_header,
    timeout_error, Body, PreparedRequest, Response,
};
use mettle::http_report::report;
use mettle::http_schema::{descriptor, operation_name};
use mettle::json::{from_json, to_json, Json, JsonField};
use mettle::parser::parse;
use mettle::project::compile_with_capabilities;
use mettle::syntax::Span;
use mettle::value::{Object, Value};

fn object(entries: Vec<(&str, Value)>) -> Object {
    let mut object = Object::new();
    for (name, value) in entries {
        object.insert(name.to_owned(), value);
    }
    object
}

fn text(value: &str) -> Value {
    Value::String(value.to_owned())
}

fn decoded(source: &str) -> Json {
    decode(&source.as_bytes().to_vec()).expect("JSON should parse")
}

#[test]
fn resolves_relative_urls_without_double_slashes() {
    let options = object(vec![("baseUrl", text("http://localhost:8000/"))]);
    assert_eq!(
        resolve_url("/users", &options, Span::default()).expect("URL should resolve"),
        "http://localhost:8000/users"
    );
}

#[test]
fn json_conversion_round_trips_structured_values() {
    let value = Value::Object(object(vec![
        ("active", Value::Boolean(true)),
        ("count", Value::Integer(2)),
    ]));
    let encoded = to_json(&value, Span::default()).expect("value should encode");
    assert_eq!(from_json(&encoded, Span::default()).expect("value should decode"), value);
}

#[test]
fn rejects_oversized_json_integers_without_rounding() {
    let value = decoded("18446744073709551615");
    let error = from_json(&value, Span::default()).expect_err("integer should exceed range");
    assert!(error.message.contains("64-bit range"));
}

#[test]
fn header_overrides_are_case_insensitive() {
    let mut defaults = object(vec![(
        "headers",
        Value::Object(object(vec![
            ("Accept", text("application/json")),
            ("Authorization", text("Bearer old")),
        ])),
    )]);
    let overrides = object(vec![(
        "headers",
        Value::Object(object(vec![("authorization", text("Bearer new"))])),
    )]);

    merge_options(&mut defaults, overrides);

    let headers = defaults
        .get("headers")
        .and_then(Value::as_object)
        .expect("merged headers should be an object");
    assert_eq!(headers.len(), 2);
    assert_eq!(headers.get("Accept"), Some(&text("application/json")));
    assert_eq!(headers.get("authorization"), Some(&text("Bearer new")));
    assert!(!headers.contains_key("Authorization"));
}

#[test]
fn recognizes_json_media_types() {
    assert!(is_json_content_type("application/json"));
    assert!(is_json_content_type("Application/JSON; charset=utf-8"));
    assert!(is_json_content_type("application/merge-patch+json"));
    assert!(!is_json_content_type("text/plain"));
}

#[test]
fn relative_urls_need_a_base() {
    let error = resolve_url("/users", &Object::new(), Span::default()).expect_err("no base");
    assert_eq!(
        error.message,
        "relative HTTP URL requires `baseUrl` in HTTP defaults or operation options"
    );
    assert_eq!(
        resolve_url("https://example.test/a", &Object::new(), Span::default()).expect("absolute"),
        "https://example.test/a"
    );
}

#[test]
fn operations_are_those_of_the_descriptor() {
    let described = descriptor();
    assert_eq!(described.name, "http");
    assert_eq!(described.operations[0].name, "get");
    for index in 0..described.operations.len() {
        assert_eq!(operation_name(index), described.operations[index].name);
    }
}

fn get(url: &str, options: Object) -> Result<PreparedRequest, String> {
    prepare(0, &vec![text(url)], &options, Span::default()).map_err(|error| error.message)
}

#[test]
fn requests_are_prepared() {
    let request = get(
        "https://example.test/a",
        object(vec![
            ("timeout", Value::Duration(Duration::from_nanos(5_000_000_000))),
            ("headers", Value::Object(object(vec![("Accept", text("text/plain"))]))),
        ]),
    )
    .expect("request should be prepared");
    assert_eq!(request.method, "GET");
    assert_eq!(request.url, "https://example.test/a");
    assert_eq!(request.timeout, Duration::from_nanos(5_000_000_000));
    assert_eq!(request.headers, vec![("accept".to_owned(), "text/plain".to_owned())]);
    assert_eq!(request.body, Body::Empty);
    assert!(request.verify_certificates);
}

#[test]
fn requests_are_refused_where_urls_cannot_be_read() {
    assert!(get("https://exa mple.test/", Object::new()).is_err());
    assert!(get("ftp://example.test/", Object::new()).is_err());
}

#[test]
fn requests_are_refused_where_headers_cannot_be_sent() {
    let bad_name = object(vec![("headers", Value::Object(object(vec![("a b", text("x"))])))]);
    assert!(get("https://example.test/", bad_name).is_err());
    let bad_value = object(vec![("headers", Value::Object(object(vec![("a", text("x\n"))])))]);
    assert!(get("https://example.test/", bad_value).is_err());
}

#[test]
fn schemes_decide_whether_a_request_is_sent() {
    let arguments = vec![text("https://example.test/a")];
    let span = Span::default();
    let read = prepare_with(0, &arguments, &Object::new(), &Ok(Some("https".to_owned())), span);
    assert!(read.is_ok());
    let unread = prepare_with(0, &arguments, &Object::new(), &Err("broken".to_owned()), span);
    assert!(unread.is_err());
    let none = prepare_with(0, &arguments, &Object::new(), &Ok(None), span);
    assert!(none.is_err());
}

fn answer(bytes: Vec<u8>, content_type: &str) -> Response {
    Response {
        status: 200,
        headers: vec![
            ("content-type".to_owned(), content_type.to_owned()),
            ("set-cookie".to_owned(), "a=b".to_owned()),
        ],
        content_type: Some(content_type.to_owned()),
        bytes,
        duration: Duration::from_nanos(7),
    }
}

#[test]
fn responses_become_values() {
    let request = get("https://example.test/a", Object::new()).expect("prepared");
    let response = answer(b"{\"ok\":true}".to_vec(), "application/json");
    let value = complete(&request, &response, Span::default()).expect("completed");
    let Value::Object(object) = &value else {
        panic!("a response is an object");
    };
    assert_eq!(object.get("status"), Some(&Value::Integer(200)));
    assert_eq!(object.get("body"), Some(&text("{\"ok\":true}")));
    let headers = object.get("headers").and_then(Value::as_object).expect("headers");
    assert!(headers.get("set-cookie").expect("cookie").is_sensitive());
    let json = object.get("json").and_then(Value::as_object).expect("json");
    assert_eq!(json.get("ok"), Some(&Value::Boolean(true)));
}

#[test]
fn bytes_that_are_no_text_are_replaced() {
    let request = get("https://example.test/a", Object::new()).expect("prepared");
    let response = answer(vec![0x61, 0xFF], "text/plain");
    let value = complete(&request, &response, Span::default()).expect("completed");
    let object = value.as_object().expect("an object");
    assert_eq!(object.get("body"), Some(&text("a\u{FFFD}")));
    assert_eq!(object.get("json"), Some(&Value::Null));
    let json = Ok(Json::Integer(3));
    let given = complete_with(&request, &response, "other".to_owned(), &json, Span::default());
    let given = given.expect("completed");
    let given = given.as_object().expect("an object");
    assert_eq!(given.get("body"), Some(&text("other")));
    assert_eq!(given.get("json"), Some(&Value::Integer(3)));
}

#[test]
fn bodies_that_are_declared_as_json_have_to_be() {
    let request = get("https://example.test/a", Object::new()).expect("prepared");
    let span = Span::default();
    let broken = answer(b"{".to_vec(), "application/json");
    let error = complete(&request, &broken, span).expect_err("a broken body");
    assert!(error.message.starts_with(
        "HTTP response declared JSON but its body could not be decoded: EOF"
    ));
    let empty = complete(&request, &answer(Vec::new(), "application/json"), span);
    let empty = empty.expect("an empty body is nothing");
    assert_eq!(empty.as_object().expect("an object").get("json"), Some(&Value::Null));
}

#[test]
fn json_bodies_are_encoded() {
    let options = object(vec![(
        "json",
        Value::Object(object(vec![
            ("name", text("Ada")),
            ("half", Value::Float(mettle::binary64::Binary64 { bits: 0.5f64.to_bits() })),
            ("count", Value::Integer(-2)),
        ])),
    )]);
    let span = Span::default();
    let request = prepare(1, &vec![text("https://example.test/a")], &options, span);
    let request = request.map_err(|error| error.message).expect("prepared");
    let bytes = encode_body(&request.body, span).map_err(|error| error.message);
    assert_eq!(bytes, Ok(b"{\"count\":-2,\"half\":0.5,\"name\":\"Ada\"}".to_vec()));
    let failed = body_with(&request.body, Err("broken".to_owned()), span);
    let error = failed.expect_err("a document that cannot be encoded");
    assert_eq!(error.message, "could not encode JSON request: broken");
    let plain = body_with(&Body::Bytes(vec![7]), Err("unused".to_owned()), span);
    assert_eq!(plain.map_err(|error| error.message), Ok(vec![7]));
}

#[test]
fn documents_are_read_and_written() {
    let source = b"{\"b\":[1,18446744073709551615,2.5,null],\"a\":\"x\"}".to_vec();
    let json = decode(&source).expect("a document");
    let field = |name: &str, value: Json| JsonField { name: name.to_owned(), value };
    let half = mettle::binary64::Binary64 { bits: 2.5f64.to_bits() };
    let listed = vec![
        Json::Integer(1),
        Json::Natural(18446744073709551615),
        Json::Float(half),
        Json::Null,
    ];
    let expected = Json::Object(vec![
        field("a", Json::String("x".to_owned())),
        field("b", Json::Array(listed)),
    ]);
    assert_eq!(json, expected);
    assert_eq!(
        encode(&json),
        Ok(b"{\"a\":\"x\",\"b\":[1,18446744073709551615,2.5,null]}".to_vec())
    );
    assert_eq!(write_line(&json), "{\"a\":\"x\",\"b\":[1,18446744073709551615,2.5,null]}");
    assert_eq!(write_pretty(&Json::Array(vec![Json::Boolean(true)])), "[\n  true\n]");
    let infinite = mettle::binary64::Binary64 { bits: f64::INFINITY.to_bits() };
    assert_eq!(write_line(&Json::Float(infinite)), "null");
    assert!(decode(&b"[1".to_vec()).is_err());
}

#[test]
fn bodies_over_the_limit_are_refused() {
    let span = Span::default();
    assert!(check_length("GET", Some("11"), 10, span).is_some());
    assert!(check_length("GET", Some("10"), 10, span).is_none());
    assert!(check_length("HEAD", Some("11"), 10, span).is_none());
    let mut bytes = vec![1, 2, 3];
    assert!(extend_body(&mut bytes, &vec![4], 4, span).is_none());
    assert_eq!(bytes, vec![1, 2, 3, 4]);
    assert!(extend_body(&mut bytes, &vec![5], 4, span).is_some());
    assert_eq!(bytes, vec![1, 2, 3, 4]);
}

#[test]
fn timeouts_are_told() {
    let error = timeout_error(Duration::from_nanos(1_000_000_000), Span::default());
    assert_eq!(error.message, "HTTP request exceeded its 1000 ms timeout");
}

#[test]
fn headers_with_credentials_are_sensitive() {
    assert!(sensitive_header("Authorization"));
    assert!(sensitive_header("set-cookie"));
    assert!(!sensitive_header("accept"));
}

#[test]
fn results_are_reported() {
    let value = Value::Object(object(vec![
        ("body", text("gone")),
        ("headers", Value::Object(object(vec![("a", text("b"))]))),
        ("json", Value::Null),
        ("method", text("GET")),
        ("status", Value::Integer(404)),
        ("url", text("https://example.test/")),
    ]));
    let made = report(&value).expect("a report");
    assert_eq!(made.summary, "GET    https://example.test/");
    assert_eq!(made.outcome, "404");
    assert_eq!(made.outcome_kind, ReportOutcome::Warning);
    assert_eq!(made.payload, Some(text("gone")));
    assert_eq!(made.sections.len(), 2);
    assert!(report(&Value::Null).is_none());
}

#[test]
fn documents_are_settled_before_they_are_written() {
    let field = |name: &str, value: Json| JsonField { name: name.to_owned(), value };
    let nothing = mettle::binary64::Binary64 { bits: f64::NAN.to_bits() };
    let json = Json::Object(vec![
        field("b", Json::Natural(7)),
        field("a", Json::Array(vec![Json::Float(nothing), Json::Boolean(false)])),
        field("b", Json::String("last".to_owned())),
        field("B", Json::Natural(8)),
    ]);
    assert_eq!(write_line(&json), "{\"B\":8,\"a\":[null,false],\"b\":\"last\"}");
}

fn http_complaints(source: &str) -> Vec<String> {
    let program = parse(source).expect("test source should parse");
    compile_with_capabilities(&program, &vec![descriptor()])
        .expect_err("test program should not compile")
        .into_iter()
        .map(|error| error.message)
        .collect()
}

#[test]
fn bodies_in_programs_are_texts() {
    assert_eq!(
        http_complaints("flow main() = http.post(\"/\") { body: { a: 1 } }"),
        vec!["expected string, found object".to_owned()]
    );
    let complaints =
        http_complaints("flow main() = http.post(\"/\") { body: \"x\", bodyFormat: \"text\" }");
    assert_eq!(complaints.len(), 1);
    assert!(complaints[0].starts_with("unknown option `bodyFormat`"));
    let fine = parse("flow main() = http.post(\"/\") { body: \"x\" }").expect("a program");
    assert!(compile_with_capabilities(&fine, &vec![descriptor()]).is_ok());
}

#[test]
fn calls_with_faults_are_still_checked_where_they_stand() {
    let complaints = http_complaints("flow main() {\n  assert(http.get())\n  return null\n}");
    assert_eq!(complaints.len(), 2);
    assert_eq!(complaints[0], "operation `http.get` expects 1 argument(s), but 0 were provided");
    assert_eq!(complaints[1], "assertion expression must be boolean");
    let wrong = http_complaints("flow main() {\n  assert(http.get(missing))\n  return null\n}");
    assert_eq!(wrong.len(), 2);
}
