use mettle::documents::write_line;
use mettle::duration::Duration;
use mettle::figures::{display_duration, display_shortly};
use mettle::http_report::report;
use mettle::json::Json;
use mettle::metrics::{WorkloadKind, WorkloadMetrics, WorkloadPhase, WorkloadSnapshot};
use mettle::parser::parse;
use mettle::project::compile;
use mettle::records::{
    batch_end_record, batch_start_record, failure_record, flow_result_record, list_record,
    test_result_record, tests_end_record, tests_start_record,
};
use mettle::report::{
    assemble, print, raw_value, style, truncate, value_json, OperationEvent, Piece, Rendered,
};
use mettle::sources::SourceDocument;
use mettle::summary::{
    batch_summary, check_summary, failure_summary, separator, test_summary,
    workload_progress_lines, workload_result, ExecutionReport,
};
use mettle::syntax::Span;
use mettle::text::grouped_text;
use mettle::value::{Object, Value};

fn object(entries: Vec<(&str, Value)>) -> Value {
    let mut object = Object::new();
    for (name, value) in entries {
        object.insert(name.to_owned(), value);
    }
    Value::Object(object)
}

fn text(value: &str) -> Value {
    Value::String(value.to_owned())
}

fn millis(count: u64) -> Duration {
    Duration::from_nanos(count * 1_000_000)
}

#[test]
fn report_formats_a_named_value() {
    let value = object(vec![("active", Value::Boolean(true))]);
    let pieces = ExecutionReport {
        flow: "health",
        duration: millis(12),
        result: &value,
        operations: &vec![],
    }
    .human(false, false);
    let output = print(&pieces);
    assert!(output.contains("health"));
    assert!(output.contains("\"active\": true"));
    assert!(output.contains("✓ Completed in 12ms"));
    assert_eq!(
        output,
        "health\n\n  Result\n    {\n      \"active\": true\n    }\n\n✓ Completed in 12ms"
    );
}

#[test]
fn submillisecond_duration_is_displayed_in_milliseconds() {
    assert_eq!(display_duration(Duration::from_nanos(9_000)), "0.009ms");
    assert_eq!(display_duration(Duration::from_nanos(9)), "0.000009ms");
    assert_eq!(display_duration(Duration::from_nanos(0)), "0ms");
}

#[test]
fn longer_durations_are_displayed_in_their_unit() {
    assert_eq!(display_duration(Duration::from_nanos(2_000_000_000)), "2s");
    assert_eq!(display_duration(Duration::from_nanos(1_234_567_890)), "1.23s");
    assert_eq!(display_duration(millis(12)), "12ms");
    assert_eq!(display_duration(Duration::from_nanos(12_345_678)), "12.35ms");
    for nanos in [1, 999, 1_001, 55_555, 999_999, 1_500_001, 12_005_000, 1_005_000_000] {
        let duration = std::time::Duration::from_nanos(nanos);
        let seconds = duration.as_secs_f64();
        let expected = if nanos >= 1_000_000_000 {
            format!("{seconds:.2}s")
        } else if nanos >= 1_000_000 {
            format!("{:.2}ms", seconds * 1_000.0)
        } else if nanos >= 1_000 {
            format!("{:.3}ms", seconds * 1_000.0)
        } else {
            format!("{:.6}ms", seconds * 1_000.0)
        };
        assert_eq!(display_duration(Duration::from_nanos(nanos)), expected);
    }
}

fn event(value: Value) -> OperationEvent {
    OperationEvent {
        capability: "http".to_owned(),
        operation: "get".to_owned(),
        duration: millis(10),
        span: Span::default(),
        report: report(&value),
        result: Ok(value),
    }
}

#[test]
fn human_report_shows_transformed_result_after_an_operation() {
    let response = object(vec![
        ("method", text("GET")),
        ("status", Value::Integer(200)),
        ("url", text("https://example.test/post")),
    ]);
    let result = object(vec![("profile", text("qa"))]);
    let pieces = ExecutionReport {
        flow: "main",
        duration: millis(12),
        result: &result,
        operations: &vec![event(response)],
    }
    .human(false, false);
    let output = print(&pieces);
    assert!(output.contains("Result"), "{output}");
    assert!(output.contains("\"profile\": \"qa\""), "{output}");
}

#[test]
fn preview_reports_truncation() {
    let output = truncate("abcdef", 3);
    assert!(output.starts_with("abc"));
    assert!(output.contains("truncated"));
}

#[test]
fn verbose_output_includes_full_http_response_details() {
    let value = object(vec![
        ("body", text("raw body")),
        ("bodyBytes", Value::Bytes(vec![114, 97, 119])),
        (
            "headers",
            object(vec![
                ("content-type", text("application/json")),
                ("set-cookie", text("session=secret").sensitive()),
            ]),
        ),
        ("json", object(vec![("status", text("ok"))])),
        ("method", text("GET")),
        ("status", Value::Integer(200)),
        ("url", text("https://example.test/health")),
    ]);
    let operations = vec![event(value.duplicate())];
    let report = ExecutionReport {
        flow: "health",
        duration: millis(12),
        result: &value,
        operations: &operations,
    };

    let normal = print(&report.human(false, false));
    let verbose = print(&report.human(true, false));
    assert!(!normal.contains("\"headers\""));
    assert!(verbose.contains("GET    https://example.test/health"));
    assert!(verbose.contains("Headers"));
    assert!(verbose.contains("content-type: application/json"));
    assert!(verbose.contains("set-cookie: [REDACTED]"));
    assert!(!verbose.contains("session=secret"));
    assert!(verbose.contains("JSON body"));
    assert!(verbose.contains("\"status\": \"ok\""));
    assert!(verbose.contains("https://example.test/health"));
    assert!(!verbose.contains("bodyBytes"));
    assert!(!verbose.contains("raw body"));
}

#[test]
fn sensitive_values_are_never_documents() {
    let value = object(vec![("token", text("hunter2").sensitive())]);
    let shown = write_line(&value_json(&value));
    assert_eq!(shown, "{\"token\":\"[REDACTED]\"}");
    assert_eq!(raw_value(&text("plain")), Rendered::Text("plain".to_owned()));
}

#[test]
fn failed_operations_are_shown() {
    let mut failed = event(Value::Null);
    failed.result = Err("connection refused".to_owned());
    let output = print(&failure_summary("main", &vec![failed], false, false));
    assert_eq!(
        output,
        "main\n\n  ✗ http.get · 10ms\n    connection refused\n\n✗ Flow failed"
    );
    assert_eq!(print(&failure_summary("t", &vec![], false, true)), "✗ Test failed");
}

#[test]
fn tests_and_quiet_runs_have_their_lines() {
    let value = Value::Null;
    let operations = vec![];
    let report = ExecutionReport {
        flow: "main",
        duration: millis(3),
        result: &value,
        operations: &operations,
    };
    assert_eq!(print(&report.test_human(false, false)), "\n✓ Passed in 3ms");
    assert_eq!(report.quiet(false), "✓ main · 3ms");
    assert_eq!(report.test_quiet(true), "\x1b[32m✓\x1b[0m main · 3ms");
    assert_eq!(style("a", "1", true), "\x1b[1ma\x1b[0m");
}

#[test]
fn counts_are_summed_up() {
    assert_eq!(check_summary("a.mettle", 1, 0), "Checked a.mettle (1 flow).");
    assert_eq!(check_summary("a.mettle", 2, 1), "Checked a.mettle (2 flows, 1 test).");
    assert!(test_summary(2, 1, millis(5)).contains("Passed: 2   Failed: 1"));
    assert!(batch_summary(2, 1, 3, Some(millis(5))).contains("Skipped: 3\n  Duration: 5ms"));
    assert!(batch_summary(0, 0, 3, None).contains("No zero-argument flows to run."));
    assert!(separator("Flow", 1, 2, "main").contains("\nFlow 1/2 · main\n"));
}

#[test]
fn workloads_are_summed_up() {
    let kind = WorkloadKind::Rate {
        target: 4,
        period: millis(1_000),
        duration: millis(2_000),
        limit: 2,
        planned: 8,
    };
    let mut metrics = WorkloadMetrics::new(Duration::from_nanos(0));
    metrics.record_start();
    metrics.record_completion(Duration::from_nanos(0), millis(10), true);
    metrics.record_start();
    metrics.record_completion(Duration::from_nanos(0), millis(20), false);
    metrics.record_drop();
    let value = metrics.to_value(kind, millis(2_000), false);
    let fields = value.as_object().expect("an object");
    assert_eq!(fields.get("count"), Some(&Value::Integer(2)));
    assert_eq!(fields.get("saturated"), Some(&Value::Boolean(true)));
    assert_eq!(
        fields.get("errors"),
        Some(&Value::Float(mettle::binary64::Binary64 { bits: 0.5f64.to_bits() }))
    );
    let rate = fields.get("rate").and_then(Value::as_object).expect("rate");
    assert_eq!(
        rate.get("actual"),
        Some(&Value::Float(mettle::binary64::Binary64 { bits: 1.0f64.to_bits() }))
    );
    let summary = workload_result(&value, false).expect("a workload");
    assert!(summary.starts_with("COMPLETED · SATURATED  2s\n\n2 started · 1 successful"));
    assert!(summary.contains("Rate 1.0/s · target 4.0/s\n"));
    assert!(workload_result(&Value::Null, false).is_none());

    let snapshot = metrics.snapshot(kind, WorkloadPhase::Running, 1, millis(500));
    let lines = workload_progress_lines(&snapshot);
    assert_eq!(lines[0], "Mettle · rate 4/1s for 2s");
    assert_eq!(lines[1], "RUNNING   500ms / 2s   active 1 / 2   achieved 4.0/s");
    assert_eq!(lines[2], "started 2   completed 2   ok 1   failed 1   dropped 1");
}

#[test]
fn pieces_are_put_together_with_their_documents() {
    let document = Rendered::Document(Json::Array(vec![Json::Integer(1)]));
    let pieces = vec![
        Piece::Text("before\n".to_owned()),
        Piece::Value { rendered: document, indent: 2, complete: true },
    ];
    assert_eq!(assemble(&pieces, &vec!["[9]".to_owned()]), "before\n  [9]\n");
    assert_eq!(print(&pieces), "before\n  [\n    1\n  ]\n");
}

#[test]
fn records_are_written_in_one_line() {
    let second = Duration::from_nanos(1_000_000_000);
    assert_eq!(
        write_line(&batch_start_record(2, 1)),
        "{\"eligible\":2,\"skipped\":1,\"type\":\"start\"}"
    );
    assert_eq!(
        write_line(&tests_start_record(3)),
        "{\"eligible\":3,\"kind\":\"test\",\"type\":\"start\"}"
    );
    assert_eq!(
        write_line(&batch_end_record(2, 1, 4, second)),
        "{\"durationNanos\":1000000000,\"eligible\":3,\"failed\":1,\"passed\":2,\"skipped\":4,\"type\":\"summary\"}"
    );
    assert_eq!(
        write_line(&tests_end_record(2, 1, second)),
        "{\"durationNanos\":1000000000,\"eligible\":3,\"failed\":1,\"kind\":\"test\",\"passed\":2,\"type\":\"summary\"}"
    );
    assert_eq!(
        write_line(&test_result_record("first", second)),
        "{\"durationNanos\":1000000000,\"kind\":\"test\",\"status\":\"passed\",\"test\":\"first\",\"type\":\"result\"}"
    );
    assert_eq!(
        write_line(&flow_result_record("main", second, &Value::Integer(7), true)),
        "{\"durationNanos\":1000000000,\"flow\":\"main\",\"result\":7,\"type\":\"result\"}"
    );
    let value = object(vec![("token", text("hunter2").sensitive())]);
    let report =
        ExecutionReport { flow: "main", duration: second, result: &value, operations: &vec![] };
    assert_eq!(
        report.json(),
        "{\"durationNanos\":1000000000,\"flow\":\"main\",\"result\":{\"token\":\"[REDACTED]\"}}"
    );
}

#[test]
fn failures_and_lists_say_where() {
    let source = "flow main(a) = a\ntest(\"t\") { assert(true) }\n";
    let plan = compile(&parse(source).expect("source should parse")).expect("compiles");
    let document = SourceDocument { path: "a.mettle".to_owned(), text: source.to_owned() };
    let none = Duration::from_nanos(0);
    let stack = vec!["main".to_owned()];
    let failed = failure_record(&plan.flows[0], false, none, "no", &document, 5, &stack);
    assert_eq!(
        write_line(&failed),
        "{\"durationNanos\":0,\"error\":{\"column\":6,\"flowStack\":[\"main\"],\"line\":1,\"message\":\"no\",\"path\":\"a.mettle\"},\"flow\":\"main\"}"
    );
    let failed = failure_record(&plan.flows[1], false, none, "no", &document, 0, &vec![]);
    assert!(write_line(&failed).ends_with(
        "\"kind\":\"test\",\"status\":\"failed\",\"test\":\"t\",\"type\":\"failure\"}"
    ));
    assert_eq!(
        write_line(&list_record(&plan, &vec![document])),
        "{\"flows\":[{\"column\":1,\"displayName\":\"main\",\"id\":0,\"line\":1,\"name\":\"main\",\"parameters\":[\"a\"],\"path\":\"a.mettle\"}],\"tests\":[{\"column\":1,\"id\":1,\"line\":2,\"name\":\"t\",\"path\":\"a.mettle\"}]}"
    );
}

#[test]
fn progress_is_shown_in_groups_and_short_spans() {
    let micros = |count: u64| Duration::from_nanos(count * 1_000);
    let snapshot = WorkloadSnapshot {
        kind: WorkloadKind::Rate {
            target: 1_000,
            period: millis(1_000),
            duration: millis(30_000),
            limit: 200,
            planned: 30_000,
        },
        phase: WorkloadPhase::Running,
        elapsed: millis(12_400),
        active: 87,
        started: 12_400,
        completed: 12_313,
        success: 12_302,
        failed: 11,
        dropped: 0,
        latency_p50: micros(38_200),
        latency_p95: micros(71_600),
        latency_p99: micros(104_800),
    };
    assert_eq!(
        workload_progress_lines(&snapshot),
        vec![
            "Mettle · rate 1,000/1s for 30s",
            "RUNNING   12.4s / 30s   active 87 / 200   achieved 1000.0/s",
            "started 12,400   completed 12,313   ok 12,302   failed 11   dropped 0",
            "latency p50 38.2ms   p95 71.6ms   p99 104.8ms",
        ]
    );
    let kind = WorkloadKind::Concurrency { limit: 1_500, duration: millis(2_500) };
    let lines = workload_progress_lines(&WorkloadSnapshot { kind, ..snapshot });
    assert_eq!(lines[0], "Mettle · concurrency 1,500 for 2.5s");
    assert_eq!(lines[1], "RUNNING   2.5s / 2.5s   active 87 / 1,500   throughput 4960.0/s");
}

#[test]
fn numbers_are_grouped_by_thousands() {
    for (number, expected) in [
        (0, "0"),
        (999, "999"),
        (1_000, "1,000"),
        (1_007_040, "1,007,040"),
        (u128::from(u64::MAX), "18,446,744,073,709,551,615"),
    ] {
        assert_eq!(grouped_text(number), expected);
        assert_eq!(grouped_text(number).replace(',', ""), number.to_string());
    }
}

#[test]
fn short_spans_have_one_place() {
    assert_eq!(display_shortly(millis(12_345)), "12.3s");
    assert_eq!(display_shortly(millis(12)), "12ms");
    assert_eq!(display_shortly(Duration::from_nanos(12_345_678)), "12.3ms");
    assert_eq!(display_shortly(Duration::from_nanos(9_000)), "0.009ms");
    assert_eq!(display_shortly(Duration::from_nanos(9)), "0.000009ms");
    assert_eq!(display_shortly(Duration::from_nanos(0)), "0ms");
}
