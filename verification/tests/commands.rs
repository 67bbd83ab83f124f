use mettle::arguments::{looks_like_explicit_literal, parse_argument_value, resolve_arguments};
use mettle::batch::{Batch, Next, RunOutcome, Status};
use mettle::duration::Duration;
use mettle::executor::{Stop, World};
use mettle::options::{
    check_run_options, parse_command, parse_count, parse_run_options, Command, OutputMode,
    RunOptions,
};
use mettle::output::{
    failure_output, flows_end, flows_start, is_for_people, stack_line, success_output,
    tests_end_text, tests_start_line, Told,
};
use mettle::parser::parse;
use mettle::plan::ExecutionPlan;
use mettle::project::compile;
use mettle::selection::{
    batch, count_flows, declarations, list_declarations, select_flow, select_tests, MettleSelector,
};
use mettle::sources::{
    is_searched, load_sources, render_diagnostic, render_source_diagnostic, SourceDocument,
};
use mettle::summary::ExecutionReport;
use mettle::syntax::{DeclarationKind, Span};
use mettle::value::Value;

fn texts(arguments: &[&str]) -> Vec<Option<String>> {
    arguments.iter().map(|text| Some((*text).to_owned())).collect()
}

fn options(arguments: &[&str]) -> Result<RunOptions, String> {
    parse_run_options(&texts(arguments))
}

#[test]
fn options_are_read() {
    let read = options(&[
        "main", "--arg", "a=b=c", "--profile", "qa", "--verbose", "--no-color", "--no-progress",
    ])
    .expect("options");
    assert_eq!(read.selector, Some(MettleSelector::Name("main".to_owned())));
    assert_eq!(read.arguments, vec![("a".to_owned(), "b=c".to_owned())]);
    assert_eq!(read.profile, Some("qa".to_owned()));
    assert_eq!(read.output, OutputMode::Verbose);
    assert!(!read.color);
    assert!(!read.progress);
}

#[test]
fn faults_of_options_are_told() {
    let faults = [
        (vec!["--all", "--all"], "`--all` was supplied more than once"),
        (vec!["main", "--all"], "`--all` cannot be combined with a flow name, line, or ID"),
        (vec!["--all", "main"], "a flow name, line, or ID cannot be combined with `--all`"),
        (vec!["main", "other"], "select a flow by name or line, not both"),
        (vec!["--line"], "`--line` requires a line number"),
        (vec!["--line", "0"], "`--line` requires a positive line number"),
        (vec!["--line", "x"], "`--line` requires a positive line number"),
        (vec!["--arg"], "`--arg` requires `name=value`"),
        (vec!["--arg", "x"], "`--arg` requires `name=value`"),
        (vec!["--arg", "=x"], "flow argument names cannot be empty"),
        (vec!["--profile"], "`--profile` requires a name"),
        (vec!["--profile", "a/b"], "profile names must use letters, digits, `_`, or `-`"),
        (vec!["--profile", "a", "--profile", "b"], "`--profile` was supplied more than once"),
        (vec!["--flow-id"], "`--flow-id` requires an ID"),
        (vec!["--flow-id", "-1"], "`--flow-id` requires a non-negative integer"),
        (vec!["--output"], "`--output` requires `json`"),
        (vec!["--output", "xml"], "unsupported output format `xml`; expected `json`"),
        (
            vec!["--raw", "--quiet"],
            "select only one output mode; `--quiet` conflicts with an earlier output option",
        ),
        (vec!["--other"], "unknown run option `--other`"),
    ];
    for (arguments, message) in faults {
        assert_eq!(options(&arguments), Err(message.to_owned()));
    }
    assert_eq!(parse_run_options(&vec![None]), Err("run options must be valid UTF-8".to_owned()));
}

#[test]
fn counts_are_read_as_written() {
    assert_eq!(parse_count("12"), Some(12));
    assert_eq!(parse_count("+7"), Some(7));
    assert_eq!(parse_count(""), None);
    assert_eq!(parse_count("+"), None);
    assert_eq!(parse_count("1 "), None);
    assert_eq!(parse_count("99999999999999999999999"), None);
}

#[test]
fn commands_are_read() {
    assert_eq!(parse_command(&texts(&["--help"])), Ok(Command::Help));
    assert_eq!(parse_command(&texts(&["-V"])), Ok(Command::Version));
    assert_eq!(parse_command(&texts(&["check", "a"])), Ok(Command::Check));
    assert_eq!(parse_command(&texts(&["list", "a", "--json"])), Ok(Command::List { json: true }));
    assert_eq!(parse_command(&texts(&["lsp"])), Ok(Command::Lsp));
    assert_eq!(parse_command(&texts(&[])), Err("a command is required".to_owned()));
    assert_eq!(
        parse_command(&texts(&["walk"])),
        Err("unknown command or invalid arguments: `walk`".to_owned())
    );
    assert_eq!(
        parse_command(&texts(&["test", "a", "--raw"])),
        Err("`mettle test` accepts a test name or line and output options only".to_owned())
    );
    let all = options(&["--all", "--arg", "a=b"]).expect("options");
    assert_eq!(
        check_run_options(&all),
        Err("`--arg` cannot be used with `--all`; parameterized flows are skipped".to_owned())
    );
}

fn plan_of(source: &str) -> ExecutionPlan {
    compile(&parse(source).expect("source should parse")).expect("source should compile")
}

fn pair(name: &str, value: &str) -> (String, String) {
    (name.to_owned(), value.to_owned())
}

#[test]
fn arguments_are_resolved() {
    let plan = plan_of("flow main(count, name) = count");
    let flow = &plan.flows[0];
    let values = resolve_arguments(flow, &vec![pair("name", "Ada"), pair("count", "3")]);
    assert_eq!(values, Ok(vec![Value::Integer(3), Value::String("Ada".to_owned())]));
    assert_eq!(
        resolve_arguments(flow, &vec![pair("count", "1"), pair("count", "2")]),
        Err("flow argument `count` was supplied more than once".to_owned())
    );
    assert_eq!(
        resolve_arguments(flow, &vec![pair("count", "1")]),
        Err("flow `main` requires argument `name`".to_owned())
    );
    assert_eq!(
        resolve_arguments(flow, &vec![pair("count", "1"), pair("name", "x"), pair("z", "1")]),
        Err("flow `main` has no argument named `z`".to_owned())
    );
}

#[test]
fn literals_are_told_from_texts() {
    assert_eq!(parse_argument_value("a", "true"), Ok(Value::Boolean(true)));
    assert_eq!(
        parse_argument_value("a", "https://example.test"),
        Ok(Value::String("https://example.test".to_owned()))
    );
    assert_eq!(
        parse_argument_value("a", "one()"),
        Err("invalid value for argument `a`: flow arguments must be literal values".to_owned())
    );
    let broken = parse_argument_value("a", "[1").expect_err("a broken literal");
    assert!(broken.starts_with("invalid value for argument `a`: "));
    assert!(broken.ends_with(" at byte 2"), "{broken}");
    assert!(looks_like_explicit_literal("{"));
    assert!(!looks_like_explicit_literal("plain"));
}

#[test]
fn flows_are_selected() {
    let source = "flow one() = 1\nflow two() = 2\n";
    let plan = plan_of(source);
    let by = |selector: Option<MettleSelector>| select_flow(&plan, 0, source, &selector);
    assert_eq!(by(Some(MettleSelector::Name("two".to_owned()))), Ok(1));
    assert_eq!(by(Some(MettleSelector::Line(2))), Ok(1));
    assert_eq!(by(Some(MettleSelector::Id(0))), Ok(0));
    assert_eq!(
        by(Some(MettleSelector::Name("x".to_owned()))),
        Err(("flow `x` was not found".to_owned(), true))
    );
    assert_eq!(
        by(Some(MettleSelector::Line(9))),
        Err(("no flow starts on line 9".to_owned(), true))
    );
    assert_eq!(
        by(Some(MettleSelector::Id(9))),
        Err(("no flow has compiler ID 9".to_owned(), true))
    );
    assert_eq!(
        by(None),
        Err(("no default flow was found; select one by name or line".to_owned(), true))
    );
}

#[test]
fn tests_are_selected() {
    let source = "flow main() = 1\ntest(\"first\") { assert(true) }\ntest(\"second\") { assert(true) }\n";
    let plan = plan_of(source);
    let by = |selector: Option<MettleSelector>| select_tests(&plan, 0, source, &selector);
    assert_eq!(by(None), Ok(vec![1, 2]));
    assert_eq!(by(Some(MettleSelector::Name("second".to_owned()))), Ok(vec![2]));
    assert_eq!(by(Some(MettleSelector::Line(2))), Ok(vec![1]));
    assert_eq!(
        by(Some(MettleSelector::Name("main".to_owned()))),
        Err("test `main` was not found".to_owned())
    );
    assert_eq!(
        by(Some(MettleSelector::Line(1))),
        Err("no test starts on line 1".to_owned())
    );
    assert_eq!(
        by(Some(MettleSelector::Id(0))),
        Err("no test has compiler ID 0".to_owned())
    );
    let command = parse_command(&texts(&["test", "a", "second"])).expect("a test by name");
    assert!(matches!(
        command,
        Command::Test(RunOptions { selector: Some(MettleSelector::Name(name)), .. })
            if name == "second"
    ));
    assert!(parse_command(&texts(&["test", "a", "--line", "2"])).is_ok());
}

#[test]
fn batches_leave_out_flows_with_parameters() {
    let plan = plan_of("flow one() = 1\nflow two(a) = a\ntest(\"t\") { assert(true) }\n");
    assert_eq!(batch(&plan, DeclarationKind::Flow, 0), vec![0]);
    assert_eq!(batch(&plan, DeclarationKind::Test, 0), vec![2]);
    assert_eq!(count_flows(&plan, 0), 2);
    assert_eq!(declarations(&plan, DeclarationKind::Test), vec![2]);
    let documents = vec![SourceDocument {
        path: "a.mettle".to_owned(),
        text: "flow one() = 1\nflow two(a) = a\ntest(\"t\") { assert(true) }\n".to_owned(),
    }];
    assert_eq!(
        list_declarations(&plan, DeclarationKind::Flow, &documents),
        "Available flows:\n  a.mettle:1     one\n  a.mettle:2     two (a)\n"
    );
    assert_eq!(
        list_declarations(&plan, DeclarationKind::Test, &documents),
        "Available tests:\n  a.mettle:3     t\n"
    );
}

#[test]
fn diagnostics_mark_their_place() {
    let shown = render_source_diagnostic(
        "a.mettle",
        "flow main() {\n  return x\n}\n",
        "`x` is not defined",
        Span::new(23, 24),
    );
    assert_eq!(
        shown,
        "error: `x` is not defined\n --> a.mettle:2:10\n  |\n2 |   return x\n  |          ^"
    );
}

#[test]
fn projects_join_their_files() {
    let documents = vec![
        SourceDocument { path: "a".to_owned(), text: "flow helper() = 1\nflow { return 2 }\n".to_owned() },
        SourceDocument { path: "b".to_owned(), text: "flow main() = helper()\n".to_owned() },
    ];
    let project = load_sources(documents, 1).expect("project should load");
    assert_eq!(project.program.flows.len(), 2);
    assert_eq!(project.program.flows[1].span.source, 1);
    let shown = render_diagnostic(&project, "here", project.program.flows[1].span);
    assert!(shown.contains(" --> b:1:1\n"));

    let broken = vec![SourceDocument { path: "c".to_owned(), text: "flow main() {".to_owned() }];
    let error = load_sources(broken, 0).expect_err("a syntax error");
    assert_eq!(error.source, 0);
    assert!(error.shown.contains(" --> c:1:14\n"), "{}", error.shown);
}

#[test]
fn batches_go_on_behind_failures() {
    let mut batch = Batch::new(3, true);
    assert_eq!(batch.next(), Next::Run(0));
    assert_eq!(batch.record(RunOutcome::Failed), Next::Run(1));
    assert_eq!(batch.record(RunOutcome::Passed), Next::Run(2));
    assert_eq!(batch.record(RunOutcome::Passed), Next::Done(Status::Failure));
    assert_eq!((batch.passed, batch.failed), (2, 1));
    let mut passing = Batch::new(1, true);
    assert_eq!(passing.record(RunOutcome::Passed), Next::Done(Status::Success));
    let mut single = Batch::new(1, false);
    assert_eq!(single.record(RunOutcome::Failed), Next::Done(Status::Failure));
    let mut stopped = Batch::new(2, true);
    assert_eq!(stopped.record(RunOutcome::Interrupted), Next::Done(Status::Interrupted));
    assert_eq!(Batch::new(0, true).next(), Next::Done(Status::Success));
    let codes = [Status::Success, Status::Failure, Status::Usage, Status::Interrupted];
    assert_eq!(codes.map(|status| status.code()), [0, 1, 2, 130]);
}

#[test]
fn output_follows_the_mode() {
    let value = Value::Array(vec![Value::Integer(1), Value::Integer(2)]);
    let operations = Vec::new();
    let duration = Duration::from_nanos(3_000_000);
    let report = ExecutionReport { flow: "main", duration, result: &value, operations: &operations };
    let shown = |mode, test, batch| success_output(&report, mode, test, batch, false);
    assert_eq!(shown(OutputMode::Quiet, false, false), "✓ main · 3ms");
    assert_eq!(shown(OutputMode::Quiet, true, true), "✓ main · 3ms");
    assert_eq!(shown(OutputMode::Raw, false, false), "[1,2]");
    assert_eq!(
        shown(OutputMode::Json, false, false),
        "{\"durationNanos\":3000000,\"flow\":\"main\",\"result\":[1,2]}"
    );
    assert_eq!(
        shown(OutputMode::Json, false, true),
        "{\"durationNanos\":3000000,\"flow\":\"main\",\"result\":[1,2],\"type\":\"result\"}"
    );
    assert_eq!(
        shown(OutputMode::Json, true, false),
        "{\"durationNanos\":3000000,\"kind\":\"test\",\"status\":\"passed\",\"test\":\"main\",\"type\":\"result\"}"
    );
    assert!(shown(OutputMode::Human, false, false).starts_with("main\n"));
    assert!(shown(OutputMode::Human, true, false).ends_with("Passed in 3ms"));
    assert!(shown(OutputMode::Verbose, false, false).contains("Completed in 3ms"));
}

#[test]
fn batches_begin_and_end_with_a_line() {
    let duration = Duration::from_nanos(3_000_000);
    assert_eq!(
        flows_start(OutputMode::Json, 2, 1),
        Some("{\"eligible\":2,\"skipped\":1,\"type\":\"start\"}".to_owned())
    );
    assert_eq!(flows_start(OutputMode::Human, 2, 1), None);
    assert_eq!(flows_end(OutputMode::Raw, 1, 1, 0, Some(duration)), None);
    let nothing = flows_end(OutputMode::Json, 0, 0, 4, None).expect("a record");
    assert!(nothing.contains("\"durationNanos\":0") && nothing.contains("\"skipped\":4"));
    let summary = flows_end(OutputMode::Human, 1, 2, 3, Some(duration)).expect("a summary");
    assert!(summary.contains("Passed: 1   Failed: 2   Skipped: 3"));
    assert!(tests_start_line(OutputMode::Json, 5).expect("a record").contains("\"eligible\":5"));
    assert_eq!(tests_start_line(OutputMode::Quiet, 5), None);
    assert!(tests_end_text(OutputMode::Json, 1, 0, duration).contains("\"passed\":1"));
    assert!(tests_end_text(OutputMode::Human, 1, 0, duration).contains("Test summary"));
    assert!(is_for_people(OutputMode::Verbose) && !is_for_people(OutputMode::Quiet));
    let stack = vec!["main".to_owned(), "child".to_owned()];
    assert_eq!(stack_line(&stack), Some("flow stack: main -> child".to_owned()));
    assert_eq!(stack_line(&Vec::new()), None);
}

#[test]
fn hidden_directories_are_not_searched() {
    assert!(is_searched("shared") && is_searched("targets"));
    assert!(!is_searched(".git") && !is_searched("target"));
}

#[test]
fn failures_are_told_with_their_place() {
    let text = "flow main() = child()\nflow child() = fail(\"broken\")\n";
    let document = SourceDocument { path: "main.mettle".to_owned(), text: text.to_owned() };
    let project = load_sources(vec![document], 0).expect("project");
    let plan = compile(&project.program).expect("plan");
    let environment: Vec<(String, String)> = Vec::new();
    let world = World { plan: &plan, environment: &environment };
    let Err(Stop::Failed(error)) = world.execute(0, Vec::new(), &Vec::new()).outcome else {
        panic!("the flow fails");
    };
    let operations = Vec::new();
    let duration = Duration::from_nanos(3_000_000);
    let told = |mode| {
        let flow = &plan.flows[0];
        failure_output(&project, flow, &operations, mode, false, duration, &error, false)
    };
    let Told::Error(text) = told(OutputMode::Human) else {
        panic!("people are told of an error");
    };
    assert!(text.starts_with("main\n\n"));
    assert!(text.contains("--> main.mettle:2:"));
    assert!(text.ends_with("flow stack: main -> child"));
    let Told::Output(text) = told(OutputMode::Json) else {
        panic!("a record is put out");
    };
    assert!(text.starts_with("{\"durationNanos\":3000000,\"error\":{"));
    assert!(text.contains("\"flowStack\":[\"main\",\"child\"],\"line\":2,"));
}
