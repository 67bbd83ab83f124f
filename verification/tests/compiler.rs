use mettle::capability::{CapabilityDescriptor, FieldSchema, OperationSchema, SchemaType};
use mettle::definition::{find_definition, find_implementation};
use mettle::duration::Duration;
use mettle::parser::parse;
use mettle::plan::{Constant, Instruction, PlanExpression, PlanExpressionKind, StringPart};
use mettle::project::{compile, compile_with_capabilities};
use mettle::syntax::{ExpressionKind, Statement};

fn seconds(count: u64) -> Duration {
    Duration::from_nanos(count * 1_000_000_000)
}

fn field(name: &'static str, value_type: SchemaType) -> FieldSchema {
    FieldSchema { name, value_type }
}

fn http_options() -> Vec<FieldSchema> {
    vec![
        field("baseUrl", SchemaType::String),
        field("timeout", SchemaType::Duration),
        field("headers", SchemaType::StringMap),
        field(
            "tls",
            SchemaType::Object(vec![field("verifyCertificates", SchemaType::Boolean)]),
        ),
    ]
}

fn http() -> CapabilityDescriptor {
    CapabilityDescriptor {
        name: "http",
        defaults: http_options(),
        operations: vec![
            OperationSchema {
                name: "get",
                parameters: vec![SchemaType::String],
                parameter_names: vec!["url"],
                options: http_options(),
                mutually_exclusive: vec![],
                result: SchemaType::Json,
            },
            OperationSchema {
                name: "post",
                parameters: vec![SchemaType::String],
                parameter_names: vec!["url"],
                options: vec![
                    field("json", SchemaType::Json),
                    field("body", SchemaType::String),
                ],
                mutually_exclusive: vec![vec!["json", "body"]],
                result: SchemaType::Json,
            },
        ],
    }
}

fn errors(source: &str) -> Vec<String> {
    let program = parse(source).expect("test source should parse");
    compile(&program)
        .expect_err("test program should not compile")
        .into_iter()
        .map(|error| error.message)
        .collect()
}

fn http_errors(source: &str) -> Vec<String> {
    let program = parse(source).expect("test source should parse");
    compile_with_capabilities(&program, &vec![http()])
        .expect_err("test program should not compile")
        .into_iter()
        .map(|error| error.message)
        .collect()
}

#[test]
fn suggests_capability_operations_and_options() {
    let operation = http_errors(r#"flow main() = http.gett("/")"#);
    assert!(operation.iter().any(|message| {
        message == "capability `http` has no operation `gett`; did you mean `get`?"
    }));

    let option = http_errors(r#"flow main() = http.get("/") { tiemout: 1s }"#);
    assert!(
        option
            .iter()
            .any(|message| { message == "unknown option `tiemout`; did you mean `timeout`?" })
    );
}

#[test]
fn rejects_mutually_exclusive_operation_options() {
    let messages =
        http_errors(r#"flow main() = http.post("/") { json: { ok: true }, body: "no" }"#);
    assert!(
        messages
            .iter()
            .any(|message| { message == "options `json` and `body` cannot be used together" })
    );
}

#[test]
fn lib_compiles_contexts_and_capability_calls() {
    let program = parse(
        r#"
        context api {
            apiUrl: env("API_URL")
            defaults http { baseUrl: apiUrl, timeout: 1s }
        }
        flow main() {
            use context api
            response = http.get("/users")
            return response.status
        }
        "#,
    )
    .expect("source should parse");
    let plan = compile_with_capabilities(&program, &vec![http()]).expect("program should compile");

    assert_eq!(plan.contexts.len(), 1);
    assert_eq!(plan.flows[0].contexts, vec![0]);
    let Instruction::Bind { expression, .. } = &plan.flows[0].instructions[0] else {
        panic!("expected binding");
    };
    assert!(matches!(
        expression.kind,
        PlanExpressionKind::CapabilityCall { .. }
    ));
}

#[test]
fn lib_rejects_unknown_capability_options() {
    let program = parse("flow main() { return http.get(\"/\") { banana: true } }")
        .expect("source should parse");
    let messages = compile_with_capabilities(&program, &vec![http()])
        .expect_err("program should fail")
        .into_iter()
        .map(|error| error.message)
        .collect::<Vec<_>>();
    assert!(
        messages
            .iter()
            .any(|message| message == "unknown option `banana`")
    );
}

#[test]
fn lib_rejects_unknown_nested_capability_options() {
    let program =
        parse("flow main() { return http.get(\"/\") { tls: { trustEverything: true } } }")
            .expect("source should parse");
    let messages = compile_with_capabilities(&program, &vec![http()])
        .expect_err("program should fail")
        .into_iter()
        .map(|error| error.message)
        .collect::<Vec<_>>();
    assert!(
        messages
            .iter()
            .any(|message| message == "unknown option `trustEverything`")
    );
}

#[test]
fn lib_rejects_wrong_schema_types() {
    let program = parse("flow main() { return http.get(42) }").expect("source should parse");
    let messages = compile_with_capabilities(&program, &vec![http()])
        .expect_err("program should fail")
        .into_iter()
        .map(|error| error.message)
        .collect::<Vec<_>>();
    assert!(
        messages
            .iter()
            .any(|message| message.contains("expected string"))
    );
}

#[test]
fn lib_compiles_a_valid_pure_program() {
    let program =
        parse("flow identity(value) { return value } flow main() { return identity(\"ok\") }")
            .expect("source should parse");
    let plan = compile(&program).expect("program should compile");
    assert_eq!(plan.default_flow, Some(1));
}

#[test]
fn conditional_returns_are_exhaustive_and_branch_bindings_stay_local() {
    let program = parse("flow main() { if (true) { return 1 } else { return 2 } }")
        .expect("source should parse");
    compile(&program).expect("both branches return");
    let messages = errors("flow main() { if (true) { return 1 } }");
    assert!(
        messages
            .iter()
            .any(|message| message.contains("must end with a return"))
    );
    let messages = errors("flow main() { if (true) { value = 1 }\n return value }");
    assert!(
        messages
            .iter()
            .any(|message| message.contains("value") && message.contains("defined"))
    );
    let messages = errors("flow main() { if (1) { return 1 } else { return 2 } }");
    assert!(
        messages
            .iter()
            .any(|message| message == "if condition must be boolean")
    );
}

#[test]
fn echo_is_a_standalone_diagnostic_statement() {
    let plan = compile(
        &parse("flow main() { echo({ value: 1 })\n return true }")
            .expect("source should parse"),
    )
    .expect("echo should compile");
    assert!(matches!(
        plan.flows[0].instructions[0],
        Instruction::Echo { .. }
    ));
    let messages = errors("flow main() { return echo(1) }");
    assert!(
        messages
            .iter()
            .any(|message| message.contains("standalone statement"))
    );
    let messages = errors("flow main() { echo()\n return true }");
    assert!(
        messages
            .iter()
            .any(|message| message.contains("exactly one argument"))
    );
    let messages = errors("flow echo(value) = value");
    assert!(messages.iter().any(|message| message.contains("reserved")));
}

#[test]
fn lib_rejects_recursive_calls() {
    let messages = errors("flow main() { return main() }");
    assert!(messages[0].contains("recursive flow calls"));
}

#[test]
fn lib_accepts_programs_without_main_and_parameterized_main() {
    let helper = compile(&parse("flow helper() = null").expect("source should parse"))
        .expect("helper-only source should compile");
    assert_eq!(helper.default_flow, None);

    let main = compile(&parse("flow main(value) = value").expect("source should parse"))
        .expect("parameterized main should compile");
    assert_eq!(main.default_flow, Some(0));
    assert_eq!(main.flows[0].parameters, ["value"]);
}

#[test]
fn lib_interpolation_prefers_values_then_falls_back_to_environment() {
    let program = parse(
        r#"
        flow target(API_URL) = "${API_URL}/local"
        flow environment() = "${API_URL}/environment"
        "#,
    )
    .expect("source should parse");
    let plan = compile(&program).expect("source should compile");

    let Instruction::Return(local) = &plan.flows[0].instructions[0] else {
        panic!("expected return");
    };
    let PlanExpressionKind::InterpolatedString(local_parts) = &local.kind else {
        panic!("expected interpolated string");
    };
    assert!(matches!(
        local_parts[0],
        StringPart::Value(PlanExpression {
            kind: PlanExpressionKind::Local(0),
            ..
        })
    ));

    let Instruction::Return(environment) = &plan.flows[1].instructions[0] else {
        panic!("expected return");
    };
    let PlanExpressionKind::InterpolatedString(environment_parts) = &environment.kind else {
        panic!("expected interpolated string");
    };
    assert!(matches!(
        &environment_parts[0],
        StringPart::Value(PlanExpression {
            kind: PlanExpressionKind::Environment(name),
            ..
        }) if name == "API_URL"
    ));
}

#[test]
fn lib_finds_cross_file_flow_and_context_definitions() {
    let mut declarations =
        parse("namespace shared\ncontext api {}\nflow helper(value) = value\n")
            .expect("declarations should parse");
    declarations.set_source(0);
    let context_span = declarations.contexts[0]
        .name
        .as_ref()
        .expect("api is named")
        .span;
    let flow_span = declarations.flows[0]
        .name
        .as_ref()
        .expect("helper is named")
        .span;

    let mut entry = parse(
        "use namespace shared\nflow main(input) {\n use context api\n result = helper(input)\n return result\n}\n",
    )
    .expect("entry should parse");
    entry.set_source(1);
    let use_context = match &entry.flows[0].body[0] {
        Statement::UseContext { name, .. } => name.span,
        _ => panic!("expected context use"),
    };
    let (call, argument) = match &entry.flows[0].body[1] {
        Statement::Bind { expression, .. } => match &expression.kind {
            ExpressionKind::Call {
                callee, arguments, ..
            } => (callee.span, arguments[0].span),
            _ => panic!("expected call"),
        },
        _ => panic!("expected binding"),
    };
    let local = match &entry.flows[0].body[2] {
        Statement::Return { expression, .. } => expression.span,
        _ => panic!("expected return"),
    };
    let binding = match &entry.flows[0].body[1] {
        Statement::Bind { name, .. } => name.span,
        _ => panic!("expected binding"),
    };

    let mut program = entry;
    program.contexts.extend(declarations.contexts);
    program.flows.extend(declarations.flows);

    assert_eq!(
        find_definition(&program, 1, use_context.start),
        Some(context_span)
    );
    assert_eq!(find_definition(&program, 1, call.start), Some(flow_span));
    assert_eq!(find_definition(&program, 1, local.start), Some(binding));
    assert_eq!(
        find_implementation(&program, 1, call.start),
        Some(flow_span)
    );
    assert_eq!(find_implementation(&program, 1, argument.start), None);
    assert_eq!(find_implementation(&program, 1, local.start), Some(binding));
    assert_eq!(find_implementation(&program, 1, use_context.start), None);
    assert_eq!(find_implementation(&program, 1, binding.start), None);
}

#[test]
fn lowers_bounded_structured_execution_policies() {
    let program = parse(
        r"
        flow first() = 1
        flow second() = 2
        flow main() = within(timeout: 2s) {
            retry(attempts: 3, delay: 10ms) {
                parallel(limit: 1) { first(), second() }
            }
        }
        ",
    )
    .expect("source should parse");
    let plan = compile(&program).expect("source should compile");
    let Instruction::Return(expression) = &plan.flows[2].instructions[0] else {
        panic!("expected return");
    };
    let PlanExpressionKind::Within { timeout, body } = &expression.kind else {
        panic!("expected deadline plan");
    };
    assert_eq!(*timeout, seconds(2));
    let PlanExpressionKind::Block { instructions, .. } = &body.kind else {
        panic!("expected value-producing block");
    };
    let Some(Instruction::Return(body)) = instructions.last() else {
        panic!("expected final block value");
    };
    let PlanExpressionKind::Retry {
        attempts,
        delay,
        body,
    } = &body.kind
    else {
        panic!("expected retry plan");
    };
    assert_eq!(*attempts, 3);
    assert_eq!(*delay, Duration::from_nanos(10_000_000));
    let PlanExpressionKind::Block { instructions, .. } = &body.kind else {
        panic!("expected value-producing block");
    };
    let Some(Instruction::Return(body)) = instructions.last() else {
        panic!("expected final block value");
    };
    let PlanExpressionKind::Parallel { limit, branches } = &body.kind else {
        panic!("expected parallel plan");
    };
    assert_eq!(*limit, 1);
    assert_eq!(branches.len(), 2);
}

#[test]
fn rejects_unbounded_or_invalid_policy_configuration() {
    let messages = errors("flow main() = parallel(limit: 0) { within(timeout: 0s) { true } }");
    assert!(
        messages
            .iter()
            .any(|message| message.contains("greater than zero"))
    );
}

#[test]
fn rejects_ambiguous_return_inside_value_blocks() {
    let messages = errors("flow main = retry(attempts: 2) { return 1 }");
    assert!(
        messages
            .iter()
            .any(|message| message.contains("cannot exit a flow"))
    );

    let messages =
        errors("flow main = for item in [1] { if (true) { return item } else { item } }");
    assert!(
        messages
            .iter()
            .any(|message| message.contains("cannot exit a flow"))
    );
}

#[test]
fn named_flow_arguments_bind_by_name_but_evaluate_in_source_order() {
    let source =
        parse("flow choose(first, second) = second\nflow main = choose(second: 2, first: 1)")
            .expect("source should parse");
    let plan = compile(&source).expect("source should compile");
    let Instruction::Return(expression) = &plan.flows[1].instructions[0] else {
        panic!("expected return");
    };
    let PlanExpressionKind::MettleCall {
        arguments,
        evaluation_order,
        ..
    } = &expression.kind
    else {
        panic!("expected flow call");
    };
    assert_eq!(evaluation_order, &vec![1, 0]);
    assert!(matches!(
        arguments[0].kind,
        PlanExpressionKind::Constant(Constant::Integer(1))
    ));
    assert!(matches!(
        arguments[1].kind,
        PlanExpressionKind::Constant(Constant::Integer(2))
    ));

    let messages = errors(
        "flow choose(first, second) = second\nflow main = choose(1, first: 2, second: 3)",
    );
    assert!(
        messages
            .iter()
            .any(|message| message.contains("supplied more than once"))
    );
    let messages = errors("flow choose(first, second) = second\nflow main = choose(third: 3)");
    assert!(
        messages
            .iter()
            .any(|message| message.contains("no parameter `third`"))
    );
}

#[test]
fn lowers_bounded_load_policies() {
    let program = parse(
        r"
        flow probe() = true
        flow main() {
            load = rate(target: 100, period: 1s, duration: 2s, limit: 10) { probe() }
            return concurrency(limit: 4, duration: 1s) { probe() }
        }
        ",
    )
    .expect("source should parse");
    let plan = compile(&program).expect("source should compile");
    let Instruction::Bind { expression, .. } = &plan.flows[1].instructions[0] else {
        panic!("expected rate binding");
    };
    let PlanExpressionKind::Rate {
        target,
        period,
        duration,
        limit,
        ..
    } = expression.kind
    else {
        panic!("expected rate plan");
    };
    assert_eq!(target, 100);
    assert_eq!(period, seconds(1));
    assert_eq!(duration, seconds(2));
    assert_eq!(limit, 10);
    let Instruction::Return(expression) = &plan.flows[1].instructions[1] else {
        panic!("expected concurrency return");
    };
    assert!(matches!(
        expression.kind,
        PlanExpressionKind::Concurrency { limit: 4, .. }
    ));
}

#[test]
fn rejects_invalid_load_policy_bounds() {
    let messages =
        errors("flow main() = rate(target: 1, period: 1s, duration: 1ms, limit: 0) { true }");
    assert!(
        messages
            .iter()
            .any(|message| message.contains("greater than zero"))
    );

    let messages = errors("flow main() = rate(target: 1, period: 1s, duration: 1ms) { true }");
    assert!(messages.iter().any(|message| message.contains("between 1")));
}

#[test]
fn flows_run_in_their_context() {
    let program = parse(
        "flow first() = one\n\
         flow second() {\n use context other\n return two\n}\n\
         test(\"third\") { assert(one == 1) }\n\
         context base { one: 1 }\n\
         context other { two: 2 }\n\
         use context base\n",
    )
    .expect("source should parse");
    let plan = compile(&program).expect("source should compile");
    let name = |flow: usize| plan.contexts[plan.flows[flow].contexts[0]].name.as_str();
    assert_eq!(name(0), "base");
    assert_eq!(name(1), "other");
    assert_eq!(name(2), "base");
}
