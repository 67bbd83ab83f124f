use mettle::binary64::Binary64;
use mettle::duration::Duration;
use mettle::lexer::{digits_are_valid, tokenize};
use mettle::parser::{parse, parse_value};
use mettle::syntax::{
    BinaryOperator, ContextMember, Expression, ExpressionKind, FileContextUse, Span, Statement,
};
use mettle::timing::format_duration;

fn number(value: f64) -> Binary64 {
    Binary64 { bits: value.to_bits() }
}

#[test]
fn parses_conditionals_boolean_precedence_and_indexes() {
    let program = parse(
        r#"
        flow main() {
            values = [{ name: "Ada" }, { name: "Lin" }]
            if (not false and values[1]["name"] == "Lin" or false) {
                return values[0].name
            } else if (false) {
                return "other"
            } else {
                return "fallback"
            }
        }
    "#,
    )
    .expect("conditional source should parse");
    let Statement::If {
        branches,
        else_body: Some(_),
        ..
    } = &program.flows[0].body[1]
    else {
        panic!("expected conditional");
    };
    assert_eq!(branches.len(), 2);
    assert!(matches!(
        branches[0].condition.kind,
        ExpressionKind::Binary {
            operator: BinaryOperator::Or,
            ..
        }
    ));
}

#[test]
fn requires_explicit_separators() {
    for source in [
        "flow main() { value = 1 return value }",
        "flow main() = { a: 1 b: 2 }",
        "flow main() = parallel() { first() second() }",
    ] {
        let error = parse(source).expect_err("adjacent items should fail");
        assert!(error.message.contains("separate"), "{}", error.message);
    }
    parse("flow main() = { a: 1, b: 2 }").expect("comma-separated fields should parse");
    parse("flow main() = { a: 1\n b: 2 }").expect("newline-separated fields should parse");
}

#[test]
fn parses_namespaces_context_composition_and_assertions() {
    let program = parse(
        r"
        namespace users
        use namespace core
        context api {
            use context base
        }
        flow main() {
            response = lookup()
            assert(response.status == 200)
            return response
        }
        ",
    )
    .expect("project syntax should parse");

    assert_eq!(program.namespace.as_ref().unwrap().value, "users");
    assert_eq!(program.namespace_uses[0].value, "core");
    assert!(matches!(
        program.contexts[0].members[0],
        ContextMember::UseContext { .. }
    ));
    let Statement::Assert { expression, .. } = &program.flows[0].body[1] else {
        panic!("expected assertion");
    };
    assert!(matches!(
        expression.kind,
        ExpressionKind::Binary {
            operator: BinaryOperator::Equal,
            ..
        }
    ));
}

#[test]
fn parses_assertion_messages_and_rejects_non_literals() {
    let program = parse("test(\"checks\") { assert(false, \"expected a response\") }")
        .expect("assertion message should parse");
    let Statement::Assert {
        message: Some(message),
        ..
    } = &program.flows[0].body[0]
    else {
        panic!("expected a message-bearing assertion");
    };
    assert!(matches!(message.kind, ExpressionKind::String(_)));

    let error = parse("test(\"checks\") { assert(false, 123) }")
        .expect_err("non-string assertion message should be rejected");
    assert_eq!(error.message, "assertion message must be a string literal");
}

#[test]
fn parses_fail_as_a_terminal_expression() {
    let program = parse("flow main { if (true) { fail(\"stop\") } else { return 1 } }")
        .expect("terminal failure should parse");
    let Statement::If { branches, .. } = &program.flows[0].body[0] else {
        panic!("expected conditional");
    };
    assert!(matches!(
        &branches[0].body[0],
        Statement::Expression(expression) if matches!(expression.kind, ExpressionKind::Fail(_))
    ));
    parse("flow main = parallel { fail(\"stop\"), 1 }")
        .expect("fail should also be valid in an expression branch");
    assert!(parse("flow main { fail() }").is_err());
    assert!(parse("flow main { fail(\"a\", \"b\") }").is_err());
}

#[test]
fn parses_structured_execution_policies() {
    let program = parse(
        r"
        flow main() {
            return within(timeout: 2s) {
                retry(attempts: 3, delay: 10ms) {
                    parallel(limit: 2) { first(), second(), third() }
                }
            }
        }
        ",
    )
    .expect("policies should parse");
    let Statement::Return { expression, .. } = &program.flows[0].body[0] else {
        panic!("expected return");
    };
    let ExpressionKind::Within { body, .. } = &expression.kind else {
        panic!("expected within");
    };
    let ExpressionKind::Block(statements) = &body.kind else {
        panic!("expected value-producing block");
    };
    let Some(Statement::Expression(body)) = statements.last() else {
        panic!("expected final block expression");
    };
    let ExpressionKind::Retry { body, delay, .. } = &body.kind else {
        panic!("expected retry");
    };
    assert!(delay.is_some());
    let ExpressionKind::Block(statements) = &body.kind else {
        panic!("expected value-producing block");
    };
    let Some(Statement::Expression(body)) = statements.last() else {
        panic!("expected final block expression");
    };
    let ExpressionKind::Parallel { limit, branches } = &body.kind else {
        panic!("expected parallel");
    };
    assert!(limit.is_some());
    assert_eq!(branches.len(), 3);
}

#[test]
fn parses_load_execution_policies() {
    let program = parse(
        r"
        flow probe() = true
        flow main() {
            load = rate(target: 100, period: 1s, duration: 10s, limit: 20) {
                probe()
            }
            return concurrency(limit: 5, duration: 2s) { probe() }
        }
        ",
    )
    .expect("load policies should parse");
    let Statement::Bind { expression, .. } = &program.flows[1].body[0] else {
        panic!("expected rate binding");
    };
    let ExpressionKind::Rate { limit, .. } = &expression.kind else {
        panic!("expected rate");
    };
    assert!(limit.is_some());
    let Statement::Return { expression, .. } = &program.flows[1].body[1] else {
        panic!("expected concurrency return");
    };
    assert!(matches!(
        expression.kind,
        ExpressionKind::Concurrency { .. }
    ));
}

#[test]
fn lib_parses_contexts_http_calls_and_structured_values() {
    let program = parse(
        r#"
        context api {
            apiUrl: env("API_URL")
            defaults http {
                baseUrl: apiUrl
                timeout: 5s
                headers: { "Accept": "application/json" }
            }
        }

        flow main() {
            use context api
            response = http.post("/users") {
                json: { name: "Mettle", roles: ["tester"] }
            }
            return response.headers["content-type"]
        }
        "#,
    )
    .expect("source should parse");

    assert_eq!(program.contexts.len(), 1);
    assert!(matches!(
        program.contexts[0].members[1],
        ContextMember::Defaults { .. }
    ));
    assert_eq!(program.flows.len(), 1);
    assert!(matches!(
        program.flows[0].body[0],
        Statement::UseContext { .. }
    ));
    let Statement::Bind { expression, .. } = &program.flows[0].body[1] else {
        panic!("expected a binding");
    };
    assert!(matches!(expression.kind, ExpressionKind::Call { .. }));
}

#[test]
fn lib_parses_floats_and_duration_units() {
    let program =
        parse("flow main() { value = 1.25\n return 200ms }").expect("source should parse");
    let Statement::Bind { expression, .. } = &program.flows[0].body[0] else {
        panic!("expected binding");
    };
    assert_eq!(expression.kind, ExpressionKind::Float(number(1.25)));
    let Statement::Return { expression, .. } = &program.flows[0].body[1] else {
        panic!("expected return");
    };
    assert_eq!(expression.kind, ExpressionKind::DurationNanos(200_000_000));
}

#[test]
fn parses_signed_radix_exponent_and_fractional_duration_literals() {
    assert_eq!(
        parse_value("-42").unwrap().kind,
        ExpressionKind::Integer(-42)
    );
    assert_eq!(
        parse_value("-0x2A").unwrap().kind,
        ExpressionKind::Integer(-42)
    );
    assert_eq!(
        parse_value("0b1010_0011").unwrap().kind,
        ExpressionKind::Integer(163)
    );
    assert_eq!(
        parse_value("1.25e2").unwrap().kind,
        ExpressionKind::Float(number(125.0))
    );
    assert_eq!(
        parse_value("1.5s").unwrap().kind,
        ExpressionKind::DurationNanos(1_500_000_000)
    );
    assert_eq!(
        parse_value("0.25ms").unwrap().kind,
        ExpressionKind::DurationNanos(250_000)
    );
    assert_eq!(
        parse_value("-9223372036854775808").unwrap().kind,
        ExpressionKind::Integer(i64::MIN),
    );
    for source in [
        "1__0",
        "1_",
        "0x_FF",
        "0b102",
        "0.1ns",
        "1e999",
        "-1s",
        "0x8000000000000000",
    ] {
        assert!(parse_value(source).is_err(), "{source} should fail");
    }
}

#[test]
fn parses_refined_declarations_calls_and_named_parallel_branches() {
    let program = parse(
        r#"
        flow add(first, second) = second
        flow main {
            response = parallel {
                users: add(second: 2, first: 1)
                posts: [1, 2, 3,]
            }
            response
        }
        test "names work without parentheses" { assert(true) }
    "#,
    )
    .expect("refined syntax should parse");
    assert_eq!(program.flows[1].parameters.len(), 0);
    assert_eq!(
        program.flows[2].name.as_ref().unwrap().value,
        "names work without parentheses"
    );
    let Statement::Bind { expression, .. } = &program.flows[1].body[0] else {
        panic!("expected binding")
    };
    let ExpressionKind::Parallel { branches, .. } = &expression.kind else {
        panic!("expected parallel")
    };
    assert_eq!(branches[0].name.as_ref().unwrap().value, "users");
}

#[test]
fn lib_reports_unterminated_strings_at_the_source() {
    let error = parse("flow main() { return \"missing }").expect_err("source should fail");
    assert_eq!(error.message, "unterminated string");
    assert_eq!(error.span.start, 21);
}

#[test]
fn lib_rejects_unknown_duration_units() {
    let error = parse("flow main() { return 5days }").expect_err("source should fail");
    assert_eq!(error.message, "unknown numeric suffix");
}

#[test]
fn lib_parses_named_expression_and_anonymous_flows() {
    let program = parse(
        r#"
        context api { defaults http { baseUrl: "http://localhost" } }
        use context api
        http.get("/health")
        flow health() = http.get("/health")
        flow { return http.get("/ready") }
        "#,
    )
    .expect("source should parse");

    assert!(matches!(
        &program.file_contexts[0],
        FileContextUse::Named(name) if name.value == "api"
    ));
    assert_eq!(program.flows.len(), 3);
    assert!(program.flows[0].name.is_none());
    assert_eq!(
        program.flows[1].name.as_ref().expect("named flow").value,
        "health"
    );
    assert!(program.flows[2].name.is_none());
    assert!(matches!(program.flows[0].body[0], Statement::Return { .. }));
}

#[test]
fn lib_parses_standalone_cli_values() {
    assert_eq!(
        parse_value("[true, 2s]").expect("value should parse").kind,
        ExpressionKind::Array(vec![
            Expression {
                kind: ExpressionKind::Boolean(true),
                span: Span::new(1, 5),
            },
            Expression {
                kind: ExpressionKind::DurationNanos(2_000_000_000),
                span: Span::new(7, 9),
            },
        ])
    );
}

#[test]
fn tokens_stand_behind_each_other() {
    let source = "flow main() { // note\n  return \"é\" == 1_0\n}\n";
    let tokens = tokenize(source).expect("tokens");
    assert_eq!(tokens.len(), 11);
    for pair in tokens.windows(2) {
        assert!(pair[0].span.start < pair[0].span.end);
        assert!(pair[0].span.end <= pair[1].span.start);
    }
    let last = tokens.last().expect("the end");
    assert_eq!((last.span.start, last.span.end), (source.len(), source.len()));
}

#[test]
fn digits_go_up_to_the_base() {
    let valid = |text: &str, base: u32| {
        let chars: Vec<char> = text.chars().collect();
        digits_are_valid(&chars, 0, chars.len(), base)
    };
    assert!(valid("z", 36));
    assert!(valid("Z", 36));
    assert!(!valid("z", 35));
    assert!(valid("g", 17));
    assert!(!valid("g", 16));
    assert!(valid("dead_BEEF", 16));
    assert!(!valid("_1", 36));
    assert!(!valid("1_", 36));
    assert!(!valid("1__0", 36));
    assert!(!valid("", 10));
    assert!(!valid("1.0", 36));
}

#[test]
fn moved_programs_lie_in_their_source() {
    let source = "namespace api\n\
        context local { name: \"x\" }\n\
        flow main(user) {\n value = [user, 1]\n return value\n}\n";
    let mut program = parse(source).expect("program should parse");
    let start = program.flows[0].parameters[0].span.start;
    program.set_source(3);
    assert_eq!(program.namespace.as_ref().map(|name| name.span.source), Some(3));
    assert_eq!(program.contexts[0].span.source, 3);
    assert_eq!(program.flows[0].span.source, 3);
    assert_eq!(program.flows[0].parameters[0].span.start, start);
    assert_eq!(program.flows[0].parameters[0].span.source, 3);
    program.set_source(0);
    assert_eq!(program, parse(source).expect("program should parse"));
}

#[test]
fn written_durations_are_read_back() {
    for nanos in [0, 7, 1_500, 2_000_000, 1_500_000, 90_000_000_000, u64::MAX] {
        let text = format_duration(Duration::from_nanos(nanos));
        let value = parse_value(&text).expect("a duration");
        assert_eq!(value.kind, ExpressionKind::DurationNanos(nanos));
    }
}
