use mettle::dotenv::{
    load_environment, missing_profile, overlay, parse_file, parse_line, parse_quoted,
    EnvironmentFile,
};

fn find<'a>(values: &'a [(String, String)], name: &str) -> Option<&'a str> {
    values.iter().find(|pair| pair.0 == name).map(|pair| pair.1.as_str())
}

#[test]
fn parses_common_dotenv_forms_without_shell_expansion() {
    let mut values = Vec::new();
    parse_file(
        ".env",
        "# comment\nexport URL=https://example.test/path#fragment\nTOKEN='literal ${NAME}'\nMESSAGE=\"hello\\nworld\" # note\nEMPTY=\n",
        &mut values,
    )
    .expect("dotenv file should parse");
    assert_eq!(find(&values, "URL"), Some("https://example.test/path#fragment"));
    assert_eq!(find(&values, "TOKEN"), Some("literal ${NAME}"));
    assert_eq!(find(&values, "MESSAGE"), Some("hello\nworld"));
    assert_eq!(find(&values, "EMPTY"), Some(""));
}

#[test]
fn rejects_malformed_lines_without_exposing_values() {
    assert!(parse_line("1BAD=secret").is_err());
    assert!(parse_line("TOKEN=\"unterminated").is_err());
    let mut values = Vec::new();
    let error = parse_file(".env", "TOKEN=first\nTOKEN=second\n", &mut values)
        .expect_err("duplicate should fail");
    assert!(error.contains(".env:2"));
    assert!(!error.contains("first"));
    assert!(!error.contains("second"));
}

#[test]
fn every_fault_of_a_line_is_told() {
    assert_eq!(parse_line("plain"), Err("expected `NAME=value`"));
    assert_eq!(parse_line("A='b' c"), Err("unexpected text after quoted value"));
    assert_eq!(parse_line("A=\"b\\"), Err("unterminated escape in quoted value"));
    assert_eq!(parse_line("A='b"), Err("unterminated quoted value"));
    assert_eq!(
        parse_line("A-B=c"),
        Err(
            "environment variable name must use letters, digits, or `_` and cannot start with a digit"
        )
    );
    assert_eq!(parse_line("  # note"), Ok(None));
}

#[test]
fn lines_may_end_with_carriage_returns() {
    let mut values = Vec::new();
    parse_file(".env", "\u{feff}A=1 # one\r\nB=2\r\n", &mut values).expect("file should parse");
    assert_eq!(find(&values, "A"), Some("1"));
    assert_eq!(find(&values, "B"), Some("2"));
}

#[test]
fn the_process_counts_before_files() {
    let mut values = vec![("A".to_owned(), "file".to_owned()), ("B".to_owned(), "b".to_owned())];
    overlay(&mut values, &vec![("A".to_owned(), "process".to_owned())]);
    assert_eq!(find(&values, "A"), Some("process"));
    assert_eq!(find(&values, "B"), Some("b"));
    assert_eq!(values.len(), 2);
}

#[test]
fn profiles_need_a_file() {
    assert_eq!(
        missing_profile("qa"),
        "profile `qa` was selected, but no `.env.qa` exists beside the entry file or at the project root"
    );
}

fn file(path: &str, text: Option<&str>) -> EnvironmentFile {
    EnvironmentFile { path: path.to_owned(), text: Ok(text.map(str::to_owned)) }
}

#[test]
fn profiles_count_before_plain_files() {
    let plain = vec![
        file("root/.env", Some("A=root\nB=root\nC=root\nD=root")),
        file("entry/.env", Some("B=entry")),
    ];
    let profiled = vec![file("root/.env.qa", None), file("entry/.env.qa", Some("C=qa"))];
    let process = vec![("D".to_owned(), "process".to_owned())];
    let values = load_environment(&plain, Some("qa"), &profiled, &process).expect("environment");
    assert_eq!(find(&values, "A"), Some("root"));
    assert_eq!(find(&values, "B"), Some("entry"));
    assert_eq!(find(&values, "C"), Some("qa"));
    assert_eq!(find(&values, "D"), Some("process"));
    let values = load_environment(&plain, None, &profiled, &process).expect("environment");
    assert_eq!(find(&values, "C"), Some("root"));
}

#[test]
fn environments_tell_what_is_wrong_with_their_files() {
    let none: Vec<(String, String)> = Vec::new();
    let absent = vec![file(".env.qa", None)];
    let error = load_environment(&Vec::new(), Some("qa"), &absent, &none).expect_err("no file");
    assert_eq!(error, missing_profile("qa"));
    let wrong = vec![file(".env", Some("A"))];
    let error = load_environment(&wrong, None, &absent, &none).expect_err("no variable");
    assert_eq!(error, ".env:1: expected `NAME=value`");
    let locked =
        vec![EnvironmentFile { path: ".env".to_owned(), text: Err("could not read".to_owned()) }];
    let error = load_environment(&locked, None, &absent, &none).expect_err("no text");
    assert_eq!(error, "could not read");
}

#[test]
fn quoted_texts_are_read_back() {
    assert_eq!(parse_quoted("a \\n $B\"'", '\''), Ok("a \\n $B\"".to_owned()));
    assert_eq!(parse_quoted("a \\n", '\''), Err("unterminated quoted value"));
    assert_eq!(parse_quoted("a \\\"b\\\" \\\\\"", '"'), Ok("a \"b\" \\".to_owned()));
    assert_eq!(parse_quoted("\"", '"'), Ok(String::new()));
}
