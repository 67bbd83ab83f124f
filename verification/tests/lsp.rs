use mettle::documents::{decode, write_line};
use mettle::json::Json;
use mettle::lsp::{
    classify, file_uri_to_path, locate_definition, path_to_file_uri, read_header, Documents,
    Handling, HeaderLine, Range,
};
use mettle::messages::{answer_definition, read_task, write_header, Task};
use mettle::positions::{byte_offset, position, source_location};
use mettle::sources::{load_sources, SourceDocument};

#[test]
fn converts_lsp_utf16_positions() {
    let source = "first\n💡value\n";
    assert_eq!(byte_offset(source, 1, 2), Some(10));
    assert_eq!(position(source, 10), (1, 2));
}

#[test]
fn round_trips_file_uris() {
    let path = "/tmp/flow project/main.flow";
    let uri = path_to_file_uri(path);
    assert_eq!(uri, "file:///tmp/flow%20project/main.flow");
    assert_eq!(file_uri_to_path(&uri).as_deref(), Some(path));
}

#[test]
fn uris_of_any_text_lead_back() {
    let path = "/tmp/é💡%/a b";
    assert_eq!(file_uri_to_path(&path_to_file_uri(path)).as_deref(), Some(path));
    assert_eq!(file_uri_to_path("http://a"), None);
    assert_eq!(file_uri_to_path("file:///%zz"), None);
    assert_eq!(file_uri_to_path("file:///%4"), None);
    assert_eq!(file_uri_to_path("file:///%FF"), None);
}

#[test]
fn positions_behind_the_text_are_none() {
    assert_eq!(byte_offset("ab\n", 0, 2), Some(2));
    assert_eq!(byte_offset("ab\n", 0, 3), None);
    assert_eq!(byte_offset("ab\n", 1, 0), Some(3));
    assert_eq!(byte_offset("ab\n", 2, 0), None);
    assert_eq!(source_location("a\nbé", 4), (2, 3));
}

#[test]
fn headers_of_messages_are_read() {
    assert_eq!(read_header("\r\n"), HeaderLine::End);
    assert_eq!(read_header("Content-Length: 42\r\n"), HeaderLine::Length(Some(42)));
    assert_eq!(read_header("Content-Length: x\r\n"), HeaderLine::Length(None));
    assert_eq!(read_header("Content-Type: a\r\n"), HeaderLine::Other);
}

#[test]
fn messages_are_told_apart() {
    assert_eq!(classify(Some("initialize"), true), Handling::Initialize);
    assert_eq!(classify(Some("textDocument/definition"), true), Handling::Definition);
    assert_eq!(classify(Some("other"), true), Handling::Unknown);
    assert_eq!(classify(Some("exit"), false), Handling::Exit);
    assert_eq!(classify(Some("other"), false), Handling::Ignore);
    assert_eq!(classify(None, true), Handling::Ignore);
}

#[test]
fn documents_are_kept_by_path() {
    let mut documents = Documents::new();
    documents.put("/a".to_owned(), "one".to_owned());
    documents.put("/b".to_owned(), "two".to_owned());
    documents.put("/a".to_owned(), "three".to_owned());
    assert_eq!(documents.entries[0], ("/a".to_owned(), "three".to_owned()));
    documents.close("/a");
    assert_eq!(documents.entries, vec![("/b".to_owned(), "two".to_owned())]);
}

fn document(path: &str, text: &str) -> SourceDocument {
    SourceDocument { path: path.to_owned(), text: text.to_owned() }
}

#[test]
fn navigates_unsaved_cross_file_flow_calls() {
    let project = load_sources(
        vec![
            document("main.flow", "use namespace shared\nflow main() = helper()\n"),
            document("shared.flow", "namespace shared\nflow helper() = true\n"),
        ],
        0,
    )
    .expect("project should load");
    let range = locate_definition(&project, 0, 1, 16).expect("definition should resolve");
    assert_eq!(range.source, 1);
    assert_eq!(range.start, (1, 5));
    assert!(locate_definition(&project, 2, 0, 0).is_none());
}

fn task(message: &str) -> Task {
    read_task(&decode(&message.as_bytes().to_vec()).expect("a message"))
}

fn answer(message: &str) -> String {
    match task(message) {
        Task::Answer(json) => write_line(&json),
        other => panic!("no answer but {other:?}"),
    }
}

#[test]
fn requests_are_answered_with_their_identifier() {
    assert_eq!(
        answer("{\"id\":7,\"method\":\"initialize\"}"),
        "{\"id\":7,\"jsonrpc\":\"2.0\",\"result\":{\"capabilities\":{\"definitionProvider\":true,\"textDocumentSync\":{\"change\":1,\"openClose\":true}},\"serverInfo\":{\"name\":\"mettle\",\"version\":\"0.1.0\"}}}"
    );
    assert_eq!(
        answer("{\"id\":\"a\",\"method\":\"shutdown\"}"),
        "{\"id\":\"a\",\"jsonrpc\":\"2.0\",\"result\":null}"
    );
    assert_eq!(
        answer("{\"id\":1,\"method\":\"other\"}"),
        "{\"error\":{\"code\":-32601,\"message\":\"method not found\"},\"id\":1,\"jsonrpc\":\"2.0\"}"
    );
    assert_eq!(
        answer("{\"id\":1,\"method\":\"textDocument/definition\",\"params\":{}}"),
        "{\"id\":1,\"jsonrpc\":\"2.0\",\"result\":null}"
    );
}

#[test]
fn notices_are_read_without_an_answer() {
    let path = "/a b".to_owned();
    assert_eq!(
        task("{\"method\":\"textDocument/didOpen\",\"params\":{\"textDocument\":{\"uri\":\"file:///a%20b\",\"text\":\"x\"}}}"),
        Task::Keep { path: path.clone(), text: "x".to_owned() }
    );
    assert_eq!(
        task("{\"method\":\"textDocument/didChange\",\"params\":{\"textDocument\":{\"uri\":\"file:///a%20b\"},\"contentChanges\":[{\"text\":\"y\"}]}}"),
        Task::Keep { path: path.clone(), text: "y".to_owned() }
    );
    assert_eq!(
        task("{\"method\":\"textDocument/didClose\",\"params\":{\"textDocument\":{\"uri\":\"file:///a%20b\"}}}"),
        Task::Forget { path }
    );
    assert_eq!(task("{\"method\":\"exit\"}"), Task::Exit);
    assert_eq!(task("{\"method\":\"textDocument/didOpen\"}"), Task::Nothing);
    assert_eq!(task("[]"), Task::Nothing);
}

#[test]
fn definitions_are_asked_for_and_answered() {
    assert_eq!(
        task("{\"id\":3,\"method\":\"textDocument/definition\",\"params\":{\"textDocument\":{\"uri\":\"file:///a\"},\"position\":{\"line\":1,\"character\":2}}}"),
        Task::Define { id: Json::Integer(3), path: "/a".to_owned(), line: 1, character: 2 }
    );
    let range = Range { source: 0, start: (1, 5), end: (1, 11) };
    assert_eq!(
        write_line(&answer_definition(Json::Integer(3), Some(("/a b".to_owned(), range)))),
        "{\"id\":3,\"jsonrpc\":\"2.0\",\"result\":{\"range\":{\"end\":{\"character\":11,\"line\":1},\"start\":{\"character\":5,\"line\":1}},\"uri\":\"file:///a%20b\"}}"
    );
    assert_eq!(write_header(12), "Content-Length: 12\r\n\r\n");
}
