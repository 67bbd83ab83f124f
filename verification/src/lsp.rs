//! The language server: messages, files and places.

use vstd::prelude::*;
use vstd::string::*;
use vstd::utf8::*;

use crate::capability::pair_models;
use crate::definition::{find_definition, QuestionModel};
use crate::dotenv::{enter, entered};
use crate::options::{count_of, parse_count};
use crate::positions::{byte_at, byte_offset, position, utf16_position};
use crate::sources::{document_models, LoadedProject};
use crate::text::{begins_with, chars_of, no_text, same, strip_prefix, trim, trimmed};

verus! {

// ---------------------------------------------------------------------------
// File names in URIs

/// The value of a hexadecimal digit.
pub open spec fn hex_value(c: char) -> Option<u8> {
    if '0' <= c <= '9' {
        Some((c as u32 - 48) as u8)
    } else if 'a' <= c <= 'f' {
        Some((c as u32 - 87) as u8)
    } else if 'A' <= c <= 'F' {
        Some((c as u32 - 55) as u8)
    } else {
        None
    }
}

fn hex(c: char) -> (value: Option<u8>)
    ensures
        value == hex_value(c),
        value matches Some(value) ==> value < 16,
{
    if '0' <= c && c <= '9' {
        Some((c as u32 - 48) as u8)
    } else if 'a' <= c && c <= 'f' {
        Some((c as u32 - 87) as u8)
    } else if 'A' <= c && c <= 'F' {
        Some((c as u32 - 55) as u8)
    } else {
        None
    }
}

/// The bytes that a URI stands for, from `from` on.
pub open spec fn uri_bytes(text: Seq<char>, from: int, done: Seq<u8>) -> Option<Seq<u8>>
    decreases text.len() - from,
{
    if from < 0 || from >= text.len() {
        Some(done)
    } else if text[from] == '%' {
        if from + 2 >= text.len() {
            None
        } else {
            match (hex_value(text[from + 1]), hex_value(text[from + 2])) {
                (Some(high), Some(low)) => uri_bytes(
                    text,
                    from + 3,
                    done.push((high * 16 + low) as u8),
                ),
                _ => None,
            }
        }
    } else {
        uri_bytes(text, from + 1, done + encode_scalar(text[from] as u32))
    }
}

/// The path that a URI names.
pub open spec fn uri_path(uri: Seq<char>) -> Option<Seq<char>> {
    if begins_with(uri, "file://"@) {
        match uri_bytes(uri.skip("file://"@.len() as int), 0, Seq::empty()) {
            Some(bytes) => if valid_utf8(bytes) {
                Some(decode_utf8(bytes))
            } else {
                None
            },
            None => None,
        }
    } else {
        None
    }
}

/// `String::from_utf8`: the text that bytes encode, where they encode one.
#[verifier::external_body]
fn read_text(bytes: Vec<u8>) -> (text: Option<String>)
    ensures
        match text {
            Some(text) => valid_utf8(bytes@) && text@ == decode_utf8(bytes@),
            None => !valid_utf8(bytes@),
        },
{
    String::from_utf8(bytes).ok()
}

fn push_char_bytes(bytes: &mut Vec<u8>, c: char)
    ensures
        final(bytes)@ == old(bytes)@ + encode_scalar(c as u32),
{
    let mut text: String = no_text();
    text.push(c);
    let encoded: &[u8] = text.as_str().as_bytes();
    let ghost start = bytes@;
    let ghost whole = encode_scalar(c as u32);
    proof {
        let single = seq![c];
        assert(text@ =~= single);
        assert(single.drop_first() =~= Seq::empty());
        assert(encode_utf8(single.drop_first()) =~= Seq::empty());
        assert(encode_utf8(single) =~= whole);
        assert(encoded@ == whole);
        assert(start + whole.take(0) =~= start);
    }
    let mut at: usize = 0;
    while at < encoded.len()
        invariant
            at <= encoded@.len(),
            encoded@ == whole,
            bytes@ == start + whole.take(at as int),
        decreases encoded@.len() - at,
    {
        bytes.push(encoded[at]);
        proof {
            assert(bytes@ =~= start + whole.take(at + 1));
        }
        at += 1;
    }
    proof {
        assert(whole.take(whole.len() as int) =~= whole);
    }
}

fn decode_uri(chars: &Vec<char>) -> (bytes: Option<Vec<u8>>)
    ensures
        (match bytes {
            Some(bytes) => Some(bytes@),
            None => None,
        }) == uri_bytes(chars@, 0, Seq::empty()),
{
    let mut bytes: Vec<u8> = Vec::new();
    let total: usize = chars.len();
    let mut at: usize = 0;
    proof {
        assert(bytes@ =~= Seq::empty());
    }
    while at < total
        invariant
            total == chars@.len(),
            at <= total,
            uri_bytes(chars@, 0, Seq::empty()) == uri_bytes(chars@, at as int, bytes@),
        decreases total - at,
    {
        let c: char = chars[at];
        if c == '%' {
            if total - at <= 2 {
                return None;
            }
            match (hex(chars[at + 1]), hex(chars[at + 2])) {
                (Some(high), Some(low)) => {
                    bytes.push(high * 16 + low);
                },
                _ => {
                    return None;
                },
            }
            at += 3;
        } else {
            push_char_bytes(&mut bytes, c);
            at += 1;
        }
    }
    Some(bytes)
}

/// The path that a URI names.
pub fn file_uri_to_path(uri: &str) -> (path: Option<String>)
    ensures
        (match path {
            Some(path) => Some(path@),
            None => None,
        }) == uri_path(uri@),
{
    let encoded: String = match strip_prefix(uri, "file://") {
        Some(encoded) => encoded,
        None => {
            return None;
        },
    };
    match decode_uri(&chars_of(encoded.as_str())) {
        Some(bytes) => read_text(bytes),
        None => None,
    }
}

/// Whether a byte stands for itself in a URI.
pub open spec fn stands_for_itself(byte: u8) -> bool {
    ||| 0x30 <= byte <= 0x39
    ||| 0x41 <= byte <= 0x5A
    ||| 0x61 <= byte <= 0x7A
    ||| byte == 0x2F
    ||| byte == 0x2D
    ||| byte == 0x5F
    ||| byte == 0x2E
    ||| byte == 0x7E
    ||| byte == 0x3A
}

pub open spec fn hex_digit(value: int) -> char {
    if value < 10 {
        (48 + value) as char
    } else {
        (55 + value) as char
    }
}

pub open spec fn uri_piece(byte: u8) -> Seq<char> {
    if stands_for_itself(byte) {
        seq![byte as char]
    } else {
        seq!['%', hex_digit(byte as int / 16), hex_digit(byte as int % 16)]
    }
}

/// The bytes from `from` on as they stand in a URI.
pub open spec fn uri_text(bytes: Seq<u8>, from: int) -> Seq<char>
    decreases bytes.len() - from,
{
    if from < 0 || from >= bytes.len() {
        Seq::empty()
    } else {
        uri_piece(bytes[from]) + uri_text(bytes, from + 1)
    }
}

/// The URI of a path.
pub open spec fn path_uri(path: Seq<char>) -> Seq<char> {
    "file://"@ + uri_text(encode_utf8(path), 0)
}

fn hex_char(value: u8) -> (c: char)
    requires
        value < 16,
    ensures
        c == hex_digit(value as int),
{
    if value < 10 {
        (48 + value) as char
    } else {
        (55 + value) as char
    }
}

fn push_piece(uri: &mut String, byte: u8)
    ensures
        final(uri)@ == old(uri)@ + uri_piece(byte),
{
    let ghost before = uri@;
    if (0x30 <= byte && byte <= 0x39) || (0x41 <= byte && byte <= 0x5A) || (0x61 <= byte && byte
        <= 0x7A) || byte == 0x2F || byte == 0x2D || byte == 0x5F || byte == 0x2E || byte == 0x7E
        || byte == 0x3A {
        uri.push(byte as char);
    } else {
        uri.push('%');
        uri.push(hex_char(byte / 16));
        uri.push(hex_char(byte % 16));
    }
    proof {
        assert(uri@ =~= before + uri_piece(byte));
    }
}

/// The URI of a path.
pub fn path_to_file_uri(path: &str) -> (uri: String)
    ensures
        uri@ == path_uri(path@),
{
    let bytes: &[u8] = path.as_bytes();
    let ghost all = encode_utf8(path@);
    let mut uri: String = "file://".to_owned();
    let ghost first = uri@;
    let mut at: usize = 0;
    while at < bytes.len()
        invariant
            bytes@ == all,
            at <= bytes@.len(),
            first + uri_text(all, 0) == uri@ + uri_text(all, at as int),
        decreases bytes@.len() - at,
    {
        let ghost before = uri@;
        push_piece(&mut uri, bytes[at]);
        proof {
            let piece = uri_piece(all[at as int]);
            let rest = uri_text(all, at + 1);
            assert(before + (piece + rest) =~= (before + piece) + rest);
        }
        at += 1;
    }
    proof {
        assert(uri@ + Seq::<char>::empty() =~= uri@);
    }
    uri
}

proof fn lemma_piece(byte: u8)
    ensures
        stands_for_itself(byte) ==> encode_scalar((byte as char) as u32) == seq![byte] && byte
            as char != '%',
        hex_value(hex_digit(byte as int / 16)) == Some((byte as int / 16) as u8),
        hex_value(hex_digit(byte as int % 16)) == Some((byte as int % 16) as u8),
{
    if stands_for_itself(byte) {
        let scalar = (byte as char) as u32;
        assert(scalar == byte);
        assert(leading_byte_width_1(scalar) == byte) by {
            assert((scalar & 0x7F) as u8 == byte) by (bit_vector)
                requires
                    scalar == byte,
                    byte < 0x80,
            ;
        }
        assert(encode_scalar(scalar) =~= seq![byte]);
    }
}

proof fn lemma_uri_round_trip(prefix: Seq<char>, bytes: Seq<u8>, from: int, done: Seq<u8>)
    requires
        0 <= from <= bytes.len(),
    ensures
        uri_bytes(prefix + uri_text(bytes, from), prefix.len() as int, done) == Some(
            done + bytes.skip(from),
        ),
    decreases bytes.len() - from,
{
    let text = prefix + uri_text(bytes, from);
    if from == bytes.len() {
        assert(done + bytes.skip(from) =~= done);
    } else {
        let byte = bytes[from];
        let piece = uri_piece(byte);
        let rest = uri_text(bytes, from + 1);
        lemma_piece(byte);
        lemma_uri_round_trip(prefix + piece, bytes, from + 1, done.push(byte));
        assert((prefix + piece) + rest =~= text);
        assert(done.push(byte) + bytes.skip(from + 1) =~= done + bytes.skip(from));
        let at = prefix.len() as int;
        assert(text[at] == piece[0]);
        if stands_for_itself(byte) {
            assert(done + seq![byte] =~= done.push(byte));
        } else {
            assert(text[at + 1] == piece[1]);
            assert(text[at + 2] == piece[2]);
        }
    }
}

/// The URI of a path names that path.
pub proof fn law_uri_round_trip(path: Seq<char>)
    ensures
        uri_path(path_uri(path)) == Some(path),
{
    let bytes = encode_utf8(path);
    let start = "file://"@;
    let uri = path_uri(path);
    lemma_uri_round_trip(Seq::empty(), bytes, 0, Seq::empty());
    assert(Seq::<char>::empty() + uri_text(bytes, 0) =~= uri_text(bytes, 0));
    assert(uri.take(start.len() as int) =~= start);
    assert(uri.skip(start.len() as int) =~= uri_text(bytes, 0));
    assert(Seq::<u8>::empty() + bytes.skip(0) =~= bytes);
    encode_utf8_valid_utf8(path);
    encode_utf8_decode_utf8(path);
}

// ---------------------------------------------------------------------------
// Messages

/// A line before the content of a message.
#[derive(Clone, Copy, Debug, PartialEq, Eq, Structural)]
pub enum HeaderLine {
    /// The content follows.
    End,
    /// How long the content is, where that can be read.
    Length(Option<usize>),
    Other,
}

/// What a line before the content of a message says.
pub open spec fn header_of(line: Seq<char>) -> HeaderLine {
    let solid = trimmed(line);
    if line == "\r\n"@ || line == "\n"@ {
        HeaderLine::End
    } else if begins_with(solid, "Content-Length:"@) {
        HeaderLine::Length(count_of(trimmed(solid.skip("Content-Length:"@.len() as int))))
    } else {
        HeaderLine::Other
    }
}

/// Reads a line before the content of a message.
pub fn read_header(line: &str) -> (header: HeaderLine)
    ensures
        header == header_of(line@),
{
    if same(line, "\r\n") || same(line, "\n") {
        return HeaderLine::End;
    }
    match strip_prefix(trim(line).as_str(), "Content-Length:") {
        Some(value) => HeaderLine::Length(parse_count(trim(value.as_str()).as_str())),
        None => HeaderLine::Other,
    }
}

/// What the server does with a message.
#[derive(Clone, Copy, Debug, PartialEq, Eq, Structural)]
pub enum Handling {
    Initialize,
    Shutdown,
    Definition,
    Open,
    Change,
    Close,
    Exit,
    Unknown,
    Ignore,
}

/// What is done with a message of a method. Messages with an identifier are
/// answered.
pub open spec fn handling_of(method: Option<Seq<char>>, answered: bool) -> Handling {
    match method {
        None => Handling::Ignore,
        Some(method) => if answered {
            if method == "initialize"@ {
                Handling::Initialize
            } else if method == "shutdown"@ {
                Handling::Shutdown
            } else if method == "textDocument/definition"@ {
                Handling::Definition
            } else {
                Handling::Unknown
            }
        } else {
            if method == "textDocument/didOpen"@ {
                Handling::Open
            } else if method == "textDocument/didChange"@ {
                Handling::Change
            } else if method == "textDocument/didClose"@ {
                Handling::Close
            } else if method == "exit"@ {
                Handling::Exit
            } else {
                Handling::Ignore
            }
        },
    }
}

pub fn classify(method: Option<&str>, answered: bool) -> (handling: Handling)
    ensures
        handling == handling_of(
            match method {
                Some(method) => Some(method@),
                None => None,
            },
            answered,
        ),
{
    match method {
        None => Handling::Ignore,
        Some(method) => if answered {
            if same(method, "initialize") {
                Handling::Initialize
            } else if same(method, "shutdown") {
                Handling::Shutdown
            } else if same(method, "textDocument/definition") {
                Handling::Definition
            } else {
                Handling::Unknown
            }
        } else {
            if same(method, "textDocument/didOpen") {
                Handling::Open
            } else if same(method, "textDocument/didChange") {
                Handling::Change
            } else if same(method, "textDocument/didClose") {
                Handling::Close
            } else if same(method, "exit") {
                Handling::Exit
            } else {
                Handling::Ignore
            }
        },
    }
}

// ---------------------------------------------------------------------------
// Open documents

/// The documents without the first of a path from `from` on.
pub open spec fn closed(documents: Seq<(Seq<char>, Seq<char>)>, path: Seq<char>, from: int) -> Seq<
    (Seq<char>, Seq<char>),
>
    decreases documents.len() - from,
{
    if from < 0 || from >= documents.len() {
        documents
    } else if documents[from].0 == path {
        documents.remove(from)
    } else {
        closed(documents, path, from + 1)
    }
}

/// The documents that are open, by path.
pub struct Documents {
    pub entries: Vec<(String, String)>,
}

impl Documents {
    pub open spec fn model(self) -> Seq<(Seq<char>, Seq<char>)> {
        pair_models(self.entries@)
    }

    pub fn new() -> (documents: Documents)
        ensures
            documents.model() == Seq::<(Seq<char>, Seq<char>)>::empty(),
    {
        let documents: Documents = Documents { entries: Vec::new() };
        proof {
            assert(documents.model() =~= Seq::empty());
        }
        documents
    }

    /// Takes in the text of a document, in place of an earlier one.
    pub fn put(&mut self, path: String, text: String)
        ensures
            final(self).model() == entered(old(self).model(), path@, text@, 0),
    {
        enter(&mut self.entries, path, text);
    }

    /// Forgets a document.
    pub fn close(&mut self, path: &str)
        ensures
            final(self).model() == closed(old(self).model(), path@, 0),
    {
        let ghost before = self.entries@;
        let ghost models = pair_models(before);
        let mut at: usize = 0;
        while at < self.entries.len()
            invariant
                self.entries@ == before,
                before == old(self).entries@,
                models == pair_models(before),
                at <= before.len(),
                closed(models, path@, 0) == closed(models, path@, at as int),
            decreases before.len() - at,
        {
            proof {
                assert(models[at as int] == (before[at as int].0@, before[at as int].1@));
            }
            if same(self.entries[at].0.as_str(), path) {
                self.entries.remove(at);
                proof {
                    assert(pair_models(self.entries@) =~= models.remove(at as int));
                }
                return;
            }
            at += 1;
        }
    }
}

// ---------------------------------------------------------------------------
// Definitions

/// A range of a file, in lines and UTF-16 code units.
#[derive(Clone, Copy, Debug, PartialEq, Eq)]
pub struct Range {
    pub source: usize,
    pub start: (usize, usize),
    pub end: (usize, usize),
}

pub open spec fn place_of(place: (int, int)) -> (usize, usize) {
    (place.0 as usize, place.1 as usize)
}

/// Where the name at a place is defined.
pub open spec fn definition_range(
    project: LoadedProject,
    source: int,
    line: nat,
    character: nat,
) -> Option<Range> {
    let sources = document_models(project.sources@);
    if source < 0 || source >= sources.len() {
        None
    } else {
        match byte_at(sources[source].text, line, character) {
            None => None,
            Some(byte) => match (QuestionModel {
                program: project.program.model(),
                source: source as usize,
                byte: byte as usize,
                implementation: false,
            }).answer() {
                None => None,
                Some(span) => if span.source < sources.len() {
                    let text = sources[span.source as int].text;
                    Some(
                        Range {
                            source: span.source,
                            start: place_of(utf16_position(text, span.start as int)),
                            end: place_of(utf16_position(text, span.end as int)),
                        },
                    )
                } else {
                    None
                },
            },
        }
    }
}

/// Where the name at a line and column is defined.
pub fn locate_definition(project: &LoadedProject, source: usize, line: usize, character: usize)
    -> (range: Option<Range>)
    ensures
        range == definition_range(*project, source as int, line as nat, character as nat),
{
    let ghost sources = document_models(project.sources@);
    if source >= project.sources.len() {
        return None;
    }
    proof {
        assert(sources[source as int] == project.sources@[source as int].model());
    }
    let byte: usize = match byte_offset(project.sources[source].text.as_str(), line, character) {
        Some(byte) => byte,
        None => {
            return None;
        },
    };
    match find_definition(&project.program, source, byte) {
        None => None,
        Some(span) => {
            if span.source >= project.sources.len() {
                return None;
            }
            proof {
                assert(sources[span.source as int] == project.sources@[span.source as int].model());
            }
            let text: &str = project.sources[span.source].text.as_str();
            let start: (usize, usize) = position(text, span.start);
            let end: (usize, usize) = position(text, span.end);
            proof {
                let first = utf16_position(text@, span.start as int);
                let last = utf16_position(text@, span.end as int);
                assert(place_of(first) == start);
                assert(place_of(last) == end);
            }
            Some(Range { source: span.source, start, end })
        },
    }
}

} // verus!
