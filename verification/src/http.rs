//! The HTTP capability: what a request sends, what a response shows, and how
//! options are laid over each other.

use vstd::prelude::*;
use vstd::string::*;
use vstd::utf8::*;

use crate::capability::{pair_models, CapabilityError};
use crate::duration::Duration;
use crate::documents::{bytes_model, compact, decode, encode, parsed, settled};
use crate::json::{
    decoded, decoded_model, encoded, from_json, to_json, value_or_error, Json, JsonModel,
};
use crate::plan::optional_text;
use crate::syntax::{error_of, ErrorModel, Span};
use crate::text::{
    chars_of, decimal, decimal_text, digit_char, find_char, is_digit, is_letter, letter_char,
    lowercase, lowered, position_of, same, split_at, split_once, text_between, trim, trimmed,
    wrapped,
};
use crate::value::{
    copied_bytes, entry_models, inserted, kind_name, lookup, merge_objects, merged,
    optional_reference, removed, shown, value_models, Entry, EntryModel, Object, Value, ValueModel,
};

verus! {

// ---------------------------------------------------------------------------
// Reading options

pub open spec fn found_text(result: Result<String, CapabilityError>) -> Result<Seq<char>, ErrorModel> {
    match result {
        Ok(text) => Ok(text@),
        Err(error) => Err(error.model()),
    }
}

pub open spec fn type_fault(name: Seq<char>, expected: Seq<char>, value: ValueModel, span: Span) -> ErrorModel {
    error_of("`"@ + name + "` must be "@ + expected + ", found "@ + kind_name(value), span)
}

fn type_error(name: &str, expected: &str, value: &Value, span: Span) -> (error: CapabilityError)
    ensures
        error.model() == type_fault(name@, expected@, value.model(), span),
{
    let mut message: String = wrapped(
        wrapped("`", name, "` must be ").as_str(),
        expected,
        ", found ",
    );
    message.append(value.kind_name());
    CapabilityError::new(message, span)
}

/// The text that a value is.
pub open spec fn text_of(value: Option<ValueModel>, name: Seq<char>, span: Span) -> Result<
    Seq<char>,
    ErrorModel,
> {
    match value {
        None => Err(error_of("missing "@ + name, span)),
        Some(value) => match value.revealed() {
            ValueModel::String(text) => Ok(text),
            _ => Err(type_fault(name, "string"@, value.revealed(), span)),
        },
    }
}

fn expect_string(value: Option<&Value>, name: &str, span: Span) -> (result: Result<
    String,
    CapabilityError,
>)
    ensures
        found_text(result) == text_of(optional_reference(value), name@, span),
{
    match value {
        None => {
            let mut message: String = "missing ".to_owned();
            message.append(name);
            Err(CapabilityError::new(message, span))
        },
        Some(value) => {
            let inner: &Value = value.revealed();
            match inner {
                Value::String(text) => Ok(text.clone()),
                _ => Err(type_error(name, "string", inner, span)),
            }
        },
    }
}

pub open spec fn duration_option(
    options: Seq<EntryModel>,
    name: Seq<char>,
    usual: Duration,
    span: Span,
) -> Result<Duration, ErrorModel> {
    match lookup(options, name) {
        None => Ok(usual),
        Some(value) => match value.revealed() {
            ValueModel::Duration(duration) => Ok(duration),
            _ => Err(type_fault(name, "duration"@, value.revealed(), span)),
        },
    }
}

fn option_duration(options: &Object, name: &str, usual: Duration, span: Span) -> (result: Result<
    Duration,
    CapabilityError,
>)
    ensures
        (match result {
            Ok(duration) => Ok(duration),
            Err(error) => Err(error.model()),
        }) == duration_option(options.model(), name@, usual, span),
{
    match options.get(name) {
        None => Ok(usual),
        Some(value) => {
            let inner: &Value = value.revealed();
            match inner {
                Value::Duration(duration) => Ok(*duration),
                _ => Err(type_error(name, "duration", inner, span)),
            }
        },
    }
}

pub open spec fn size_option(
    options: Seq<EntryModel>,
    name: Seq<char>,
    usual: usize,
    span: Span,
) -> Result<usize, ErrorModel> {
    match lookup(options, name) {
        None => Ok(usual),
        Some(value) => match value.revealed() {
            ValueModel::Integer(number) => if number <= 0 {
                Err(error_of("`"@ + name + "` must be greater than zero"@, span))
            } else if number <= usize::MAX {
                Ok(number as usize)
            } else {
                Err(error_of("`"@ + name + "` is too large for this platform"@, span))
            },
            _ => Err(type_fault(name, "positive integer"@, value.revealed(), span)),
        },
    }
}

fn option_usize(options: &Object, name: &str, usual: usize, span: Span) -> (result: Result<
    usize,
    CapabilityError,
>)
    ensures
        (match result {
            Ok(size) => Ok(size),
            Err(error) => Err(error.model()),
        }) == size_option(options.model(), name@, usual, span),
{
    match options.get(name) {
        None => Ok(usual),
        Some(value) => {
            let inner: &Value = value.revealed();
            match inner {
                Value::Integer(number) => {
                    if *number <= 0 {
                        Err(
                            CapabilityError::new(
                                wrapped("`", name, "` must be greater than zero"),
                                span,
                            ),
                        )
                    } else if *number as u128 <= usize::MAX as u128 {
                        Ok(*number as usize)
                    } else {
                        Err(
                            CapabilityError::new(
                                wrapped("`", name, "` is too large for this platform"),
                                span,
                            ),
                        )
                    }
                },
                _ => Err(type_error(name, "positive integer", inner, span)),
            }
        },
    }
}

/// Whether certificates have to be valid.
pub open spec fn verify_option(options: Seq<EntryModel>, span: Span) -> Result<bool, ErrorModel> {
    match lookup(options, "tls"@) {
        Some(ValueModel::Object(tls)) => match lookup(tls, "verifyCertificates"@) {
            None => Ok(true),
            Some(ValueModel::Boolean(verify)) => Ok(verify),
            Some(other) => Err(type_fault("tls.verifyCertificates"@, "boolean"@, other, span)),
        },
        _ => Ok(true),
    }
}

fn option_verify(options: &Object, span: Span) -> (result: Result<bool, CapabilityError>)
    ensures
        (match result {
            Ok(verify) => Ok(verify),
            Err(error) => Err(error.model()),
        }) == verify_option(options.model(), span),
{
    if let Some(Value::Object(tls)) = options.get("tls") {
        match tls.get("verifyCertificates") {
            None => Ok(true),
            Some(value) => match value {
                Value::Boolean(verify) => Ok(*verify),
                _ => Err(type_error("tls.verifyCertificates", "boolean", value, span)),
            },
        }
    } else {
        Ok(true)
    }
}

// ---------------------------------------------------------------------------
// URLs

/// Whether the text before the first colon can be a scheme.
pub open spec fn has_scheme(text: Seq<char>) -> bool {
    match split_at(text, ':') {
        None => false,
        Some((scheme, _)) => {
            &&& scheme.len() > 0
            &&& is_letter(scheme[0])
            &&& forall|i: int|
                1 <= i < scheme.len() ==> is_letter(#[trigger] scheme[i]) || is_digit(scheme[i])
                    || scheme[i] == '+' || scheme[i] == '-' || scheme[i] == '.'
        },
    }
}

fn has_uri_scheme(text: &str) -> (yes: bool)
    ensures
        yes == has_scheme(text@),
{
    match split_once(text, ':') {
        None => false,
        Some((scheme, _)) => {
            let chars: Vec<char> = chars_of(scheme.as_str());
            if chars.len() == 0 || !letter_char(chars[0]) {
                return false;
            }
            let mut at: usize = 1;
            while at < chars.len()
                invariant
                    1 <= at <= chars@.len(),
                    forall|i: int|
                        1 <= i < at ==> is_letter(#[trigger] chars@[i]) || is_digit(chars@[i])
                            || chars@[i] == '+' || chars@[i] == '-' || chars@[i] == '.',
                    chars@ == scheme@,
                    split_at(text@, ':') matches Some(pair) && pair.0 == scheme@,
                decreases chars@.len() - at,
            {
                let c: char = chars[at];
                if !(letter_char(c) || digit_char(c) || c == '+' || c == '-' || c == '.') {
                    return false;
                }
                at += 1;
            }
            true
        },
    }
}

/// Where the slashes at the end of the text start, looking back from `end`.
pub open spec fn trailing(text: Seq<char>, end: int) -> int
    decreases end,
{
    if end > 0 && text[end - 1] == '/' {
        trailing(text, end - 1)
    } else {
        end
    }
}

/// Where the slashes at the start of the text end, looking from `from` on.
pub open spec fn leading(text: Seq<char>, from: int) -> int
    decreases text.len() - from,
{
    if 0 <= from < text.len() && text[from] == '/' {
        leading(text, from + 1)
    } else {
        from
    }
}

pub open spec fn resolved_url(path: Seq<char>, options: Seq<EntryModel>, span: Span) -> Result<
    Seq<char>,
    ErrorModel,
> {
    if has_scheme(path) {
        Ok(path)
    } else {
        match lookup(options, "baseUrl"@) {
            None => Err(
                error_of(
                    "relative HTTP URL requires `baseUrl` in HTTP defaults or operation options"@,
                    span,
                ),
            ),
            Some(base) => match text_of(Some(base), "baseUrl"@, span) {
                Err(error) => Err(error),
                Ok(base) => Ok(
                    base.subrange(0, trailing(base, base.len() as int)) + "/"@ + path.subrange(
                        leading(path, 0),
                        path.len() as int,
                    ),
                ),
            },
        }
    }
}

/// The URL of a request: the path itself, or the base URL with the path.
pub fn resolve_url(path: &str, options: &Object, span: Span) -> (result: Result<
    String,
    CapabilityError,
>)
    ensures
        found_text(result) == resolved_url(path@, options.model(), span),
{
    if has_uri_scheme(path) {
        return Ok(path.to_owned());
    }
    let base: String = match options.get("baseUrl") {
        None => {
            return Err(
                CapabilityError::new(
                    "relative HTTP URL requires `baseUrl` in HTTP defaults or operation options".to_owned(),
                    span,
                ),
            );
        },
        Some(base) => match expect_string(Some(base), "baseUrl", span) {
            Ok(base) => base,
            Err(error) => {
                return Err(error);
            },
        },
    };
    let front: Vec<char> = chars_of(base.as_str());
    let back: Vec<char> = chars_of(path);
    let mut end: usize = front.len();
    while end > 0 && front[end - 1] == '/'
        invariant
            end <= front@.len(),
            trailing(front@, front@.len() as int) == trailing(front@, end as int),
        decreases end,
    {
        end -= 1;
    }
    let mut from: usize = 0;
    while from < back.len() && back[from] == '/'
        invariant
            from <= back@.len(),
            leading(back@, 0) == leading(back@, from as int),
        decreases back@.len() - from,
    {
        from += 1;
    }
    Ok(
        wrapped(
            text_between(&front, 0, end).as_str(),
            "/",
            text_between(&back, from, back.len()).as_str(),
        ),
    )
}

/// What a URL is read as: its scheme, if it has one, or why it is none.
pub uninterp spec fn uri_scheme(url: Seq<char>) -> Result<Option<Seq<char>>, Seq<char>>;

pub open spec fn scheme_model(scheme: Result<Option<String>, String>) -> Result<
    Option<Seq<char>>,
    Seq<char>,
> {
    match scheme {
        Ok(scheme) => Ok(optional_text(scheme)),
        Err(message) => Err(message@),
    }
}

/// Reads a URL with `hyper::Uri` (its `FromStr`) and takes the scheme from it
/// (`Uri::scheme_str`). Which texts are URLs, and what is said of the others,
/// is given by name only.
#[verifier::external_body]
fn parse_uri(url: &str) -> (scheme: Result<Option<String>, String>)
    ensures
        scheme_model(scheme) == uri_scheme(url@),
{
    match url.parse::<hyper::Uri>() {
        Ok(uri) => match uri.scheme_str() {
            Some(scheme) => Ok(Some(scheme.to_owned())),
            None => Ok(None),
        },
        Err(error) => Err(error.to_string()),
    }
}

pub open spec fn is_http(scheme: Option<Seq<char>>) -> bool {
    match scheme {
        Some(scheme) => lowered(scheme) == "http"@ || lowered(scheme) == "https"@,
        None => false,
    }
}

/// Complaints about a URL that was read as `scheme` tells.
pub open spec fn url_fault(
    url: Seq<char>,
    scheme: Result<Option<Seq<char>>, Seq<char>>,
    span: Span,
) -> Option<ErrorModel> {
    match scheme {
        Err(message) => Some(
            error_of("invalid HTTP URL `"@ + url + "`: "@ + message, span),
        ),
        Ok(scheme) => if is_http(scheme) {
            None
        } else {
            Some(error_of("HTTP URL must use the `http` or `https` scheme"@, span))
        },
    }
}

fn check_url(url: &str, scheme: &Result<Option<String>, String>, span: Span) -> (fault: Option<
    CapabilityError,
>)
    ensures
        (match fault {
            Some(fault) => Some(fault.model()),
            None => None,
        }) == url_fault(url@, scheme_model(*scheme), span),
{
    match scheme {
        Err(message) => {
            let mut words: String = wrapped("invalid HTTP URL `", url, "`: ");
            words.append(message.as_str());
            Some(CapabilityError::new(words, span))
        },
        Ok(scheme) => {
            if let Some(scheme) = scheme {
                let small: String = lowercase(scheme.as_str());
                if same(small.as_str(), "http") || same(small.as_str(), "https") {
                    return None;
                }
            }
            Some(
                CapabilityError::new(
                    "HTTP URL must use the `http` or `https` scheme".to_owned(),
                    span,
                ),
            )
        },
    }
}

// ---------------------------------------------------------------------------
// Headers

/// Whether the character can stand in the name of a header.
pub open spec fn is_token(c: char) -> bool {
    is_letter(c) || is_digit(c) || c == '!' || c == '#' || c == '$' || c == '%' || c == '&' || c
        == '\'' || c == '*' || c == '+' || c == '-' || c == '.' || c == '^' || c == '_' || c
        == '`' || c == '|' || c == '~'
}

pub open spec fn is_header_name(name: Seq<char>) -> bool {
    &&& 0 < name.len() <= 65535
    &&& forall|i: int| 0 <= i < name.len() ==> is_token(#[trigger] name[i])
}

/// Reads the name of a header with `hyper::header::HeaderName::try_from`: a
/// name of token characters, at most 65535 of them, comes out in small
/// letters; anything else is refused with a fixed text.
#[verifier::external_body]
fn parse_header_name(name: &str) -> (result: Result<String, String>)
    ensures
        match result {
            Ok(small) => is_header_name(name@) && small@ == lowered(name@),
            Err(message) => !is_header_name(name@) && message@ == "invalid HTTP header name"@,
        },
{
    match hyper::header::HeaderName::try_from(name) {
        Ok(name) => Ok(name.as_str().to_owned()),
        Err(error) => Err(error.to_string()),
    }
}

/// Whether the text can be the value of a header: no control characters but
/// tabs.
pub open spec fn is_header_value(value: Seq<char>) -> bool {
    forall|i: int|
        0 <= i < value.len() ==> (#[trigger] value[i]) == '\t' || (value[i] as u32 >= 32
            && value[i] as u32 != 127)
}

/// Reads the value of a header with `hyper::header::HeaderValue::try_from`,
/// which refuses control characters other than tabs with a fixed text.
#[verifier::external_body]
fn parse_header_value(value: &str) -> (result: Result<(), String>)
    ensures
        match result {
            Ok(_) => is_header_value(value@),
            Err(message) => !is_header_value(value@) && message@
                == "failed to parse header value"@,
        },
{
    match hyper::header::HeaderValue::try_from(value) {
        Ok(_) => Ok(()),
        Err(error) => Err(error.to_string()),
    }
}

pub type Pairs = Seq<(Seq<char>, Seq<char>)>;

/// The headers that the entries from `from` on stand for, behind `done`.
pub open spec fn read_headers(
    entries: Seq<EntryModel>,
    from: int,
    span: Span,
    done: Pairs,
) -> Result<Pairs, ErrorModel>
    decreases entries.len() - from,
{
    if from < 0 || from >= entries.len() {
        Ok(done)
    } else {
        let name = entries[from].name;
        if !is_header_name(name) {
            Err(
                error_of(
                    "invalid HTTP header name `"@ + name + "`: "@ + "invalid HTTP header name"@,
                    span,
                ),
            )
        } else {
            match text_of(Some(entries[from].value), "HTTP header value"@, span) {
                Err(error) => Err(error),
                Ok(value) => if !is_header_value(value) {
                    Err(
                        error_of(
                            "invalid HTTP header value: "@ + "failed to parse header value"@,
                            span,
                        ),
                    )
                } else {
                    read_headers(entries, from + 1, span, done.push((lowered(name), value)))
                },
            }
        }
    }
}

fn collect_headers(headers: &Object, span: Span) -> (result: Result<
    Vec<(String, String)>,
    CapabilityError,
>)
    ensures
        (match result {
            Ok(pairs) => Ok(pair_models(pairs@)),
            Err(error) => Err(error.model()),
        }) == read_headers(headers.model(), 0, span, Seq::empty()),
{
    let ghost models = headers.model();
    let mut done: Vec<(String, String)> = Vec::new();
    proof {
        assert(pair_models(done@) =~= Seq::empty());
        assert(models == entry_models(headers.entries@));
    }
    let mut at: usize = 0;
    while at < headers.entries.len()
        invariant
            models == entry_models(headers.entries@),
            at <= headers.entries@.len(),
            read_headers(models, 0, span, Seq::empty()) == read_headers(
                models,
                at as int,
                span,
                pair_models(done@),
            ),
        decreases headers.entries@.len() - at,
    {
        proof {
            assert(models[at as int] == headers.entries@[at as int].model());
        }
        let name: &str = headers.entries[at].name.as_str();
        let small: String = match parse_header_name(name) {
            Ok(small) => small,
            Err(message) => {
                let mut words: String = wrapped("invalid HTTP header name `", name, "`: ");
                words.append(message.as_str());
                return Err(CapabilityError::new(words, span));
            },
        };
        let value: String = match expect_string(
            Some(&headers.entries[at].value),
            "HTTP header value",
            span,
        ) {
            Ok(value) => value,
            Err(error) => {
                return Err(error);
            },
        };
        if let Err(message) = parse_header_value(value.as_str()) {
            let mut words: String = "invalid HTTP header value: ".to_owned();
            words.append(message.as_str());
            return Err(CapabilityError::new(words, span));
        }
        let ghost before = pair_models(done@);
        done.push((small, value));
        proof {
            assert(pair_models(done@) =~= before.push((small@, value@)));
        }
        at += 1;
    }
    Ok(done)
}

pub open spec fn matches_name(name: Seq<char>, other: Seq<char>) -> bool {
    lowered(name) == lowered(other)
}

/// The position of the first entry from `from` on whose name is `name` but
/// for the size of letters.
pub open spec fn find_any_case(entries: Seq<EntryModel>, name: Seq<char>, from: int) -> Option<int>
    decreases entries.len() - from,
{
    if from < 0 || from >= entries.len() {
        None
    } else if matches_name(entries[from].name, name) {
        Some(from)
    } else {
        find_any_case(entries, name, from + 1)
    }
}

fn find_ignoring_case(entries: &Vec<Entry>, name: &str) -> (at: Option<usize>)
    ensures
        crate::plan::optional_number(at) == find_any_case(entry_models(entries@), name@, 0),
        at matches Some(at) ==> at < entries@.len(),
{
    let ghost models = entry_models(entries@);
    let small: String = lowercase(name);
    let mut at: usize = 0;
    while at < entries.len()
        invariant
            models == entry_models(entries@),
            small@ == lowered(name@),
            at <= entries@.len(),
            find_any_case(models, name@, 0) == find_any_case(models, name@, at as int),
        decreases entries@.len() - at,
    {
        proof {
            assert(models[at as int] == entries@[at as int].model());
        }
        let other: String = lowercase(entries[at].name.as_str());
        if same(other.as_str(), small.as_str()) {
            return Some(at);
        }
        at += 1;
    }
    None
}

/// Where the parameters of a media type start.
pub open spec fn media_type(value: Seq<char>) -> Seq<char> {
    trimmed(value.subrange(0, position_of(value, ';', 0)))
}

pub open spec fn ends_with(text: Seq<char>, end: Seq<char>) -> bool {
    text.len() >= end.len() && text.subrange(text.len() - end.len(), text.len() as int) == end
}

pub open spec fn is_json_type(value: Seq<char>) -> bool {
    let media = lowered(media_type(value));
    media == "application/json"@ || ends_with(media, "+json"@)
}

/// Whether a content type announces JSON.
pub fn is_json_content_type(value: &str) -> (yes: bool)
    ensures
        yes == is_json_type(value@),
{
    let chars: Vec<char> = chars_of(value);
    let end: usize = find_char(&chars, ';', 0);
    let media: String = lowercase(trim(text_between(&chars, 0, end).as_str()).as_str());
    if same(media.as_str(), "application/json") {
        return true;
    }
    let letters: Vec<char> = chars_of(media.as_str());
    proof {
        reveal_strlit("+json");
        assert("+json"@.len() == 5);
    }
    if letters.len() < 5 {
        return false;
    }
    let tail: String = text_between(&letters, letters.len() - 5, letters.len());
    same(tail.as_str(), "+json")
}

pub open spec fn has_part(text: Seq<char>, part: Seq<char>, from: int) -> bool
    decreases text.len() - from + 1,
{
    if from < 0 || from + part.len() > text.len() {
        false
    } else {
        text.subrange(from, from + part.len()) == part || has_part(text, part, from + 1)
    }
}

/// Whether the value of a header is not to be shown.
pub open spec fn is_secret_header(name: Seq<char>) -> bool {
    let small = lowered(name);
    small == "authorization"@ || small == "proxy-authorization"@ || small == "cookie"@ || small
        == "set-cookie"@ || small == "x-api-key"@ || small == "api-key"@ || has_part(
        small,
        "token"@,
        0,
    )
}

pub fn sensitive_header(name: &str) -> (yes: bool)
    ensures
        yes == is_secret_header(name@),
{
    let small: String = lowercase(name);
    let text: &str = small.as_str();
    if same(text, "authorization") || same(text, "proxy-authorization") || same(text, "cookie")
        || same(text, "set-cookie") || same(text, "x-api-key") || same(text, "api-key") {
        return true;
    }
    proof {
        reveal_strlit("token");
        assert("token"@.len() == 5);
    }
    let letters: Vec<char> = chars_of(text);
    let mut at: usize = 0;
    while at < letters.len() && letters.len() - at >= 5
        invariant
            at <= letters@.len(),
            letters@ == small@,
            small@ == lowered(name@),
            "token"@.len() == 5,
            has_part(small@, "token"@, 0) == has_part(small@, "token"@, at as int),
        decreases letters@.len() - at,
    {
        let part: String = text_between(&letters, at, at + 5);
        if same(part.as_str(), "token") {
            return true;
        }
        at += 1;
    }
    false
}

// ---------------------------------------------------------------------------
// Bodies

#[derive(Clone, Copy, Debug, PartialEq, Eq, Structural)]
pub enum BodyFormat {
    Json,
    Text,
    Bytes,
}

/// What a request sends.
#[derive(Debug, PartialEq)]
pub enum Body {
    Empty,
    Json(Json),
    Bytes(Vec<u8>),
}

pub enum BodyModel {
    Empty,
    Json(JsonModel),
    Bytes(Seq<u8>),
}

impl Body {
    pub open spec fn model(self) -> BodyModel {
        match self {
            Body::Empty => BodyModel::Empty,
            Body::Json(json) => BodyModel::Json(json.model()),
            Body::Bytes(bytes) => BodyModel::Bytes(bytes@),
        }
    }
}

/// How the options ask for the body to be sent.
pub open spec fn body_format(options: Seq<EntryModel>, span: Span) -> Result<
    Option<BodyFormat>,
    ErrorModel,
> {
    let json = lookup(options, "json"@);
    let body = lookup(options, "body"@);
    let format = lookup(options, "bodyFormat"@);
    if json is Some && body is Some {
        Err(error_of("HTTP request options `json` and `body` cannot be used together"@, span))
    } else if json is Some && format is Some {
        Err(error_of("legacy `json` cannot be combined with `bodyFormat`"@, span))
    } else if format is Some {
        match text_of(format, "bodyFormat"@, span) {
            Err(error) => Err(error),
            Ok(name) => if body is None {
                Err(error_of("`bodyFormat` requires `body`"@, span))
            } else if name == "json"@ {
                Ok(Some(BodyFormat::Json))
            } else if name == "text"@ {
                Ok(Some(BodyFormat::Text))
            } else if name == "bytes"@ {
                Ok(Some(BodyFormat::Bytes))
            } else {
                Err(
                    error_of(
                        "unknown body format `"@ + name + "`; use `json`, `text`, or `bytes`"@,
                        span,
                    ),
                )
            },
        }
    } else if json is Some {
        Ok(Some(BodyFormat::Json))
    } else {
        match body {
            None => Ok(None),
            Some(value) => match value.revealed() {
                ValueModel::Object(_) => Ok(Some(BodyFormat::Json)),
                ValueModel::Array(_) => Ok(Some(BodyFormat::Json)),
                ValueModel::String(_) => Ok(Some(BodyFormat::Text)),
                ValueModel::Bytes(_) => Ok(Some(BodyFormat::Bytes)),
                _ => Err(
                    error_of("this body value requires an explicit `bodyFormat`"@, span),
                ),
            },
        }
    }
}

fn find_format(
    options: &Object,
    span: Span,
) -> (result: Result<Option<BodyFormat>, CapabilityError>)
    ensures
        (match result {
            Ok(format) => Ok(format),
            Err(error) => Err(error.model()),
        }) == body_format(options.model(), span),
{
    let json: Option<&Value> = options.get("json");
    let body: Option<&Value> = options.get("body");
    let format: Option<&Value> = options.get("bodyFormat");
    if json.is_some() && body.is_some() {
        return Err(
            CapabilityError::new(
                "HTTP request options `json` and `body` cannot be used together".to_owned(),
                span,
            ),
        );
    }
    if json.is_some() && format.is_some() {
        return Err(
            CapabilityError::new(
                "legacy `json` cannot be combined with `bodyFormat`".to_owned(),
                span,
            ),
        );
    }
    if format.is_some() {
        let name: String = match expect_string(format, "bodyFormat", span) {
            Ok(name) => name,
            Err(error) => {
                return Err(error);
            },
        };
        if body.is_none() {
            return Err(CapabilityError::new("`bodyFormat` requires `body`".to_owned(), span));
        }
        if same(name.as_str(), "json") {
            return Ok(Some(BodyFormat::Json));
        }
        if same(name.as_str(), "text") {
            return Ok(Some(BodyFormat::Text));
        }
        if same(name.as_str(), "bytes") {
            return Ok(Some(BodyFormat::Bytes));
        }
        return Err(
            CapabilityError::new(
                wrapped(
                    "unknown body format `",
                    name.as_str(),
                    "`; use `json`, `text`, or `bytes`",
                ),
                span,
            ),
        );
    }
    if json.is_some() {
        return Ok(Some(BodyFormat::Json));
    }
    match body {
        None => Ok(None),
        Some(value) => match value.revealed() {
            Value::Object(_) => Ok(Some(BodyFormat::Json)),
            Value::Array(_) => Ok(Some(BodyFormat::Json)),
            Value::String(_) => Ok(Some(BodyFormat::Text)),
            Value::Bytes(_) => Ok(Some(BodyFormat::Bytes)),
            _ => Err(
                CapabilityError::new(
                    "this body value requires an explicit `bodyFormat`".to_owned(),
                    span,
                ),
            ),
        },
    }
}

/// The body in a format.
pub open spec fn body_of(options: Seq<EntryModel>, format: Option<BodyFormat>, span: Span) -> Result<
    BodyModel,
    ErrorModel,
> {
    let payload = match lookup(options, "body"@) {
        Some(value) => Some(value),
        None => lookup(options, "json"@),
    };
    match (format, payload) {
        (Some(BodyFormat::Json), Some(value)) => match encoded(value, span) {
            Ok(json) => Ok(BodyModel::Json(json)),
            Err(error) => Err(error),
        },
        (Some(BodyFormat::Text), Some(value)) => match text_of(Some(value), "body"@, span) {
            Ok(text) => Ok(BodyModel::Bytes(encode_utf8(text))),
            Err(error) => Err(error),
        },
        (Some(BodyFormat::Bytes), Some(value)) => match value.revealed() {
            ValueModel::Bytes(bytes) => Ok(BodyModel::Bytes(bytes)),
            _ => Err(type_fault("body"@, "bytes"@, value.revealed(), span)),
        },
        _ => Ok(BodyModel::Empty),
    }
}

fn make_body(options: &Object, format: Option<BodyFormat>, span: Span) -> (result: Result<
    Body,
    CapabilityError,
>)
    ensures
        (match result {
            Ok(body) => Ok(body.model()),
            Err(error) => Err(error.model()),
        }) == body_of(options.model(), format, span),
{
    let payload: Option<&Value> = match options.get("body") {
        Some(value) => Some(value),
        None => options.get("json"),
    };
    let (format, value): (BodyFormat, &Value) = match (format, payload) {
        (Some(format), Some(value)) => (format, value),
        _ => {
            return Ok(Body::Empty);
        },
    };
    match format {
        BodyFormat::Json => match to_json(value, span) {
            Ok(json) => Ok(Body::Json(json)),
            Err(error) => Err(error),
        },
        BodyFormat::Text => match expect_string(Some(value), "body", span) {
            Ok(text) => Ok(Body::Bytes(text.as_str().as_bytes_vec())),
            Err(error) => Err(error),
        },
        BodyFormat::Bytes => {
            let inner: &Value = value.revealed();
            match inner {
                Value::Bytes(bytes) => Ok(Body::Bytes(copied_bytes(bytes))),
                _ => Err(type_error("body", "bytes", inner, span)),
            }
        },
    }
}

/// The content type that is added where the options name none; a JSON body
/// takes no other than a JSON type.
pub open spec fn added_type(
    headers: Option<Seq<EntryModel>>,
    format: Option<BodyFormat>,
    span: Span,
) -> Result<Option<Seq<char>>, ErrorModel> {
    let given = match headers {
        Some(entries) => match find_any_case(entries, "content-type"@, 0) {
            Some(at) => Some(entries[at].value),
            None => None,
        },
        None => None,
    };
    match (format, given) {
        (Some(BodyFormat::Json), Some(value)) => match text_of(
            Some(value),
            "Content-Type header"@,
            span,
        ) {
            Err(error) => Err(error),
            Ok(text) => if is_json_type(text) {
                Ok(None)
            } else {
                Err(
                    error_of(
                        "JSON request body requires a JSON Content-Type, found `"@ + text + "`"@,
                        span,
                    ),
                )
            },
        },
        (Some(BodyFormat::Json), None) => Ok(Some("application/json"@)),
        (Some(BodyFormat::Text), None) => Ok(Some("text/plain; charset=utf-8"@)),
        (Some(BodyFormat::Bytes), None) => Ok(Some("application/octet-stream"@)),
        _ => Ok(None),
    }
}

fn choose_type(headers: Option<&Object>, format: Option<BodyFormat>, span: Span) -> (result: Result<
    Option<String>,
    CapabilityError,
>)
    ensures
        (match result {
            Ok(text) => Ok(optional_text(text)),
            Err(error) => Err(error.model()),
        }) == added_type(
            (match headers {
                Some(headers) => Some(headers.model()),
                None => None,
            }),
            format,
            span,
        ),
{
    let mut given: Option<&Value> = None;
    if let Some(headers) = headers {
        proof {
            assert(headers.model() == entry_models(headers.entries@));
        }
        if let Some(at) = find_ignoring_case(&headers.entries, "content-type") {
            proof {
                assert(headers.model()[at as int] == headers.entries@[at as int].model());
                assert(
                    headers.model()[at as int].value == headers.entries@[at as int].value.model()
                );
            }
            given = Some(&headers.entries[at].value);
        }
    }
    match format {
        None => Ok(None),
        Some(BodyFormat::Json) => match given {
            Some(value) => match expect_string(Some(value), "Content-Type header", span) {
                Err(error) => Err(error),
                Ok(text) => {
                    if is_json_content_type(text.as_str()) {
                        Ok(None)
                    } else {
                        Err(
                            CapabilityError::new(
                                wrapped(
                                    "JSON request body requires a JSON Content-Type, found `",
                                    text.as_str(),
                                    "`",
                                ),
                                span,
                            ),
                        )
                    }
                },
            },
            None => Ok(Some("application/json".to_owned())),
        },
        Some(BodyFormat::Text) => match given {
            Some(_) => Ok(None),
            None => Ok(Some("text/plain; charset=utf-8".to_owned())),
        },
        Some(BodyFormat::Bytes) => match given {
            Some(_) => Ok(None),
            None => Ok(Some("application/octet-stream".to_owned())),
        },
    }
}

/// The headers of a request with a body in a format.
pub open spec fn request_headers(
    options: Seq<EntryModel>,
    format: Option<BodyFormat>,
    span: Span,
) -> Result<Pairs, ErrorModel> {
    let (entries, given) = match lookup(options, "headers"@) {
        None => (None, Ok(Seq::empty())),
        Some(ValueModel::Object(entries)) => (
            Some(entries),
            read_headers(entries, 0, span, Seq::empty()),
        ),
        Some(other) => (
            None,
            Err(type_fault("headers"@, "object containing string values"@, other, span)),
        ),
    };
    match given {
        Err(error) => Err(error),
        Ok(pairs) => match added_type(entries, format, span) {
            Err(error) => Err(error),
            Ok(Some(value)) => Ok(pairs.push(("content-type"@, value))),
            Ok(None) => Ok(pairs),
        },
    }
}

fn make_headers(options: &Object, format: Option<BodyFormat>, span: Span) -> (result: Result<
    Vec<(String, String)>,
    CapabilityError,
>)
    ensures
        (match result {
            Ok(pairs) => Ok(pair_models(pairs@)),
            Err(error) => Err(error.model()),
        }) == request_headers(options.model(), format, span),
{
    let mut pairs: Vec<(String, String)> = Vec::new();
    let mut headers: Option<&Object> = None;
    proof {
        assert(pair_models(pairs@) =~= Seq::empty());
    }
    match options.get("headers") {
        None => {},
        Some(value) => match value {
            Value::Object(object) => {
                headers = Some(object);
                pairs = match collect_headers(object, span) {
                    Ok(pairs) => pairs,
                    Err(error) => {
                        return Err(error);
                    },
                };
            },
            _ => {
                return Err(
                    type_error("headers", "object containing string values", value, span),
                );
            },
        },
    }
    match choose_type(headers, format, span) {
        Err(error) => Err(error),
        Ok(None) => Ok(pairs),
        Ok(Some(value)) => {
            let ghost before = pair_models(pairs@);
            pairs.push(("content-type".to_owned(), value));
            proof {
                assert(pair_models(pairs@) =~= before.push(("content-type"@, value@)));
            }
            Ok(pairs)
        },
    }
}

// ---------------------------------------------------------------------------
// Requests

/// A request that is ready to be sent.
#[derive(Debug, PartialEq)]
pub struct PreparedRequest {
    pub method: String,
    pub url: String,
    pub url_sensitive: bool,
    pub timeout: Duration,
    pub max_response_bytes: usize,
    pub verify_certificates: bool,
    pub headers: Vec<(String, String)>,
    pub body: Body,
}

pub struct RequestModel {
    pub method: Seq<char>,
    pub url: Seq<char>,
    pub url_sensitive: bool,
    pub timeout: Duration,
    pub max_response_bytes: usize,
    pub verify_certificates: bool,
    pub headers: Pairs,
    pub body: BodyModel,
}

impl PreparedRequest {
    pub open spec fn model(self) -> RequestModel {
        RequestModel {
            method: self.method@,
            url: self.url@,
            url_sensitive: self.url_sensitive,
            timeout: self.timeout,
            max_response_bytes: self.max_response_bytes,
            verify_certificates: self.verify_certificates,
            headers: pair_models(self.headers@),
            body: self.body.model(),
        }
    }
}

/// The method of each operation.
pub open spec fn method_of(operation: int) -> Option<Seq<char>> {
    if operation == 0 {
        Some("GET"@)
    } else if operation == 1 {
        Some("POST"@)
    } else if operation == 2 {
        Some("PUT"@)
    } else if operation == 3 {
        Some("PATCH"@)
    } else if operation == 4 {
        Some("DELETE"@)
    } else if operation == 5 {
        Some("HEAD"@)
    } else if operation == 6 {
        Some("OPTIONS"@)
    } else {
        None
    }
}

fn method_name(operation: usize) -> (name: Option<&'static str>)
    ensures
        (match name {
            Some(name) => Some(name@),
            None => None,
        }) == method_of(operation as int),
{
    if operation == 0 {
        Some("GET")
    } else if operation == 1 {
        Some("POST")
    } else if operation == 2 {
        Some("PUT")
    } else if operation == 3 {
        Some("PATCH")
    } else if operation == 4 {
        Some("DELETE")
    } else if operation == 5 {
        Some("HEAD")
    } else if operation == 6 {
        Some("OPTIONS")
    } else {
        None
    }
}

pub open spec fn first_argument(arguments: Seq<ValueModel>) -> Option<ValueModel> {
    if arguments.len() > 0 {
        Some(arguments[0])
    } else {
        None
    }
}

pub open spec fn marks(value: Option<ValueModel>) -> bool {
    match value {
        Some(value) => value.contains_sensitive(),
        None => false,
    }
}

/// Whether the URL of a request may not be shown.
pub open spec fn url_marked(arguments: Seq<ValueModel>, options: Seq<EntryModel>) -> bool {
    marks(first_argument(arguments)) || marks(lookup(options, "baseUrl"@))
}

/// What an operation sends to.
pub open spec fn target_of(
    operation: int,
    arguments: Seq<ValueModel>,
    options: Seq<EntryModel>,
    span: Span,
) -> Result<(Seq<char>, Seq<char>), ErrorModel> {
    match method_of(operation) {
        None => Err(error_of("HTTP execution plan references an unknown operation"@, span)),
        Some(method) => match text_of(first_argument(arguments), "HTTP URL"@, span) {
            Err(error) => Err(error),
            Ok(path) => match resolved_url(path, options, span) {
                Err(error) => Err(error),
                Ok(url) => Ok((method, url)),
            },
        },
    }
}

/// The method and URL of an operation.
pub fn request_target(operation: usize, arguments: &Vec<Value>, options: &Object, span: Span) -> (
    result: Result<(String, String), CapabilityError>)
    ensures
        (match result {
            Ok((method, url)) => Ok((method@, url@)),
            Err(error) => Err(error.model()),
        }) == target_of(operation as int, value_models(arguments@), options.model(), span),
{
    let method: &'static str = match method_name(operation) {
        Some(method) => method,
        None => {
            return Err(
                CapabilityError::new(
                    "HTTP execution plan references an unknown operation".to_owned(),
                    span,
                ),
            );
        },
    };
    let mut first: Option<&Value> = None;
    if arguments.len() > 0 {
        proof {
            assert(value_models(arguments@)[0] == arguments@[0].model());
        }
        first = Some(&arguments[0]);
    }
    let path: String = match expect_string(first, "HTTP URL", span) {
        Ok(path) => path,
        Err(error) => {
            return Err(error);
        },
    };
    match resolve_url(path.as_str(), options, span) {
        Ok(url) => Ok((method.to_owned(), url)),
        Err(error) => Err(error),
    }
}

fn is_url_marked(arguments: &Vec<Value>, options: &Object) -> (yes: bool)
    ensures
        yes == url_marked(value_models(arguments@), options.model()),
{
    if arguments.len() > 0 {
        proof {
            assert(value_models(arguments@)[0] == arguments@[0].model());
        }
        if arguments[0].contains_sensitive() {
            return true;
        }
    }
    match options.get("baseUrl") {
        Some(value) => value.contains_sensitive(),
        None => false,
    }
}

/// The deadline of a request without one of its own.
pub open spec fn usual_timeout() -> Duration {
    Duration { nanos: 30_000_000_000 }
}

/// What an operation sends once its URL was read as `scheme` tells.
pub open spec fn prepared_with(
    operation: int,
    arguments: Seq<ValueModel>,
    options: Seq<EntryModel>,
    scheme: Result<Option<Seq<char>>, Seq<char>>,
    span: Span,
) -> Result<RequestModel, ErrorModel> {
    match target_of(operation, arguments, options, span) {
        Err(error) => Err(error),
        Ok((method, url)) => match url_fault(url, scheme, span) {
            Some(error) => Err(error),
            None => match duration_option(options, "timeout"@, usual_timeout(), span) {
                Err(error) => Err(error),
                Ok(timeout) => match size_option(options, "maxResponseBytes"@, 10_485_760, span) {
                    Err(error) => Err(error),
                    Ok(max_response_bytes) => match verify_option(options, span) {
                        Err(error) => Err(error),
                        Ok(verify_certificates) => match body_format(options, span) {
                            Err(error) => Err(error),
                            Ok(format) => match body_of(options, format, span) {
                                Err(error) => Err(error),
                                Ok(body) => match request_headers(options, format, span) {
                                    Err(error) => Err(error),
                                    Ok(headers) => Ok(
                                        RequestModel {
                                            method,
                                            url,
                                            url_sensitive: url_marked(arguments, options),
                                            timeout,
                                            max_response_bytes,
                                            verify_certificates,
                                            headers,
                                            body,
                                        },
                                    ),
                                },
                            },
                        },
                    },
                },
            },
        },
    }
}

pub open spec fn request_result(result: Result<PreparedRequest, CapabilityError>) -> Result<
    RequestModel,
    ErrorModel,
> {
    match result {
        Ok(request) => Ok(request.model()),
        Err(error) => Err(error.model()),
    }
}

/// Prepares a request whose URL was read as `scheme` tells.
pub fn prepare_with(
    operation: usize,
    arguments: &Vec<Value>,
    options: &Object,
    scheme: &Result<Option<String>, String>,
    span: Span,
) -> (result: Result<PreparedRequest, CapabilityError>)
    ensures
        request_result(result) == prepared_with(
            operation as int,
            value_models(arguments@),
            options.model(),
            scheme_model(*scheme),
            span,
        ),
{
    let (method, url): (String, String) = match request_target(
        operation,
        arguments,
        options,
        span,
    ) {
        Ok(target) => target,
        Err(error) => {
            return Err(error);
        },
    };
    if let Some(error) = check_url(url.as_str(), scheme, span) {
        return Err(error);
    }
    let usual: Duration = Duration { nanos: 30_000_000_000 };
    let timeout: Duration = match option_duration(options, "timeout", usual, span) {
        Ok(timeout) => timeout,
        Err(error) => {
            return Err(error);
        },
    };
    let max_response_bytes: usize = match option_usize(
        options,
        "maxResponseBytes",
        10_485_760,
        span,
    ) {
        Ok(size) => size,
        Err(error) => {
            return Err(error);
        },
    };
    let verify_certificates: bool = match option_verify(options, span) {
        Ok(verify) => verify,
        Err(error) => {
            return Err(error);
        },
    };
    let format: Option<BodyFormat> = match find_format(options, span) {
        Ok(format) => format,
        Err(error) => {
            return Err(error);
        },
    };
    let body: Body = match make_body(options, format, span) {
        Ok(body) => body,
        Err(error) => {
            return Err(error);
        },
    };
    let headers: Vec<(String, String)> = match make_headers(options, format, span) {
        Ok(headers) => headers,
        Err(error) => {
            return Err(error);
        },
    };
    Ok(
        PreparedRequest {
            method,
            url,
            url_sensitive: is_url_marked(arguments, options),
            timeout,
            max_response_bytes,
            verify_certificates,
            headers,
            body,
        },
    )
}

/// What an operation sends.
pub open spec fn prepared(
    operation: int,
    arguments: Seq<ValueModel>,
    options: Seq<EntryModel>,
    span: Span,
) -> Result<RequestModel, ErrorModel> {
    match target_of(operation, arguments, options, span) {
        Err(error) => Err(error),
        Ok((method, url)) => prepared_with(operation, arguments, options, uri_scheme(url), span),
    }
}

/// Prepares a request.
pub fn prepare(operation: usize, arguments: &Vec<Value>, options: &Object, span: Span) -> (result:
    Result<PreparedRequest, CapabilityError>)
    ensures
        request_result(result) == prepared(
            operation as int,
            value_models(arguments@),
            options.model(),
            span,
        ),
{
    match request_target(operation, arguments, options, span) {
        Err(error) => Err(error),
        Ok((_, url)) => {
            let scheme: Result<Option<String>, String> = parse_uri(url.as_str());
            prepare_with(operation, arguments, options, &scheme, span)
        },
    }
}

// ---------------------------------------------------------------------------
// Responses

pub open spec fn over_limit(limit: nat, span: Span) -> ErrorModel {
    error_of("HTTP response exceeded the "@ + decimal(limit) + " byte limit"@, span)
}

fn limit_error(limit: usize, span: Span) -> (error: CapabilityError)
    ensures
        error.model() == over_limit(limit as nat, span),
{
    let digits: String = decimal_text(limit as u128);
    CapabilityError::new(
        wrapped("HTTP response exceeded the ", digits.as_str(), " byte limit"),
        span,
    )
}

/// The number that the digits from `from` on make up behind `value`, if it is
/// one of 64 bits.
pub open spec fn digits_from(text: Seq<char>, from: int, value: nat) -> Option<nat>
    decreases text.len() - from,
{
    if from < 0 || from >= text.len() {
        Some(value)
    } else if !is_digit(text[from]) {
        None
    } else {
        let next = value * 10 + (text[from] as u32 - 48) as nat;
        if next > u64::MAX {
            None
        } else {
            digits_from(text, from + 1, next)
        }
    }
}

/// A length: digits, with a plus sign before them or without one.
pub open spec fn length_of(text: Seq<char>) -> Option<nat> {
    let from = if text.len() > 0 && text[0] == '+' {
        1int
    } else {
        0
    };
    if from >= text.len() {
        None
    } else {
        digits_from(text, from, 0)
    }
}

fn parse_length(text: &str) -> (length: Option<u64>)
    ensures
        (match length {
            Some(length) => Some(length as nat),
            None => None,
        }) == length_of(text@),
{
    let chars: Vec<char> = chars_of(text);
    let mut at: usize = 0;
    if chars.len() > 0 && chars[0] == '+' {
        at = 1;
    }
    if at >= chars.len() {
        return None;
    }
    let ghost start = at as int;
    let mut value: u64 = 0;
    while at < chars.len()
        invariant
            start <= at <= chars@.len(),
            start >= 0,
            chars@ == text@,
            digits_from(text@, start, 0) == digits_from(text@, at as int, value as nat),
            length_of(text@) == digits_from(text@, start, 0),
        decreases chars@.len() - at,
    {
        if !digit_char(chars[at]) {
            return None;
        }
        let digit: u64 = (chars[at] as u32 - 48) as u64;
        if value > (u64::MAX - digit) / 10 {
            return None;
        }
        value = value * 10 + digit;
        at += 1;
    }
    Some(value)
}

/// Complaints about a length that the response announces.
pub open spec fn length_fault(
    method: Seq<char>,
    announced: Option<Seq<char>>,
    limit: usize,
    span: Span,
) -> Option<ErrorModel> {
    match announced {
        Some(text) => match length_of(text) {
            Some(length) => if method != "HEAD"@ && length > limit {
                Some(over_limit(limit as nat, span))
            } else {
                None
            },
            None => None,
        },
        None => None,
    }
}

/// Refuses a response that announces more than the limit.
pub fn check_length(method: &str, announced: Option<&str>, limit: usize, span: Span) -> (fault: Option<
    CapabilityError,
>)
    ensures
        (match fault {
            Some(fault) => Some(fault.model()),
            None => None,
        }) == length_fault(
            method@,
            (match announced {
                Some(text) => Some(text@),
                None => None,
            }),
            limit,
            span,
        ),
{
    if same(method, "HEAD") {
        return None;
    }
    match announced {
        Some(text) => match parse_length(text) {
            Some(length) => {
                if length as u128 > limit as u128 {
                    Some(limit_error(limit, span))
                } else {
                    None
                }
            },
            None => None,
        },
        None => None,
    }
}

/// Takes another part of a body, unless it goes over the limit.
pub fn extend_body(bytes: &mut Vec<u8>, part: &Vec<u8>, limit: usize, span: Span) -> (fault: Option<
    CapabilityError,
>)
    ensures
        old(bytes)@.len() + part@.len() > limit ==> fault is Some && fault->0.model() == over_limit(
            limit as nat,
            span,
        ) && final(bytes)@ == old(bytes)@,
        old(bytes)@.len() + part@.len() <= limit ==> fault is None && final(bytes)@ == old(bytes)@
            + part@,
{
    if part.len() > limit || bytes.len() > limit - part.len() {
        return Some(limit_error(limit, span));
    }
    let ghost before = bytes@;
    let mut at: usize = 0;
    proof {
        assert(before + part@.take(0) =~= before);
    }
    while at < part.len()
        invariant
            at <= part@.len(),
            bytes@ == before + part@.take(at as int),
        decreases part@.len() - at,
    {
        bytes.push(part[at]);
        proof {
            assert(before + part@.take(at + 1) =~= (before + part@.take(at as int)).push(
                part@[at as int],
            ));
        }
        at += 1;
    }
    proof {
        assert(part@.take(part@.len() as int) =~= part@);
    }
    None
}

/// The text that bytes show, with a sign in place of what is no UTF-8.
pub uninterp spec fn lossy_text(bytes: Seq<u8>) -> Seq<char>;

/// Reads bytes with `String::from_utf8_lossy`. What is UTF-8 comes out as it
/// is; how the rest is shown is given by name only.
#[verifier::external_body]
fn read_lossy(bytes: &Vec<u8>) -> (text: String)
    ensures
        text@ == lossy_text(bytes@),
        valid_utf8(bytes@) ==> text@ == decode_utf8(bytes@),
{
    String::from_utf8_lossy(bytes.as_slice()).into_owned()
}

/// The bytes of a body; a document was encoded as `encoded` tells.
pub open spec fn body_bytes(
    body: BodyModel,
    encoded: Result<Seq<u8>, Seq<char>>,
    span: Span,
) -> Result<Seq<u8>, ErrorModel> {
    match body {
        BodyModel::Empty => Ok(Seq::empty()),
        BodyModel::Bytes(bytes) => Ok(bytes),
        BodyModel::Json(_) => match encoded {
            Ok(bytes) => Ok(bytes),
            Err(message) => Err(error_of("could not encode JSON request: "@ + message, span)),
        },
    }
}

/// How the document of a body is encoded.
pub open spec fn body_encoding(body: BodyModel) -> Result<Seq<u8>, Seq<char>> {
    match body {
        BodyModel::Json(json) => compact(settled(json)),
        _ => Ok(Seq::empty()),
    }
}

pub open spec fn bytes_or_error(result: Result<Vec<u8>, CapabilityError>) -> Result<
    Seq<u8>,
    ErrorModel,
> {
    match result {
        Ok(bytes) => Ok(bytes@),
        Err(error) => Err(error.model()),
    }
}

/// The bytes of a body whose document was encoded as `encoded` tells.
pub fn body_with(body: &Body, encoded: Result<Vec<u8>, String>, span: Span) -> (result: Result<
    Vec<u8>,
    CapabilityError,
>)
    ensures
        bytes_or_error(result) == body_bytes(body.model(), bytes_model(encoded), span),
{
    match body {
        Body::Empty => Ok(Vec::new()),
        Body::Bytes(bytes) => Ok(copied_bytes(bytes)),
        Body::Json(_) => match encoded {
            Ok(bytes) => Ok(bytes),
            Err(message) => {
                let mut words: String = "could not encode JSON request: ".to_owned();
                words.append(message.as_str());
                Err(CapabilityError::new(words, span))
            },
        },
    }
}

/// The bytes of a body.
pub fn encode_body(body: &Body, span: Span) -> (result: Result<Vec<u8>, CapabilityError>)
    ensures
        bytes_or_error(result) == body_bytes(body.model(), body_encoding(body.model()), span),
{
    let encoded: Result<Vec<u8>, String> = match body {
        Body::Json(json) => encode(json),
        _ => Ok(Vec::new()),
    };
    body_with(body, encoded, span)
}

/// A response with the texts of its headers.
#[derive(Debug, PartialEq)]
pub struct Response {
    pub status: u16,
    pub headers: Vec<(String, String)>,
    /// The content type, where it is a plain text.
    pub content_type: Option<String>,
    pub bytes: Vec<u8>,
    pub duration: Duration,
}

/// The headers by name from `from` on; a later one takes the place.
pub open spec fn header_entries(headers: Pairs, from: int, done: Seq<EntryModel>) -> Seq<EntryModel>
    decreases headers.len() - from,
{
    if from < 0 || from >= headers.len() {
        done
    } else {
        let (name, text) = headers[from];
        header_entries(
            headers,
            from + 1,
            inserted(
                done,
                name,
                if is_secret_header(name) {
                    ValueModel::String(text).sensitive()
                } else {
                    ValueModel::String(text)
                },
            ),
        )
    }
}

fn show_headers(headers: &Vec<(String, String)>) -> (object: Object)
    ensures
        object.model() == header_entries(pair_models(headers@), 0, Seq::empty()),
{
    let ghost models = pair_models(headers@);
    let mut object: Object = Object::new();
    let mut at: usize = 0;
    while at < headers.len()
        invariant
            models == pair_models(headers@),
            at <= headers@.len(),
            header_entries(models, 0, Seq::empty()) == header_entries(
                models,
                at as int,
                object.model(),
            ),
        decreases headers@.len() - at,
    {
        let text: Value = Value::String(headers[at].1.clone());
        let value: Value = if sensitive_header(headers[at].0.as_str()) {
            text.sensitive()
        } else {
            text
        };
        object.insert(headers[at].0.clone(), value);
        at += 1;
    }
    object
}

/// The body as a value: nothing where it need not be JSON and is none.
pub open spec fn body_value(
    decoded_body: Result<JsonModel, Seq<char>>,
    empty: bool,
    declares_json: bool,
    span: Span,
) -> Result<ValueModel, ErrorModel> {
    match decoded_body {
        Ok(json) => match decoded(json, span) {
            Ok(value) => Ok(value),
            Err(error) => if declares_json {
                Err(error)
            } else {
                Ok(ValueModel::Null)
            },
        },
        Err(message) => if empty || !declares_json {
            Ok(ValueModel::Null)
        } else {
            Err(
                error_of(
                    "HTTP response declared JSON but its body could not be decoded: "@ + message,
                    span,
                ),
            )
        },
    }
}

fn read_body(decoded: &Result<Json, String>, empty: bool, declares_json: bool, span: Span) -> (
    result: Result<Value, CapabilityError>)
    ensures
        value_or_error(result) == body_value(
            decoded_model(*decoded),
            empty,
            declares_json,
            span,
        ),
{
    match decoded {
        Ok(json) => match from_json(json, span) {
            Ok(value) => Ok(value),
            Err(error) => {
                if declares_json {
                    Err(error)
                } else {
                    Ok(Value::Null)
                }
            },
        },
        Err(message) => {
            if empty || !declares_json {
                Ok(Value::Null)
            } else {
                let mut words: String =
                    "HTTP response declared JSON but its body could not be decoded: ".to_owned();
                words.append(message.as_str());
                Err(CapabilityError::new(words, span))
            }
        },
    }
}

/// What an operation comes to: the parts of the response by name.
pub open spec fn response_entries(
    text: Seq<char>,
    bytes: Seq<u8>,
    duration: Duration,
    headers: Seq<EntryModel>,
    json: ValueModel,
    method: Seq<char>,
    status: u16,
    url: ValueModel,
) -> Seq<EntryModel> {
    let none = Seq::<EntryModel>::empty();
    let one = inserted(none, "body"@, ValueModel::String(text));
    let two = inserted(one, "bodyBytes"@, ValueModel::Bytes(bytes));
    let three = inserted(two, "duration"@, ValueModel::Duration(duration));
    let four = inserted(three, "headers"@, ValueModel::Object(headers));
    let five = inserted(four, "json"@, json);
    let six = inserted(five, "method"@, ValueModel::String(method));
    let seven = inserted(six, "status"@, ValueModel::Integer(status as i64));
    inserted(seven, "url"@, url)
}

pub open spec fn declares(content_type: Option<Seq<char>>) -> bool {
    match content_type {
        Some(text) => is_json_type(text),
        None => false,
    }
}

/// The value that an operation comes to with a response whose bytes show
/// `text`, and were read as the document `json`.
pub open spec fn completed(
    request: RequestModel,
    response: Response,
    text: Seq<char>,
    json: Result<JsonModel, Seq<char>>,
    span: Span,
) -> Result<ValueModel, ErrorModel> {
    match body_value(
        json,
        response.bytes@.len() == 0,
        declares(optional_text(response.content_type)),
        span,
    ) {
        Err(error) => Err(error),
        Ok(json) => Ok(
            ValueModel::Object(
                response_entries(
                    text,
                    response.bytes@,
                    response.duration,
                    header_entries(pair_models(response.headers@), 0, Seq::empty()),
                    json,
                    request.method,
                    response.status,
                    if request.url_sensitive {
                        ValueModel::String(request.url).sensitive()
                    } else {
                        ValueModel::String(request.url)
                    },
                ),
            ),
        ),
    }
}

/// What an operation comes to with a response whose bytes show `text`, and were
/// read as the document `json`.
pub fn complete_with(
    request: &PreparedRequest,
    response: &Response,
    text: String,
    json: &Result<Json, String>,
    span: Span,
) -> (result: Result<Value, CapabilityError>)
    ensures
        value_or_error(result) == completed(
            request.model(),
            *response,
            text@,
            decoded_model(*json),
            span,
        ),
{
    let declares_json: bool = match &response.content_type {
        Some(text) => is_json_content_type(text.as_str()),
        None => false,
    };
    let json: Value = match read_body(
        json,
        response.bytes.len() == 0,
        declares_json,
        span,
    ) {
        Ok(json) => json,
        Err(error) => {
            return Err(error);
        },
    };
    let url: Value = Value::String(request.url.clone());
    let url: Value = if request.url_sensitive {
        url.sensitive()
    } else {
        url
    };
    let mut object: Object = Object::new();
    object.insert("body".to_owned(), Value::String(text));
    object.insert("bodyBytes".to_owned(), Value::Bytes(copied_bytes(&response.bytes)));
    object.insert("duration".to_owned(), Value::Duration(response.duration));
    object.insert("headers".to_owned(), Value::Object(show_headers(&response.headers)));
    object.insert("json".to_owned(), json);
    object.insert("method".to_owned(), Value::String(request.method.clone()));
    object.insert("status".to_owned(), Value::Integer(response.status as i64));
    object.insert("url".to_owned(), url);
    Ok(Value::Object(object))
}

/// What an operation comes to with a response.
pub fn complete(request: &PreparedRequest, response: &Response, span: Span) -> (result: Result<
    Value,
    CapabilityError,
>)
    ensures
        value_or_error(result) == completed(
            request.model(),
            *response,
            lossy_text(response.bytes@),
            parsed(response.bytes@),
            span,
        ),
{
    let text: String = read_lossy(&response.bytes);
    let json: Result<Json, String> = decode(&response.bytes);
    complete_with(request, response, text, &json, span)
}

/// The error of a request that took too long.
pub fn timeout_error(timeout: Duration, span: Span) -> (error: CapabilityError)
    ensures
        error.model() == error_of(
            "HTTP request exceeded its "@ + decimal((timeout.nanos / 1_000_000) as nat)
                + " ms timeout"@,
            span,
        ),
{
    let digits: String = decimal_text(timeout.nanos / 1_000_000);
    CapabilityError::new(
        wrapped("HTTP request exceeded its ", digits.as_str(), " ms timeout"),
        span,
    )
}

// ---------------------------------------------------------------------------
// Options over options

/// The headers with one more; one of the same name but for the size of
/// letters gives way to it.
pub open spec fn with_header(entries: Seq<EntryModel>, entry: EntryModel) -> Seq<EntryModel> {
    match find_any_case(entries, entry.name, 0) {
        Some(at) => inserted(
            removed(entries, entries[at].name),
            entry.name,
            entry.value,
        ),
        None => inserted(entries, entry.name, entry.value),
    }
}

/// The headers with those of `incoming` from `from` on.
pub open spec fn with_headers(entries: Seq<EntryModel>, incoming: Seq<EntryModel>, from: int) -> Seq<
    EntryModel,
>
    decreases incoming.len() - from,
{
    if from < 0 || from >= incoming.len() {
        entries
    } else {
        with_headers(with_header(entries, incoming[from]), incoming, from + 1)
    }
}

/// The options with the headers of others.
pub open spec fn with_incoming(options: Seq<EntryModel>, incoming: Option<ValueModel>) -> Seq<
    EntryModel,
> {
    match incoming {
        Some(ValueModel::Object(headers)) => match lookup(options, "headers"@) {
            None => inserted(
                options,
                "headers"@,
                ValueModel::Object(with_headers(Seq::empty(), headers, 0)),
            ),
            Some(ValueModel::Object(current)) => inserted(
                options,
                "headers"@,
                ValueModel::Object(with_headers(current, headers, 0)),
            ),
            _ => options,
        },
        _ => options,
    }
}

/// The options with others laid over them.
pub open spec fn options_over(options: Seq<EntryModel>, overrides: Seq<EntryModel>) -> Seq<
    EntryModel,
> {
    merged(
        with_incoming(options, lookup(overrides, "headers"@)),
        removed(overrides, "headers"@),
        0,
    )
}

fn add_headers(headers: &mut Object, incoming: &Object)
    ensures
        final(headers).model() == with_headers(old(headers).model(), incoming.model(), 0),
{
    let ghost models = incoming.model();
    let ghost start = headers.model();
    proof {
        assert(models == entry_models(incoming.entries@));
    }
    let mut at: usize = 0;
    while at < incoming.entries.len()
        invariant
            models == entry_models(incoming.entries@),
            at <= incoming.entries@.len(),
            with_headers(start, models, 0) == with_headers(headers.model(), models, at as int),
        decreases incoming.entries@.len() - at,
    {
        proof {
            assert(models[at as int] == incoming.entries@[at as int].model());
            assert(headers.model() == entry_models(headers.entries@));
        }
        let name: &str = incoming.entries[at].name.as_str();
        if let Some(found) = find_ignoring_case(&headers.entries, name) {
            proof {
                assert(headers.model()[found as int] == headers.entries@[found as int].model());
            }
            let old_name: String = headers.entries[found].name.clone();
            let _gone: Option<Value> = headers.remove(old_name.as_str());
        }
        headers.insert(name.to_owned(), incoming.entries[at].value.duplicate());
        at += 1;
    }
}

/// Lays options over defaults: headers by their names in any case, everything
/// else by name, objects into objects.
pub fn merge_options(defaults: &mut Object, overrides: Object)
    ensures
        final(defaults).model() == options_over(old(defaults).model(), overrides.model()),
{
    let mut rest: Object = overrides;
    let incoming: Option<Value> = rest.remove("headers");
    if let Some(Value::Object(headers)) = incoming {
        let mut current: Option<Object> = None;
        match defaults.get("headers") {
            None => {
                current = Some(Object::new());
            },
            Some(value) => {
                if let Value::Object(object) = value {
                    current = Some(object.duplicate());
                }
            },
        }
        if let Some(mut merged) = current {
            add_headers(&mut merged, &headers);
            defaults.insert("headers".to_owned(), Value::Object(merged));
        }
    }
    merge_objects(defaults, rest);
}

} // verus!
