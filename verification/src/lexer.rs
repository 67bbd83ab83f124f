//! From source text to tokens.

use vstd::arithmetic::power::*;
use vstd::prelude::*;
use vstd::string::*;
use vstd::utf8::*;

use crate::binary64::{
    decimal_encoding, digits_value, lemma_decimal_large, lemma_decimal_small, nearest_decimal,
    Binary64, INFINITY, SIGN,
};
use crate::syntax::{error_of, span_of, ErrorModel, Span, SyntaxError};
use crate::text::{
    byte_offset_of, char_width, chars_of, digit_char, is_digit, is_letter, letter_char, same,
    text_between, width_of, wrapped,
};

verus! {

/// Keywords, punctuation and the end of the file.
#[derive(Clone, Copy, Debug, PartialEq, Eq, Structural)]
pub enum Mark {
    If,
    For,
    In,
    Else,
    And,
    Or,
    Not,
    Mettle,
    Test,
    Context,
    Namespace,
    Defaults,
    Use,
    Return,
    Assert,
    Fail,
    Within,
    Retry,
    Parallel,
    Rate,
    Concurrency,
    True,
    False,
    Null,
    LeftBrace,
    RightBrace,
    LeftBracket,
    RightBracket,
    LeftParen,
    RightParen,
    Comma,
    Colon,
    Equal,
    EqualEqual,
    BangEqual,
    Less,
    LessEqual,
    Greater,
    GreaterEqual,
    Dot,
    Minus,
    End,
}

#[derive(Debug, PartialEq)]
pub enum TokenKind {
    Mark(Mark),
    Identifier(String),
    Integer(i64),
    Float(Binary64),
    DurationNanos(u64),
    String(String),
}

pub enum TokenKindModel {
    Mark(Mark),
    Identifier(Seq<char>),
    Integer(i64),
    Float(Binary64),
    DurationNanos(u64),
    String(Seq<char>),
}

impl TokenKind {
    pub open spec fn model(self) -> TokenKindModel {
        match self {
            TokenKind::Mark(mark) => TokenKindModel::Mark(mark),
            TokenKind::Identifier(name) => TokenKindModel::Identifier(name@),
            TokenKind::Integer(value) => TokenKindModel::Integer(value),
            TokenKind::Float(value) => TokenKindModel::Float(value),
            TokenKind::DurationNanos(value) => TokenKindModel::DurationNanos(value),
            TokenKind::String(value) => TokenKindModel::String(value@),
        }
    }
}

/// A token; `fresh_line` tells whether a line break stands between it and the
/// token before it.
#[derive(Debug, PartialEq)]
pub struct Token {
    pub kind: TokenKind,
    pub span: Span,
    pub fresh_line: bool,
}

pub struct TokenModel {
    pub kind: TokenKindModel,
    pub span: Span,
    pub fresh_line: bool,
}

impl Token {
    pub open spec fn model(self) -> TokenModel {
        TokenModel { kind: self.kind.model(), span: self.span, fresh_line: self.fresh_line }
    }
}

pub open spec fn token_models(tokens: Seq<Token>) -> Seq<TokenModel> {
    Seq::new(tokens.len(), |i: int| tokens[i].model())
}

// ---------------------------------------------------------------------------
// Source positions

/// The bytes from character `from` up to character `to`.
pub open spec fn span_between(cs: Seq<char>, from: int, to: int) -> Span {
    span_of(byte_offset_of(cs, from) as int, byte_offset_of(cs, to) as int)
}

/// Source text with the byte offset of each character.
pub struct Source {
    pub chars: Vec<char>,
    pub offsets: Vec<usize>,
}

impl Source {
    pub open spec fn valid(self) -> bool {
        &&& self.offsets@.len() == self.chars@.len() + 1
        &&& forall|i: int|
            0 <= i <= self.chars@.len() ==> #[trigger] self.offsets@[i] == byte_offset_of(
                self.chars@,
                i,
            )
    }

    pub fn new(text: &str) -> (source: Source)
        ensures
            source.valid(),
            source.chars@ == text@,
    {
        let chars: Vec<char> = chars_of(text);
        let total: usize = text.as_bytes().len();
        let mut offsets: Vec<usize> = Vec::new();
        offsets.push(0);
        let mut offset: usize = 0;
        let mut at: usize = 0;
        proof {
            lemma_offset_total(text@);
        }
        while at < chars.len()
            invariant
                chars@ == text@,
                at <= chars@.len(),
                offsets@.len() == at + 1,
                offset == byte_offset_of(text@, at as int),
                byte_offset_of(text@, text@.len() as int) == total,
                forall|i: int|
                    0 <= i <= at ==> #[trigger] offsets@[i] == byte_offset_of(text@, i),
            decreases chars@.len() - at,
        {
            proof {
                lemma_offset_grows(text@, at + 1, text@.len() as int);
            }
            offset = offset + width_of(chars[at]);
            offsets.push(offset);
            at += 1;
        }
        Source { chars, offsets }
    }

    fn span(&self, from: usize, to: usize) -> (span: Span)
        requires
            self.valid(),
            from <= self.chars@.len(),
            to <= self.chars@.len(),
        ensures
            span == span_between(self.chars@, from as int, to as int),
    {
        assert(self.offsets@[from as int] == byte_offset_of(self.chars@, from as int));
        assert(self.offsets@[to as int] == byte_offset_of(self.chars@, to as int));
        Span::new(self.offsets[from], self.offsets[to])
    }
}

/// The offset behind the last character is the length of the encoding.
pub proof fn lemma_offset_total(cs: Seq<char>)
    ensures
        byte_offset_of(cs, cs.len() as int) == encode_utf8(cs).len(),
    decreases cs.len(),
{
    if cs.len() > 0 {
        lemma_offset_total(cs.drop_first());
        lemma_offset_shift(cs, cs.len() as int);
    }
}

proof fn lemma_offset_shift(cs: Seq<char>, index: int)
    requires
        1 <= index <= cs.len(),
    ensures
        byte_offset_of(cs, index) == char_width(cs[0]) + byte_offset_of(
            cs.drop_first(),
            index - 1,
        ),
    decreases index,
{
    reveal_with_fuel(byte_offset_of, 2);
    if index > 1 {
        lemma_offset_shift(cs, index - 1);
        assert(cs.drop_first()[index - 2] == cs[index - 1]);
    }
}

/// Later characters have larger offsets.
pub proof fn lemma_offset_grows(cs: Seq<char>, from: int, to: int)
    requires
        0 <= from <= to <= cs.len(),
    ensures
        byte_offset_of(cs, from) + (to - from) <= byte_offset_of(cs, to),
    decreases to - from,
{
    broadcast use char_is_scalar;

    if from < to {
        lemma_offset_grows(cs, from, to - 1);
    }
}

// ---------------------------------------------------------------------------
// Runs of characters

/// A kind of characters that runs are made of.
#[derive(Clone, Copy, Debug, PartialEq, Eq, Structural)]
pub enum Class {
    Identifier,
    Digits,
    Line,
}

pub open spec fn is_identifier_start(c: char) -> bool {
    is_letter(c) || c == '_'
}

pub open spec fn is_identifier_continue(c: char) -> bool {
    is_identifier_start(c) || is_digit(c)
}

pub open spec fn in_class(class: Class, c: char) -> bool {
    match class {
        Class::Identifier => is_identifier_continue(c),
        Class::Digits => is_digit(c) || c == '_',
        Class::Line => c != '\n',
    }
}

/// Where the run of `class` that starts at `from` ends.
pub open spec fn run_end(class: Class, cs: Seq<char>, from: int) -> int
    decreases cs.len() - from,
{
    if 0 <= from < cs.len() && in_class(class, cs[from]) {
        run_end(class, cs, from + 1)
    } else {
        from
    }
}

pub open spec fn has_char(cs: Seq<char>, at: int, c: char) -> bool {
    0 <= at < cs.len() && cs[at] == c
}

fn class_holds(class: Class, c: char) -> (yes: bool)
    ensures
        yes == in_class(class, c),
{
    match class {
        Class::Identifier => letter_char(c) || c == '_' || digit_char(c),
        Class::Digits => digit_char(c) || c == '_',
        Class::Line => c != '\n',
    }
}

fn run(class: Class, chars: &Vec<char>, from: usize) -> (end: usize)
    requires
        from <= chars@.len(),
    ensures
        end == run_end(class, chars@, from as int),
        from <= end <= chars@.len(),
{
    let mut at: usize = from;
    while at < chars.len() && class_holds(class, chars[at])
        invariant
            from <= at <= chars@.len(),
            run_end(class, chars@, from as int) == run_end(class, chars@, at as int),
        decreases chars@.len() - at,
    {
        at += 1;
    }
    at
}

fn char_is(chars: &Vec<char>, at: usize, c: char) -> (yes: bool)
    ensures
        yes == has_char(chars@, at as int, c),
{
    at < chars.len() && chars[at] == c
}

// ---------------------------------------------------------------------------
// Numerals

/// The value of a digit in a base up to thirty-six; letters of either size come
/// behind the ten digits.
pub open spec fn digit_value(c: char) -> nat {
    if is_digit(c) {
        (c as u32 - 48) as nat
    } else if 'a' <= c <= 'z' {
        (c as u32 - 87) as nat
    } else if 'A' <= c <= 'Z' {
        (c as u32 - 55) as nat
    } else {
        99
    }
}

/// Whether position `i` of a row of digits holds a digit, or an underscore
/// between two digits.
pub open spec fn digit_placed(text: Seq<char>, i: int, base: nat) -> bool {
    if text[i] == '_' {
        &&& 0 < i < text.len() - 1
        &&& digit_value(text[i - 1]) < base
        &&& digit_value(text[i + 1]) < base
    } else {
        digit_value(text[i]) < base
    }
}

/// Whether `text` is a row of digits in which every underscore stands between
/// two digits.
pub open spec fn valid_digits(text: Seq<char>, base: nat) -> bool {
    &&& text.len() > 0
    &&& forall|i: int| 0 <= i < text.len() ==> #[trigger] digit_placed(text, i, base)
}

/// The value of a row of digits; underscores do not count.
pub open spec fn numeral(text: Seq<char>, base: nat) -> nat
    decreases text.len(),
{
    if text.len() == 0 {
        0
    } else if text.last() == '_' {
        numeral(text.drop_last(), base)
    } else {
        numeral(text.drop_last(), base) * base + digit_value(text.last())
    }
}

/// The digits of a decimal row without its underscores.
pub open spec fn plain_digits(text: Seq<char>) -> Seq<u8>
    decreases text.len(),
{
    if text.len() == 0 {
        Seq::empty()
    } else if text.last() == '_' {
        plain_digits(text.drop_last())
    } else {
        plain_digits(text.drop_last()).push(digit_value(text.last()) as u8)
    }
}

fn value_of_digit(c: char) -> (value: u32)
    ensures
        value == digit_value(c),
        value <= 99,
{
    let code: u32 = c as u32;
    if '0' <= c && c <= '9' {
        code - 48
    } else if 'a' <= c && c <= 'z' {
        code - 87
    } else if 'A' <= c && c <= 'Z' {
        code - 55
    } else {
        99
    }
}

pub fn digits_are_valid(chars: &Vec<char>, from: usize, to: usize, base: u32) -> (valid: bool)
    requires
        from <= to <= chars@.len(),
        2 <= base <= 36,
    ensures
        valid == valid_digits(chars@.subrange(from as int, to as int), base as nat),
{
    let ghost text = chars@.subrange(from as int, to as int);
    if from == to {
        return false;
    }
    let mut at: usize = from;
    while at < to
        invariant
            from <= at <= to <= chars@.len(),
            from < to,
            text == chars@.subrange(from as int, to as int),
            forall|i: int|
                0 <= i < at - from ==> #[trigger] digit_placed(text, i, base as nat),
        decreases to - at,
    {
        let c: char = chars[at];
        assert(text[at - from] == c);
        assert(digit_placed(text, at - from, base as nat) || !valid_digits(text, base as nat));
        if c == '_' {
            if at == from || at + 1 >= to {
                return false;
            }
            assert(text[at - from - 1] == chars@[at - 1]);
            assert(text[at - from + 1] == chars@[at + 1]);
            if value_of_digit(chars[at - 1]) >= base || value_of_digit(chars[at + 1]) >= base {
                return false;
            }
        } else if value_of_digit(c) >= base {
            return false;
        }
        at += 1;
    }
    true
}

/// A longer row of digits does not have a smaller value.
proof fn lemma_numeral_grows(text: Seq<char>, count: int, base: nat)
    requires
        0 <= count <= text.len(),
        base >= 1,
    ensures
        numeral(text.take(count), base) <= numeral(text, base),
    decreases text.len() - count,
{
    if count < text.len() {
        lemma_numeral_grows(text, count + 1, base);
        let next = text.take(count + 1);
        assert(next.drop_last() =~= text.take(count));
        let v = numeral(text.take(count), base);
        assert(v * base >= v) by (nonlinear_arith)
            requires
                base >= 1,
        ;
    } else {
        assert(text.take(count) =~= text);
    }
}

fn numeral_value(chars: &Vec<char>, from: usize, to: usize, base: u32) -> (value: Option<u128>)
    requires
        from <= to <= chars@.len(),
        2 <= base <= 16,
    ensures
        match value {
            Some(value) => value == numeral(chars@.subrange(from as int, to as int), base as nat),
            None => numeral(chars@.subrange(from as int, to as int), base as nat) > u128::MAX,
        },
{
    let ghost text = chars@.subrange(from as int, to as int);
    let mut value: u128 = 0;
    let mut at: usize = from;
    while at < to
        invariant
            from <= at <= to <= chars@.len(),
            2 <= base <= 16,
            text == chars@.subrange(from as int, to as int),
            value == numeral(text.take(at - from), base as nat),
        decreases to - at,
    {
        let c: char = chars[at];
        proof {
            let next = text.take(at - from + 1);
            assert(next.drop_last() =~= text.take(at - from));
            assert(next.last() == c);
            lemma_numeral_grows(text, at - from + 1, base as nat);
        }
        if c != '_' {
            let ghost product = value * base;
            match value.checked_mul(base as u128) {
                Some(product) => {
                    match product.checked_add(value_of_digit(c) as u128) {
                        Some(sum) => {
                            value = sum;
                        },
                        None => {
                            return None;
                        },
                    }
                },
                None => {
                    return None;
                },
            }
        }
        at += 1;
    }
    proof {
        assert(text.take(to - from) =~= text);
    }
    Some(value)
}

// ---------------------------------------------------------------------------
// Numbers

/// What was read, and the character behind it; or the error.
pub type Lexed = Result<(TokenKindModel, int), ErrorModel>;

/// A whole number with its sign, if it fits into 64 bits.
pub open spec fn signed_integer(magnitude: nat, negative: bool, span: Span) -> Result<
    i64,
    ErrorModel,
> {
    if negative && magnitude <= 0x8000_0000_0000_0000 {
        Ok((-magnitude) as i64)
    } else if !negative && magnitude < 0x8000_0000_0000_0000 {
        Ok(magnitude as i64)
    } else {
        Err(error_of("integer literal is outside the supported 64-bit range"@, span))
    }
}

/// The base that `0x` or `0b` at `at` announces.
pub open spec fn radix_prefix(cs: Seq<char>, at: int) -> Option<nat> {
    if has_char(cs, at, '0') && (has_char(cs, at + 1, 'x') || has_char(cs, at + 1, 'X')) {
        Some(16)
    } else if has_char(cs, at, '0') && (has_char(cs, at + 1, 'b') || has_char(cs, at + 1, 'B')) {
        Some(2)
    } else {
        None
    }
}

pub open spec fn lex_radix(
    cs: Seq<char>,
    start: int,
    digits_start: int,
    base: nat,
    negative: bool,
) -> Lexed {
    let end = run_end(Class::Identifier, cs, digits_start);
    let span = span_between(cs, start, end);
    let digits = cs.subrange(digits_start, end);
    if !valid_digits(digits, base) {
        Err(error_of("invalid hexadecimal or binary literal"@, span))
    } else {
        match signed_integer(numeral(digits, base), negative, span) {
            Ok(value) => Ok((TokenKindModel::Integer(value), end)),
            Err(error) => Err(error),
        }
    }
}

/// The parts of a decimal number: where its integer part, its fraction, its
/// exponent and the letters behind it end.
pub struct DecimalParts {
    pub start: int,
    pub integer_end: int,
    pub has_fraction: bool,
    pub fraction_end: int,
    pub has_exponent: bool,
    pub negative_exponent: bool,
    pub exponent_start: int,
    pub number_end: int,
    pub end: int,
}

pub open spec fn decimal_parts(cs: Seq<char>, start: int) -> DecimalParts {
    let integer_end = run_end(Class::Digits, cs, start);
    let has_fraction = has_char(cs, integer_end, '.') && 0 <= integer_end + 1 < cs.len()
        && is_digit(cs[integer_end + 1]);
    let fraction_end = if has_fraction {
        run_end(Class::Digits, cs, integer_end + 1)
    } else {
        integer_end
    };
    let has_exponent = has_char(cs, fraction_end, 'e') || has_char(cs, fraction_end, 'E');
    let negative_exponent = has_exponent && has_char(cs, fraction_end + 1, '-');
    let signed_exponent = negative_exponent || (has_exponent && has_char(
        cs,
        fraction_end + 1,
        '+',
    ));
    let exponent_start = if signed_exponent {
        fraction_end + 2
    } else if has_exponent {
        fraction_end + 1
    } else {
        fraction_end
    };
    let number_end = if has_exponent {
        run_end(Class::Digits, cs, exponent_start)
    } else {
        fraction_end
    };
    DecimalParts {
        start,
        integer_end,
        has_fraction,
        fraction_end,
        has_exponent,
        negative_exponent,
        exponent_start,
        number_end,
        end: run_end(Class::Identifier, cs, number_end),
    }
}

impl DecimalParts {
    pub open spec fn integer(self, cs: Seq<char>) -> Seq<char> {
        cs.subrange(self.start, self.integer_end)
    }

    pub open spec fn fraction(self, cs: Seq<char>) -> Seq<char> {
        if self.has_fraction {
            cs.subrange(self.integer_end + 1, self.fraction_end)
        } else {
            Seq::empty()
        }
    }

    pub open spec fn exponent(self, cs: Seq<char>) -> Seq<char> {
        cs.subrange(self.exponent_start, self.number_end)
    }

    pub open spec fn suffix(self, cs: Seq<char>) -> Seq<char> {
        cs.subrange(self.number_end, self.end)
    }

    pub open spec fn separators_valid(self, cs: Seq<char>) -> bool {
        &&& valid_digits(self.integer(cs), 10)
        &&& self.has_fraction ==> valid_digits(self.fraction(cs), 10)
        &&& self.has_exponent ==> valid_digits(self.exponent(cs), 10)
    }

    /// The exponent of ten that goes with all digits in front of the exponent
    /// part, taken as one row.
    pub open spec fn scale(self, cs: Seq<char>) -> int {
        let written = numeral(self.exponent(cs), 10) as int;
        (if !self.has_exponent {
            0
        } else if self.negative_exponent {
            -written
        } else {
            written
        }) - plain_digits(self.fraction(cs)).len()
    }
}

/// How many nanoseconds a unit of time has.
pub open spec fn unit_nanos(suffix: Seq<char>) -> Option<nat> {
    if suffix == "ns"@ {
        Some(1)
    } else if suffix == "us"@ {
        Some(1_000)
    } else if suffix == "ms"@ {
        Some(1_000_000)
    } else if suffix == "s"@ {
        Some(1_000_000_000)
    } else if suffix == "m"@ {
        Some(60_000_000_000)
    } else if suffix == "h"@ {
        Some(3_600_000_000_000)
    } else {
        None
    }
}

/// The nanoseconds of `integer.fraction` units.
pub open spec fn duration_literal(
    integer: Seq<char>,
    fraction: Seq<char>,
    unit: nat,
    span: Span,
) -> Result<u64, ErrorModel> {
    let whole = numeral(integer, 10) * unit;
    let places = plain_digits(fraction).len();
    let scaled = numeral(fraction, 10) * unit;
    let scale = pow(10, places) as nat;
    if whole > u128::MAX {
        Err(error_of("duration literal is outside the supported range"@, span))
    } else if places > 0 && (scale > u128::MAX || scaled > u128::MAX) {
        Err(error_of("duration literal is too precise"@, span))
    } else if places > 0 && scaled % scale != 0 {
        Err(error_of("duration is finer than one nanosecond"@, span))
    } else {
        let nanos = whole + (if places > 0 {
            scaled / scale
        } else {
            0
        });
        if nanos > u64::MAX {
            Err(error_of("duration literal is outside the supported range"@, span))
        } else {
            Ok(nanos as u64)
        }
    }
}

/// The number nearest to a decimal literal, if it is finite.
pub open spec fn float_literal(
    cs: Seq<char>,
    parts: DecimalParts,
    negative: bool,
    span: Span,
) -> Result<Binary64, ErrorModel> {
    let encoding = decimal_encoding(
        numeral(parts.integer(cs) + parts.fraction(cs), 10),
        parts.scale(cs),
    );
    if encoding >= INFINITY {
        Err(error_of("floating-point literal must be finite"@, span))
    } else {
        Ok(
            Binary64 {
                bits: if negative {
                    (encoding + SIGN) as u64
                } else {
                    encoding as u64
                },
            },
        )
    }
}

pub open spec fn lex_decimal(cs: Seq<char>, start: int, digits_start: int, negative: bool) -> Lexed {
    let parts = decimal_parts(cs, digits_start);
    let span = span_between(cs, start, parts.end);
    if parts.has_exponent && parts.exponent_start == parts.number_end {
        Err(error_of("exponent requires digits"@, span_between(cs, start, parts.number_end)))
    } else if !parts.separators_valid(cs) {
        Err(error_of("invalid numeric separator"@, span))
    } else if parts.end > parts.number_end {
        if negative {
            Err(error_of("durations cannot be negative"@, span))
        } else if parts.has_exponent {
            Err(error_of("duration exponents are not supported"@, span))
        } else {
            match unit_nanos(parts.suffix(cs)) {
                None => Err(error_of("unknown numeric suffix"@, span)),
                Some(unit) => match duration_literal(
                    parts.integer(cs),
                    parts.fraction(cs),
                    unit,
                    span,
                ) {
                    Ok(nanos) => Ok((TokenKindModel::DurationNanos(nanos), parts.end)),
                    Err(error) => Err(error),
                },
            }
        }
    } else if parts.has_fraction || parts.has_exponent {
        match float_literal(cs, parts, negative, span) {
            Ok(value) => Ok((TokenKindModel::Float(value), parts.end)),
            Err(error) => Err(error),
        }
    } else {
        match signed_integer(numeral(parts.integer(cs), 10), negative, span) {
            Ok(value) => Ok((TokenKindModel::Integer(value), parts.end)),
            Err(error) => Err(error),
        }
    }
}

/// The number whose first character, digit or minus sign, is at `start`.
pub open spec fn lex_number(cs: Seq<char>, start: int, negative: bool) -> Lexed {
    let digits_start = if negative {
        start + 1
    } else {
        start
    };
    match radix_prefix(cs, digits_start) {
        Some(base) => lex_radix(cs, start, digits_start + 2, base, negative),
        None => lex_decimal(cs, start, digits_start, negative),
    }
}

/// What an executable reading function found.
pub open spec fn lexed(result: Result<(TokenKind, usize), SyntaxError>) -> Lexed {
    match result {
        Ok((kind, end)) => Ok((kind.model(), end as int)),
        Err(error) => Err(error.model()),
    }
}

pub fn signed_integer_value(magnitude: Option<u128>, negative: bool, span: Span) -> (result: Result<
    i64,
    SyntaxError,
>)
    ensures
        forall|value: nat|
            (match magnitude {
                Some(magnitude) => value == magnitude,
                None => value > u128::MAX,
            }) ==> #[trigger] signed_integer(value, negative, span) == (match result {
                Ok(value) => Ok(value),
                Err(error) => Err(error.model()),
            }),
{
    if let Some(magnitude) = magnitude {
        if negative && magnitude <= 0x8000_0000_0000_0000 {
            let signed: i128 = -(magnitude as i128);
            return Ok(signed as i64);
        }
        if !negative && magnitude < 0x8000_0000_0000_0000 {
            return Ok(magnitude as i64);
        }
    }
    Err(SyntaxError::new("integer literal is outside the supported 64-bit range", span))
}

fn unit_of(suffix: &str) -> (unit: Option<u128>)
    ensures
        match unit {
            Some(unit) => unit_nanos(suffix@) == Some(unit as nat) && 0 < unit <= 3_600_000_000_000,
            None => unit_nanos(suffix@) is None,
        },
{
    if same(suffix, "ns") {
        Some(1)
    } else if same(suffix, "us") {
        Some(1_000)
    } else if same(suffix, "ms") {
        Some(1_000_000)
    } else if same(suffix, "s") {
        Some(1_000_000_000)
    } else if same(suffix, "m") {
        Some(60_000_000_000)
    } else if same(suffix, "h") {
        Some(3_600_000_000_000)
    } else {
        None
    }
}

/// Appends the digits between `from` and `to` without the underscores.
fn push_digits(digits: &mut Vec<u8>, chars: &Vec<char>, from: usize, to: usize)
    requires
        from <= to <= chars@.len(),
        valid_digits(chars@.subrange(from as int, to as int), 10),
        forall|i: int| 0 <= i < old(digits)@.len() ==> old(digits)@[i] < 10,
    ensures
        final(digits)@ == old(digits)@ + plain_digits(chars@.subrange(from as int, to as int)),
        forall|i: int| 0 <= i < final(digits)@.len() ==> final(digits)@[i] < 10,
{
    let ghost text = chars@.subrange(from as int, to as int);
    let ghost before = digits@;
    let mut at: usize = from;
    proof {
        assert(text.take(0) =~= Seq::<char>::empty());
        assert(before + Seq::<u8>::empty() =~= before);
    }
    while at < to
        invariant
            from <= at <= to <= chars@.len(),
            text == chars@.subrange(from as int, to as int),
            valid_digits(text, 10),
            digits@ == before + plain_digits(text.take(at - from)),
            forall|i: int| 0 <= i < digits@.len() ==> digits@[i] < 10,
        decreases to - at,
    {
        let c: char = chars[at];
        proof {
            let next = text.take(at - from + 1);
            assert(next.drop_last() =~= text.take(at - from));
            assert(next.last() == c);
            assert(text[at - from] == c);
            assert(digit_placed(text, at - from, 10));
        }
        if c != '_' {
            let digit: u8 = value_of_digit(c) as u8;
            proof {
                assert(before + plain_digits(text.take(at - from)).push(digit) =~= (before
                    + plain_digits(text.take(at - from))).push(digit));
            }
            digits.push(digit);
        }
        at += 1;
    }
    proof {
        assert(text.take(to - from) =~= text);
    }
}

proof fn lemma_plain_digits_value(text: Seq<char>)
    requires
        forall|i: int|
            0 <= i < text.len() ==> #[trigger] text[i] == '_' || digit_value(text[i]) < 10,
    ensures
        digits_value(plain_digits(text)) == numeral(text, 10),
    decreases text.len(),
{
    if text.len() > 0 {
        assert(text[text.len() - 1] == text.last());
        lemma_plain_digits_value(text.drop_last());
        if text.last() != '_' {
            let rest = plain_digits(text.drop_last());
            let digit = digit_value(text.last()) as u8;
            assert(rest.push(digit).drop_last() =~= rest);
        }
    }
}

proof fn lemma_plain_digits_concat(a: Seq<char>, b: Seq<char>)
    ensures
        plain_digits(a + b) == plain_digits(a) + plain_digits(b),
    decreases b.len(),
{
    if b.len() == 0 {
        assert(a + b =~= a);
        assert(plain_digits(a) + Seq::<u8>::empty() =~= plain_digits(a));
    } else {
        assert((a + b).drop_last() =~= a + b.drop_last());
        assert((a + b).last() == b.last());
        lemma_plain_digits_concat(a, b.drop_last());
        if b.last() != '_' {
            let digit = digit_value(b.last()) as u8;
            assert((plain_digits(a) + plain_digits(b.drop_last())).push(digit) =~= plain_digits(a)
                + plain_digits(b.drop_last()).push(digit));
        }
    }
}

proof fn lemma_plain_digits_count(text: Seq<char>)
    ensures
        plain_digits(text).len() <= text.len(),
    decreases text.len(),
{
    if text.len() > 0 {
        lemma_plain_digits_count(text.drop_last());
    }
}

/// Ten to the power of `count`, if it fits.
fn power_of_ten(count: usize) -> (power: Option<u128>)
    ensures
        match power {
            Some(power) => power == pow(10, count as nat),
            None => pow(10, count as nat) > u128::MAX,
        },
{
    let mut power: u128 = 1;
    let mut done: usize = 0;
    proof {
        lemma_pow0(10);
    }
    while done < count
        invariant
            done <= count,
            power == pow(10, done as nat),
        decreases count - done,
    {
        proof {
            reveal(pow);
            assert(pow(10, (done + 1) as nat) == 10 * pow(10, done as nat));
            lemma_pow_increases(10, (done + 1) as nat, count as nat);
        }
        match power.checked_mul(10) {
            Some(next) => {
                power = next;
            },
            None => {
                return None;
            },
        }
        done += 1;
    }
    Some(power)
}

/// The duration that the integer part, the fraction and the unit make up.
fn duration_value(
    chars: &Vec<char>,
    integer: (usize, usize),
    fraction: Option<(usize, usize)>,
    unit: u128,
    span: Span,
) -> (result: Result<u64, SyntaxError>)
    requires
        integer.0 <= integer.1 <= chars@.len(),
        match fraction {
            Some((from, to)) => from <= to <= chars@.len() && valid_digits(
                chars@.subrange(from as int, to as int),
                10,
            ),
            None => true,
        },
        0 < unit <= 3_600_000_000_000,
    ensures
        (match result {
            Ok(nanos) => Ok(nanos),
            Err(error) => Err(error.model()),
        }) == duration_literal(
            chars@.subrange(integer.0 as int, integer.1 as int),
            match fraction {
                Some((from, to)) => chars@.subrange(from as int, to as int),
                None => Seq::empty(),
            },
            unit as nat,
            span,
        ),
{
    let ghost whole_text = chars@.subrange(integer.0 as int, integer.1 as int);
    let ghost value = numeral(whole_text, 10);
    proof {
        assert(value > u128::MAX ==> value * unit > u128::MAX) by (nonlinear_arith)
            requires
                unit >= 1,
        ;
    }
    let amount: u128 = match numeral_value(chars, integer.0, integer.1, 10) {
        Some(amount) => amount,
        None => {
            return Err(SyntaxError::new("duration literal is outside the supported range", span));
        },
    };
    let whole: u128 = match amount.checked_mul(unit) {
        Some(whole) => whole,
        None => {
            return Err(SyntaxError::new("duration literal is outside the supported range", span));
        },
    };
    let mut fractional: u128 = 0;
    if let Some((from, to)) = fraction {
        let ghost text = chars@.subrange(from as int, to as int);
        let mut digits: Vec<u8> = Vec::new();
        push_digits(&mut digits, chars, from, to);
        proof {
            assert(Seq::<u8>::empty() + plain_digits(text) =~= plain_digits(text));
            lemma_some_digit(text);
            lemma_pow_positive(10, plain_digits(text).len());
            let n = numeral(text, 10);
            assert(n > u128::MAX ==> n * unit > u128::MAX) by (nonlinear_arith)
                requires
                    unit >= 1,
            ;
        }
        let scale: u128 = match power_of_ten(digits.len()) {
            Some(scale) => scale,
            None => {
                return Err(SyntaxError::new("duration literal is too precise", span));
            },
        };
        let part: u128 = match numeral_value(chars, from, to, 10) {
            Some(part) => part,
            None => {
                return Err(SyntaxError::new("duration literal is too precise", span));
            },
        };
        let scaled: u128 = match part.checked_mul(unit) {
            Some(scaled) => scaled,
            None => {
                return Err(SyntaxError::new("duration literal is too precise", span));
            },
        };
        if scaled % scale != 0 {
            return Err(SyntaxError::new("duration is finer than one nanosecond", span));
        }
        fractional = scaled / scale;
    }
    match whole.checked_add(fractional) {
        Some(nanos) => {
            if nanos <= 0xFFFF_FFFF_FFFF_FFFF {
                Ok(nanos as u64)
            } else {
                Err(SyntaxError::new("duration literal is outside the supported range", span))
            }
        },
        None => Err(SyntaxError::new("duration literal is outside the supported range", span)),
    }
}

proof fn lemma_some_digit(text: Seq<char>)
    requires
        valid_digits(text, 10),
    ensures
        plain_digits(text).len() > 0,
{
    assert(digit_placed(text, text.len() - 1, 10));
    assert(text.last() != '_');
}

/// The number that a decimal literal stands for.
fn float_value(
    chars: &Vec<char>,
    integer: (usize, usize),
    fraction: Option<(usize, usize)>,
    exponent: Option<(usize, usize)>,
    negative_exponent: bool,
    negative: bool,
    span: Span,
    Ghost(parts): Ghost<DecimalParts>,
) -> (result: Result<Binary64, SyntaxError>)
    requires
        integer.0 <= integer.1 <= chars@.len(),
        parts.integer(chars@) == chars@.subrange(integer.0 as int, integer.1 as int),
        parts.has_fraction == fraction is Some,
        match fraction {
            Some((from, to)) => from <= to <= chars@.len() && parts.fraction(chars@)
                == chars@.subrange(from as int, to as int),
            None => true,
        },
        parts.has_exponent == exponent is Some,
        match exponent {
            Some((from, to)) => from <= to <= chars@.len() && parts.exponent(chars@)
                == chars@.subrange(from as int, to as int),
            None => true,
        },
        parts.negative_exponent == negative_exponent,
        parts.separators_valid(chars@),
    ensures
        (match result {
            Ok(value) => Ok(value),
            Err(error) => Err(error.model()),
        }) == float_literal(chars@, parts, negative, span),
{
    let mut digits: Vec<u8> = Vec::new();
    push_digits(&mut digits, chars, integer.0, integer.1);
    let whole: usize = digits.len();
    if let Some((from, to)) = fraction {
        push_digits(&mut digits, chars, from, to);
    }
    let places: usize = digits.len() - whole;
    let ghost int_text = parts.integer(chars@);
    let ghost frac_text = parts.fraction(chars@);
    let ghost all = int_text + frac_text;
    let ghost value = numeral(all, 10);
    proof {
        assert(Seq::<u8>::empty() + plain_digits(int_text) =~= plain_digits(int_text));
        assert(plain_digits(int_text) + Seq::<u8>::empty() =~= plain_digits(int_text));
        lemma_plain_digits_concat(int_text, frac_text);
        assert(digits@ == plain_digits(all));
        assert forall|i: int| 0 <= i < all.len() implies #[trigger] all[i] == '_' || digit_value(
            all[i],
        ) < 10 by {
            if i < int_text.len() {
                assert(all[i] == int_text[i]);
                assert(digit_placed(int_text, i, 10));
            } else {
                assert(all[i] == frac_text[i - int_text.len()]);
                assert(digit_placed(frac_text, i - int_text.len(), 10));
            }
        }
        lemma_plain_digits_value(all);
    }
    // Exponents beyond this size leave no doubt about the result.
    let cap: u128 = 0x10_0000_0000_0000_0000_0000;
    let mut written: u128 = 0;
    if let Some((from, to)) = exponent {
        written = match numeral_value(chars, from, to, 10) {
            Some(written) => if written < cap {
                written
            } else {
                cap
            },
            None => cap,
        };
    }
    let scale: i128 = if negative_exponent {
        -(written as i128) - (places as i128)
    } else {
        (written as i128) - (places as i128)
    };
    proof {
        let exact = parts.scale(chars@);
        assert(plain_digits(frac_text).len() == places);
        crate::binary64::lemma_digits_bound(digits@);
        if exact != scale {
            assert(parts.has_exponent);
            assert(numeral(parts.exponent(chars@), 10) > cap);
            if value == 0 {
                lemma_decimal_small(value, digits@.len(), exact);
                lemma_decimal_small(value, digits@.len(), scale as int);
            } else if negative_exponent {
                lemma_decimal_small(value, digits@.len(), exact);
                lemma_decimal_small(value, digits@.len(), scale as int);
            } else {
                lemma_decimal_large(value, exact);
                lemma_decimal_large(value, scale as int);
            }
        }
    }
    match nearest_decimal(&digits, scale) {
        Some(encoding) => {
            let bits: u64 = if negative {
                encoding + SIGN
            } else {
                encoding
            };
            Ok(Binary64 { bits })
        },
        None => Err(SyntaxError::new("floating-point literal must be finite", span)),
    }
}

/// Reads the number whose first character is at `start`.
fn read_number(source: &Source, start: usize, negative: bool) -> (result: Result<
    (TokenKind, usize),
    SyntaxError,
>)
    requires
        source.valid(),
        start + (if negative {
            1int
        } else {
            0
        }) < source.chars@.len(),
        is_digit(source.chars@[start + (if negative {
            1int
        } else {
            0
        })]),
    ensures
        lexed(result) == lex_number(source.chars@, start as int, negative),
        result is Ok ==> start < result->Ok_0.1 <= source.chars@.len() && !(result->Ok_0.0 is Mark),
{
    let chars: &Vec<char> = &source.chars;
    let count: usize = chars.len();
    let digits_start: usize = if negative {
        start + 1
    } else {
        start
    };
    if chars[digits_start] == '0' && digits_start + 1 < count {
        let letter: char = chars[digits_start + 1];
        if letter == 'x' || letter == 'X' || letter == 'b' || letter == 'B' {
            let base: u32 = if letter == 'x' || letter == 'X' {
                16
            } else {
                2
            };
            let from: usize = digits_start + 2;
            let end: usize = run(Class::Identifier, chars, from);
            let span: Span = source.span(start, end);
            if !digits_are_valid(chars, from, end, base) {
                return Err(SyntaxError::new("invalid hexadecimal or binary literal", span));
            }
            let magnitude: Option<u128> = numeral_value(chars, from, end, base);
            proof {
                let exact = numeral(chars@.subrange(from as int, end as int), base as nat);
                assert(signed_integer(exact, negative, span) == signed_integer(
                    exact,
                    negative,
                    span,
                ));
            }
            return match signed_integer_value(magnitude, negative, span) {
                Ok(value) => Ok((TokenKind::Integer(value), end)),
                Err(error) => Err(error),
            };
        }
    }
    let ghost parts = decimal_parts(chars@, digits_start as int);
    let integer_end: usize = run(Class::Digits, chars, digits_start);
    let has_fraction: bool = char_is(chars, integer_end, '.') && integer_end + 1 < chars.len()
        && digit_char(chars[integer_end + 1]);
    let fraction_end: usize = if has_fraction {
        run(Class::Digits, chars, integer_end + 1)
    } else {
        integer_end
    };
    let has_exponent: bool = char_is(chars, fraction_end, 'e') || char_is(
        chars,
        fraction_end,
        'E',
    );
    let negative_exponent: bool = has_exponent && fraction_end + 1 < chars.len() && chars[
    fraction_end + 1] == '-';
    let signed_exponent: bool = negative_exponent || (has_exponent && fraction_end + 1
        < chars.len() && chars[fraction_end + 1] == '+');
    let exponent_start: usize = if signed_exponent {
        fraction_end + 2
    } else if has_exponent {
        fraction_end + 1
    } else {
        fraction_end
    };
    let number_end: usize = if has_exponent {
        run(Class::Digits, chars, exponent_start)
    } else {
        fraction_end
    };
    if has_exponent && exponent_start == number_end {
        return Err(SyntaxError::new("exponent requires digits", source.span(start, number_end)));
    }
    let end: usize = run(Class::Identifier, chars, number_end);
    let span: Span = source.span(start, end);
    if !digits_are_valid(chars, digits_start, integer_end, 10) || (has_fraction
        && !digits_are_valid(chars, integer_end + 1, fraction_end, 10)) || (has_exponent
        && !digits_are_valid(chars, exponent_start, number_end, 10)) {
        return Err(SyntaxError::new("invalid numeric separator", span));
    }
    assert(parts.separators_valid(chars@));
    let fraction: Option<(usize, usize)> = if has_fraction {
        Some((integer_end + 1, fraction_end))
    } else {
        None
    };
    if number_end < end {
        if negative {
            return Err(SyntaxError::new("durations cannot be negative", span));
        }
        if has_exponent {
            return Err(SyntaxError::new("duration exponents are not supported", span));
        }
        let suffix: String = text_between(chars, number_end, end);
        return match unit_of(suffix.as_str()) {
            None => Err(SyntaxError::new("unknown numeric suffix", span)),
            Some(unit) => match duration_value(
                chars,
                (digits_start, integer_end),
                fraction,
                unit,
                span,
            ) {
                Ok(nanos) => Ok((TokenKind::DurationNanos(nanos), end)),
                Err(error) => Err(error),
            },
        };
    }
    if has_fraction || has_exponent {
        let exponent: Option<(usize, usize)> = if has_exponent {
            Some((exponent_start, number_end))
        } else {
            None
        };
        return match float_value(
            chars,
            (digits_start, integer_end),
            fraction,
            exponent,
            negative_exponent,
            negative,
            span,
            Ghost(parts),
        ) {
            Ok(value) => Ok((TokenKind::Float(value), end)),
            Err(error) => Err(error),
        };
    }
    let magnitude: Option<u128> = numeral_value(chars, digits_start, integer_end, 10);
    proof {
        let exact = numeral(parts.integer(chars@), 10);
        assert(signed_integer(exact, negative, span) == signed_integer(exact, negative, span));
    }
    match signed_integer_value(magnitude, negative, span) {
        Ok(value) => Ok((TokenKind::Integer(value), end)),
        Err(error) => Err(error),
    }
}

// ---------------------------------------------------------------------------
// Strings

/// The character that a backslash in front of `c` stands for.
pub open spec fn escaped_char(c: char) -> Option<char> {
    if c == '"' {
        Some('"')
    } else if c == '\\' {
        Some('\\')
    } else if c == 'n' {
        Some('\n')
    } else if c == 'r' {
        Some('\r')
    } else if c == 't' {
        Some('\t')
    } else {
        None
    }
}

/// The rest of the string that starts at `start`, from `at` on, when `value`
/// has been read so far.
pub open spec fn lex_string(cs: Seq<char>, start: int, at: int, value: Seq<char>) -> Lexed
    decreases cs.len() - at,
{
    if at < 0 || at >= cs.len() {
        Err(error_of("unterminated string"@, span_between(cs, start, cs.len() as int)))
    } else if cs[at] == '"' {
        Ok((TokenKindModel::String(value), at + 1))
    } else if cs[at] == '\\' {
        if at + 1 >= cs.len() {
            Err(error_of("unterminated string"@, span_between(cs, start, cs.len() as int)))
        } else {
            match escaped_char(cs[at + 1]) {
                Some(c) => lex_string(cs, start, at + 2, value.push(c)),
                None => Err(
                    error_of(
                        "unsupported string escape"@,
                        span_of(
                            byte_offset_of(cs, at) as int,
                            byte_offset_of(cs, at) as int + 2,
                        ),
                    ),
                ),
            }
        }
    } else if cs[at] == '\n' || cs[at] == '\r' {
        Err(
            error_of(
                "strings cannot contain an unescaped line break"@,
                span_between(cs, start, at),
            ),
        )
    } else {
        lex_string(cs, start, at + 1, value.push(cs[at]))
    }
}

fn unescape(c: char) -> (plain: Option<char>)
    ensures
        plain == escaped_char(c),
{
    if c == '"' {
        Some('"')
    } else if c == '\\' {
        Some('\\')
    } else if c == 'n' {
        Some('\n')
    } else if c == 'r' {
        Some('\r')
    } else if c == 't' {
        Some('\t')
    } else {
        None
    }
}

/// Reads the string whose opening quote is at `start`.
fn read_string(source: &Source, start: usize) -> (result: Result<(TokenKind, usize), SyntaxError>)
    requires
        source.valid(),
        start < source.chars@.len(),
    ensures
        lexed(result) == lex_string(source.chars@, start as int, start + 1, Seq::empty()),
        result is Ok ==> start < result->Ok_0.1 <= source.chars@.len() && !(result->Ok_0.0 is Mark),
{
    let chars: &Vec<char> = &source.chars;
    let count: usize = chars.len();
    let mut value: String = String::new();
    let mut at: usize = start + 1;
    let ghost cs = chars@;
    while at < count
        invariant_except_break
            lex_string(cs, start as int, start + 1, Seq::empty()) == lex_string(
                cs,
                start as int,
                at as int,
                value@,
            ),
        invariant
            source.valid(),
            cs == source.chars@,
            chars@ == cs,
            count == cs.len(),
            start < at <= count,
        ensures
            lex_string(cs, start as int, start + 1, Seq::empty()) == Err::<
                (TokenKindModel, int),
                ErrorModel,
            >(error_of("unterminated string"@, span_between(cs, start as int, cs.len() as int))),
        decreases count - at,
    {
        let c: char = chars[at];
        if c == '"' {
            return Ok((TokenKind::String(value), at + 1));
        }
        if c == '\\' {
            if at + 1 >= count {
                break ;
            }
            match unescape(chars[at + 1]) {
                Some(plain) => {
                    value.push(plain);
                    at += 2;
                },
                None => {
                    assert(source.offsets@[at as int] == byte_offset_of(cs, at as int));
                    proof {
                        assert(source.offsets@[cs.len() as int] == byte_offset_of(
                            cs,
                            cs.len() as int,
                        ));
                        lemma_offset_grows(cs, at as int, cs.len() as int);
                    }
                    let from: usize = source.offsets[at];
                    return Err(
                        SyntaxError::new("unsupported string escape", Span::new(from, from + 2)),
                    );
                },
            }
        } else if c == '\n' || c == '\r' {
            return Err(
                SyntaxError::new(
                    "strings cannot contain an unescaped line break",
                    source.span(start, at),
                ),
            );
        } else {
            value.push(c);
            at += 1;
        }
    }
    Err(SyntaxError::new("unterminated string", source.span(start, count)))
}

// ---------------------------------------------------------------------------
// Words and symbols

/// The keyword that `text` spells.
pub open spec fn keyword(text: Seq<char>) -> Option<Mark> {
    if text == "if"@ {
        Some(Mark::If)
    } else if text == "for"@ {
        Some(Mark::For)
    } else if text == "in"@ {
        Some(Mark::In)
    } else if text == "else"@ {
        Some(Mark::Else)
    } else if text == "and"@ {
        Some(Mark::And)
    } else if text == "or"@ {
        Some(Mark::Or)
    } else if text == "not"@ {
        Some(Mark::Not)
    } else if text == "flow"@ {
        Some(Mark::Mettle)
    } else if text == "test"@ {
        Some(Mark::Test)
    } else if text == "context"@ {
        Some(Mark::Context)
    } else if text == "namespace"@ {
        Some(Mark::Namespace)
    } else if text == "defaults"@ {
        Some(Mark::Defaults)
    } else if text == "use"@ {
        Some(Mark::Use)
    } else if text == "return"@ {
        Some(Mark::Return)
    } else if text == "assert"@ {
        Some(Mark::Assert)
    } else if text == "fail"@ {
        Some(Mark::Fail)
    } else if text == "within"@ {
        Some(Mark::Within)
    } else if text == "retry"@ {
        Some(Mark::Retry)
    } else if text == "parallel"@ {
        Some(Mark::Parallel)
    } else if text == "rate"@ {
        Some(Mark::Rate)
    } else if text == "concurrency"@ {
        Some(Mark::Concurrency)
    } else if text == "true"@ {
        Some(Mark::True)
    } else if text == "false"@ {
        Some(Mark::False)
    } else if text == "null"@ {
        Some(Mark::Null)
    } else {
        None
    }
}

fn keyword_of(text: &str) -> (mark: Option<Mark>)
    ensures
        mark == keyword(text@),
{
    if same(text, "if") {
        Some(Mark::If)
    } else if same(text, "for") {
        Some(Mark::For)
    } else if same(text, "in") {
        Some(Mark::In)
    } else if same(text, "else") {
        Some(Mark::Else)
    } else if same(text, "and") {
        Some(Mark::And)
    } else if same(text, "or") {
        Some(Mark::Or)
    } else if same(text, "not") {
        Some(Mark::Not)
    } else if same(text, "flow") {
        Some(Mark::Mettle)
    } else if same(text, "test") {
        Some(Mark::Test)
    } else if same(text, "context") {
        Some(Mark::Context)
    } else if same(text, "namespace") {
        Some(Mark::Namespace)
    } else if same(text, "defaults") {
        Some(Mark::Defaults)
    } else if same(text, "use") {
        Some(Mark::Use)
    } else if same(text, "return") {
        Some(Mark::Return)
    } else if same(text, "assert") {
        Some(Mark::Assert)
    } else if same(text, "fail") {
        Some(Mark::Fail)
    } else if same(text, "within") {
        Some(Mark::Within)
    } else if same(text, "retry") {
        Some(Mark::Retry)
    } else if same(text, "parallel") {
        Some(Mark::Parallel)
    } else if same(text, "rate") {
        Some(Mark::Rate)
    } else if same(text, "concurrency") {
        Some(Mark::Concurrency)
    } else if same(text, "true") {
        Some(Mark::True)
    } else if same(text, "false") {
        Some(Mark::False)
    } else if same(text, "null") {
        Some(Mark::Null)
    } else {
        None
    }
}

/// The word that starts at `start`.
pub open spec fn lex_identifier(cs: Seq<char>, start: int) -> Lexed {
    let end = run_end(Class::Identifier, cs, start + 1);
    let text = cs.subrange(start, end);
    match keyword(text) {
        Some(mark) => Ok((TokenKindModel::Mark(mark), end)),
        None => Ok((TokenKindModel::Identifier(text), end)),
    }
}

/// The symbol at `at`, with its length.
pub open spec fn symbol(cs: Seq<char>, at: int) -> Option<(Mark, int)> {
    let c = cs[at];
    let doubled = has_char(cs, at + 1, '=');
    if c == '{' {
        Some((Mark::LeftBrace, 1))
    } else if c == '}' {
        Some((Mark::RightBrace, 1))
    } else if c == '[' {
        Some((Mark::LeftBracket, 1))
    } else if c == ']' {
        Some((Mark::RightBracket, 1))
    } else if c == '(' {
        Some((Mark::LeftParen, 1))
    } else if c == ')' {
        Some((Mark::RightParen, 1))
    } else if c == ',' {
        Some((Mark::Comma, 1))
    } else if c == ':' {
        Some((Mark::Colon, 1))
    } else if c == '=' {
        if doubled {
            Some((Mark::EqualEqual, 2))
        } else {
            Some((Mark::Equal, 1))
        }
    } else if c == '!' {
        if doubled {
            Some((Mark::BangEqual, 2))
        } else {
            None
        }
    } else if c == '<' {
        if doubled {
            Some((Mark::LessEqual, 2))
        } else {
            Some((Mark::Less, 1))
        }
    } else if c == '>' {
        if doubled {
            Some((Mark::GreaterEqual, 2))
        } else {
            Some((Mark::Greater, 1))
        }
    } else if c == '.' {
        Some((Mark::Dot, 1))
    } else if c == '-' {
        Some((Mark::Minus, 1))
    } else {
        None
    }
}

fn symbol_at(chars: &Vec<char>, at: usize) -> (found: Option<(Mark, usize)>)
    requires
        at < chars@.len(),
    ensures
        (match found {
            Some((mark, width)) => Some((mark, width as int)),
            None => None,
        }) == symbol(chars@, at as int),
        found matches Some((_, width)) ==> 0 < width && at + width <= chars@.len(),
{
    let c: char = chars[at];
    let count: usize = chars.len();
    let doubled: bool = at + 1 < count && chars[at + 1] == '=';
    if c == '{' {
        Some((Mark::LeftBrace, 1))
    } else if c == '}' {
        Some((Mark::RightBrace, 1))
    } else if c == '[' {
        Some((Mark::LeftBracket, 1))
    } else if c == ']' {
        Some((Mark::RightBracket, 1))
    } else if c == '(' {
        Some((Mark::LeftParen, 1))
    } else if c == ')' {
        Some((Mark::RightParen, 1))
    } else if c == ',' {
        Some((Mark::Comma, 1))
    } else if c == ':' {
        Some((Mark::Colon, 1))
    } else if c == '=' {
        if doubled {
            Some((Mark::EqualEqual, 2))
        } else {
            Some((Mark::Equal, 1))
        }
    } else if c == '!' {
        if doubled {
            Some((Mark::BangEqual, 2))
        } else {
            None
        }
    } else if c == '<' {
        if doubled {
            Some((Mark::LessEqual, 2))
        } else {
            Some((Mark::Less, 1))
        }
    } else if c == '>' {
        if doubled {
            Some((Mark::GreaterEqual, 2))
        } else {
            Some((Mark::Greater, 1))
        }
    } else if c == '.' {
        Some((Mark::Dot, 1))
    } else if c == '-' {
        Some((Mark::Minus, 1))
    } else {
        None
    }
}

// ---------------------------------------------------------------------------
// Whole files

/// The token at `at`, which is neither blank nor the start of a comment.
pub open spec fn lex_token(cs: Seq<char>, at: int) -> Lexed {
    let c = cs[at];
    if c == '-' && 0 <= at + 1 < cs.len() && is_digit(cs[at + 1]) {
        lex_number(cs, at, true)
    } else if let Some((mark, width)) = symbol(cs, at) {
        Ok((TokenKindModel::Mark(mark), at + width))
    } else if c == '"' {
        lex_string(cs, at, at + 1, Seq::empty())
    } else if is_digit(c) {
        lex_number(cs, at, false)
    } else if is_identifier_start(c) {
        lex_identifier(cs, at)
    } else {
        Err(
            error_of("unexpected character `"@ + seq![c] + "`"@, span_between(cs, at, at + 1)),
        )
    }
}

/// Whether `c` separates tokens.
pub open spec fn is_blank(c: char) -> bool {
    c == ' ' || c == '\t' || c == '\r' || c == '\n'
}

/// The tokens of the text from `at` on, behind `tokens`; `fresh` tells whether
/// a line break stands between the last of them and `at`.
pub open spec fn lex_from(cs: Seq<char>, at: int, fresh: bool, tokens: Seq<TokenModel>) -> Result<
    Seq<TokenModel>,
    ErrorModel,
>
    decreases cs.len() - at,
{
    if at < 0 || at >= cs.len() {
        Ok(
            tokens.push(
                TokenModel {
                    kind: TokenKindModel::Mark(Mark::End),
                    span: span_between(cs, cs.len() as int, cs.len() as int),
                    fresh_line: fresh,
                },
            ),
        )
    } else if is_blank(cs[at]) {
        lex_from(cs, at + 1, fresh || cs[at] == '\n', tokens)
    } else if cs[at] == '/' && has_char(cs, at + 1, '/') {
        let end = run_end(Class::Line, cs, at + 2);
        if at < end <= cs.len() {
            lex_from(cs, end, fresh, tokens)
        } else {
            Ok(tokens)
        }
    } else {
        match lex_token(cs, at) {
            Ok((kind, end)) => {
                if at < end <= cs.len() {
                    lex_from(
                        cs,
                        end,
                        false,
                        tokens.push(
                            TokenModel {
                                kind,
                                span: span_between(cs, at, end),
                                fresh_line: fresh,
                            },
                        ),
                    )
                } else {
                    Ok(tokens)
                }
            },
            Err(error) => Err(error),
        }
    }
}

/// The tokens of a source text; the last one is the end of the file.
pub open spec fn lex(cs: Seq<char>) -> Result<Seq<TokenModel>, ErrorModel> {
    lex_from(cs, 0, false, Seq::empty())
}

/// Whether the end of the file is the last token and no other.
pub open spec fn ends_once(tokens: Seq<TokenModel>) -> bool {
    &&& tokens.len() > 0
    &&& forall|i: int|
        0 <= i < tokens.len() ==> ((#[trigger] tokens[i]).kind == TokenKindModel::Mark(Mark::End)
            <==> i == tokens.len() - 1)
}

/// Reads the token at `at`.
fn read_token(source: &Source, at: usize) -> (result: Result<(TokenKind, usize), SyntaxError>)
    requires
        source.valid(),
        at < source.chars@.len(),
    ensures
        lexed(result) == lex_token(source.chars@, at as int),
        result is Ok ==> at < result->Ok_0.1 <= source.chars@.len() && result->Ok_0.0.model()
            != TokenKindModel::Mark(Mark::End),
{
    let chars: &Vec<char> = &source.chars;
    let count: usize = chars.len();
    let c: char = chars[at];
    if c == '-' && at + 1 < count && digit_char(chars[at + 1]) {
        return read_number(source, at, true);
    }
    if let Some((mark, width)) = symbol_at(chars, at) {
        return Ok((TokenKind::Mark(mark), at + width));
    }
    if c == '"' {
        return read_string(source, at);
    }
    if digit_char(c) {
        return read_number(source, at, false);
    }
    if letter_char(c) || c == '_' {
        let end: usize = run(Class::Identifier, chars, at + 1);
        let text: String = text_between(chars, at, end);
        return match keyword_of(text.as_str()) {
            Some(mark) => Ok((TokenKind::Mark(mark), end)),
            None => Ok((TokenKind::Identifier(text), end)),
        };
    }
    let shown: String = text_between(chars, at, at + 1);
    proof {
        assert(chars@.subrange(at as int, at + 1) =~= seq![c]);
    }
    let message: String = wrapped("unexpected character `", shown.as_str(), "`");
    Err(SyntaxError::new(message.as_str(), source.span(at, at + 1)))
}

/// Reads all tokens of `text`.
pub fn tokenize(text: &str) -> (result: Result<Vec<Token>, SyntaxError>)
    ensures
        match result {
            Ok(tokens) => lex(text@) == Ok::<Seq<TokenModel>, ErrorModel>(token_models(tokens@))
                && ends_once(token_models(tokens@)),
            Err(error) => lex(text@) == Err::<Seq<TokenModel>, ErrorModel>(error.model()),
        },
{
    let source: Source = Source::new(text);
    let chars: &Vec<char> = &source.chars;
    let count: usize = chars.len();
    let ghost cs = text@;
    let mut tokens: Vec<Token> = Vec::new();
    let mut fresh: bool = false;
    let mut at: usize = 0;
    proof {
        assert(token_models(tokens@) =~= Seq::<TokenModel>::empty());
    }
    while at < count
        invariant
            source.valid(),
            source.chars@ == cs,
            chars@ == cs,
            count == cs.len(),
            at <= count,
            cs == text@,
            lex(cs) == lex_from(cs, at as int, fresh, token_models(tokens@)),
            forall|i: int|
                0 <= i < tokens@.len() ==> (#[trigger] tokens@[i]).model().kind
                    != TokenKindModel::Mark(Mark::End),
        decreases count - at,
    {
        let c: char = chars[at];
        if c == ' ' || c == '\t' || c == '\r' || c == '\n' {
            fresh = fresh || c == '\n';
            at += 1;
        } else if c == '/' && at + 1 < count && chars[at + 1] == '/' {
            at = run(Class::Line, chars, at + 2);
        } else {
            match read_token(&source, at) {
                Ok((kind, end)) => {
                    let ghost held = tokens@;
                    let token: Token = Token {
                        kind,
                        span: source.span(at, end),
                        fresh_line: fresh,
                    };
                    tokens.push(token);
                    proof {
                        assert(token_models(tokens@) =~= token_models(held).push(token.model()));
                    }
                    fresh = false;
                    at = end;
                },
                Err(error) => {
                    return Err(error);
                },
            }
        }
    }
    let ghost held = tokens@;
    let last: Token = Token {
        kind: TokenKind::Mark(Mark::End),
        span: source.span(count, count),
        fresh_line: fresh,
    };
    tokens.push(last);
    proof {
        assert(token_models(tokens@) =~= token_models(held).push(last.model()));
        let models = token_models(tokens@);
        assert forall|i: int| 0 <= i < models.len() implies ((#[trigger] models[i]).kind
            == TokenKindModel::Mark(Mark::End) <==> i == models.len() - 1) by {
            if i < models.len() - 1 {
                assert(held[i].model() == models[i]);
            }
        }
    }
    Ok(tokens)
}

/// Whether tokens stand behind each other, and none reaches beyond `limit`.
pub open spec fn in_order(tokens: Seq<TokenModel>, limit: nat) -> bool {
    &&& forall|i: int|
        0 <= i < tokens.len() ==> (#[trigger] tokens[i]).span.start <= tokens[i].span.end <= limit
    &&& forall|i: int, j: int|
        0 <= i < j < tokens.len() ==> (#[trigger] tokens[i]).span.end <= (
        #[trigger] tokens[j]).span.start
}

proof fn lemma_in_order(cs: Seq<char>, at: int, fresh: bool, tokens: Seq<TokenModel>)
    requires
        0 <= at <= cs.len(),
        encode_utf8(cs).len() <= usize::MAX,
        in_order(tokens, byte_offset_of(cs, at)),
    ensures
        lex_from(cs, at, fresh, tokens) matches Ok(result) ==> in_order(
            result,
            encode_utf8(cs).len(),
        ),
    decreases cs.len() - at,
{
    let total = cs.len() as int;
    lemma_offset_total(cs);
    lemma_offset_grows(cs, at, total);
    if at < total {
        if is_blank(cs[at]) {
            lemma_offset_grows(cs, at, at + 1);
            lemma_in_order(cs, at + 1, fresh || cs[at] == '\n', tokens);
        } else if cs[at] == '/' && has_char(cs, at + 1, '/') {
            let end = run_end(Class::Line, cs, at + 2);
            if at < end <= cs.len() {
                lemma_offset_grows(cs, at, end);
                lemma_in_order(cs, end, fresh, tokens);
            }
        } else {
            match lex_token(cs, at) {
                Ok((kind, end)) => {
                    if at < end <= cs.len() {
                        lemma_offset_grows(cs, at, end);
                        lemma_offset_grows(cs, end, total);
                        let token = TokenModel {
                            kind,
                            span: span_between(cs, at, end),
                            fresh_line: fresh,
                        };
                        lemma_in_order(cs, end, false, tokens.push(token));
                    }
                },
                Err(_) => {},
            }
        }
    }
}

/// The tokens of a text stand behind each other, inside the text.
pub proof fn law_tokens_are_in_order(cs: Seq<char>)
    requires
        encode_utf8(cs).len() <= usize::MAX,
    ensures
        lex(cs) matches Ok(tokens) ==> in_order(tokens, encode_utf8(cs).len()),
{
    lemma_in_order(cs, 0, false, Seq::empty());
}

} // verus!
