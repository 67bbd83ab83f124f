//! Spans of time as they are written and read.

use vstd::arithmetic::power::lemma_pow0;
use vstd::prelude::*;

use crate::duration::Duration;
use crate::grammar::{
    and_rest, or_rest, parse_and, parse_call, parse_comparison, parse_expression,
    parse_member_access, parse_operand, parse_or, parse_primary_expression, parse_unary, value_of,
    Tokens,
};
use crate::lexer::{
    decimal_parts, digit_placed, in_class, lex, lex_decimal, lex_from, lex_number, lex_token,
    numeral, plain_digits, run_end, unit_nanos, valid_digits, Class, Mark, TokenKindModel,
    TokenModel,
};
use crate::syntax::ExpressionKindModel;
use crate::text::{decimal, is_digit};
use crate::timing::duration_text;

verus! {

/// A numeral is a row of digits, whose value is the number.
pub(crate) proof fn lemma_decimal(value: nat)
    ensures
        decimal(value).len() > 0,
        forall|i: int| 0 <= i < decimal(value).len() ==> is_digit(#[trigger] decimal(value)[i]),
        numeral(decimal(value), 10) == value,
    decreases value,
{
    let text = decimal(value);
    if value < 10 {
        assert(text.drop_last() =~= Seq::empty());
        assert(numeral(text.drop_last(), 10) == 0);
    } else {
        lemma_decimal(value / 10);
        assert(text.drop_last() =~= decimal(value / 10));
    }
}

proof fn lemma_digits_run(text: Seq<char>, count: int, from: int)
    requires
        0 <= from <= count < text.len(),
        forall|i: int| 0 <= i < count ==> is_digit(#[trigger] text[i]),
        !in_class(Class::Digits, text[count]),
    ensures
        run_end(Class::Digits, text, from) == count,
    decreases count - from,
{
    if from < count {
        lemma_digits_run(text, count, from + 1);
    }
}

/// A numeral with a unit behind it is one token.
proof fn lemma_token(value: nat, unit: Seq<char>, scale: nat)
    requires
        unit == "s"@ || unit == "ms"@ || unit == "us"@ || unit == "ns"@ || unit == "m"@ || unit
            == "h"@,
        unit_nanos(unit) == Some(scale),
        value * scale <= u64::MAX,
    ensures
        ({
            let text = decimal(value) + unit;
            lex_token(text, 0) == Ok::<_, crate::syntax::ErrorModel>(
                (TokenKindModel::DurationNanos((value * scale) as u64), text.len() as int),
            )
        }),
{
    reveal_strlit("s");
    reveal_strlit("ms");
    reveal_strlit("us");
    reveal_strlit("ns");
    reveal_strlit("m");
    reveal_strlit("h");
    lemma_decimal(value);
    let digits = decimal(value);
    let count = digits.len() as int;
    let text = digits + unit;
    let total = text.len() as int;
    assert forall|i: int| 0 <= i < count implies is_digit(#[trigger] text[i]) by {
        assert(text[i] == digits[i]);
    }
    assert(text[count] == unit[0]);
    assert(text[total - 1] == unit.last());
    lemma_digits_run(text, count, 0);
    let parts = decimal_parts(text, 0);
    assert(parts.integer_end == count);
    assert(!parts.has_fraction && !parts.has_exponent);
    assert(parts.number_end == count);
    assert(run_end(Class::Identifier, text, total) == total);
    assert(run_end(Class::Identifier, text, total - 1) == total);
    assert(run_end(Class::Identifier, text, count) == total);
    assert(parts.end == total);
    assert(parts.integer(text) =~= digits);
    assert(parts.suffix(text) =~= unit);
    assert(parts.fraction(text) =~= Seq::empty());
    assert(plain_digits(Seq::<char>::empty()).len() == 0);
    lemma_pow0(10);
    assert forall|i: int| 0 <= i < digits.len() implies #[trigger] digit_placed(digits, i, 10) by {
        assert(is_digit(digits[i]));
    }
    assert(valid_digits(digits, 10));
    assert(value * scale == (value * scale) as u64);
    assert(lex_decimal(text, 0, 0, false) == lex_number(text, 0, false));
    assert(lex_token(text, 0) == lex_number(text, 0, false));
}

/// A span of time as the only token is a value.
proof fn lemma_parsed(tokens: Tokens, nanos: u64)
    requires
        tokens.len() == 2,
        tokens[0].kind == TokenKindModel::DurationNanos(nanos),
        tokens[1].kind == TokenKindModel::Mark(Mark::End),
    ensures
        parse_expression(tokens, 0, false) matches Ok((value, end)) && value.kind
            == ExpressionKindModel::DurationNanos(nanos) && end == 1,
{
    let operand = parse_operand(tokens, 0, false)->Ok_0.0;
    assert(parse_operand(tokens, 0, false) is Ok);
    assert(parse_call(tokens, 1, false, operand)->Ok_0 == (operand, 1int));
    assert(parse_member_access(tokens, 1, false, operand)->Ok_0 == (operand, 1int));
    assert(parse_primary_expression(tokens, 0, false)->Ok_0 == (operand, 1int));
    assert(parse_unary(tokens, 0, false)->Ok_0 == (operand, 1int));
    assert(parse_comparison(tokens, 0, false)->Ok_0 == (operand, 1int));
    assert(and_rest(tokens, 1, false, operand)->Ok_0 == (operand, 1int));
    assert(parse_and(tokens, 0, false)->Ok_0 == (operand, 1int));
    assert(or_rest(tokens, 1, false, operand)->Ok_0 == (operand, 1int));
    assert(parse_or(tokens, 0, false)->Ok_0 == (operand, 1int));
}

proof fn lemma_read_back(value: nat, unit: Seq<char>, scale: nat)
    requires
        unit == "s"@ || unit == "ms"@ || unit == "us"@ || unit == "ns"@ || unit == "m"@ || unit
            == "h"@,
        unit_nanos(unit) == Some(scale),
        value * scale <= u64::MAX,
    ensures
        value_of(decimal(value) + unit) matches Ok(expression) && expression.kind
            == ExpressionKindModel::DurationNanos((value * scale) as u64),
{
    let text = decimal(value) + unit;
    lemma_token(value, unit, scale);
    lemma_decimal(value);
    assert(text[0] == decimal(value)[0]);
    let kind = TokenKindModel::DurationNanos((value * scale) as u64);
    let total = text.len() as int;
    let tokens = lex_from(text, total, false, Seq::empty().push(
        TokenModel {
            kind,
            span: crate::lexer::span_between(text, 0, total),
            fresh_line: false,
        },
    ));
    assert(lex(text) == tokens);
    lemma_parsed(tokens->Ok_0, (value * scale) as u64);
}

/// A span of time that is written can be read back.
pub proof fn law_durations_read_back(duration: Duration)
    requires
        duration.nanos <= u64::MAX,
    ensures
        value_of(duration_text(duration)) matches Ok(expression) && expression.kind
            == ExpressionKindModel::DurationNanos(duration.nanos as u64),
{
    reveal_strlit("s");
    reveal_strlit("ms");
    reveal_strlit("us");
    reveal_strlit("ns");
    let nanos = duration.nanos;
    assert("ns"@[0] == 'n' && "us"@[0] == 'u' && "ms"@[0] == 'm' && "s"@[0] == 's');
    assert("ns"@.len() == 2 && "us"@.len() == 2 && "ms"@.len() == 2 && "s"@.len() == 1);
    if nanos % 1_000_000_000 == 0 {
        lemma_read_back((nanos / 1_000_000_000) as nat, "s"@, 1_000_000_000);
    } else if nanos % 1_000_000 == 0 {
        lemma_read_back((nanos / 1_000_000) as nat, "ms"@, 1_000_000);
    } else if nanos % 1_000 == 0 {
        lemma_read_back((nanos / 1_000) as nat, "us"@, 1_000);
    } else {
        lemma_read_back(nanos as nat, "ns"@, 1);
    }
}

/// How long a unit of time is, in nanoseconds.
pub open spec fn length_of_unit(unit: Seq<char>) -> nat {
    let micro: nat = 1000;
    let milli = 1000 * micro;
    let second = 1000 * milli;
    let minute = 60 * second;
    if unit == "h"@ {
        60 * minute
    } else if unit == "m"@ {
        minute
    } else if unit == "s"@ {
        second
    } else if unit == "ms"@ {
        milli
    } else if unit == "us"@ {
        micro
    } else {
        1
    }
}

/// A number with a unit behind it is that many times the unit: sixty minutes
/// make an hour, sixty seconds a minute, and a thousand of each smaller one the
/// next.
pub proof fn law_units_multiply(value: nat, unit: Seq<char>)
    requires
        unit == "s"@ || unit == "ms"@ || unit == "us"@ || unit == "ns"@ || unit == "m"@ || unit
            == "h"@,
        value * length_of_unit(unit) <= u64::MAX,
    ensures
        value_of(decimal(value) + unit) matches Ok(expression) && expression.kind
            == ExpressionKindModel::DurationNanos((value * length_of_unit(unit)) as u64),
{
    reveal_strlit("s");
    reveal_strlit("ms");
    reveal_strlit("us");
    reveal_strlit("ns");
    reveal_strlit("m");
    reveal_strlit("h");
    assert("s"@.len() == 1 && "m"@.len() == 1 && "h"@.len() == 1);
    assert("ms"@.len() == 2 && "us"@.len() == 2 && "ns"@.len() == 2);
    assert("s"@[0] == 's' && "m"@[0] == 'm' && "h"@[0] == 'h');
    assert("ms"@[0] == 'm' && "us"@[0] == 'u' && "ns"@[0] == 'n');
    assert(unit_nanos(unit) == Some(length_of_unit(unit)));
    lemma_read_back(value, unit, length_of_unit(unit));
}

} // verus!
