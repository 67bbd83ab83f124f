//! What rows of tokens are read as.

use vstd::prelude::*;

use crate::grammar::{
    advanced, and_rest, array_items, block_statements, conditional, context_member, field_position,
    is_identifier, is_mark, optional_option, or_rest, parse_and, parse_assertion, parse_comparison,
    parse_concurrency, parse_declaration, parse_expression, parse_flow, parse_for,
    parse_object_field, parse_operand, parse_parameters, parse_policy_options, parse_rate,
    parse_retry, parse_statement, parse_statement_block, parse_test, parse_unary, parse_within,
    required_option, Tokens,
};
use crate::lexer::{Mark, TokenKindModel};
use crate::syntax::{
    BinaryOperator, ContextMemberModel, DeclarationKind, ErrorModel, ExpressionKindModel,
    ExpressionModel, ObjectFieldModel, ProgramModel, Span, SpannedModel, StatementModel,
};

verus! {

// ---------------------------------------------------------------------------
// Expressions

/// Whether a comparison, or what is simpler than one, stands in a row of tokens.
pub open spec fn compares_at(
    ts: Tokens,
    at: int,
    bare: bool,
    expression: ExpressionModel,
    end: int,
) -> bool {
    parse_comparison(ts, at, bare) == Ok::<_, ErrorModel>((expression, end)) && 0 <= at < end
        < ts.len()
}

/// Whether an expression is an operator with two others, in their order.
pub open spec fn is_operation(
    expression: ExpressionModel,
    left: ExpressionModel,
    operator: BinaryOperator,
    right: ExpressionModel,
) -> bool {
    expression.kind matches ExpressionKindModel::Binary { left: one, operator: found, right: other }
        && *one == left && found == operator && *other == right
}

/// `and` holds its operands together more tightly than `or`, and each of them
/// goes together from the left.
pub proof fn law_and_before_or(
    ts: Tokens,
    at: int,
    bare: bool,
    a: ExpressionModel,
    first: int,
    b: ExpressionModel,
    second: int,
    c: ExpressionModel,
    end: int,
)
    requires
        compares_at(ts, at, bare, a, first),
        compares_at(ts, first + 1, bare, b, second),
        compares_at(ts, second + 1, bare, c, end),
        !is_mark(ts, end, Mark::And),
        !is_mark(ts, end, Mark::Or),
    ensures
        is_mark(ts, first, Mark::Or) && is_mark(ts, second, Mark::And) ==> (parse_expression(
            ts,
            at,
            bare,
        ) matches Ok((whole, behind)) && behind == end && exists|inner: ExpressionModel| #[trigger]
            is_operation(inner, b, BinaryOperator::And, c) && is_operation(
                whole,
                a,
                BinaryOperator::Or,
                inner,
            )),
        is_mark(ts, first, Mark::And) && is_mark(ts, second, Mark::Or) ==> (parse_expression(
            ts,
            at,
            bare,
        ) matches Ok((whole, behind)) && behind == end && exists|inner: ExpressionModel| #[trigger]
            is_operation(inner, a, BinaryOperator::And, b) && is_operation(
                whole,
                inner,
                BinaryOperator::Or,
                c,
            )),
        is_mark(ts, first, Mark::Or) && is_mark(ts, second, Mark::Or) ==> (parse_expression(
            ts,
            at,
            bare,
        ) matches Ok((whole, behind)) && behind == end && exists|inner: ExpressionModel| #[trigger]
            is_operation(inner, a, BinaryOperator::Or, b) && is_operation(
                whole,
                inner,
                BinaryOperator::Or,
                c,
            )),
        is_mark(ts, first, Mark::And) && is_mark(ts, second, Mark::And) ==> (parse_expression(
            ts,
            at,
            bare,
        ) matches Ok((whole, behind)) && behind == end && exists|inner: ExpressionModel| #[trigger]
            is_operation(inner, a, BinaryOperator::And, b) && is_operation(
                whole,
                inner,
                BinaryOperator::And,
                c,
            )),
{
    let joined = |left: ExpressionModel, operator: BinaryOperator, right: ExpressionModel|
        crate::grammar::binary(left, operator, right);
    if is_mark(ts, first, Mark::Or) && is_mark(ts, second, Mark::And) {
        let inner = joined(b, BinaryOperator::And, c);
        let whole = joined(a, BinaryOperator::Or, inner);
        assert(and_rest(ts, first, bare, a) == Ok::<_, ErrorModel>((a, first)));
        assert(parse_and(ts, at, bare) == Ok::<_, ErrorModel>((a, first)));
        assert(and_rest(ts, end, bare, inner) == Ok::<_, ErrorModel>((inner, end)));
        assert(and_rest(ts, second, bare, b) == Ok::<_, ErrorModel>((inner, end)));
        assert(parse_and(ts, first + 1, bare) == Ok::<_, ErrorModel>((inner, end)));
        assert(or_rest(ts, end, bare, whole) == Ok::<_, ErrorModel>((whole, end)));
        assert(or_rest(ts, first, bare, a) == Ok::<_, ErrorModel>((whole, end)));
        assert(is_operation(inner, b, BinaryOperator::And, c));
    }
    if is_mark(ts, first, Mark::And) && is_mark(ts, second, Mark::Or) {
        let inner = joined(a, BinaryOperator::And, b);
        let whole = joined(inner, BinaryOperator::Or, c);
        assert(and_rest(ts, second, bare, inner) == Ok::<_, ErrorModel>((inner, second)));
        assert(and_rest(ts, first, bare, a) == Ok::<_, ErrorModel>((inner, second)));
        assert(parse_and(ts, at, bare) == Ok::<_, ErrorModel>((inner, second)));
        assert(and_rest(ts, end, bare, c) == Ok::<_, ErrorModel>((c, end)));
        assert(parse_and(ts, second + 1, bare) == Ok::<_, ErrorModel>((c, end)));
        assert(or_rest(ts, end, bare, whole) == Ok::<_, ErrorModel>((whole, end)));
        assert(or_rest(ts, second, bare, inner) == Ok::<_, ErrorModel>((whole, end)));
        assert(is_operation(inner, a, BinaryOperator::And, b));
    }
    if is_mark(ts, first, Mark::Or) && is_mark(ts, second, Mark::Or) {
        let inner = joined(a, BinaryOperator::Or, b);
        let whole = joined(inner, BinaryOperator::Or, c);
        assert(and_rest(ts, first, bare, a) == Ok::<_, ErrorModel>((a, first)));
        assert(parse_and(ts, at, bare) == Ok::<_, ErrorModel>((a, first)));
        assert(and_rest(ts, second, bare, b) == Ok::<_, ErrorModel>((b, second)));
        assert(parse_and(ts, first + 1, bare) == Ok::<_, ErrorModel>((b, second)));
        assert(and_rest(ts, end, bare, c) == Ok::<_, ErrorModel>((c, end)));
        assert(parse_and(ts, second + 1, bare) == Ok::<_, ErrorModel>((c, end)));
        assert(or_rest(ts, end, bare, whole) == Ok::<_, ErrorModel>((whole, end)));
        assert(or_rest(ts, second, bare, inner) == Ok::<_, ErrorModel>((whole, end)));
        assert(or_rest(ts, first, bare, a) == Ok::<_, ErrorModel>((whole, end)));
        assert(is_operation(inner, a, BinaryOperator::Or, b));
    }
    if is_mark(ts, first, Mark::And) && is_mark(ts, second, Mark::And) {
        let inner = joined(a, BinaryOperator::And, b);
        let whole = joined(inner, BinaryOperator::And, c);
        assert(and_rest(ts, end, bare, whole) == Ok::<_, ErrorModel>((whole, end)));
        assert(and_rest(ts, second, bare, inner) == Ok::<_, ErrorModel>((whole, end)));
        assert(and_rest(ts, first, bare, a) == Ok::<_, ErrorModel>((whole, end)));
        assert(parse_and(ts, at, bare) == Ok::<_, ErrorModel>((whole, end)));
        assert(or_rest(ts, end, bare, whole) == Ok::<_, ErrorModel>((whole, end)));
        assert(is_operation(inner, a, BinaryOperator::And, b));
    }
}

/// `not` and a minus apply to what stands right behind them, and literals are
/// read as what they are.
pub proof fn law_operands_are_read(ts: Tokens, at: int, bare: bool)
    requires
        0 <= at < ts.len(),
    ensures
        is_mark(ts, at, Mark::Not) ==> (parse_unary(ts, at + 1, bare) matches Ok((inner, end)) ==> (
        parse_unary(ts, at, bare) matches Ok((whole, behind)) && behind == end && whole.kind
            == ExpressionKindModel::Not(Box::new(inner)))),
        is_mark(ts, at, Mark::Minus) ==> (parse_unary(ts, at + 1, bare) matches Ok((inner, end))
            ==> (parse_unary(ts, at, bare) matches Ok((whole, behind)) && behind == end
            && whole.kind == ExpressionKindModel::Negate(Box::new(inner)))),
        ({
            let kind = match ts[at].kind {
                TokenKindModel::Mark(Mark::Null) => Some(ExpressionKindModel::Null),
                TokenKindModel::Mark(Mark::True) => Some(ExpressionKindModel::Boolean(true)),
                TokenKindModel::Mark(Mark::False) => Some(ExpressionKindModel::Boolean(false)),
                TokenKindModel::Integer(value) => Some(ExpressionKindModel::Integer(value)),
                TokenKindModel::Float(value) => Some(ExpressionKindModel::Float(value)),
                TokenKindModel::DurationNanos(value) => Some(
                    ExpressionKindModel::DurationNanos(value),
                ),
                TokenKindModel::String(value) => Some(ExpressionKindModel::String(value)),
                _ => None,
            };
            kind matches Some(kind) ==> (parse_operand(ts, at, bare) matches Ok((operand, end))
                && operand.kind == kind && operand.span == ts[at].span && end == at + 1)
        }),
        is_mark(ts, at, Mark::LeftParen) ==> (parse_expression(ts, at + 1, bare) matches Ok(
            (inner, close),
        ) ==> (is_mark(ts, close, Mark::RightParen) ==> (parse_operand(ts, at, bare) matches Ok(
            (whole, end),
        ) && whole.kind == inner.kind && end == close + 1))),
        ts[at].kind matches TokenKindModel::Identifier(name) ==> (!is_mark(ts, at + 1, Mark::Dot)
            ==> (parse_operand(ts, at, bare) matches Ok((operand, end)) && operand.kind
            == ExpressionKindModel::Name(name) && end == at + 1)),
{
}

proof fn lemma_items(
    ts: Tokens,
    at: int,
    bare: bool,
    values: Seq<ExpressionModel>,
)
    ensures
        array_items(ts, at, bare, values) matches Ok((all, end)) ==> values.len() < all.len()
            && all.take(values.len() as int) == values && (parse_expression(ts, at, bare) matches Ok(
            (next, _),
        ) && all[values.len() as int] == next),
    decreases ts.len() - at,
{
    if let Ok((value, next)) = parse_expression(ts, at, bare) {
        let more = values.push(value);
        assert(more.take(values.len() as int) =~= values);
        if advanced(ts, at, next) && is_mark(ts, next, Mark::Comma) && !is_mark(
            ts,
            next + 1,
            Mark::RightBracket,
        ) {
            lemma_items(ts, next + 1, bare, more);
            if let Ok((all, end)) = array_items(ts, at, bare, values) {
                assert(all.take(values.len() as int) =~= all.take(more.len() as int).take(
                    values.len() as int,
                ));
                assert(all.take(more.len() as int)[values.len() as int] == value);
            }
        }
    }
}

/// The elements of an array are read in their order, each behind those before it.
pub proof fn law_elements_are_read_in_order(
    ts: Tokens,
    at: int,
    bare: bool,
    values: Seq<ExpressionModel>,
)
    ensures
        array_items(ts, at, bare, values) matches Ok((all, end)) ==> values.len() < all.len()
            && all.take(values.len() as int) == values && (parse_expression(ts, at, bare) matches Ok(
            (next, _),
        ) && all[values.len() as int] == next),
{
    lemma_items(ts, at, bare, values);
}

/// A field of an object has the name that is written before its colon and the
/// value behind it.
pub proof fn law_fields_are_read(ts: Tokens, at: int, bare: bool)
    requires
        0 <= at && at + 2 < ts.len(),
    ensures
        parse_object_field(ts, at, bare) matches Ok((field, end)) ==> {
            &&& is_mark(ts, at + 1, Mark::Colon)
            &&& ts[at].kind == TokenKindModel::Identifier(field.name.value) || ts[at].kind
                == TokenKindModel::String(field.name.value)
            &&& parse_expression(ts, at + 2, bare) == Ok::<_, ErrorModel>((field.expression, end))
        },
{
}

// ---------------------------------------------------------------------------
// Policies

/// Whether an option has a value: the one that is written behind its name.
pub open spec fn gives_option(
    options: Seq<ObjectFieldModel>,
    name: Seq<char>,
    value: ExpressionModel,
) -> bool {
    exists|i: int|
        0 <= i < options.len() && (#[trigger] options[i]).name.value == name
            && options[i].expression == value
}

pub open spec fn lacks_option(options: Seq<ObjectFieldModel>, name: Seq<char>) -> bool {
    forall|i: int| 0 <= i < options.len() ==> (#[trigger] options[i]).name.value != name
}

proof fn lemma_position(options: Seq<ObjectFieldModel>, name: Seq<char>, from: int)
    requires
        0 <= from <= options.len(),
        forall|i: int| 0 <= i < from ==> (#[trigger] options[i]).name.value != name,
    ensures
        match field_position(options, name, from) {
            Some(at) => from <= at < options.len() && options[at].name.value == name,
            None => lacks_option(options, name),
        },
    decreases options.len() - from,
{
    if from < options.len() && options[from].name.value != name {
        lemma_position(options, name, from + 1);
    }
}

/// Taking an option out gives its value and leaves the others.
proof fn lemma_option(
    options: Seq<ObjectFieldModel>,
    name: Seq<char>,
    other: Seq<char>,
    value: ExpressionModel,
    span: Span,
)
    ensures
        required_option(options, name, span) matches Ok((found, rest)) ==> gives_option(
            options,
            name,
            found,
        ) && (name != other ==> (gives_option(rest, other, value) ==> gives_option(
            options,
            other,
            value,
        )) && (lacks_option(rest, other) ==> lacks_option(options, other))),
        optional_option(options, name).0 matches Some(found) ==> gives_option(
            options,
            name,
            found,
        ),
        optional_option(options, name).0 is None ==> lacks_option(options, name),
        ({
            let rest = optional_option(options, name).1;
            name != other ==> (gives_option(rest, other, value) ==> gives_option(
                options,
                other,
                value,
            )) && (lacks_option(rest, other) ==> lacks_option(options, other))
        }),
{
    reveal(required_option);
    reveal(optional_option);
    lemma_position(options, name, 0);
    if let Some(at) = field_position(options, name, 0) {
        let rest = options.remove(at);
        if name != other {
            if gives_option(rest, other, value) {
                let i = choose|i: int|
                    0 <= i < rest.len() && (#[trigger] rest[i]).name.value == other
                        && rest[i].expression == value;
                let k = if i < at {
                    i
                } else {
                    i + 1
                };
                assert(options[k] == rest[i]);
            }
            if lacks_option(rest, other) {
                assert forall|i: int| 0 <= i < options.len() implies (
                #[trigger] options[i]).name.value != other by {
                    if i < at {
                        assert(rest[i] == options[i]);
                    } else if i > at {
                        assert(rest[i - 1] == options[i]);
                    }
                }
            }
        }
    }
}

pub(crate) proof fn lemma_optional(options: Seq<ObjectFieldModel>, name: Seq<char>)
    ensures
        optional_option(options, name).0 matches Some(found) ==> gives_option(
            options,
            name,
            found,
        ),
        optional_option(options, name).0 is None ==> lacks_option(options, name),
{
    reveal(optional_option);
    lemma_position(options, name, 0);
}

proof fn lemma_policy_names()
    ensures
        "attempts"@ != "delay"@,
        "target"@ != "period"@,
        "target"@ != "duration"@,
        "target"@ != "limit"@,
        "period"@ != "duration"@,
        "period"@ != "limit"@,
        "duration"@ != "limit"@,
{
    reveal_strlit("attempts");
    reveal_strlit("delay");
    reveal_strlit("target");
    reveal_strlit("period");
    reveal_strlit("duration");
    reveal_strlit("limit");
    assert("attempts"@.len() == 8 && "delay"@.len() == 5 && "target"@.len() == 6);
    assert("period"@.len() == 6 && "duration"@.len() == 8 && "limit"@.len() == 5);
    assert("target"@[0] == 't' && "period"@[0] == 'p');
}

/// The settings of a `retry` are those that are written behind `attempts` and
/// `delay`, in whatever order, and its body is the block behind them.
pub proof fn law_retries_are_read(ts: Tokens, at: int, bare: bool, start: Span)
    ensures
        parse_retry(ts, at, bare, start) matches Ok((whole, end)) ==> (parse_policy_options(
            ts,
            at,
            bare,
        ) matches Ok((options, next)) && {
            &&& whole.kind matches ExpressionKindModel::Retry { attempts, delay, body } && {
                &&& gives_option(options, "attempts"@, *attempts)
                &&& delay matches Some(delay) ==> gives_option(options, "delay"@, *delay)
                &&& delay is None ==> lacks_option(options, "delay"@)
                &&& body.kind matches ExpressionKindModel::Block(statements) && (
                parse_statement_block(ts, next, bare) matches Ok(((block, _), behind)) && block
                    == statements && behind == end)
            }
        }),
{
    lemma_policy_names();
    if let Ok((options, next)) = parse_policy_options(ts, at, bare) {
        if let Ok((attempts, others)) = required_option(options, "attempts"@, start) {
            let delay = optional_option(others, "delay"@).0;
            let value = match delay {
                Some(delay) => delay,
                None => attempts,
            };
            lemma_option(options, "attempts"@, "delay"@, value, start);
            lemma_option(others, "delay"@, "attempts"@, value, start);
        }
    }
}

/// The deadline of a `within` is what is written behind `timeout`.
pub proof fn law_deadlines_are_read(ts: Tokens, at: int, bare: bool, start: Span)
    ensures
        parse_within(ts, at, bare, start) matches Ok((whole, end)) ==> (parse_policy_options(
            ts,
            at,
            bare,
        ) matches Ok((options, next)) && {
            &&& whole.kind matches ExpressionKindModel::Within { timeout, body } && {
                &&& gives_option(options, "timeout"@, *timeout)
                &&& body.kind matches ExpressionKindModel::Block(statements) && (
                parse_statement_block(ts, next, bare) matches Ok(((block, _), behind)) && block
                    == statements && behind == end)
            }
        }),
{
    if let Ok((options, next)) = parse_policy_options(ts, at, bare) {
        if let Ok((timeout, others)) = required_option(options, "timeout"@, start) {
            lemma_option(options, "timeout"@, "timeout"@, timeout, start);
        }
    }
}

/// The settings of a `rate` are those that are written behind their names.
pub proof fn law_rates_are_read(ts: Tokens, at: int, bare: bool, start: Span)
    ensures
        parse_rate(ts, at, bare, start) matches Ok((whole, end)) ==> (parse_policy_options(
            ts,
            at,
            bare,
        ) matches Ok((options, next)) && {
            &&& whole.kind matches ExpressionKindModel::Rate {
                target,
                period,
                duration,
                limit,
                body,
            } && {
                &&& gives_option(options, "target"@, *target)
                &&& gives_option(options, "period"@, *period)
                &&& gives_option(options, "duration"@, *duration)
                &&& limit matches Some(limit) ==> gives_option(options, "limit"@, *limit)
                &&& limit is None ==> lacks_option(options, "limit"@)
                &&& body.kind matches ExpressionKindModel::Block(statements) && (
                parse_statement_block(ts, next, bare) matches Ok(((block, _), behind)) && block
                    == statements && behind == end)
            }
        }),
{
    lemma_policy_names();
    if let Ok((options, next)) = parse_policy_options(ts, at, bare) {
        if let Ok((target, others)) = required_option(options, "target"@, start) {
            if let Ok((period, more)) = required_option(others, "period"@, start) {
                if let Ok((duration, rest)) = required_option(more, "duration"@, start) {
                    let limit = optional_option(rest, "limit"@).0;
                    let value = match limit {
                        Some(limit) => limit,
                        None => target,
                    };
                    lemma_option(options, "target"@, "target"@, target, start);
                    lemma_option(options, "target"@, "period"@, period, start);
                    lemma_option(options, "target"@, "duration"@, duration, start);
                    lemma_option(options, "target"@, "limit"@, value, start);
                    lemma_option(others, "period"@, "duration"@, duration, start);
                    lemma_option(others, "period"@, "limit"@, value, start);
                    lemma_option(more, "duration"@, "limit"@, value, start);
                    lemma_option(rest, "limit"@, "limit"@, value, start);
                }
            }
        }
    }
}

/// The settings of a `concurrency` are those that are written behind `limit` and
/// `duration`.
pub proof fn law_concurrencies_are_read(ts: Tokens, at: int, bare: bool, start: Span)
    ensures
        parse_concurrency(ts, at, bare, start) matches Ok((whole, end)) ==> (parse_policy_options(
            ts,
            at,
            bare,
        ) matches Ok((options, next)) && {
            &&& whole.kind matches ExpressionKindModel::Concurrency { limit, duration, body } && {
                &&& gives_option(options, "limit"@, *limit)
                &&& gives_option(options, "duration"@, *duration)
                &&& body.kind matches ExpressionKindModel::Block(statements) && (
                parse_statement_block(ts, next, bare) matches Ok(((block, _), behind)) && block
                    == statements && behind == end)
            }
        }),
{
    lemma_policy_names();
    if let Ok((options, next)) = parse_policy_options(ts, at, bare) {
        if let Ok((limit, others)) = required_option(options, "limit"@, start) {
            if let Ok((duration, rest)) = required_option(others, "duration"@, start) {
                lemma_option(options, "limit"@, "duration"@, duration, start);
                lemma_option(others, "duration"@, "duration"@, duration, start);
            }
        }
    }
}

/// A word at the start of an expression says which policy it is.
pub proof fn law_policies_are_read(ts: Tokens, at: int, bare: bool)
    requires
        0 <= at < ts.len(),
    ensures
        parse_operand(ts, at, bare) matches Ok((whole, end)) ==> {
            &&& is_mark(ts, at, Mark::Within) ==> whole.kind is Within
            &&& is_mark(ts, at, Mark::Retry) ==> whole.kind is Retry
            &&& is_mark(ts, at, Mark::Parallel) ==> whole.kind is Parallel
            &&& is_mark(ts, at, Mark::Rate) ==> whole.kind is Rate
            &&& is_mark(ts, at, Mark::Concurrency) ==> whole.kind is Concurrency
            &&& is_mark(ts, at, Mark::For) ==> whole.kind is For
            &&& is_mark(ts, at, Mark::Fail) ==> whole.kind is Fail
            &&& is_mark(ts, at, Mark::LeftBracket) ==> whole.kind is Array
            &&& is_mark(ts, at, Mark::LeftBrace) ==> whole.kind is Object
        },
{
}

/// A loop goes over what is written behind `in`. One name stands for the value;
/// of two, the first stands for the key and the second for the value.
pub proof fn law_loops_are_read(ts: Tokens, at: int, bare: bool, start: Span)
    requires
        0 <= at && at + 3 < ts.len(),
    ensures
        parse_for(ts, at, bare, start) matches Ok((whole, end)) ==> {
            &&& whole.kind matches ExpressionKindModel::For { key, value, iterable, body } && {
                &&& key is None ==> ts[at].kind == TokenKindModel::Identifier(value.value)
                    && is_mark(ts, at + 1, Mark::In) && (parse_expression(ts, at + 2, true)
                    matches Ok((over, _)) && over == *iterable)
                &&& key matches Some(key) ==> ts[at].kind == TokenKindModel::Identifier(key.value)
                    && is_mark(ts, at + 1, Mark::Comma) && ts[at + 2].kind
                    == TokenKindModel::Identifier(value.value) && is_mark(ts, at + 3, Mark::In) && (
                parse_expression(ts, at + 4, true) matches Ok((over, _)) && over == *iterable)
            }
        },
{
}

// ---------------------------------------------------------------------------
// Statements

/// What is returned stands behind `return`, and a context that is used behind
/// `use context`.
pub proof fn law_returns_are_read(ts: Tokens, at: int, bare: bool)
    requires
        0 <= at && at + 2 < ts.len(),
        is_mark(ts, at, Mark::Return) || is_mark(ts, at, Mark::Use),
    ensures
        parse_statement(ts, at, bare) matches Ok((statement, end)) ==> {
            &&& is_mark(ts, at, Mark::Return) ==> (
            statement matches StatementModel::Return { expression, span } && parse_expression(
                ts,
                at + 1,
                bare,
            ) == Ok::<_, ErrorModel>((expression, end)))
            &&& is_mark(ts, at, Mark::Use) ==> (
            statement matches StatementModel::UseContext { name, span } && ts[at + 2].kind
                == TokenKindModel::Identifier(name.value))
        },
{
}

/// What is asserted stands between the parentheses behind `assert`, and a
/// message behind a comma.
pub proof fn law_assertions_are_read(ts: Tokens, at: int, bare: bool)
    requires
        0 <= at && at + 2 < ts.len(),
        is_mark(ts, at, Mark::Assert),
    ensures
        parse_statement(ts, at, bare) matches Ok((statement, end)) ==> (
        statement matches StatementModel::Assert { expression, message, span } && (parse_expression(
            ts,
            at + 2,
            bare,
        ) matches Ok((found, behind)) && found == expression && (message is None <==> !is_mark(
            ts,
            behind,
            Mark::Comma,
        )) && (message matches Some(said) ==> (parse_expression(ts, behind + 1, bare) matches Ok(
            (text, _),
        ) && text == said)))),
{
    assert(parse_statement(ts, at, bare) == parse_assertion(ts, at + 1, bare, ts[at].span));
}

/// A name with `=` behind it is bound to what follows; without it, what stands
/// there is an expression.
pub proof fn law_bindings_are_read(ts: Tokens, at: int, bare: bool)
    requires
        0 <= at && at + 2 < ts.len(),
        is_identifier(ts, at),
    ensures
        parse_statement(ts, at, bare) matches Ok((statement, end)) ==> {
            &&& is_mark(ts, at + 1, Mark::Equal) ==> (
            statement matches StatementModel::Bind { name, expression, span } && ts[at].kind
                == TokenKindModel::Identifier(name.value) && parse_expression(ts, at + 2, bare)
                == Ok::<_, ErrorModel>((expression, end)))
            &&& !is_mark(ts, at + 1, Mark::Equal) ==> (
            statement matches StatementModel::Expression(expression) && parse_expression(
                ts,
                at,
                bare,
            ) == Ok::<_, ErrorModel>((expression, end)))
        },
{
    assert(!is_mark(ts, at, Mark::If) && !is_mark(ts, at, Mark::Use));
    assert(!is_mark(ts, at, Mark::Return) && !is_mark(ts, at, Mark::Assert));
}

/// The first branch of an `if` has the condition between the parentheses and the
/// block behind them, and an `else` without another `if` has the block behind it.
pub proof fn law_conditions_are_read(ts: Tokens, at: int, bare: bool)
    requires
        0 <= at && at + 2 < ts.len(),
        is_mark(ts, at, Mark::If),
    ensures
        parse_statement(ts, at, bare) matches Ok((statement, end)) ==> (
        statement matches StatementModel::If { branches, else_body, span } && branches.len() > 0
            && is_mark(ts, at + 1, Mark::LeftParen) && (parse_expression(ts, at + 2, bare)
            matches Ok((condition, close)) && condition == branches[0].condition && is_mark(
            ts,
            close,
            Mark::RightParen,
        ) && (parse_statement_block(ts, close + 1, bare) matches Ok(((body, _), next)) && body
            == branches[0].body && {
            &&& !is_mark(ts, next, Mark::Else) ==> branches.len() == 1 && else_body is None
            &&& is_mark(ts, next, Mark::Else) && !is_mark(ts, next + 1, Mark::If)
                ==> branches.len() == 1 && (parse_statement_block(ts, next + 1, bare) matches Ok(
                ((other, _), behind),
            ) && else_body == Some(other))
            &&& is_mark(ts, next, Mark::Else) && is_mark(ts, next + 1, Mark::If) ==> branches.len()
                > 1
        }))),
{
    lemma_conditional(ts, at + 1, bare, ts[at].span, ts[at].span, Seq::empty());
    if let Ok((condition, close)) = parse_expression(ts, at + 2, bare) {
        if let Ok(((body, end_span), next)) = parse_statement_block(ts, close + 1, bare) {
            let first = crate::syntax::IfBranchModel {
                condition,
                body,
                span: ts[at].span.joined(end_span),
            };
            let read = Seq::<crate::syntax::IfBranchModel>::empty().push(first);
            if is_mark(ts, next, Mark::Else) && is_mark(ts, next + 1, Mark::If) {
                lemma_conditional(ts, next + 2, bare, ts[at].span, ts[next + 1].span, read);
            }
            assert(read[0] == first);
        }
    }
}

proof fn lemma_conditional(
    ts: Tokens,
    at: int,
    bare: bool,
    start: Span,
    branch_start: Span,
    branches: Seq<crate::syntax::IfBranchModel>,
)
    ensures
        conditional(ts, at, bare, start, branch_start, branches) matches Ok((statement, end)) ==> (
        statement matches StatementModel::If { branches: all, else_body, span } && all.len()
            > branches.len() && forall|i: int|
            0 <= i < branches.len() ==> #[trigger] all[i] == branches[i]),
    decreases ts.len() - at,
{
    if let Ok((condition, close)) = parse_expression(ts, at + 1, bare) {
        if let Ok(((body, end_span), next)) = parse_statement_block(ts, close + 1, bare) {
            let read = branches.push(
                crate::syntax::IfBranchModel {
                    condition,
                    body,
                    span: branch_start.joined(end_span),
                },
            );
            if advanced(ts, at, next) && is_mark(ts, next, Mark::Else) && is_mark(
                ts,
                next + 1,
                Mark::If,
            ) {
                lemma_conditional(ts, next + 2, bare, start, ts[next + 1].span, read);
            }
            if let Ok((statement, end)) = conditional(
                ts,
                at,
                bare,
                start,
                branch_start,
                branches,
            ) {
                if let StatementModel::If { branches: all, else_body, span } = statement {
                    assert forall|i: int| 0 <= i < branches.len() implies #[trigger] all[i]
                        == branches[i] by {
                        assert(all[i] == read[i]);
                    }
                }
            }
        }
    }
}

proof fn lemma_block(ts: Tokens, at: int, bare: bool, statements: Seq<StatementModel>)
    ensures
        block_statements(ts, at, bare, statements) matches Ok(((all, _), end)) ==> {
            &&& statements.len() <= all.len()
            &&& forall|i: int| 0 <= i < statements.len() ==> #[trigger] all[i] == statements[i]
            &&& is_mark(ts, at, Mark::RightBrace) ==> all.len() == statements.len()
            &&& !is_mark(ts, at, Mark::RightBrace) ==> statements.len() < all.len() && (
            parse_statement(ts, at, bare) matches Ok((next, _)) && all[statements.len() as int]
                == next)
        },
    decreases ts.len() - at,
{
    if !is_mark(ts, at, Mark::RightBrace) && !is_mark(ts, at, Mark::End) {
        if let Ok((statement, next)) = parse_statement(ts, at, bare) {
            if let Ok(end) = crate::grammar::line_break(ts, next, "statements"@) {
                if advanced(ts, at, end) {
                    let more = statements.push(statement);
                    lemma_block(ts, end, bare, more);
                    if let Ok(((all, _), last)) = block_statements(ts, at, bare, statements) {
                        assert forall|i: int| 0 <= i < statements.len() implies #[trigger] all[i]
                            == statements[i] by {
                            assert(all[i] == more[i]);
                        }
                        assert(all[statements.len() as int] == more[statements.len() as int]);
                    }
                }
            }
        }
    }
}

/// The statements of a block are read in their order, up to its closing brace.
pub proof fn law_statements_are_read_in_order(
    ts: Tokens,
    at: int,
    bare: bool,
    statements: Seq<StatementModel>,
)
    ensures
        block_statements(ts, at, bare, statements) matches Ok(((all, _), end)) ==> {
            &&& statements.len() <= all.len()
            &&& forall|i: int| 0 <= i < statements.len() ==> #[trigger] all[i] == statements[i]
            &&& is_mark(ts, at, Mark::RightBrace) ==> all.len() == statements.len()
            &&& !is_mark(ts, at, Mark::RightBrace) ==> statements.len() < all.len() && (
            parse_statement(ts, at, bare) matches Ok((next, _)) && all[statements.len() as int]
                == next)
        },
{
    lemma_block(ts, at, bare, statements);
}

// ---------------------------------------------------------------------------
// Declarations

/// A flow has the name behind its keyword and the parameters behind that. With
/// `=` it returns the expression that follows; otherwise its body is the block.
pub proof fn law_flows_are_read(ts: Tokens, at: int)
    requires
        0 <= at && at + 2 < ts.len(),
        is_identifier(ts, at + 1),
    ensures
        parse_flow(ts, at) matches Ok((flow, end)) ==> {
            &&& flow.kind == DeclarationKind::Flow
            &&& flow.name matches Some(name) && ts[at + 1].kind == TokenKindModel::Identifier(
                name.value,
            )
            &&& parse_parameters(ts, at + 2) matches Ok((parameters, next)) && flow.parameters
                == parameters && (is_mark(ts, next, Mark::Equal) ==> flow.body.len() == 1 && (
            flow.body[0] matches StatementModel::Return { expression, span } && (parse_expression(
                ts,
                next + 1,
                false,
            ) matches Ok((found, behind)) && found == expression && behind == end))) && (!is_mark(
                ts,
                next,
                Mark::Equal,
            ) ==> (parse_statement_block(ts, next, false) matches Ok(((body, _), behind)) && body
                == flow.body && behind == end))
        },
{
}

/// The parameters of a flow are the names between the parentheses, in their order.
pub proof fn law_parameters_are_read(
    ts: Tokens,
    at: int,
    names: Seq<SpannedModel>,
)
    requires
        0 <= at < ts.len(),
    ensures
        crate::grammar::parameter_names(ts, at, names) matches Ok((all, end)) ==> {
            &&& names.len() < all.len()
            &&& forall|i: int| 0 <= i < names.len() ==> #[trigger] all[i] == names[i]
            &&& ts[at].kind == TokenKindModel::Identifier(all[names.len() as int].value)
        },
        !is_mark(ts, at, Mark::LeftParen) ==> parse_parameters(ts, at) == Ok::<_, ErrorModel>(
            (Seq::<SpannedModel>::empty(), at),
        ),
    decreases ts.len() - at,
{
    if let Ok((name, next)) = crate::grammar::take_identifier(ts, at, "a parameter name"@) {
        let more = names.push(name);
        assert(more[names.len() as int] == name);
        if advanced(ts, at, next) && is_mark(ts, next, Mark::Comma) && next + 1 < ts.len() {
            law_parameters_are_read(ts, next + 1, more);
        }
        if let Ok((all, end)) = crate::grammar::parameter_names(ts, at, names) {
            if is_mark(ts, next, Mark::Comma) && next + 1 >= ts.len() {
                lemma_no_more_names(ts, next + 1, more);
            }
            assert forall|i: int| 0 <= i < names.len() implies #[trigger] all[i] == names[i] by {
                assert(all[i] == more[i]);
            }
            assert(all[names.len() as int] == more[names.len() as int]);
        }
    }
}

proof fn lemma_no_more_names(ts: Tokens, at: int, names: Seq<SpannedModel>)
    requires
        at >= ts.len(),
    ensures
        crate::grammar::parameter_names(ts, at, names) matches Ok((all, end)) ==> names.len()
            < all.len() && forall|i: int| 0 <= i < names.len() ==> #[trigger] all[i] == names[i],
{
    if let Ok((name, next)) = crate::grammar::take_identifier(ts, at, "a parameter name"@) {
        let more = names.push(name);
    }
}

/// A test has the text behind its keyword as its name, with parentheses around
/// it or without, and the block that follows as its body.
pub proof fn law_tests_are_read(ts: Tokens, at: int)
    requires
        0 <= at && at + 4 < ts.len(),
    ensures
        parse_test(ts, at) matches Ok((test, end)) ==> {
            &&& test.kind == DeclarationKind::Test
            &&& test.parameters.len() == 0
            &&& test.name matches Some(name) && (if is_mark(ts, at + 1, Mark::LeftParen) {
                &&& ts[at + 2].kind == TokenKindModel::String(name.value)
                &&& is_mark(ts, at + 3, Mark::RightParen)
                &&& parse_statement_block(ts, at + 4, false) matches Ok(((body, _), behind))
                    && body == test.body && behind == end
            } else {
                &&& ts[at + 1].kind == TokenKindModel::String(name.value)
                &&& parse_statement_block(ts, at + 2, false) matches Ok(((body, _), behind))
                    && body == test.body && behind == end
            })
        },
{
}

/// Each declaration is added behind those before it, and belongs to the
/// namespace of the file, with the namespaces that the file uses up to there.
pub proof fn law_declarations_are_added(ts: Tokens, at: int, program: ProgramModel)
    requires
        0 <= at && at + 2 < ts.len(),
    ensures
        parse_declaration(ts, at, program) matches Ok((next, end)) ==> {
            &&& is_mark(ts, at, Mark::Mettle) ==> (parse_flow(ts, at) matches Ok((flow, _))
                && next.flows.len() == program.flows.len() + 1 && next.flows.drop_last()
                == program.flows && next.flows.last().body == flow.body && next.flows.last().name
                == flow.name && next.flows.last().kind == flow.kind
                && next.flows.last().namespace_uses == program.namespace_uses
                && next.flows.last().namespace == (match program.namespace {
                Some(name) => name.value,
                None => Seq::empty(),
            }) && next.contexts == program.contexts)
            &&& is_mark(ts, at, Mark::Test) ==> (parse_test(ts, at) matches Ok((test, _))
                && next.flows.drop_last() == program.flows && next.flows.last().body == test.body
                && next.flows.last().kind == test.kind && next.contexts == program.contexts)
            &&& is_mark(ts, at, Mark::Context) ==> next.contexts.len() == program.contexts.len()
                + 1 && next.contexts.drop_last() == program.contexts && next.flows == program.flows
                && (next.contexts.last().name matches Some(name) && ts[at + 1].kind
                == TokenKindModel::Identifier(name.value)) && next.contexts.last().namespace == (
            match program.namespace {
                Some(name) => name.value,
                None => Seq::empty(),
            })
            &&& is_mark(ts, at, Mark::Namespace) ==> program.namespace is None && (
            next.namespace matches Some(name) && ts[at + 1].kind == TokenKindModel::Identifier(
                name.value,
            )) && next.flows == program.flows
            &&& is_mark(ts, at, Mark::Use) && is_mark(ts, at + 1, Mark::Namespace)
                ==> next.namespace_uses.len() == program.namespace_uses.len() + 1
                && next.namespace_uses.drop_last() == program.namespace_uses && ts[at + 2].kind
                == TokenKindModel::Identifier(next.namespace_uses.last().value)
        },
{
    if let Ok((next, end)) = parse_declaration(ts, at, program) {
        if next.flows.len() == program.flows.len() + 1 {
            assert(next.flows.drop_last() =~= program.flows);
        }
        if next.contexts.len() == program.contexts.len() + 1 {
            assert(next.contexts.drop_last() =~= program.contexts);
        }
        if next.namespace_uses.len() == program.namespace_uses.len() + 1 {
            assert(next.namespace_uses.drop_last() =~= program.namespace_uses);
        }
    }
}

/// A member of a context is a context that it uses, the defaults of a
/// capability, or a field, as its first word says.
pub proof fn law_members_are_read(ts: Tokens, at: int)
    requires
        0 <= at && at + 2 < ts.len(),
    ensures
        context_member(ts, at) matches Ok((member, end)) ==> {
            &&& is_mark(ts, at, Mark::Use) ==> (
            member matches ContextMemberModel::UseContext { name, span } && ts[at + 2].kind
                == TokenKindModel::Identifier(name.value))
            &&& is_mark(ts, at, Mark::Defaults) ==> (
            member matches ContextMemberModel::Defaults { capability, fields, span } && ts[at
                + 1].kind == TokenKindModel::Identifier(capability.value))
            &&& is_identifier(ts, at) ==> (member matches ContextMemberModel::Field(field) && ts[
            at].kind == TokenKindModel::Identifier(field.name.value) && (parse_expression(
                ts,
                at + 2,
                false,
            ) matches Ok((value, behind)) && value == field.expression))
        },
{
}

} // verus!
