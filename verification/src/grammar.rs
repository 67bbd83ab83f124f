//! The grammar, as functions from a row of tokens and a position to what
//! stands there and the position behind it.
//!
//! `bare` tells whether a block behind a call belongs to something around the
//! call instead of holding its options, as in the head of a `for`.

use vstd::prelude::*;

use crate::lexer::{Mark, TokenKindModel, TokenModel};
use crate::syntax::{
    error_of, BinaryOperator, ContextDeclModel, ContextMemberModel, DeclarationKind, ErrorModel,
    ExpressionKindModel, ExpressionModel, FileContextUseModel, IfBranchModel, MettleDeclModel,
    ObjectFieldModel, ParallelBranchModel, ProgramModel, Span, SpannedModel, StatementModel,
};
use crate::text::is_space;

verus! {

/// What was read and the position behind it, or the error.
pub type Parsed<T> = Result<(T, int), ErrorModel>;

pub type Tokens = Seq<TokenModel>;

// ---------------------------------------------------------------------------
// Single tokens

pub open spec fn is_mark(ts: Tokens, at: int, mark: Mark) -> bool {
    0 <= at < ts.len() && ts[at].kind == TokenKindModel::Mark(mark)
}

pub open spec fn is_identifier(ts: Tokens, at: int) -> bool {
    0 <= at < ts.len() && ts[at].kind is Identifier
}

/// Whether reading has moved on from `from` to `to`.
pub open spec fn advanced(ts: Tokens, from: int, to: int) -> bool {
    0 <= from < to < ts.len()
}

/// The position behind the token at `at`; nothing is behind the last one.
pub open spec fn behind(ts: Tokens, at: int) -> int {
    if is_mark(ts, at, Mark::End) {
        at
    } else {
        at + 1
    }
}

/// What error messages call a mark.
#[verifier::opaque]
pub open spec fn description(mark: Mark) -> Seq<char> {
    match mark {
        Mark::If => "`if`"@,
        Mark::For => "`for`"@,
        Mark::In => "`in`"@,
        Mark::Else => "`else`"@,
        Mark::And => "`and`"@,
        Mark::Or => "`or`"@,
        Mark::Not => "`not`"@,
        Mark::Minus => "`-`"@,
        Mark::Mettle => "`flow`"@,
        Mark::Test => "`test`"@,
        Mark::Context => "`context`"@,
        Mark::Namespace => "`namespace`"@,
        Mark::Defaults => "`defaults`"@,
        Mark::Use => "`use`"@,
        Mark::Return => "`return`"@,
        Mark::Assert => "`assert`"@,
        Mark::Fail => "`fail`"@,
        Mark::Within => "`within`"@,
        Mark::Retry => "`retry`"@,
        Mark::Parallel => "`parallel`"@,
        Mark::Rate => "`rate`"@,
        Mark::Concurrency => "`concurrency`"@,
        Mark::True => "`true`"@,
        Mark::False => "`false`"@,
        Mark::Null => "`null`"@,
        Mark::LeftBrace => "`{`"@,
        Mark::RightBrace => "`}`"@,
        Mark::LeftBracket => "`[`"@,
        Mark::RightBracket => "`]`"@,
        Mark::LeftParen => "`(`"@,
        Mark::RightParen => "`)`"@,
        Mark::Comma => "`,`"@,
        Mark::Colon => "`:`"@,
        Mark::Equal => "`=`"@,
        Mark::EqualEqual => "`==`"@,
        Mark::BangEqual => "`!=`"@,
        Mark::Less => "`<`"@,
        Mark::LessEqual => "`<=`"@,
        Mark::Greater => "`>`"@,
        Mark::GreaterEqual => "`>=`"@,
        Mark::Dot => "`.`"@,
        Mark::End => "the end of the file"@,
    }
}

/// The complaint that something else was expected at `at`.
pub open spec fn expected(ts: Tokens, at: int, what: Seq<char>) -> ErrorModel {
    error_of("expected "@ + what, ts[at].span)
}

/// The position behind the mark that has to stand at `at`.
pub open spec fn take(ts: Tokens, at: int, mark: Mark) -> Result<int, ErrorModel> {
    if is_mark(ts, at, mark) {
        Ok(behind(ts, at))
    } else {
        Err(expected(ts, at, description(mark)))
    }
}

/// The identifier that has to stand at `at`.
pub open spec fn take_identifier(ts: Tokens, at: int, what: Seq<char>) -> Parsed<SpannedModel> {
    match ts[at].kind {
        TokenKindModel::Identifier(value) => Ok(
            (SpannedModel { value, span: ts[at].span }, at + 1),
        ),
        _ => Err(expected(ts, at, what)),
    }
}

/// Behind an item of a list whose items stand on lines of their own or are
/// set off by commas.
pub open spec fn separator(ts: Tokens, at: int, what: Seq<char>) -> Result<int, ErrorModel> {
    if is_mark(ts, at, Mark::Comma) {
        Ok(at + 1)
    } else if is_mark(ts, at, Mark::RightBrace) || ts[at].fresh_line {
        Ok(at)
    } else {
        Err(error_of("separate "@ + what + " with a comma or newline"@, ts[at].span))
    }
}

/// Behind a statement.
pub open spec fn line_break(ts: Tokens, at: int, what: Seq<char>) -> Result<int, ErrorModel> {
    if is_mark(ts, at, Mark::RightBrace) || ts[at].fresh_line {
        Ok(at)
    } else {
        Err(error_of("separate "@ + what + " with a newline"@, ts[at].span))
    }
}

/// Stands for positions that are never reached.
pub open spec fn stuck<T>() -> Parsed<T> {
    Err(error_of(Seq::empty(), Span { source: 0, start: 0, end: 0 }))
}

pub open spec fn simple(kind: ExpressionKindModel, span: Span) -> ExpressionModel {
    ExpressionModel { kind, span }
}

pub open spec fn binary(left: ExpressionModel, operator: BinaryOperator, right: ExpressionModel) -> ExpressionModel {
    ExpressionModel {
        span: left.span.joined(right.span),
        kind: ExpressionKindModel::Binary {
            left: Box::new(left),
            operator,
            right: Box::new(right),
        },
    }
}

// ---------------------------------------------------------------------------
// Expressions

pub open spec fn parse_expression(ts: Tokens, at: int, bare: bool) -> Parsed<ExpressionModel>
    decreases ts.len() - at, 10int,
{
    parse_or(ts, at, bare)
}

pub open spec fn parse_or(ts: Tokens, at: int, bare: bool) -> Parsed<ExpressionModel>
    decreases ts.len() - at, 9int,
{
    match parse_and(ts, at, bare) {
        Err(error) => Err(error),
        Ok((left, next)) => if advanced(ts, at, next) {
            or_rest(ts, next, bare, left)
        } else {
            stuck()
        },
    }
}

/// Further operands of `or` behind `left`.
pub open spec fn or_rest(
    ts: Tokens,
    at: int,
    bare: bool,
    left: ExpressionModel,
) -> Parsed<ExpressionModel>
    decreases ts.len() - at, 9int,
{
    if is_mark(ts, at, Mark::Or) {
        match parse_and(ts, at + 1, bare) {
            Err(error) => Err(error),
            Ok((right, next)) => if advanced(ts, at, next) {
                or_rest(ts, next, bare, binary(left, BinaryOperator::Or, right))
            } else {
                stuck()
            },
        }
    } else {
        Ok((left, at))
    }
}

pub open spec fn parse_and(ts: Tokens, at: int, bare: bool) -> Parsed<ExpressionModel>
    decreases ts.len() - at, 8int,
{
    match parse_comparison(ts, at, bare) {
        Err(error) => Err(error),
        Ok((left, next)) => if advanced(ts, at, next) {
            and_rest(ts, next, bare, left)
        } else {
            stuck()
        },
    }
}

/// Further operands of `and` behind `left`.
pub open spec fn and_rest(
    ts: Tokens,
    at: int,
    bare: bool,
    left: ExpressionModel,
) -> Parsed<ExpressionModel>
    decreases ts.len() - at, 8int,
{
    if is_mark(ts, at, Mark::And) {
        match parse_comparison(ts, at + 1, bare) {
            Err(error) => Err(error),
            Ok((right, next)) => if advanced(ts, at, next) {
                and_rest(ts, next, bare, binary(left, BinaryOperator::And, right))
            } else {
                stuck()
            },
        }
    } else {
        Ok((left, at))
    }
}

/// The comparison that a token stands for.
pub open spec fn comparison_operator(kind: TokenKindModel) -> Option<BinaryOperator> {
    match kind {
        TokenKindModel::Mark(Mark::EqualEqual) => Some(BinaryOperator::Equal),
        TokenKindModel::Mark(Mark::BangEqual) => Some(BinaryOperator::NotEqual),
        TokenKindModel::Mark(Mark::Less) => Some(BinaryOperator::Less),
        TokenKindModel::Mark(Mark::LessEqual) => Some(BinaryOperator::LessEqual),
        TokenKindModel::Mark(Mark::Greater) => Some(BinaryOperator::Greater),
        TokenKindModel::Mark(Mark::GreaterEqual) => Some(BinaryOperator::GreaterEqual),
        _ => None,
    }
}

pub open spec fn parse_comparison(ts: Tokens, at: int, bare: bool) -> Parsed<ExpressionModel>
    decreases ts.len() - at, 7int,
{
    match parse_unary(ts, at, bare) {
        Err(error) => Err(error),
        Ok((left, next)) => if advanced(ts, at, next) {
            match comparison_operator(ts[next].kind) {
                None => Ok((left, next)),
                Some(operator) => match parse_unary(ts, next + 1, bare) {
                    Err(error) => Err(error),
                    Ok((right, end)) => Ok((binary(left, operator, right), end)),
                },
            }
        } else {
            stuck()
        },
    }
}

pub open spec fn parse_unary(ts: Tokens, at: int, bare: bool) -> Parsed<ExpressionModel>
    decreases ts.len() - at, 6int,
{
    if is_mark(ts, at, Mark::Not) || is_mark(ts, at, Mark::Minus) {
        match parse_unary(ts, at + 1, bare) {
            Err(error) => Err(error),
            Ok((value, next)) => Ok(
                (
                    ExpressionModel {
                        span: ts[at].span.joined(value.span),
                        kind: if is_mark(ts, at, Mark::Not) {
                            ExpressionKindModel::Not(Box::new(value))
                        } else {
                            ExpressionKindModel::Negate(Box::new(value))
                        },
                    },
                    next,
                ),
            ),
        }
    } else {
        parse_primary_expression(ts, at, bare)
    }
}

pub open spec fn parse_primary_expression(
    ts: Tokens,
    at: int,
    bare: bool,
) -> Parsed<ExpressionModel>
    decreases ts.len() - at, 5int,
{
    match parse_operand(ts, at, bare) {
        Err(error) => Err(error),
        Ok((operand, next)) => if advanced(ts, at, next) {
            match parse_call(ts, next, bare, operand) {
                Err(error) => Err(error),
                Ok((value, end)) => if next <= end < ts.len() {
                    parse_member_access(ts, end, bare, value)
                } else {
                    stuck()
                },
            }
        } else {
            stuck()
        },
    }
}

/// An expression without operators, calls and accesses behind it.
pub open spec fn parse_operand(ts: Tokens, at: int, bare: bool) -> Parsed<ExpressionModel>
    decreases ts.len() - at, 4int,
{
    if at < 0 || at >= ts.len() {
        stuck()
    } else {
        let span = ts[at].span;
        match ts[at].kind {
            TokenKindModel::Mark(Mark::Within) => parse_within(ts, at + 1, bare, span),
            TokenKindModel::Mark(Mark::For) => parse_for(ts, at + 1, bare, span),
            TokenKindModel::Mark(Mark::Retry) => parse_retry(ts, at + 1, bare, span),
            TokenKindModel::Mark(Mark::Parallel) => parse_parallel(ts, at + 1, bare, span),
            TokenKindModel::Mark(Mark::Rate) => parse_rate(ts, at + 1, bare, span),
            TokenKindModel::Mark(Mark::Concurrency) => parse_concurrency(ts, at + 1, bare, span),
            TokenKindModel::Mark(Mark::Fail) => parse_fail(ts, at + 1, bare, span),
            TokenKindModel::Mark(Mark::Null) => Ok(
                (simple(ExpressionKindModel::Null, span), at + 1),
            ),
            TokenKindModel::Mark(Mark::True) => Ok(
                (simple(ExpressionKindModel::Boolean(true), span), at + 1),
            ),
            TokenKindModel::Mark(Mark::False) => Ok(
                (simple(ExpressionKindModel::Boolean(false), span), at + 1),
            ),
            TokenKindModel::Integer(value) => Ok(
                (simple(ExpressionKindModel::Integer(value), span), at + 1),
            ),
            TokenKindModel::Float(value) => Ok(
                (simple(ExpressionKindModel::Float(value), span), at + 1),
            ),
            TokenKindModel::DurationNanos(value) => Ok(
                (simple(ExpressionKindModel::DurationNanos(value), span), at + 1),
            ),
            TokenKindModel::String(value) => Ok(
                (simple(ExpressionKindModel::String(value), span), at + 1),
            ),
            TokenKindModel::Mark(Mark::LeftParen) => match parse_expression(ts, at + 1, bare) {
                Err(error) => Err(error),
                Ok((value, next)) => match take(ts, next, Mark::RightParen) {
                    Err(error) => Err(error),
                    Ok(end) => Ok(
                        (
                            ExpressionModel {
                                kind: value.kind,
                                span: span.joined(ts[next].span),
                            },
                            end,
                        ),
                    ),
                },
            },
            TokenKindModel::Identifier(name) => path_rest(ts, at + 1, name, span),
            TokenKindModel::Mark(Mark::LeftBracket) => parse_array(ts, at + 1, bare, span),
            TokenKindModel::Mark(Mark::LeftBrace) => match object_fields(
                ts,
                at + 1,
                bare,
                Seq::empty(),
            ) {
                Err(error) => Err(error),
                Ok(((fields, end_span), end)) => Ok(
                    (simple(ExpressionKindModel::Object(fields), span.joined(end_span)), end),
                ),
            },
            _ => Err(error_of("expected an expression"@, span)),
        }
    }
}

/// Further names of a dotted path behind `name`.
pub open spec fn path_rest(ts: Tokens, at: int, name: Seq<char>, span: Span) -> Parsed<ExpressionModel>
    decreases ts.len() - at, 4int,
{
    if is_mark(ts, at, Mark::Dot) && is_identifier(ts, at + 1) {
        match ts[at + 1].kind {
            TokenKindModel::Identifier(member) => path_rest(
                ts,
                at + 2,
                name.push('.') + member,
                span.joined(ts[at + 1].span),
            ),
            _ => stuck(),
        }
    } else {
        Ok((simple(ExpressionKindModel::Name(name), span), at))
    }
}

/// The call of `operand`, if an argument list stands behind it.
pub open spec fn parse_call(
    ts: Tokens,
    at: int,
    bare: bool,
    operand: ExpressionModel,
) -> Parsed<ExpressionModel>
    decreases ts.len() - at, 12int,
{
    if is_mark(ts, at, Mark::LeftParen) {
        match operand.kind {
            ExpressionKindModel::Name(name) => {
                let callee = SpannedModel { value: name, span: operand.span };
                let arguments = if is_mark(ts, at + 1, Mark::RightParen) {
                    Ok(((Seq::empty(), Seq::empty()), at + 1))
                } else {
                    call_arguments(ts, at + 1, bare, Seq::empty(), Seq::empty())
                };
                match arguments {
                    Err(error) => Err(error),
                    Ok(((positional, named), next)) => match take(ts, next, Mark::RightParen) {
                        Err(error) => Err(error),
                        Ok(close) => if !advanced(ts, at, close) {
                            stuck()
                        } else if is_mark(ts, close, Mark::LeftBrace) && !bare {
                            match parse_object_fields(ts, close, bare) {
                                Err(error) => Err(error),
                                Ok(((options, end_span), end)) => Ok(
                                    (called(callee, positional, named, options, end_span), end),
                                ),
                            }
                        } else {
                            Ok(
                                (
                                    called(
                                        callee,
                                        positional,
                                        named,
                                        Seq::empty(),
                                        ts[next].span,
                                    ),
                                    close,
                                ),
                            )
                        },
                    },
                }
            },
            _ => Err(
                error_of(
                    "only a named flow or capability operation can be called"@,
                    operand.span,
                ),
            ),
        }
    } else {
        Ok((operand, at))
    }
}

pub open spec fn called(
    callee: SpannedModel,
    arguments: Seq<ExpressionModel>,
    named_arguments: Seq<ObjectFieldModel>,
    options: Seq<ObjectFieldModel>,
    end: Span,
) -> ExpressionModel {
    ExpressionModel {
        span: callee.span.joined(end),
        kind: ExpressionKindModel::Call { callee, arguments, named_arguments, options },
    }
}

/// Arguments of a call behind those already read; named ones come last.
pub open spec fn call_arguments(
    ts: Tokens,
    at: int,
    bare: bool,
    positional: Seq<ExpressionModel>,
    named: Seq<ObjectFieldModel>,
) -> Parsed<(Seq<ExpressionModel>, Seq<ObjectFieldModel>)>
    decreases ts.len() - at, 12int,
{
    let read = if is_identifier(ts, at) && is_mark(ts, at + 1, Mark::Colon) {
        match parse_object_field(ts, at, bare) {
            Err(error) => Err(error),
            Ok((field, next)) => Ok(((positional, named.push(field)), next)),
        }
    } else if named.len() == 0 {
        match parse_expression(ts, at, bare) {
            Err(error) => Err(error),
            Ok((value, next)) => Ok(((positional.push(value), named), next)),
        }
    } else {
        Err(
            error_of("positional arguments must come before named arguments"@, ts[at].span),
        )
    };
    match read {
        Err(error) => Err(error),
        Ok(((positional, named), next)) => if !advanced(ts, at, next) {
            stuck()
        } else if !is_mark(ts, next, Mark::Comma) {
            Ok(((positional, named), next))
        } else if is_mark(ts, next + 1, Mark::RightParen) {
            Ok(((positional, named), next + 1))
        } else {
            call_arguments(ts, next + 1, bare, positional, named)
        },
    }
}

/// Members and indexes behind `value`.
pub open spec fn parse_member_access(
    ts: Tokens,
    at: int,
    bare: bool,
    value: ExpressionModel,
) -> Parsed<ExpressionModel>
    decreases ts.len() - at, 12int,
{
    if is_mark(ts, at, Mark::Dot) {
        match take_identifier(ts, at + 1, "a member name after `.`"@) {
            Err(error) => Err(error),
            Ok((member, next)) => if advanced(ts, at, next) {
                parse_member_access(
                    ts,
                    next,
                    bare,
                    ExpressionModel {
                        span: value.span.joined(member.span),
                        kind: ExpressionKindModel::Member { value: Box::new(value), member },
                    },
                )
            } else {
                stuck()
            },
        }
    } else if is_mark(ts, at, Mark::LeftBracket) {
        match parse_expression(ts, at + 1, bare) {
            Err(error) => Err(error),
            Ok((index, next)) => match take(ts, next, Mark::RightBracket) {
                Err(error) => Err(error),
                Ok(end) => if advanced(ts, at, end) {
                    parse_member_access(
                        ts,
                        end,
                        bare,
                        ExpressionModel {
                            span: value.span.joined(ts[next].span),
                            kind: ExpressionKindModel::Index {
                                value: Box::new(value),
                                index: Box::new(index),
                            },
                        },
                    )
                } else {
                    stuck()
                },
            },
        }
    } else {
        Ok((value, at))
    }
}

/// An array, behind its opening bracket.
pub open spec fn parse_array(
    ts: Tokens,
    at: int,
    bare: bool,
    start: Span,
) -> Parsed<ExpressionModel>
    decreases ts.len() - at, 13int,
{
    let items = if is_mark(ts, at, Mark::RightBracket) {
        Ok((Seq::empty(), at))
    } else {
        array_items(ts, at, bare, Seq::empty())
    };
    match items {
        Err(error) => Err(error),
        Ok((values, next)) => match take(ts, next, Mark::RightBracket) {
            Err(error) => Err(error),
            Ok(end) => Ok(
                (
                    simple(ExpressionKindModel::Array(values), start.joined(ts[next].span)),
                    end,
                ),
            ),
        },
    }
}

pub open spec fn array_items(
    ts: Tokens,
    at: int,
    bare: bool,
    values: Seq<ExpressionModel>,
) -> Parsed<Seq<ExpressionModel>>
    decreases ts.len() - at, 12int,
{
    match parse_expression(ts, at, bare) {
        Err(error) => Err(error),
        Ok((value, next)) => if !advanced(ts, at, next) {
            stuck()
        } else if !is_mark(ts, next, Mark::Comma) {
            Ok((values.push(value), next))
        } else if is_mark(ts, next + 1, Mark::RightBracket) {
            Ok((values.push(value), next + 1))
        } else {
            array_items(ts, next + 1, bare, values.push(value))
        },
    }
}

/// `{ name: value ... }`, with the span of its closing brace.
pub open spec fn parse_object_fields(ts: Tokens, at: int, bare: bool) -> Parsed<
    (Seq<ObjectFieldModel>, Span),
>
    decreases ts.len() - at, 13int,
{
    if is_mark(ts, at, Mark::LeftBrace) {
        object_fields(ts, at + 1, bare, Seq::empty())
    } else {
        Err(expected(ts, at, description(Mark::LeftBrace)))
    }
}

/// Fields of an object behind those already read, and its closing brace.
pub open spec fn object_fields(
    ts: Tokens,
    at: int,
    bare: bool,
    fields: Seq<ObjectFieldModel>,
) -> Parsed<(Seq<ObjectFieldModel>, Span)>
    decreases ts.len() - at, 12int,
{
    if is_mark(ts, at, Mark::RightBrace) {
        Ok(((fields, ts[at].span), at + 1))
    } else if is_mark(ts, at, Mark::End) {
        Err(expected(ts, at, "an object field or `}`"@))
    } else {
        match parse_object_field(ts, at, bare) {
            Err(error) => Err(error),
            Ok((field, next)) => match separator(ts, next, "object fields"@) {
                Err(error) => Err(error),
                Ok(end) => if advanced(ts, at, end) {
                    object_fields(ts, end, bare, fields.push(field))
                } else {
                    stuck()
                },
            },
        }
    }
}

pub open spec fn parse_object_field(ts: Tokens, at: int, bare: bool) -> Parsed<ObjectFieldModel>
    decreases ts.len() - at, 11int,
{
    let name = match ts[at].kind {
        TokenKindModel::Identifier(value) => Some(SpannedModel { value, span: ts[at].span }),
        TokenKindModel::String(value) => Some(SpannedModel { value, span: ts[at].span }),
        _ => None,
    };
    match name {
        None => Err(error_of("expected an object field name"@, ts[at].span)),
        Some(name) => match take(ts, at + 1, Mark::Colon) {
            Err(error) => Err(error),
            Ok(next) => if advanced(ts, at, next) {
                match parse_expression(ts, next, bare) {
                    Err(error) => Err(error),
                    Ok((expression, end)) => Ok(
                        (
                            ObjectFieldModel {
                                span: name.span.joined(expression.span),
                                name,
                                expression,
                            },
                            end,
                        ),
                    ),
                }
            } else {
                stuck()
            },
        },
    }
}

// ---------------------------------------------------------------------------
// Execution policies

/// `(name: value, ...)`, each name once.
pub open spec fn parse_policy_options(ts: Tokens, at: int, bare: bool) -> Parsed<
    Seq<ObjectFieldModel>,
>
    decreases ts.len() - at, 13int,
{
    if is_mark(ts, at, Mark::LeftParen) {
        policy_options(ts, at + 1, bare, Seq::empty())
    } else {
        Err(expected(ts, at, description(Mark::LeftParen)))
    }
}

/// Whether one of the fields has the name.
pub open spec fn has_field(fields: Seq<ObjectFieldModel>, name: Seq<char>) -> bool {
    exists|i: int| 0 <= i < fields.len() && (#[trigger] fields[i]).name.value == name
}

/// Policy options behind those already read, and the closing parenthesis.
pub open spec fn policy_options(
    ts: Tokens,
    at: int,
    bare: bool,
    options: Seq<ObjectFieldModel>,
) -> Parsed<Seq<ObjectFieldModel>>
    decreases ts.len() - at, 12int,
{
    if is_mark(ts, at, Mark::RightParen) {
        Ok((options, at + 1))
    } else {
        match take_identifier(ts, at, "a policy option name"@) {
            Err(error) => Err(error),
            Ok((name, colon)) => match take(ts, colon, Mark::Colon) {
                Err(error) => Err(error),
                Ok(next) => if !advanced(ts, at, next) {
                    stuck()
                } else {
                    match parse_expression(ts, next, bare) {
                        Err(error) => Err(error),
                        Ok((expression, end)) => if has_field(options, name.value) {
                            Err(
                                error_of(
                                    "policy option `"@ + name.value
                                        + "` was supplied more than once"@,
                                    name.span,
                                ),
                            )
                        } else if !advanced(ts, at, end) {
                            stuck()
                        } else {
                            let read = options.push(
                                ObjectFieldModel {
                                    span: name.span.joined(expression.span),
                                    name,
                                    expression,
                                },
                            );
                            if is_mark(ts, end, Mark::Comma) {
                                policy_options(ts, end + 1, bare, read)
                            } else {
                                match take(ts, end, Mark::RightParen) {
                                    Err(error) => Err(error),
                                    Ok(close) => Ok((read, close)),
                                }
                            }
                        },
                    }
                },
            },
        }
    }
}

/// Where the first field of the name stands, from `from` on.
pub open spec fn field_position(fields: Seq<ObjectFieldModel>, name: Seq<char>, from: int) -> Option<
    int,
>
    decreases fields.len() - from,
{
    if from < 0 || from >= fields.len() {
        None
    } else if fields[from].name.value == name {
        Some(from)
    } else {
        field_position(fields, name, from + 1)
    }
}

/// The value of the option, if it was given, and the other options.
#[verifier::opaque]
pub open spec fn optional_option(options: Seq<ObjectFieldModel>, name: Seq<char>) -> (
    Option<ExpressionModel>,
    Seq<ObjectFieldModel>,
) {
    match field_position(options, name, 0) {
        Some(index) => (Some(options[index].expression), options.remove(index)),
        None => (None, options),
    }
}

/// The value of the option and the other options.
#[verifier::opaque]
pub open spec fn required_option(
    options: Seq<ObjectFieldModel>,
    name: Seq<char>,
    span: Span,
) -> Result<(ExpressionModel, Seq<ObjectFieldModel>), ErrorModel> {
    match optional_option(options, name) {
        (Some(expression), rest) => Ok((expression, rest)),
        (None, _) => Err(error_of("missing `"@ + name + "` policy option"@, span)),
    }
}

/// The complaint about an option that the policy does not have.
#[verifier::opaque]
pub open spec fn extra_option(options: Seq<ObjectFieldModel>) -> Option<ErrorModel> {
    if options.len() > 0 {
        Some(
            error_of(
                "unknown policy option `"@ + options[0].name.value + "`"@,
                options[0].name.span,
            ),
        )
    } else {
        None
    }
}

/// The block of a policy as an expression.
pub open spec fn policy_body(start: Span, statements: Seq<StatementModel>, end: Span) -> Box<ExpressionModel> {
    Box::new(simple(ExpressionKindModel::Block(statements), start.joined(end)))
}

pub open spec fn boxed(expression: Option<ExpressionModel>) -> Option<Box<ExpressionModel>> {
    match expression {
        Some(expression) => Some(Box::new(expression)),
        None => None,
    }
}

pub open spec fn parse_within(
    ts: Tokens,
    at: int,
    bare: bool,
    start: Span,
) -> Parsed<ExpressionModel>
    decreases ts.len() - at, 14int,
{
    match parse_policy_options(ts, at, bare) {
        Err(error) => Err(error),
        Ok((options, next)) => match required_option(options, "timeout"@, start) {
            Err(error) => Err(error),
            Ok((timeout, rest)) => if let Some(error) = extra_option(rest) {
                Err(error)
            } else if !advanced(ts, at, next) {
                stuck()
            } else {
                match parse_statement_block(ts, next, bare) {
                    Err(error) => Err(error),
                    Ok(((statements, end_span), end)) => Ok(
                        (
                            simple(
                                ExpressionKindModel::Within {
                                    timeout: Box::new(timeout),
                                    body: policy_body(start, statements, end_span),
                                },
                                start.joined(end_span),
                            ),
                            end,
                        ),
                    ),
                }
            },
        },
    }
}

pub open spec fn parse_fail(ts: Tokens, at: int, bare: bool, start: Span) -> Parsed<ExpressionModel>
    decreases ts.len() - at, 14int,
{
    match take(ts, at, Mark::LeftParen) {
        Err(error) => Err(error),
        Ok(next) => if !advanced(ts, at, next) {
            stuck()
        } else {
            match parse_expression(ts, next, bare) {
                Err(error) => Err(error),
                Ok((message, close)) => match take(ts, close, Mark::RightParen) {
                    Err(error) => Err(error),
                    Ok(end) => Ok(
                        (
                            simple(
                                ExpressionKindModel::Fail(Box::new(message)),
                                start.joined(ts[close].span),
                            ),
                            end,
                        ),
                    ),
                },
            }
        },
    }
}

pub open spec fn parse_for(ts: Tokens, at: int, bare: bool, start: Span) -> Parsed<ExpressionModel>
    decreases ts.len() - at, 14int,
{
    match loop_names(ts, at) {
        Err(error) => Err(error),
        Ok(((key, value), word)) => match take(ts, word, Mark::In) {
            Err(error) => Err(error),
            Ok(next) => if !advanced(ts, at, next) {
                stuck()
            } else {
                match parse_expression(ts, next, true) {
                    Err(error) => Err(error),
                    Ok((iterable, block)) => if !advanced(ts, at, block) {
                        stuck()
                    } else {
                        match parse_statement_block(ts, block, bare) {
                            Err(error) => Err(error),
                            Ok(((body, end_span), end)) => Ok(
                                (
                                    simple(
                                        ExpressionKindModel::For {
                                            key,
                                            value,
                                            iterable: Box::new(iterable),
                                            body,
                                        },
                                        start.joined(end_span),
                                    ),
                                    end,
                                ),
                            ),
                        }
                    },
                }
            },
        },
    }
}

/// The names that a loop binds: `value`, or `key, value`.
pub open spec fn loop_names(ts: Tokens, at: int) -> Parsed<(Option<SpannedModel>, SpannedModel)> {
    match take_identifier(ts, at, "a loop binding"@) {
        Err(error) => Err(error),
        Ok((first, next)) => if is_mark(ts, next, Mark::Comma) {
            match take_identifier(ts, next + 1, "a loop value binding"@) {
                Err(error) => Err(error),
                Ok((second, end)) => Ok(((Some(first), second), end)),
            }
        } else {
            Ok(((None, first), next))
        },
    }
}

pub open spec fn parse_retry(
    ts: Tokens,
    at: int,
    bare: bool,
    start: Span,
) -> Parsed<ExpressionModel>
    decreases ts.len() - at, 14int,
{
    match parse_policy_options(ts, at, bare) {
        Err(error) => Err(error),
        Ok((options, next)) => match required_option(options, "attempts"@, start) {
            Err(error) => Err(error),
            Ok((attempts, others)) => {
                let (delay, rest) = optional_option(others, "delay"@);
                if let Some(error) = extra_option(rest) {
                    Err(error)
                } else if !advanced(ts, at, next) {
                    stuck()
                } else {
                    match parse_statement_block(ts, next, bare) {
                        Err(error) => Err(error),
                        Ok(((statements, end_span), end)) => Ok(
                            (
                                simple(
                                    ExpressionKindModel::Retry {
                                        attempts: Box::new(attempts),
                                        delay: boxed(delay),
                                        body: policy_body(start, statements, end_span),
                                    },
                                    start.joined(end_span),
                                ),
                                end,
                            ),
                        ),
                    }
                }
            },
        },
    }
}

pub open spec fn parse_parallel(
    ts: Tokens,
    at: int,
    bare: bool,
    start: Span,
) -> Parsed<ExpressionModel>
    decreases ts.len() - at, 14int,
{
    let read = if is_mark(ts, at, Mark::LeftParen) {
        parse_policy_options(ts, at, bare)
    } else {
        Ok((Seq::empty(), at))
    };
    match read {
        Err(error) => Err(error),
        Ok((options, next)) => {
            let (limit, rest) = optional_option(options, "limit"@);
            if let Some(error) = extra_option(rest) {
                Err(error)
            } else {
                match take(ts, next, Mark::LeftBrace) {
                    Err(error) => Err(error),
                    Ok(first) => if !advanced(ts, at, first) {
                        stuck()
                    } else {
                        match parallel_branches(ts, first, bare, Seq::empty()) {
                            Err(error) => Err(error),
                            Ok(((branches, end_span), end)) => Ok(
                                (
                                    simple(
                                        ExpressionKindModel::Parallel {
                                            limit: boxed(limit),
                                            branches,
                                        },
                                        start.joined(end_span),
                                    ),
                                    end,
                                ),
                            ),
                        }
                    },
                }
            }
        },
    }
}

/// Branches of `parallel` behind those already read, and the closing brace.
pub open spec fn parallel_branches(
    ts: Tokens,
    at: int,
    bare: bool,
    branches: Seq<ParallelBranchModel>,
) -> Parsed<(Seq<ParallelBranchModel>, Span)>
    decreases ts.len() - at, 12int,
{
    if is_mark(ts, at, Mark::RightBrace) {
        Ok(((branches, ts[at].span), at + 1))
    } else if is_mark(ts, at, Mark::End) {
        Err(expected(ts, at, "a parallel branch or `}`"@))
    } else {
        let named = is_identifier(ts, at) && is_mark(ts, at + 1, Mark::Colon);
        let name = match ts[at].kind {
            TokenKindModel::Identifier(value) => if named {
                Some(SpannedModel { value, span: ts[at].span })
            } else {
                None
            },
            _ => None,
        };
        let first = if named {
            at + 2
        } else {
            at
        };
        match parse_expression(ts, first, bare) {
            Err(error) => Err(error),
            Ok((expression, next)) => match separator(ts, next, "parallel branches"@) {
                Err(error) => Err(error),
                Ok(end) => if advanced(ts, at, end) {
                    parallel_branches(
                        ts,
                        end,
                        bare,
                        branches.push(ParallelBranchModel { name, expression }),
                    )
                } else {
                    stuck()
                },
            },
        }
    }
}

pub open spec fn parse_rate(ts: Tokens, at: int, bare: bool, start: Span) -> Parsed<ExpressionModel>
    decreases ts.len() - at, 14int,
{
    match parse_policy_options(ts, at, bare) {
        Err(error) => Err(error),
        Ok((options, next)) => match required_option(options, "target"@, start) {
            Err(error) => Err(error),
            Ok((target, others)) => match required_option(others, "period"@, start) {
                Err(error) => Err(error),
                Ok((period, others)) => match required_option(others, "duration"@, start) {
                    Err(error) => Err(error),
                    Ok((duration, others)) => {
                        let (limit, rest) = optional_option(others, "limit"@);
                        if let Some(error) = extra_option(rest) {
                            Err(error)
                        } else if !advanced(ts, at, next) {
                            stuck()
                        } else {
                            match parse_statement_block(ts, next, bare) {
                                Err(error) => Err(error),
                                Ok(((statements, end_span), end)) => Ok(
                                    (
                                        simple(
                                            ExpressionKindModel::Rate {
                                                target: Box::new(target),
                                                period: Box::new(period),
                                                duration: Box::new(duration),
                                                limit: boxed(limit),
                                                body: policy_body(start, statements, end_span),
                                            },
                                            start.joined(end_span),
                                        ),
                                        end,
                                    ),
                                ),
                            }
                        }
                    },
                },
            },
        },
    }
}

pub open spec fn parse_concurrency(
    ts: Tokens,
    at: int,
    bare: bool,
    start: Span,
) -> Parsed<ExpressionModel>
    decreases ts.len() - at, 14int,
{
    match parse_policy_options(ts, at, bare) {
        Err(error) => Err(error),
        Ok((options, next)) => match required_option(options, "limit"@, start) {
            Err(error) => Err(error),
            Ok((limit, others)) => match required_option(others, "duration"@, start) {
                Err(error) => Err(error),
                Ok((duration, rest)) => if let Some(error) = extra_option(rest) {
                    Err(error)
                } else if !advanced(ts, at, next) {
                    stuck()
                } else {
                    match parse_statement_block(ts, next, bare) {
                        Err(error) => Err(error),
                        Ok(((statements, end_span), end)) => Ok(
                            (
                                simple(
                                    ExpressionKindModel::Concurrency {
                                        limit: Box::new(limit),
                                        duration: Box::new(duration),
                                        body: policy_body(start, statements, end_span),
                                    },
                                    start.joined(end_span),
                                ),
                                end,
                            ),
                        ),
                    }
                },
            },
        },
    }
}

// ---------------------------------------------------------------------------
// Statements

/// `{ statements }`, with the span of its closing brace.
pub open spec fn parse_statement_block(ts: Tokens, at: int, bare: bool) -> Parsed<
    (Seq<StatementModel>, Span),
>
    decreases ts.len() - at, 13int,
{
    if is_mark(ts, at, Mark::LeftBrace) {
        block_statements(ts, at + 1, bare, Seq::empty())
    } else {
        Err(expected(ts, at, description(Mark::LeftBrace)))
    }
}

/// Statements of a block behind those already read, and the closing brace.
pub open spec fn block_statements(
    ts: Tokens,
    at: int,
    bare: bool,
    statements: Seq<StatementModel>,
) -> Parsed<(Seq<StatementModel>, Span)>
    decreases ts.len() - at, 12int,
{
    if is_mark(ts, at, Mark::RightBrace) {
        Ok(((statements, ts[at].span), at + 1))
    } else if is_mark(ts, at, Mark::End) {
        Err(expected(ts, at, "a statement or `}`"@))
    } else {
        match parse_statement(ts, at, bare) {
            Err(error) => Err(error),
            Ok((statement, next)) => match line_break(ts, next, "statements"@) {
                Err(error) => Err(error),
                Ok(end) => if advanced(ts, at, end) {
                    block_statements(ts, end, bare, statements.push(statement))
                } else {
                    stuck()
                },
            },
        }
    }
}

pub open spec fn parse_statement(ts: Tokens, at: int, bare: bool) -> Parsed<StatementModel>
    decreases ts.len() - at, 11int,
{
    if is_mark(ts, at, Mark::If) {
        conditional(ts, at + 1, bare, ts[at].span, ts[at].span, Seq::empty())
    } else if is_mark(ts, at, Mark::Use) {
        match take(ts, at + 1, Mark::Context) {
            Err(error) => Err(error),
            Ok(next) => match take_identifier(ts, next, "a context name"@) {
                Err(error) => Err(error),
                Ok((name, end)) => Ok(
                    (
                        StatementModel::UseContext { span: ts[at].span.joined(name.span), name },
                        end,
                    ),
                ),
            },
        }
    } else if is_mark(ts, at, Mark::Return) {
        match parse_expression(ts, at + 1, bare) {
            Err(error) => Err(error),
            Ok((expression, end)) => Ok(
                (
                    StatementModel::Return {
                        span: ts[at].span.joined(expression.span),
                        expression,
                    },
                    end,
                ),
            ),
        }
    } else if is_mark(ts, at, Mark::Assert) {
        parse_assertion(ts, at + 1, bare, ts[at].span)
    } else if is_identifier(ts, at) && is_mark(ts, at + 1, Mark::Equal) {
        match ts[at].kind {
            TokenKindModel::Identifier(value) => match parse_expression(ts, at + 2, bare) {
                Err(error) => Err(error),
                Ok((expression, end)) => Ok(
                    (
                        StatementModel::Bind {
                            span: ts[at].span.joined(expression.span),
                            name: SpannedModel { value, span: ts[at].span },
                            expression,
                        },
                        end,
                    ),
                ),
            },
            _ => stuck(),
        }
    } else {
        match parse_expression(ts, at, bare) {
            Err(error) => Err(error),
            Ok((expression, end)) => Ok((StatementModel::Expression(expression), end)),
        }
    }
}

/// A conditional behind its `if`; branches before it have been read already.
pub open spec fn conditional(
    ts: Tokens,
    at: int,
    bare: bool,
    start: Span,
    branch_start: Span,
    branches: Seq<IfBranchModel>,
) -> Parsed<StatementModel>
    decreases ts.len() - at, 12int,
{
    match take(ts, at, Mark::LeftParen) {
        Err(error) => Err(error),
        Ok(first) => if !advanced(ts, at, first) {
            stuck()
        } else {
            match parse_expression(ts, first, bare) {
                Err(error) => Err(error),
                Ok((condition, close)) => match take(ts, close, Mark::RightParen) {
                    Err(error) => Err(error),
                    Ok(block) => if !advanced(ts, at, block) {
                        stuck()
                    } else {
                        match parse_statement_block(ts, block, bare) {
                            Err(error) => Err(error),
                            Ok(((body, end_span), next)) => {
                                let read = branches.push(
                                    IfBranchModel {
                                        condition,
                                        body,
                                        span: branch_start.joined(end_span),
                                    },
                                );
                                if !advanced(ts, at, next) {
                                    stuck()
                                } else if !is_mark(ts, next, Mark::Else) {
                                    Ok((conditional_of(ts, next, start, read, None), next))
                                } else if is_mark(ts, next + 1, Mark::If) {
                                    conditional(
                                        ts,
                                        next + 2,
                                        bare,
                                        start,
                                        ts[next + 1].span,
                                        read,
                                    )
                                } else {
                                    match parse_statement_block(ts, next + 1, bare) {
                                        Err(error) => Err(error),
                                        Ok(((else_body, _), end)) => Ok(
                                            (
                                                conditional_of(
                                                    ts,
                                                    end,
                                                    start,
                                                    read,
                                                    Some(else_body),
                                                ),
                                                end,
                                            ),
                                        ),
                                    }
                                }
                            },
                        }
                    },
                },
            }
        },
    }
}

/// A conditional that ends in front of `end`.
pub open spec fn conditional_of(
    ts: Tokens,
    end: int,
    start: Span,
    branches: Seq<IfBranchModel>,
    else_body: Option<Seq<StatementModel>>,
) -> StatementModel {
    StatementModel::If { branches, else_body, span: start.joined(ts[end - 1].span) }
}

/// An assertion behind its `assert`.
pub open spec fn parse_assertion(
    ts: Tokens,
    at: int,
    bare: bool,
    start: Span,
) -> Parsed<StatementModel>
    decreases ts.len() - at, 12int,
{
    match take(ts, at, Mark::LeftParen) {
        Err(error) => Err(error),
        Ok(first) => if !advanced(ts, at, first) {
            stuck()
        } else {
            match parse_expression(ts, first, bare) {
                Err(error) => Err(error),
                Ok((expression, next)) => if !advanced(ts, at, next) {
                    stuck()
                } else {
                    match assertion_message(ts, next, bare) {
                        Err(error) => Err(error),
                        Ok((message, close)) => match take(ts, close, Mark::RightParen) {
                            Err(error) => Err(error),
                            Ok(end) => Ok(
                                (
                                    StatementModel::Assert {
                                        expression,
                                        message,
                                        span: start.joined(ts[close].span),
                                    },
                                    end,
                                ),
                            ),
                        },
                    }
                },
            }
        },
    }
}

/// The message of an assertion, if a comma announces one.
pub open spec fn assertion_message(ts: Tokens, at: int, bare: bool) -> Parsed<
    Option<ExpressionModel>,
>
    decreases ts.len() - at, 12int,
{
    if is_mark(ts, at, Mark::Comma) {
        match parse_expression(ts, at + 1, bare) {
            Err(error) => Err(error),
            Ok((message, next)) => if message.kind is String {
                Ok((Some(message), next))
            } else {
                Err(error_of("assertion message must be a string literal"@, message.span))
            },
        }
    } else {
        Ok((None, at))
    }
}

// ---------------------------------------------------------------------------
// Declarations

/// The body of a context, with what stood in front of it.
pub open spec fn parse_context_body(
    ts: Tokens,
    at: int,
    start: Span,
    name: Option<SpannedModel>,
) -> Parsed<ContextDeclModel> {
    if is_mark(ts, at, Mark::LeftBrace) {
        match context_members(ts, at + 1, Seq::empty()) {
            Err(error) => Err(error),
            Ok(((members, end_span), end)) => Ok(
                (
                    ContextDeclModel {
                        namespace: Seq::empty(),
                        namespace_uses: Seq::empty(),
                        name,
                        members,
                        span: start.joined(end_span),
                    },
                    end,
                ),
            ),
        }
    } else {
        Err(expected(ts, at, description(Mark::LeftBrace)))
    }
}

/// Members of a context behind those already read, and the closing brace.
pub open spec fn context_members(ts: Tokens, at: int, members: Seq<ContextMemberModel>) -> Parsed<
    (Seq<ContextMemberModel>, Span),
>
    decreases ts.len() - at,
{
    if is_mark(ts, at, Mark::RightBrace) {
        Ok(((members, ts[at].span), at + 1))
    } else if is_mark(ts, at, Mark::End) {
        Err(expected(ts, at, "a context member or `}`"@))
    } else {
        match context_member(ts, at) {
            Err(error) => Err(error),
            Ok((member, next)) => match separator(ts, next, "context members"@) {
                Err(error) => Err(error),
                Ok(end) => if advanced(ts, at, end) {
                    context_members(ts, end, members.push(member))
                } else {
                    stuck()
                },
            },
        }
    }
}

pub open spec fn context_member(ts: Tokens, at: int) -> Parsed<ContextMemberModel> {
    if is_mark(ts, at, Mark::Use) {
        match take(ts, at + 1, Mark::Context) {
            Err(error) => Err(error),
            Ok(next) => match take_identifier(ts, next, "a context name"@) {
                Err(error) => Err(error),
                Ok((name, end)) => Ok(
                    (
                        ContextMemberModel::UseContext {
                            span: ts[at].span.joined(name.span),
                            name,
                        },
                        end,
                    ),
                ),
            },
        }
    } else if is_mark(ts, at, Mark::Defaults) {
        match take_identifier(ts, at + 1, "a capability name"@) {
            Err(error) => Err(error),
            Ok((capability, next)) => match parse_object_fields(ts, next, false) {
                Err(error) => Err(error),
                Ok(((fields, end_span), end)) => Ok(
                    (
                        ContextMemberModel::Defaults {
                            capability,
                            fields,
                            span: ts[at].span.joined(end_span),
                        },
                        end,
                    ),
                ),
            },
        }
    } else {
        match parse_object_field(ts, at, false) {
            Err(error) => Err(error),
            Ok((field, end)) => Ok((ContextMemberModel::Field(field), end)),
        }
    }
}

/// A declaration whose namespace is still to be filled in.
pub open spec fn declared(
    kind: DeclarationKind,
    name: Option<SpannedModel>,
    parameters: Seq<SpannedModel>,
    body: Seq<StatementModel>,
    span: Span,
) -> MettleDeclModel {
    MettleDeclModel {
        kind,
        namespace: Seq::empty(),
        namespace_uses: Seq::empty(),
        name,
        parameters,
        body,
        span,
    }
}

/// A flow, from its keyword on.
pub open spec fn parse_flow(ts: Tokens, at: int) -> Parsed<MettleDeclModel> {
    let start = ts[at].span;
    let first = at + 1;
    if is_mark(ts, first, Mark::LeftBrace) {
        match parse_statement_block(ts, first, false) {
            Err(error) => Err(error),
            Ok(((body, end_span), end)) => Ok(
                (
                    declared(
                        DeclarationKind::Flow,
                        None,
                        Seq::empty(),
                        body,
                        start.joined(end_span),
                    ),
                    end,
                ),
            ),
        }
    } else {
        match take_identifier(ts, first, "a flow name or `{`"@) {
            Err(error) => Err(error),
            Ok((name, next)) => match parse_parameters(ts, next) {
                Err(error) => Err(error),
                Ok((parameters, body_at)) => if is_mark(ts, body_at, Mark::Equal) {
                    match parse_expression(ts, body_at + 1, false) {
                        Err(error) => Err(error),
                        Ok((expression, end)) => {
                            let span = start.joined(expression.span);
                            Ok(
                                (
                                    declared(
                                        DeclarationKind::Flow,
                                        Some(name),
                                        parameters,
                                        seq![StatementModel::Return { expression, span }],
                                        span,
                                    ),
                                    end,
                                ),
                            )
                        },
                    }
                } else {
                    match parse_statement_block(ts, body_at, false) {
                        Err(error) => Err(error),
                        Ok(((body, end_span), end)) => Ok(
                            (
                                declared(
                                    DeclarationKind::Flow,
                                    Some(name),
                                    parameters,
                                    body,
                                    start.joined(end_span),
                                ),
                                end,
                            ),
                        ),
                    }
                },
            },
        }
    }
}

/// `(name, ...)`, which may be missing.
pub open spec fn parse_parameters(ts: Tokens, at: int) -> Parsed<Seq<SpannedModel>> {
    if !is_mark(ts, at, Mark::LeftParen) {
        Ok((Seq::empty(), at))
    } else if is_mark(ts, at + 1, Mark::RightParen) {
        Ok((Seq::empty(), at + 2))
    } else {
        parameter_names(ts, at + 1, Seq::empty())
    }
}

/// Names of parameters behind those already read, and the closing parenthesis.
pub open spec fn parameter_names(ts: Tokens, at: int, names: Seq<SpannedModel>) -> Parsed<
    Seq<SpannedModel>,
>
    decreases ts.len() - at,
{
    match take_identifier(ts, at, "a parameter name"@) {
        Err(error) => Err(error),
        Ok((name, next)) => if !advanced(ts, at, next) {
            stuck()
        } else if is_mark(ts, next, Mark::Comma) {
            parameter_names(ts, next + 1, names.push(name))
        } else {
            match take(ts, next, Mark::RightParen) {
                Err(error) => Err(error),
                Ok(end) => Ok((names.push(name), end)),
            }
        },
    }
}

/// Whether there is nothing but white space in `text`.
pub open spec fn is_only_space(text: Seq<char>) -> bool {
    forall|i: int| 0 <= i < text.len() ==> is_space(#[trigger] text[i])
}

/// A test, from its keyword on.
pub open spec fn parse_test(ts: Tokens, at: int) -> Parsed<MettleDeclModel> {
    let start = ts[at].span;
    let parenthesized = is_mark(ts, at + 1, Mark::LeftParen);
    let name_at = if parenthesized {
        at + 2
    } else {
        at + 1
    };
    match ts[name_at].kind {
        TokenKindModel::String(value) => if is_only_space(value) {
            Err(error_of("test name cannot be empty"@, ts[name_at].span))
        } else {
            let block = if parenthesized {
                take(ts, name_at + 1, Mark::RightParen)
            } else {
                Ok(name_at + 1)
            };
            match block {
                Err(error) => Err(error),
                Ok(next) => match parse_statement_block(ts, next, false) {
                    Err(error) => Err(error),
                    Ok(((body, end_span), end)) => Ok(
                        (
                            declared(
                                DeclarationKind::Test,
                                Some(SpannedModel { value, span: ts[name_at].span }),
                                Seq::empty(),
                                body,
                                start.joined(end_span),
                            ),
                            end,
                        ),
                    ),
                },
            }
        },
        _ => Err(error_of("expected a test name string"@, ts[name_at].span)),
    }
}

/// A call on its own, which is a flow without a name.
pub open spec fn parse_anonymous_expression_flow(ts: Tokens, at: int) -> Parsed<MettleDeclModel> {
    match parse_expression(ts, at, false) {
        Err(error) => Err(error),
        Ok((expression, end)) => if expression.kind is Call {
            Ok(
                (
                    declared(
                        DeclarationKind::Flow,
                        None,
                        Seq::empty(),
                        seq![StatementModel::Return { expression, span: expression.span }],
                        expression.span,
                    ),
                    end,
                ),
            )
        } else {
            Err(
                error_of(
                    "a top-level anonymous flow must be a call expression"@,
                    expression.span,
                ),
            )
        },
    }
}

pub open spec fn no_program() -> ProgramModel {
    ProgramModel {
        namespace: None,
        namespace_uses: Seq::empty(),
        contexts: Seq::empty(),
        file_contexts: Seq::empty(),
        flows: Seq::empty(),
    }
}

impl ProgramModel {
    /// The namespace that declarations from here on belong to.
    pub open spec fn current_namespace(self) -> Seq<char> {
        match self.namespace {
            Some(name) => name.value,
            None => Seq::empty(),
        }
    }

    pub open spec fn with_context(self, context: ContextDeclModel) -> ProgramModel {
        ProgramModel {
            contexts: self.contexts.push(
                ContextDeclModel {
                    namespace: self.current_namespace(),
                    namespace_uses: self.namespace_uses,
                    ..context
                },
            ),
            ..self
        }
    }

    pub open spec fn with_file_context(self, context: FileContextUseModel) -> ProgramModel {
        ProgramModel { file_contexts: self.file_contexts.push(context), ..self }
    }

    pub open spec fn with_flow(self, flow: MettleDeclModel) -> ProgramModel {
        ProgramModel {
            flows: self.flows.push(
                MettleDeclModel {
                    namespace: self.current_namespace(),
                    namespace_uses: self.namespace_uses,
                    ..flow
                },
            ),
            ..self
        }
    }
}

/// The program with the declaration at `at` added.
pub open spec fn parse_declaration(ts: Tokens, at: int, program: ProgramModel) -> Parsed<
    ProgramModel,
> {
    if is_mark(ts, at, Mark::Namespace) {
        match take_identifier(ts, at + 1, "a namespace name"@) {
            Err(error) => Err(error),
            Ok((name, end)) => if program.namespace is Some {
                Err(
                    error_of(
                        "a file may declare only one namespace"@,
                        ts[at].span.joined(name.span),
                    ),
                )
            } else {
                Ok((ProgramModel { namespace: Some(name), ..program }, end))
            },
        }
    } else if is_mark(ts, at, Mark::Use) {
        parse_use(ts, at, program)
    } else if is_mark(ts, at, Mark::Context) {
        match take_identifier(ts, at + 1, "a context name"@) {
            Err(error) => Err(error),
            Ok((name, next)) => match parse_context_body(ts, next, ts[at].span, Some(name)) {
                Err(error) => Err(error),
                Ok((context, end)) => Ok((program.with_context(context), end)),
            },
        }
    } else {
        let read = if is_mark(ts, at, Mark::Mettle) {
            parse_flow(ts, at)
        } else if is_mark(ts, at, Mark::Test) {
            parse_test(ts, at)
        } else {
            parse_anonymous_expression_flow(ts, at)
        };
        match read {
            Err(error) => Err(error),
            Ok((flow, end)) => Ok((program.with_flow(flow), end)),
        }
    }
}

/// `use namespace name`, or a context that the file applies.
pub open spec fn parse_use(ts: Tokens, at: int, program: ProgramModel) -> Parsed<ProgramModel> {
    let start = ts[at].span;
    if is_mark(ts, at + 1, Mark::Namespace) {
        match take_identifier(ts, at + 2, "a namespace name"@) {
            Err(error) => Err(error),
            Ok((name, end)) => Ok(
                (
                    ProgramModel { namespace_uses: program.namespace_uses.push(name), ..program },
                    end,
                ),
            ),
        }
    } else {
        match take(ts, at + 1, Mark::Context) {
            Err(error) => Err(error),
            Ok(first) => if is_mark(ts, first, Mark::LeftBrace) {
                match parse_context_body(ts, first, start, None) {
                    Err(error) => Err(error),
                    Ok((context, end)) => Ok(
                        (
                            program.with_file_context(
                                FileContextUseModel::Inline(context.span),
                            ).with_context(context),
                            end,
                        ),
                    ),
                }
            } else {
                match take_identifier(ts, first, "a context name"@) {
                    Err(error) => Err(error),
                    Ok((name, next)) => if is_mark(ts, next, Mark::LeftBrace) {
                        match parse_context_body(ts, next, start, Some(name)) {
                            Err(error) => Err(error),
                            Ok((context, end)) => Ok(
                                (
                                    program.with_file_context(
                                        FileContextUseModel::Named(name),
                                    ).with_context(context),
                                    end,
                                ),
                            ),
                        }
                    } else {
                        Ok((program.with_file_context(FileContextUseModel::Named(name)), next))
                    },
                }
            },
        }
    }
}

/// The program with all declarations from `at` on added.
pub open spec fn parse_program(ts: Tokens, at: int, program: ProgramModel) -> Result<
    ProgramModel,
    ErrorModel,
>
    decreases ts.len() - at,
{
    if is_mark(ts, at, Mark::End) {
        Ok(program)
    } else {
        match parse_declaration(ts, at, program) {
            Err(error) => Err(error),
            Ok((next_program, next)) => if advanced(ts, at, next) {
                parse_program(ts, next, next_program)
            } else {
                Ok(program)
            },
        }
    }
}

/// The program that a source text holds.
pub open spec fn program_of(text: Seq<char>) -> Result<ProgramModel, ErrorModel> {
    match crate::lexer::lex(text) {
        Err(error) => Err(error),
        Ok(tokens) => parse_program(tokens, 0, no_program()),
    }
}

/// The expression that a text holds from its start to its end.
pub open spec fn value_of(text: Seq<char>) -> Result<ExpressionModel, ErrorModel> {
    match crate::lexer::lex(text) {
        Err(error) => Err(error),
        Ok(tokens) => match parse_expression(tokens, 0, false) {
            Err(error) => Err(error),
            Ok((expression, end)) => if is_mark(tokens, end, Mark::End) {
                Ok(expression)
            } else {
                Err(expected(tokens, end, "the end of the value"@))
            },
        },
    }
}

} // verus!
