//! Reading programs by recursive descent.

use vstd::prelude::*;
use vstd::string::*;

use crate::binary64::Binary64;
use crate::grammar::{self, called, is_identifier, is_mark, program_of, value_of, Parsed, Tokens};
use crate::lexer::{ends_once, token_models, tokenize, Mark, Token, TokenKind};
use crate::syntax::{
    branch_models, context_models, expression_models, field_models, file_context_models,
    flow_models, if_branch_models, member_models, optional_expression_model, optional_spanned_model,
    spanned_models, statement_models, BinaryOperator, ContextDecl, ContextDeclModel, ContextMember,
    ContextMemberModel, DeclarationKind, ErrorModel, Expression, ExpressionKind,
    ExpressionKindModel, ExpressionModel, FileContextUse, IfBranch, MettleDecl, MettleDeclModel,
    ObjectField, ObjectFieldModel, ParallelBranch, ParallelBranchModel, Program, ProgramModel, Span,
    Spanned, SpannedModel, Statement, StatementModel, SyntaxError,
};
use crate::text::{is_space, no_text, same, space_char, wrapped};

verus! {

// ---------------------------------------------------------------------------
// Results in terms of the grammar

pub open spec fn parsed_expression(result: Result<(Expression, usize), SyntaxError>) -> Parsed<
    ExpressionModel,
> {
    match result {
        Ok((value, end)) => Ok((value.model(), end as int)),
        Err(error) => Err(error.model()),
    }
}

pub open spec fn parsed_statement(result: Result<(Statement, usize), SyntaxError>) -> Parsed<
    StatementModel,
> {
    match result {
        Ok((value, end)) => Ok((value.model(), end as int)),
        Err(error) => Err(error.model()),
    }
}

pub open spec fn parsed_field(result: Result<(ObjectField, usize), SyntaxError>) -> Parsed<
    ObjectFieldModel,
> {
    match result {
        Ok((value, end)) => Ok((value.model(), end as int)),
        Err(error) => Err(error.model()),
    }
}

pub open spec fn parsed_name(result: Result<(Spanned<String>, usize), SyntaxError>) -> Parsed<
    SpannedModel,
> {
    match result {
        Ok((value, end)) => Ok((value.model(), end as int)),
        Err(error) => Err(error.model()),
    }
}

pub open spec fn parsed_position(result: Result<usize, SyntaxError>) -> Result<int, ErrorModel> {
    match result {
        Ok(end) => Ok(end as int),
        Err(error) => Err(error.model()),
    }
}

pub open spec fn parsed_fields(
    result: Result<((Vec<ObjectField>, Span), usize), SyntaxError>,
) -> Parsed<(Seq<ObjectFieldModel>, Span)> {
    match result {
        Ok(((fields, span), end)) => Ok(((field_models(fields@), span), end as int)),
        Err(error) => Err(error.model()),
    }
}

pub open spec fn parsed_statements(
    result: Result<((Vec<Statement>, Span), usize), SyntaxError>,
) -> Parsed<(Seq<StatementModel>, Span)> {
    match result {
        Ok(((statements, span), end)) => Ok(((statement_models(statements@), span), end as int)),
        Err(error) => Err(error.model()),
    }
}

pub open spec fn parsed_options(result: Result<(Vec<ObjectField>, usize), SyntaxError>) -> Parsed<
    Seq<ObjectFieldModel>,
> {
    match result {
        Ok((options, end)) => Ok((field_models(options@), end as int)),
        Err(error) => Err(error.model()),
    }
}

pub open spec fn parsed_arguments(
    result: Result<((Vec<Expression>, Vec<ObjectField>), usize), SyntaxError>,
) -> Parsed<(Seq<ExpressionModel>, Seq<ObjectFieldModel>)> {
    match result {
        Ok(((positional, named), end)) => Ok(
            ((expression_models(positional@), field_models(named@)), end as int),
        ),
        Err(error) => Err(error.model()),
    }
}

pub open spec fn parsed_items(result: Result<(Vec<Expression>, usize), SyntaxError>) -> Parsed<
    Seq<ExpressionModel>,
> {
    match result {
        Ok((values, end)) => Ok((expression_models(values@), end as int)),
        Err(error) => Err(error.model()),
    }
}

pub open spec fn parsed_branches(
    result: Result<((Vec<ParallelBranch>, Span), usize), SyntaxError>,
) -> Parsed<(Seq<ParallelBranchModel>, Span)> {
    match result {
        Ok(((branches, span), end)) => Ok(((branch_models(branches@), span), end as int)),
        Err(error) => Err(error.model()),
    }
}

pub open spec fn optional_model(expression: Option<Expression>) -> Option<ExpressionModel> {
    match expression {
        Some(expression) => Some(expression.model()),
        None => None,
    }
}

pub open spec fn parsed_message(
    result: Result<(Option<Expression>, usize), SyntaxError>,
) -> Parsed<Option<ExpressionModel>> {
    match result {
        Ok((message, end)) => Ok((optional_model(message), end as int)),
        Err(error) => Err(error.model()),
    }
}

pub open spec fn parsed_members(
    result: Result<((Vec<ContextMember>, Span), usize), SyntaxError>,
) -> Parsed<(Seq<ContextMemberModel>, Span)> {
    match result {
        Ok(((members, span), end)) => Ok(((member_models(members@), span), end as int)),
        Err(error) => Err(error.model()),
    }
}

pub open spec fn parsed_member(result: Result<(ContextMember, usize), SyntaxError>) -> Parsed<
    ContextMemberModel,
> {
    match result {
        Ok((member, end)) => Ok((member.model(), end as int)),
        Err(error) => Err(error.model()),
    }
}

pub open spec fn parsed_context(result: Result<(ContextDecl, usize), SyntaxError>) -> Parsed<
    ContextDeclModel,
> {
    match result {
        Ok((context, end)) => Ok((context.model(), end as int)),
        Err(error) => Err(error.model()),
    }
}

pub open spec fn parsed_flow(result: Result<(MettleDecl, usize), SyntaxError>) -> Parsed<
    MettleDeclModel,
> {
    match result {
        Ok((flow, end)) => Ok((flow.model(), end as int)),
        Err(error) => Err(error.model()),
    }
}

pub open spec fn parsed_names(
    result: Result<(Vec<Spanned<String>>, usize), SyntaxError>,
) -> Parsed<Seq<SpannedModel>> {
    match result {
        Ok((names, end)) => Ok((spanned_models(names@), end as int)),
        Err(error) => Err(error.model()),
    }
}

pub open spec fn parsed_program(result: Result<Program, SyntaxError>) -> Result<
    ProgramModel,
    ErrorModel,
> {
    match result {
        Ok(program) => Ok(program.model()),
        Err(error) => Err(error.model()),
    }
}

pub open spec fn required_result(
    result: Result<Expression, SyntaxError>,
    rest: Seq<ObjectField>,
) -> Result<(ExpressionModel, Seq<ObjectFieldModel>), ErrorModel> {
    match result {
        Ok(value) => Ok((value.model(), field_models(rest))),
        Err(error) => Err(error.model()),
    }
}

fn binary(left: Expression, operator: BinaryOperator, right: Expression) -> (whole: Expression)
    ensures
        whole.model() == grammar::binary(left.model(), operator, right.model()),
{
    proof {
        reveal(ExpressionKind::model);
    }
    Expression {
        span: left.span.join(right.span),
        kind: ExpressionKind::Binary {
            left: Box::new(left),
            operator,
            right: Box::new(right),
        },
    }
}

fn literal(kind: ExpressionKind, span: Span) -> (expression: Expression)
    ensures
        expression.model() == grammar::simple(kind.model(), span),
{
    proof {
        reveal(ExpressionKind::model);
    }
    Expression { kind, span }
}

fn asserted(expression: Expression, message: Option<Expression>, span: Span) -> (statement:
    Statement)
    ensures
        statement.model() == (StatementModel::Assert {
            expression: expression.model(),
            message: optional_model(message),
            span,
        }),
{
    Statement::Assert { expression, message, span }
}

fn null(span: Span) -> (expression: Expression)
    ensures
        expression.model() == grammar::simple(ExpressionKindModel::Null, span),
{
    proof {
        reveal(ExpressionKind::model);
    }
    literal(ExpressionKind::Null, span)
}

fn boolean(value: bool, span: Span) -> (expression: Expression)
    ensures
        expression.model() == grammar::simple(ExpressionKindModel::Boolean(value), span),
{
    proof {
        reveal(ExpressionKind::model);
    }
    literal(ExpressionKind::Boolean(value), span)
}

fn integer(value: i64, span: Span) -> (expression: Expression)
    ensures
        expression.model() == grammar::simple(ExpressionKindModel::Integer(value), span),
{
    proof {
        reveal(ExpressionKind::model);
    }
    literal(ExpressionKind::Integer(value), span)
}

fn float(value: Binary64, span: Span) -> (expression: Expression)
    ensures
        expression.model() == grammar::simple(ExpressionKindModel::Float(value), span),
{
    proof {
        reveal(ExpressionKind::model);
    }
    literal(ExpressionKind::Float(value), span)
}

fn duration(value: u64, span: Span) -> (expression: Expression)
    ensures
        expression.model() == grammar::simple(ExpressionKindModel::DurationNanos(value), span),
{
    proof {
        reveal(ExpressionKind::model);
    }
    literal(ExpressionKind::DurationNanos(value), span)
}

fn text(value: String, span: Span) -> (expression: Expression)
    ensures
        expression.model() == grammar::simple(ExpressionKindModel::String(value@), span),
{
    proof {
        reveal(ExpressionKind::model);
    }
    literal(ExpressionKind::String(value), span)
}

fn named(path: String, span: Span) -> (expression: Expression)
    ensures
        expression.model() == grammar::simple(ExpressionKindModel::Name(path@), span),
{
    proof {
        reveal(ExpressionKind::model);
    }
    literal(ExpressionKind::Name(path), span)
}

fn array(values: Vec<Expression>, span: Span) -> (expression: Expression)
    ensures
        expression.model() == grammar::simple(
            ExpressionKindModel::Array(expression_models(values@)),
            span,
        ),
{
    proof {
        reveal(ExpressionKind::model);
    }
    literal(ExpressionKind::Array(values), span)
}

fn object(fields: Vec<ObjectField>, span: Span) -> (expression: Expression)
    ensures
        expression.model() == grammar::simple(
            ExpressionKindModel::Object(field_models(fields@)),
            span,
        ),
{
    proof {
        reveal(ExpressionKind::model);
    }
    literal(ExpressionKind::Object(fields), span)
}

fn unary(value: Expression, negated: bool, span: Span) -> (expression: Expression)
    ensures
        expression.model() == grammar::simple(
            if negated {
                ExpressionKindModel::Not(Box::new(value.model()))
            } else {
                ExpressionKindModel::Negate(Box::new(value.model()))
            },
            span,
        ),
{
    proof {
        reveal(ExpressionKind::model);
    }
    if negated {
        literal(ExpressionKind::Not(Box::new(value)), span)
    } else {
        literal(ExpressionKind::Negate(Box::new(value)), span)
    }
}

fn member_of(value: Expression, member: Spanned<String>, span: Span) -> (expression: Expression)
    ensures
        expression.model() == grammar::simple(
            ExpressionKindModel::Member { value: Box::new(value.model()), member: member.model() },
            span,
        ),
{
    proof {
        reveal(ExpressionKind::model);
    }
    literal(ExpressionKind::Member { value: Box::new(value), member }, span)
}

fn indexed(value: Expression, index: Expression, span: Span) -> (expression: Expression)
    ensures
        expression.model() == grammar::simple(
            ExpressionKindModel::Index {
                value: Box::new(value.model()),
                index: Box::new(index.model()),
            },
            span,
        ),
{
    proof {
        reveal(ExpressionKind::model);
    }
    literal(ExpressionKind::Index { value: Box::new(value), index: Box::new(index) }, span)
}

fn failing(message: Expression, span: Span) -> (expression: Expression)
    ensures
        expression.model() == grammar::simple(
            ExpressionKindModel::Fail(Box::new(message.model())),
            span,
        ),
{
    proof {
        reveal(ExpressionKind::model);
    }
    literal(ExpressionKind::Fail(Box::new(message)), span)
}

fn within(timeout: Expression, body: Box<Expression>, span: Span) -> (expression: Expression)
    ensures
        expression.model() == grammar::simple(
            ExpressionKindModel::Within {
                timeout: Box::new(timeout.model()),
                body: Box::new((*body).model()),
            },
            span,
        ),
{
    proof {
        reveal(ExpressionKind::model);
    }
    literal(ExpressionKind::Within { timeout: Box::new(timeout), body }, span)
}

fn retried(
    attempts: Expression,
    delay: Option<Expression>,
    body: Box<Expression>,
    span: Span,
) -> (expression: Expression)
    ensures
        expression.model() == grammar::simple(
            ExpressionKindModel::Retry {
                attempts: Box::new(attempts.model()),
                delay: grammar::boxed(optional_model(delay)),
                body: Box::new((*body).model()),
            },
            span,
        ),
{
    proof {
        reveal(ExpressionKind::model);
    }
    literal(
        ExpressionKind::Retry { attempts: Box::new(attempts), delay: boxed(delay), body },
        span,
    )
}

fn rated(
    target: Expression,
    period: Expression,
    duration: Expression,
    limit: Option<Expression>,
    body: Box<Expression>,
    span: Span,
) -> (expression: Expression)
    ensures
        expression.model() == grammar::simple(
            ExpressionKindModel::Rate {
                target: Box::new(target.model()),
                period: Box::new(period.model()),
                duration: Box::new(duration.model()),
                limit: grammar::boxed(optional_model(limit)),
                body: Box::new((*body).model()),
            },
            span,
        ),
{
    proof {
        reveal(ExpressionKind::model);
    }
    literal(
        ExpressionKind::Rate {
            target: Box::new(target),
            period: Box::new(period),
            duration: Box::new(duration),
            limit: boxed(limit),
            body,
        },
        span,
    )
}

fn concurrent(
    limit: Expression,
    duration: Expression,
    body: Box<Expression>,
    span: Span,
) -> (expression: Expression)
    ensures
        expression.model() == grammar::simple(
            ExpressionKindModel::Concurrency {
                limit: Box::new(limit.model()),
                duration: Box::new(duration.model()),
                body: Box::new((*body).model()),
            },
            span,
        ),
{
    proof {
        reveal(ExpressionKind::model);
    }
    literal(
        ExpressionKind::Concurrency { limit: Box::new(limit), duration: Box::new(duration), body },
        span,
    )
}

fn parallel(limit: Option<Expression>, branches: Vec<ParallelBranch>, span: Span) -> (expression:
    Expression)
    ensures
        expression.model() == grammar::simple(
            ExpressionKindModel::Parallel {
                limit: grammar::boxed(optional_model(limit)),
                branches: branch_models(branches@),
            },
            span,
        ),
{
    proof {
        reveal(ExpressionKind::model);
    }
    literal(ExpressionKind::Parallel { limit: boxed(limit), branches }, span)
}

fn looped(
    key: Option<Spanned<String>>,
    value: Spanned<String>,
    iterable: Expression,
    body: Vec<Statement>,
    span: Span,
) -> (expression: Expression)
    ensures
        expression.model() == grammar::simple(
            ExpressionKindModel::For {
                key: optional_spanned_model(key),
                value: value.model(),
                iterable: Box::new(iterable.model()),
                body: statement_models(body@),
            },
            span,
        ),
{
    proof {
        reveal(ExpressionKind::model);
    }
    literal(ExpressionKind::For { key, value, iterable: Box::new(iterable), body }, span)
}

fn boxed(value: Option<Expression>) -> (wrapped: Option<Box<Expression>>)
    ensures
        optional_expression_model(wrapped) == grammar::boxed(optional_model(value)),
{
    match value {
        Some(value) => Some(Box::new(value)),
        None => None,
    }
}

fn policy_body(start: Span, statements: Vec<Statement>, end: Span) -> (body: Box<Expression>)
    ensures
        Box::new((*body).model()) == grammar::policy_body(
            start,
            statement_models(statements@),
            end,
        ),
{
    proof {
        reveal(ExpressionKind::model);
    }
    Box::new(literal(ExpressionKind::Block(statements), start.join(end)))
}

fn token_description(mark: Mark) -> (text: &'static str)
    ensures
        text@ == grammar::description(mark),
{
    proof {
        reveal(grammar::description);
    }
    match mark {
        Mark::If => "`if`",
        Mark::For => "`for`",
        Mark::In => "`in`",
        Mark::Else => "`else`",
        Mark::And => "`and`",
        Mark::Or => "`or`",
        Mark::Not => "`not`",
        Mark::Minus => "`-`",
        Mark::Mettle => "`flow`",
        Mark::Test => "`test`",
        Mark::Context => "`context`",
        Mark::Namespace => "`namespace`",
        Mark::Defaults => "`defaults`",
        Mark::Use => "`use`",
        Mark::Return => "`return`",
        Mark::Assert => "`assert`",
        Mark::Fail => "`fail`",
        Mark::Within => "`within`",
        Mark::Retry => "`retry`",
        Mark::Parallel => "`parallel`",
        Mark::Rate => "`rate`",
        Mark::Concurrency => "`concurrency`",
        Mark::True => "`true`",
        Mark::False => "`false`",
        Mark::Null => "`null`",
        Mark::LeftBrace => "`{`",
        Mark::RightBrace => "`}`",
        Mark::LeftBracket => "`[`",
        Mark::RightBracket => "`]`",
        Mark::LeftParen => "`(`",
        Mark::RightParen => "`)`",
        Mark::Comma => "`,`",
        Mark::Colon => "`:`",
        Mark::Equal => "`=`",
        Mark::EqualEqual => "`==`",
        Mark::BangEqual => "`!=`",
        Mark::Less => "`<`",
        Mark::LessEqual => "`<=`",
        Mark::Greater => "`>`",
        Mark::GreaterEqual => "`>=`",
        Mark::Dot => "`.`",
        Mark::End => "the end of the file",
    }
}

/// Reads rows of tokens that end with the end of the file.
struct Parser<'a> {
    tokens: &'a Vec<Token>,
}

impl<'a> Parser<'a> {
    spec fn ts(self) -> Tokens {
        token_models(self.tokens@)
    }

    spec fn valid(self) -> bool {
        &&& ends_once(self.ts())
        &&& self.tokens@.len() <= usize::MAX
    }

    fn at(&self, at: usize, mark: Mark) -> (yes: bool)
        requires
            self.valid(),
        ensures
            yes == is_mark(self.ts(), at as int, mark),
            yes && mark != Mark::End ==> at + 1 < self.tokens@.len(),
    {
        if at < self.tokens.len() {
            proof {
                assert(self.ts()[at as int] == self.tokens@[at as int].model());
            }
            match &self.tokens[at].kind {
                TokenKind::Mark(found) => *found == mark,
                _ => false,
            }
        } else {
            false
        }
    }

    fn at_identifier(&self, at: usize) -> (yes: bool)
        requires
            self.valid(),
        ensures
            yes == is_identifier(self.ts(), at as int),
            yes ==> at + 1 < self.tokens@.len(),
    {
        if at < self.tokens.len() {
            proof {
                assert(self.ts()[at as int] == self.tokens@[at as int].model());
            }
            match &self.tokens[at].kind {
                TokenKind::Identifier(_) => true,
                _ => false,
            }
        } else {
            false
        }
    }

    fn span(&self, at: usize) -> (span: Span)
        requires
            self.valid(),
            at < self.tokens@.len(),
        ensures
            span == self.ts()[at as int].span,
    {
        self.tokens[at].span
    }

    fn expected(&self, at: usize, what: &str) -> (error: SyntaxError)
        requires
            self.valid(),
            at < self.tokens@.len(),
        ensures
            error.model() == grammar::expected(self.ts(), at as int, what@),
    {
        let mut message: String = "expected ".to_owned();
        message.append(what);
        SyntaxError { message, span: self.span(at) }
    }

    fn take(&self, at: usize, mark: Mark) -> (result: Result<usize, SyntaxError>)
        requires
            self.valid(),
            at < self.tokens@.len(),
            mark != Mark::End,
        ensures
            parsed_position(result) == grammar::take(self.ts(), at as int, mark),
            result matches Ok(end) ==> end == at + 1 && end < self.tokens@.len(),
    {
        if self.at(at, mark) {
            Ok(at + 1)
        } else {
            Err(self.expected(at, token_description(mark)))
        }
    }

    fn take_identifier(&self, at: usize, what: &str) -> (result: Result<
        (Spanned<String>, usize),
        SyntaxError,
    >)
        requires
            self.valid(),
            at < self.tokens@.len(),
        ensures
            parsed_name(result) == grammar::take_identifier(self.ts(), at as int, what@),
            result matches Ok((_, end)) ==> end == at + 1 && end < self.tokens@.len(),
    {
        proof {
            assert(self.ts()[at as int] == self.tokens@[at as int].model());
        }
        match &self.tokens[at].kind {
            TokenKind::Identifier(value) => Ok(
                (Spanned { value: value.clone(), span: self.tokens[at].span }, at + 1),
            ),
            _ => Err(self.expected(at, what)),
        }
    }

    fn separator(&self, at: usize, what: &str) -> (result: Result<usize, SyntaxError>)
        requires
            self.valid(),
            at < self.tokens@.len(),
        ensures
            parsed_position(result) == grammar::separator(self.ts(), at as int, what@),
            result matches Ok(end) ==> at <= end < self.tokens@.len(),
    {
        if self.at(at, Mark::Comma) {
            Ok(at + 1)
        } else if self.at(at, Mark::RightBrace) || self.tokens[at].fresh_line {
            Ok(at)
        } else {
            let message: String = wrapped("separate ", what, " with a comma or newline");
            Err(SyntaxError { message, span: self.span(at) })
        }
    }

    fn line_break(&self, at: usize, what: &str) -> (result: Result<usize, SyntaxError>)
        requires
            self.valid(),
            at < self.tokens@.len(),
        ensures
            parsed_position(result) == grammar::line_break(self.ts(), at as int, what@),
            result matches Ok(end) ==> end == at,
    {
        if self.at(at, Mark::RightBrace) || self.tokens[at].fresh_line {
            Ok(at)
        } else {
            let message: String = wrapped("separate ", what, " with a newline");
            Err(SyntaxError { message, span: self.span(at) })
        }
    }

    fn parse_expression(
        &self,
        at: usize,
        bare: bool,
    ) -> (result: Result<(Expression, usize), SyntaxError>)
        requires
            self.valid(),
            at < self.tokens@.len(),
        ensures
            parsed_expression(result) == grammar::parse_expression(self.ts(), at as int, bare),
            result matches Ok((_, end)) ==> at < end < self.tokens@.len(),
        decreases self.tokens@.len() - at, 10int,
    {
        self.parse_or(at, bare)
    }

    fn parse_or(&self, at: usize, bare: bool) -> (result: Result<(Expression, usize), SyntaxError>)
        requires
            self.valid(),
            at < self.tokens@.len(),
        ensures
            parsed_expression(result) == grammar::parse_or(self.ts(), at as int, bare),
            result matches Ok((_, end)) ==> at < end < self.tokens@.len(),
        decreases self.tokens@.len() - at, 9int,
    {
        let (mut left, mut next): (Expression, usize) = match self.parse_and(at, bare) {
            Ok(read) => read,
            Err(error) => {
                return Err(error);
            },
        };
        let ghost ts = self.ts();
        while self.at(next, Mark::Or)
            invariant
                self.valid(),
                ts == self.ts(),
                at < next < self.tokens@.len(),
                grammar::parse_or(ts, at as int, bare) == grammar::or_rest(
                    ts,
                    next as int,
                    bare,
                    left.model(),
                ),
            decreases self.tokens@.len() - next,
        {
            match self.parse_and(next + 1, bare) {
                Ok((right, end)) => {
                    left = binary(left, BinaryOperator::Or, right);
                    next = end;
                },
                Err(error) => {
                    return Err(error);
                },
            }
        }
        Ok((left, next))
    }

    fn parse_and(&self, at: usize, bare: bool) -> (result: Result<(Expression, usize), SyntaxError>)
        requires
            self.valid(),
            at < self.tokens@.len(),
        ensures
            parsed_expression(result) == grammar::parse_and(self.ts(), at as int, bare),
            result matches Ok((_, end)) ==> at < end < self.tokens@.len(),
        decreases self.tokens@.len() - at, 8int,
    {
        let (mut left, mut next): (Expression, usize) = match self.parse_comparison(at, bare) {
            Ok(read) => read,
            Err(error) => {
                return Err(error);
            },
        };
        let ghost ts = self.ts();
        while self.at(next, Mark::And)
            invariant
                self.valid(),
                ts == self.ts(),
                at < next < self.tokens@.len(),
                grammar::parse_and(ts, at as int, bare) == grammar::and_rest(
                    ts,
                    next as int,
                    bare,
                    left.model(),
                ),
            decreases self.tokens@.len() - next,
        {
            match self.parse_comparison(next + 1, bare) {
                Ok((right, end)) => {
                    left = binary(left, BinaryOperator::And, right);
                    next = end;
                },
                Err(error) => {
                    return Err(error);
                },
            }
        }
        Ok((left, next))
    }

    fn comparison_operator(&self, at: usize) -> (operator: Option<BinaryOperator>)
        requires
            self.valid(),
            at < self.tokens@.len(),
        ensures
            operator == grammar::comparison_operator(self.ts()[at as int].kind),
            operator is Some ==> at + 1 < self.tokens@.len(),
    {
        proof {
            assert(self.ts()[at as int] == self.tokens@[at as int].model());
        }
        match &self.tokens[at].kind {
            TokenKind::Mark(Mark::EqualEqual) => Some(BinaryOperator::Equal),
            TokenKind::Mark(Mark::BangEqual) => Some(BinaryOperator::NotEqual),
            TokenKind::Mark(Mark::Less) => Some(BinaryOperator::Less),
            TokenKind::Mark(Mark::LessEqual) => Some(BinaryOperator::LessEqual),
            TokenKind::Mark(Mark::Greater) => Some(BinaryOperator::Greater),
            TokenKind::Mark(Mark::GreaterEqual) => Some(BinaryOperator::GreaterEqual),
            _ => None,
        }
    }

    fn parse_comparison(
        &self,
        at: usize,
        bare: bool,
    ) -> (result: Result<(Expression, usize), SyntaxError>)
        requires
            self.valid(),
            at < self.tokens@.len(),
        ensures
            parsed_expression(result) == grammar::parse_comparison(self.ts(), at as int, bare),
            result matches Ok((_, end)) ==> at < end < self.tokens@.len(),
        decreases self.tokens@.len() - at, 7int,
    {
        match self.parse_unary(at, bare) {
            Err(error) => Err(error),
            Ok((left, next)) => match self.comparison_operator(next) {
                None => Ok((left, next)),
                Some(operator) => match self.parse_unary(next + 1, bare) {
                    Err(error) => Err(error),
                    Ok((right, end)) => Ok((binary(left, operator, right), end)),
                },
            },
        }
    }

    fn parse_unary(
        &self,
        at: usize,
        bare: bool,
    ) -> (result: Result<(Expression, usize), SyntaxError>)
        requires
            self.valid(),
            at < self.tokens@.len(),
        ensures
            parsed_expression(result) == grammar::parse_unary(self.ts(), at as int, bare),
            result matches Ok((_, end)) ==> at < end < self.tokens@.len(),
        decreases self.tokens@.len() - at, 6int,
    {
        let negated: bool = self.at(at, Mark::Not);
        if negated || self.at(at, Mark::Minus) {
            match self.parse_unary(at + 1, bare) {
                Err(error) => Err(error),
                Ok((value, next)) => {
                    let span: Span = self.span(at).join(value.span);
                    Ok((unary(value, negated, span), next))
                },
            }
        } else {
            self.parse_primary_expression(at, bare)
        }
    }

    fn parse_primary_expression(
        &self,
        at: usize,
        bare: bool,
    ) -> (result: Result<(Expression, usize), SyntaxError>)
        requires
            self.valid(),
            at < self.tokens@.len(),
        ensures
            parsed_expression(result) == grammar::parse_primary_expression(
                self.ts(),
                at as int,
                bare,
            ),
            result matches Ok((_, end)) ==> at < end < self.tokens@.len(),
        decreases self.tokens@.len() - at, 5int,
    {
        match self.parse_operand(at, bare) {
            Err(error) => Err(error),
            Ok((operand, next)) => match self.parse_call(next, bare, operand) {
                Err(error) => Err(error),
                Ok((value, end)) => self.parse_member_access(end, bare, value),
            },
        }
    }

    fn parse_operand(
        &self,
        at: usize,
        bare: bool,
    ) -> (result: Result<(Expression, usize), SyntaxError>)
        requires
            self.valid(),
            at < self.tokens@.len(),
        ensures
            parsed_expression(result) == grammar::parse_operand(self.ts(), at as int, bare),
            result matches Ok((_, end)) ==> at < end < self.tokens@.len(),
        decreases self.tokens@.len() - at, 4int,
    {
        proof {
            assert(self.ts()[at as int] == self.tokens@[at as int].model());
            assert(at + 1 < self.tokens@.len() || is_mark(self.ts(), at as int, Mark::End));
        }
        let span: Span = self.span(at);
        match &self.tokens[at].kind {
            TokenKind::Mark(Mark::Within) => self.parse_within(at + 1, bare, span),
            TokenKind::Mark(Mark::For) => self.parse_for(at + 1, bare, span),
            TokenKind::Mark(Mark::Retry) => self.parse_retry(at + 1, bare, span),
            TokenKind::Mark(Mark::Parallel) => self.parse_parallel(at + 1, bare, span),
            TokenKind::Mark(Mark::Rate) => self.parse_rate(at + 1, bare, span),
            TokenKind::Mark(Mark::Concurrency) => self.parse_concurrency(at + 1, bare, span),
            TokenKind::Mark(Mark::Fail) => self.parse_fail(at + 1, bare, span),
            TokenKind::Mark(Mark::Null) => Ok((null(span), at + 1)),
            TokenKind::Mark(Mark::True) => Ok(
                (boolean(true, span), at + 1),
            ),
            TokenKind::Mark(Mark::False) => Ok(
                (boolean(false, span), at + 1),
            ),
            TokenKind::Integer(value) => Ok(
                (integer(*value, span), at + 1),
            ),
            TokenKind::Float(value) => Ok((float(*value, span), at + 1)),
            TokenKind::DurationNanos(value) => Ok(
                (duration(*value, span), at + 1),
            ),
            TokenKind::String(value) => Ok(
                (text(value.clone(), span), at + 1),
            ),
            TokenKind::Mark(Mark::LeftParen) => match self.parse_expression(at + 1, bare) {
                Err(error) => Err(error),
                Ok((value, next)) => match self.take(next, Mark::RightParen) {
                    Err(error) => Err(error),
                    Ok(end) => Ok(
                        (Expression { kind: value.kind, span: span.join(self.span(next)) }, end),
                    ),
                },
            },
            TokenKind::Identifier(name) => self.path_rest(at + 1, name.clone(), span),
            TokenKind::Mark(Mark::LeftBracket) => self.parse_array(at + 1, bare, span),
            TokenKind::Mark(Mark::LeftBrace) => match self.object_fields(at + 1, bare) {
                Err(error) => Err(error),
                Ok(((fields, end_span), end)) => Ok(
                    (object(fields, span.join(end_span)), end),
                ),
            },
            _ => Err(SyntaxError::new("expected an expression", span)),
        }
    }

    fn path_rest(
        &self,
        at: usize,
        name: String,
        span: Span,
    ) -> (result: Result<(Expression, usize), SyntaxError>)
        requires
            self.valid(),
            at < self.tokens@.len(),
        ensures
            parsed_expression(result) == grammar::path_rest(self.ts(), at as int, name@, span),
            result matches Ok((_, end)) ==> at <= end < self.tokens@.len(),
    {
        let ghost ts = self.ts();
        let ghost first = name@;
        let mut path: String = name;
        let mut whole: Span = span;
        let mut next: usize = at;
        while self.at(next, Mark::Dot) && self.at_identifier(next + 1)
            invariant
                self.valid(),
                ts == self.ts(),
                at <= next < self.tokens@.len(),
                grammar::path_rest(ts, at as int, first, span) == grammar::path_rest(
                    ts,
                    next as int,
                    path@,
                    whole,
                ),
            decreases self.tokens@.len() - next,
        {
            proof {
                assert(ts[next + 1] == self.tokens@[next + 1].model());
            }
            if let TokenKind::Identifier(member) = &self.tokens[next + 1].kind {
                path.push('.');
                path.append(member.as_str());
                whole = whole.join(self.span(next + 1));
            }
            next = next + 2;
        }
        Ok((named(path, whole), next))
    }

    fn parse_call(
        &self,
        at: usize,
        bare: bool,
        operand: Expression,
    ) -> (result: Result<(Expression, usize), SyntaxError>)
        requires
            self.valid(),
            at < self.tokens@.len(),
        ensures
            parsed_expression(result) == grammar::parse_call(
                self.ts(),
                at as int,
                bare,
                operand.model(),
            ),
            result matches Ok((_, end)) ==> at <= end < self.tokens@.len(),
        decreases self.tokens@.len() - at, 12int,
    {
        if !self.at(at, Mark::LeftParen) {
            return Ok((operand, at));
        }
        proof {
            reveal(ExpressionKind::model);
        }
        let operand_span: Span = operand.span;
        let name: String = match operand.kind {
            ExpressionKind::Name(name) => name,
            _ => {
                return Err(
                    SyntaxError::new(
                        "only a named flow or capability operation can be called",
                        operand_span,
                    ),
                );
            },
        };
        let callee: Spanned<String> = Spanned { value: name, span: operand_span };
        let (positional, named, next): (Vec<Expression>, Vec<ObjectField>, usize) = if self.at(
            at + 1,
            Mark::RightParen,
        ) {
            (Vec::new(), Vec::new(), at + 1)
        } else {
            match self.call_arguments(at + 1, bare) {
                Ok(((positional, named), next)) => (positional, named, next),
                Err(error) => {
                    return Err(error);
                },
            }
        };
        proof {
            if is_mark(self.ts(), at + 1, Mark::RightParen) {
                assert(expression_models(positional@) =~= Seq::empty());
                assert(field_models(named@) =~= Seq::empty());
            }
        }
        let close: usize = match self.take(next, Mark::RightParen) {
            Ok(close) => close,
            Err(error) => {
                return Err(error);
            },
        };
        if self.at(close, Mark::LeftBrace) && !bare {
            match self.parse_object_fields(close, bare) {
                Err(error) => Err(error),
                Ok(((options, end_span), end)) => Ok(
                    (self.called(callee, positional, named, options, end_span), end),
                ),
            }
        } else {
            let options: Vec<ObjectField> = Vec::new();
            proof {
                assert(field_models(options@) =~= Seq::empty());
            }
            Ok((self.called(callee, positional, named, options, self.span(next)), close))
        }
    }

    fn called(
        &self,
        callee: Spanned<String>,
        arguments: Vec<Expression>,
        named_arguments: Vec<ObjectField>,
        options: Vec<ObjectField>,
        end: Span,
    ) -> (call: Expression)
        ensures
            call.model() == called(
                callee.model(),
                expression_models(arguments@),
                field_models(named_arguments@),
                field_models(options@),
                end,
            ),
    {
        proof {
            reveal(ExpressionKind::model);
        }
        Expression {
            span: callee.span.join(end),
            kind: ExpressionKind::Call { callee, arguments, named_arguments, options },
        }
    }

    fn call_arguments(
        &self,
        at: usize,
        bare: bool,
    ) -> (result: Result<((Vec<Expression>, Vec<ObjectField>), usize), SyntaxError>)
        requires
            self.valid(),
            at < self.tokens@.len(),
        ensures
            parsed_arguments(result) == grammar::call_arguments(
                self.ts(),
                at as int,
                bare,
                Seq::empty(),
                Seq::empty(),
            ),
            result matches Ok((_, end)) ==> at < end < self.tokens@.len(),
        decreases self.tokens@.len() - at, 12int,
    {
        let ghost ts = self.ts();
        let mut positional: Vec<Expression> = Vec::new();
        let mut named: Vec<ObjectField> = Vec::new();
        let mut next: usize = at;
        proof {
            assert(expression_models(positional@) =~= Seq::empty());
            assert(field_models(named@) =~= Seq::empty());
        }
        loop
            invariant
                self.valid(),
                ts == self.ts(),
                at <= next < self.tokens@.len(),
                grammar::call_arguments(ts, at as int, bare, Seq::empty(), Seq::empty())
                    == grammar::call_arguments(
                    ts,
                    next as int,
                    bare,
                    expression_models(positional@),
                    field_models(named@),
                ),
            decreases self.tokens@.len() - next,
        {
            let end: usize;
            if self.at_identifier(next) && self.at(next + 1, Mark::Colon) {
                match self.parse_object_field(next, bare) {
                    Ok((field, behind)) => {
                        proof {
                            assert(field_models(named@.push(field)) =~= field_models(
                                named@,
                            ).push(field.model()));
                        }
                        named.push(field);
                        end = behind;
                    },
                    Err(error) => {
                        return Err(error);
                    },
                }
            } else if named.len() == 0 {
                match self.parse_expression(next, bare) {
                    Ok((value, behind)) => {
                        proof {
                            assert(expression_models(positional@.push(value))
                                =~= expression_models(positional@).push(value.model()));
                        }
                        positional.push(value);
                        end = behind;
                    },
                    Err(error) => {
                        return Err(error);
                    },
                }
            } else {
                return Err(
                    SyntaxError::new(
                        "positional arguments must come before named arguments",
                        self.span(next),
                    ),
                );
            }
            if !self.at(end, Mark::Comma) {
                return Ok(((positional, named), end));
            }
            if self.at(end + 1, Mark::RightParen) {
                return Ok(((positional, named), end + 1));
            }
            next = end + 1;
        }
    }

    fn parse_member_access(
        &self,
        at: usize,
        bare: bool,
        value: Expression,
    ) -> (result: Result<(Expression, usize), SyntaxError>)
        requires
            self.valid(),
            at < self.tokens@.len(),
        ensures
            parsed_expression(result) == grammar::parse_member_access(
                self.ts(),
                at as int,
                bare,
                value.model(),
            ),
            result matches Ok((_, end)) ==> at <= end < self.tokens@.len(),
        decreases self.tokens@.len() - at, 12int,
    {
        if self.at(at, Mark::Dot) {
            match self.take_identifier(at + 1, "a member name after `.`") {
                Err(error) => Err(error),
                Ok((member, next)) => {
                    let span: Span = value.span.join(member.span);
                    self.parse_member_access(next, bare, member_of(value, member, span))
                },
            }
        } else if self.at(at, Mark::LeftBracket) {
            match self.parse_expression(at + 1, bare) {
                Err(error) => Err(error),
                Ok((index, next)) => match self.take(next, Mark::RightBracket) {
                    Err(error) => Err(error),
                    Ok(end) => {
                        let span: Span = value.span.join(self.span(next));
                        self.parse_member_access(end, bare, indexed(value, index, span))
                    },
                },
            }
        } else {
            Ok((value, at))
        }
    }

    fn parse_array(
        &self,
        at: usize,
        bare: bool,
        start: Span,
    ) -> (result: Result<(Expression, usize), SyntaxError>)
        requires
            self.valid(),
            at < self.tokens@.len(),
        ensures
            parsed_expression(result) == grammar::parse_array(self.ts(), at as int, bare, start),
            result matches Ok((_, end)) ==> at < end < self.tokens@.len(),
        decreases self.tokens@.len() - at, 13int,
    {
        let (values, next): (Vec<Expression>, usize) = if self.at(at, Mark::RightBracket) {
            (Vec::new(), at)
        } else {
            match self.array_items(at, bare) {
                Ok(read) => read,
                Err(error) => {
                    return Err(error);
                },
            }
        };
        proof {
            if is_mark(self.ts(), at as int, Mark::RightBracket) {
                assert(expression_models(values@) =~= Seq::empty());
            }
        }
        match self.take(next, Mark::RightBracket) {
            Err(error) => Err(error),
            Ok(end) => Ok(
                (array(values, start.join(self.span(next))), end),
            ),
        }
    }

    fn array_items(
        &self,
        at: usize,
        bare: bool,
    ) -> (result: Result<(Vec<Expression>, usize), SyntaxError>)
        requires
            self.valid(),
            at < self.tokens@.len(),
        ensures
            parsed_items(result) == grammar::array_items(self.ts(), at as int, bare, Seq::empty()),
            result matches Ok((_, end)) ==> at < end < self.tokens@.len(),
        decreases self.tokens@.len() - at, 12int,
    {
        let ghost ts = self.ts();
        let mut values: Vec<Expression> = Vec::new();
        let mut next: usize = at;
        proof {
            assert(expression_models(values@) =~= Seq::empty());
        }
        loop
            invariant
                self.valid(),
                ts == self.ts(),
                at <= next < self.tokens@.len(),
                grammar::array_items(ts, at as int, bare, Seq::empty()) == grammar::array_items(
                    ts,
                    next as int,
                    bare,
                    expression_models(values@),
                ),
            decreases self.tokens@.len() - next,
        {
            match self.parse_expression(next, bare) {
                Ok((value, end)) => {
                    proof {
                        assert(expression_models(values@.push(value)) =~= expression_models(
                            values@,
                        ).push(value.model()));
                    }
                    values.push(value);
                    if !self.at(end, Mark::Comma) {
                        return Ok((values, end));
                    }
                    if self.at(end + 1, Mark::RightBracket) {
                        return Ok((values, end + 1));
                    }
                    next = end + 1;
                },
                Err(error) => {
                    return Err(error);
                },
            }
        }
    }

    fn parse_object_fields(
        &self,
        at: usize,
        bare: bool,
    ) -> (result: Result<((Vec<ObjectField>, Span), usize), SyntaxError>)
        requires
            self.valid(),
            at < self.tokens@.len(),
        ensures
            parsed_fields(result) == grammar::parse_object_fields(self.ts(), at as int, bare),
            result matches Ok((_, end)) ==> at < end < self.tokens@.len(),
        decreases self.tokens@.len() - at, 13int,
    {
        if self.at(at, Mark::LeftBrace) {
            self.object_fields(at + 1, bare)
        } else {
            Err(self.expected(at, token_description(Mark::LeftBrace)))
        }
    }

    fn object_fields(
        &self,
        at: usize,
        bare: bool,
    ) -> (result: Result<((Vec<ObjectField>, Span), usize), SyntaxError>)
        requires
            self.valid(),
            at < self.tokens@.len(),
        ensures
            parsed_fields(result) == grammar::object_fields(
                self.ts(),
                at as int,
                bare,
                Seq::empty(),
            ),
            result matches Ok((_, end)) ==> at < end < self.tokens@.len(),
        decreases self.tokens@.len() - at, 12int,
    {
        let ghost ts = self.ts();
        let mut items: Vec<ObjectField> = Vec::new();
        let mut next: usize = at;
        proof {
            assert(field_models(items@) =~= Seq::empty());
        }
        while !self.at(next, Mark::RightBrace)
            invariant
                self.valid(),
                ts == self.ts(),
                at <= next < self.tokens@.len(),
                grammar::object_fields(ts, at as int, bare, Seq::empty()) == grammar::object_fields(
                    ts,
                    next as int,
                    bare, field_models(items@),
                ),
            decreases self.tokens@.len() - next,
        {
            if self.at(next, Mark::End) {
                return Err(self.expected(next, "an object field or `}`"));
            }
            match self.parse_object_field(next, bare) {
                Ok((item, behind)) => match self.separator(behind, "object fields") {
                    Ok(end) => {
                        proof {
                            assert(field_models(items@.push(item)) =~= field_models(items@).push(
                                item.model(),
                            ));
                        }
                        items.push(item);
                        next = end;
                    },
                    Err(error) => {
                        return Err(error);
                    },
                },
                Err(error) => {
                    return Err(error);
                },
            }
        }
        Ok(((items, self.span(next)), next + 1))
    }

    fn parse_object_field(
        &self,
        at: usize,
        bare: bool,
    ) -> (result: Result<(ObjectField, usize), SyntaxError>)
        requires
            self.valid(),
            at < self.tokens@.len(),
        ensures
            parsed_field(result) == grammar::parse_object_field(self.ts(), at as int, bare),
            result matches Ok((_, end)) ==> at < end < self.tokens@.len(),
        decreases self.tokens@.len() - at, 11int,
    {
        proof {
            assert(self.ts()[at as int] == self.tokens@[at as int].model());
        }
        let span: Span = self.span(at);
        let value: String = match &self.tokens[at].kind {
            TokenKind::Identifier(value) => value.clone(),
            TokenKind::String(value) => value.clone(),
            _ => {
                return Err(SyntaxError::new("expected an object field name", span));
            },
        };
        let name: Spanned<String> = Spanned { value, span };
        match self.take(at + 1, Mark::Colon) {
            Err(error) => Err(error),
            Ok(next) => match self.parse_expression(next, bare) {
                Err(error) => Err(error),
                Ok((expression, end)) => Ok(
                    (ObjectField { span: name.span.join(expression.span), name, expression }, end),
                ),
            },
        }
    }

    fn parse_policy_options(
        &self,
        at: usize,
        bare: bool,
    ) -> (result: Result<(Vec<ObjectField>, usize), SyntaxError>)
        requires
            self.valid(),
            at < self.tokens@.len(),
        ensures
            parsed_options(result) == grammar::parse_policy_options(self.ts(), at as int, bare),
            result matches Ok((_, end)) ==> at < end < self.tokens@.len(),
        decreases self.tokens@.len() - at, 13int,
    {
        if self.at(at, Mark::LeftParen) {
            self.policy_options(at + 1, bare)
        } else {
            Err(self.expected(at, token_description(Mark::LeftParen)))
        }
    }

    fn has_field(fields: &Vec<ObjectField>, name: &str) -> (yes: bool)
        ensures
            yes == grammar::has_field(field_models(fields@), name@),
    {
        let mut at: usize = 0;
        while at < fields.len()
            invariant
                at <= fields@.len(),
                forall|i: int| 0 <= i < at ==> (#[trigger] fields@[i]).name.value@ != name@,
            decreases fields@.len() - at,
        {
            if same(fields[at].name.value.as_str(), name) {
                proof {
                    assert(field_models(fields@)[at as int].name.value == name@);
                }
                return true;
            }
            at += 1;
        }
        proof {
            assert forall|i: int| 0 <= i < field_models(fields@).len() implies (
            #[trigger] field_models(fields@)[i]).name.value != name@ by {
                assert(fields@[i].name.value@ != name@);
            }
        }
        false
    }

    fn policy_options(
        &self,
        at: usize,
        bare: bool,
    ) -> (result: Result<(Vec<ObjectField>, usize), SyntaxError>)
        requires
            self.valid(),
            at < self.tokens@.len(),
        ensures
            parsed_options(result) == grammar::policy_options(
                self.ts(),
                at as int,
                bare,
                Seq::empty(),
            ),
            result matches Ok((_, end)) ==> at < end < self.tokens@.len(),
        decreases self.tokens@.len() - at, 12int,
    {
        let ghost ts = self.ts();
        let mut options: Vec<ObjectField> = Vec::new();
        let mut next: usize = at;
        proof {
            assert(field_models(options@) =~= Seq::empty());
        }
        while !self.at(next, Mark::RightParen)
            invariant
                self.valid(),
                ts == self.ts(),
                at <= next < self.tokens@.len(),
                grammar::policy_options(ts, at as int, bare, Seq::empty())
                    == grammar::policy_options(ts, next as int, bare, field_models(options@)),
            decreases self.tokens@.len() - next,
        {
            let (name, colon): (Spanned<String>, usize) = match self.take_identifier(
                next,
                "a policy option name",
            ) {
                Ok(read) => read,
                Err(error) => {
                    return Err(error);
                },
            };
            let first: usize = match self.take(colon, Mark::Colon) {
                Ok(first) => first,
                Err(error) => {
                    return Err(error);
                },
            };
            let (expression, end): (Expression, usize) = match self.parse_expression(first, bare) {
                Ok(read) => read,
                Err(error) => {
                    return Err(error);
                },
            };
            if Self::has_field(&options, name.value.as_str()) {
                let message: String = wrapped(
                    "policy option `",
                    name.value.as_str(),
                    "` was supplied more than once",
                );
                return Err(SyntaxError { message, span: name.span });
            }
            let option: ObjectField = ObjectField {
                span: name.span.join(expression.span),
                name,
                expression,
            };
            proof {
                assert(field_models(options@.push(option)) =~= field_models(options@).push(
                    option.model(),
                ));
            }
            options.push(option);
            if !self.at(end, Mark::Comma) {
                return match self.take(end, Mark::RightParen) {
                    Err(error) => Err(error),
                    Ok(close) => Ok((options, close)),
                };
            }
            next = end + 1;
        }
        Ok((options, next + 1))
    }

    /// Takes the option of the name out of the list.
    fn optional_policy_option(options: &mut Vec<ObjectField>, name: &str) -> (value: Option<
        Expression,
    >)
        ensures
            (optional_model(value), field_models(final(options)@)) == grammar::optional_option(
                field_models(old(options)@),
                name@,
            ),
    {
        let ghost before = options@;
        let ghost models = field_models(before);
        let mut at: usize = 0;
        while at < options.len()
            invariant
                before == old(options)@,
                options@ == before,
                models == field_models(before),
                at <= options@.len(),
                grammar::field_position(models, name@, 0) == grammar::field_position(
                    models,
                    name@,
                    at as int,
                ),
            decreases options@.len() - at,
        {
            proof {
                assert(models[at as int] == before[at as int].model());
            }
            if same(options[at].name.value.as_str(), name) {
                let taken: ObjectField = options.remove(at);
                proof {
                    reveal(grammar::optional_option);
                    assert(field_models(options@) =~= models.remove(at as int));
                }
                return Some(taken.expression);
            }
            at += 1;
        }
        proof {
            reveal(grammar::optional_option);
        }
        None
    }

    fn required_policy_option(options: &mut Vec<ObjectField>, name: &str, span: Span) -> (result:
        Result<Expression, SyntaxError>)
        ensures
            required_result(result, final(options)@) == grammar::required_option(
                field_models(old(options)@),
                name@,
                span,
            ),
    {
        proof {
            reveal(grammar::required_option);
        }
        match Self::optional_policy_option(options, name) {
            Some(value) => Ok(value),
            None => {
                let message: String = wrapped("missing `", name, "` policy option");
                Err(SyntaxError { message, span })
            },
        }
    }

    fn reject_extra_policy_options(options: &Vec<ObjectField>) -> (result: Result<(), SyntaxError>)
        ensures
            (match result {
                Ok(_) => None,
                Err(error) => Some(error.model()),
            }) == grammar::extra_option(field_models(options@)),
    {
        proof {
            reveal(grammar::extra_option);
        }
        if options.len() > 0 {
            proof {
                assert(field_models(options@)[0] == options@[0].model());
            }
            let message: String = wrapped(
                "unknown policy option `",
                options[0].name.value.as_str(),
                "`",
            );
            return Err(SyntaxError { message, span: options[0].name.span });
        }
        Ok(())
    }

    fn parse_within(
        &self,
        at: usize,
        bare: bool,
        start: Span,
    ) -> (result: Result<(Expression, usize), SyntaxError>)
        requires
            self.valid(),
            at < self.tokens@.len(),
        ensures
            parsed_expression(result) == grammar::parse_within(self.ts(), at as int, bare, start),
            result matches Ok((_, end)) ==> at < end < self.tokens@.len(),
        decreases self.tokens@.len() - at, 14int,
    {
        let (mut options, next): (Vec<ObjectField>, usize) = match self.parse_policy_options(at, bare) {
            Ok(read) => read,
            Err(error) => {
                return Err(error);
            },
        };
        let timeout: Expression = match Self::required_policy_option(&mut options, "timeout", start) {
            Ok(read) => read,
            Err(error) => {
                return Err(error);
            },
        };
        if let Err(error) = Self::reject_extra_policy_options(&options) {
            return Err(error);
        }
        match self.parse_statement_block(next, bare) {
            Err(error) => Err(error),
            Ok(((statements, end_span), end)) => {
                let body: Box<Expression> = policy_body(start, statements, end_span);
                let span: Span = start.join(end_span);
                Ok((within(timeout, body, span), end))
            },
        }
    }

    fn parse_retry(
        &self,
        at: usize,
        bare: bool,
        start: Span,
    ) -> (result: Result<(Expression, usize), SyntaxError>)
        requires
            self.valid(),
            at < self.tokens@.len(),
        ensures
            parsed_expression(result) == grammar::parse_retry(self.ts(), at as int, bare, start),
            result matches Ok((_, end)) ==> at < end < self.tokens@.len(),
        decreases self.tokens@.len() - at, 14int,
    {
        let (mut options, next): (Vec<ObjectField>, usize) = match self.parse_policy_options(at, bare) {
            Ok(read) => read,
            Err(error) => {
                return Err(error);
            },
        };
        let attempts: Expression = match Self::required_policy_option(&mut options, "attempts", start) {
            Ok(read) => read,
            Err(error) => {
                return Err(error);
            },
        };
        let delay: Option<Expression> = Self::optional_policy_option(&mut options, "delay");
        if let Err(error) = Self::reject_extra_policy_options(&options) {
            return Err(error);
        }
        match self.parse_statement_block(next, bare) {
            Err(error) => Err(error),
            Ok(((statements, end_span), end)) => {
                let body: Box<Expression> = policy_body(start, statements, end_span);
                let span: Span = start.join(end_span);
                Ok((retried(attempts, delay, body, span), end))
            },
        }
    }

    fn parse_rate(
        &self,
        at: usize,
        bare: bool,
        start: Span,
    ) -> (result: Result<(Expression, usize), SyntaxError>)
        requires
            self.valid(),
            at < self.tokens@.len(),
        ensures
            parsed_expression(result) == grammar::parse_rate(self.ts(), at as int, bare, start),
            result matches Ok((_, end)) ==> at < end < self.tokens@.len(),
        decreases self.tokens@.len() - at, 14int,
    {
        let (mut options, next): (Vec<ObjectField>, usize) = match self.parse_policy_options(at, bare) {
            Ok(read) => read,
            Err(error) => {
                return Err(error);
            },
        };
        let target: Expression = match Self::required_policy_option(&mut options, "target", start) {
            Ok(read) => read,
            Err(error) => {
                return Err(error);
            },
        };
        let period: Expression = match Self::required_policy_option(&mut options, "period", start) {
            Ok(read) => read,
            Err(error) => {
                return Err(error);
            },
        };
        let duration: Expression = match Self::required_policy_option(&mut options, "duration", start) {
            Ok(read) => read,
            Err(error) => {
                return Err(error);
            },
        };
        let limit: Option<Expression> = Self::optional_policy_option(&mut options, "limit");
        if let Err(error) = Self::reject_extra_policy_options(&options) {
            return Err(error);
        }
        match self.parse_statement_block(next, bare) {
            Err(error) => Err(error),
            Ok(((statements, end_span), end)) => {
                let body: Box<Expression> = policy_body(start, statements, end_span);
                let span: Span = start.join(end_span);
                Ok((rated(target, period, duration, limit, body, span), end))
            },
        }
    }

    fn parse_concurrency(
        &self,
        at: usize,
        bare: bool,
        start: Span,
    ) -> (result: Result<(Expression, usize), SyntaxError>)
        requires
            self.valid(),
            at < self.tokens@.len(),
        ensures
            parsed_expression(result) == grammar::parse_concurrency(
                self.ts(),
                at as int,
                bare,
                start,
            ),
            result matches Ok((_, end)) ==> at < end < self.tokens@.len(),
        decreases self.tokens@.len() - at, 14int,
    {
        let (mut options, next): (Vec<ObjectField>, usize) = match self.parse_policy_options(at, bare) {
            Ok(read) => read,
            Err(error) => {
                return Err(error);
            },
        };
        let limit: Expression = match Self::required_policy_option(&mut options, "limit", start) {
            Ok(read) => read,
            Err(error) => {
                return Err(error);
            },
        };
        let duration: Expression = match Self::required_policy_option(&mut options, "duration", start) {
            Ok(read) => read,
            Err(error) => {
                return Err(error);
            },
        };
        if let Err(error) = Self::reject_extra_policy_options(&options) {
            return Err(error);
        }
        match self.parse_statement_block(next, bare) {
            Err(error) => Err(error),
            Ok(((statements, end_span), end)) => {
                let body: Box<Expression> = policy_body(start, statements, end_span);
                let span: Span = start.join(end_span);
                Ok((concurrent(limit, duration, body, span), end))
            },
        }
    }

    fn parse_fail(
        &self,
        at: usize,
        bare: bool,
        start: Span,
    ) -> (result: Result<(Expression, usize), SyntaxError>)
        requires
            self.valid(),
            at < self.tokens@.len(),
        ensures
            parsed_expression(result) == grammar::parse_fail(self.ts(), at as int, bare, start),
            result matches Ok((_, end)) ==> at < end < self.tokens@.len(),
        decreases self.tokens@.len() - at, 14int,
    {
        let next: usize = match self.take(at, Mark::LeftParen) {
            Ok(read) => read,
            Err(error) => {
                return Err(error);
            },
        };
        let (message, close): (Expression, usize) = match self.parse_expression(next, bare) {
            Ok(read) => read,
            Err(error) => {
                return Err(error);
            },
        };
        match self.take(close, Mark::RightParen) {
            Err(error) => Err(error),
            Ok(end) => Ok(
                (failing(message, start.join(self.span(close))), end),
            ),
        }
    }

    fn parse_for(
        &self,
        at: usize,
        bare: bool,
        start: Span,
    ) -> (result: Result<(Expression, usize), SyntaxError>)
        requires
            self.valid(),
            at < self.tokens@.len(),
        ensures
            parsed_expression(result) == grammar::parse_for(self.ts(), at as int, bare, start),
            result matches Ok((_, end)) ==> at < end < self.tokens@.len(),
        decreases self.tokens@.len() - at, 14int,
    {
        let (first, after_first): (Spanned<String>, usize) = match self.take_identifier(at, "a loop binding") {
            Ok(read) => read,
            Err(error) => {
                return Err(error);
            },
        };
        let (key, value, word): (Option<Spanned<String>>, Spanned<String>, usize) = if self.at(
            after_first,
            Mark::Comma,
        ) {
            match self.take_identifier(after_first + 1, "a loop value binding") {
                Ok((second, end)) => (Some(first), second, end),
                Err(error) => {
                    return Err(error);
                },
            }
        } else {
            (None, first, after_first)
        };
        let next: usize = match self.take(word, Mark::In) {
            Ok(read) => read,
            Err(error) => {
                return Err(error);
            },
        };
        let (iterable, block): (Expression, usize) = match self.parse_expression(next, true) {
            Ok(read) => read,
            Err(error) => {
                return Err(error);
            },
        };
        match self.parse_statement_block(block, bare) {
            Err(error) => Err(error),
            Ok(((body, end_span), end)) => {
                Ok((looped(key, value, iterable, body, start.join(end_span)), end))
            },
        }
    }

    fn parse_parallel(
        &self,
        at: usize,
        bare: bool,
        start: Span,
    ) -> (result: Result<(Expression, usize), SyntaxError>)
        requires
            self.valid(),
            at < self.tokens@.len(),
        ensures
            parsed_expression(result) == grammar::parse_parallel(self.ts(), at as int, bare, start),
            result matches Ok((_, end)) ==> at < end < self.tokens@.len(),
        decreases self.tokens@.len() - at, 14int,
    {
        let (mut options, next): (Vec<ObjectField>, usize) = if self.at(at, Mark::LeftParen) {
            match self.parse_policy_options(at, bare) {
                Ok(read) => read,
                Err(error) => {
                    return Err(error);
                },
            }
        } else {
            (Vec::new(), at)
        };
        proof {
            if !is_mark(self.ts(), at as int, Mark::LeftParen) {
                assert(field_models(options@) =~= Seq::empty());
            }
        }
        let limit: Option<Expression> = Self::optional_policy_option(&mut options, "limit");
        if let Err(error) = Self::reject_extra_policy_options(&options) {
            return Err(error);
        }
        let first: usize = match self.take(next, Mark::LeftBrace) {
            Ok(read) => read,
            Err(error) => {
                return Err(error);
            },
        };
        match self.parallel_branches(first, bare) {
            Err(error) => Err(error),
            Ok(((branches, end_span), end)) => {
                Ok((parallel(limit, branches, start.join(end_span)), end))
            },
        }
    }

    fn parallel_branches(
        &self,
        at: usize,
        bare: bool,
    ) -> (result: Result<((Vec<ParallelBranch>, Span), usize), SyntaxError>)
        requires
            self.valid(),
            at < self.tokens@.len(),
        ensures
            parsed_branches(result) == grammar::parallel_branches(
                self.ts(),
                at as int,
                bare,
                Seq::empty(),
            ),
            result matches Ok((_, end)) ==> at < end < self.tokens@.len(),
        decreases self.tokens@.len() - at, 12int,
    {
        let ghost ts = self.ts();
        let mut items: Vec<ParallelBranch> = Vec::new();
        let mut next: usize = at;
        proof {
            assert(branch_models(items@) =~= Seq::empty());
        }
        while !self.at(next, Mark::RightBrace)
            invariant
                self.valid(),
                ts == self.ts(),
                at <= next < self.tokens@.len(),
                grammar::parallel_branches(ts, at as int, bare, Seq::empty()) == grammar::parallel_branches(
                    ts,
                    next as int,
                    bare, branch_models(items@),
                ),
            decreases self.tokens@.len() - next,
        {
            if self.at(next, Mark::End) {
                return Err(self.expected(next, "a parallel branch or `}`"));
            }
            let mut name: Option<Spanned<String>> = None;
            let mut first: usize = next;
            if self.at_identifier(next) && self.at(next + 1, Mark::Colon) {
                match self.take_identifier(next, "a parallel branch name") {
                    Ok((found, _)) => {
                        name = Some(found);
                    },
                    Err(error) => {
                        return Err(error);
                    },
                }
                first = next + 2;
            }
            match self.parse_expression(first, bare) {
                Ok((expression, behind)) => match self.separator(behind, "parallel branches") {
                    Ok(end) => {
                        let item: ParallelBranch = ParallelBranch { name, expression };
                        proof {
                            assert(branch_models(items@.push(item)) =~= branch_models(items@).push(
                                item.model(),
                            ));
                        }
                        items.push(item);
                        next = end;
                    },
                    Err(error) => {
                        return Err(error);
                    },
                },
                Err(error) => {
                    return Err(error);
                },
            }
        }
        Ok(((items, self.span(next)), next + 1))
    }

    fn parse_statement_block(
        &self,
        at: usize,
        bare: bool,
    ) -> (result: Result<((Vec<Statement>, Span), usize), SyntaxError>)
        requires
            self.valid(),
            at < self.tokens@.len(),
        ensures
            parsed_statements(result) == grammar::parse_statement_block(self.ts(), at as int, bare),
            result matches Ok((_, end)) ==> at < end < self.tokens@.len(),
        decreases self.tokens@.len() - at, 13int,
    {
        if self.at(at, Mark::LeftBrace) {
            self.block_statements(at + 1, bare)
        } else {
            Err(self.expected(at, token_description(Mark::LeftBrace)))
        }
    }

    fn block_statements(
        &self,
        at: usize,
        bare: bool,
    ) -> (result: Result<((Vec<Statement>, Span), usize), SyntaxError>)
        requires
            self.valid(),
            at < self.tokens@.len(),
        ensures
            parsed_statements(result) == grammar::block_statements(
                self.ts(),
                at as int,
                bare,
                Seq::empty(),
            ),
            result matches Ok((_, end)) ==> at < end < self.tokens@.len(),
        decreases self.tokens@.len() - at, 12int,
    {
        let ghost ts = self.ts();
        let mut items: Vec<Statement> = Vec::new();
        let mut next: usize = at;
        proof {
            assert(statement_models(items@) =~= Seq::empty());
        }
        while !self.at(next, Mark::RightBrace)
            invariant
                self.valid(),
                ts == self.ts(),
                at <= next < self.tokens@.len(),
                grammar::block_statements(ts, at as int, bare, Seq::empty()) == grammar::block_statements(
                    ts,
                    next as int,
                    bare, statement_models(items@),
                ),
            decreases self.tokens@.len() - next,
        {
            if self.at(next, Mark::End) {
                return Err(self.expected(next, "a statement or `}`"));
            }
            match self.parse_statement(next, bare) {
                Ok((item, behind)) => match self.line_break(behind, "statements") {
                    Ok(end) => {
                        proof {
                            assert(statement_models(items@.push(item)) =~= statement_models(items@).push(
                                item.model(),
                            ));
                        }
                        items.push(item);
                        next = end;
                    },
                    Err(error) => {
                        return Err(error);
                    },
                },
                Err(error) => {
                    return Err(error);
                },
            }
        }
        Ok(((items, self.span(next)), next + 1))
    }

    fn parse_statement(
        &self,
        at: usize,
        bare: bool,
    ) -> (result: Result<(Statement, usize), SyntaxError>)
        requires
            self.valid(),
            at < self.tokens@.len(),
        ensures
            parsed_statement(result) == grammar::parse_statement(self.ts(), at as int, bare),
            result matches Ok((_, end)) ==> at < end < self.tokens@.len(),
        decreases self.tokens@.len() - at, 11int,
    {
        let span: Span = self.span(at);
        if self.at(at, Mark::If) {
            return self.conditional(at + 1, bare, span);
        }
        if self.at(at, Mark::Use) {
            return match self.take(at + 1, Mark::Context) {
                Err(error) => Err(error),
                Ok(next) => match self.take_identifier(next, "a context name") {
                    Err(error) => Err(error),
                    Ok((name, end)) => Ok(
                        (Statement::UseContext { span: span.join(name.span), name }, end),
                    ),
                },
            };
        }
        if self.at(at, Mark::Return) {
            return match self.parse_expression(at + 1, bare) {
                Err(error) => Err(error),
                Ok((expression, end)) => Ok(
                    (Statement::Return { span: span.join(expression.span), expression }, end),
                ),
            };
        }
        if self.at(at, Mark::Assert) {
            return self.parse_assertion(at + 1, bare, span);
        }
        if self.at_identifier(at) && self.at(at + 1, Mark::Equal) {
            let (name, _): (Spanned<String>, usize) = match self.take_identifier(
                at,
                "a binding name",
            ) {
                Ok(read) => read,
                Err(error) => {
                    return Err(error);
                },
            };
            return match self.parse_expression(at + 2, bare) {
                Err(error) => Err(error),
                Ok((expression, end)) => Ok(
                    (
                        Statement::Bind { span: name.span.join(expression.span), name, expression },
                        end,
                    ),
                ),
            };
        }
        match self.parse_expression(at, bare) {
            Err(error) => Err(error),
            Ok((expression, end)) => Ok((Statement::Expression(expression), end)),
        }
    }

    fn conditional(
        &self,
        at: usize,
        bare: bool,
        start: Span,
    ) -> (result: Result<(Statement, usize), SyntaxError>)
        requires
            self.valid(),
            at < self.tokens@.len(),
        ensures
            parsed_statement(result) == grammar::conditional(
                self.ts(),
                at as int,
                bare,
                start,
                start,
                Seq::empty(),
            ),
            result matches Ok((_, end)) ==> at < end < self.tokens@.len(),
        decreases self.tokens@.len() - at, 12int,
    {
        let ghost ts = self.ts();
        let mut branches: Vec<IfBranch> = Vec::new();
        let mut branch_start: Span = start;
        let mut at_now: usize = at;
        proof {
            assert(if_branch_models(branches@) =~= Seq::empty());
        }
        loop
            invariant
                self.valid(),
                ts == self.ts(),
                at <= at_now < self.tokens@.len(),
                grammar::conditional(ts, at as int, bare, start, start, Seq::empty())
                    == grammar::conditional(
                    ts,
                    at_now as int,
                    bare,
                    start,
                    branch_start,
                    if_branch_models(branches@),
                ),
            decreases self.tokens@.len() - at_now,
        {
            let first: usize = match self.take(at_now, Mark::LeftParen) {
                Ok(first) => first,
                Err(error) => {
                    return Err(error);
                },
            };
            let (condition, close): (Expression, usize) = match self.parse_expression(first, bare) {
                Ok(read) => read,
                Err(error) => {
                    return Err(error);
                },
            };
            let block: usize = match self.take(close, Mark::RightParen) {
                Ok(block) => block,
                Err(error) => {
                    return Err(error);
                },
            };
            let ((body, end_span), next): ((Vec<Statement>, Span), usize) =
                match self.parse_statement_block(block, bare) {
                Ok(read) => read,
                Err(error) => {
                    return Err(error);
                },
            };
            let branch: IfBranch = IfBranch { condition, body, span: branch_start.join(end_span) };
            proof {
                assert(if_branch_models(branches@.push(branch)) =~= if_branch_models(
                    branches@,
                ).push(branch.model()));
            }
            branches.push(branch);
            if !self.at(next, Mark::Else) {
                let span: Span = start.join(self.span(next - 1));
                return Ok((Statement::If { branches, else_body: None, span }, next));
            }
            if self.at(next + 1, Mark::If) {
                branch_start = self.span(next + 1);
                at_now = next + 2;
            } else {
                return match self.parse_statement_block(next + 1, bare) {
                    Err(error) => Err(error),
                    Ok(((else_body, _), end)) => {
                        let span: Span = start.join(self.span(end - 1));
                        Ok((Statement::If { branches, else_body: Some(else_body), span }, end))
                    },
                };
            }
        }
    }

    fn parse_assertion(
        &self,
        at: usize,
        bare: bool,
        start: Span,
    ) -> (result: Result<(Statement, usize), SyntaxError>)
        requires
            self.valid(),
            at < self.tokens@.len(),
        ensures
            parsed_statement(result) == grammar::parse_assertion(self.ts(), at as int, bare, start),
            result matches Ok((_, end)) ==> at < end < self.tokens@.len(),
        decreases self.tokens@.len() - at, 12int,
    {
        let first: usize = match self.take(at, Mark::LeftParen) {
            Ok(read) => read,
            Err(error) => {
                return Err(error);
            },
        };
        let (expression, next): (Expression, usize) = match self.parse_expression(first, bare) {
            Ok(read) => read,
            Err(error) => {
                return Err(error);
            },
        };
        let (message, close): (Option<Expression>, usize) = match self.assertion_message(next, bare) {
            Ok(read) => read,
            Err(error) => {
                return Err(error);
            },
        };
        match self.take(close, Mark::RightParen) {
            Err(error) => Err(error),
            Ok(end) => {
                let span: Span = start.join(self.span(close));
                Ok((asserted(expression, message, span), end))
            },
        }
    }

    fn assertion_message(
        &self,
        at: usize,
        bare: bool,
    ) -> (result: Result<(Option<Expression>, usize), SyntaxError>)
        requires
            self.valid(),
            at < self.tokens@.len(),
        ensures
            parsed_message(result) == grammar::assertion_message(self.ts(), at as int, bare),
            result matches Ok((_, end)) ==> at <= end < self.tokens@.len(),
        decreases self.tokens@.len() - at, 12int,
    {
        if self.at(at, Mark::Comma) {
            match self.parse_expression(at + 1, bare) {
                Err(error) => Err(error),
                Ok((message, next)) => {
                    proof {
                        reveal(ExpressionKind::model);
                    }
                    let literal: bool = match &message.kind {
                        ExpressionKind::String(_) => true,
                        _ => false,
                    };
                    if literal {
                        Ok((Some(message), next))
                    } else {
                        Err(
                            SyntaxError::new(
                                "assertion message must be a string literal",
                                message.span,
                            ),
                        )
                    }
                },
            }
        } else {
            Ok((None, at))
        }
    }

    fn parse_context_body(
        &self,
        at: usize,
        start: Span,
        name: Option<Spanned<String>>,
    ) -> (result: Result<(ContextDecl, usize), SyntaxError>)
        requires
            self.valid(),
            at < self.tokens@.len(),
        ensures
            parsed_context(result) == grammar::parse_context_body(
                self.ts(),
                at as int,
                start,
                optional_spanned_model(name),
            ),
            result matches Ok((_, end)) ==> at < end < self.tokens@.len(),
    {
        if !self.at(at, Mark::LeftBrace) {
            return Err(self.expected(at, token_description(Mark::LeftBrace)));
        }
        match self.context_members(at + 1) {
            Err(error) => Err(error),
            Ok(((members, end_span), end)) => {
                let namespace_uses: Vec<Spanned<String>> = Vec::new();
                proof {
                    assert(spanned_models(namespace_uses@) =~= Seq::empty());
                }
                Ok(
                    (
                        ContextDecl {
                            namespace: no_text(),
                            namespace_uses,
                            name,
                            members,
                            span: start.join(end_span),
                        },
                        end,
                    ),
                )
            },
        }
    }

    fn context_members(
        &self,
        at: usize,
    ) -> (result: Result<((Vec<ContextMember>, Span), usize), SyntaxError>)
        requires
            self.valid(),
            at < self.tokens@.len(),
        ensures
            parsed_members(result) == grammar::context_members(self.ts(), at as int, Seq::empty()),
            result matches Ok((_, end)) ==> at < end < self.tokens@.len(),
    {
        let ghost ts = self.ts();
        let mut items: Vec<ContextMember> = Vec::new();
        let mut next: usize = at;
        proof {
            assert(member_models(items@) =~= Seq::empty());
        }
        while !self.at(next, Mark::RightBrace)
            invariant
                self.valid(),
                ts == self.ts(),
                at <= next < self.tokens@.len(),
                grammar::context_members(ts, at as int, Seq::empty()) == grammar::context_members(
                    ts,
                    next as int,
                    member_models(items@),
                ),
            decreases self.tokens@.len() - next,
        {
            if self.at(next, Mark::End) {
                return Err(self.expected(next, "a context member or `}`"));
            }
            match self.context_member(next) {
                Ok((item, behind)) => match self.separator(behind, "context members") {
                    Ok(end) => {
                        proof {
                            assert(member_models(items@.push(item)) =~= member_models(items@).push(
                                item.model(),
                            ));
                        }
                        items.push(item);
                        next = end;
                    },
                    Err(error) => {
                        return Err(error);
                    },
                },
                Err(error) => {
                    return Err(error);
                },
            }
        }
        Ok(((items, self.span(next)), next + 1))
    }

    fn context_member(&self, at: usize) -> (result: Result<(ContextMember, usize), SyntaxError>)
        requires
            self.valid(),
            at < self.tokens@.len(),
        ensures
            parsed_member(result) == grammar::context_member(self.ts(), at as int),
            result matches Ok((_, end)) ==> at < end < self.tokens@.len(),
    {
        let span: Span = self.span(at);
        if self.at(at, Mark::Use) {
            return match self.take(at + 1, Mark::Context) {
                Err(error) => Err(error),
                Ok(next) => match self.take_identifier(next, "a context name") {
                    Err(error) => Err(error),
                    Ok((name, end)) => Ok(
                        (ContextMember::UseContext { span: span.join(name.span), name }, end),
                    ),
                },
            };
        }
        if self.at(at, Mark::Defaults) {
            return match self.take_identifier(at + 1, "a capability name") {
                Err(error) => Err(error),
                Ok((capability, next)) => match self.parse_object_fields(next, false) {
                    Err(error) => Err(error),
                    Ok(((fields, end_span), end)) => Ok(
                        (
                            ContextMember::Defaults {
                                capability,
                                fields,
                                span: span.join(end_span),
                            },
                            end,
                        ),
                    ),
                },
            };
        }
        match self.parse_object_field(at, false) {
            Err(error) => Err(error),
            Ok((field, end)) => Ok((ContextMember::Field(field), end)),
        }
    }

    fn declared(
        kind: DeclarationKind,
        name: Option<Spanned<String>>,
        parameters: Vec<Spanned<String>>,
        body: Vec<Statement>,
        span: Span,
    ) -> (flow: MettleDecl)
        ensures
            flow.model() == grammar::declared(
                kind,
                optional_spanned_model(name),
                spanned_models(parameters@),
                statement_models(body@),
                span,
            ),
    {
        let namespace_uses: Vec<Spanned<String>> = Vec::new();
        proof {
            assert(spanned_models(namespace_uses@) =~= Seq::empty());
        }
        MettleDecl { kind, namespace: no_text(), namespace_uses, name, parameters, body, span }
    }

    fn no_names() -> (names: Vec<Spanned<String>>)
        ensures
            spanned_models(names@) == Seq::<SpannedModel>::empty(),
    {
        let names: Vec<Spanned<String>> = Vec::new();
        proof {
            assert(spanned_models(names@) =~= Seq::empty());
        }
        names
    }

    /// A body that only returns.
    fn returning(expression: Expression, span: Span) -> (body: Vec<Statement>)
        ensures
            statement_models(body@) == seq![
                StatementModel::Return { expression: expression.model(), span },
            ],
    {
        let mut body: Vec<Statement> = Vec::new();
        body.push(Statement::Return { expression, span });
        proof {
            assert(statement_models(body@) =~= seq![
                StatementModel::Return { expression: expression.model(), span },
            ]);
        }
        body
    }

    fn parse_flow(&self, at: usize) -> (result: Result<(MettleDecl, usize), SyntaxError>)
        requires
            self.valid(),
            at < self.tokens@.len(),
            is_mark(self.ts(), at as int, Mark::Mettle),
        ensures
            parsed_flow(result) == grammar::parse_flow(self.ts(), at as int),
            result matches Ok((_, end)) ==> at < end < self.tokens@.len(),
    {
        let start: Span = self.span(at);
        proof {
            assert(self.ts()[at as int] == self.tokens@[at as int].model());
        }
        let first: usize = at + 1;
        if self.at(first, Mark::LeftBrace) {
            return match self.parse_statement_block(first, false) {
                Err(error) => Err(error),
                Ok(((body, end_span), end)) => Ok(
                    (
                        Self::declared(
                            DeclarationKind::Flow,
                            None,
                            Self::no_names(),
                            body,
                            start.join(end_span),
                        ),
                        end,
                    ),
                ),
            };
        }
        let (name, next): (Spanned<String>, usize) = match self.take_identifier(first, "a flow name or `{`") {
            Ok(read) => read,
            Err(error) => {
                return Err(error);
            },
        };
        let (parameters, body_at): (Vec<Spanned<String>>, usize) = match self.parse_parameters(next) {
            Ok(read) => read,
            Err(error) => {
                return Err(error);
            },
        };
        if self.at(body_at, Mark::Equal) {
            return match self.parse_expression(body_at + 1, false) {
                Err(error) => Err(error),
                Ok((expression, end)) => {
                    let span: Span = start.join(expression.span);
                    let body: Vec<Statement> = Self::returning(expression, span);
                    Ok(
                        (
                            Self::declared(
                                DeclarationKind::Flow,
                                Some(name),
                                parameters,
                                body,
                                span,
                            ),
                            end,
                        ),
                    )
                },
            };
        }
        match self.parse_statement_block(body_at, false) {
            Err(error) => Err(error),
            Ok(((body, end_span), end)) => Ok(
                (
                    Self::declared(
                        DeclarationKind::Flow,
                        Some(name),
                        parameters,
                        body,
                        start.join(end_span),
                    ),
                    end,
                ),
            ),
        }
    }

    fn parse_parameters(
        &self,
        at: usize,
    ) -> (result: Result<(Vec<Spanned<String>>, usize), SyntaxError>)
        requires
            self.valid(),
            at < self.tokens@.len(),
        ensures
            parsed_names(result) == grammar::parse_parameters(self.ts(), at as int),
            result matches Ok((_, end)) ==> at <= end < self.tokens@.len(),
    {
        if !self.at(at, Mark::LeftParen) {
            return Ok((Self::no_names(), at));
        }
        if self.at(at + 1, Mark::RightParen) {
            return Ok((Self::no_names(), at + 2));
        }
        let ghost ts = self.ts();
        let mut names: Vec<Spanned<String>> = Self::no_names();
        let mut next: usize = at + 1;
        loop
            invariant
                self.valid(),
                ts == self.ts(),
                at < next < self.tokens@.len(),
                grammar::parse_parameters(ts, at as int) == grammar::parameter_names(
                    ts,
                    next as int,
                    spanned_models(names@),
                ),
            decreases self.tokens@.len() - next,
        {
            match self.take_identifier(next, "a parameter name") {
                Ok((name, end)) => {
                    proof {
                        assert(spanned_models(names@.push(name)) =~= spanned_models(names@).push(
                            name.model(),
                        ));
                    }
                    names.push(name);
                    if !self.at(end, Mark::Comma) {
                        return match self.take(end, Mark::RightParen) {
                            Err(error) => Err(error),
                            Ok(close) => Ok((names, close)),
                        };
                    }
                    next = end + 1;
                },
                Err(error) => {
                    return Err(error);
                },
            }
        }
    }

    fn only_space(text: &str) -> (yes: bool)
        ensures
            yes == grammar::is_only_space(text@),
    {
        let chars: Vec<char> = crate::text::chars_of(text);
        let mut at: usize = 0;
        while at < chars.len()
            invariant
                chars@ == text@,
                at <= chars@.len(),
                forall|i: int| 0 <= i < at ==> is_space(#[trigger] text@[i]),
            decreases chars@.len() - at,
        {
            if !space_char(chars[at]) {
                assert(!is_space(text@[at as int]));
                return false;
            }
            at += 1;
        }
        true
    }

    fn parse_test(&self, at: usize) -> (result: Result<(MettleDecl, usize), SyntaxError>)
        requires
            self.valid(),
            at < self.tokens@.len(),
            is_mark(self.ts(), at as int, Mark::Test),
        ensures
            parsed_flow(result) == grammar::parse_test(self.ts(), at as int),
            result matches Ok((_, end)) ==> at < end < self.tokens@.len(),
    {
        let start: Span = self.span(at);
        proof {
            assert(self.ts()[at as int] == self.tokens@[at as int].model());
        }
        let parenthesized: bool = self.at(at + 1, Mark::LeftParen);
        let name_at: usize = if parenthesized {
            at + 2
        } else {
            at + 1
        };
        let name_span: Span = self.span(name_at);
        proof {
            assert(self.ts()[name_at as int] == self.tokens@[name_at as int].model());
        }
        let value: String = match &self.tokens[name_at].kind {
            TokenKind::String(value) => value.clone(),
            _ => {
                return Err(SyntaxError::new("expected a test name string", name_span));
            },
        };
        if Self::only_space(value.as_str()) {
            return Err(SyntaxError::new("test name cannot be empty", name_span));
        }
        let next: usize = if parenthesized {
            match self.take(name_at + 1, Mark::RightParen) {
                Ok(next) => next,
                Err(error) => {
                    return Err(error);
                },
            }
        } else {
            name_at + 1
        };
        match self.parse_statement_block(next, false) {
            Err(error) => Err(error),
            Ok(((body, end_span), end)) => {
                let name: Spanned<String> = Spanned { value, span: name_span };
                Ok(
                    (
                        Self::declared(
                            DeclarationKind::Test,
                            Some(name),
                            Self::no_names(),
                            body,
                            start.join(end_span),
                        ),
                        end,
                    ),
                )
            },
        }
    }

    fn parse_anonymous_expression_flow(
        &self,
        at: usize,
    ) -> (result: Result<(MettleDecl, usize), SyntaxError>)
        requires
            self.valid(),
            at < self.tokens@.len(),
        ensures
            parsed_flow(result) == grammar::parse_anonymous_expression_flow(
                self.ts(),
                at as int,
            ),
            result matches Ok((_, end)) ==> at < end < self.tokens@.len(),
    {
        match self.parse_expression(at, false) {
            Err(error) => Err(error),
            Ok((expression, end)) => {
                let span: Span = expression.span;
                proof {
                    reveal(ExpressionKind::model);
                }
                let call: bool = match &expression.kind {
                    ExpressionKind::Call { .. } => true,
                    _ => false,
                };
                if !call {
                    return Err(
                        SyntaxError::new(
                            "a top-level anonymous flow must be a call expression",
                            span,
                        ),
                    );
                }
                let body: Vec<Statement> = Self::returning(expression, span);
                Ok(
                    (
                        Self::declared(DeclarationKind::Flow, None, Self::no_names(), body, span),
                        end,
                    ),
                )
            },
        }
    }

    fn copied_names(names: &Vec<Spanned<String>>) -> (copy: Vec<Spanned<String>>)
        ensures
            spanned_models(copy@) == spanned_models(names@),
    {
        let mut copy: Vec<Spanned<String>> = Vec::new();
        let mut at: usize = 0;
        while at < names.len()
            invariant
                at <= names@.len(),
                copy@.len() == at,
                forall|i: int| 0 <= i < at ==> (#[trigger] copy@[i]).model() == names@[i].model(),
            decreases names@.len() - at,
        {
            copy.push(names[at].duplicate());
            at += 1;
        }
        proof {
            assert(spanned_models(copy@) =~= spanned_models(names@));
        }
        copy
    }

    fn current_namespace(program: &Program) -> (namespace: String)
        ensures
            namespace@ == program.model().current_namespace(),
    {
        match &program.namespace {
            Some(name) => name.value.clone(),
            None => no_text(),
        }
    }

    fn add_context(program: &mut Program, context: ContextDecl)
        ensures
            final(program).model() == old(program).model().with_context(context.model()),
    {
        let mut context: ContextDecl = context;
        context.namespace = Self::current_namespace(program);
        context.namespace_uses = Self::copied_names(&program.namespace_uses);
        proof {
            assert(context_models(program.contexts@.push(context)) =~= context_models(
                program.contexts@,
            ).push(context.model()));
        }
        program.contexts.push(context);
    }

    fn add_file_context(program: &mut Program, context: FileContextUse)
        ensures
            final(program).model() == old(program).model().with_file_context(context.model()),
    {
        proof {
            assert(file_context_models(program.file_contexts@.push(context))
                =~= file_context_models(program.file_contexts@).push(context.model()));
        }
        program.file_contexts.push(context);
    }

    fn add_flow(program: &mut Program, flow: MettleDecl)
        ensures
            final(program).model() == old(program).model().with_flow(flow.model()),
    {
        let mut flow: MettleDecl = flow;
        flow.namespace = Self::current_namespace(program);
        flow.namespace_uses = Self::copied_names(&program.namespace_uses);
        proof {
            assert(flow_models(program.flows@.push(flow)) =~= flow_models(program.flows@).push(
                flow.model(),
            ));
        }
        program.flows.push(flow);
    }

    fn parse_declaration(&self, at: usize, program: &mut Program) -> (result: Result<
        usize,
        SyntaxError,
    >)
        requires
            self.valid(),
            at < self.tokens@.len(),
            !is_mark(self.ts(), at as int, Mark::End),
        ensures
            (match result {
                Ok(end) => Ok((final(program).model(), end as int)),
                Err(error) => Err(error.model()),
            }) == grammar::parse_declaration(self.ts(), at as int, old(program).model()),
            result matches Ok(end) ==> at < end < self.tokens@.len(),
    {
        let span: Span = self.span(at);
        if self.at(at, Mark::Namespace) {
            return match self.take_identifier(at + 1, "a namespace name") {
                Err(error) => Err(error),
                Ok((name, end)) => {
                    if program.namespace.is_some() {
                        return Err(
                            SyntaxError::new(
                                "a file may declare only one namespace",
                                span.join(name.span),
                            ),
                        );
                    }
                    program.namespace = Some(name);
                    Ok(end)
                },
            };
        }
        if self.at(at, Mark::Use) {
            return self.parse_use(at, program);
        }
        if self.at(at, Mark::Context) {
            return match self.take_identifier(at + 1, "a context name") {
                Err(error) => Err(error),
                Ok((name, next)) => match self.parse_context_body(next, span, Some(name)) {
                    Err(error) => Err(error),
                    Ok((context, end)) => {
                        Self::add_context(program, context);
                        Ok(end)
                    },
                },
            };
        }
        let read: Result<(MettleDecl, usize), SyntaxError> = if self.at(at, Mark::Mettle) {
            self.parse_flow(at)
        } else if self.at(at, Mark::Test) {
            self.parse_test(at)
        } else {
            self.parse_anonymous_expression_flow(at)
        };
        match read {
            Err(error) => Err(error),
            Ok((flow, end)) => {
                Self::add_flow(program, flow);
                Ok(end)
            },
        }
    }

    fn parse_use(&self, at: usize, program: &mut Program) -> (result: Result<usize, SyntaxError>)
        requires
            self.valid(),
            is_mark(self.ts(), at as int, Mark::Use),
        ensures
            (match result {
                Ok(end) => Ok((final(program).model(), end as int)),
                Err(error) => Err(error.model()),
            }) == grammar::parse_use(self.ts(), at as int, old(program).model()),
            result matches Ok(end) ==> at < end < self.tokens@.len(),
    {
        let start: Span = self.span(at);
        proof {
            assert(self.ts()[at as int] == self.tokens@[at as int].model());
        }
        if self.at(at + 1, Mark::Namespace) {
            return match self.take_identifier(at + 2, "a namespace name") {
                Err(error) => Err(error),
                Ok((name, end)) => {
                    proof {
                        assert(spanned_models(program.namespace_uses@.push(name))
                            =~= spanned_models(program.namespace_uses@).push(name.model()));
                    }
                    program.namespace_uses.push(name);
                    Ok(end)
                },
            };
        }
        let first: usize = match self.take(at + 1, Mark::Context) {
            Ok(first) => first,
            Err(error) => {
                return Err(error);
            },
        };
        if self.at(first, Mark::LeftBrace) {
            return match self.parse_context_body(first, start, None) {
                Err(error) => Err(error),
                Ok((context, end)) => {
                    Self::add_file_context(program, FileContextUse::Inline(context.span));
                    Self::add_context(program, context);
                    Ok(end)
                },
            };
        }
        let (name, next): (Spanned<String>, usize) = match self.take_identifier(
            first,
            "a context name",
        ) {
            Ok(read) => read,
            Err(error) => {
                return Err(error);
            },
        };
        if self.at(next, Mark::LeftBrace) {
            let applied: Spanned<String> = name.duplicate();
            return match self.parse_context_body(next, start, Some(name)) {
                Err(error) => Err(error),
                Ok((context, end)) => {
                    Self::add_file_context(program, FileContextUse::Named(applied));
                    Self::add_context(program, context);
                    Ok(end)
                },
            };
        }
        Self::add_file_context(program, FileContextUse::Named(name));
        Ok(next)
    }

    fn parse_program(&self) -> (result: Result<Program, SyntaxError>)
        requires
            self.valid(),
        ensures
            parsed_program(result) == grammar::parse_program(self.ts(), 0, grammar::no_program()),
    {
        let ghost ts = self.ts();
        let mut program: Program = Program {
            namespace: None,
            namespace_uses: Vec::new(),
            contexts: Vec::new(),
            file_contexts: Vec::new(),
            flows: Vec::new(),
        };
        let mut at: usize = 0;
        proof {
            assert(program.model().namespace_uses =~= Seq::empty());
            assert(program.model().contexts =~= Seq::empty());
            assert(program.model().file_contexts =~= Seq::empty());
            assert(program.model().flows =~= Seq::empty());
        }
        while !self.at(at, Mark::End)
            invariant
                self.valid(),
                ts == self.ts(),
                at < self.tokens@.len(),
                grammar::parse_program(ts, 0, grammar::no_program()) == grammar::parse_program(
                    ts,
                    at as int,
                    program.model(),
                ),
            decreases self.tokens@.len() - at,
        {
            match self.parse_declaration(at, &mut program) {
                Ok(next) => {
                    at = next;
                },
                Err(error) => {
                    return Err(error);
                },
            }
        }
        Ok(program)
    }
}

/// Parses a complete source file.
///
/// # Errors
///
/// Returns the first lexical or grammatical error with a byte span into `source`.
pub fn parse(source: &str) -> (result: Result<Program, SyntaxError>)
    ensures
        parsed_program(result) == program_of(source@),
{
    let tokens: Vec<Token> = match tokenize(source) {
        Ok(tokens) => tokens,
        Err(error) => {
            return Err(error);
        },
    };
    let count: usize = tokens.len();
    let parser: Parser<'_> = Parser { tokens: &tokens };
    parser.parse_program()
}

/// Parses one standalone value expression, such as an argument of a flow.
///
/// # Errors
///
/// Returns a lexical or grammatical error when the complete input is not one expression.
pub fn parse_value(source: &str) -> (result: Result<Expression, SyntaxError>)
    ensures
        (match result {
            Ok(expression) => Ok(expression.model()),
            Err(error) => Err(error.model()),
        }) == value_of(source@),
{
    let tokens: Vec<Token> = match tokenize(source) {
        Ok(tokens) => tokens,
        Err(error) => {
            return Err(error);
        },
    };
    let count: usize = tokens.len();
    let parser: Parser<'_> = Parser { tokens: &tokens };
    match parser.parse_expression(0, false) {
        Err(error) => Err(error),
        Ok((expression, end)) => {
            if !parser.at(end, Mark::End) {
                return Err(parser.expected(end, "the end of the value"));
            }
            Ok(expression)
        },
    }
}

} // verus!
