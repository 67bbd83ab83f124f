//! What source text is read as.

use vstd::prelude::*;

use crate::expression_laws::{is_comparison, written};
use crate::grammar::{comparison_operator, parse_comparison, parse_unary, Tokens};
use crate::lexer::{
    has_char, in_class, is_blank, is_identifier_continue, is_identifier_start, keyword, lex,
    lex_from, lex_identifier, lex_number, lex_string, lex_token, run_end, span_between, symbol,
    Class, Mark, TokenKindModel, TokenModel,
};
use crate::syntax::ExpressionKindModel;
use crate::text::is_digit;

verus! {

// ---------------------------------------------------------------------------
// Words and symbols

/// How a keyword or a symbol is written.
pub open spec fn spelling(mark: Mark) -> Seq<char> {
    match mark {
        Mark::If => "if"@,
        Mark::For => "for"@,
        Mark::In => "in"@,
        Mark::Else => "else"@,
        Mark::And => "and"@,
        Mark::Or => "or"@,
        Mark::Not => "not"@,
        Mark::Mettle => "flow"@,
        Mark::Test => "test"@,
        Mark::Context => "context"@,
        Mark::Namespace => "namespace"@,
        Mark::Defaults => "defaults"@,
        Mark::Use => "use"@,
        Mark::Return => "return"@,
        Mark::Assert => "assert"@,
        Mark::Fail => "fail"@,
        Mark::Within => "within"@,
        Mark::Retry => "retry"@,
        Mark::Parallel => "parallel"@,
        Mark::Rate => "rate"@,
        Mark::Concurrency => "concurrency"@,
        Mark::True => "true"@,
        Mark::False => "false"@,
        Mark::Null => "null"@,
        Mark::LeftBrace => "{"@,
        Mark::RightBrace => "}"@,
        Mark::LeftBracket => "["@,
        Mark::RightBracket => "]"@,
        Mark::LeftParen => "("@,
        Mark::RightParen => ")"@,
        Mark::Comma => ","@,
        Mark::Colon => ":"@,
        Mark::Equal => "="@,
        Mark::EqualEqual => "=="@,
        Mark::BangEqual => "!="@,
        Mark::Less => "<"@,
        Mark::LessEqual => "<="@,
        Mark::Greater => ">"@,
        Mark::GreaterEqual => ">="@,
        Mark::Dot => "."@,
        Mark::Minus => "-"@,
        Mark::End => ""@,
    }
}

/// Whether a token says what is written from one character to another: a mark
/// its spelling, and a name itself.
pub open spec fn reads_as(cs: Seq<char>, from: int, to: int, kind: TokenKindModel) -> bool {
    &&& 0 <= from <= to <= cs.len()
    &&& kind matches TokenKindModel::Mark(mark) ==> cs.subrange(from, to) == spelling(mark)
    &&& kind matches TokenKindModel::Identifier(name) ==> cs.subrange(from, to) == name && forall|
        mark: Mark,
    | #[trigger] spelling(mark) != name
}

proof fn lemma_symbol_spelled(cs: Seq<char>, at: int)
    requires
        0 <= at < cs.len(),
    ensures
        symbol(cs, at) matches Some((mark, width)) ==> at + width <= cs.len() && cs.subrange(
            at,
            at + width,
        ) == spelling(mark),
{
    reveal_strlit("{");
    reveal_strlit("}");
    reveal_strlit("[");
    reveal_strlit("]");
    reveal_strlit("(");
    reveal_strlit(")");
    reveal_strlit(",");
    reveal_strlit(":");
    reveal_strlit("=");
    reveal_strlit("==");
    reveal_strlit("!=");
    reveal_strlit("<");
    reveal_strlit("<=");
    reveal_strlit(">");
    reveal_strlit(">=");
    reveal_strlit(".");
    reveal_strlit("-");
    if let Some((mark, width)) = symbol(cs, at) {
        assert(cs.subrange(at, at + width) =~= spelling(mark));
    }
}

proof fn lemma_run_of_names(cs: Seq<char>, from: int)
    requires
        0 <= from <= cs.len(),
    ensures
        from <= run_end(Class::Identifier, cs, from) <= cs.len(),
        forall|i: int|
            from <= i < run_end(Class::Identifier, cs, from) ==> is_identifier_continue(
                #[trigger] cs[i],
            ),
    decreases cs.len() - from,
{
    if from < cs.len() && in_class(Class::Identifier, cs[from]) {
        lemma_run_of_names(cs, from + 1);
    }
}

/// No symbol is a word, and nothing is written for the end.
proof fn lemma_words(name: Seq<char>, mark: Mark)
    requires
        name.len() > 0,
        is_identifier_start(name[0]),
        spelling(mark) == name,
    ensures
        keyword(name) is Some,
{
    reveal_strlit("{");
    reveal_strlit("}");
    reveal_strlit("[");
    reveal_strlit("]");
    reveal_strlit("(");
    reveal_strlit(")");
    reveal_strlit(",");
    reveal_strlit(":");
    reveal_strlit("=");
    reveal_strlit("==");
    reveal_strlit("!=");
    reveal_strlit("<");
    reveal_strlit("<=");
    reveal_strlit(">");
    reveal_strlit(">=");
    reveal_strlit(".");
    reveal_strlit("-");
    reveal_strlit("");
    if keyword(name) is None {
        assert(name[0] == spelling(mark)[0]);
    }
}

/// A token says what is written where it stands.
pub proof fn law_tokens_say_what_is_written(cs: Seq<char>, at: int)
    requires
        0 <= at < cs.len(),
    ensures
        lex_token(cs, at) matches Ok((kind, end)) ==> (kind is Mark || kind is Identifier
            ==> reads_as(cs, at, end, kind)),
{
    lemma_symbol_spelled(cs, at);
    let c = cs[at];
    if symbol(cs, at) is None && c != '"' && !is_digit(c) && is_identifier_start(c) {
        lemma_run_of_names(cs, at + 1);
        let end = run_end(Class::Identifier, cs, at + 1);
        let name = cs.subrange(at, end);
        assert(name[0] == c);
        if keyword(name) is None {
            assert forall|mark: Mark| #[trigger] spelling(mark) != name by {
                if spelling(mark) == name {
                    lemma_words(name, mark);
                }
            }
        }
        assert(lex_token(cs, at) == lex_identifier(cs, at));
    } else if !(c == '-' && 0 <= at + 1 < cs.len() && is_digit(cs[at + 1])) && symbol(cs, at) is None {
        lemma_no_word(cs, at, at + 1, Seq::empty());
    } else if c == '-' && 0 <= at + 1 < cs.len() && is_digit(cs[at + 1]) {
        lemma_no_word(cs, at, at + 1, Seq::empty());
    }
}

proof fn lemma_no_word(cs: Seq<char>, start: int, at: int, value: Seq<char>)
    ensures
        lex_string(cs, start, at, value) matches Ok((kind, end)) ==> kind is String,
        lex_number(cs, start, true) matches Ok((kind, end)) ==> !(kind is Mark) && !(
        kind is Identifier),
        lex_number(cs, start, false) matches Ok((kind, end)) ==> !(kind is Mark) && !(
        kind is Identifier),
    decreases cs.len() - at,
{
    if 0 <= at < cs.len() && cs[at] != '"' {
        if cs[at] == '\\' {
            if at + 1 < cs.len() {
                if let Some(c) = crate::lexer::escaped_char(cs[at + 1]) {
                    lemma_no_word(cs, start, at + 2, value.push(c));
                }
            }
        } else {
            lemma_no_word(cs, start, at + 1, value.push(cs[at]));
        }
    }
}

/// Whether each token of a row says what is written in some place of a text.
pub open spec fn all_read(cs: Seq<char>, tokens: Tokens) -> bool {
    forall|i: int|
        0 <= i < tokens.len() ==> exists|from: int, to: int|
            (#[trigger] tokens[i]).span == #[trigger] span_between(cs, from, to) && ((tokens[i].kind
                is Mark || tokens[i].kind is Identifier) ==> reads_as(
                cs,
                from,
                to,
                tokens[i].kind,
            ))
}

proof fn lemma_all_read(cs: Seq<char>, at: int, fresh: bool, tokens: Tokens)
    requires
        0 <= at <= cs.len(),
        all_read(cs, tokens),
    ensures
        lex_from(cs, at, fresh, tokens) matches Ok(found) ==> all_read(cs, found),
    decreases cs.len() - at,
{
    if at >= cs.len() {
        let end = cs.len() as int;
        reveal_strlit("");
        assert(cs.subrange(end, end) =~= spelling(Mark::End));
        assert(reads_as(cs, end, end, TokenKindModel::Mark(Mark::End)));
    } else if is_blank(cs[at]) {
        lemma_all_read(cs, at + 1, fresh || cs[at] == '\n', tokens);
    } else if cs[at] == '/' && has_char(cs, at + 1, '/') {
        let end = run_end(Class::Line, cs, at + 2);
        if at < end <= cs.len() {
            lemma_all_read(cs, end, fresh, tokens);
        }
    } else {
        law_tokens_say_what_is_written(cs, at);
        if let Ok((kind, end)) = lex_token(cs, at) {
            if at < end <= cs.len() {
                let token = TokenModel { kind, span: span_between(cs, at, end), fresh_line: fresh };
                assert(all_read(cs, tokens.push(token))) by {
                    let more = tokens.push(token);
                    assert forall|i: int| 0 <= i < more.len() implies exists|from: int, to: int|
                        (#[trigger] more[i]).span == #[trigger] span_between(cs, from, to) && ((
                        more[i].kind is Mark || more[i].kind is Identifier) ==> reads_as(
                            cs,
                            from,
                            to,
                            more[i].kind,
                        )) by {
                        if i < tokens.len() {
                            assert(more[i] == tokens[i]);
                        } else {
                            assert(more[i].span == span_between(cs, at, end));
                        }
                    }
                }
                lemma_all_read(cs, end, false, tokens.push(token));
            }
        }
    }
}

/// Every keyword, symbol and name among the tokens of a text is written there,
/// in the place that the token gives.
pub proof fn law_all_tokens_are_written(cs: Seq<char>)
    ensures
        lex(cs) matches Ok(tokens) ==> all_read(cs, tokens),
{
    lemma_all_read(cs, 0, false, Seq::empty());
}

// ---------------------------------------------------------------------------
// Operators

/// The operator of a comparison is the one that is written between its operands.
pub proof fn law_comparisons_are_as_written(
    ts: Tokens,
    at: int,
    bare: bool,
    mark: Mark,
)
    requires
        parse_unary(ts, at, bare) is Ok,
        0 <= at < parse_unary(ts, at, bare)->Ok_0.1 < ts.len(),
        ts[parse_unary(ts, at, bare)->Ok_0.1].kind == TokenKindModel::Mark(mark),
        parse_unary(ts, parse_unary(ts, at, bare)->Ok_0.1 + 1, bare) is Ok,
        is_comparison(spelling(mark)),
    ensures
        ({
            let (left, next) = parse_unary(ts, at, bare)->Ok_0;
            let (right, end) = parse_unary(ts, next + 1, bare)->Ok_0;
            parse_comparison(ts, at, bare) matches Ok((whole, behind)) && behind == end && (
            whole.kind matches ExpressionKindModel::Binary { left: one, operator, right: other }
                && *one == left && *other == right && written(operator) == spelling(mark))
        }),
{
    lemma_comparing_mark(mark);
}

proof fn lemma_comparing_mark(mark: Mark)
    requires
        is_comparison(spelling(mark)),
    ensures
        comparison_operator(TokenKindModel::Mark(mark)) matches Some(operator) && written(operator)
            == spelling(mark),
{
    reveal_strlit("==");
    reveal_strlit("!=");
    reveal_strlit("<");
    reveal_strlit("<=");
    reveal_strlit(">");
    reveal_strlit(">=");
    let text = spelling(mark);
    assert(text.len() == 1 || text.len() == 2);
    assert(text[0] == '=' || text[0] == '!' || text[0] == '<' || text[0] == '>');
    assert(text.len() == 2 ==> text[1] == '=');
    assert(text.len() == 1 ==> text[0] == '<' || text[0] == '>');
    reveal_strlit("if");
    reveal_strlit("for");
    reveal_strlit("in");
    reveal_strlit("else");
    reveal_strlit("and");
    reveal_strlit("or");
    reveal_strlit("not");
    reveal_strlit("flow");
    reveal_strlit("test");
    reveal_strlit("context");
    reveal_strlit("namespace");
    reveal_strlit("defaults");
    reveal_strlit("use");
    reveal_strlit("return");
    reveal_strlit("assert");
    reveal_strlit("fail");
    reveal_strlit("within");
    reveal_strlit("retry");
    reveal_strlit("parallel");
    reveal_strlit("rate");
    reveal_strlit("concurrency");
    reveal_strlit("true");
    reveal_strlit("false");
    reveal_strlit("null");
    reveal_strlit("{");
    reveal_strlit("}");
    reveal_strlit("[");
    reveal_strlit("]");
    reveal_strlit("(");
    reveal_strlit(")");
    reveal_strlit(",");
    reveal_strlit(":");
    reveal_strlit("=");
    reveal_strlit(".");
    reveal_strlit("-");
    reveal_strlit("");
}

} // verus!
