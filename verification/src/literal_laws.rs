//! What literals and comparisons of them are read as, from their text on.

use vstd::prelude::*;

use crate::arguments::argument_value;
use crate::duration_laws::lemma_decimal;
use crate::execution::ProgressModel;
use crate::expression_laws::{compares, is_comparison, law_numbers_compare, written};
use crate::flow_laws::PlaceModel;
use crate::grammar::{
    and_rest, or_rest, parse_and, parse_call, parse_comparison, parse_expression,
    parse_member_access, parse_operand, parse_or, parse_primary_expression, parse_unary, value_of,
    Tokens,
};
use crate::lexer::{
    decimal_parts, digit_placed, digit_value, in_class, is_blank, lex, lex_decimal, lex_from,
    lex_number, lex_radix, lex_string, lex_token, numeral, radix_prefix, run_end, span_between,
    symbol, valid_digits, Class, Mark, TokenKindModel, TokenModel,
};
use crate::lowering::{lower_binary, lower_expression, EnvironmentModel, NotesModel, ScopeModel};
use crate::reading_laws::{law_comparisons_are_as_written, spelling};
use crate::syntax::{BinaryOperator, ErrorModel, ExpressionKindModel, ExpressionModel};
use crate::text::{decimal, is_digit, signed_decimal};
use crate::value::{escape_from, escaped, quoted, ValueModel};

verus! {

// ---------------------------------------------------------------------------
// Numbers

proof fn lemma_digits(cs: Seq<char>, from: int, to: int)
    requires
        0 <= from <= to <= cs.len(),
        forall|i: int| from <= i < to ==> is_digit(#[trigger] cs[i]),
        to < cs.len() ==> !in_class(Class::Digits, cs[to]),
    ensures
        run_end(Class::Digits, cs, from) == to,
    decreases to - from,
{
    if from < to {
        lemma_digits(cs, from + 1, to);
    }
}

/// Whether a text has another in it at a place.
pub open spec fn stands_at(cs: Seq<char>, at: int, part: Seq<char>) -> bool {
    0 <= at && at + part.len() <= cs.len() && cs.subrange(at, at + part.len()) == part
}

/// Whether a blank stands at a place, or the text ends there.
pub open spec fn ends_at(cs: Seq<char>, at: int) -> bool {
    at == cs.len() || 0 <= at < cs.len() && is_blank(cs[at])
}

/// A whole number is read as that number.
pub proof fn law_numbers_are_read(cs: Seq<char>, at: int, value: i64)
    requires
        stands_at(cs, at, signed_decimal(value as int)),
        ends_at(cs, at + signed_decimal(value as int).len()),
    ensures
        lex_token(cs, at) == Ok::<_, ErrorModel>(
            (TokenKindModel::Integer(value), at + signed_decimal(value as int).len()),
        ),
{
    let negative = value < 0;
    let magnitude = if negative {
        (0 - value) as nat
    } else {
        value as nat
    };
    let digits = decimal(magnitude);
    let all = signed_decimal(value as int);
    lemma_decimal(magnitude);
    let start = if negative {
        at + 1
    } else {
        at
    };
    let count = digits.len() as int;
    let end = start + count;
    assert(end == at + all.len());
    assert forall|i: int| 0 <= i < count implies #[trigger] cs[start + i] == digits[i] by {
        if negative {
            assert(all[i + 1] == digits[i]);
            assert(cs.subrange(at, end)[i + 1] == all[i + 1]);
        } else {
            assert(cs.subrange(at, end)[i] == all[i]);
        }
    }
    assert forall|i: int| start <= i < end implies is_digit(#[trigger] cs[i]) by {
        assert(cs[start + (i - start)] == digits[i - start]);
    }
    if negative {
        assert(cs.subrange(at, end)[0] == all[0]);
        assert(cs[at] == '-');
    }
    assert(is_digit(cs[start]));
    lemma_digits(cs, start, end);
    let parts = decimal_parts(cs, start);
    assert(parts.integer_end == end);
    assert(!parts.has_fraction && !parts.has_exponent);
    assert(parts.number_end == end);
    assert(run_end(Class::Identifier, cs, end) == end);
    assert(cs.subrange(start, end) =~= digits) by {
        assert forall|i: int| 0 <= i < count implies cs.subrange(start, end)[i] == #[trigger] digits[i] by {
            assert(cs[start + i] == digits[i]);
        }
    }
    assert forall|i: int| 0 <= i < digits.len() implies #[trigger] digit_placed(digits, i, 10) by {
        assert(is_digit(digits[i]));
    }
    assert(valid_digits(digits, 10));
    if start + 1 < cs.len() {
        assert(is_digit(cs[start + 1]) || is_blank(cs[start + 1]));
    }
    assert(radix_prefix(cs, start) is None);
    assert(lex_number(cs, at, negative) == lex_decimal(cs, at, start, negative));
    assert(lex_token(cs, at) == lex_number(cs, at, negative));
}

proof fn lemma_token_at(
    cs: Seq<char>,
    at: int,
    end: int,
    kind: TokenKindModel,
    fresh: bool,
    tokens: Tokens,
)
    requires
        0 <= at < end <= cs.len(),
        !is_blank(cs[at]),
        cs[at] != '/',
        lex_token(cs, at) == Ok::<_, ErrorModel>((kind, end)),
    ensures
        lex_from(cs, at, fresh, tokens) == lex_from(
            cs,
            end,
            false,
            tokens.push(
                TokenModel { kind, span: span_between(cs, at, end), fresh_line: fresh },
            ),
        ),
{
}

proof fn lemma_first_of_number(value: i64)
    ensures
        signed_decimal(value as int).len() > 0,
        is_digit(signed_decimal(value as int)[0]) || signed_decimal(value as int)[0] == '-',
{
    let magnitude = if value < 0 {
        (0 - value) as nat
    } else {
        value as nat
    };
    lemma_decimal(magnitude);
    if value < 0 {
        assert(signed_decimal(value as int)[0] == '-');
    } else {
        assert(is_digit(decimal(magnitude)[0]));
    }
}

/// The mark that is written as a comparison.
pub open spec fn comparing(symbol: Seq<char>) -> Mark {
    if symbol == "=="@ {
        Mark::EqualEqual
    } else if symbol == "!="@ {
        Mark::BangEqual
    } else if symbol == "<"@ {
        Mark::Less
    } else if symbol == "<="@ {
        Mark::LessEqual
    } else if symbol == ">"@ {
        Mark::Greater
    } else {
        Mark::GreaterEqual
    }
}

proof fn lemma_symbol_read(cs: Seq<char>, at: int, text: Seq<char>)
    requires
        is_comparison(text),
        stands_at(cs, at, text),
        at + text.len() < cs.len(),
        cs[at + text.len()] == ' ',
    ensures
        text.len() > 0,
        !is_blank(cs[at]) && cs[at] != '/',
        spelling(comparing(text)) == text,
        lex_token(cs, at) == Ok::<_, ErrorModel>(
            (TokenKindModel::Mark(comparing(text)), at + text.len()),
        ),
{
    reveal_strlit("==");
    reveal_strlit("!=");
    reveal_strlit("<");
    reveal_strlit("<=");
    reveal_strlit(">");
    reveal_strlit(">=");
    let part = cs.subrange(at, at + text.len());
    assert(part[0] == cs[at]);
    assert("=="@.len() == 2 && "!="@.len() == 2 && "<"@.len() == 1 && "<="@.len() == 2);
    assert(">"@.len() == 1 && ">="@.len() == 2);
    if text.len() == 2 {
        assert(part[1] == cs[at + 1]);
    }
    assert("=="@[0] == '=' && "!="@[0] == '!' && "<"@[0] == '<' && "<="@[0] == '<');
    assert(">"@[0] == '>' && ">="@[0] == '>');
    assert("=="@[1] == '=' && "!="@[1] == '=' && "<="@[1] == '=' && ">="@[1] == '=');
}

proof fn lemma_operand(ts: Tokens, at: int, value: i64)
    requires
        0 <= at < ts.len() - 1,
        ts[at].kind == TokenKindModel::Integer(value),
        !(ts[at + 1].kind == TokenKindModel::Mark(Mark::LeftParen)),
        !(ts[at + 1].kind == TokenKindModel::Mark(Mark::Dot)),
        !(ts[at + 1].kind == TokenKindModel::Mark(Mark::LeftBracket)),
    ensures
        parse_unary(ts, at, false) matches Ok((operand, next)) && next == at + 1 && operand.kind
            == ExpressionKindModel::Integer(value),
{
    let operand = parse_operand(ts, at, false)->Ok_0.0;
    assert(parse_operand(ts, at, false) is Ok);
    assert(parse_call(ts, at + 1, false, operand)->Ok_0 == (operand, at + 1));
    assert(parse_member_access(ts, at + 1, false, operand)->Ok_0 == (operand, at + 1));
    assert(parse_primary_expression(ts, at, false)->Ok_0 == (operand, at + 1));
}

/// How a comparison of two numbers is written.
pub open spec fn comparison_text(left: i64, symbol: Seq<char>, right: i64) -> Seq<char> {
    signed_decimal(left as int) + seq![' '] + symbol + seq![' '] + signed_decimal(right as int)
}

proof fn lemma_tokens(left: i64, symbol: Seq<char>, right: i64)
    requires
        is_comparison(symbol),
    ensures
        lex(comparison_text(left, symbol, right)) matches Ok(ts) && {
            &&& ts.len() == 4
            &&& ts[0].kind == TokenKindModel::Integer(left)
            &&& ts[1].kind == TokenKindModel::Mark(comparing(symbol))
            &&& ts[2].kind == TokenKindModel::Integer(right)
            &&& ts[3].kind == TokenKindModel::Mark(Mark::End)
        },
{
    let one = signed_decimal(left as int);
    let other = signed_decimal(right as int);
    let cs = comparison_text(left, symbol, right);
    let a = one.len() as int;
    let b = a + 1;
    let c = b + symbol.len();
    let d = c + 1;
    let e = d + other.len();
    lemma_first_of_number(left);
    lemma_first_of_number(right);
    assert(cs.len() == e);
    assert(cs.subrange(0, a) =~= one);
    assert(cs[a] == ' ');
    assert(cs.subrange(b, c) =~= symbol);
    assert(cs[c] == ' ');
    assert(cs.subrange(d, e) =~= other);
    assert(cs[0] == one[0]);
    assert(cs[d] == other[0]);
    law_numbers_are_read(cs, 0, left);
    lemma_symbol_read(cs, b, symbol);
    law_numbers_are_read(cs, d, right);
    let first = TokenModel {
        kind: TokenKindModel::Integer(left),
        span: span_between(cs, 0, a),
        fresh_line: false,
    };
    let second = TokenModel {
        kind: TokenKindModel::Mark(comparing(symbol)),
        span: span_between(cs, b, c),
        fresh_line: false,
    };
    let third = TokenModel {
        kind: TokenKindModel::Integer(right),
        span: span_between(cs, d, e),
        fresh_line: false,
    };
    let none = Seq::<TokenModel>::empty();
    lemma_token_at(cs, 0, a, first.kind, false, none);
    assert(lex_from(cs, a, false, none.push(first)) == lex_from(cs, b, false, none.push(first)));
    lemma_token_at(cs, b, c, second.kind, false, none.push(first));
    let two = none.push(first).push(second);
    assert(lex_from(cs, c, false, two) == lex_from(cs, d, false, two));
    lemma_token_at(cs, d, e, third.kind, false, two);
    let three = two.push(third);
    let ts = lex(cs)->Ok_0;
    assert(lex_from(cs, e, false, three) is Ok);
    assert(three[0] == first && three[1] == second && three[2] == third);
}

proof fn lemma_spelled(symbol: Seq<char>)
    requires
        is_comparison(symbol),
    ensures
        spelling(comparing(symbol)) == symbol,
        comparing(symbol) != Mark::LeftParen,
        comparing(symbol) != Mark::Dot,
        comparing(symbol) != Mark::LeftBracket,
{
    reveal_strlit("==");
    reveal_strlit("!=");
    reveal_strlit("<");
    reveal_strlit("<=");
    reveal_strlit(">");
    reveal_strlit(">=");
}

/// A row of two numbers with a comparison between them is that comparison.
proof fn lemma_parsed(ts: Tokens, left: i64, symbol: Seq<char>, right: i64)
    requires
        is_comparison(symbol),
        ts.len() == 4,
        ts[0].kind == TokenKindModel::Integer(left),
        ts[1].kind == TokenKindModel::Mark(comparing(symbol)),
        ts[2].kind == TokenKindModel::Integer(right),
        ts[3].kind == TokenKindModel::Mark(Mark::End),
    ensures
        parse_expression(ts, 0, false) matches Ok((whole, end)) && end == 3 && compared_in(
            whole,
            left,
            symbol,
            right,
        ),
{
    lemma_spelled(symbol);
    lemma_operand(ts, 0, left);
    lemma_operand(ts, 2, right);
    law_comparisons_are_as_written(ts, 0, false, comparing(symbol));
    let whole = parse_comparison(ts, 0, false)->Ok_0.0;
    assert(and_rest(ts, 3, false, whole)->Ok_0 == (whole, 3int));
    assert(parse_and(ts, 0, false)->Ok_0 == (whole, 3int));
    assert(or_rest(ts, 3, false, whole)->Ok_0 == (whole, 3int));
    assert(parse_or(ts, 0, false)->Ok_0 == (whole, 3int));
}

/// Whether an expression compares two numbers as a symbol says.
pub open spec fn compared_in(
    whole: ExpressionModel,
    left: i64,
    symbol: Seq<char>,
    right: i64,
) -> bool {
    whole.kind matches ExpressionKindModel::Binary { left: one, operator, right: other }
        && one.kind == ExpressionKindModel::Integer(left) && other.kind
        == ExpressionKindModel::Integer(right) && written(operator) == symbol
}

proof fn lemma_holds(
    whole: ExpressionModel,
    left: i64,
    symbol: Seq<char>,
    right: i64,
    env: EnvironmentModel,
    scope: ScopeModel,
    notes: NotesModel,
    place: PlaceModel,
    progress: ProgressModel,
)
    requires
        is_comparison(symbol),
        compared_in(whole, left, symbol, right),
    ensures
        lower_expression(env, whole, scope, notes) matches (Some(plan), noted) && noted == notes
            && place.gives(
            plan,
            progress,
            ValueModel::Boolean(compares(symbol, left as int, right as int)),
            progress,
        ),
{
    match whole.kind {
        ExpressionKindModel::Binary { left: one, operator, right: other } => {
            let first = lower_expression(env, *one, scope, notes).0->0;
            let second = lower_expression(env, *other, scope, notes).0->0;
            assert(lower_expression(env, *one, scope, notes) == (Some(first), notes));
            assert(lower_expression(env, *other, scope, notes) == (Some(second), notes));
            let plan = lower_expression(env, whole, scope, notes).0->0;
            lemma_not_logical(operator);
            assert(lower_binary(env, whole, scope, notes) == (Some(plan), notes));
            let steps = seq![progress, progress, progress];
            assert(place.gives(first, steps[0], ValueModel::Integer(left), steps[1]));
            assert(place.gives(second, steps[1], ValueModel::Integer(right), steps[2]));
            law_numbers_compare(
                place,
                first,
                operator,
                second,
                plan,
                ValueModel::Integer(left),
                ValueModel::Integer(right),
                steps,
            );
        },
        _ => {},
    }
}

proof fn lemma_not_logical(operator: BinaryOperator)
    requires
        is_comparison(written(operator)),
    ensures
        operator != BinaryOperator::And,
        operator != BinaryOperator::Or,
{
    reveal_strlit("==");
    reveal_strlit("!=");
    reveal_strlit("<");
    reveal_strlit("<=");
    reveal_strlit(">");
    reveal_strlit(">=");
    reveal_strlit("and");
    reveal_strlit("or");
    assert("and"@.len() == 3 && "or"@[0] == 'o');
    assert("=="@.len() == 2 && "!="@.len() == 2 && "<"@.len() == 1 && "<="@.len() == 2);
    assert(">"@.len() == 1 && ">="@.len() == 2);
    assert("=="@[0] == '=' && "!="@[0] == '!' && "<"@[0] == '<' && "<="@[0] == '<');
    assert(">"@[0] == '>' && ">="@[0] == '>');
}

/// Two whole numbers with a comparison written between them come to `true`
/// exactly if the numbers are as the comparison says, from the text through the
/// plan to the value.
pub proof fn law_written_comparisons_hold(
    left: i64,
    symbol: Seq<char>,
    right: i64,
    env: EnvironmentModel,
    scope: ScopeModel,
    notes: NotesModel,
    place: PlaceModel,
    progress: ProgressModel,
)
    requires
        is_comparison(symbol),
    ensures
        value_of(comparison_text(left, symbol, right)) matches Ok(expression) && (lower_expression(
            env,
            expression,
            scope,
            notes,
        ) matches (Some(plan), noted) && noted == notes && place.gives(
            plan,
            progress,
            ValueModel::Boolean(compares(symbol, left as int, right as int)),
            progress,
        )),
{
    lemma_tokens(left, symbol, right);
    let ts = lex(comparison_text(left, symbol, right))->Ok_0;
    lemma_parsed(ts, left, symbol, right);
    let whole = parse_expression(ts, 0, false)->Ok_0.0;
    lemma_holds(whole, left, symbol, right, env, scope, notes, place, progress);
}

// ---------------------------------------------------------------------------
// Texts

/// A character as it is written in a text of a program.
pub open spec fn written_char(c: char) -> Seq<char> {
    if c == '"' || c == '\\' {
        seq!['\\', c]
    } else if c == '\n' {
        seq!['\\', 'n']
    } else if c == '\r' {
        seq!['\\', 'r']
    } else if c == '\t' {
        seq!['\\', 't']
    } else {
        seq![c]
    }
}

/// A text as it is written in a program, without its quotes.
pub open spec fn written_text(text: Seq<char>) -> Seq<char>
    decreases text.len(),
{
    if text.len() == 0 {
        Seq::empty()
    } else {
        written_text(text.drop_last()) + written_char(text.last())
    }
}

proof fn lemma_text_read(cs: Seq<char>, start: int, at: int, text: Seq<char>, count: int)
    requires
        0 <= at,
        0 <= count <= text.len(),
        stands_at(cs, at, written_text(text)),
    ensures
        lex_string(cs, start, at, Seq::empty()) == lex_string(
            cs,
            start,
            at + written_text(text.take(count)).len(),
            text.take(count),
        ),
        written_text(text.take(count)).len() <= written_text(text).len(),
        forall|i: int|
            0 <= i < written_text(text.take(count)).len() ==> #[trigger] written_text(
                text.take(count),
            )[i] == written_text(text)[i],
    decreases count,
{
    if count == 0 {
        assert(text.take(0) =~= Seq::empty());
        lemma_written_grows(text, 0);
    } else {
        lemma_text_read(cs, start, at, text, count - 1);
        lemma_written_grows(text, count);
        let before = text.take(count - 1);
        let now = text.take(count);
        assert(now.drop_last() =~= before);
        let c = now.last();
        let p = at + written_text(before).len();
        let one = written_char(c);
        assert(written_text(now) == written_text(before) + one);
        let all = written_text(text);
        assert forall|i: int| 0 <= i < one.len() implies #[trigger] cs[p + i] == one[i] by {
            let k = written_text(before).len() + i;
            assert(written_text(now)[k] == one[i]);
            assert(cs.subrange(at, at + all.len())[k] == all[k]);
        }
        assert(cs[p + 0] == one[0]);
        if one.len() == 2 {
            assert(cs[p + 1] == one[1]);
        }
        assert(before.push(c) =~= now);
        assert(lex_string(cs, start, p, before) == lex_string(
            cs,
            start,
            p + one.len(),
            now,
        ));
    }
}

proof fn lemma_written_grows(text: Seq<char>, count: int)
    requires
        0 <= count <= text.len(),
    ensures
        written_text(text.take(count)).len() <= written_text(text).len(),
        forall|i: int|
            0 <= i < written_text(text.take(count)).len() ==> #[trigger] written_text(
                text.take(count),
            )[i] == written_text(text)[i],
    decreases text.len() - count,
{
    if count < text.len() {
        lemma_written_grows(text, count + 1);
        let now = text.take(count + 1);
        assert(now.drop_last() =~= text.take(count));
        assert forall|i: int|
            0 <= i < written_text(text.take(count)).len() implies #[trigger] written_text(
            text.take(count),
        )[i] == written_text(text)[i] by {
            assert(written_text(now)[i] == written_text(text)[i]);
        }
    } else {
        assert(text.take(count) =~= text);
    }
}

/// A text between quotes, with a backslash where one has to stand, is read as
/// that text.
pub proof fn law_texts_are_read(cs: Seq<char>, at: int, text: Seq<char>)
    requires
        stands_at(cs, at, seq!['"'] + written_text(text) + seq!['"']),
    ensures
        lex_token(cs, at) == Ok::<_, ErrorModel>(
            (TokenKindModel::String(text), at + written_text(text).len() + 2),
        ),
{
    let inner = written_text(text);
    let all = seq!['"'] + inner + seq!['"'];
    let end = at + all.len();
    let part = cs.subrange(at, end);
    assert(part[0] == all[0] && part[0] == cs[at]);
    let last = inner.len() + 1int;
    assert(part[last] == all[last]);
    assert(cs[at + inner.len() + 1] == '"');
    assert(cs.subrange(at + 1, at + 1 + inner.len()) =~= inner) by {
        assert forall|i: int| 0 <= i < inner.len() implies cs[at + 1 + i] == #[trigger] inner[i] by {
            assert(part[i + 1] == all[i + 1]);
        }
    }
    lemma_text_read(cs, at, at + 1, text, text.len() as int);
    assert(text.take(text.len() as int) =~= text);
    assert(symbol(cs, at) is None);
    assert(lex_token(cs, at) == lex_string(cs, at, at + 1, Seq::empty()));
}

// ---------------------------------------------------------------------------
// Other bases

/// The digit of a value below sixteen.
pub open spec fn figure(value: nat) -> char {
    if value == 0 {
        '0'
    } else if value == 1 {
        '1'
    } else if value == 2 {
        '2'
    } else if value == 3 {
        '3'
    } else if value == 4 {
        '4'
    } else if value == 5 {
        '5'
    } else if value == 6 {
        '6'
    } else if value == 7 {
        '7'
    } else if value == 8 {
        '8'
    } else if value == 9 {
        '9'
    } else if value == 10 {
        'a'
    } else if value == 11 {
        'b'
    } else if value == 12 {
        'c'
    } else if value == 13 {
        'd'
    } else if value == 14 {
        'e'
    } else {
        'f'
    }
}

/// A number as it is written in base sixteen or two.
pub open spec fn written_in(value: nat, sixteen: bool) -> Seq<char>
    decreases value,
{
    if sixteen {
        if value < 16 {
            seq![figure(value)]
        } else {
            written_in(value / 16, sixteen).push(figure(value % 16))
        }
    } else {
        if value < 2 {
            seq![figure(value)]
        } else {
            written_in(value / 2, sixteen).push(figure(value % 2))
        }
    }
}

proof fn lemma_figure(value: nat, base: nat)
    requires
        value < base <= 16,
    ensures
        digit_value(figure(value)) == value,
        figure(value) != '_',
        in_class(Class::Identifier, figure(value)),
{
}

proof fn lemma_written_in(value: nat, sixteen: bool)
    ensures
        ({
            let base: nat = if sixteen {
                16
            } else {
                2
            };
            let text = written_in(value, sixteen);
            &&& text.len() > 0
            &&& numeral(text, base) == value
            &&& forall|i: int|
                0 <= i < text.len() ==> digit_value(#[trigger] text[i]) < base && text[i] != '_'
                    && in_class(Class::Identifier, text[i])
        }),
    decreases value,
{
    let base: nat = if sixteen {
        16
    } else {
        2
    };
    let text = written_in(value, sixteen);
    if value < base {
        lemma_figure(value, base);
        assert(text.drop_last() =~= Seq::empty());
        assert(numeral(text.drop_last(), base) == 0);
    } else {
        lemma_written_in(value / base, sixteen);
        lemma_figure(value % base, base);
        assert(text.drop_last() =~= written_in(value / base, sixteen));
    }
}

proof fn lemma_identifier_run(cs: Seq<char>, from: int)
    requires
        0 <= from <= cs.len(),
        forall|i: int| from <= i < cs.len() ==> in_class(Class::Identifier, #[trigger] cs[i]),
    ensures
        run_end(Class::Identifier, cs, from) == cs.len(),
    decreases cs.len() - from,
{
    if from < cs.len() {
        lemma_identifier_run(cs, from + 1);
    }
}

/// A number behind `0x` is read in base sixteen, and one behind `0b` in base two.
pub proof fn law_other_bases_are_read(value: i64, sixteen: bool)
    requires
        value >= 0,
    ensures
        ({
            let text = (if sixteen {
                seq!['0', 'x']
            } else {
                seq!['0', 'b']
            }) + written_in(value as nat, sixteen);
            lex_token(text, 0) == Ok::<_, ErrorModel>(
                (TokenKindModel::Integer(value), text.len() as int),
            )
        }),
{
    let base: nat = if sixteen {
        16
    } else {
        2
    };
    let start = if sixteen {
        seq!['0', 'x']
    } else {
        seq!['0', 'b']
    };
    let digits = written_in(value as nat, sixteen);
    let text = start + digits;
    lemma_written_in(value as nat, sixteen);
    assert(text[0] == '0' && text[1] == start[1]);
    assert forall|i: int| 2 <= i < text.len() implies in_class(
        Class::Identifier,
        #[trigger] text[i],
    ) by {
        assert(text[i] == digits[i - 2]);
    }
    lemma_identifier_run(text, 2);
    assert(text.subrange(2, text.len() as int) =~= digits);
    assert forall|i: int| 0 <= i < digits.len() implies #[trigger] digit_placed(
        digits,
        i,
        base,
    ) by {
        assert(digit_value(digits[i]) < base);
    }
    assert(valid_digits(digits, base));
    assert(radix_prefix(text, 0) == Some(base));
    assert(lex_number(text, 0, false) == lex_radix(text, 0, 2, base, false));
    assert(lex_token(text, 0) == lex_number(text, 0, false));
}

// ---------------------------------------------------------------------------
// Between tokens

proof fn lemma_line_run(cs: Seq<char>, from: int, end: int)
    requires
        0 <= from <= end <= cs.len(),
        end == cs.len() || cs[end] == '\n',
        forall|i: int| from <= i < end ==> #[trigger] cs[i] != '\n',
    ensures
        run_end(Class::Line, cs, from) == end,
    decreases end - from,
{
    if from < end {
        lemma_line_run(cs, from + 1, end);
    }
}

/// What stands behind two slashes on a line is passed over, as blanks are, and a
/// line break is noticed for the token that comes next.
pub proof fn law_comments_are_passed_over(
    cs: Seq<char>,
    at: int,
    end: int,
    fresh: bool,
    tokens: Tokens,
)
    requires
        0 <= at < cs.len(),
    ensures
        is_blank(cs[at]) ==> lex_from(cs, at, fresh, tokens) == lex_from(
            cs,
            at + 1,
            fresh || cs[at] == '\n',
            tokens,
        ),
        at + 2 <= end <= cs.len() && cs[at] == '/' && cs[at + 1] == '/' && (end == cs.len()
            || cs[end] == '\n') && (forall|i: int| at + 2 <= i < end ==> #[trigger] cs[i] != '\n')
            ==> lex_from(cs, at, fresh, tokens) == lex_from(cs, end, fresh, tokens),
{
    if at + 2 <= end <= cs.len() && cs[at] == '/' && cs[at + 1] == '/' && (end == cs.len()
        || cs[end] == '\n') && (forall|i: int| at + 2 <= i < end ==> #[trigger] cs[i] != '\n') {
        lemma_line_run(cs, at + 2, end);
    }
}

// ---------------------------------------------------------------------------
// Arguments

proof fn lemma_single(ts: Tokens)
    requires
        ts.len() == 2,
        ts[0].kind is Integer || ts[0].kind is String,
        ts[1].kind == TokenKindModel::Mark(Mark::End),
    ensures
        parse_expression(ts, 0, false) matches Ok((value, end)) && end == 1 && value.kind == (
        match ts[0].kind {
            TokenKindModel::Integer(number) => ExpressionKindModel::Integer(number),
            TokenKindModel::String(text) => ExpressionKindModel::String(text),
            _ => ExpressionKindModel::Null,
        }),
{
    let operand = parse_operand(ts, 0, false)->Ok_0.0;
    assert(parse_operand(ts, 0, false) is Ok);
    assert(parse_call(ts, 1, false, operand)->Ok_0 == (operand, 1int));
    assert(parse_member_access(ts, 1, false, operand)->Ok_0 == (operand, 1int));
    assert(parse_primary_expression(ts, 0, false)->Ok_0 == (operand, 1int));
    assert(parse_unary(ts, 0, false)->Ok_0 == (operand, 1int));
    assert(parse_comparison(ts, 0, false)->Ok_0 == (operand, 1int));
    assert(and_rest(ts, 1, false, operand)->Ok_0 == (operand, 1int));
    assert(parse_and(ts, 0, false)->Ok_0 == (operand, 1int));
    assert(or_rest(ts, 1, false, operand)->Ok_0 == (operand, 1int));
    assert(parse_or(ts, 0, false)->Ok_0 == (operand, 1int));
}

proof fn lemma_only_token(cs: Seq<char>, kind: TokenKindModel)
    requires
        cs.len() > 0,
        !is_blank(cs[0]),
        cs[0] != '/',
        lex_token(cs, 0) == Ok::<_, ErrorModel>((kind, cs.len() as int)),
    ensures
        lex(cs) matches Ok(ts) && ts.len() == 2 && ts[0].kind == kind && ts[1].kind
            == TokenKindModel::Mark(Mark::End),
{
    let none = Seq::<TokenModel>::empty();
    lemma_token_at(cs, 0, cs.len() as int, kind, false, none);
    let first = TokenModel {
        kind,
        span: span_between(cs, 0, cs.len() as int),
        fresh_line: false,
    };
    assert(none.push(first)[0] == first);
    assert(lex_from(cs, cs.len() as int, false, none.push(first)) is Ok);
}

/// An argument in digits is the number that they mean, and one in quotes is the
/// text between them.
pub proof fn law_arguments_are_literals(name: Seq<char>, value: i64, text: Seq<char>)
    ensures
        argument_value(name, signed_decimal(value as int)) == Ok::<_, Seq<char>>(
            ValueModel::Integer(value),
        ),
        argument_value(name, seq!['"'] + written_text(text) + seq!['"']) == Ok::<_, Seq<char>>(
            ValueModel::String(text),
        ),
{
    let number = signed_decimal(value as int);
    lemma_first_of_number(value);
    assert(number.subrange(0, number.len() as int) =~= number);
    law_numbers_are_read(number, 0, value);
    lemma_only_token(number, TokenKindModel::Integer(value));
    lemma_single(lex(number)->Ok_0);
    let quoted = seq!['"'] + written_text(text) + seq!['"'];
    assert(quoted[0] == '"');
    assert(quoted.subrange(0, quoted.len() as int) =~= quoted);
    law_texts_are_read(quoted, 0, text);
    lemma_only_token(quoted, TokenKindModel::String(text));
    lemma_single(lex(quoted)->Ok_0);
}

proof fn lemma_quoted(text: Seq<char>, from: int)
    requires
        0 <= from <= text.len(),
        forall|i: int| 0 <= i < text.len() ==> escaped(#[trigger] text[i]) == written_char(text[i]),
    ensures
        written_text(text.take(from)) + escape_from(text, from) == written_text(text),
    decreases text.len() - from,
{
    if from < text.len() {
        lemma_quoted(text, from + 1);
        let next = text.take(from + 1);
        assert(next.drop_last() =~= text.take(from));
        assert(next.last() == text[from]);
        assert(written_text(text.take(from)) + (escaped(text[from]) + escape_from(text, from + 1))
            =~= written_text(text.take(from)) + escaped(text[from]) + escape_from(text, from + 1));
    } else {
        assert(text.take(from) =~= text);
        assert(written_text(text) + Seq::empty() =~= written_text(text));
    }
}

/// A text that is shown between quotes is read as that text again, unless it
/// holds control characters that a program cannot write.
pub proof fn law_quoted_texts_are_read_back(text: Seq<char>)
    requires
        forall|i: int|
            0 <= i < text.len() ==> (#[trigger] text[i]) as u32 > 0x1f || text[i] == '\n' || text[i]
                == '\r' || text[i] == '\t',
    ensures
        lex_token(quoted(text), 0) == Ok::<_, ErrorModel>(
            (TokenKindModel::String(text), quoted(text).len() as int),
        ),
{
    assert forall|i: int| 0 <= i < text.len() implies escaped(#[trigger] text[i]) == written_char(
        text[i],
    ) by {
        lemma_same_escape(text[i]);
    }
    lemma_quoted(text, 0);
    assert(text.take(0) =~= Seq::empty());
    assert(written_text(Seq::empty()) =~= Seq::empty());
    assert(Seq::empty() + escape_from(text, 0) =~= escape_from(text, 0));
    assert(quoted(text) == seq!['"'] + written_text(text) + seq!['"']);
    assert(quoted(text).subrange(0, quoted(text).len() as int) =~= quoted(text));
    law_texts_are_read(quoted(text), 0, text);
}

proof fn lemma_same_escape(c: char)
    requires
        c as u32 > 0x1f || c == '\n' || c == '\r' || c == '\t',
    ensures
        escaped(c) == written_char(c),
{
}

} // verus!
