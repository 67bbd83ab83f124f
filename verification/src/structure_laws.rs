//! How calls, members, fields, branches and whole programs are read.

use vstd::prelude::*;

use crate::grammar::{
    advanced, call_arguments, context_member, context_members, has_field, is_identifier, is_mark,
    object_fields, parallel_branches, parse_anonymous_expression_flow, parse_call,
    parse_declaration, parse_expression, parse_member_access, parse_object_field,
    parse_object_fields, parse_parallel, parse_policy_options, parse_program, path_rest,
    policy_options, separator, take_identifier, Tokens,
};
use crate::lexer::{Mark, TokenKindModel};
use crate::syntax::{
    ContextMemberModel, DeclarationKind, ErrorModel, ExpressionKindModel, ExpressionModel,
    ObjectFieldModel, ParallelBranchModel, ProgramModel, Span, StatementModel,
};
use crate::syntax_laws::{gives_option, lacks_option};

verus! {

// ---------------------------------------------------------------------------
// Calls

/// The arguments of a call are read in their order: one with a name and a colon
/// before it is a named one, and every other stands before those.
pub proof fn law_arguments_are_read_in_order(
    ts: Tokens,
    at: int,
    bare: bool,
    positional: Seq<ExpressionModel>,
    named: Seq<ObjectFieldModel>,
)
    ensures
        call_arguments(ts, at, bare, positional, named) matches Ok(((all, fields), end)) ==> {
            &&& positional.len() <= all.len()
            &&& named.len() <= fields.len()
            &&& forall|i: int| 0 <= i < positional.len() ==> #[trigger] all[i] == positional[i]
            &&& forall|i: int| 0 <= i < named.len() ==> #[trigger] fields[i] == named[i]
            &&& is_identifier(ts, at) && is_mark(ts, at + 1, Mark::Colon) ==> named.len()
                < fields.len() && (parse_object_field(ts, at, bare) matches Ok((field, _))
                && fields[named.len() as int] == field)
            &&& !(is_identifier(ts, at) && is_mark(ts, at + 1, Mark::Colon)) ==> named.len() == 0
                && positional.len() < all.len() && (parse_expression(ts, at, bare) matches Ok(
                (value, _),
            ) && all[positional.len() as int] == value)
        },
    decreases ts.len() - at,
{
    if is_identifier(ts, at) && is_mark(ts, at + 1, Mark::Colon) {
        if let Ok((field, next)) = parse_object_field(ts, at, bare) {
            let more = named.push(field);
            assert(more[named.len() as int] == field);
            if advanced(ts, at, next) && is_mark(ts, next, Mark::Comma) && !is_mark(
                ts,
                next + 1,
                Mark::RightParen,
            ) {
                law_arguments_are_read_in_order(ts, next + 1, bare, positional, more);
            }
            if let Ok(((all, fields), end)) = call_arguments(ts, at, bare, positional, named) {
                assert forall|i: int| 0 <= i < named.len() implies #[trigger] fields[i]
                    == named[i] by {
                    assert(fields[i] == more[i]);
                }
                assert(fields[named.len() as int] == more[named.len() as int]);
            }
        }
    } else if named.len() == 0 {
        if let Ok((value, next)) = parse_expression(ts, at, bare) {
            let more = positional.push(value);
            assert(more[positional.len() as int] == value);
            if advanced(ts, at, next) && is_mark(ts, next, Mark::Comma) && !is_mark(
                ts,
                next + 1,
                Mark::RightParen,
            ) {
                law_arguments_are_read_in_order(ts, next + 1, bare, more, named);
            }
            if let Ok(((all, fields), end)) = call_arguments(ts, at, bare, positional, named) {
                assert forall|i: int| 0 <= i < positional.len() implies #[trigger] all[i]
                    == positional[i] by {
                    assert(all[i] == more[i]);
                }
                assert(all[positional.len() as int] == more[positional.len() as int]);
            }
        }
    }
}

/// A name with parentheses behind it is a call of what has that name, with the
/// arguments between them and the options in the braces behind them.
pub proof fn law_calls_are_read(ts: Tokens, at: int, bare: bool, operand: ExpressionModel)
    ensures
        !is_mark(ts, at, Mark::LeftParen) ==> parse_call(ts, at, bare, operand) == Ok::<
            _,
            ErrorModel,
        >((operand, at)),
        is_mark(ts, at, Mark::LeftParen) ==> (parse_call(ts, at, bare, operand) matches Ok(
            (whole, end),
        ) ==> {
            &&& operand.kind matches ExpressionKindModel::Name(name)
            &&& whole.kind matches ExpressionKindModel::Call {
                callee,
                arguments,
                named_arguments,
                options,
            }
            &&& callee.value == name
            &&& callee.span == operand.span
            &&& is_mark(ts, at + 1, Mark::RightParen) ==> arguments.len() == 0
                && named_arguments.len() == 0
            &&& !is_mark(ts, at + 1, Mark::RightParen) ==> (call_arguments(
                ts,
                at + 1,
                bare,
                Seq::empty(),
                Seq::empty(),
            ) matches Ok(((all, fields), close)) && all == arguments && fields == named_arguments
                && is_mark(ts, close, Mark::RightParen) && (bare || !is_mark(
                ts,
                close + 1,
                Mark::LeftBrace,
            ) ==> options.len() == 0 && end == close + 1) && (!bare && is_mark(
                ts,
                close + 1,
                Mark::LeftBrace,
            ) ==> (parse_object_fields(ts, close + 1, bare) matches Ok(((given, _), behind))
                && given == options && behind == end)))
        }),
{
}

/// A name behind a dot belongs to the name before it.
pub proof fn law_paths_are_read(ts: Tokens, at: int, name: Seq<char>, span: Span)
    ensures
        is_mark(ts, at, Mark::Dot) && is_identifier(ts, at + 1) ==> (
        ts[at + 1].kind matches TokenKindModel::Identifier(member) && exists|wider: Span|
            path_rest(ts, at, name, span) == #[trigger] path_rest(
                ts,
                at + 2,
                name + seq!['.'] + member,
                wider,
            )),
        !(is_mark(ts, at, Mark::Dot) && is_identifier(ts, at + 1)) ==> (path_rest(
            ts,
            at,
            name,
            span,
        ) matches Ok((path, end)) && path.kind == ExpressionKindModel::Name(name) && end == at),
{
    if is_mark(ts, at, Mark::Dot) && is_identifier(ts, at + 1) {
        if let TokenKindModel::Identifier(member) = ts[at + 1].kind {
            let wider = span.joined(ts[at + 1].span);
            assert(name.push('.') + member =~= name + seq!['.'] + member);
            assert(path_rest(ts, at, name, span) == path_rest(
                ts,
                at + 2,
                name + seq!['.'] + member,
                wider,
            ));
        }
    }
}

/// A dot asks for a member of what stands before it, and brackets for an element
/// of it; what follows asks the same of that.
pub proof fn law_accesses_are_read(ts: Tokens, at: int, bare: bool, value: ExpressionModel)
    requires
        0 <= at < ts.len(),
    ensures
        parse_member_access(ts, at, bare, value) matches Ok((whole, end)) ==> {
            &&& is_mark(ts, at, Mark::Dot) ==> exists|inner: ExpressionModel|
                parse_member_access(ts, at, bare, value) == #[trigger] parse_member_access(
                    ts,
                    at + 2,
                    bare,
                    inner,
                ) && (inner.kind matches ExpressionKindModel::Member { value: of, member } && *of
                    == value && ts[at + 1].kind == TokenKindModel::Identifier(member.value))
            &&& is_mark(ts, at, Mark::LeftBracket) ==> exists|inner: ExpressionModel, next: int|
                parse_member_access(ts, at, bare, value) == #[trigger] parse_member_access(
                    ts,
                    next,
                    bare,
                    inner,
                ) && (inner.kind matches ExpressionKindModel::Index { value: of, index } && *of
                    == value && parse_expression(ts, at + 1, bare) == Ok::<_, ErrorModel>(
                    (*index, next - 1),
                ) && is_mark(ts, next - 1, Mark::RightBracket))
            &&& !is_mark(ts, at, Mark::Dot) && !is_mark(ts, at, Mark::LeftBracket) ==> whole
                == value && end == at
        },
{
    if is_mark(ts, at, Mark::Dot) {
        if let Ok((member, next)) = take_identifier(ts, at + 1, "a member name after `.`"@) {
            let inner = ExpressionModel {
                span: value.span.joined(member.span),
                kind: ExpressionKindModel::Member { value: Box::new(value), member },
            };
            if parse_member_access(ts, at, bare, value) is Ok {
                assert(next == at + 2);
                assert(parse_member_access(ts, at, bare, value) == parse_member_access(
                    ts,
                    at + 2,
                    bare,
                    inner,
                ));
            }
        }
    }
    if is_mark(ts, at, Mark::LeftBracket) {
        if let Ok((index, next)) = parse_expression(ts, at + 1, bare) {
            let inner = ExpressionModel {
                span: value.span.joined(ts[next].span),
                kind: ExpressionKindModel::Index { value: Box::new(value), index: Box::new(index) },
            };
            if parse_member_access(ts, at, bare, value) is Ok {
                assert(is_mark(ts, next, Mark::RightBracket));
                assert(parse_member_access(ts, at, bare, value) == parse_member_access(
                    ts,
                    next + 1,
                    bare,
                    inner,
                ));
                assert(next + 1 - 1 == next);
            }
        }
    }
}

// ---------------------------------------------------------------------------
// Rows

/// The fields of an object are read in their order, up to its closing brace.
pub proof fn law_fields_are_read_in_order(
    ts: Tokens,
    at: int,
    bare: bool,
    fields: Seq<ObjectFieldModel>,
)
    ensures
        object_fields(ts, at, bare, fields) matches Ok(((all, _), end)) ==> {
            &&& fields.len() <= all.len()
            &&& forall|i: int| 0 <= i < fields.len() ==> #[trigger] all[i] == fields[i]
            &&& is_mark(ts, at, Mark::RightBrace) ==> all.len() == fields.len() && end == at + 1
            &&& !is_mark(ts, at, Mark::RightBrace) ==> fields.len() < all.len() && (
            parse_object_field(ts, at, bare) matches Ok((field, _)) && all[fields.len() as int]
                == field)
        },
    decreases ts.len() - at,
{
    if !is_mark(ts, at, Mark::RightBrace) && !is_mark(ts, at, Mark::End) {
        if let Ok((field, next)) = parse_object_field(ts, at, bare) {
            if let Ok(end) = separator(ts, next, "object fields"@) {
                if advanced(ts, at, end) {
                    let more = fields.push(field);
                    law_fields_are_read_in_order(ts, end, bare, more);
                    if let Ok(((all, _), last)) = object_fields(ts, at, bare, fields) {
                        assert forall|i: int| 0 <= i < fields.len() implies #[trigger] all[i]
                            == fields[i] by {
                            assert(all[i] == more[i]);
                        }
                        assert(all[fields.len() as int] == more[fields.len() as int]);
                    }
                }
            }
        }
    }
}

/// The branches of `parallel` are read in their order, each with the name before
/// its colon, if there is one.
pub proof fn law_branches_are_read_in_order(
    ts: Tokens,
    at: int,
    bare: bool,
    branches: Seq<ParallelBranchModel>,
)
    ensures
        parallel_branches(ts, at, bare, branches) matches Ok(((all, _), end)) ==> {
            &&& branches.len() <= all.len()
            &&& forall|i: int| 0 <= i < branches.len() ==> #[trigger] all[i] == branches[i]
            &&& is_mark(ts, at, Mark::RightBrace) ==> all.len() == branches.len()
            &&& !is_mark(ts, at, Mark::RightBrace) ==> branches.len() < all.len() && ({
                let next = all[branches.len() as int];
                if is_identifier(ts, at) && is_mark(ts, at + 1, Mark::Colon) {
                    (next.name matches Some(name) && ts[at].kind == TokenKindModel::Identifier(
                        name.value,
                    )) && (parse_expression(ts, at + 2, bare) matches Ok((value, _)) && value
                        == next.expression)
                } else {
                    next.name is None && (parse_expression(ts, at, bare) matches Ok((value, _))
                        && value == next.expression)
                }
            })
        },
    decreases ts.len() - at,
{
    if !is_mark(ts, at, Mark::RightBrace) && !is_mark(ts, at, Mark::End) {
        let named = is_identifier(ts, at) && is_mark(ts, at + 1, Mark::Colon);
        let name = match ts[at].kind {
            TokenKindModel::Identifier(value) => if named {
                Some(crate::syntax::SpannedModel { value, span: ts[at].span })
            } else {
                None
            },
            _ => None,
        };
        let first = if named {
            at + 2
        } else {
            at
        };
        if let Ok((expression, next)) = parse_expression(ts, first, bare) {
            if let Ok(end) = separator(ts, next, "parallel branches"@) {
                if advanced(ts, at, end) {
                    let more = branches.push(ParallelBranchModel { name, expression });
                    law_branches_are_read_in_order(ts, end, bare, more);
                    if let Ok(((all, _), last)) = parallel_branches(ts, at, bare, branches) {
                        assert forall|i: int| 0 <= i < branches.len() implies #[trigger] all[i]
                            == branches[i] by {
                            assert(all[i] == more[i]);
                        }
                        assert(all[branches.len() as int] == more[branches.len() as int]);
                    }
                }
            }
        }
    }
}

/// The limit of `parallel` is what is written behind `limit`, and its branches
/// stand between the braces.
pub proof fn law_parallels_are_read(ts: Tokens, at: int, bare: bool, start: Span)
    ensures
        parse_parallel(ts, at, bare, start) matches Ok((whole, end)) ==> {
            &&& whole.kind matches ExpressionKindModel::Parallel { limit, branches }
            &&& is_mark(ts, at, Mark::LeftParen) ==> (parse_policy_options(ts, at, bare)
                matches Ok((options, next)) && (limit matches Some(limit) ==> gives_option(
                options,
                "limit"@,
                *limit,
            )) && (limit is None ==> lacks_option(options, "limit"@)) && (parallel_branches(
                ts,
                next + 1,
                bare,
                Seq::empty(),
            ) matches Ok(((all, _), behind)) && all == branches && behind == end))
            &&& !is_mark(ts, at, Mark::LeftParen) ==> limit is None && (parallel_branches(
                ts,
                at + 1,
                bare,
                Seq::empty(),
            ) matches Ok(((all, _), behind)) && all == branches && behind == end)
        },
{
    if is_mark(ts, at, Mark::LeftParen) {
        if let Ok((options, next)) = parse_policy_options(ts, at, bare) {
            crate::syntax_laws::lemma_optional(options, "limit"@);
        }
    } else {
        crate::syntax_laws::lemma_optional(Seq::empty(), "limit"@);
    }
}

/// The options of a policy are read in their order, and none is named twice.
pub proof fn law_settings_are_read_in_order(
    ts: Tokens,
    at: int,
    bare: bool,
    options: Seq<ObjectFieldModel>,
)
    requires
        forall|i: int, j: int|
            0 <= i < j < options.len() ==> (#[trigger] options[i]).name.value != (
            #[trigger] options[j]).name.value,
    ensures
        policy_options(ts, at, bare, options) matches Ok((all, end)) ==> {
            &&& options.len() <= all.len()
            &&& forall|i: int| 0 <= i < options.len() ==> #[trigger] all[i] == options[i]
            &&& forall|i: int, j: int|
                0 <= i < j < all.len() ==> (#[trigger] all[i]).name.value != (
                #[trigger] all[j]).name.value
            &&& is_mark(ts, at, Mark::RightParen) ==> all.len() == options.len()
            &&& !is_mark(ts, at, Mark::RightParen) ==> options.len() < all.len() && ts[at].kind
                == TokenKindModel::Identifier(all[options.len() as int].name.value) && is_mark(
                ts,
                at + 1,
                Mark::Colon,
            ) && (parse_expression(ts, at + 2, bare) matches Ok((value, _)) && value
                == all[options.len() as int].expression)
        },
    decreases ts.len() - at,
{
    if !is_mark(ts, at, Mark::RightParen) {
        if let Ok((name, colon)) = take_identifier(ts, at, "a policy option name"@) {
            if let Ok((expression, end)) = parse_expression(ts, colon + 1, bare) {
                let field = ObjectFieldModel {
                    span: name.span.joined(expression.span),
                    name,
                    expression,
                };
                let more = options.push(field);
                if !has_field(options, name.value) {
                    assert forall|i: int, j: int| 0 <= i < j < more.len() implies (
                    #[trigger] more[i]).name.value != (#[trigger] more[j]).name.value by {
                        if j == options.len() {
                            assert(more[i] == options[i]);
                        }
                    }
                    if advanced(ts, at, end) && is_mark(ts, end, Mark::Comma) {
                        law_settings_are_read_in_order(ts, end + 1, bare, more);
                    }
                    if let Ok((all, last)) = policy_options(ts, at, bare, options) {
                        assert forall|i: int| 0 <= i < options.len() implies #[trigger] all[i]
                            == options[i] by {
                            assert(all[i] == more[i]);
                        }
                        assert(all[options.len() as int] == more[options.len() as int]);
                    }
                }
            }
        }
    }
}

/// The members of a context are read in their order, up to its closing brace.
pub proof fn law_members_are_read_in_order(
    ts: Tokens,
    at: int,
    members: Seq<ContextMemberModel>,
)
    ensures
        context_members(ts, at, members) matches Ok(((all, _), end)) ==> {
            &&& members.len() <= all.len()
            &&& forall|i: int| 0 <= i < members.len() ==> #[trigger] all[i] == members[i]
            &&& is_mark(ts, at, Mark::RightBrace) ==> all.len() == members.len()
            &&& !is_mark(ts, at, Mark::RightBrace) ==> members.len() < all.len() && (
            context_member(ts, at) matches Ok((member, _)) && all[members.len() as int] == member)
        },
    decreases ts.len() - at,
{
    if !is_mark(ts, at, Mark::RightBrace) && !is_mark(ts, at, Mark::End) {
        if let Ok((member, next)) = context_member(ts, at) {
            if let Ok(end) = separator(ts, next, "context members"@) {
                if advanced(ts, at, end) {
                    let more = members.push(member);
                    law_members_are_read_in_order(ts, end, more);
                    if let Ok(((all, _), last)) = context_members(ts, at, members) {
                        assert forall|i: int| 0 <= i < members.len() implies #[trigger] all[i]
                            == members[i] by {
                            assert(all[i] == more[i]);
                        }
                        assert(all[members.len() as int] == more[members.len() as int]);
                    }
                }
            }
        }
    }
}

// ---------------------------------------------------------------------------
// Programs

/// A call that stands alone is a flow without a name or parameters that returns
/// what the call gives.
pub proof fn law_calls_alone_are_flows(ts: Tokens, at: int)
    ensures
        parse_anonymous_expression_flow(ts, at) matches Ok((flow, end)) ==> {
            &&& flow.kind == DeclarationKind::Flow
            &&& flow.name is None
            &&& flow.parameters.len() == 0
            &&& flow.body.len() == 1
            &&& flow.body[0] matches StatementModel::Return { expression, span }
            &&& expression.kind is Call
            &&& parse_expression(ts, at, false) == Ok::<_, ErrorModel>((expression, end))
        },
{
}

proof fn lemma_declaration_adds(ts: Tokens, at: int, program: ProgramModel)
    ensures
        parse_declaration(ts, at, program) matches Ok((next, end)) ==> {
            &&& program.flows.is_prefix_of(next.flows)
            &&& program.contexts.is_prefix_of(next.contexts)
            &&& program.namespace_uses.is_prefix_of(next.namespace_uses)
            &&& program.namespace is Some ==> next.namespace == program.namespace
        },
{
}

/// What a program declares is added to it in its order: nothing that was read
/// is taken back.
pub proof fn law_programs_are_read_in_order(ts: Tokens, at: int, program: ProgramModel)
    ensures
        parse_program(ts, at, program) matches Ok(whole) ==> {
            &&& program.flows.is_prefix_of(whole.flows)
            &&& program.contexts.is_prefix_of(whole.contexts)
            &&& program.namespace_uses.is_prefix_of(whole.namespace_uses)
            &&& program.namespace is Some ==> whole.namespace == program.namespace
        },
    decreases ts.len() - at,
{
    if !is_mark(ts, at, Mark::End) {
        if let Ok((next_program, next)) = parse_declaration(ts, at, program) {
            lemma_declaration_adds(ts, at, program);
            if advanced(ts, at, next) {
                law_programs_are_read_in_order(ts, next, next_program);
                if let Ok(whole) = parse_program(ts, at, program) {
                    lemma_prefixes(program.flows, next_program.flows, whole.flows);
                    lemma_prefixes(program.contexts, next_program.contexts, whole.contexts);
                    lemma_prefixes(
                        program.namespace_uses,
                        next_program.namespace_uses,
                        whole.namespace_uses,
                    );
                }
            }
        }
    }
}

proof fn lemma_prefixes<T>(one: Seq<T>, two: Seq<T>, three: Seq<T>)
    ensures
        one.is_prefix_of(two) && two.is_prefix_of(three) ==> one.is_prefix_of(three),
{
    if one.is_prefix_of(two) && two.is_prefix_of(three) {
        assert forall|i: int| 0 <= i < one.len() implies one[i] == three[i] by {
            assert(one[i] == two.subrange(0, one.len() as int)[i]);
            assert(two[i] == three.subrange(0, two.len() as int)[i]);
        }
        assert(one =~= three.subrange(0, one.len() as int));
    }
}

} // verus!
