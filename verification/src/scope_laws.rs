//! What names, fields and texts stand for when they are compiled.

use vstd::prelude::*;

use crate::assembly::{plan_flow, plan_flows};
use crate::capability::{FieldSchemaModel, SchemaTypeModel};
use crate::compile_laws::becomes;
use crate::definition::{
    local_of, root_of, with_loop, Answer, HomeModel, LocalModel, QuestionModel,
};
use crate::duration::Duration;
use crate::lowering::{
    check_exclusive, check_type, fits, is_path, loop_scope, lower_echo, lower_expression,
    lower_field, lower_fields, lower_inserted, lower_loop, lower_parts, lower_secret, next_opening,
    present_options, rate_fault, slot_of, EnvironmentModel, NotesModel, ScopeModel,
};
use crate::names::id_of;
use crate::plan::{
    InstructionModel, MettlePlanModel, PlanExpressionKindModel, PlanExpressionModel, PlanFieldModel,
    StringPartModel, ValueType,
};
use crate::syntax::{
    DeclarationKind, ExpressionKindModel, ExpressionModel, ObjectFieldModel, Span, SpannedModel,
    StatementModel,
};
use crate::text::{lemma_position_of, position_of};
use crate::workload::planned_iterations;

verus! {

// ---------------------------------------------------------------------------
// Loops

proof fn lemma_named(scope: ScopeModel, name: Seq<char>, other: Seq<char>)
    ensures
        id_of(scope.naming(name).locals, name) == Some(scope.slots),
        other != name ==> id_of(scope.naming(name).locals, other) == id_of(scope.locals, other),
{
    let more = scope.naming(name).locals;
    assert(more.last() == (name, scope.slots));
    assert(more.drop_last() =~= scope.locals);
}

/// Inside a loop its names stand for the slots in which each round puts the key
/// and the value, and all other names for what they stood for.
pub proof fn law_loop_names_have_their_slots(
    env: EnvironmentModel,
    expression: ExpressionModel,
    scope: ScopeModel,
    notes: NotesModel,
    other: Seq<char>,
)
    requires
        expression.kind is For,
    ensures
        lower_loop(env, expression, scope, notes).0 matches Some(planned) ==> {
            &&& expression.kind matches ExpressionKindModel::For { key, value, iterable, body }
            &&& planned.kind matches PlanExpressionKindModel::For {
                iterable: over,
                key_slot,
                value_slot,
                instructions,
                local_count,
                produces_value,
            }
            &&& becomes(env, scope, *iterable, *over)
            &&& loop_scope(scope, key, value, notes).0 matches Some(inner)
            &&& id_of(inner.locals, value.value) == Some(value_slot)
            &&& key matches Some(key) ==> id_of(inner.locals, key.value) == key_slot && key_slot
                is Some && key.value != value.value
            &&& key is None ==> key_slot is None
            &&& other != value.value && (key matches Some(key) ==> other != key.value) ==> id_of(
                inner.locals,
                other,
            ) == id_of(scope.locals, other)
        },
{
    if let ExpressionKindModel::For { key, value, iterable, body } = expression.kind {
        if let (Some(over), noted) = lower_expression(env, *iterable, scope, notes) {
            assert(becomes(env, scope, *iterable, over));
        }
        match key {
            None => {
                lemma_named(scope, value.value, other);
            },
            Some(key) => {
                let first = scope.naming(key.value);
                lemma_named(scope, key.value, other);
                lemma_named(scope, key.value, value.value);
                lemma_named(first, value.value, other);
                lemma_named(first, value.value, key.value);
            },
        }
    }
}

// ---------------------------------------------------------------------------
// Fields

/// Whether a compiled field is one of those that were written, with its name
/// and what its expression became.
pub open spec fn comes_from(
    env: EnvironmentModel,
    scope: ScopeModel,
    schema: Option<Seq<FieldSchemaModel>>,
    fields: Seq<ObjectFieldModel>,
    planned: PlanFieldModel,
) -> bool {
    exists|i: int, notes: NotesModel|
        0 <= i < fields.len() && fields[i].name.value == planned.name && #[trigger] lower_field(
            env,
            fields[i],
            scope,
            schema,
            notes,
        ).0 == Some(planned.expression)
}

/// The fields of a compiled object have the names and the values that were
/// written for them, behind those that were there before.
pub proof fn law_fields_keep_their_names(
    env: EnvironmentModel,
    fields: Seq<ObjectFieldModel>,
    from: int,
    scope: ScopeModel,
    schema: Option<Seq<FieldSchemaModel>>,
    skip: Seq<Seq<char>>,
    notes: NotesModel,
    seen: Seq<Seq<char>>,
    done: Seq<PlanFieldModel>,
)
    requires
        0 <= from <= fields.len(),
    ensures
        ({
            let all = lower_fields(env, fields, from, scope, schema, skip, notes, seen, done).0;
            &&& done.len() <= all.len()
            &&& forall|i: int| 0 <= i < done.len() ==> #[trigger] all[i] == done[i]
            &&& forall|i: int|
                done.len() <= i < all.len() ==> comes_from(
                    env,
                    scope,
                    schema,
                    fields,
                    #[trigger] all[i],
                )
        }),
    decreases fields.len() - from,
{
    if from < fields.len() {
        let name = fields[from].name;
        let all = lower_fields(env, fields, from, scope, schema, skip, notes, seen, done).0;
        if slot_of(skip, name.value, 0) is Some {
            law_fields_keep_their_names(
                env,
                fields,
                from + 1,
                scope,
                schema,
                skip,
                notes,
                seen,
                done,
            );
        } else if seen.contains(name.value) {
            let noted = notes.with(
                "field `"@ + name.value + "` is declared more than once"@,
                name.span,
            );
            law_fields_keep_their_names(
                env,
                fields,
                from + 1,
                scope,
                schema,
                skip,
                noted,
                seen,
                done,
            );
        } else {
            let (lowered, noted) = lower_field(env, fields[from], scope, schema, notes);
            let more = match lowered {
                Some(expression) => done.push(PlanFieldModel { name: name.value, expression }),
                None => done,
            };
            law_fields_keep_their_names(
                env,
                fields,
                from + 1,
                scope,
                schema,
                skip,
                noted,
                seen.push(name.value),
                more,
            );
            assert forall|i: int| 0 <= i < done.len() implies #[trigger] all[i] == done[i] by {
                assert(all[i] == more[i]);
            }
            assert forall|i: int| done.len() <= i < all.len() implies comes_from(
                env,
                scope,
                schema,
                fields,
                #[trigger] all[i],
            ) by {
                if i < more.len() {
                    assert(all[i] == more[i]);
                    assert(lower_field(env, fields[from], scope, schema, notes).0 == Some(
                        all[i].expression,
                    ));
                }
            }
        }
    }
}

/// What `echo` shows and what `secret` marks is the one argument that they have.
pub proof fn law_single_arguments_are_kept(
    env: EnvironmentModel,
    expression: ExpressionModel,
    scope: ScopeModel,
    notes: NotesModel,
)
    requires
        expression.kind is Call,
    ensures
        expression.kind matches ExpressionKindModel::Call {
            callee,
            arguments,
            named_arguments,
            options,
        } && {
            &&& lower_echo(env, expression, scope, notes).0 matches Some(instruction) ==> (
            instruction matches InstructionModel::Echo { value, span } && arguments.len() == 1
                && becomes(env, scope, arguments[0], value))
            &&& lower_secret(env, expression, scope, notes).0 matches Some(planned) ==> (
            planned.kind matches PlanExpressionKindModel::Sensitive(value) && arguments.len() == 1
                && becomes(env, scope, arguments[0], *value))
        },
{
    if let ExpressionKindModel::Call { callee, arguments, named_arguments, options } =
        expression.kind {
        if arguments.len() == 1 {
            if let (Some(value), noted) = lower_expression(env, arguments[0], scope, notes) {
                assert(becomes(env, scope, arguments[0], value));
            }
        }
    }
}

// ---------------------------------------------------------------------------
// Complaints

/// A value of a type that is known is refused where another is asked for; one
/// whose type is not known is not.
pub proof fn law_wrong_types_are_refused(
    value: PlanExpressionModel,
    expected: SchemaTypeModel,
    span: Span,
    notes: NotesModel,
)
    ensures
        value.value_type == ValueType::Inferred ==> check_type(value, expected, span, notes)
            == notes,
        value.value_type != ValueType::Inferred && !fits(value.value_type, expected) ==> check_type(
            value,
            expected,
            span,
            notes,
        ).errors.len() == notes.errors.len() + 1,
        value.value_type != ValueType::Inferred && fits(value.value_type, expected) && !(
        expected is StringMap) ==> check_type(value, expected, span, notes) == notes,
{
}

proof fn lemma_present(
    group: Seq<Seq<char>>,
    fields: Seq<ObjectFieldModel>,
    from: int,
    done: Seq<SpannedModel>,
    at: int,
)
    requires
        0 <= from <= fields.len(),
        from <= at < fields.len() ==> group.contains(fields[at].name.value),
    ensures
        present_options(group, fields, from, done).len() >= done.len() + (if from <= at
            < fields.len() {
            1int
        } else {
            0
        }),
    decreases fields.len() - from,
{
    if from < fields.len() {
        if group.contains(fields[from].name.value) {
            lemma_present(group, fields, from + 1, done.push(fields[from].name), at);
        } else {
            lemma_present(group, fields, from + 1, done, at);
        }
    }
}

proof fn lemma_two_present(
    group: Seq<Seq<char>>,
    fields: Seq<ObjectFieldModel>,
    from: int,
    done: Seq<SpannedModel>,
    one: int,
    other: int,
)
    requires
        0 <= from <= one < other < fields.len(),
        group.contains(fields[one].name.value),
        group.contains(fields[other].name.value),
    ensures
        present_options(group, fields, from, done).len() >= done.len() + 2,
    decreases fields.len() - from,
{
    if group.contains(fields[from].name.value) {
        let more = done.push(fields[from].name);
        if from == one {
            lemma_present(group, fields, from + 1, more, other);
        } else {
            lemma_two_present(group, fields, from + 1, more, one, other);
        }
    } else {
        lemma_two_present(group, fields, from + 1, done, one, other);
    }
}

proof fn lemma_complaints_grow(
    groups: Seq<Seq<Seq<char>>>,
    from: int,
    named: Seq<ObjectFieldModel>,
    options: Seq<ObjectFieldModel>,
    notes: NotesModel,
)
    requires
        0 <= from <= groups.len(),
    ensures
        check_exclusive(groups, from, named, options, notes).errors.len() >= notes.errors.len(),
    decreases groups.len() - from,
{
    if from < groups.len() {
        let group = groups[from];
        let present = present_options(
            group,
            options,
            0,
            present_options(group, named, 0, Seq::empty()),
        );
        let noted = if present.len() > 1 {
            notes.with(
                "options "@ + crate::text::joined(
                    crate::lowering::in_backquotes(present),
                    " and "@,
                    0,
                ) + " cannot be used together"@,
                present[1].span,
            )
        } else {
            notes
        };
        lemma_complaints_grow(groups, from + 1, named, options, noted);
    }
}

/// Two options that exclude each other are refused.
pub proof fn law_exclusive_options_are_refused(
    groups: Seq<Seq<Seq<char>>>,
    from: int,
    named: Seq<ObjectFieldModel>,
    options: Seq<ObjectFieldModel>,
    notes: NotesModel,
    group: int,
    one: int,
    other: int,
)
    requires
        0 <= from <= group < groups.len(),
        0 <= one < other < options.len(),
        groups[group].contains(options[one].name.value),
        groups[group].contains(options[other].name.value),
    ensures
        check_exclusive(groups, from, named, options, notes).errors.len() > notes.errors.len(),
    decreases group - from,
{
    let present = present_options(
        groups[from],
        options,
        0,
        present_options(groups[from], named, 0, Seq::empty()),
    );
    let noted = if present.len() > 1 {
        notes.with(
            "options "@ + crate::text::joined(crate::lowering::in_backquotes(present), " and "@, 0)
                + " cannot be used together"@,
            present[1].span,
        )
    } else {
        notes
    };
    if from == group {
        let first = present_options(groups[from], named, 0, Seq::empty());
        lemma_two_present(groups[from], options, 0, first, one, other);
        lemma_complaints_grow(groups, from + 1, named, options, noted);
    } else {
        law_exclusive_options_are_refused(
            groups,
            from + 1,
            named,
            options,
            noted,
            group,
            one,
            other,
        );
    }
}

// ---------------------------------------------------------------------------
// Texts

proof fn lemma_opening(text: Seq<char>, from: int, at: int)
    requires
        0 <= from <= at <= text.len(),
        forall|i: int| from <= i < at ==> #[trigger] text[i] != '$',
        at == text.len() || at + 1 < text.len() && text[at] == '$' && text[at + 1] == '{',
    ensures
        next_opening(text, from) == at,
    decreases at - from,
{
    if from < at {
        lemma_opening(text, from + 1, at);
    }
}

/// A name between `${` and `}` is replaced by what it stands for, behind the
/// text before it and before what follows.
pub proof fn law_texts_are_split_at_names(
    env: EnvironmentModel,
    before: Seq<char>,
    path: Seq<char>,
    after: Seq<char>,
    span: Span,
    scope: ScopeModel,
    notes: NotesModel,
    value: PlanExpressionModel,
)
    requires
        !before.contains('$'),
        !path.contains('}'),
        !after.contains('$'),
        is_path(path, 0),
        lower_inserted(env, path, span, scope, notes) == (Some(value), notes),
    ensures
        ({
            let text = before + seq!['$', '{'] + path + seq!['}'] + after;
            let first = if before.len() > 0 {
                seq![StringPartModel::Text(before)]
            } else {
                Seq::empty()
            };
            let last = if after.len() > 0 {
                seq![StringPartModel::Text(after)]
            } else {
                Seq::empty()
            };
            lower_parts(env, text, 0, span, scope, notes, Seq::empty()) == (
                Some(first + seq![StringPartModel::Value(value)] + last),
                notes,
            )
        }),
{
    let text = before + seq!['$', '{'] + path + seq!['}'] + after;
    let start = before.len() as int;
    let close = start + 2 + path.len();
    let total = text.len() as int;
    assert forall|i: int| 0 <= i < start implies #[trigger] text[i] != '$' by {
        assert(text[i] == before[i]);
        assert(before.contains(before[i]));
    }
    assert(text[start] == '$' && text[start + 1] == '{');
    lemma_opening(text, 0, start);
    lemma_position_of(text, '}', start + 2);
    assert(text[close] == '}');
    let end = position_of(text, '}', start + 2);
    if end < close {
        assert(text[end] == path[end - start - 2]);
        assert(path.contains(path[end - start - 2]));
    }
    assert(end == close);
    assert(text.subrange(start + 2, end) =~= path);
    assert(text.subrange(0, start) =~= before);
    assert forall|i: int| close + 1 <= i < total implies #[trigger] text[i] != '$' by {
        assert(text[i] == after[i - close - 1]);
        assert(after.contains(after[i - close - 1]));
    }
    lemma_opening(text, close + 1, total);
    assert(text.subrange(close + 1, total) =~= after);
    let none = Seq::<StringPartModel>::empty();
    let first = if start > 0 {
        none.push(StringPartModel::Text(before))
    } else {
        none
    };
    let both = first.push(StringPartModel::Value(value));
    assert(lower_parts(env, text, 0, span, scope, notes, none) == lower_parts(
        env,
        text,
        close + 1,
        span,
        scope,
        notes,
        both,
    ));
    let whole = if after.len() > 0 {
        both.push(StringPartModel::Text(after))
    } else {
        both
    };
    assert(lower_parts(env, text, close + 1, span, scope, notes, both) == (Some(whole), notes));
    assert(whole =~= (if before.len() > 0 {
        seq![StringPartModel::Text(before)]
    } else {
        Seq::empty()
    }) + seq![StringPartModel::Value(value)] + (if after.len() > 0 {
        seq![StringPartModel::Text(after)]
    } else {
        Seq::empty()
    }));
}

// ---------------------------------------------------------------------------
// Navigation

/// A name leads to where it was bound: the last local of that name counts, and
/// the names of a loop hide all others.
pub proof fn law_names_lead_to_their_binding(
    locals: Seq<LocalModel>,
    local: LocalModel,
    key: Option<SpannedModel>,
    value: SpannedModel,
    other: Seq<char>,
)
    ensures
        local_of(locals.push(local), local.name) == Some(local),
        other != local.name ==> local_of(locals.push(local), other) == local_of(locals, other),
        local_of(with_loop(locals, key, value), value.value) matches Some(found) && found.span
            == value.span,
        key matches Some(key) ==> (key.value != value.value ==> (local_of(
            with_loop(locals, Some(key), value),
            key.value,
        ) matches Some(found) && found.span == key.span)),
{
    let more = locals.push(local);
    assert(more.last() == local && more.drop_last() =~= locals);
    let keyed = match key {
        Some(key) => locals.push(LocalModel { name: key.value, span: key.span, bound: false }),
        None => locals,
    };
    let valued = LocalModel { name: value.value, span: value.span, bound: false };
    let all = with_loop(locals, key, value);
    assert(all.last() == valued && all.drop_last() =~= keyed);
    if let Some(key) = key {
        assert(keyed.len() > 0 && keyed.last().name == key.value);
        assert(local_of(keyed, key.value) == Some(keyed.last()));
        if key.value != value.value {
            assert(local_of(all, key.value) == local_of(keyed, key.value));
        }
    }
}

/// Who asks for the definition of a name that is returned is led to the place
/// where the statement before has bound it.
pub proof fn law_returned_names_lead_to_their_binding(
    question: QuestionModel,
    bound: SpannedModel,
    expression: ExpressionModel,
    used: Span,
    one: Span,
    two: Span,
    locals: Seq<LocalModel>,
    home: HomeModel,
)
    requires
        !bound.value.contains('.'),
        !question.at(bound.span),
        question.in_expression(expression, locals, Some(home)) is None,
        question.at(used),
    ensures
        question.in_statements(
            seq![
                StatementModel::Bind { name: bound, expression, span: one },
                StatementModel::Return {
                    expression: ExpressionModel {
                        kind: ExpressionKindModel::Name(bound.value),
                        span: used,
                    },
                    span: two,
                },
            ],
            0,
            locals,
            home,
        ) == Some(bound.span),
{
    let name = ExpressionModel { kind: ExpressionKindModel::Name(bound.value), span: used };
    let first = StatementModel::Bind { name: bound, expression, span: one };
    let second = StatementModel::Return { expression: name, span: two };
    let both = seq![first, second];
    let local = LocalModel { name: bound.value, span: bound.span, bound: true };
    let more = locals.push(local);
    assert(both[0] == first && both[1] == second);
    lemma_position_of(bound.value, '.', 0);
    let dot = position_of(bound.value, '.', 0);
    if dot < bound.value.len() {
        assert(bound.value.contains(bound.value[dot]));
    }
    assert(root_of(bound.value) =~= bound.value);
    assert(more.last() == local);
    assert(question.in_expression(name, more, Some(home)) == Some(bound.span));
    assert(question.in_statement(second, more, home) == Answer::Final(Some(bound.span)));
    assert(question.in_statements(both, 1, more, home) == Some(bound.span));
    assert(question.in_statement(first, locals, home) == Answer::Open);
}

// ---------------------------------------------------------------------------
// Flows

/// A compiled flow is of the kind, has the parameters and stands in the place of
/// what was declared; flows are found by their name, tests are not.
pub proof fn law_flows_keep_what_they_are(
    env: EnvironmentModel,
    id: int,
    notes: NotesModel,
    at: int,
)
    ensures
        ({
            let flow = env.program.flows[id];
            let planned = plan_flow(env, id, notes).0;
            &&& planned.kind == flow.kind
            &&& planned.span == flow.span
            &&& planned.parameters.len() == flow.parameters.len()
            &&& 0 <= at < flow.parameters.len() ==> planned.parameters[at]
                == flow.parameters[at].value
            &&& flow.kind == DeclarationKind::Test ==> planned.name is None
            &&& flow.kind == DeclarationKind::Flow ==> (flow.name matches Some(name)
                ==> planned.name == Some(planned.display_name) && (flow.namespace.len() == 0
                ==> planned.display_name == name.value))
            &&& flow.name is None ==> planned.name is None
        }),
{
}

/// Flows are compiled in their order.
pub proof fn law_flows_keep_their_order(
    env: EnvironmentModel,
    from: int,
    notes: NotesModel,
    done: Seq<MettlePlanModel>,
)
    requires
        0 <= from <= env.program.flows.len(),
    ensures
        ({
            let all = plan_flows(env, from, notes, done).0;
            &&& all.len() == done.len() + env.program.flows.len() - from
            &&& forall|i: int| 0 <= i < done.len() ==> #[trigger] all[i] == done[i]
            &&& from < env.program.flows.len() ==> all[done.len() as int] == plan_flow(
                env,
                from,
                notes,
            ).0
        }),
    decreases env.program.flows.len() - from,
{
    if from < env.program.flows.len() {
        let (flow, noted) = plan_flow(env, from, notes);
        let more = done.push(flow);
        law_flows_keep_their_order(env, from + 1, noted, more);
        let all = plan_flows(env, from, notes, done).0;
        assert forall|i: int| 0 <= i < done.len() implies #[trigger] all[i] == done[i] by {
            assert(all[i] == more[i]);
        }
        assert(all[done.len() as int] == more[done.len() as int]);
    }
}

/// A rate is refused where it would start too many at once or in all, or none.
pub proof fn law_rates_are_bounded(
    target: usize,
    period: Duration,
    duration: Duration,
    limit: usize,
)
    requires
        target > 0,
        period.nanos > 0,
    ensures
        rate_fault(target, period, duration, limit) is None <==> target <= 1_000_000 && limit
            <= 100_000 && duration.nanos * target <= u128::MAX && 1 <= planned_iterations(
            target as nat,
            period,
            duration,
        ) <= 100_000_000,
{
    assert(duration.nanos * target >= 0) by (nonlinear_arith);
}

} // verus!
