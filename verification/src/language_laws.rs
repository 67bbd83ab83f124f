//! What names and calls mean, wherever they stand.

use vstd::prelude::*;

use crate::assembly::{
    check_parameters, compiled, context_of_file, context_of_flow, environment_of, flattened,
    listed_context, plan_contexts, plan_flow, plan_flows,
};
use crate::capability::CapabilityModel;
use crate::definition::{name_span, root_of, HomeModel, LocalModel, QuestionModel};
use crate::lowering::{
    lower_call, lower_expression, lower_inserted, lower_secret, plan, resolved, slot_of,
    EnvironmentModel, NotesModel, ScopeModel,
};
use crate::names::{id_of, resolution, ResolutionModel};
use crate::plan::{MettlePlanModel, PlanExpressionKindModel, ValueType};
use crate::syntax::{
    ExpressionKindModel, ExpressionModel, MettleDeclModel, ProgramModel, Span, SpannedModel,
    StatementModel,
};
use crate::text::{lemma_position_of, position_of, split_at};

verus! {

/// The call of a function with one argument.
pub open spec fn call_of(name: Seq<char>, argument: ExpressionModel, span: Span) -> ExpressionModel {
    ExpressionModel {
        kind: ExpressionKindModel::Call {
            callee: SpannedModel { value: name, span },
            arguments: seq![argument],
            named_arguments: Seq::empty(),
            options: Seq::empty(),
        },
        span,
    }
}

/// `senv(x)` is short for `secret(env(x))`, whatever `x` is.
pub proof fn law_senv_is_secret_env(
    env: EnvironmentModel,
    argument: ExpressionModel,
    span: Span,
    scope: ScopeModel,
    notes: NotesModel,
)
    ensures
        lower_expression(env, call_of("senv"@, argument, span), scope, notes) == lower_expression(
            env,
            call_of("secret"@, call_of("env"@, argument, span), span),
            scope,
            notes,
        ),
{
    reveal_strlit("env");
    reveal_strlit("senv");
    reveal_strlit("secret");
    let inner = call_of("env"@, argument, span);
    let long = call_of("secret"@, inner, span);
    let short = call_of("senv"@, argument, span);
    assert("env"@.len() == 3 && "senv"@.len() == 4 && "secret"@.len() == 6);
    assert(lower_expression(env, short, scope, notes) == lower_call(env, short, scope, notes));
    assert(lower_expression(env, long, scope, notes) == lower_call(env, long, scope, notes));
    assert(lower_call(env, long, scope, notes) == lower_secret(env, long, scope, notes));
    assert(lower_expression(env, inner, scope, notes) == lower_call(env, inner, scope, notes));
}

/// `env` of a name is the variable of that name, as it is; `senv` of it, and
/// `secret` of that variable, mark it as sensitive. Nothing is complained about.
pub proof fn law_variables_may_be_sensitive(
    env: EnvironmentModel,
    name: Seq<char>,
    place: Span,
    inner: Span,
    span: Span,
    scope: ScopeModel,
    notes: NotesModel,
)
    ensures
        ({
            let argument = ExpressionModel { kind: ExpressionKindModel::String(name), span: place };
            let short = lower_call(env, call_of("senv"@, argument, span), scope, notes);
            let plain = lower_call(env, call_of("env"@, argument, inner), scope, notes);
            let long = lower_call(
                env,
                call_of("secret"@, call_of("env"@, argument, inner), span),
                scope,
                notes,
            );
            let variable = |place: Span|
                plan(PlanExpressionKindModel::Environment(name), ValueType::String, place);
            let hidden = |place: Span|
                plan(
                    PlanExpressionKindModel::Sensitive(Box::new(variable(place))),
                    ValueType::String,
                    span,
                );
            &&& plain == (Some(variable(inner)), notes)
            &&& short == (Some(hidden(span)), notes)
            &&& long == (Some(hidden(inner)), notes)
        }),
{
    reveal_strlit("env");
    reveal_strlit("senv");
    reveal_strlit("secret");
    let argument = ExpressionModel { kind: ExpressionKindModel::String(name), span: place };
    let variable = call_of("env"@, argument, inner);
    let long = call_of("secret"@, variable, span);
    assert("env"@.len() == 3 && "senv"@.len() == 4 && "secret"@.len() == 6);
    assert(lower_call(env, long, scope, notes) == lower_secret(env, long, scope, notes));
    assert(lower_expression(env, variable, scope, notes) == lower_call(
        env,
        variable,
        scope,
        notes,
    ));
}

/// A name inside a text means a local or a parameter of the flow, else a field
/// of the context, else a variable of the environment.
pub proof fn law_inserted_names(
    env: EnvironmentModel,
    name: Seq<char>,
    span: Span,
    scope: ScopeModel,
    notes: NotesModel,
)
    requires
        !name.contains('.'),
    ensures
        ({
            let (value, noted) = lower_inserted(env, name, span, scope, notes);
            let field = match scope.context {
                Some(context) => slot_of(env.fields[context], name, 0),
                None => None,
            };
            &&& noted == notes
            &&& value is Some
            &&& value->0.kind == (match (id_of(scope.locals, name), field) {
                (Some(slot), _) => PlanExpressionKindModel::Local(slot),
                (None, Some(slot)) => PlanExpressionKindModel::Context(slot),
                (None, None) => PlanExpressionKindModel::Environment(name),
            })
        }),
{
    lemma_no_dot(name, 0);
    assert(root_of(name) =~= name);
}

proof fn lemma_no_dot(name: Seq<char>, from: int)
    requires
        !name.contains('.'),
        0 <= from <= name.len(),
    ensures
        position_of(name, '.', from) == name.len(),
    decreases name.len() - from,
{
    if from < name.len() {
        assert(name[from] != '.');
        lemma_no_dot(name, from + 1);
    }
}

// ---------------------------------------------------------------------------
// Contexts

pub open spec fn no_notes() -> NotesModel {
    NotesModel { errors: Seq::empty(), edges: Seq::empty() }
}

/// The context that a flow uses at its entry, from statement `from` on, else
/// `active`.
pub open spec fn entry_context(
    env: EnvironmentModel,
    flow: MettleDeclModel,
    from: int,
    active: Option<int>,
) -> Option<int>
    decreases flow.body.len() - from,
{
    if from < 0 || from >= flow.body.len() {
        active
    } else {
        match flow.body[from] {
            StatementModel::UseContext { name, span } => match resolution(
                env.contexts,
                name.value,
                flow.namespace,
                flow.namespace_uses,
            ) {
                ResolutionModel::Found(context) => Some(context),
                _ => entry_context(env, flow, from + 1, active),
            },
            _ => active,
        }
    }
}

proof fn lemma_entry_context(
    env: EnvironmentModel,
    flow: MettleDeclModel,
    from: int,
    executable: bool,
    chosen: bool,
    active: Option<int>,
    notes: NotesModel,
)
    ensures
        context_of_flow(env, flow, from, executable, chosen, active, notes).0 == (if executable
            || chosen {
            active
        } else {
            entry_context(env, flow, from, active)
        }),
    decreases flow.body.len() - from,
{
    if 0 <= from < flow.body.len() {
        let next = from + 1;
        match flow.body[from] {
            StatementModel::UseContext { name, span } => if executable {
                let noted = notes.with(
                    "`use context` must appear before executable statements"@,
                    span,
                );
                lemma_entry_context(env, flow, next, executable, chosen, active, noted);
            } else {
                match resolved(
                    env.contexts,
                    "context"@,
                    name.value,
                    flow.namespace,
                    flow.namespace_uses,
                    name.span,
                    notes,
                ) {
                    (None, noted) => {
                        lemma_entry_context(env, flow, next, executable, chosen, active, noted);
                    },
                    (Some(context), noted) => if chosen {
                        let last = noted.with(
                            "a flow may apply one context; compose reusable contexts in a context declaration"@,
                            span,
                        );
                        lemma_entry_context(env, flow, next, executable, chosen, active, last);
                    } else {
                        lemma_entry_context(
                            env,
                            flow,
                            next,
                            executable,
                            true,
                            Some(context),
                            noted,
                        );
                    },
                }
            },
            _ => {
                lemma_entry_context(env, flow, next, true, chosen, active, notes);
            },
        }
    }
}

spec fn runs_in(env: EnvironmentModel, id: int, plan: MettlePlanModel) -> bool {
    let flow = env.program.flows[id];
    plan.contexts == listed_context(
        entry_context(env, flow, 0, context_of_file(env, flow, no_notes()).0),
    )
}

proof fn lemma_flows(
    env: EnvironmentModel,
    from: int,
    notes: NotesModel,
    done: Seq<MettlePlanModel>,
)
    requires
        0 <= from <= env.program.flows.len(),
        done.len() == from,
        forall|i: int| 0 <= i < done.len() ==> runs_in(env, i, #[trigger] done[i]),
    ensures
        ({
            let flows = plan_flows(env, from, notes, done).0;
            &&& flows.len() == env.program.flows.len()
            &&& forall|i: int| 0 <= i < flows.len() ==> runs_in(env, i, #[trigger] flows[i])
        }),
    decreases env.program.flows.len() - from,
{
    if from < env.program.flows.len() {
        let flow = env.program.flows[from];
        let (file, filed) = context_of_file(env, flow, notes);
        let checked = check_parameters(flow.parameters, flow.parameters.len() as int, filed);
        lemma_entry_context(env, flow, 0, false, false, file, checked);
        assert(file == context_of_file(env, flow, no_notes()).0);
        let (planned, noted) = plan_flow(env, from, notes);
        assert(runs_in(env, from, planned));
        lemma_flows(env, from + 1, noted, done.push(planned));
    }
}

/// A flow or a test runs in the context that it uses at its entry. Where it
/// uses none, it runs in the one that its file applies, wherever in the file
/// that is said.
pub proof fn law_flows_run_in_their_context(
    program: ProgramModel,
    capabilities: Seq<CapabilityModel>,
    id: int,
)
    requires
        0 <= id < program.flows.len(),
    ensures
        ({
            let env = environment_of(program, capabilities);
            let flow = program.flows[id];
            let file = context_of_file(env, flow, no_notes()).0;
            compiled(program, capabilities) matches Ok(plan) ==> {
                &&& plan.flows.len() == program.flows.len()
                &&& plan.flows[id].contexts == listed_context(entry_context(env, flow, 0, file))
            }
        }),
{
    let env = environment_of(program, capabilities);
    let flat = flattened(program, capabilities);
    let noted = plan_contexts(env, flat.cache, 0, flat.notes, Seq::empty()).1;
    lemma_flows(env, 0, noted, Seq::empty());
    if compiled(program, capabilities) is Ok {
        assert(runs_in(env, id, compiled(program, capabilities)->Ok_0.flows[id]));
    }
}

// ---------------------------------------------------------------------------
// Navigation

/// From a call one gets to the flow that the compiled call runs.
pub proof fn law_navigation_follows_calls(
    program: ProgramModel,
    capabilities: Seq<CapabilityModel>,
    question: QuestionModel,
    expression: ExpressionModel,
    locals: Seq<LocalModel>,
    scope: ScopeModel,
    notes: NotesModel,
)
    requires
        question.program == program,
        expression.kind is Call,
        question.at(expression.kind->callee.span),
        scope.flow is Some,
    ensures
        ({
            let env = environment_of(program, capabilities);
            let current = program.flows[scope.flow->0];
            let home = HomeModel {
                namespace: current.namespace,
                uses: current.namespace_uses,
            };
            lower_expression(env, expression, scope, notes).0 matches Some(value) ==> (
            value.kind matches PlanExpressionKindModel::MettleCall { flow, .. }
                ==> question.in_expression(expression, locals, Some(home)) == name_span(
                program.flows[flow].name,
            ))
        }),
{
    let env = environment_of(program, capabilities);
    let callee = expression.kind->callee;
    assert(lower_expression(env, expression, scope, notes) == lower_call(
        env,
        expression,
        scope,
        notes,
    ));
    if split_at(callee.value, '.') is None {
        lemma_position_of(callee.value, '.', 0);
        assert(!callee.value.contains('.'));
    }
}

} // verus!
