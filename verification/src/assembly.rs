//! What a whole program becomes: contexts put together, flows and tests
//! lowered, and calls kept free of cycles.

use vstd::prelude::*;

use crate::capability::CapabilityModel;
use crate::definition::{context_table, flow_table};
use crate::lowering::{
    lower_expression, lower_fields, lower_row, name_values, resolved, EdgeModel, EnvironmentModel,
    NotesModel, RowModel, ScopeModel,
};
use crate::names::{display_name, id_of, qualified, NameTable};
use crate::plan::{
    CapabilityDefaultsModel, ContextPlanModel, ExecutionPlanModel, MettlePlanModel, PlanFieldModel,
};
use crate::syntax::{
    ContextDeclModel, ContextMemberModel, DeclarationKind, ErrorModel, FileContextUseModel,
    MettleDeclModel, ObjectFieldModel, ProgramModel, Span, SpannedModel, StatementModel,
};
use crate::text::{decimal, joined};

verus! {

// ---------------------------------------------------------------------------
// Declared names

/// The names of the capabilities up to `count`.
pub open spec fn capability_table(capabilities: Seq<CapabilityModel>, count: int) -> NameTable
    decreases count,
{
    if count <= 0 {
        Seq::empty()
    } else {
        capability_table(capabilities, count - 1).push((capabilities[count - 1].name, count - 1))
    }
}

pub open spec fn no_place() -> Span {
    Span { source: 0, start: 0, end: 0 }
}

/// Complaints about capabilities that are registered twice, up to `count`.
pub open spec fn check_capabilities(
    capabilities: Seq<CapabilityModel>,
    count: int,
    notes: NotesModel,
) -> NotesModel
    decreases count,
{
    if count <= 0 {
        notes
    } else {
        let name = capabilities[count - 1].name;
        check_capabilities(capabilities, count - 1, notes).unless(
            id_of(capability_table(capabilities, count - 1), name) is None,
            "capability `"@ + name + "` is registered more than once"@,
            no_place(),
        )
    }
}

/// Complaints about contexts that are declared twice, up to `count`.
pub open spec fn check_contexts(
    contexts: Seq<ContextDeclModel>,
    count: int,
    notes: NotesModel,
) -> NotesModel
    decreases count,
{
    if count <= 0 {
        notes
    } else {
        let before = check_contexts(contexts, count - 1, notes);
        match contexts[count - 1].name {
            None => before,
            Some(name) => {
                let whole = qualified(contexts[count - 1].namespace, name.value);
                before.unless(
                    id_of(context_table(contexts, count - 1), whole) is None,
                    "context `"@ + whole + "` is declared more than once"@,
                    name.span,
                )
            },
        }
    }
}

/// Whether a test of that name stands in the source before position `count`.
pub open spec fn test_before(
    flows: Seq<MettleDeclModel>,
    count: int,
    source: usize,
    name: Seq<char>,
) -> bool
    decreases count,
{
    if count <= 0 {
        false
    } else {
        let flow = flows[count - 1];
        test_before(flows, count - 1, source, name) || (flow.kind == DeclarationKind::Test
            && flow.span.source == source && flow.name is Some && flow.name->0.value == name)
    }
}

/// Complaints about flows and tests that are declared twice, up to `count`.
pub open spec fn check_flows(
    flows: Seq<MettleDeclModel>,
    count: int,
    notes: NotesModel,
) -> NotesModel
    decreases count,
{
    if count <= 0 {
        notes
    } else {
        let before = check_flows(flows, count - 1, notes);
        let flow = flows[count - 1];
        match flow.name {
            None => before,
            Some(name) => if flow.kind == DeclarationKind::Test {
                before.unless(
                    !test_before(flows, count - 1, flow.span.source, name.value),
                    "test `"@ + name.value + "` is declared more than once in this file"@,
                    name.span,
                )
            } else {
                let whole = qualified(flow.namespace, name.value);
                before.unless(
                    name.value != "echo"@,
                    "`echo` is reserved and cannot name a flow"@,
                    name.span,
                ).unless(
                    id_of(flow_table(flows, count - 1), whole) is None,
                    "flow `"@ + whole + "` is declared more than once"@,
                    name.span,
                )
            },
        }
    }
}

/// Whether a context is applied to the source before position `count`.
pub open spec fn applied_before(
    uses: Seq<FileContextUseModel>,
    count: int,
    source: usize,
) -> bool
    decreases count,
{
    if count <= 0 {
        false
    } else {
        applied_before(uses, count - 1, source) || uses[count - 1].span().source == source
    }
}

/// Complaints about files that apply several contexts, up to `count`.
pub open spec fn check_file_contexts(
    uses: Seq<FileContextUseModel>,
    count: int,
    notes: NotesModel,
) -> NotesModel
    decreases count,
{
    if count <= 0 {
        notes
    } else {
        check_file_contexts(uses, count - 1, notes).unless(
            !applied_before(uses, count - 1, uses[count - 1].span().source),
            "a file may apply only one default context until context composition is available"@,
            uses[count - 1].span(),
        )
    }
}

// ---------------------------------------------------------------------------
// Contexts

/// What a context holds with all the contexts that it uses.
pub struct FlatModel {
    pub fields: Seq<ObjectFieldModel>,
    pub defaults: Seq<(SpannedModel, Seq<ObjectFieldModel>)>,
}

pub open spec fn flat_nothing() -> FlatModel {
    FlatModel { fields: Seq::empty(), defaults: Seq::empty() }
}

#[derive(Clone, Copy, PartialEq, Eq, Structural)]
pub enum VisitState {
    Unvisited,
    Visiting,
    Complete,
}

/// How far the contexts are put together.
pub struct FlatteningModel {
    pub states: Seq<VisitState>,
    pub cache: Seq<FlatModel>,
    pub notes: NotesModel,
}

impl FlatteningModel {
    pub open spec fn noting(self, notes: NotesModel) -> FlatteningModel {
        FlatteningModel { notes, ..self }
    }

    pub open spec fn entering(self, id: int) -> FlatteningModel {
        FlatteningModel { states: self.states.update(id, VisitState::Visiting), ..self }
    }

    pub open spec fn leaving(self, id: int, flat: FlatModel, notes: NotesModel) -> FlatteningModel {
        FlatteningModel {
            states: self.states.update(id, VisitState::Complete),
            cache: self.cache.update(id, flat),
            notes,
        }
    }
}

/// The fields with one more; a field of the same name gives way to it.
pub open spec fn with_field(
    fields: Seq<ObjectFieldModel>,
    field: ObjectFieldModel,
    from: int,
) -> Seq<ObjectFieldModel>
    decreases fields.len() - from,
{
    if from < 0 || from >= fields.len() {
        fields.push(field)
    } else if fields[from].name.value == field.name.value {
        fields.update(from, field)
    } else {
        with_field(fields, field, from + 1)
    }
}

/// The fields with the others from `from` on.
pub open spec fn with_fields(
    fields: Seq<ObjectFieldModel>,
    others: Seq<ObjectFieldModel>,
    from: int,
) -> Seq<ObjectFieldModel>
    decreases others.len() - from,
{
    if from < 0 || from >= others.len() {
        fields
    } else {
        with_fields(with_field(fields, others[from], 0), others, from + 1)
    }
}

pub open spec fn context_name(contexts: Seq<ContextDeclModel>, id: int) -> Seq<char> {
    match contexts[id].name {
        Some(name) => qualified(contexts[id].namespace, name.value),
        None => "<anonymous context at "@ + decimal(contexts[id].span.source as nat) + ":"@
            + decimal(contexts[id].span.start as nat) + ">"@,
    }
}

/// The position of the number in the stack, from `from` on, else 0.
pub open spec fn place_in(stack: Seq<int>, id: int, from: int) -> int
    decreases stack.len() - from,
{
    if from < 0 || from >= stack.len() {
        0
    } else if stack[from] == id {
        from
    } else {
        place_in(stack, id, from + 1)
    }
}

/// The names of the contexts that lead from `id` back to it.
pub open spec fn cycle_names(
    contexts: Seq<ContextDeclModel>,
    stack: Seq<int>,
    id: int,
) -> Seq<Seq<char>> {
    let start = place_in(stack, id, 0);
    Seq::new(
        (stack.len() - start + 1) as nat,
        |i: int|
            context_name(
                contexts,
                if start + i < stack.len() {
                    stack[start + i]
                } else {
                    id
                },
            ),
    )
}

/// Puts context `id` together; `stack` holds the contexts on the way to it.
pub open spec fn flatten(
    contexts: Seq<ContextDeclModel>,
    names: NameTable,
    id: int,
    stack: Seq<int>,
    state: FlatteningModel,
) -> (FlatModel, FlatteningModel)
    decreases contexts.len() - stack.len(), 0int,
{
    match state.states[id] {
        VisitState::Complete => (state.cache[id], state),
        VisitState::Visiting => (
            flat_nothing(),
            state.noting(
                state.notes.with(
                    "context composition cycle: "@ + joined(
                        cycle_names(contexts, stack, id),
                        " -> "@,
                        0,
                    ),
                    contexts[id].span,
                ),
            ),
        ),
        VisitState::Unvisited => if stack.len() >= contexts.len() {
            (flat_nothing(), state)
        } else {
            let (used, after) = flatten_uses(
                contexts,
                names,
                contexts[id],
                0,
                stack.push(id),
                state.entering(id),
                flat_nothing(),
            );
            let (flat, notes) = own_members(
                contexts[id].members,
                0,
                Seq::empty(),
                Seq::empty(),
                used,
                after.notes,
            );
            (flat, after.leaving(id, flat, notes))
        },
    }
}

/// Puts together the contexts that a context uses, from member `from` on.
pub open spec fn flatten_uses(
    contexts: Seq<ContextDeclModel>,
    names: NameTable,
    context: ContextDeclModel,
    from: int,
    stack: Seq<int>,
    state: FlatteningModel,
    flat: FlatModel,
) -> (FlatModel, FlatteningModel)
    decreases contexts.len() - stack.len(), context.members.len() - from + 1,
{
    if from < 0 || from >= context.members.len() {
        (flat, state)
    } else {
        match context.members[from] {
            ContextMemberModel::UseContext { name, span } => match resolved(
                names,
                "context"@,
                name.value,
                context.namespace,
                context.namespace_uses,
                name.span,
                state.notes,
            ) {
                (None, notes) => flatten_uses(
                    contexts,
                    names,
                    context,
                    from + 1,
                    stack,
                    state.noting(notes),
                    flat,
                ),
                (Some(parent), notes) => {
                    let (used, after) = flatten(
                        contexts,
                        names,
                        parent,
                        stack,
                        state.noting(notes),
                    );
                    flatten_uses(
                        contexts,
                        names,
                        context,
                        from + 1,
                        stack,
                        after,
                        FlatModel {
                            fields: with_fields(flat.fields, used.fields, 0),
                            defaults: flat.defaults + used.defaults,
                        },
                    )
                },
            },
            _ => flatten_uses(contexts, names, context, from + 1, stack, state, flat),
        }
    }
}

/// A context with its own members from `from` on.
pub open spec fn own_members(
    members: Seq<ContextMemberModel>,
    from: int,
    fields: Seq<Seq<char>>,
    defaults: Seq<Seq<char>>,
    flat: FlatModel,
    notes: NotesModel,
) -> (FlatModel, NotesModel)
    decreases members.len() - from,
{
    if from < 0 || from >= members.len() {
        (flat, notes)
    } else {
        match members[from] {
            ContextMemberModel::Field(field) => if fields.contains(field.name.value) {
                own_members(
                    members,
                    from + 1,
                    fields,
                    defaults,
                    flat,
                    notes.with(
                        "context field `"@ + field.name.value + "` is declared more than once"@,
                        field.name.span,
                    ),
                )
            } else {
                own_members(
                    members,
                    from + 1,
                    fields.push(field.name.value),
                    defaults,
                    FlatModel { fields: with_field(flat.fields, field, 0), ..flat },
                    notes,
                )
            },
            ContextMemberModel::Defaults { capability, fields: given, span } =>
                if defaults.contains(capability.value) {
                    own_members(
                        members,
                        from + 1,
                        fields,
                        defaults,
                        flat,
                        notes.with(
                            "defaults for `"@ + capability.value
                                + "` are declared more than once in this context"@,
                            capability.span,
                        ),
                    )
                } else {
                    own_members(
                        members,
                        from + 1,
                        fields,
                        defaults.push(capability.value),
                        FlatModel { defaults: flat.defaults.push((capability, given)), ..flat },
                        notes,
                    )
                },
            ContextMemberModel::UseContext { name, span } => own_members(
                members,
                from + 1,
                fields,
                defaults,
                flat,
                notes,
            ),
        }
    }
}

/// Puts the contexts from `from` on together.
pub open spec fn flatten_all(
    contexts: Seq<ContextDeclModel>,
    names: NameTable,
    from: int,
    state: FlatteningModel,
) -> FlatteningModel
    decreases contexts.len() - from,
{
    if from < 0 || from >= contexts.len() {
        state
    } else {
        flatten_all(
            contexts,
            names,
            from + 1,
            flatten(contexts, names, from, Seq::empty(), state).1,
        )
    }
}

/// Nothing is put together yet.
pub open spec fn unflattened(count: nat, notes: NotesModel) -> FlatteningModel {
    FlatteningModel {
        states: Seq::new(count, |i: int| VisitState::Unvisited),
        cache: Seq::new(count, |i: int| flat_nothing()),
        notes,
    }
}

pub open spec fn field_names(fields: Seq<ObjectFieldModel>) -> Seq<Seq<char>> {
    Seq::new(fields.len(), |i: int| fields[i].name.value)
}

pub open spec fn all_field_names(cache: Seq<FlatModel>) -> Seq<Seq<Seq<char>>> {
    Seq::new(cache.len(), |i: int| field_names(cache[i].fields))
}

/// The scope in which the values of a context are computed.
pub open spec fn context_scope(id: int) -> ScopeModel {
    ScopeModel { flow: None, test: false, locals: Seq::empty(), slots: 0, context: Some(id) }
}

pub open spec fn plan_context_fields(
    env: EnvironmentModel,
    fields: Seq<ObjectFieldModel>,
    from: int,
    id: int,
    notes: NotesModel,
    done: Seq<PlanFieldModel>,
) -> (Seq<PlanFieldModel>, NotesModel)
    decreases fields.len() - from,
{
    if from < 0 || from >= fields.len() {
        (done, notes)
    } else {
        let (lowered, noted) = lower_expression(
            env,
            fields[from].expression,
            context_scope(id),
            notes,
        );
        plan_context_fields(
            env,
            fields,
            from + 1,
            id,
            noted,
            match lowered {
                Some(expression) => done.push(
                    PlanFieldModel { name: fields[from].name.value, expression },
                ),
                None => done,
            },
        )
    }
}

pub open spec fn plan_defaults(
    env: EnvironmentModel,
    defaults: Seq<(SpannedModel, Seq<ObjectFieldModel>)>,
    from: int,
    id: int,
    notes: NotesModel,
    done: Seq<CapabilityDefaultsModel>,
) -> (Seq<CapabilityDefaultsModel>, NotesModel)
    decreases defaults.len() - from,
{
    if from < 0 || from >= defaults.len() {
        (done, notes)
    } else {
        let (capability, fields) = defaults[from];
        match id_of(env.capability_names, capability.value) {
            None => plan_defaults(
                env,
                defaults,
                from + 1,
                id,
                notes.with(
                    "capability `"@ + capability.value + "` is not registered"@,
                    capability.span,
                ),
                done,
            ),
            Some(capability_id) => {
                let (lowered, seen, noted) = lower_fields(
                    env,
                    fields,
                    0,
                    context_scope(id),
                    Some(env.capabilities[capability_id].defaults),
                    Seq::empty(),
                    notes,
                    Seq::empty(),
                    Seq::empty(),
                );
                plan_defaults(
                    env,
                    defaults,
                    from + 1,
                    id,
                    noted,
                    done.push(
                        CapabilityDefaultsModel { capability: capability_id, fields: lowered },
                    ),
                )
            },
        }
    }
}

pub open spec fn plan_context(
    env: EnvironmentModel,
    flat: FlatModel,
    id: int,
    notes: NotesModel,
) -> (ContextPlanModel, NotesModel) {
    let (fields, noted) = plan_context_fields(env, flat.fields, 0, id, notes, Seq::empty());
    let (defaults, last) = plan_defaults(env, flat.defaults, 0, id, noted, Seq::empty());
    (ContextPlanModel { name: context_name(env.program.contexts, id), fields, defaults }, last)
}

pub open spec fn plan_contexts(
    env: EnvironmentModel,
    cache: Seq<FlatModel>,
    from: int,
    notes: NotesModel,
    done: Seq<ContextPlanModel>,
) -> (Seq<ContextPlanModel>, NotesModel)
    decreases cache.len() - from,
{
    if from < 0 || from >= cache.len() {
        (done, notes)
    } else {
        let (context, noted) = plan_context(env, cache[from], from, notes);
        plan_contexts(env, cache, from + 1, noted, done.push(context))
    }
}

// ---------------------------------------------------------------------------
// Flows

/// The context that a file applies, from use `from` on.
pub open spec fn file_context(uses: Seq<FileContextUseModel>, source: usize, from: int) -> Option<
    FileContextUseModel,
>
    decreases uses.len() - from,
{
    if from < 0 || from >= uses.len() {
        None
    } else if uses[from].span().source == source {
        Some(uses[from])
    } else {
        file_context(uses, source, from + 1)
    }
}

/// The position of the unnamed context at the span, from `from` on.
pub open spec fn inline_context(contexts: Seq<ContextDeclModel>, span: Span, from: int) -> Option<
    int,
>
    decreases contexts.len() - from,
{
    if from < 0 || from >= contexts.len() {
        None
    } else if contexts[from].name is None && contexts[from].span == span {
        Some(from)
    } else {
        inline_context(contexts, span, from + 1)
    }
}

/// The context that the file of a flow applies to it.
pub open spec fn context_of_file(
    env: EnvironmentModel,
    flow: MettleDeclModel,
    notes: NotesModel,
) -> (Option<int>, NotesModel) {
    match file_context(env.program.file_contexts, flow.span.source, 0) {
        None => (None, notes),
        Some(FileContextUseModel::Inline(span)) => (
            inline_context(env.program.contexts, span, 0),
            notes,
        ),
        Some(FileContextUseModel::Named(name)) => resolved(
            env.contexts,
            "context"@,
            name.value,
            flow.namespace,
            flow.namespace_uses,
            name.span,
            notes,
        ),
    }
}

/// Complaints about parameters that are declared twice, up to `count`.
pub open spec fn check_parameters(
    parameters: Seq<SpannedModel>,
    count: int,
    notes: NotesModel,
) -> NotesModel
    decreases count,
{
    if count <= 0 {
        notes
    } else {
        let parameter = parameters[count - 1];
        check_parameters(parameters, count - 1, notes).unless(
            id_of(parameter_table(parameters, count - 1), parameter.value) is None,
            "parameter `"@ + parameter.value + "` is declared more than once"@,
            parameter.span,
        )
    }
}

/// The slots of the parameters up to `count`.
pub open spec fn parameter_table(parameters: Seq<SpannedModel>, count: int) -> NameTable
    decreases count,
{
    if count <= 0 {
        Seq::empty()
    } else {
        parameter_table(parameters, count - 1).push((parameters[count - 1].value, count - 1))
    }
}

/// The context that a flow runs in: what it uses from statement `from` on,
/// else `active`.
pub open spec fn context_of_flow(
    env: EnvironmentModel,
    flow: MettleDeclModel,
    from: int,
    executable: bool,
    chosen: bool,
    active: Option<int>,
    notes: NotesModel,
) -> (Option<int>, NotesModel)
    decreases flow.body.len() - from,
{
    if from < 0 || from >= flow.body.len() {
        (active, notes)
    } else {
        match flow.body[from] {
            StatementModel::UseContext { name, span } => if executable {
                context_of_flow(
                    env,
                    flow,
                    from + 1,
                    executable,
                    chosen,
                    active,
                    notes.with("`use context` must appear before executable statements"@, span),
                )
            } else {
                match resolved(
                    env.contexts,
                    "context"@,
                    name.value,
                    flow.namespace,
                    flow.namespace_uses,
                    name.span,
                    notes,
                ) {
                    (None, noted) => context_of_flow(
                        env,
                        flow,
                        from + 1,
                        executable,
                        chosen,
                        active,
                        noted,
                    ),
                    (Some(context), noted) => if chosen {
                        context_of_flow(
                            env,
                            flow,
                            from + 1,
                            executable,
                            chosen,
                            active,
                            noted.with(
                                "a flow may apply one context; compose reusable contexts in a context declaration"@,
                                span,
                            ),
                        )
                    } else {
                        context_of_flow(
                            env,
                            flow,
                            from + 1,
                            executable,
                            true,
                            Some(context),
                            noted,
                        )
                    },
                }
            },
            _ => context_of_flow(env, flow, from + 1, true, chosen, active, notes),
        }
    }
}

pub open spec fn listed_context(context: Option<int>) -> Seq<int> {
    match context {
        Some(context) => seq![context],
        None => Seq::empty(),
    }
}

pub open spec fn plan_flow(env: EnvironmentModel, id: int, notes: NotesModel) -> (
    MettlePlanModel,
    NotesModel,
) {
    let flow = env.program.flows[id];
    let (file, filed) = context_of_file(env, flow, notes);
    let count = flow.parameters.len() as int;
    let checked = check_parameters(flow.parameters, count, filed);
    let (context, found) = context_of_flow(env, flow, 0, false, false, file, checked);
    let body = lower_row(
        env,
        flow.body,
        0,
        RowModel { block: false, tail: false, top: true },
        ScopeModel {
            flow: Some(id),
            test: flow.kind == DeclarationKind::Test,
            locals: parameter_table(flow.parameters, count),
            slots: count,
            context,
        },
        found,
        Seq::empty(),
        false,
    );
    (
        MettlePlanModel {
            kind: flow.kind,
            name: match flow.name {
                Some(name) => if flow.kind == DeclarationKind::Flow {
                    Some(qualified(flow.namespace, name.value))
                } else {
                    None
                },
                None => None,
            },
            display_name: display_name(flow, id),
            parameters: name_values(flow.parameters),
            span: flow.span,
            local_count: body.slots,
            contexts: listed_context(context),
            instructions: body.instructions,
        },
        body.notes.unless(
            body.returned || flow.kind == DeclarationKind::Test,
            "flow `"@ + display_name(flow, id) + "` must end with a return value"@,
            flow.span,
        ),
    )
}

pub open spec fn plan_flows(
    env: EnvironmentModel,
    from: int,
    notes: NotesModel,
    done: Seq<MettlePlanModel>,
) -> (Seq<MettlePlanModel>, NotesModel)
    decreases env.program.flows.len() - from,
{
    if from < 0 || from >= env.program.flows.len() {
        (done, notes)
    } else {
        let (flow, noted) = plan_flow(env, from, notes);
        plan_flows(env, from + 1, noted, done.push(flow))
    }
}

// ---------------------------------------------------------------------------
// Recursion

/// How far the calls are followed.
pub struct TraceModel {
    pub states: Seq<VisitState>,
    pub errors: Seq<ErrorModel>,
}

/// Follows the calls of a flow; `depth` calls lead to it.
pub open spec fn visit_flow(
    flows: Seq<MettleDeclModel>,
    edges: Seq<EdgeModel>,
    flow: int,
    depth: int,
    trace: TraceModel,
) -> TraceModel
    decreases flows.len() - depth, 0int,
{
    if trace.states[flow] != VisitState::Unvisited || depth >= flows.len() {
        trace
    } else {
        let after = visit_edges(
            flows,
            edges,
            0,
            flow,
            depth + 1,
            TraceModel { states: trace.states.update(flow, VisitState::Visiting), ..trace },
        );
        TraceModel { states: after.states.update(flow, VisitState::Complete), ..after }
    }
}

/// Follows the calls of a flow from call `from` on.
pub open spec fn visit_edges(
    flows: Seq<MettleDeclModel>,
    edges: Seq<EdgeModel>,
    from: int,
    flow: int,
    depth: int,
    trace: TraceModel,
) -> TraceModel
    decreases flows.len() - depth, edges.len() - from + 1,
{
    if from < 0 || from >= edges.len() {
        trace
    } else if edges[from].from != flow || !(0 <= edges[from].target < flows.len()) {
        visit_edges(flows, edges, from + 1, flow, depth, trace)
    } else if trace.states[edges[from].target] == VisitState::Visiting {
        visit_edges(
            flows,
            edges,
            from + 1,
            flow,
            depth,
            TraceModel {
                errors: trace.errors.push(
                    ErrorModel {
                        message: "recursive flow calls are not supported: `"@ + display_name(
                            flows[flow],
                            flow,
                        ) + "` calls `"@ + display_name(
                            flows[edges[from].target],
                            edges[from].target,
                        ) + "`"@,
                        span: edges[from].span,
                    },
                ),
                ..trace
            },
        )
    } else {
        visit_edges(
            flows,
            edges,
            from + 1,
            flow,
            depth,
            visit_flow(flows, edges, edges[from].target, depth, trace),
        )
    }
}

/// Follows the calls of all flows from `from` on.
pub open spec fn visit_all(
    flows: Seq<MettleDeclModel>,
    edges: Seq<EdgeModel>,
    from: int,
    trace: TraceModel,
) -> TraceModel
    decreases flows.len() - from,
{
    if from < 0 || from >= flows.len() {
        trace
    } else {
        visit_all(flows, edges, from + 1, visit_flow(flows, edges, from, 0, trace))
    }
}

pub open spec fn untraced(count: nat, errors: Seq<ErrorModel>) -> TraceModel {
    TraceModel { states: Seq::new(count, |i: int| VisitState::Unvisited), errors }
}

// ---------------------------------------------------------------------------
// Programs

/// What is wrong with the names that a program declares.
pub open spec fn check_names(program: ProgramModel, capabilities: Seq<CapabilityModel>) -> NotesModel {
    check_file_contexts(
        program.file_contexts,
        program.file_contexts.len() as int,
        check_flows(
            program.flows,
            program.flows.len() as int,
            check_contexts(
                program.contexts,
                program.contexts.len() as int,
                check_capabilities(
                    capabilities,
                    capabilities.len() as int,
                    NotesModel { errors: Seq::empty(), edges: Seq::empty() },
                ),
            ),
        ),
    )
}

/// The contexts of a program, put together.
pub open spec fn flattened(program: ProgramModel, capabilities: Seq<CapabilityModel>) -> FlatteningModel {
    flatten_all(
        program.contexts,
        context_table(program.contexts, program.contexts.len() as int),
        0,
        unflattened(program.contexts.len(), check_names(program, capabilities)),
    )
}

/// What names mean in a program.
pub open spec fn environment_of(program: ProgramModel, capabilities: Seq<CapabilityModel>) -> EnvironmentModel {
    EnvironmentModel {
        program,
        capabilities,
        capability_names: capability_table(capabilities, capabilities.len() as int),
        contexts: context_table(program.contexts, program.contexts.len() as int),
        flows: flow_table(program.flows, program.flows.len() as int),
        fields: all_field_names(flattened(program, capabilities).cache),
    }
}

/// The contexts and flows of a plan, with what was noticed on the way.
pub open spec fn planned(program: ProgramModel, capabilities: Seq<CapabilityModel>) -> (
    Seq<ContextPlanModel>,
    Seq<MettlePlanModel>,
    NotesModel,
) {
    let flat = flattened(program, capabilities);
    let env = environment_of(program, capabilities);
    let (contexts, noted) = plan_contexts(env, flat.cache, 0, flat.notes, Seq::empty());
    let (flows, last) = plan_flows(env, 0, noted, Seq::empty());
    (contexts, flows, last)
}

pub open spec fn capability_list(capabilities: Seq<CapabilityModel>) -> Seq<Seq<char>> {
    Seq::new(capabilities.len(), |i: int| capabilities[i].name)
}

/// All errors of a program.
pub open spec fn errors_of(program: ProgramModel, capabilities: Seq<CapabilityModel>) -> Seq<
    ErrorModel,
> {
    let notes = planned(program, capabilities).2;
    visit_all(
        program.flows,
        notes.edges,
        0,
        untraced(program.flows.len(), notes.errors),
    ).errors
}

/// The plan of a program without errors.
pub open spec fn compiled(program: ProgramModel, capabilities: Seq<CapabilityModel>) -> Result<
    ExecutionPlanModel,
    Seq<ErrorModel>,
> {
    let (contexts, flows, notes) = planned(program, capabilities);
    let errors = errors_of(program, capabilities);
    if errors.len() == 0 {
        Ok(
            ExecutionPlanModel {
                capability_names: capability_list(capabilities),
                contexts,
                flows,
                default_flow: id_of(
                    flow_table(program.flows, program.flows.len() as int),
                    "main"@,
                ),
            },
        )
    } else {
        Err(errors)
    }
}

} // verus!
