//! Compiles whole programs.

use vstd::prelude::*;
use vstd::string::*;

use crate::assembly::{
    all_field_names, applied_before, capability_list, capability_table, check_capabilities,
    check_contexts, check_file_contexts, check_flows, check_names, check_parameters, compiled,
    context_name, context_of_file, context_of_flow, context_scope, cycle_names, environment_of,
    errors_of, field_names, file_context, flat_nothing, flatten, flatten_all, flatten_uses,
    inline_context, listed_context, own_members, parameter_table, place_in, plan_context_fields,
    plan_contexts, plan_defaults, plan_flow, plan_flows, test_before, unflattened, untraced,
    visit_all, visit_edges, visit_flow, with_field, with_fields, FlatModel, FlatteningModel,
    TraceModel, VisitState,
};
use crate::capability::{capability_models, CapabilityDescriptor};
use crate::compiler::{
    below, edge_models, name_texts, resolve, text_lists, Edge, Lowering, Notes, Row, Scope,
};
use crate::definition::{context_table, flow_table};
use crate::lowering::NotesModel;
use crate::names::{display_name, flow_display_name, qualified_name, Names};
use crate::plan::{
    context_plan_models, defaults_models, error_models, flow_plan_models, numbers, optional_number,
    plan_field_models, CapabilityDefaultsModel, CapabilityDefaultsPlan, CompileError, ContextPlan,
    ExecutionPlan, ExecutionPlanModel, Instruction, MettlePlan, PlanField, PlanFieldModel,
};
use crate::syntax::{
    context_models, field_models, file_context_models, flow_models, member_models, spanned_models,
    ContextDecl, ContextMember, DeclarationKind, ErrorModel, FileContextUse, MettleDecl,
    ObjectField, ObjectFieldModel, Program, Span, Spanned, SpannedModel, Statement,
};
use crate::text::{decimal_text, join, listed, same, views, wrapped};

verus! {

// ---------------------------------------------------------------------------
// Declared names

fn collect_capability_names(capabilities: &Vec<CapabilityDescriptor>, notes: &mut Notes) -> (names:
    Names)
    ensures
        final(notes).model() == check_capabilities(
            capability_models(capabilities@),
            capabilities@.len() as int,
            old(notes).model(),
        ),
        names.model() == capability_table(
            capability_models(capabilities@),
            capabilities@.len() as int,
        ),
        below(names, capabilities@.len()),
{
    let ghost models = capability_models(capabilities@);
    let ghost start = notes.model();
    let mut names: Names = Names::new();
    let mut at: usize = 0;
    while at < capabilities.len()
        invariant
            models == capability_models(capabilities@),
            at <= capabilities@.len(),
            names.model() == capability_table(models, at as int),
            below(names, at as nat),
            notes.model() == check_capabilities(models, at as int, start),
        decreases capabilities@.len() - at,
    {
        let name: &'static str = capabilities[at].name;
        proof {
            assert(models[at as int].name == name@);
        }
        if names.get(name).is_some() {
            notes.error(
                wrapped("capability `", name, "` is registered more than once"),
                Span::new(0, 0),
            );
        }
        names.add(name.to_owned(), at);
        proof {
            lemma_below(names, at as nat + 1);
        }
        at += 1;
    }
    names
}

proof fn lemma_below(names: Names, count: nat)
    requires
        forall|i: int| 0 <= i < names.model().len() ==> (#[trigger] names.model()[i]).1 < count,
    ensures
        below(names, count),
{
    assert forall|i: int| 0 <= i < names.entries@.len() implies (#[trigger] names.entries@[i]).1
        < count by {
        assert(names.model()[i].1 == names.entries@[i].1);
    }
}

proof fn lemma_table(names: Names, count: nat)
    requires
        below(names, count),
    ensures
        forall|i: int| 0 <= i < names.model().len() ==> (#[trigger] names.model()[i]).1 < count,
{
    assert forall|i: int| 0 <= i < names.model().len() implies (#[trigger] names.model()[i]).1
        < count by {
        assert(names.entries@[i].1 < count);
    }
}

fn collect_context_names(contexts: &Vec<ContextDecl>, notes: &mut Notes) -> (names: Names)
    ensures
        final(notes).model() == check_contexts(
            context_models(contexts@),
            contexts@.len() as int,
            old(notes).model(),
        ),
        names.model() == context_table(context_models(contexts@), contexts@.len() as int),
        below(names, contexts@.len()),
{
    let ghost models = context_models(contexts@);
    let ghost start = notes.model();
    let mut names: Names = Names::new();
    let mut at: usize = 0;
    while at < contexts.len()
        invariant
            models == context_models(contexts@),
            at <= contexts@.len(),
            names.model() == context_table(models, at as int),
            below(names, at as nat),
            notes.model() == check_contexts(models, at as int, start),
        decreases contexts@.len() - at,
    {
        proof {
            assert(models[at as int] == contexts@[at as int].model());
            lemma_table(names, at as nat);
        }
        if let Some(name) = &contexts[at].name {
            let whole: String = qualified_name(
                contexts[at].namespace.as_str(),
                name.value.as_str(),
            );
            if names.get(whole.as_str()).is_some() {
                notes.error(
                    wrapped("context `", whole.as_str(), "` is declared more than once"),
                    name.span,
                );
            }
            names.add(whole, at);
        }
        proof {
            lemma_below(names, at as nat + 1);
        }
        at += 1;
    }
    names
}

fn has_test_before(flows: &Vec<MettleDecl>, count: usize, source: usize, name: &str) -> (yes: bool)
    requires
        count <= flows@.len(),
    ensures
        yes == test_before(flow_models(flows@), count as int, source, name@),
{
    let ghost models = flow_models(flows@);
    let mut found: bool = false;
    let mut at: usize = 0;
    while at < count
        invariant
            models == flow_models(flows@),
            at <= count <= flows@.len(),
            found == test_before(models, at as int, source, name@),
        decreases count - at,
    {
        proof {
            assert(models[at as int] == flows@[at as int].model());
        }
        if flows[at].kind == DeclarationKind::Test && flows[at].span.source == source {
            if let Some(other) = &flows[at].name {
                if same(other.value.as_str(), name) {
                    found = true;
                }
            }
        }
        at += 1;
    }
    found
}

fn collect_flow_names(flows: &Vec<MettleDecl>, notes: &mut Notes) -> (names: Names)
    ensures
        final(notes).model() == check_flows(
            flow_models(flows@),
            flows@.len() as int,
            old(notes).model(),
        ),
        names.model() == flow_table(flow_models(flows@), flows@.len() as int),
        below(names, flows@.len()),
{
    let ghost models = flow_models(flows@);
    let ghost start = notes.model();
    let mut names: Names = Names::new();
    let mut at: usize = 0;
    while at < flows.len()
        invariant
            models == flow_models(flows@),
            at <= flows@.len(),
            names.model() == flow_table(models, at as int),
            below(names, at as nat),
            notes.model() == check_flows(models, at as int, start),
        decreases flows@.len() - at,
    {
        proof {
            assert(models[at as int] == flows@[at as int].model());
            lemma_table(names, at as nat);
        }
        if let Some(name) = &flows[at].name {
            if flows[at].kind == DeclarationKind::Test {
                if has_test_before(flows, at, flows[at].span.source, name.value.as_str()) {
                    notes.error(
                        wrapped(
                            "test `",
                            name.value.as_str(),
                            "` is declared more than once in this file",
                        ),
                        name.span,
                    );
                }
            } else {
                if same(name.value.as_str(), "echo") {
                    notes.say("`echo` is reserved and cannot name a flow", name.span);
                }
                let whole: String = qualified_name(
                    flows[at].namespace.as_str(),
                    name.value.as_str(),
                );
                if names.get(whole.as_str()).is_some() {
                    notes.error(
                        wrapped("flow `", whole.as_str(), "` is declared more than once"),
                        name.span,
                    );
                }
                names.add(whole, at);
            }
        }
        proof {
            lemma_below(names, at as nat + 1);
        }
        at += 1;
    }
    names
}

fn has_context_before(uses: &Vec<FileContextUse>, count: usize, source: usize) -> (yes: bool)
    requires
        count <= uses@.len(),
    ensures
        yes == applied_before(file_context_models(uses@), count as int, source),
{
    let ghost models = file_context_models(uses@);
    let mut found: bool = false;
    let mut at: usize = 0;
    while at < count
        invariant
            models == file_context_models(uses@),
            at <= count <= uses@.len(),
            found == applied_before(models, at as int, source),
        decreases count - at,
    {
        proof {
            assert(models[at as int] == uses@[at as int].model());
        }
        if uses[at].span().source == source {
            found = true;
        }
        at += 1;
    }
    found
}

fn validate_file_contexts(uses: &Vec<FileContextUse>, notes: &mut Notes)
    ensures
        final(notes).model() == check_file_contexts(
            file_context_models(uses@),
            uses@.len() as int,
            old(notes).model(),
        ),
{
    let ghost models = file_context_models(uses@);
    let ghost start = notes.model();
    let mut at: usize = 0;
    while at < uses.len()
        invariant
            models == file_context_models(uses@),
            at <= uses@.len(),
            notes.model() == check_file_contexts(models, at as int, start),
        decreases uses@.len() - at,
    {
        proof {
            assert(models[at as int] == uses@[at as int].model());
        }
        if has_context_before(uses, at, uses[at].span().source) {
            notes.say(
                "a file may apply only one default context until context composition is available",
                uses[at].span(),
            );
        }
        at += 1;
    }
}

// ---------------------------------------------------------------------------
// Contexts

spec fn borrowed_fields(fields: Seq<&ObjectField>) -> Seq<ObjectFieldModel> {
    Seq::new(fields.len(), |i: int| fields[i].model())
}

spec fn borrowed_defaults(defaults: Seq<(&Spanned<String>, &Vec<ObjectField>)>) -> Seq<
    (SpannedModel, Seq<ObjectFieldModel>),
> {
    Seq::new(defaults.len(), |i: int| (defaults[i].0.model(), field_models(defaults[i].1@)))
}

/// What a context holds with all the contexts that it uses.
struct FlattenedContext<'a> {
    fields: Vec<&'a ObjectField>,
    defaults: Vec<(&'a Spanned<String>, &'a Vec<ObjectField>)>,
}

impl<'a> FlattenedContext<'a> {
    spec fn model(self) -> FlatModel {
        FlatModel {
            fields: borrowed_fields(self.fields@),
            defaults: borrowed_defaults(self.defaults@),
        }
    }

    fn empty() -> (flat: FlattenedContext<'a>)
        ensures
            flat.model() == flat_nothing(),
    {
        let flat: FlattenedContext<'a> = FlattenedContext {
            fields: Vec::new(),
            defaults: Vec::new(),
        };
        proof {
            assert(borrowed_fields(flat.fields@) =~= Seq::empty());
            assert(borrowed_defaults(flat.defaults@) =~= Seq::empty());
        }
        flat
    }

    /// Adds a field; one of the same name gives way to it.
    fn merge_context_field(&mut self, field: &'a ObjectField)
        ensures
            final(self).model() == (FlatModel {
                fields: with_field(old(self).model().fields, field.model(), 0),
                ..old(self).model()
            }),
    {
        let ghost before = borrowed_fields(self.fields@);
        let ghost first = *self;
        let mut at: usize = 0;
        while at < self.fields.len()
            invariant
                *self == first,
                before == borrowed_fields(first.fields@),
                at <= self.fields@.len(),
                with_field(before, field.model(), 0) == with_field(
                    before,
                    field.model(),
                    at as int,
                ),
                first == *old(self),
            decreases self.fields@.len() - at,
        {
            if same(self.fields[at].name.value.as_str(), field.name.value.as_str()) {
                self.fields.set(at, field);
                proof {
                    assert(borrowed_fields(self.fields@) =~= before.update(
                        at as int,
                        field.model(),
                    ));
                }
                return;
            }
            at += 1;
        }
        self.fields.push(field);
        proof {
            assert(borrowed_fields(self.fields@) =~= before.push(field.model()));
        }
    }

    /// Adds the fields and defaults of another context.
    fn absorb(&mut self, other: &FlattenedContext<'a>)
        ensures
            final(self).model() == (FlatModel {
                fields: with_fields(old(self).model().fields, other.model().fields, 0),
                defaults: old(self).model().defaults + other.model().defaults,
            }),
    {
        let ghost first = self.model();
        let ghost others = borrowed_fields(other.fields@);
        let mut at: usize = 0;
        while at < other.fields.len()
            invariant
                others == borrowed_fields(other.fields@),
                at <= other.fields@.len(),
                self.model().defaults == first.defaults,
                with_fields(first.fields, others, 0) == with_fields(
                    self.model().fields,
                    others,
                    at as int,
                ),
            decreases other.fields@.len() - at,
        {
            proof {
                assert(others[at as int] == other.fields@[at as int].model());
            }
            let field: &'a ObjectField = other.fields[at];
            self.merge_context_field(field);
            at += 1;
        }
        let ghost merged = self.model();
        let ghost given = borrowed_defaults(other.defaults@);
        let mut at: usize = 0;
        proof {
            assert(merged.defaults + given.take(0) =~= merged.defaults);
        }
        while at < other.defaults.len()
            invariant
                given == borrowed_defaults(other.defaults@),
                at <= other.defaults@.len(),
                self.model().fields == merged.fields,
                self.model().defaults == merged.defaults + given.take(at as int),
            decreases other.defaults@.len() - at,
        {
            let ghost before = self.model().defaults;
            let pair: (&'a Spanned<String>, &'a Vec<ObjectField>) = other.defaults[at];
            self.defaults.push(pair);
            proof {
                assert(self.model().defaults =~= before.push(given[at as int]));
                assert(given.take(at + 1) =~= given.take(at as int).push(given[at as int]));
                assert(merged.defaults + given.take(at + 1) =~= (merged.defaults + given.take(
                    at as int,
                )).push(given[at as int]));
            }
            at += 1;
        }
        proof {
            assert(given.take(given.len() as int) =~= given);
        }
    }

    fn duplicate(&self) -> (copy: FlattenedContext<'a>)
        ensures
            copy.model() == self.model(),
    {
        let mut fields: Vec<&'a ObjectField> = Vec::new();
        let mut at: usize = 0;
        while at < self.fields.len()
            invariant
                at <= self.fields@.len(),
                fields@ == self.fields@.take(at as int),
            decreases self.fields@.len() - at,
        {
            let field: &'a ObjectField = self.fields[at];
            fields.push(field);
            proof {
                assert(fields@ =~= self.fields@.take(at + 1));
            }
            at += 1;
        }
        let mut defaults: Vec<(&'a Spanned<String>, &'a Vec<ObjectField>)> = Vec::new();
        let mut at: usize = 0;
        while at < self.defaults.len()
            invariant
                at <= self.defaults@.len(),
                defaults@ == self.defaults@.take(at as int),
            decreases self.defaults@.len() - at,
        {
            let pair: (&'a Spanned<String>, &'a Vec<ObjectField>) = self.defaults[at];
            defaults.push(pair);
            proof {
                assert(defaults@ =~= self.defaults@.take(at + 1));
            }
            at += 1;
        }
        proof {
            assert(fields@ =~= self.fields@);
            assert(defaults@ =~= self.defaults@);
        }
        FlattenedContext { fields, defaults }
    }
}

spec fn flat_models(cache: Seq<FlattenedContext<'_>>) -> Seq<FlatModel> {
    Seq::new(cache.len(), |i: int| cache[i].model())
}

/// How far the contexts are put together.
struct Flattening<'a> {
    states: Vec<VisitState>,
    cache: Vec<FlattenedContext<'a>>,
}

impl<'a> Flattening<'a> {
    spec fn model(self, notes: NotesModel) -> FlatteningModel {
        FlatteningModel { states: self.states@, cache: flat_models(self.cache@), notes }
    }

    spec fn sized(self, count: nat) -> bool {
        self.states@.len() == count && self.cache@.len() == count
    }
}

fn context_qualified_name(contexts: &Vec<ContextDecl>, id: usize) -> (name: String)
    requires
        id < contexts@.len(),
    ensures
        name@ == context_name(context_models(contexts@), id as int),
{
    let context: &ContextDecl = &contexts[id];
    proof {
        assert(context_models(contexts@)[id as int] == context.model());
    }
    match &context.name {
        Some(name) => qualified_name(context.namespace.as_str(), name.value.as_str()),
        None => wrapped(
            wrapped(
                "<anonymous context at ",
                decimal_text(context.span.source as u128).as_str(),
                ":",
            ).as_str(),
            decimal_text(context.span.start as u128).as_str(),
            ">",
        ),
    }
}

spec fn all_below(stack: Seq<usize>, count: nat) -> bool {
    forall|i: int| 0 <= i < stack.len() ==> #[trigger] stack[i] < count
}

fn cycle_text(contexts: &Vec<ContextDecl>, stack: &Vec<usize>, id: usize) -> (text: String)
    requires
        id < contexts@.len(),
        all_below(stack@, contexts@.len()),
    ensures
        text@ == crate::text::joined(
            cycle_names(context_models(contexts@), numbers(stack@), id as int),
            " -> "@,
            0,
        ),
{
    let ghost models = context_models(contexts@);
    let ghost path = numbers(stack@);
    let mut start: usize = 0;
    while start < stack.len() && stack[start] != id
        invariant
            path == numbers(stack@),
            start <= stack@.len(),
            place_in(path, id as int, 0) == place_in(path, id as int, start as int),
        decreases stack@.len() - start,
    {
        start += 1;
    }
    if start >= stack.len() {
        start = 0;
    }
    proof {
        assert(start == place_in(path, id as int, 0));
    }
    let mut names: Vec<String> = Vec::new();
    let mut at: usize = start;
    while at < stack.len()
        invariant
            models == context_models(contexts@),
            path == numbers(stack@),
            all_below(stack@, contexts@.len()),
            start <= at <= stack@.len(),
            names@.len() == at - start,
            forall|i: int|
                0 <= i < at - start ==> (#[trigger] names@[i])@ == context_name(
                    models,
                    path[start + i],
                ),
        decreases stack@.len() - at,
    {
        names.push(context_qualified_name(contexts, stack[at]));
        at += 1;
    }
    names.push(context_qualified_name(contexts, id));
    proof {
        assert(views(names@) =~= cycle_names(models, path, id as int));
    }
    join(&names, " -> ")
}

fn flatten_context<'a>(
    program: &'a Program,
    names: &Names,
    id: usize,
    stack: &mut Vec<usize>,
    state: &mut Flattening<'a>,
    notes: &mut Notes,
) -> (flat: FlattenedContext<'a>)
    requires
        id < program.contexts@.len(),
        below(*names, program.contexts@.len()),
        old(state).sized(program.contexts@.len()),
        all_below(old(stack)@, program.contexts@.len()),
    ensures
        (flat.model(), final(state).model(final(notes).model())) == flatten(
            context_models(program.contexts@),
            names.model(),
            id as int,
            numbers(old(stack)@),
            old(state).model(old(notes).model()),
        ),
        final(stack)@ == old(stack)@,
        final(state).sized(program.contexts@.len()),
    decreases program.contexts@.len() - old(stack)@.len(), 0int,
{
    let ghost models = context_models(program.contexts@);
    let ghost path = numbers(stack@);
    let context: &'a ContextDecl = &program.contexts[id];
    proof {
        assert(models[id as int] == context.model());
        assert(path.len() == stack@.len());
        assert(flat_models(state.cache@)[id as int] == state.cache@[id as int].model());
    }
    match state.states[id] {
        VisitState::Complete => {
            return state.cache[id].duplicate();
        },
        VisitState::Visiting => {
            let text: String = cycle_text(&program.contexts, stack, id);
            notes.error(wrapped("context composition cycle: ", text.as_str(), ""), context.span);
            proof {
                reveal_strlit("");
                let words = "context composition cycle: "@ + text@;
                assert(words + ""@ =~= words);
            }
            return FlattenedContext::empty();
        },
        VisitState::Unvisited => {},
    }
    if stack.len() >= program.contexts.len() {
        return FlattenedContext::empty();
    }
    let ghost before = state.model(notes.model());
    state.states.set(id, VisitState::Visiting);
    stack.push(id);
    proof {
        assert(numbers(stack@) =~= path.push(id as int));
        assert(state.model(notes.model()) == before.entering(id as int));
    }
    let mut flat: FlattenedContext<'a> = flatten_used(program, names, context, stack, state, notes);
    let ghost after = state.model(notes.model());
    add_members(&context.members, &mut flat, notes);
    stack.pop();
    proof {
        assert(stack@ =~= old(stack)@);
    }
    state.states.set(id, VisitState::Complete);
    let copy: FlattenedContext<'a> = flat.duplicate();
    state.cache.set(id, copy);
    proof {
        assert(flat_models(state.cache@) =~= after.cache.update(id as int, flat.model()));
        assert(state.model(notes.model()) == after.leaving(
            id as int,
            flat.model(),
            notes.model(),
        ));
    }
    flat
}

fn flatten_used<'a>(
    program: &'a Program,
    names: &Names,
    context: &'a ContextDecl,
    stack: &mut Vec<usize>,
    state: &mut Flattening<'a>,
    notes: &mut Notes,
) -> (flat: FlattenedContext<'a>)
    requires
        below(*names, program.contexts@.len()),
        old(state).sized(program.contexts@.len()),
        all_below(old(stack)@, program.contexts@.len()),
    ensures
        (flat.model(), final(state).model(final(notes).model())) == flatten_uses(
            context_models(program.contexts@),
            names.model(),
            context.model(),
            0,
            numbers(old(stack)@),
            old(state).model(old(notes).model()),
            flat_nothing(),
        ),
        final(stack)@ == old(stack)@,
        final(state).sized(program.contexts@.len()),
    decreases program.contexts@.len() - old(stack)@.len(), 1int,
{
    let ghost models = context_models(program.contexts@);
    let ghost held = stack@;
    let ghost path = numbers(stack@);
    let ghost start = state.model(notes.model());
    let mut flat: FlattenedContext<'a> = FlattenedContext::empty();
    let mut at: usize = 0;
    while at < context.members.len()
        invariant
            models == context_models(program.contexts@),
            held == old(stack)@,
            stack@ == held,
            path == numbers(held),
            below(*names, program.contexts@.len()),
            state.sized(program.contexts@.len()),
            all_below(held, program.contexts@.len()),
            at <= context.members@.len(),
            flatten_uses(models, names.model(), context.model(), 0, path, start, flat_nothing())
                == flatten_uses(
                models,
                names.model(),
                context.model(),
                at as int,
                path,
                state.model(notes.model()),
                flat.model(),
            ),
        decreases context.members@.len() - at,
    {
        proof {
            assert(context.model().members[at as int] == context.members@[at as int].model());
        }
        if let ContextMember::UseContext { name, .. } = &context.members[at] {
            let ghost before = state.model(notes.model());
            if let Some(parent) = resolve(
                names,
                "context",
                name.value.as_str(),
                context.namespace.as_str(),
                &context.namespace_uses,
                name.span,
                notes,
            ) {
                proof {
                    assert(state.model(notes.model()) == before.noting(notes.model()));
                }
                let used: FlattenedContext<'a> = flatten_context(
                    program,
                    names,
                    parent,
                    stack,
                    state,
                    notes,
                );
                flat.absorb(&used);
            } else {
                proof {
                    assert(state.model(notes.model()) == before.noting(notes.model()));
                }
            }
        }
        at += 1;
    }
    flat
}

fn add_members<'a>(
    members: &'a Vec<ContextMember>,
    flat: &mut FlattenedContext<'a>,
    notes: &mut Notes,
)
    ensures
        (final(flat).model(), final(notes).model()) == own_members(
            member_models(members@),
            0,
            Seq::empty(),
            Seq::empty(),
            old(flat).model(),
            old(notes).model(),
        ),
{
    let ghost models = member_models(members@);
    let ghost first = flat.model();
    let ghost start = notes.model();
    let mut fields: Vec<String> = Vec::new();
    let mut defaults: Vec<String> = Vec::new();
    proof {
        assert(views(fields@) =~= Seq::empty());
        assert(views(defaults@) =~= Seq::empty());
    }
    let mut at: usize = 0;
    while at < members.len()
        invariant
            models == member_models(members@),
            at <= members@.len(),
            own_members(models, 0, Seq::empty(), Seq::empty(), first, start) == own_members(
                models,
                at as int,
                views(fields@),
                views(defaults@),
                flat.model(),
                notes.model(),
            ),
        decreases members@.len() - at,
    {
        proof {
            assert(models[at as int] == members@[at as int].model());
        }
        match &members[at] {
            ContextMember::Field(field) => {
                if listed(&fields, field.name.value.as_str()) {
                    notes.error(
                        wrapped(
                            "context field `",
                            field.name.value.as_str(),
                            "` is declared more than once",
                        ),
                        field.name.span,
                    );
                } else {
                    let ghost before = views(fields@);
                    fields.push(field.name.value.clone());
                    proof {
                        assert(views(fields@) =~= before.push(field.name.value@));
                    }
                    flat.merge_context_field(field);
                }
            },
            ContextMember::Defaults { capability, fields: given, .. } => {
                if listed(&defaults, capability.value.as_str()) {
                    notes.error(
                        wrapped(
                            "defaults for `",
                            capability.value.as_str(),
                            "` are declared more than once in this context",
                        ),
                        capability.span,
                    );
                } else {
                    let ghost before = views(defaults@);
                    defaults.push(capability.value.clone());
                    let ghost held = flat.model();
                    flat.defaults.push((capability, given));
                    proof {
                        assert(views(defaults@) =~= before.push(capability.value@));
                        assert(flat.model().defaults =~= held.defaults.push(
                            (capability.model(), field_models(given@)),
                        ));
                    }
                }
            },
            ContextMember::UseContext { .. } => {},
        }
        at += 1;
    }
}

/// Puts all contexts together.
fn flatten_contexts<'a>(program: &'a Program, names: &Names, notes: &mut Notes) -> (cache: Vec<
    FlattenedContext<'a>,
>)
    requires
        below(*names, program.contexts@.len()),
    ensures
        cache@.len() == program.contexts@.len(),
        flat_models(cache@) == flatten_all(
            context_models(program.contexts@),
            names.model(),
            0,
            unflattened(program.contexts@.len(), old(notes).model()),
        ).cache,
        final(notes).model() == flatten_all(
            context_models(program.contexts@),
            names.model(),
            0,
            unflattened(program.contexts@.len(), old(notes).model()),
        ).notes,
{
    let ghost models = context_models(program.contexts@);
    let ghost count = program.contexts@.len();
    let ghost start = unflattened(count, notes.model());
    let mut state: Flattening<'a> = Flattening { states: Vec::new(), cache: Vec::new() };
    let mut at: usize = 0;
    while at < program.contexts.len()
        invariant
            count == program.contexts@.len(),
            at <= count,
            state.sized(at as nat),
            forall|i: int| 0 <= i < at ==> #[trigger] state.states@[i] == VisitState::Unvisited,
            forall|i: int| 0 <= i < at ==> (#[trigger] state.cache@[i]).model() == flat_nothing(),
        decreases count - at,
    {
        state.states.push(VisitState::Unvisited);
        state.cache.push(FlattenedContext::empty());
        at += 1;
    }
    proof {
        assert(state.states@ =~= start.states);
        assert(flat_models(state.cache@) =~= start.cache);
    }
    let mut stack: Vec<usize> = Vec::new();
    proof {
        assert(numbers(stack@) =~= Seq::empty());
    }
    let mut at: usize = 0;
    while at < program.contexts.len()
        invariant
            models == context_models(program.contexts@),
            count == program.contexts@.len(),
            below(*names, count),
            at <= count,
            state.sized(count),
            stack@.len() == 0,
            numbers(stack@) == Seq::<int>::empty(),
            flatten_all(models, names.model(), 0, start) == flatten_all(
                models,
                names.model(),
                at as int,
                state.model(notes.model()),
            ),
        decreases count - at,
    {
        flatten_context(program, names, at, &mut stack, &mut state, notes);
        at += 1;
    }
    state.cache
}

fn names_of(fields: &Vec<&ObjectField>) -> (names: Vec<String>)
    ensures
        views(names@) == field_names(borrowed_fields(fields@)),
{
    let mut names: Vec<String> = Vec::new();
    let mut at: usize = 0;
    while at < fields.len()
        invariant
            at <= fields@.len(),
            names@.len() == at,
            forall|i: int| 0 <= i < at ==> (#[trigger] names@[i])@ == fields@[i].name.value@,
        decreases fields@.len() - at,
    {
        names.push(fields[at].name.value.clone());
        at += 1;
    }
    proof {
        assert(views(names@) =~= field_names(borrowed_fields(fields@)));
    }
    names
}

fn names_of_all(cache: &Vec<FlattenedContext<'_>>) -> (names: Vec<Vec<String>>)
    ensures
        text_lists(names@) == all_field_names(flat_models(cache@)),
        names@.len() == cache@.len(),
{
    let mut names: Vec<Vec<String>> = Vec::new();
    let mut at: usize = 0;
    while at < cache.len()
        invariant
            at <= cache@.len(),
            names@.len() == at,
            forall|i: int|
                0 <= i < at ==> views((#[trigger] names@[i])@) == field_names(
                    borrowed_fields(cache@[i].fields@),
                ),
        decreases cache@.len() - at,
    {
        names.push(names_of(&cache[at].fields));
        at += 1;
    }
    proof {
        assert(text_lists(names@) =~= all_field_names(flat_models(cache@)));
    }
    names
}

fn scope_of_context(id: usize) -> (scope: Scope)
    ensures
        scope.model() == context_scope(id as int),
        scope.flow is None,
        scope.context == Some(id),
{
    Scope { flow: None, test: false, locals: Names::new(), slots: 0, context: Some(id) }
}

fn compile_context_fields(
    lowering: &Lowering<'_>,
    fields: &Vec<&ObjectField>,
    id: usize,
    notes: &mut Notes,
) -> (done: Vec<PlanField>)
    requires
        lowering.valid(),
        id < lowering.fields@.len(),
    ensures
        (plan_field_models(done@), final(notes).model()) == plan_context_fields(
            lowering.model(),
            borrowed_fields(fields@),
            0,
            id as int,
            old(notes).model(),
            Seq::empty(),
        ),
{
    let ghost models = borrowed_fields(fields@);
    let ghost start = notes.model();
    let scope: Scope = scope_of_context(id);
    let mut done: Vec<PlanField> = Vec::new();
    proof {
        assert(plan_field_models(done@) =~= Seq::empty());
    }
    let mut at: usize = 0;
    while at < fields.len()
        invariant
            lowering.valid(),
            lowering.holds(scope),
            scope.model() == context_scope(id as int),
            models == borrowed_fields(fields@),
            at <= fields@.len(),
            plan_context_fields(lowering.model(), models, 0, id as int, start, Seq::empty())
                == plan_context_fields(
                lowering.model(),
                models,
                at as int,
                id as int,
                notes.model(),
                plan_field_models(done@),
            ),
        decreases fields@.len() - at,
    {
        let field: &ObjectField = fields[at];
        proof {
            assert(models[at as int] == field.model());
            assert(models[at as int].expression == field.expression.model());
        }
        if let Some(expression) = lowering.compile_expression(&field.expression, &scope, notes) {
            let ghost before = plan_field_models(done@);
            let name: String = field.name.value.clone();
            done.push(PlanField { name, expression });
            proof {
                assert(plan_field_models(done@) =~= before.push(
                    PlanFieldModel { name: field.name.value@, expression: expression.model() },
                ));
            }
        }
        at += 1;
    }
    done
}

fn compile_defaults(
    lowering: &Lowering<'_>,
    defaults: &Vec<(&Spanned<String>, &Vec<ObjectField>)>,
    id: usize,
    notes: &mut Notes,
) -> (done: Vec<CapabilityDefaultsPlan>)
    requires
        lowering.valid(),
        id < lowering.fields@.len(),
    ensures
        (defaults_models(done@), final(notes).model()) == plan_defaults(
            lowering.model(),
            borrowed_defaults(defaults@),
            0,
            id as int,
            old(notes).model(),
            Seq::empty(),
        ),
{
    let ghost models = borrowed_defaults(defaults@);
    let ghost start = notes.model();
    let scope: Scope = scope_of_context(id);
    let mut done: Vec<CapabilityDefaultsPlan> = Vec::new();
    proof {
        assert(defaults_models(done@) =~= Seq::empty());
    }
    let mut at: usize = 0;
    while at < defaults.len()
        invariant
            lowering.valid(),
            lowering.holds(scope),
            scope.model() == context_scope(id as int),
            models == borrowed_defaults(defaults@),
            at <= defaults@.len(),
            plan_defaults(lowering.model(), models, 0, id as int, start, Seq::empty())
                == plan_defaults(
                lowering.model(),
                models,
                at as int,
                id as int,
                notes.model(),
                defaults_models(done@),
            ),
        decreases defaults@.len() - at,
    {
        let (capability, source): (&Spanned<String>, &Vec<ObjectField>) = defaults[at];
        proof {
            assert(models[at as int] == (capability.model(), field_models(source@)));
        }
        match lowering.capability_names.get(capability.value.as_str()) {
            None => {
                notes.error(
                    wrapped("capability `", capability.value.as_str(), "` is not registered"),
                    capability.span,
                );
            },
            Some(capability_id) => {
                let schema: &Vec<crate::capability::FieldSchema> =
                    &lowering.capabilities[capability_id].defaults;
                let mut fields: Vec<PlanField> = Vec::new();
                let mut seen: Vec<String> = Vec::new();
                let skip: Vec<String> = Vec::new();
                proof {
                    assert(lowering.model().capabilities[capability_id as int]
                        == lowering.capabilities@[capability_id as int].model());
                    assert(plan_field_models(fields@) =~= Seq::empty());
                    assert(views(seen@) =~= Seq::empty());
                    assert(views(skip@) =~= Seq::empty());
                }
                lowering.compile_fields(
                    source,
                    &scope,
                    Some(schema),
                    &skip,
                    notes,
                    &mut seen,
                    &mut fields,
                );
                let ghost before = defaults_models(done@);
                done.push(CapabilityDefaultsPlan { capability: capability_id, fields });
                proof {
                    assert(defaults_models(done@) =~= before.push(
                        CapabilityDefaultsModel {
                            capability: capability_id as int,
                            fields: plan_field_models(fields@),
                        },
                    ));
                }
            },
        }
        at += 1;
    }
    done
}

fn compile_contexts(
    lowering: &Lowering<'_>,
    cache: &Vec<FlattenedContext<'_>>,
    notes: &mut Notes,
) -> (done: Vec<ContextPlan>)
    requires
        lowering.valid(),
        cache@.len() == lowering.program.contexts@.len(),
    ensures
        (context_plan_models(done@), final(notes).model()) == plan_contexts(
            lowering.model(),
            flat_models(cache@),
            0,
            old(notes).model(),
            Seq::empty(),
        ),
{
    let ghost models = flat_models(cache@);
    let ghost start = notes.model();
    let mut done: Vec<ContextPlan> = Vec::new();
    proof {
        assert(context_plan_models(done@) =~= Seq::empty());
    }
    let mut at: usize = 0;
    while at < cache.len()
        invariant
            lowering.valid(),
            cache@.len() == lowering.program.contexts@.len(),
            models == flat_models(cache@),
            at <= cache@.len(),
            plan_contexts(lowering.model(), models, 0, start, Seq::empty()) == plan_contexts(
                lowering.model(),
                models,
                at as int,
                notes.model(),
                context_plan_models(done@),
            ),
        decreases cache@.len() - at,
    {
        proof {
            assert(models[at as int] == cache@[at as int].model());
        }
        let fields: Vec<PlanField> = compile_context_fields(
            lowering,
            &cache[at].fields,
            at,
            notes,
        );
        let defaults: Vec<CapabilityDefaultsPlan> = compile_defaults(
            lowering,
            &cache[at].defaults,
            at,
            notes,
        );
        let name: String = context_qualified_name(&lowering.program.contexts, at);
        let ghost before = context_plan_models(done@);
        done.push(ContextPlan { name, fields, defaults });
        proof {
            assert(context_plan_models(done@) =~= before.push(done@.last().model()));
        }
        at += 1;
    }
    done
}

// ---------------------------------------------------------------------------
// Flows

fn find_inline_context(contexts: &Vec<ContextDecl>, span: Span) -> (at: Option<usize>)
    ensures
        optional_number(at) == inline_context(context_models(contexts@), span, 0),
        at matches Some(at) ==> at < contexts@.len(),
{
    let ghost models = context_models(contexts@);
    let mut at: usize = 0;
    while at < contexts.len()
        invariant
            models == context_models(contexts@),
            at <= contexts@.len(),
            inline_context(models, span, 0) == inline_context(models, span, at as int),
        decreases contexts@.len() - at,
    {
        proof {
            assert(models[at as int] == contexts@[at as int].model());
        }
        if contexts[at].name.is_none() && contexts[at].span == span {
            return Some(at);
        }
        at += 1;
    }
    None
}

fn resolve_file_context(lowering: &Lowering<'_>, flow: &MettleDecl, notes: &mut Notes) -> (context:
    Option<usize>)
    requires
        lowering.valid(),
    ensures
        (optional_number(context), final(notes).model()) == context_of_file(
            lowering.model(),
            flow.model(),
            old(notes).model(),
        ),
        context matches Some(context) ==> context < lowering.program.contexts@.len(),
{
    let uses: &Vec<FileContextUse> = &lowering.program.file_contexts;
    let ghost models = file_context_models(uses@);
    let ghost source = flow.span.source;
    let ghost start = notes.model();
    proof {
        assert(lowering.model().program.file_contexts == models);
    }
    let mut at: usize = 0;
    while at < uses.len()
        invariant
            lowering.valid(),
            models == file_context_models(uses@),
            lowering.model().program.file_contexts == models,
            source == flow.span.source,
            notes.model() == start,
            start == old(notes).model(),
            at <= uses@.len(),
            file_context(models, source, 0) == file_context(models, source, at as int),
        decreases uses@.len() - at,
    {
        proof {
            assert(models[at as int] == uses@[at as int].model());
        }
        if uses[at].span().source == flow.span.source {
            return match &uses[at] {
                FileContextUse::Inline(span) => find_inline_context(
                    &lowering.program.contexts,
                    *span,
                ),
                FileContextUse::Named(name) => resolve(
                    &lowering.contexts,
                    "context",
                    name.value.as_str(),
                    flow.namespace.as_str(),
                    &flow.namespace_uses,
                    name.span,
                    notes,
                ),
            };
        }
        at += 1;
    }
    None
}

/// The slots of the parameters.
fn declare_parameters(parameters: &Vec<Spanned<String>>, notes: &mut Notes) -> (locals: Names)
    ensures
        locals.model() == parameter_table(
            spanned_models(parameters@),
            parameters@.len() as int,
        ),
        final(notes).model() == check_parameters(
            spanned_models(parameters@),
            parameters@.len() as int,
            old(notes).model(),
        ),
{
    let ghost models = spanned_models(parameters@);
    let ghost start = notes.model();
    let mut locals: Names = Names::new();
    let mut at: usize = 0;
    while at < parameters.len()
        invariant
            models == spanned_models(parameters@),
            at <= parameters@.len(),
            locals.model() == parameter_table(models, at as int),
            notes.model() == check_parameters(models, at as int, start),
        decreases parameters@.len() - at,
    {
        let parameter: &Spanned<String> = &parameters[at];
        proof {
            assert(models[at as int] == parameter.model());
        }
        if locals.get(parameter.value.as_str()).is_some() {
            notes.error(
                wrapped(
                    "parameter `",
                    parameter.value.as_str(),
                    "` is declared more than once",
                ),
                parameter.span,
            );
        }
        locals.add(parameter.value.clone(), at);
        at += 1;
    }
    locals
}

fn find_context(
    lowering: &Lowering<'_>,
    flow: &MettleDecl,
    file: Option<usize>,
    notes: &mut Notes,
) -> (context: Option<usize>)
    requires
        lowering.valid(),
        file matches Some(file) ==> file < lowering.program.contexts@.len(),
    ensures
        (optional_number(context), final(notes).model()) == context_of_flow(
            lowering.model(),
            flow.model(),
            0,
            false,
            false,
            optional_number(file),
            old(notes).model(),
        ),
        context matches Some(context) ==> context < lowering.program.contexts@.len(),
{
    let ghost start = notes.model();
    let mut active: Option<usize> = file;
    let mut executable: bool = false;
    let mut chosen: bool = false;
    let mut at: usize = 0;
    while at < flow.body.len()
        invariant
            lowering.valid(),
            at <= flow.body@.len(),
            active matches Some(active) ==> active < lowering.program.contexts@.len(),
            context_of_flow(
                lowering.model(),
                flow.model(),
                0,
                false,
                false,
                optional_number(file),
                start,
            ) == context_of_flow(
                lowering.model(),
                flow.model(),
                at as int,
                executable,
                chosen,
                optional_number(active),
                notes.model(),
            ),
        decreases flow.body@.len() - at,
    {
        proof {
            assert(flow.model().body[at as int] == flow.body@[at as int].model());
        }
        match &flow.body[at] {
            Statement::UseContext { name, span } => {
                if executable {
                    notes.say("`use context` must appear before executable statements", *span);
                } else {
                    if let Some(context) = resolve(
                        &lowering.contexts,
                        "context",
                        name.value.as_str(),
                        flow.namespace.as_str(),
                        &flow.namespace_uses,
                        name.span,
                        notes,
                    ) {
                        if chosen {
                            notes.say(
                                "a flow may apply one context; compose reusable contexts in a context declaration",
                                *span,
                            );
                        } else {
                            active = Some(context);
                            chosen = true;
                        }
                    }
                }
            },
            _ => {
                executable = true;
            },
        }
        at += 1;
    }
    active
}

fn compile_flow(lowering: &Lowering<'_>, id: usize, notes: &mut Notes) -> (plan: MettlePlan)
    requires
        lowering.valid(),
        id < lowering.program.flows@.len(),
    ensures
        (plan.model(), final(notes).model()) == plan_flow(
            lowering.model(),
            id as int,
            old(notes).model(),
        ),
{
    let flow: &MettleDecl = &lowering.program.flows[id];
    proof {
        assert(lowering.model().program.flows[id as int] == flow.model());
    }
    let file: Option<usize> = resolve_file_context(lowering, flow, notes);
    let locals: Names = declare_parameters(&flow.parameters, notes);
    let context: Option<usize> = find_context(lowering, flow, file, notes);
    let mut scope: Scope = Scope {
        flow: Some(id),
        test: flow.kind == DeclarationKind::Test,
        locals,
        slots: flow.parameters.len(),
        context,
    };
    let row: Row = Row { block: false, tail: false, top: true };
    let (instructions, returned): (Vec<Instruction>, bool) = lowering.compile_statements(
        &flow.body,
        row,
        &mut scope,
        notes,
    );
    let display_name: String = flow_display_name(flow, id);
    if !returned && flow.kind == DeclarationKind::Flow {
        notes.error(
            wrapped("flow `", display_name.as_str(), "` must end with a return value"),
            flow.span,
        );
    }
    let name: Option<String> = match &flow.name {
        Some(name) => if flow.kind == DeclarationKind::Flow {
            Some(qualified_name(flow.namespace.as_str(), name.value.as_str()))
        } else {
            None
        },
        None => None,
    };
    let mut contexts: Vec<usize> = Vec::new();
    if let Some(context) = context {
        contexts.push(context);
    }
    proof {
        assert(numbers(contexts@) =~= listed_context(optional_number(context)));
    }
    MettlePlan {
        kind: flow.kind,
        name,
        display_name,
        parameters: name_texts(&flow.parameters),
        span: flow.span,
        local_count: scope.slots,
        contexts,
        instructions,
    }
}

fn compile_flows(lowering: &Lowering<'_>, notes: &mut Notes) -> (done: Vec<MettlePlan>)
    requires
        lowering.valid(),
    ensures
        (flow_plan_models(done@), final(notes).model()) == plan_flows(
            lowering.model(),
            0,
            old(notes).model(),
            Seq::empty(),
        ),
{
    let ghost start = notes.model();
    let mut done: Vec<MettlePlan> = Vec::new();
    proof {
        assert(flow_plan_models(done@) =~= Seq::empty());
    }
    let mut at: usize = 0;
    while at < lowering.program.flows.len()
        invariant
            lowering.valid(),
            at <= lowering.program.flows@.len(),
            plan_flows(lowering.model(), 0, start, Seq::empty()) == plan_flows(
                lowering.model(),
                at as int,
                notes.model(),
                flow_plan_models(done@),
            ),
        decreases lowering.program.flows@.len() - at,
    {
        let ghost before = flow_plan_models(done@);
        done.push(compile_flow(lowering, at, notes));
        proof {
            assert(flow_plan_models(done@) =~= before.push(done@.last().model()));
        }
        at += 1;
    }
    done
}

// ---------------------------------------------------------------------------
// Recursion

/// How far the calls are followed.
struct Trace {
    states: Vec<VisitState>,
    errors: Vec<CompileError>,
}

impl Trace {
    spec fn model(self) -> TraceModel {
        TraceModel { states: self.states@, errors: error_models(self.errors@) }
    }
}

fn follow_flow(
    flows: &Vec<MettleDecl>,
    edges: &Vec<Edge>,
    flow: usize,
    depth: usize,
    trace: &mut Trace,
)
    requires
        flow < flows@.len(),
        old(trace).states@.len() == flows@.len(),
    ensures
        final(trace).model() == visit_flow(
            flow_models(flows@),
            edge_models(edges@),
            flow as int,
            depth as int,
            old(trace).model(),
        ),
        final(trace).states@.len() == flows@.len(),
    decreases flows@.len() - depth, 0int,
{
    if trace.states[flow] != VisitState::Unvisited || depth >= flows.len() {
        return;
    }
    trace.states.set(flow, VisitState::Visiting);
    follow_edges(flows, edges, flow, depth + 1, trace);
    trace.states.set(flow, VisitState::Complete);
}

fn follow_edges(
    flows: &Vec<MettleDecl>,
    edges: &Vec<Edge>,
    flow: usize,
    depth: usize,
    trace: &mut Trace,
)
    requires
        flow < flows@.len(),
        old(trace).states@.len() == flows@.len(),
    ensures
        final(trace).model() == visit_edges(
            flow_models(flows@),
            edge_models(edges@),
            0,
            flow as int,
            depth as int,
            old(trace).model(),
        ),
        final(trace).states@.len() == flows@.len(),
    decreases flows@.len() - depth, 1int,
{
    let ghost models = flow_models(flows@);
    let ghost calls = edge_models(edges@);
    let ghost start = trace.model();
    let mut at: usize = 0;
    while at < edges.len()
        invariant
            flow < flows@.len(),
            models == flow_models(flows@),
            calls == edge_models(edges@),
            trace.states@.len() == flows@.len(),
            at <= edges@.len(),
            visit_edges(models, calls, 0, flow as int, depth as int, start) == visit_edges(
                models,
                calls,
                at as int,
                flow as int,
                depth as int,
                trace.model(),
            ),
        decreases edges@.len() - at,
    {
        let target: usize = edges[at].target;
        proof {
            assert(calls[at as int] == edges@[at as int].model());
        }
        if edges[at].from == flow && target < flows.len() {
            if trace.states[target] == VisitState::Visiting {
                let caller: String = flow_display_name(&flows[flow], flow);
                let callee: String = flow_display_name(&flows[target], target);
                let message: String = wrapped(
                    wrapped(
                        "recursive flow calls are not supported: `",
                        caller.as_str(),
                        "` calls `",
                    ).as_str(),
                    callee.as_str(),
                    "`",
                );
                let ghost before = error_models(trace.errors@);
                trace.errors.push(CompileError::new(message, edges[at].span));
                proof {
                    assert(models[flow as int] == flows@[flow as int].model());
                    assert(models[target as int] == flows@[target as int].model());
                    assert(error_models(trace.errors@) =~= before.push(
                        ErrorModel { message: message@, span: edges@[at as int].span },
                    ));
                }
            } else {
                follow_flow(flows, edges, target, depth, trace);
            }
        }
        at += 1;
    }
}

/// The errors with those about flows that call themselves.
fn detect_recursion(flows: &Vec<MettleDecl>, notes: Notes) -> (errors: Vec<CompileError>)
    ensures
        error_models(errors@) == visit_all(
            flow_models(flows@),
            notes.model().edges,
            0,
            untraced(flows@.len(), notes.model().errors),
        ).errors,
{
    let ghost models = flow_models(flows@);
    let ghost calls = notes.model().edges;
    let ghost start = untraced(flows@.len(), notes.model().errors);
    let mut states: Vec<VisitState> = Vec::new();
    let mut at: usize = 0;
    while at < flows.len()
        invariant
            at <= flows@.len(),
            states@.len() == at,
            forall|i: int| 0 <= i < at ==> #[trigger] states@[i] == VisitState::Unvisited,
        decreases flows@.len() - at,
    {
        states.push(VisitState::Unvisited);
        at += 1;
    }
    proof {
        assert(states@ =~= start.states);
    }
    let edges: Vec<Edge> = notes.edges;
    let mut trace: Trace = Trace { states, errors: notes.errors };
    let mut at: usize = 0;
    while at < flows.len()
        invariant
            models == flow_models(flows@),
            calls == edge_models(edges@),
            trace.states@.len() == flows@.len(),
            at <= flows@.len(),
            visit_all(models, calls, 0, start) == visit_all(
                models,
                calls,
                at as int,
                trace.model(),
            ),
        decreases flows@.len() - at,
    {
        follow_flow(flows, &edges, at, 0, &mut trace);
        at += 1;
    }
    trace.errors
}

// ---------------------------------------------------------------------------
// Programs

fn capability_texts(capabilities: &Vec<CapabilityDescriptor>) -> (names: Vec<String>)
    ensures
        views(names@) == capability_list(capability_models(capabilities@)),
{
    let mut names: Vec<String> = Vec::new();
    let mut at: usize = 0;
    while at < capabilities.len()
        invariant
            at <= capabilities@.len(),
            names@.len() == at,
            forall|i: int| 0 <= i < at ==> (#[trigger] names@[i])@ == capabilities@[i].name@,
        decreases capabilities@.len() - at,
    {
        names.push(capabilities[at].name.to_owned());
        at += 1;
    }
    proof {
        assert(views(names@) =~= capability_list(capability_models(capabilities@)));
    }
    names
}

/// The plan, or the errors that stand against it.
pub open spec fn result_model(result: Result<ExecutionPlan, Vec<CompileError>>) -> Result<
    ExecutionPlanModel,
    Seq<ErrorModel>,
> {
    match result {
        Ok(plan) => Ok(plan.model()),
        Err(errors) => Err(error_models(errors@)),
    }
}

/// Compiles a program with the capabilities that it may use.
pub fn compile_with_capabilities(
    program: &Program,
    capabilities: &Vec<CapabilityDescriptor>,
) -> (result: Result<ExecutionPlan, Vec<CompileError>>)
    ensures
        result_model(result) == compiled(program.model(), capability_models(capabilities@)),
{
    let mut notes: Notes = Notes { errors: Vec::new(), edges: Vec::new() };
    proof {
        assert(error_models(notes.errors@) =~= Seq::empty());
        assert(edge_models(notes.edges@) =~= Seq::empty());
    }
    let capability_names: Names = collect_capability_names(capabilities, &mut notes);
    let contexts: Names = collect_context_names(&program.contexts, &mut notes);
    let flows: Names = collect_flow_names(&program.flows, &mut notes);
    validate_file_contexts(&program.file_contexts, &mut notes);
    proof {
        assert(notes.model() == check_names(program.model(), capability_models(capabilities@)));
    }
    let default_flow: Option<usize> = flows.get("main");
    let cache: Vec<FlattenedContext<'_>> = flatten_contexts(program, &contexts, &mut notes);
    let fields: Vec<Vec<String>> = names_of_all(&cache);
    let lowering: Lowering<'_> = Lowering {
        program,
        capabilities,
        capability_names,
        contexts,
        flows,
        fields,
    };
    proof {
        assert(lowering.model() == environment_of(
            program.model(),
            capability_models(capabilities@),
        ));
    }
    let context_plans: Vec<ContextPlan> = compile_contexts(&lowering, &cache, &mut notes);
    let flow_plans: Vec<MettlePlan> = compile_flows(&lowering, &mut notes);
    let errors: Vec<CompileError> = detect_recursion(&program.flows, notes);
    proof {
        assert(error_models(errors@) == errors_of(
            program.model(),
            capability_models(capabilities@),
        ));
    }
    if errors.len() == 0 {
        Ok(
            ExecutionPlan {
                capability_names: capability_texts(capabilities),
                contexts: context_plans,
                flows: flow_plans,
                default_flow,
            },
        )
    } else {
        Err(errors)
    }
}

/// Compiles a program that uses no capabilities.
pub fn compile(program: &Program) -> (result: Result<ExecutionPlan, Vec<CompileError>>)
    ensures
        result_model(result) == compiled(program.model(), Seq::empty()),
{
    let capabilities: Vec<CapabilityDescriptor> = Vec::new();
    proof {
        assert(capability_models(capabilities@) =~= Seq::empty());
    }
    compile_with_capabilities(program, &capabilities)
}

} // verus!
