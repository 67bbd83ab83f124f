//! How contexts are put together from others.

use vstd::prelude::*;

use crate::assembly::{
    check_names, compiled, environment_of, flat_nothing, flatten, flatten_all, flatten_uses,
    flattened, own_members, unflattened, with_field, with_fields, FlatModel, FlatteningModel,
    VisitState,
};
use crate::call_laws::lemma_distinct_bound;
use crate::capability::CapabilityModel;
use crate::definition::context_table;
use crate::lowering::{resolved, NotesModel};
use crate::names::{resolution, NameTable, ResolutionModel};
use crate::plan_laws::{
    lemma_compiled_contexts, lemma_resolved, lemma_tables, names_below, stands_for, well_named,
};
use crate::syntax::{
    ContextDeclModel, ContextMemberModel, ObjectFieldModel, ProgramModel, SpannedModel,
};

verus! {

// ---------------------------------------------------------------------------
// Fields by name

/// The field of a name, the first from `from` on.
pub open spec fn field_named(
    fields: Seq<ObjectFieldModel>,
    name: Seq<char>,
    from: int,
) -> Option<ObjectFieldModel>
    decreases fields.len() - from,
{
    if from < 0 || from >= fields.len() {
        None
    } else if fields[from].name.value == name {
        Some(fields[from])
    } else {
        field_named(fields, name, from + 1)
    }
}

/// The field that a context declares itself under a name.
pub open spec fn own_field(
    members: Seq<ContextMemberModel>,
    name: Seq<char>,
    from: int,
) -> Option<ObjectFieldModel>
    decreases members.len() - from,
{
    if from < 0 || from >= members.len() {
        None
    } else {
        match members[from] {
            ContextMemberModel::Field(field) => if field.name.value == name {
                Some(field)
            } else {
                own_field(members, name, from + 1)
            },
            _ => own_field(members, name, from + 1),
        }
    }
}

/// The context that a member uses.
pub open spec fn parent_of(
    names: NameTable,
    context: ContextDeclModel,
    at: int,
) -> Option<int> {
    match context.members[at] {
        ContextMemberModel::UseContext { name, span } => match resolution(
            names,
            name.value,
            context.namespace,
            context.namespace_uses,
        ) {
            ResolutionModel::Found(parent) => Some(parent),
            _ => None,
        },
        _ => None,
    }
}

/// The field of a name in the last of the contexts that a context uses, among
/// its first members, that has one.
pub open spec fn used_field(
    names: NameTable,
    context: ContextDeclModel,
    count: int,
    name: Seq<char>,
    cache: Seq<FlatModel>,
) -> Option<ObjectFieldModel>
    decreases count,
{
    if count <= 0 {
        None
    } else {
        match parent_of(names, context, count - 1) {
            Some(parent) => match field_named(cache[parent].fields, name, 0) {
                Some(field) => Some(field),
                None => used_field(names, context, count - 1, name, cache),
            },
            None => used_field(names, context, count - 1, name, cache),
        }
    }
}

/// Whether what a context holds under a name is its own field of that name, else
/// the one of the last context that it uses and that has one.
pub open spec fn composed(
    names: NameTable,
    context: ContextDeclModel,
    name: Seq<char>,
    fields: Seq<ObjectFieldModel>,
    cache: Seq<FlatModel>,
) -> bool {
    field_named(fields, name, 0) == (match own_field(context.members, name, 0) {
        Some(field) => Some(field),
        None => used_field(names, context, context.members.len() as int, name, cache),
    })
}

spec fn apart(fields: Seq<ObjectFieldModel>) -> bool {
    forall|i: int, j: int|
        0 <= i < j < fields.len() ==> (#[trigger] fields[i]).name.value != (
        #[trigger] fields[j]).name.value
}

proof fn lemma_named(fields: Seq<ObjectFieldModel>, name: Seq<char>, from: int)
    requires
        0 <= from <= fields.len(),
    ensures
        match field_named(fields, name, from) {
            Some(field) => exists|i: int|
                from <= i < fields.len() && #[trigger] fields[i] == field && field.name.value
                    == name && forall|j: int|
                    from <= j < i ==> (#[trigger] fields[j]).name.value != name,
            None => forall|j: int|
                from <= j < fields.len() ==> (#[trigger] fields[j]).name.value != name,
        },
    decreases fields.len() - from,
{
    if from < fields.len() && fields[from].name.value != name {
        lemma_named(fields, name, from + 1);
    }
}

proof fn lemma_named_at(fields: Seq<ObjectFieldModel>, name: Seq<char>, from: int, at: int)
    requires
        0 <= from <= at < fields.len(),
        fields[at].name.value == name,
        forall|j: int| from <= j < at ==> (#[trigger] fields[j]).name.value != name,
    ensures
        field_named(fields, name, from) == Some(fields[at]),
    decreases at - from,
{
    if from < at {
        lemma_named_at(fields, name, from + 1, at);
    }
}

proof fn lemma_with_field(
    fields: Seq<ObjectFieldModel>,
    field: ObjectFieldModel,
    from: int,
    name: Seq<char>,
)
    requires
        0 <= from <= fields.len(),
        apart(fields),
        forall|j: int|
            0 <= j < from ==> (#[trigger] fields[j]).name.value != field.name.value,
    ensures
        apart(with_field(fields, field, from)),
        field_named(with_field(fields, field, from), name, 0) == (if name == field.name.value {
            Some(field)
        } else {
            field_named(fields, name, 0)
        }),
    decreases fields.len() - from,
{
    let result = with_field(fields, field, from);
    if from < fields.len() && fields[from].name.value != field.name.value {
        lemma_with_field(fields, field, from + 1, name);
    } else {
        lemma_named(fields, name, 0);
        lemma_named(result, name, 0);
        if from < fields.len() {
            assert(result == fields.update(from, field));
            if name == field.name.value {
                lemma_named_at(result, name, 0, from);
            } else {
                lemma_same_names(fields, result, name, 0, from);
            }
        } else {
            assert(result == fields.push(field));
            if name == field.name.value {
                lemma_named_at(result, name, 0, from);
            } else {
                lemma_same_names(fields, result, name, 0, from);
            }
        }
    }
}

/// A field of another name changes nothing.
proof fn lemma_same_names(
    fields: Seq<ObjectFieldModel>,
    result: Seq<ObjectFieldModel>,
    name: Seq<char>,
    from: int,
    at: int,
)
    requires
        0 <= from <= result.len(),
        0 <= at < result.len(),
        result[at].name.value != name,
        at < fields.len() ==> fields[at].name.value != name,
        fields.len() <= result.len() <= fields.len() + 1,
        result.len() == fields.len() + 1 ==> at == fields.len(),
        forall|i: int| 0 <= i < fields.len() && i != at ==> #[trigger] fields[i] == result[i],
    ensures
        field_named(fields, name, from) == field_named(result, name, from),
    decreases result.len() - from,
{
    if from < result.len() {
        if from != at {
            assert(from < fields.len());
            assert(fields[from] == result[from]);
        }
        lemma_same_names(fields, result, name, from + 1, at);
    }
}

proof fn lemma_with_fields(
    fields: Seq<ObjectFieldModel>,
    others: Seq<ObjectFieldModel>,
    from: int,
    name: Seq<char>,
)
    requires
        0 <= from <= others.len(),
        apart(fields),
        apart(others),
    ensures
        apart(with_fields(fields, others, from)),
        field_named(with_fields(fields, others, from), name, 0) == (match field_named(
            others,
            name,
            from,
        ) {
            Some(field) => Some(field),
            None => field_named(fields, name, 0),
        }),
    decreases others.len() - from,
{
    if from < others.len() {
        lemma_with_field(fields, others[from], 0, name);
        lemma_with_fields(with_field(fields, others[from], 0), others, from + 1, name);
        if others[from].name.value == name {
            lemma_named(others, name, from + 1);
        }
    }
}

proof fn lemma_own(
    members: Seq<ContextMemberModel>,
    from: int,
    fields: Seq<Seq<char>>,
    defaults: Seq<Seq<char>>,
    flat: FlatModel,
    notes: NotesModel,
    name: Seq<char>,
)
    requires
        0 <= from <= members.len(),
        apart(flat.fields),
    ensures
        ({
            let (result, noted) = own_members(members, from, fields, defaults, flat, notes);
            &&& apart(result.fields)
            &&& notes.errors.len() <= noted.errors.len()
            &&& field_named(result.fields, name, 0) == (if fields.contains(name) {
                field_named(flat.fields, name, 0)
            } else {
                match own_field(members, name, from) {
                    Some(field) => Some(field),
                    None => field_named(flat.fields, name, 0),
                }
            })
        }),
    decreases members.len() - from,
{
    if from < members.len() {
        match members[from] {
            ContextMemberModel::Field(field) => {
                let own = field.name.value;
                if fields.contains(own) {
                    lemma_own(
                        members,
                        from + 1,
                        fields,
                        defaults,
                        flat,
                        notes.with(
                            "context field `"@ + own + "` is declared more than once"@,
                            field.name.span,
                        ),
                        name,
                    );
                } else {
                    lemma_with_field(flat.fields, field, 0, name);
                    let more = fields.push(own);
                    assert(more.contains(name) <==> fields.contains(name) || name == own) by {
                        if fields.contains(name) {
                            let i = choose|i: int| 0 <= i < fields.len() && fields[i] == name;
                            assert(more[i] == name);
                        }
                        assert(more[fields.len() as int] == own);
                    }
                    lemma_own(
                        members,
                        from + 1,
                        more,
                        defaults,
                        FlatModel { fields: with_field(flat.fields, field, 0), ..flat },
                        notes,
                        name,
                    );
                }
            },
            ContextMemberModel::Defaults { capability, fields: given, span } => {
                if defaults.contains(capability.value) {
                    lemma_own(
                        members,
                        from + 1,
                        fields,
                        defaults,
                        flat,
                        notes.with(
                            "defaults for `"@ + capability.value
                                + "` are declared more than once in this context"@,
                            capability.span,
                        ),
                        name,
                    );
                } else {
                    lemma_own(
                        members,
                        from + 1,
                        fields,
                        defaults.push(capability.value),
                        FlatModel { defaults: flat.defaults.push((capability, given)), ..flat },
                        notes,
                        name,
                    );
                }
            },
            ContextMemberModel::UseContext { name: used, span } => {
                lemma_own(members, from + 1, fields, defaults, flat, notes, name);
            },
        }
    }
}

// ---------------------------------------------------------------------------
// All contexts

/// Whether all contexts that a context uses, among its first members, are put
/// together.
spec fn ready(
    names: NameTable,
    context: ContextDeclModel,
    count: int,
    states: Seq<VisitState>,
) -> bool {
    forall|i: int|
        0 <= i < count ==> (#[trigger] parent_of(names, context, i) matches Some(parent) ==> 0
            <= parent < states.len() && states[parent] == VisitState::Complete)
}

/// Whether what is put together is so rightly, unless there are complaints.
spec fn right(contexts: Seq<ContextDeclModel>, names: NameTable, state: FlatteningModel) -> bool {
    &&& state.states.len() == contexts.len()
    &&& state.cache.len() == contexts.len()
    &&& forall|i: int|
        0 <= i < contexts.len() && state.states[i] == VisitState::Complete ==> apart(
            (#[trigger] state.cache[i]).fields,
        )
    &&& state.notes.errors.len() == 0 ==> forall|i: int|
        0 <= i < contexts.len() && state.states[i] == VisitState::Complete ==> ready(
            names,
            #[trigger] contexts[i],
            contexts[i].members.len() as int,
            state.states,
        )
    &&& state.notes.errors.len() == 0 ==> forall|i: int, name: Seq<char>|
        0 <= i < contexts.len() && state.states[i] == VisitState::Complete ==> #[trigger] composed(
            names,
            contexts[i],
            name,
            state.cache[i].fields,
            state.cache,
        )
}

/// Whether nothing is taken back.
spec fn kept(before: FlatteningModel, after: FlatteningModel) -> bool {
    &&& before.notes.errors.len() <= after.notes.errors.len()
    &&& after.states.len() == before.states.len()
    &&& after.cache.len() == before.cache.len()
    &&& forall|i: int|
        0 <= i < before.states.len() && before.states[i] != VisitState::Unvisited ==> (
        #[trigger] after.states[i]) == before.states[i] && after.cache[i] == before.cache[i]
}

proof fn lemma_used_same(
    names: NameTable,
    context: ContextDeclModel,
    count: int,
    name: Seq<char>,
    one: Seq<FlatModel>,
    other: Seq<FlatModel>,
)
    requires
        forall|i: int|
            0 <= i < count ==> (#[trigger] parent_of(names, context, i) matches Some(parent)
                ==> one[parent] == other[parent]),
    ensures
        used_field(names, context, count, name, one) == used_field(
            names,
            context,
            count,
            name,
            other,
        ),
    decreases count,
{
    if count > 0 {
        assert(parent_of(names, context, count - 1) matches Some(parent) ==> one[parent]
            == other[parent]);
        lemma_used_same(names, context, count - 1, name, one, other);
    }
}

spec fn on_the_way(states: Seq<VisitState>, stack: Seq<int>) -> bool {
    &&& stack.no_duplicates()
    &&& forall|i: int|
        0 <= i < stack.len() ==> 0 <= #[trigger] stack[i] < states.len() && states[stack[i]]
            == VisitState::Visiting
}

proof fn lemma_flatten(
    contexts: Seq<ContextDeclModel>,
    names: NameTable,
    id: int,
    stack: Seq<int>,
    state: FlatteningModel,
)
    requires
        names_below(names, contexts.len() as int),
        0 <= id < contexts.len(),
        right(contexts, names, state),
        on_the_way(state.states, stack),
    ensures
        ({
            let (flat, after) = flatten(contexts, names, id, stack, state);
            &&& right(contexts, names, after)
            &&& kept(state, after)
            &&& apart(flat.fields)
            &&& after.notes.errors.len() == 0 ==> after.states[id] == VisitState::Complete
                && after.cache[id] == flat
        }),
    decreases contexts.len() - stack.len(), 0int,
{
    let count = contexts.len();
    if state.states[id] == VisitState::Unvisited {
        let more = stack.push(id);
        assert(more.no_duplicates()) by {
            assert forall|i: int, j: int| 0 <= i < j < more.len() implies more[i] != more[j] by {
                if j == stack.len() {
                    assert(state.states[stack[i]] == VisitState::Visiting);
                }
            }
        }
        assert forall|i: int| 0 <= i < more.len() implies 0 <= #[trigger] more[i] < count by {
            if i < stack.len() {
                assert(more[i] == stack[i]);
            }
        }
        lemma_distinct_bound(more, count);
        let entered = state.entering(id);
        assert forall|i: int, name: Seq<char>|
            entered.notes.errors.len() == 0 && 0 <= i < count && entered.states[i]
                == VisitState::Complete implies #[trigger] composed(
            names,
            contexts[i],
            name,
            entered.cache[i].fields,
            entered.cache,
        ) by {
            assert(state.states[i] == VisitState::Complete);
        }
        assert forall|i: int|
            entered.notes.errors.len() == 0 && 0 <= i < count && entered.states[i]
                == VisitState::Complete implies ready(
            names,
            #[trigger] contexts[i],
            contexts[i].members.len() as int,
            entered.states,
        ) by {
            assert(state.states[i] == VisitState::Complete);
            assert(ready(names, contexts[i], contexts[i].members.len() as int, state.states));
        }
        assert(right(contexts, names, entered));
        assert(on_the_way(entered.states, more)) by {
            assert forall|i: int| 0 <= i < more.len() implies 0 <= #[trigger] more[i]
                < entered.states.len() && entered.states[more[i]] == VisitState::Visiting by {
                if i < stack.len() {
                    assert(more[i] == stack[i]);
                    assert(state.states[stack[i]] == VisitState::Visiting);
                }
            }
        }
        let context = contexts[id];
        lemma_uses(contexts, names, context, 0, more, entered, flat_nothing());
        let (used, after) = flatten_uses(
            contexts,
            names,
            context,
            0,
            more,
            entered,
            flat_nothing(),
        );
        assert(more[stack.len() as int] == id);
        assert(after.states[id] == VisitState::Visiting);
        let (flat, notes) = own_members(
            context.members,
            0,
            Seq::empty(),
            Seq::empty(),
            used,
            after.notes,
        );
        lemma_own(
            context.members,
            0,
            Seq::empty(),
            Seq::empty(),
            used,
            after.notes,
            Seq::empty(),
        );
        let left = after.leaving(id, flat, notes);
        let total = context.members.len() as int;
        if notes.errors.len() == 0 {
            assert(after.notes.errors.len() == 0);
            assert forall|i: int|
                0 <= i < count && left.states[i] == VisitState::Complete implies ready(
                names,
                #[trigger] contexts[i],
                contexts[i].members.len() as int,
                left.states,
            ) by {
                let size = contexts[i].members.len() as int;
                if i == id {
                    assert(ready(names, context, total, after.states));
                } else {
                    assert(after.states[i] == VisitState::Complete);
                    assert(ready(names, contexts[i], size, after.states));
                }
                assert forall|k: int|
                    0 <= k < size implies (#[trigger] parent_of(names, contexts[i], k) matches Some(
                    parent,
                ) ==> 0 <= parent < left.states.len() && left.states[parent]
                    == VisitState::Complete) by {}
            }
            assert forall|i: int, name: Seq<char>|
                0 <= i < count && left.states[i] == VisitState::Complete implies #[trigger] composed(
                names,
                contexts[i],
                name,
                left.cache[i].fields,
                left.cache,
            ) by {
                let size = contexts[i].members.len() as int;
                if i == id {
                    lemma_own(
                        context.members,
                        0,
                        Seq::empty(),
                        Seq::empty(),
                        used,
                        after.notes,
                        name,
                    );
                    assert(ready(names, context, total, after.states));
                    assert forall|k: int|
                        0 <= k < total implies (#[trigger] parent_of(names, context, k) matches Some(
                        parent,
                    ) ==> after.cache[parent] == left.cache[parent]) by {}
                    lemma_used_same(names, context, total, name, after.cache, left.cache);
                    assert(field_named(used.fields, name, 0) == used_field(
                        names,
                        context,
                        total,
                        name,
                        after.cache,
                    ));
                } else {
                    assert(after.states[i] == VisitState::Complete);
                    assert(ready(names, contexts[i], size, after.states));
                    assert(composed(
                        names,
                        contexts[i],
                        name,
                        after.cache[i].fields,
                        after.cache,
                    ));
                    assert forall|k: int|
                        0 <= k < size implies (#[trigger] parent_of(names, contexts[i], k)
                        matches Some(parent) ==> after.cache[parent] == left.cache[parent]) by {}
                    lemma_used_same(names, contexts[i], size, name, after.cache, left.cache);
                }
            }
        }
        assert forall|i: int|
            0 <= i < count && left.states[i] == VisitState::Complete implies apart(
            (#[trigger] left.cache[i]).fields,
        ) by {
            if i != id {
                assert(after.states[i] == VisitState::Complete);
                assert(left.cache[i] == after.cache[i]);
            }
        }
        assert(right(contexts, names, left));
        assert forall|i: int|
            0 <= i < state.states.len() && state.states[i] != VisitState::Unvisited implies (
        #[trigger] left.states[i]) == state.states[i] && left.cache[i] == state.cache[i] by {
            assert(i != id);
            assert(entered.states[i] == state.states[i]);
            assert(after.states[i] == entered.states[i]);
        }
    }
}

proof fn lemma_uses(
    contexts: Seq<ContextDeclModel>,
    names: NameTable,
    context: ContextDeclModel,
    from: int,
    stack: Seq<int>,
    state: FlatteningModel,
    flat: FlatModel,
)
    requires
        names_below(names, contexts.len() as int),
        0 <= from <= context.members.len(),
        right(contexts, names, state),
        on_the_way(state.states, stack),
        stack.len() <= contexts.len(),
        apart(flat.fields),
        state.notes.errors.len() == 0 ==> ready(names, context, from, state.states),
        state.notes.errors.len() == 0 ==> forall|name: Seq<char>| #[trigger]
            field_named(flat.fields, name, 0) == used_field(
                names,
                context,
                from,
                name,
                state.cache,
            ),
    ensures
        ({
            let (used, after) = flatten_uses(contexts, names, context, from, stack, state, flat);
            let total = context.members.len() as int;
            &&& right(contexts, names, after)
            &&& kept(state, after)
            &&& apart(used.fields)
            &&& after.notes.errors.len() == 0 ==> ready(names, context, total, after.states)
            &&& after.notes.errors.len() == 0 ==> forall|name: Seq<char>| #[trigger]
                field_named(used.fields, name, 0) == used_field(
                    names,
                    context,
                    total,
                    name,
                    after.cache,
                )
        }),
    decreases contexts.len() - stack.len(), context.members.len() - from + 1,
{
    if from < context.members.len() {
        match context.members[from] {
            ContextMemberModel::UseContext { name: used_name, span } => {
                lemma_resolved(
                    names,
                    "context"@,
                    used_name.value,
                    context.namespace,
                    context.namespace_uses,
                    used_name.span,
                    state.notes,
                    contexts.len() as int,
                );
                match resolved(
                    names,
                    "context"@,
                    used_name.value,
                    context.namespace,
                    context.namespace_uses,
                    used_name.span,
                    state.notes,
                ) {
                    (None, notes) => {
                        assert(notes.errors.len() > 0);
                        lemma_uses(
                            contexts,
                            names,
                            context,
                            from + 1,
                            stack,
                            state.noting(notes),
                            flat,
                        );
                    },
                    (Some(parent), notes) => {
                        assert(notes == state.notes);
                        assert(state.noting(notes) == state);
                        assert(parent_of(names, context, from) == Some(parent));
                        lemma_flatten(contexts, names, parent, stack, state);
                        let (used, after) = flatten(contexts, names, parent, stack, state);
                        let both = FlatModel {
                            fields: with_fields(flat.fields, used.fields, 0),
                            defaults: flat.defaults + used.defaults,
                        };
                        lemma_with_fields(flat.fields, used.fields, 0, Seq::empty());
                        assert forall|i: int| 0 <= i < stack.len() implies 0
                            <= #[trigger] stack[i] < after.states.len() && after.states[stack[i]]
                            == VisitState::Visiting by {
                            assert(state.states[stack[i]] == VisitState::Visiting);
                        }
                        if after.notes.errors.len() == 0 {
                            assert forall|k: int|
                                0 <= k < from + 1 implies (#[trigger] parent_of(
                                names,
                                context,
                                k,
                            ) matches Some(other) ==> 0 <= other < after.states.len()
                                && after.states[other] == VisitState::Complete) by {
                                if k < from {
                                    if let Some(other) = parent_of(names, context, k) {
                                        assert(state.states[other] == VisitState::Complete);
                                    }
                                }
                            }
                            assert forall|name: Seq<char>| #[trigger]
                                field_named(both.fields, name, 0) == used_field(
                                    names,
                                    context,
                                    from + 1,
                                    name,
                                    after.cache,
                                ) by {
                                lemma_with_fields(flat.fields, used.fields, 0, name);
                                assert forall|k: int|
                                    0 <= k < from implies (#[trigger] parent_of(
                                    names,
                                    context,
                                    k,
                                ) matches Some(other) ==> state.cache[other]
                                    == after.cache[other]) by {
                                    if let Some(other) = parent_of(names, context, k) {
                                        assert(state.states[other] == VisitState::Complete);
                                    }
                                }
                                lemma_used_same(
                                    names,
                                    context,
                                    from,
                                    name,
                                    state.cache,
                                    after.cache,
                                );
                                assert(field_named(flat.fields, name, 0) == used_field(
                                    names,
                                    context,
                                    from,
                                    name,
                                    state.cache,
                                ));
                            }
                        }
                        lemma_uses(contexts, names, context, from + 1, stack, after, both);
                        lemma_kept(
                            state,
                            after,
                            flatten_uses(
                                contexts,
                                names,
                                context,
                                from + 1,
                                stack,
                                after,
                                both,
                            ).1,
                        );
                    },
                }
            },
            _ => {
                assert(parent_of(names, context, from) is None);
                assert forall|name: Seq<char>|
                    state.notes.errors.len() == 0 implies #[trigger] field_named(
                    flat.fields,
                    name,
                    0,
                ) == used_field(names, context, from + 1, name, state.cache) by {
                    assert(used_field(names, context, from + 1, name, state.cache) == used_field(
                        names,
                        context,
                        from,
                        name,
                        state.cache,
                    ));
                }
                lemma_uses(contexts, names, context, from + 1, stack, state, flat);
            },
        }
    }
}

proof fn lemma_kept(one: FlatteningModel, two: FlatteningModel, three: FlatteningModel)
    requires
        kept(one, two),
        kept(two, three),
    ensures
        kept(one, three),
{
    assert forall|i: int|
        0 <= i < one.states.len() && one.states[i] != VisitState::Unvisited implies (
    #[trigger] three.states[i]) == one.states[i] && three.cache[i] == one.cache[i] by {
        assert(two.states[i] == one.states[i]);
    }
}

proof fn lemma_all(
    contexts: Seq<ContextDeclModel>,
    names: NameTable,
    from: int,
    state: FlatteningModel,
)
    requires
        names_below(names, contexts.len() as int),
        0 <= from <= contexts.len(),
        right(contexts, names, state),
        state.notes.errors.len() == 0 ==> forall|i: int|
            0 <= i < from ==> #[trigger] state.states[i] == VisitState::Complete,
    ensures
        ({
            let after = flatten_all(contexts, names, from, state);
            &&& right(contexts, names, after)
            &&& state.notes.errors.len() <= after.notes.errors.len()
            &&& after.notes.errors.len() == 0 ==> forall|i: int|
                0 <= i < contexts.len() ==> #[trigger] after.states[i] == VisitState::Complete
        }),
    decreases contexts.len() - from,
{
    if from < contexts.len() {
        lemma_flatten(contexts, names, from, Seq::empty(), state);
        let after = flatten(contexts, names, from, Seq::empty(), state).1;
        assert forall|i: int|
            after.notes.errors.len() == 0 && 0 <= i < from + 1 implies #[trigger] after.states[i]
            == VisitState::Complete by {
            if i < from {
                assert(state.states[i] == VisitState::Complete);
            }
        }
        lemma_all(contexts, names, from + 1, after);
    }
}

/// In a compiled context, what stands under a name is what the context itself
/// declares under that name, if it does. Otherwise it is what the last of the
/// contexts that it uses has under that name, among those that have it; and the
/// plan has a value for each name, which is what that declaration becomes.
pub proof fn law_contexts_override_what_they_use(
    program: ProgramModel,
    capabilities: Seq<CapabilityModel>,
    id: int,
    name: Seq<char>,
    at: int,
)
    requires
        well_named(capabilities),
        compiled(program, capabilities) is Ok,
        0 <= id < program.contexts.len(),
    ensures
        ({
            let names = context_table(program.contexts, program.contexts.len() as int);
            let context = program.contexts[id];
            let cache = flattened(program, capabilities).cache;
            let planned = compiled(program, capabilities)->Ok_0.contexts[id].fields;
            let env = environment_of(program, capabilities);
            &&& composed(names, context, name, cache[id].fields, cache)
            &&& planned.len() == cache[id].fields.len()
            &&& 0 <= at < planned.len() ==> (field_named(
                cache[id].fields,
                planned[at].name,
                0,
            ) matches Some(field) && stands_for(env, id, field, planned[at]))
            &&& own_field(context.members, name, 0) matches Some(field) ==> exists|i: int|
                0 <= i < planned.len() && #[trigger] stands_for(env, id, field, planned[i])
        }),
{
    let contexts = program.contexts;
    let names = context_table(contexts, contexts.len() as int);
    let none = Seq::<SpannedModel>::empty();
    lemma_tables(contexts, program.flows, capabilities, none, contexts.len() as int);
    lemma_compiled_contexts(program, capabilities, id);
    let start = unflattened(contexts.len(), check_names(program, capabilities));
    lemma_all(contexts, names, 0, start);
    let flat = flattened(program, capabilities);
    assert(flat.states[id] == VisitState::Complete);
    let context = contexts[id];
    let fields = flat.cache[id].fields;
    assert(composed(names, context, name, fields, flat.cache));
    let planned = compiled(program, capabilities)->Ok_0.contexts[id].fields;
    let env = environment_of(program, capabilities);
    if 0 <= at < planned.len() {
        assert(stands_for(env, id, fields[at], planned[at]));
        assert(apart(flat.cache[id].fields));
        lemma_named_at(fields, planned[at].name, 0, at);
    }
    if let Some(field) = own_field(context.members, name, 0) {
        lemma_named(fields, name, 0);
        let i = choose|i: int|
            0 <= i < fields.len() && #[trigger] fields[i] == field && field.name.value == name
                && forall|j: int| 0 <= j < i ==> (#[trigger] fields[j]).name.value != name;
        assert(stands_for(env, id, fields[i], planned[i]));
    }
}

} // verus!
