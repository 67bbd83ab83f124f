//! How calls find what they call, and their arguments the parameters.

use vstd::prelude::*;

use crate::capability::OperationModel;
use crate::compile_laws::{becomes, lemma_list};
use crate::lowering::{
    arranged, complete, counted, handed, lower_flow_call, lower_list, lower_operation, lower_values,
    name_values, operation_of, order_named, resolved, slot_of, EnvironmentModel, NotesModel,
    ScopeModel,
};
use crate::names::{id_of, resolution, ResolutionModel};
use crate::plan::{PlanExpressionKindModel, PlanExpressionModel};
use crate::syntax::{ExpressionKindModel, ExpressionModel, ObjectFieldModel};

verus! {

// ---------------------------------------------------------------------------
// Parameters

pub(crate) proof fn lemma_slot(names: Seq<Seq<char>>, name: Seq<char>, from: int)
    requires
        0 <= from <= names.len(),
    ensures
        match slot_of(names, name, from) {
            Some(at) => from <= at < names.len() && names[at] == name,
            None => forall|i: int| from <= i < names.len() ==> #[trigger] names[i] != name,
        },
    decreases names.len() - from,
{
    if from < names.len() && names[from] != name {
        lemma_slot(names, name, from + 1);
    }
}

/// Whether each number of an order occurs once.
pub open spec fn once_each(order: Seq<int>) -> bool {
    forall|i: int, j: int| 0 <= i < j < order.len() ==> #[trigger] order[i] != #[trigger] order[j]
}

proof fn lemma_order(
    parameters: Seq<Seq<char>>,
    named: Seq<ObjectFieldModel>,
    from: int,
    callee: Seq<char>,
    order: Seq<int>,
    fine: bool,
    notes: NotesModel,
)
    requires
        0 <= from <= named.len(),
        once_each(order),
    ensures
        ({
            let (all, good, _) = order_named(
                parameters,
                named,
                from,
                Some(callee),
                order,
                fine,
                notes,
            );
            &&& once_each(all)
            &&& order.len() <= all.len()
            &&& forall|i: int| 0 <= i < order.len() ==> #[trigger] all[i] == order[i]
            &&& good ==> fine && all.len() == order.len() + named.len() - from && forall|k: int|
                from <= k < named.len() ==> {
                    let slot = #[trigger] all[order.len() + k - from];
                    0 <= slot < parameters.len() && parameters[slot] == named[k].name.value
                }
        }),
    decreases named.len() - from,
{
    if from < named.len() {
        let name = named[from].name;
        lemma_slot(parameters, name.value, 0);
        match slot_of(parameters, name.value, 0) {
            None => {
                let noted = notes.with(
                    "flow `"@ + callee + "` has no parameter `"@ + name.value + "`"@,
                    name.span,
                );
                lemma_order(parameters, named, from + 1, callee, order, false, noted);
            },
            Some(parameter) => {
                if order.contains(parameter) {
                    let noted = notes.with(
                        "argument `"@ + name.value + "` was supplied more than once"@,
                        name.span,
                    );
                    lemma_order(parameters, named, from + 1, callee, order, false, noted);
                } else {
                    let more = order.push(parameter);
                    assert(once_each(more)) by {
                        assert forall|i: int, j: int| 0 <= i < j < more.len() implies
                            #[trigger] more[i] != #[trigger] more[j] by {
                            if j == order.len() {
                                assert(order.contains(order[i]));
                            }
                        }
                    }
                    lemma_order(parameters, named, from + 1, callee, more, fine, notes);
                    let (all, good, _) = order_named(
                        parameters,
                        named,
                        from,
                        Some(callee),
                        order,
                        fine,
                        notes,
                    );
                    assert forall|i: int| 0 <= i < order.len() implies #[trigger] all[i]
                        == order[i] by {
                        assert(all[i] == more[i]);
                    }
                    assert(all[order.len() as int] == more[order.len() as int]);
                    if good {
                        assert forall|k: int| from <= k < named.len() implies ({
                            let slot = #[trigger] all[order.len() + k - from];
                            0 <= slot < parameters.len() && parameters[slot] == named[k].name.value
                        }) by {
                            if k > from {
                                assert(all[more.len() + k - (from + 1)] == all[order.len() + k
                                    - from]);
                            }
                        }
                    }
                }
            },
        }
    }
}

/// The first arguments of a call of a flow stand for its first parameters, in
/// their order; each named one stands for the parameter of its name, and no
/// parameter has two.
pub proof fn law_named_arguments_find_their_parameters(
    parameters: Seq<Seq<char>>,
    positional: nat,
    named: Seq<ObjectFieldModel>,
    callee: Seq<char>,
    notes: NotesModel,
)
    ensures
        ({
            let (order, fine, _) = order_named(
                parameters,
                named,
                0,
                Some(callee),
                counted(positional),
                true,
                notes,
            );
            &&& once_each(order)
            &&& forall|i: int| 0 <= i < positional ==> #[trigger] order[i] == i
            &&& fine ==> order.len() == positional + named.len() && forall|k: int|
                0 <= k < named.len() ==> {
                    let slot = #[trigger] order[positional + k];
                    0 <= slot < parameters.len() && parameters[slot] == named[k].name.value
                }
        }),
{
    let first = counted(positional);
    lemma_order(parameters, named, 0, callee, first, true, notes);
    let (order, fine, _) = order_named(parameters, named, 0, Some(callee), first, true, notes);
    assert forall|i: int| 0 <= i < positional implies #[trigger] order[i] == i by {
        assert(order[i] == first[i]);
    }
    if fine {
        assert forall|k: int| 0 <= k < named.len() implies ({
            let slot = #[trigger] order[positional + k];
            0 <= slot < parameters.len() && parameters[slot] == named[k].name.value
        }) by {
            assert(order[first.len() + k - 0] == order[positional + k]);
        }
    }
}

proof fn lemma_arranged(
    values: Seq<PlanExpressionModel>,
    order: Seq<int>,
    expected: nat,
    count: int,
    at: int,
)
    requires
        0 <= at < count <= order.len(),
        once_each(order),
        0 <= order[at] < expected,
    ensures
        arranged(values, order, expected, count).len() == expected,
        arranged(values, order, expected, count)[order[at]] == Some(values[at]),
    decreases count,
{
    lemma_arranged_length(values, order, expected, count - 1);
    if at < count - 1 {
        lemma_arranged(values, order, expected, count - 1, at);
        assert(order[at] != order[count - 1]);
    }
}

proof fn lemma_arranged_length(
    values: Seq<PlanExpressionModel>,
    order: Seq<int>,
    expected: nat,
    count: int,
)
    ensures
        arranged(values, order, expected, count).len() == expected,
    decreases count,
{
    if count > 0 {
        lemma_arranged_length(values, order, expected, count - 1);
    }
}

/// Where each parameter of a call has an argument, the call hands each argument
/// over in the place of the parameter that it stands for.
pub proof fn law_arguments_go_to_their_parameters(
    values: Seq<PlanExpressionModel>,
    order: Seq<int>,
    expected: nat,
    at: int,
)
    requires
        once_each(order),
        0 <= at < order.len(),
        0 <= order[at] < expected,
        complete(values, order, expected) is Some,
    ensures
        handed(values, order, expected, true).len() == expected,
        handed(values, order, expected, true)[order[at]] == values[at],
{
    reveal(handed);
    lemma_arranged(values, order, expected, order.len() as int, at);
}

proof fn lemma_in_order(values: Seq<PlanExpressionModel>, expected: nat)
    requires
        values.len() == expected,
    ensures
        handed(values, counted(expected), expected, true) == values,
{
    reveal(handed);
    let order = counted(expected);
    let slots = arranged(values, order, expected, expected as int);
    assert forall|i: int| 0 <= i < expected implies #[trigger] slots[i] == Some(values[i]) by {
        lemma_arranged(values, order, expected, expected as int, i);
        assert(order[i] == i);
    }
    lemma_arranged_length(values, order, expected, expected as int);
    assert(handed(values, order, expected, true) =~= values);
}

// ---------------------------------------------------------------------------
// Calls

/// A call of a flow calls the flow that its name means where it stands, and
/// arguments without names are handed over in their order.
pub proof fn law_flow_calls_keep_their_arguments(
    env: EnvironmentModel,
    expression: ExpressionModel,
    scope: ScopeModel,
    notes: NotesModel,
    at: int,
)
    requires
        expression.kind is Call,
    ensures
        lower_flow_call(env, expression, scope, notes).0 matches Some(planned) ==> {
            &&& expression.kind matches ExpressionKindModel::Call {
                callee,
                arguments,
                named_arguments,
                options,
            }
            &&& scope.flow matches Some(home)
            &&& planned.kind matches PlanExpressionKindModel::MettleCall {
                flow,
                arguments: given,
                evaluation_order,
            }
            &&& resolution(
                env.flows,
                callee.value,
                env.program.flows[home].namespace,
                env.program.flows[home].namespace_uses,
            ) == ResolutionModel::Found(flow)
            &&& named_arguments.len() == 0 && arguments.len()
                == env.program.flows[flow].parameters.len() && given.len() == arguments.len()
                && 0 <= at < arguments.len() ==> becomes(env, scope, arguments[at], given[at])
                && evaluation_order[at] == at
        },
{
    if let (
        ExpressionKindModel::Call { callee, arguments, named_arguments, options },
        Some(home),
    ) = (expression.kind, scope.flow) {
        let place = env.program.flows[home];
        if let (Some(target), noted) = resolved(
            env.flows,
            "flow"@,
            callee.value,
            place.namespace,
            place.namespace_uses,
            callee.span,
            notes,
        ) {
            let parameters = name_values(env.program.flows[target].parameters);
            let count = arguments.len();
            if named_arguments.len() == 0 && count == parameters.len() && 0 <= at < count {
                let blocked = noted.unless(
                    options.len() == 0,
                    "option blocks are only supported by capability operations"@,
                    expression.span,
                );
                let (order, fine, ordered) = order_named(
                    parameters,
                    named_arguments,
                    0,
                    Some(callee.value),
                    counted(count),
                    true,
                    blocked,
                );
                assert(order == counted(count) && fine && ordered == blocked);
                let notices = lower_flow_call_notices(
                    ordered,
                    parameters,
                    count,
                    callee.value,
                    expression,
                );
                let (first, some) = lower_list(env, arguments, 0, scope, notices, Seq::empty());
                assert(lower_values(env, named_arguments, 0, scope, some, first) == (first, some));
                lemma_list(env, arguments, 0, scope, notices, Seq::empty(), at);
                if first.len() == count {
                    lemma_in_order(first, count);
                    assert(becomes(env, scope, arguments[at], first[at]));
                } else {
                    lemma_not_complete(first, count);
                }
                assert(counted(count)[at] == at);
            }
        }
    }
}

spec fn lower_flow_call_notices(
    ordered: NotesModel,
    parameters: Seq<Seq<char>>,
    provided: nat,
    callee: Seq<char>,
    expression: ExpressionModel,
) -> NotesModel {
    ordered.unless(
        provided == parameters.len(),
        "flow `"@ + callee + "` expects "@ + crate::text::decimal(parameters.len())
            + " argument(s), but "@ + crate::text::decimal(provided) + " were provided"@,
        expression.span,
    )
}

proof fn lemma_not_complete(values: Seq<PlanExpressionModel>, expected: nat)
    requires
        values.len() != expected,
    ensures
        handed(values, counted(expected), expected, true) == values,
{
    reveal(handed);
}

pub(crate) proof fn lemma_operation(
    operations: Seq<OperationModel>,
    name: Seq<char>,
    from: int,
)
    requires
        0 <= from <= operations.len(),
    ensures
        match operation_of(operations, name, from) {
            Some(at) => from <= at < operations.len() && operations[at].name == name,
            None => forall|i: int| from <= i < operations.len() ==> (#[trigger] operations[i]).name
                != name,
        },
    decreases operations.len() - from,
{
    if from < operations.len() && operations[from].name != name {
        lemma_operation(operations, name, from + 1);
    }
}

/// A call of an operation calls the operation of that name, of the capability of
/// that name.
pub proof fn law_operations_are_called_by_name(
    env: EnvironmentModel,
    expression: ExpressionModel,
    capability: Seq<char>,
    operation: Seq<char>,
    scope: ScopeModel,
    notes: NotesModel,
)
    ensures
        lower_operation(env, expression, capability, operation, scope, notes).0 matches Some(
            planned,
        ) ==> {
            &&& planned.kind matches PlanExpressionKindModel::CapabilityCall {
                capability: id,
                operation: at,
                arguments,
                options,
                evaluation_order,
            }
            &&& id_of(env.capability_names, capability) == Some(id)
            &&& 0 <= at < env.capabilities[id].operations.len()
            &&& env.capabilities[id].operations[at].name == operation
        },
{
    if let Some(id) = id_of(env.capability_names, capability) {
        lemma_operation(env.capabilities[id].operations, operation, 0);
    }
}

} // verus!
