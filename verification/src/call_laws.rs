//! Programs that compile do not call in circles.

use vstd::prelude::*;

use crate::assembly::{
    compiled, planned, untraced, visit_all, visit_edges, visit_flow, TraceModel, VisitState,
};
use crate::capability::CapabilityModel;
use crate::lowering::EdgeModel;
use crate::names::display_name;
use crate::syntax::{ErrorModel, MettleDeclModel, ProgramModel};

verus! {

/// Whether one flow calls another.
pub open spec fn calls(edges: Seq<EdgeModel>, from: int, target: int) -> bool {
    exists|e: int|
        0 <= e < edges.len() && (#[trigger] edges[e]).from == from && edges[e].target == target
}

/// Whether each flow of a path calls the next one.
pub open spec fn is_path(edges: Seq<EdgeModel>, count: nat, path: Seq<int>) -> bool {
    &&& forall|i: int| 0 <= i < path.len() ==> 0 <= #[trigger] path[i] < count
    &&& forall|i: int| 0 <= i < path.len() - 1 ==> calls(edges, #[trigger] path[i], path[i + 1])
}

/// Whether the flows of a path call each other in a circle.
pub open spec fn is_circle(edges: Seq<EdgeModel>, count: nat, path: Seq<int>) -> bool {
    &&& path.len() > 0
    &&& is_path(edges, count, path)
    &&& calls(edges, path.last(), path[0])
}

/// Whether what the flow at a place calls stands before it.
spec fn settled(edges: Seq<EdgeModel>, count: nat, finished: Seq<int>, at: int) -> bool {
    forall|e: int|
        0 <= e < edges.len() && (#[trigger] edges[e]).from == finished[at] && 0 <= edges[e].target
            < count ==> finished.take(at).contains(edges[e].target)
}

/// What is known of a trace: the flows that are being followed, one called by
/// the other, and those that were followed to the end, in that order.
spec fn known(
    edges: Seq<EdgeModel>,
    count: nat,
    states: Seq<VisitState>,
    stack: Seq<int>,
    finished: Seq<int>,
) -> bool {
    &&& states.len() == count
    &&& stack.no_duplicates()
    &&& finished.no_duplicates()
    &&& forall|i: int| 0 <= i < stack.len() ==> 0 <= #[trigger] stack[i] < count
    &&& forall|i: int| 0 <= i < finished.len() ==> 0 <= #[trigger] finished[i] < count
    &&& forall|v: int|
        0 <= v < count ==> ((#[trigger] states[v]) == VisitState::Visiting <==> stack.contains(v))
    &&& forall|v: int|
        0 <= v < count ==> ((#[trigger] states[v]) == VisitState::Complete <==> finished.contains(
            v,
        ))
    &&& forall|at: int| 0 <= at < finished.len() ==> #[trigger] settled(edges, count, finished, at)
}

pub(crate) proof fn lemma_distinct_bound(values: Seq<int>, count: nat)
    requires
        values.no_duplicates(),
        forall|i: int| 0 <= i < values.len() ==> 0 <= #[trigger] values[i] < count,
    ensures
        values.len() <= count,
{
    values.unique_seq_to_set();
    vstd::set_lib::lemma_int_range(0, count as int);
    let range = vstd::set_lib::set_int_range(0, count as int);
    assert(values.to_set().subset_of(range)) by {
        assert forall|v: int| values.to_set().contains(v) implies range.contains(v) by {
            let i = choose|i: int| 0 <= i < values.len() && values[i] == v;
            assert(0 <= values[i] < count);
        }
    }
    vstd::set_lib::lemma_len_subset(values.to_set(), range);
}

proof fn lemma_flow_errors_grow(
    flows: Seq<MettleDeclModel>,
    edges: Seq<EdgeModel>,
    flow: int,
    depth: int,
    trace: TraceModel,
)
    ensures
        visit_flow(flows, edges, flow, depth, trace).errors.len() >= trace.errors.len(),
    decreases flows.len() - depth, 0int,
{
    if trace.states[flow] == VisitState::Unvisited && depth < flows.len() {
        lemma_edge_errors_grow(
            flows,
            edges,
            0,
            flow,
            depth + 1,
            TraceModel { states: trace.states.update(flow, VisitState::Visiting), ..trace },
        );
    }
}

proof fn lemma_edge_errors_grow(
    flows: Seq<MettleDeclModel>,
    edges: Seq<EdgeModel>,
    from: int,
    flow: int,
    depth: int,
    trace: TraceModel,
)
    ensures
        visit_edges(flows, edges, from, flow, depth, trace).errors.len() >= trace.errors.len(),
    decreases flows.len() - depth, edges.len() - from + 1,
{
    if 0 <= from < edges.len() {
        if edges[from].from != flow || !(0 <= edges[from].target < flows.len()) {
            lemma_edge_errors_grow(flows, edges, from + 1, flow, depth, trace);
        } else if trace.states[edges[from].target] == VisitState::Visiting {
            let next = TraceModel {
                errors: trace.errors.push(
                    ErrorModel {
                        message: "recursive flow calls are not supported: `"@
                            + display_name(flows[flow], flow) + "` calls `"@
                            + display_name(
                            flows[edges[from].target],
                            edges[from].target,
                        ) + "`"@,
                        span: edges[from].span,
                    },
                ),
                ..trace
            };
            lemma_edge_errors_grow(flows, edges, from + 1, flow, depth, next);
        } else {
            let next = visit_flow(flows, edges, edges[from].target, depth, trace);
            lemma_flow_errors_grow(flows, edges, edges[from].target, depth, trace);
            lemma_edge_errors_grow(flows, edges, from + 1, flow, depth, next);
        }
    }
}

/// Following a flow without an error leads to the end of what it calls.
proof fn lemma_visit_flow(
    flows: Seq<MettleDeclModel>,
    edges: Seq<EdgeModel>,
    flow: int,
    trace: TraceModel,
    stack: Seq<int>,
    finished: Seq<int>,
) -> (longer: Seq<int>)
    requires
        0 <= flow < flows.len(),
        known(edges, flows.len(), trace.states, stack, finished),
        visit_flow(flows, edges, flow, stack.len() as int, trace).errors.len()
            <= trace.errors.len(),
    ensures
        known(
            edges,
            flows.len(),
            visit_flow(flows, edges, flow, stack.len() as int, trace).states,
            stack,
            longer,
        ),
        forall|v: int| finished.contains(v) ==> longer.contains(v),
        stack.contains(flow) || longer.contains(flow),
    decreases flows.len() - stack.len(), 0int,
{
    let depth = stack.len() as int;
    if trace.states[flow] != VisitState::Unvisited {
        finished
    } else {
        assert(!stack.contains(flow));
        let deeper = stack.push(flow);
        assert forall|i: int| 0 <= i < deeper.len() implies 0 <= #[trigger] deeper[i]
            < flows.len() by {
            if i < stack.len() {
                assert(deeper[i] == stack[i]);
            }
        }
        assert(deeper.no_duplicates()) by {
            assert forall|i: int, j: int|
                0 <= i < deeper.len() && 0 <= j < deeper.len() && i != j implies deeper[i]
                != deeper[j] by {
                if i < stack.len() && j < stack.len() {
                    assert(stack[i] != stack[j]);
                } else if i < stack.len() {
                    assert(stack.contains(stack[i]));
                } else {
                    assert(stack.contains(stack[j]));
                }
            }
        }
        lemma_distinct_bound(deeper, flows.len());
        let entered = TraceModel {
            states: trace.states.update(flow, VisitState::Visiting),
            ..trace
        };
        assert(known(edges, flows.len(), entered.states, deeper, finished)) by {
            assert forall|v: int| 0 <= v < flows.len() implies ((#[trigger] entered.states[v])
                == VisitState::Visiting <==> deeper.contains(v)) by {
                if v == flow {
                    assert(deeper[stack.len() as int] == flow);
                } else {
                    assert(trace.states[v] == VisitState::Visiting <==> stack.contains(v));
                    if stack.contains(v) {
                        let i = choose|i: int| 0 <= i < stack.len() && stack[i] == v;
                        assert(deeper[i] == v);
                    }
                    if deeper.contains(v) {
                        let i = choose|i: int| 0 <= i < deeper.len() && deeper[i] == v;
                        assert(stack[i] == v);
                    }
                }
            }
            assert forall|v: int| 0 <= v < flows.len() implies ((#[trigger] entered.states[v])
                == VisitState::Complete <==> finished.contains(v)) by {
                assert(trace.states[v] == VisitState::Complete <==> finished.contains(v));
            }
        }
        let reached = lemma_visit_edges(flows, edges, 0, flow, entered, deeper, finished);
        let after = visit_edges(flows, edges, 0, flow, depth + 1, entered);
        let longer = reached.push(flow);
        assert(deeper[stack.len() as int] == flow);
        assert(deeper.contains(flow));
        assert(after.states[flow] == VisitState::Visiting);
        assert(!reached.contains(flow));
        let states = after.states.update(flow, VisitState::Complete);
        assert(known(edges, flows.len(), states, stack, longer)) by {
            assert forall|i: int| 0 <= i < longer.len() implies 0 <= #[trigger] longer[i]
                < flows.len() by {
                if i < reached.len() {
                    assert(longer[i] == reached[i]);
                }
            }
            assert(longer.no_duplicates()) by {
                assert forall|i: int, j: int|
                    0 <= i < longer.len() && 0 <= j < longer.len() && i != j implies longer[i]
                    != longer[j] by {
                    if i < reached.len() && j < reached.len() {
                        assert(reached[i] != reached[j]);
                    } else if i < reached.len() {
                        assert(reached.contains(reached[i]));
                    } else {
                        assert(reached.contains(reached[j]));
                    }
                }
            }
            assert forall|v: int| 0 <= v < flows.len() implies ((#[trigger] states[v])
                == VisitState::Visiting <==> stack.contains(v)) by {
                if v != flow {
                    assert(after.states[v] == VisitState::Visiting <==> deeper.contains(v));
                    if stack.contains(v) {
                        let i = choose|i: int| 0 <= i < stack.len() && stack[i] == v;
                        assert(deeper[i] == v);
                    }
                    if deeper.contains(v) {
                        let i = choose|i: int| 0 <= i < deeper.len() && deeper[i] == v;
                        assert(stack[i] == v);
                    }
                }
            }
            assert forall|v: int| 0 <= v < flows.len() implies ((#[trigger] states[v])
                == VisitState::Complete <==> longer.contains(v)) by {
                if v == flow {
                    assert(longer[reached.len() as int] == flow);
                } else {
                    assert(after.states[v] == VisitState::Complete <==> reached.contains(v));
                    if reached.contains(v) {
                        let i = choose|i: int| 0 <= i < reached.len() && reached[i] == v;
                        assert(longer[i] == v);
                    }
                    if longer.contains(v) {
                        let i = choose|i: int| 0 <= i < longer.len() && longer[i] == v;
                        assert(reached[i] == v);
                    }
                }
            }
            assert forall|at: int| 0 <= at < longer.len() implies #[trigger] settled(
                edges,
                flows.len(),
                longer,
                at,
            ) by {
                if at < reached.len() {
                    assert(settled(edges, flows.len(), reached, at));
                    assert(longer.take(at) =~= reached.take(at));
                    assert(longer[at] == reached[at]);
                } else {
                    assert(longer.take(at) =~= reached);
                }
            }
        }
        assert forall|v: int| finished.contains(v) implies longer.contains(v) by {
            assert(reached.contains(v));
            let i = choose|i: int| 0 <= i < reached.len() && reached[i] == v;
            assert(longer[i] == v);
        }
        assert(longer[reached.len() as int] == flow);
        longer
    }
}

/// Following calls without an error leads to the end of all that they call.
proof fn lemma_visit_edges(
    flows: Seq<MettleDeclModel>,
    edges: Seq<EdgeModel>,
    from: int,
    flow: int,
    trace: TraceModel,
    stack: Seq<int>,
    finished: Seq<int>,
) -> (longer: Seq<int>)
    requires
        0 <= from <= edges.len(),
        known(edges, flows.len(), trace.states, stack, finished),
        visit_edges(flows, edges, from, flow, stack.len() as int, trace).errors.len()
            <= trace.errors.len(),
    ensures
        known(
            edges,
            flows.len(),
            visit_edges(flows, edges, from, flow, stack.len() as int, trace).states,
            stack,
            longer,
        ),
        forall|v: int| finished.contains(v) ==> longer.contains(v),
        forall|e: int|
            from <= e < edges.len() && (#[trigger] edges[e]).from == flow && 0 <= edges[e].target
                < flows.len() ==> longer.contains(edges[e].target),
    decreases flows.len() - stack.len(), edges.len() - from + 1,
{
    let depth = stack.len() as int;
    if from >= edges.len() {
        finished
    } else if edges[from].from != flow || !(0 <= edges[from].target < flows.len()) {
        lemma_visit_edges(flows, edges, from + 1, flow, trace, stack, finished)
    } else {
        let target = edges[from].target;
        lemma_edge_errors_grow(flows, edges, from, flow, depth, trace);
        if trace.states[target] == VisitState::Visiting {
            let next = TraceModel {
                errors: trace.errors.push(
                    ErrorModel {
                        message: "recursive flow calls are not supported: `"@
                            + display_name(flows[flow], flow) + "` calls `"@
                            + display_name(flows[target], target) + "`"@,
                        span: edges[from].span,
                    },
                ),
                ..trace
            };
            lemma_edge_errors_grow(flows, edges, from + 1, flow, depth, next);
            assert(false);
            finished
        } else {
            let next = visit_flow(flows, edges, target, depth, trace);
            lemma_flow_errors_grow(flows, edges, target, depth, trace);
            lemma_edge_errors_grow(flows, edges, from + 1, flow, depth, next);
            let reached = lemma_visit_flow(flows, edges, target, trace, stack, finished);
            assert(!stack.contains(target));
            lemma_visit_edges(flows, edges, from + 1, flow, next, stack, reached)
        }
    }
}

proof fn lemma_visit_all(
    flows: Seq<MettleDeclModel>,
    edges: Seq<EdgeModel>,
    from: int,
    trace: TraceModel,
    finished: Seq<int>,
) -> (longer: Seq<int>)
    requires
        0 <= from <= flows.len(),
        known(edges, flows.len(), trace.states, Seq::empty(), finished),
        visit_all(flows, edges, from, trace).errors.len() <= trace.errors.len(),
    ensures
        known(
            edges,
            flows.len(),
            visit_all(flows, edges, from, trace).states,
            Seq::empty(),
            longer,
        ),
        forall|v: int| finished.contains(v) ==> longer.contains(v),
        forall|v: int| from <= v < flows.len() ==> #[trigger] longer.contains(v),
    decreases flows.len() - from,
{
    if from >= flows.len() {
        finished
    } else {
        let next = visit_flow(flows, edges, from, 0, trace);
        lemma_flow_errors_grow(flows, edges, from, 0, trace);
        lemma_all_errors_grow(flows, edges, from + 1, next);
        let none = Seq::<int>::empty();
        let reached = lemma_visit_flow(flows, edges, from, trace, none, finished);
        assert(!none.contains(from));
        lemma_visit_all(flows, edges, from + 1, next, reached)
    }
}

pub(crate) proof fn lemma_all_errors_grow(
    flows: Seq<MettleDeclModel>,
    edges: Seq<EdgeModel>,
    from: int,
    trace: TraceModel,
)
    ensures
        visit_all(flows, edges, from, trace).errors.len() >= trace.errors.len(),
    decreases flows.len() - from,
{
    if 0 <= from < flows.len() {
        let next = visit_flow(flows, edges, from, 0, trace);
        lemma_flow_errors_grow(flows, edges, from, 0, trace);
        lemma_all_errors_grow(flows, edges, from + 1, next);
    }
}

/// Along a path flows are finished earlier and earlier.
proof fn lemma_path(edges: Seq<EdgeModel>, count: nat, finished: Seq<int>, path: Seq<int>, at: int)
    requires
        is_path(edges, count, path),
        0 <= at < path.len(),
        forall|v: int| 0 <= v < count ==> #[trigger] finished.contains(v),
        finished.no_duplicates(),
        forall|i: int| 0 <= i < finished.len() ==> #[trigger] settled(edges, count, finished, i),
    ensures
        finished.index_of(path[at]) <= finished.index_of(path[0]) - at,
        0 <= finished.index_of(path[at]) < finished.len(),
        finished[finished.index_of(path[at])] == path[at],
    decreases at,
{
    assert(0 <= path[at] < count);
    assert(finished.contains(path[at]));
    if at > 0 {
        lemma_path(edges, count, finished, path, at - 1);
        lemma_call(edges, count, finished, path[at - 1], path[at]);
    }
}

proof fn lemma_call(edges: Seq<EdgeModel>, count: nat, finished: Seq<int>, from: int, target: int)
    requires
        calls(edges, from, target),
        0 <= from < count,
        0 <= target < count,
        forall|v: int| 0 <= v < count ==> #[trigger] finished.contains(v),
        finished.no_duplicates(),
        forall|i: int| 0 <= i < finished.len() ==> #[trigger] settled(edges, count, finished, i),
    ensures
        finished.index_of(target) < finished.index_of(from),
{
    assert(finished.contains(from));
    assert(finished.contains(target));
    let at = finished.index_of(from);
    assert(settled(edges, count, finished, at));
    let e = choose|e: int|
        0 <= e < edges.len() && (#[trigger] edges[e]).from == from && edges[e].target == target;
    assert(edges[e].from == finished[at]);
    assert(finished.take(at).contains(target));
    let j = choose|j: int| 0 <= j < at && finished.take(at)[j] == target;
    assert(finished[j] == target);
    assert(finished.index_of(target) == j);
}

/// The flows of a program that compiles do not call each other in a circle.
pub proof fn law_calls_do_not_recur(
    program: ProgramModel,
    capabilities: Seq<CapabilityModel>,
    path: Seq<int>,
)
    ensures
        compiled(program, capabilities) is Ok ==> !is_circle(
            planned(program, capabilities).2.edges,
            program.flows.len(),
            path,
        ),
{
    let flows = program.flows;
    let notes = planned(program, capabilities).2;
    let edges = notes.edges;
    let count = flows.len();
    if compiled(program, capabilities) is Ok && is_circle(edges, count, path) {
        let start = untraced(count, notes.errors);
        let none = Seq::<int>::empty();
        assert(known(edges, count, start.states, none, none)) by {
            assert forall|v: int| 0 <= v < count implies ((#[trigger] start.states[v])
                == VisitState::Visiting <==> none.contains(v)) by {}
            assert forall|v: int| 0 <= v < count implies ((#[trigger] start.states[v])
                == VisitState::Complete <==> none.contains(v)) by {}
        }
        let finished = lemma_visit_all(flows, edges, 0, start, none);
        let last = path.len() - 1;
        lemma_path(edges, count, finished, path, last);
        assert(0 <= path[0] < count);
        assert(0 <= path[last] < count);
        lemma_call(edges, count, finished, path.last(), path[0]);
        assert(false);
    }
}

} // verus!
