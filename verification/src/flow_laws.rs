//! What the parts of a flow do when it runs.

use vstd::prelude::*;

use crate::execution::{
    argument_locals, completed, evaluate, evaluate_listed, choose_branch, run, run_flow, run_one,
    stored, ActiveContextModel, FrameModel, ProgressModel, Ran, RunModel, StopModel, WorldModel,
};
use crate::plan::{
    ConditionalBranchModel, InstructionModel, MettlePlanModel, PlanExpressionKindModel,
    PlanExpressionModel,
};
use crate::syntax::DeclarationKind;
use crate::value::{order, ValueModel};

verus! {

/// Where expressions are evaluated.
pub struct PlaceModel {
    pub world: WorldModel,
    pub locals: Seq<Option<ValueModel>>,
    pub context: ActiveContextModel,
    pub frame: FrameModel,
}

impl PlaceModel {
    /// Whether an expression has a value here, and evaluating it leads from one
    /// point of progress to another.
    pub open spec fn gives(
        self,
        expression: PlanExpressionModel,
        before: ProgressModel,
        value: ValueModel,
        after: ProgressModel,
    ) -> bool {
        evaluate(self.world, expression, self.locals, self.context, self.frame, before) == (
            Ok::<ValueModel, StopModel>(value),
            after,
        )
    }

    pub open spec fn with(self, locals: Seq<Option<ValueModel>>) -> PlaceModel {
        PlaceModel { locals, ..self }
    }

    /// How a row of instructions runs here.
    pub open spec fn runs(
        self,
        instructions: Seq<InstructionModel>,
        collect: bool,
        state: RunModel,
    ) -> Ran {
        run(self.world, instructions, 0, collect, self.context, self.frame, state)
    }

    pub open spec fn runs_one(
        self,
        instruction: InstructionModel,
        collect: bool,
        state: RunModel,
    ) -> Ran {
        run_one(self.world, instruction, collect, self.context, self.frame, state)
    }
}

pub open spec fn expression_of(kind: PlanExpressionKindModel, like: PlanExpressionModel) -> PlanExpressionModel {
    PlanExpressionModel { kind, ..like }
}

/// Whether a value is a truth value, openly or as a secret.
pub open spec fn tells(value: ValueModel, truth: bool) -> bool {
    value == ValueModel::Boolean(truth) || value == ValueModel::Sensitive(
        Box::new(ValueModel::Boolean(truth)),
    )
}

proof fn lemma_tells(value: ValueModel, truth: bool)
    requires
        tells(value, truth),
    ensures
        value.revealed() == ValueModel::Boolean(truth),
{
    reveal_with_fuel(ValueModel::revealed, 3);
}

// ---------------------------------------------------------------------------
// Statements

/// Whether the conditions of the first branches come to nothing but `false`, one
/// after the other; `steps` are the points of progress on the way.
pub open spec fn all_false(
    place: PlaceModel,
    branches: Seq<ConditionalBranchModel>,
    count: int,
    steps: Seq<ProgressModel>,
) -> bool {
    forall|i: int|
        0 <= i < count ==> exists|value: ValueModel| #[trigger]
            place.gives(branches[i].condition, #[trigger] steps[i], value, steps[i + 1]) && tells(
                value,
                false,
            )
}

proof fn lemma_passed_over(
    place: PlaceModel,
    branches: Seq<ConditionalBranchModel>,
    from: int,
    count: int,
    steps: Seq<ProgressModel>,
)
    requires
        0 <= from <= count <= branches.len(),
        all_false(place, branches, count, steps),
    ensures
        choose_branch(
            place.world,
            branches,
            from,
            place.locals,
            place.context,
            place.frame,
            steps[from],
        ) == choose_branch(
            place.world,
            branches,
            count,
            place.locals,
            place.context,
            place.frame,
            steps[count],
        ),
    decreases count - from,
{
    if from < count {
        let before = steps[from];
        let value = choose|value: ValueModel| #[trigger]
            place.gives(branches[from].condition, before, value, steps[from + 1]) && tells(
                value,
                false,
            );
        lemma_tells(value, false);
        lemma_passed_over(place, branches, from + 1, count, steps);
    }
}

/// Of the branches of an `if`, the first whose condition is true runs, and no
/// other; where no condition is true the `else` runs, if there is one.
pub proof fn law_the_first_true_branch_runs(
    place: PlaceModel,
    branches: Seq<ConditionalBranchModel>,
    else_body: Option<Seq<InstructionModel>>,
    collect: bool,
    state: RunModel,
    chosen: int,
    value: ValueModel,
    steps: Seq<ProgressModel>,
)
    requires
        place.locals == state.locals,
        0 <= chosen <= branches.len(),
        steps.len() > chosen,
        steps[0] == state.progress,
        all_false(place, branches, chosen, steps),
        chosen < branches.len() ==> place.gives(
            branches[chosen].condition,
            steps[chosen],
            value,
            steps[chosen + 1],
        ) && tells(value, true),
    ensures
        chosen < branches.len() ==> place.runs_one(
            InstructionModel::If { branches, else_body },
            collect,
            state,
        ) == place.runs(branches[chosen].instructions, collect, state.at(steps[chosen + 1])),
        chosen == branches.len() ==> (else_body matches Some(body) ==> place.runs_one(
            InstructionModel::If { branches, else_body },
            collect,
            state,
        ) == place.runs(body, collect, state.at(steps[chosen]))),
        chosen == branches.len() && else_body is None ==> place.runs_one(
            InstructionModel::If { branches, else_body },
            collect,
            state,
        ) == (Ok::<Option<ValueModel>, StopModel>(None), state.at(steps[chosen])),
{
    lemma_passed_over(place, branches, 0, chosen, steps);
    if chosen < branches.len() {
        lemma_tells(value, true);
    }
}

/// A name stands for the value that it was bound to, and every other name for
/// what it stood for before.
pub proof fn law_bound_names_stand_for_their_values(
    place: PlaceModel,
    slot: int,
    expression: PlanExpressionModel,
    collect: bool,
    state: RunModel,
    value: ValueModel,
    after: ProgressModel,
    other: int,
    later: ProgressModel,
)
    requires
        place.locals == state.locals,
        0 <= slot < state.locals.len(),
        place.gives(expression, state.progress, value, after),
    ensures
        ({
            let (result, bound) = place.runs_one(
                InstructionModel::Bind { slot, expression },
                collect,
                state,
            );
            let local = |slot: int| expression_of(PlanExpressionKindModel::Local(slot), expression);
            &&& result == Ok::<Option<ValueModel>, StopModel>(None)
            &&& bound.progress == after
            &&& bound.assertions == state.assertions
            &&& place.with(bound.locals).gives(local(slot), later, value, later)
            &&& other != slot ==> evaluate(
                place.world,
                local(other),
                bound.locals,
                place.context,
                place.frame,
                later,
            ) == evaluate(
                place.world,
                local(other),
                state.locals,
                place.context,
                place.frame,
                later,
            )
        }),
{
}

proof fn lemma_rows(
    place: PlaceModel,
    first: Seq<InstructionModel>,
    second: Seq<InstructionModel>,
    from: int,
    collect: bool,
    state: RunModel,
)
    requires
        0 <= from <= first.len(),
    ensures
        ({
            let part = run(
                place.world,
                first,
                from,
                collect,
                place.context,
                place.frame,
                state,
            );
            let whole = run(
                place.world,
                first + second,
                from,
                collect,
                place.context,
                place.frame,
                state,
            );
            if part.0 == Ok::<Option<ValueModel>, StopModel>(None) {
                whole == place.runs(second, collect, part.1)
            } else {
                whole == part
            }
        }),
    decreases first.len() - from,
{
    if from < first.len() {
        assert((first + second)[from] == first[from]);
        let (result, after) = place.runs_one(first[from], collect, state);
        if result == Ok::<Option<ValueModel>, StopModel>(None) {
            lemma_rows(place, first, second, from + 1, collect, after);
        }
    } else {
        lemma_shifted(place, first, second, 0, collect, state);
    }
}

proof fn lemma_shifted(
    place: PlaceModel,
    first: Seq<InstructionModel>,
    second: Seq<InstructionModel>,
    from: int,
    collect: bool,
    state: RunModel,
)
    requires
        0 <= from <= second.len(),
    ensures
        run(
            place.world,
            first + second,
            first.len() + from,
            collect,
            place.context,
            place.frame,
            state,
        ) == run(place.world, second, from, collect, place.context, place.frame, state),
    decreases second.len() - from,
{
    if from < second.len() {
        assert((first + second)[first.len() + from] == second[from]);
        let (result, after) = place.runs_one(second[from], collect, state);
        if result == Ok::<Option<ValueModel>, StopModel>(None) {
            lemma_shifted(place, first, second, from + 1, collect, after);
        }
    }
}

/// Instructions run one after the other, up to the first that returns a value
/// or stops: nothing behind that one runs.
pub proof fn law_rows_run_in_order(
    place: PlaceModel,
    first: Seq<InstructionModel>,
    second: Seq<InstructionModel>,
    collect: bool,
    state: RunModel,
)
    ensures
        place.runs(first, collect, state).0 == Ok::<Option<ValueModel>, StopModel>(None)
            ==> place.runs(first + second, collect, state) == place.runs(
            second,
            collect,
            place.runs(first, collect, state).1,
        ),
        place.runs(first, collect, state).0 != Ok::<Option<ValueModel>, StopModel>(None)
            ==> place.runs(first + second, collect, state) == place.runs(first, collect, state),
{
    lemma_rows(place, first, second, 0, collect, state);
}

/// A `return` gives the value of its expression, and a statement that is an
/// expression gives none and changes no name.
pub proof fn law_returns_give_their_value(
    place: PlaceModel,
    expression: PlanExpressionModel,
    collect: bool,
    state: RunModel,
    value: ValueModel,
    after: ProgressModel,
)
    requires
        place.locals == state.locals,
        place.gives(expression, state.progress, value, after),
    ensures
        place.runs_one(InstructionModel::Return(expression), collect, state) == (
            Ok::<Option<ValueModel>, StopModel>(Some(value)),
            state.at(after),
        ),
        place.runs_one(InstructionModel::Evaluate(expression), collect, state) == (
            Ok::<Option<ValueModel>, StopModel>(None),
            state.at(after),
        ),
        place.runs_one(InstructionModel::Return(expression), collect, state).1.locals
            == state.locals,
{
}

/// An assertion that holds changes nothing. One that does not hold ends a flow;
/// in a test it is noted, and the test goes on.
pub proof fn law_assertions_have_to_hold(
    place: PlaceModel,
    condition: PlanExpressionModel,
    message: Option<PlanExpressionModel>,
    collect: bool,
    state: RunModel,
    value: ValueModel,
    after: ProgressModel,
    truth: bool,
)
    requires
        place.locals == state.locals,
        place.gives(condition, state.progress, value, after),
        tells(value, truth),
    ensures
        ({
            let (result, checked) = place.runs_one(
                InstructionModel::Assert { condition, message },
                collect,
                state,
            );
            &&& truth ==> result == Ok::<Option<ValueModel>, StopModel>(None) && checked
                == state.at(after)
            &&& !truth && !collect ==> result is Err
            &&& !truth && collect && message is None ==> {
                &&& result == Ok::<Option<ValueModel>, StopModel>(None)
                &&& checked.assertions.len() == state.assertions.len() + 1
                &&& checked.assertions.drop_last() == state.assertions
                &&& checked.locals == state.locals
            }
        }),
{
    lemma_tells(value, truth);
    let (result, checked) = place.runs_one(
        InstructionModel::Assert { condition, message },
        collect,
        state,
    );
    if !truth && collect && message is None {
        assert(checked.assertions.drop_last() =~= state.assertions);
    }
}

/// A test whose instructions ran fails exactly if an assertion did not hold. A
/// flow comes to the value that it returned, and to none where it returned none.
pub proof fn law_tests_fail_by_their_assertions(
    flow: MettlePlanModel,
    frame: FrameModel,
    returned: Option<ValueModel>,
    state: RunModel,
)
    ensures
        ({
            let ran: Ran = (Ok(returned), state);
            let (result, progress) = completed(flow, frame, ran);
            &&& progress == state.progress
            &&& returned matches Some(value) ==> result == Ok::<ValueModel, StopModel>(value)
            &&& returned is None && flow.kind == DeclarationKind::Test ==> (result is Ok
                <==> state.assertions.len() == 0)
            &&& returned is None && flow.kind != DeclarationKind::Test ==> result is Err
        }),
{
}

// ---------------------------------------------------------------------------
// Flows

proof fn lemma_stays(
    place: PlaceModel,
    order: Seq<int>,
    from: int,
    arguments: Seq<PlanExpressionModel>,
    progress: ProgressModel,
    values: Seq<Option<ValueModel>>,
    slot: int,
)
    requires
        0 <= from <= order.len(),
        0 <= slot < values.len(),
        forall|i: int| from <= i < order.len() ==> #[trigger] order[i] != slot,
    ensures
        evaluate_listed(
            place.world,
            order,
            from,
            arguments,
            place.locals,
            place.context,
            place.frame,
            progress,
            values,
        ).0 matches Ok(found) ==> found.len() == values.len() && found[slot] == values[slot],
    decreases order.len() - from,
{
    if from < order.len() {
        if 0 <= order[from] < arguments.len() {
            if let (Ok(value), after) = evaluate(
                place.world,
                arguments[order[from]],
                place.locals,
                place.context,
                place.frame,
                progress,
            ) {
                lemma_stays(
                    place,
                    order,
                    from + 1,
                    arguments,
                    after,
                    stored(values, order[from], value),
                    slot,
                );
            }
        } else {
            lemma_stays(place, order, from + 1, arguments, progress, values, slot);
        }
    }
}

/// Whether an argument has its value somewhere on the way through the arguments.
pub open spec fn comes_to(
    place: PlaceModel,
    argument: PlanExpressionModel,
    value: ValueModel,
) -> bool {
    exists|before: ProgressModel, after: ProgressModel| #[trigger]
        place.gives(argument, before, value, after)
}

proof fn lemma_listed(
    place: PlaceModel,
    order: Seq<int>,
    from: int,
    arguments: Seq<PlanExpressionModel>,
    progress: ProgressModel,
    values: Seq<Option<ValueModel>>,
    at: int,
)
    requires
        0 <= from <= at < order.len(),
        order.no_duplicates(),
        values.len() == arguments.len(),
        0 <= order[at] < arguments.len(),
    ensures
        evaluate_listed(
            place.world,
            order,
            from,
            arguments,
            place.locals,
            place.context,
            place.frame,
            progress,
            values,
        ).0 matches Ok(found) ==> found.len() == values.len() && (found[order[at]] matches Some(
            value,
        ) && comes_to(place, arguments[order[at]], value)),
    decreases order.len() - from,
{
    if 0 <= order[from] < arguments.len() {
        if let (Ok(value), after) = evaluate(
            place.world,
            arguments[order[from]],
            place.locals,
            place.context,
            place.frame,
            progress,
        ) {
            let more = stored(values, order[from], value);
            if from == at {
                assert(place.gives(arguments[order[at]], progress, value, after));
                lemma_stays(place, order, from + 1, arguments, after, more, order[at]);
            } else {
                lemma_listed(place, order, from + 1, arguments, after, more, at);
            }
        }
    } else {
        lemma_listed(place, order, from + 1, arguments, progress, values, at);
    }
}

/// A call hands the value of each argument to the parameter of its place: inside
/// the flow, that parameter stands for that value. The call comes to what the
/// flow comes to.
pub proof fn law_arguments_reach_their_parameters(
    place: PlaceModel,
    flow: int,
    arguments: Seq<PlanExpressionModel>,
    order: Seq<int>,
    call: PlanExpressionModel,
    progress: ProgressModel,
    at: int,
    inside: PlaceModel,
    later: ProgressModel,
)
    requires
        call.kind == (PlanExpressionKindModel::MettleCall {
            flow,
            arguments,
            evaluation_order: order,
        }),
        order.no_duplicates(),
        0 <= at < order.len(),
        0 <= order[at] < arguments.len(),
        0 <= flow < place.world.plan.flows.len(),
        arguments.len() <= place.world.plan.flows[flow].local_count,
    ensures
        evaluate(
            place.world,
            call,
            place.locals,
            place.context,
            place.frame,
            progress,
        ).0 is Ok ==> exists|values: Seq<ValueModel>, start: ProgressModel|
            {
                &&& values.len() == arguments.len()
                &&& comes_to(place, arguments[order[at]], values[order[at]])
                &&& inside.with(
                    argument_locals(values, place.world.plan.flows[flow].local_count),
                ).gives(
                    expression_of(PlanExpressionKindModel::Local(order[at]), call),
                    later,
                    values[order[at]],
                    later,
                )
                &&& evaluate(
                    place.world,
                    call,
                    place.locals,
                    place.context,
                    place.frame,
                    progress,
                ) == #[trigger] run_flow(
                    place.world,
                    place.world.plan.flows[flow],
                    values,
                    place.context,
                    place.frame.calling(place.world.plan.flows[flow].display_name),
                    start,
                )
            },
{
    let empty = crate::execution::empty_slots(arguments.len());
    let listed = evaluate_listed(
        place.world,
        order,
        0,
        arguments,
        place.locals,
        place.context,
        place.frame,
        progress,
        empty,
    );
    if evaluate(
        place.world,
        call,
        place.locals,
        place.context,
        place.frame,
        progress,
    ).0 is Ok {
        lemma_listed(place, order, 0, arguments, progress, empty, at);
        let found = listed.0->Ok_0;
        let values = crate::execution::taken(found);
        assert(values[order[at]] == found[order[at]]->0);
        let start = listed.1;
        let result = run_flow(
            place.world,
            place.world.plan.flows[flow],
            values,
            place.context,
            place.frame.calling(place.world.plan.flows[flow].display_name),
            start,
        );
    }
}

} // verus!
