//! Names are bound once.

use vstd::prelude::*;

use crate::assembly::{
    check_parameters, compiled, context_of_file, context_of_flow, environment_of, flattened,
    parameter_table, plan_contexts, plan_flow, plan_flows,
};
use crate::capability::CapabilityModel;
use crate::lowering::{
    lower_conditional, lower_expression, lower_if_branches, lower_row, lower_statement, may_be,
    EnvironmentModel, NotesModel, RowModel, ScopeModel,
};
use crate::names::id_of;
use crate::plan::{ConditionalBranchModel, InstructionModel, MettlePlanModel, ValueType};
use crate::syntax::{DeclarationKind, IfBranchModel, ProgramModel, StatementModel};

verus! {

/// The slot behind those that instructions bind, from `from` on, where each is
/// `low` or above it and comes behind those bound before. There is none where a
/// slot is bound again.
pub open spec fn after_row(instructions: Seq<InstructionModel>, from: int, low: int) -> Option<int>
    decreases instructions, instructions.len() - from,
{
    if from < 0 || from >= instructions.len() {
        Some(low)
    } else {
        match after_instruction(instructions[from], low) {
            Some(next) => after_row(instructions, from + 1, next),
            None => None,
        }
    }
}

pub open spec fn after_instruction(instruction: InstructionModel, low: int) -> Option<int>
    decreases instruction, 0int,
{
    match instruction {
        InstructionModel::Bind { slot, .. } => if slot >= low {
            Some(slot + 1)
        } else {
            None
        },
        InstructionModel::If { branches, else_body } => match after_branches(branches, 0, low) {
            Some(next) => match else_body {
                Some(body) => after_row(body, 0, next),
                None => Some(next),
            },
            None => None,
        },
        _ => Some(low),
    }
}

pub open spec fn after_branches(
    branches: Seq<ConditionalBranchModel>,
    from: int,
    low: int,
) -> Option<int>
    decreases branches, branches.len() - from,
{
    if from < 0 || from >= branches.len() {
        Some(low)
    } else {
        match after_branch(branches[from], low) {
            Some(next) => after_branches(branches, from + 1, next),
            None => None,
        }
    }
}

pub open spec fn after_branch(branch: ConditionalBranchModel, low: int) -> Option<int>
    decreases branch, 0int,
{
    after_row(branch.instructions, 0, low)
}

proof fn lemma_pushed(
    instructions: Seq<InstructionModel>,
    from: int,
    low: int,
    more: InstructionModel,
)
    requires
        0 <= from <= instructions.len(),
    ensures
        after_row(instructions.push(more), from, low) == (match after_row(
            instructions,
            from,
            low,
        ) {
            Some(next) => after_instruction(more, next),
            None => None,
        }),
    decreases instructions.len() - from,
{
    let longer = instructions.push(more);
    if from < instructions.len() {
        assert(longer[from] == instructions[from]);
        if let Some(next) = after_instruction(instructions[from], low) {
            lemma_pushed(instructions, from + 1, next, more);
        }
    } else if let Some(next) = after_instruction(more, low) {
        assert(longer[from] == more);
        assert(after_row(longer, from + 1, next) == Some(next));
    }
}

proof fn lemma_branch_pushed(
    branches: Seq<ConditionalBranchModel>,
    from: int,
    low: int,
    more: ConditionalBranchModel,
)
    requires
        0 <= from <= branches.len(),
    ensures
        after_branches(branches.push(more), from, low) == (match after_branches(
            branches,
            from,
            low,
        ) {
            Some(next) => after_branch(more, next),
            None => None,
        }),
    decreases branches.len() - from,
{
    let longer = branches.push(more);
    if from < branches.len() {
        assert(longer[from] == branches[from]);
        if let Some(next) = after_branch(branches[from], low) {
            lemma_branch_pushed(branches, from + 1, next, more);
        }
    } else if let Some(next) = after_branch(more, low) {
        assert(longer[from] == more);
        assert(after_branches(longer, from + 1, next) == Some(next));
    }
}

/// Whether the slots end at or below a bound.
spec fn within(end: Option<int>, bound: int) -> bool {
    end matches Some(slot) && slot <= bound
}

proof fn lemma_row(
    env: EnvironmentModel,
    statements: Seq<StatementModel>,
    from: int,
    row: RowModel,
    scope: ScopeModel,
    notes: NotesModel,
    done: Seq<InstructionModel>,
    returned: bool,
    low: int,
)
    requires
        within(after_row(done, 0, low), scope.slots),
    ensures
        ({
            let result = lower_row(env, statements, from, row, scope, notes, done, returned);
            &&& within(after_row(result.instructions, 0, low), result.slots)
            &&& result.slots >= scope.slots
        }),
    decreases statements, statements.len() - from,
{
    if 0 <= from < statements.len() {
        if returned {
            let noted = notes.with(
                "statement is unreachable because the flow already returned"@,
                statements[from].span(),
            );
            lemma_row(env, statements, from + 1, row, scope, noted, done, returned, low);
        } else {
            let last = from + 1 == statements.len();
            let result = lower_statement(env, statements[from], last, row, scope, notes);
            let next = after_row(done, 0, low)->0;
            lemma_statement(env, statements[from], last, row, scope, notes, next);
            let longer = match result.instruction {
                Some(instruction) => done.push(instruction),
                None => done,
            };
            if let Some(instruction) = result.instruction {
                lemma_pushed(done, 0, low, instruction);
            }
            lemma_row(
                env,
                statements,
                from + 1,
                row,
                result.scope,
                result.notes,
                longer,
                result.returned,
                low,
            );
        }
    }
}

proof fn lemma_statement(
    env: EnvironmentModel,
    statement: StatementModel,
    last: bool,
    row: RowModel,
    scope: ScopeModel,
    notes: NotesModel,
    low: int,
)
    requires
        low <= scope.slots,
    ensures
        ({
            let result = lower_statement(env, statement, last, row, scope, notes);
            &&& result.instruction matches Some(instruction) ==> within(
                after_instruction(instruction, low),
                result.scope.slots,
            )
            &&& result.scope.slots >= scope.slots
        }),
    decreases statement, 1int,
{
    match statement {
        StatementModel::If { branches, else_body, span } => {
            lemma_conditional(env, statement, last, row, scope, notes, low);
        },
        _ => {},
    }
}

proof fn lemma_conditional(
    env: EnvironmentModel,
    statement: StatementModel,
    last: bool,
    row: RowModel,
    scope: ScopeModel,
    notes: NotesModel,
    low: int,
)
    requires
        low <= scope.slots,
    ensures
        ({
            let result = lower_conditional(env, statement, last, row, scope, notes);
            &&& result.instruction matches Some(instruction) ==> within(
                after_instruction(instruction, low),
                result.scope.slots,
            )
            &&& result.scope.slots >= scope.slots
        }),
    decreases statement, 0int,
{
    match statement {
        StatementModel::If { branches, else_body, span } => {
            let inner = RowModel { block: row.block, tail: row.tail && last, top: false };
            let none = Seq::<ConditionalBranchModel>::empty();
            lemma_branches(env, branches, 0, inner, scope, notes, none, true, low);
            let (lowered, all, slots, noted) = lower_if_branches(
                env,
                branches,
                0,
                inner,
                scope,
                notes,
                none,
                true,
            );
            if let Some(body) = else_body {
                let next = after_branches(lowered, 0, low)->0;
                let later = scope.at_slots(slots);
                lemma_row(env, body, 0, inner, later, noted, Seq::empty(), false, next);
            }
        },
        _ => {},
    }
}

proof fn lemma_branches(
    env: EnvironmentModel,
    branches: Seq<IfBranchModel>,
    from: int,
    row: RowModel,
    scope: ScopeModel,
    notes: NotesModel,
    done: Seq<ConditionalBranchModel>,
    returned: bool,
    low: int,
)
    requires
        within(after_branches(done, 0, low), scope.slots),
    ensures
        ({
            let result = lower_if_branches(
                env,
                branches,
                from,
                row,
                scope,
                notes,
                done,
                returned,
            );
            &&& within(after_branches(result.0, 0, low), result.2)
            &&& result.2 >= scope.slots
        }),
    decreases branches, branches.len() - from,
{
    if 0 <= from < branches.len() {
        let (condition, noted) = lower_expression(env, branches[from].condition, scope, notes);
        let checked = match condition {
            Some(condition) => noted.unless(
                may_be(condition, ValueType::Boolean),
                "if condition must be boolean"@,
                condition.span,
            ),
            None => noted,
        };
        let inside = branches[from].body;
        let next = after_branches(done, 0, low)->0;
        lemma_row(env, inside, 0, row, scope, checked, Seq::empty(), false, next);
        let body = lower_row(env, inside, 0, row, scope, checked, Seq::empty(), false);
        let longer = match condition {
            Some(condition) => done.push(
                ConditionalBranchModel { condition, instructions: body.instructions },
            ),
            None => done,
        };
        if let Some(condition) = condition {
            let branch = ConditionalBranchModel { condition, instructions: body.instructions };
            lemma_branch_pushed(done, 0, low, branch);
            assert(after_branch(branch, next) == after_row(body.instructions, 0, next));
        }
        lemma_branches(
            env,
            branches,
            from + 1,
            row,
            scope.at_slots(body.slots),
            body.notes,
            longer,
            returned && body.returned,
            low,
        );
    }
}

/// Whether a flow binds every slot once, behind those of its parameters.
pub open spec fn binds_once(flow: MettlePlanModel) -> bool {
    after_row(flow.instructions, 0, flow.parameters.len() as int) matches Some(end) && end
        <= flow.local_count
}

proof fn lemma_flows(
    env: EnvironmentModel,
    from: int,
    notes: NotesModel,
    done: Seq<MettlePlanModel>,
)
    requires
        0 <= from <= env.program.flows.len(),
        forall|i: int| 0 <= i < done.len() ==> binds_once(#[trigger] done[i]),
    ensures
        ({
            let flows = plan_flows(env, from, notes, done).0;
            forall|i: int| 0 <= i < flows.len() ==> binds_once(#[trigger] flows[i])
        }),
    decreases env.program.flows.len() - from,
{
    if from < env.program.flows.len() {
        let flow = env.program.flows[from];
        let (file, filed) = context_of_file(env, flow, notes);
        let count = flow.parameters.len() as int;
        let checked = check_parameters(flow.parameters, count, filed);
        let (context, found) = context_of_flow(env, flow, 0, false, false, file, checked);
        let scope = ScopeModel {
            flow: Some(from),
            test: flow.kind == DeclarationKind::Test,
            locals: parameter_table(flow.parameters, count),
            slots: count,
            context,
        };
        let row = RowModel { block: false, tail: false, top: true };
        lemma_row(env, flow.body, 0, row, scope, found, Seq::empty(), false, count);
        let (planned, noted) = plan_flow(env, from, notes);
        assert(binds_once(planned));
        let more = done.push(planned);
        lemma_flows(env, from + 1, noted, more);
        assert(plan_flows(env, from, notes, done) == plan_flows(env, from + 1, noted, more));
    }
}

/// Bindings are immutable: no flow of a compiled plan binds a slot twice, nor
/// one of its parameters.
pub proof fn law_names_are_bound_once(
    program: ProgramModel,
    capabilities: Seq<CapabilityModel>,
    id: int,
)
    ensures
        compiled(program, capabilities) matches Ok(plan) ==> (0 <= id < plan.flows.len()
            ==> binds_once(plan.flows[id])),
{
    let env = environment_of(program, capabilities);
    let flat = flattened(program, capabilities);
    let noted = plan_contexts(env, flat.cache, 0, flat.notes, Seq::empty()).1;
    lemma_flows(env, 0, noted, Seq::empty());
}

/// A name that is already there cannot be bound again: that is complained about,
/// and nothing is bound.
pub proof fn law_names_are_not_bound_again(
    env: EnvironmentModel,
    statement: StatementModel,
    last: bool,
    row: RowModel,
    scope: ScopeModel,
    notes: NotesModel,
)
    requires
        statement is Bind,
        id_of(scope.locals, statement->Bind_name.value) is Some,
    ensures
        ({
            let result = lower_statement(env, statement, last, row, scope, notes);
            &&& result.instruction is None
            &&& result.scope == scope
            &&& result.notes.errors.len() == notes.errors.len() + 1
        }),
{
}

} // verus!
