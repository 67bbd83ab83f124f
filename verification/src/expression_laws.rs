//! What expressions come to when they are evaluated.

use vstd::prelude::*;

use crate::duration::Duration;
use crate::execution::{
    evaluate, evaluate_fields, evaluate_list, evaluate_parts, evaluate_rounds, items_of,
    named_branches, round_locals, variable, ProgressModel, ReplyModel, RequestModel, RunModel,
    StopModel,
};
use crate::flow_laws::{comes_to, expression_of, tells, PlaceModel};
use crate::object_laws::law_insert;
use crate::plan::{
    ConstantModel, InstructionModel, PlanBranchModel, PlanExpressionKindModel,
    PlanExpressionModel, PlanFieldModel, StringPartModel,
};
use crate::syntax::BinaryOperator;
use crate::value::{equals, inserted, lookup, order, shown, sorted, EntryModel, Order, ValueModel};

verus! {

pub type Evaluation = crate::execution::Evaluated;

impl PlaceModel {
    pub open spec fn evaluates(
        self,
        expression: PlanExpressionModel,
        progress: ProgressModel,
    ) -> Evaluation {
        evaluate(self.world, expression, self.locals, self.context, self.frame, progress)
    }
}

/// What is written between two operands.
pub open spec fn written(operator: BinaryOperator) -> Seq<char> {
    match operator {
        BinaryOperator::Equal => "=="@,
        BinaryOperator::NotEqual => "!="@,
        BinaryOperator::Less => "<"@,
        BinaryOperator::LessEqual => "<="@,
        BinaryOperator::Greater => ">"@,
        BinaryOperator::GreaterEqual => ">="@,
        BinaryOperator::And => "and"@,
        BinaryOperator::Or => "or"@,
    }
}

/// Whether two numbers are as a comparison says that is written between them.
pub open spec fn compares(symbol: Seq<char>, left: int, right: int) -> bool {
    ||| symbol == "=="@ && left == right
    ||| symbol == "!="@ && left != right
    ||| symbol == "<"@ && left < right
    ||| symbol == "<="@ && left <= right
    ||| symbol == ">"@ && left > right
    ||| symbol == ">="@ && left >= right
}

pub open spec fn is_comparison(symbol: Seq<char>) -> bool {
    symbol == "=="@ || symbol == "!="@ || symbol == "<"@ || symbol == "<="@ || symbol == ">"@
        || symbol == ">="@
}

proof fn lemma_symbols()
    ensures
        "=="@ != "!="@,
        "=="@ != "<"@,
        "=="@ != "<="@,
        "=="@ != ">"@,
        "=="@ != ">="@,
        "!="@ != "<"@,
        "!="@ != "<="@,
        "!="@ != ">"@,
        "!="@ != ">="@,
        "<"@ != "<="@,
        "<"@ != ">"@,
        "<"@ != ">="@,
        "<="@ != ">"@,
        "<="@ != ">="@,
        ">"@ != ">="@,
        !is_comparison("and"@),
        !is_comparison("or"@),
{
    reveal_strlit("==");
    reveal_strlit("!=");
    reveal_strlit("<");
    reveal_strlit("<=");
    reveal_strlit(">");
    reveal_strlit(">=");
    reveal_strlit("and");
    reveal_strlit("or");
    assert("=="@[0] == '=' && "!="@[0] == '!' && "<"@[0] == '<' && "<="@[0] == '<');
    assert(">"@[0] == '>' && ">="@[0] == '>' && "or"@[0] == 'o');
    assert("=="@.len() == 2 && "!="@.len() == 2 && "<"@.len() == 1 && "<="@.len() == 2);
    assert(">"@.len() == 1 && ">="@.len() == 2 && "and"@.len() == 3 && "or"@.len() == 2);
}

/// Two whole numbers, or two spans of time, compare as numbers do by what is
/// written between them.
pub proof fn law_numbers_compare(
    place: PlaceModel,
    left: PlanExpressionModel,
    operator: BinaryOperator,
    right: PlanExpressionModel,
    whole: PlanExpressionModel,
    first: ValueModel,
    second: ValueModel,
    steps: Seq<ProgressModel>,
)
    requires
        whole.kind == (PlanExpressionKindModel::Binary {
            left: Box::new(left),
            operator,
            right: Box::new(right),
        }),
        is_comparison(written(operator)),
        place.gives(left, steps[0], first, steps[1]),
        place.gives(right, steps[1], second, steps[2]),
    ensures
        first matches ValueModel::Integer(a) ==> (second matches ValueModel::Integer(b)
            ==> place.gives(
            whole,
            steps[0],
            ValueModel::Boolean(compares(written(operator), a as int, b as int)),
            steps[2],
        )),
        first matches ValueModel::Duration(a) ==> (second matches ValueModel::Duration(b)
            ==> place.gives(
            whole,
            steps[0],
            ValueModel::Boolean(compares(written(operator), a.nanos as int, b.nanos as int)),
            steps[2],
        )),
{
    lemma_symbols();
}

/// Texts compare by the first character in which they differ, and a text comes
/// before those that it is the start of.
pub proof fn law_texts_compare(
    place: PlaceModel,
    left: PlanExpressionModel,
    operator: BinaryOperator,
    right: PlanExpressionModel,
    whole: PlanExpressionModel,
    start: Seq<char>,
    first: Seq<char>,
    second: Seq<char>,
    steps: Seq<ProgressModel>,
)
    requires
        whole.kind == (PlanExpressionKindModel::Binary {
            left: Box::new(left),
            operator,
            right: Box::new(right),
        }),
        is_comparison(written(operator)),
        place.gives(left, steps[0], ValueModel::String(start + first), steps[1]),
        place.gives(right, steps[1], ValueModel::String(start + second), steps[2]),
        first.len() > 0 && second.len() > 0 ==> first[0] != second[0],
    ensures
        ({
            let a = if first.len() > 0 {
                first[0] as u32 as int
            } else {
                -1
            };
            let b = if second.len() > 0 {
                second[0] as u32 as int
            } else {
                -1
            };
            place.gives(
                whole,
                steps[0],
                ValueModel::Boolean(compares(written(operator), a, b)),
                steps[2],
            )
        }),
{
    lemma_symbols();
    let one = start + first;
    let other = start + second;
    lemma_common_start(start, first, second, 0);
    if first.len() > 0 && second.len() > 0 {
        lemma_codes(first[0], second[0]);
    }
    if first.len() > 0 {
        assert(one[start.len() as int] == first[0]);
    }
    if second.len() > 0 {
        assert(other[start.len() as int] == second[0]);
    }
    let a = if first.len() > 0 {
        first[0] as u32 as int
    } else {
        -1
    };
    let b = if second.len() > 0 {
        second[0] as u32 as int
    } else {
        -1
    };
    assert(one.len() == start.len() + first.len() && other.len() == start.len() + second.len());
    assert(order(one, other) == crate::value::order_from(one, other, start.len() as int));
    assert(order(one, other) == (if a < b {
        Order::Before
    } else if a > b {
        Order::After
    } else {
        Order::Same
    }));
    if first.len() == 0 && second.len() == 0 {
        assert(one =~= other);
    } else {
        assert(one != other) by {
            if one == other {
                assert(first.len() == second.len());
            }
        }
    }
    assert((one == other) == (a == b)) by {
        if one == other && first.len() > 0 {
            assert(one[start.len() as int] == other[start.len() as int]);
        }
    }
    assert(equals(ValueModel::String(one), ValueModel::String(other)) == (a == b));
}

proof fn lemma_codes(a: char, b: char)
    ensures
        a as u32 >= 0,
        a != b ==> a as u32 != b as u32,
{
}

proof fn lemma_common_start(start: Seq<char>, first: Seq<char>, second: Seq<char>, from: int)
    requires
        0 <= from <= start.len(),
    ensures
        crate::value::order_from(start + first, start + second, from)
            == crate::value::order_from(start + first, start + second, start.len() as int),
    decreases start.len() - from,
{
    if from < start.len() {
        assert((start + first)[from] == start[from] && (start + second)[from] == start[from]);
        lemma_common_start(start, first, second, from + 1);
    }
}

/// Values that have no numbers with a point in them are equal exactly if they are
/// the same, and unequal otherwise.
pub proof fn law_the_same_is_equal(
    place: PlaceModel,
    left: PlanExpressionModel,
    operator: BinaryOperator,
    right: PlanExpressionModel,
    whole: PlanExpressionModel,
    first: ValueModel,
    second: ValueModel,
    steps: Seq<ProgressModel>,
)
    requires
        whole.kind == (PlanExpressionKindModel::Binary {
            left: Box::new(left),
            operator,
            right: Box::new(right),
        }),
        place.gives(left, steps[0], first, steps[1]),
        place.gives(right, steps[1], second, steps[2]),
        !(first is Float) && !(first is Array) && !(first is Object) && !(first is Sensitive),
    ensures
        written(operator) == "=="@ ==> place.gives(
            whole,
            steps[0],
            ValueModel::Boolean(first == second),
            steps[2],
        ),
        written(operator) == "!="@ ==> place.gives(
            whole,
            steps[0],
            ValueModel::Boolean(first != second),
            steps[2],
        ),
{
    lemma_symbols();
    reveal_strlit("and");
    reveal_strlit("or");
    reveal_strlit("==");
    reveal_strlit("!=");
    assert("and"@.len() == 3 && "or"@[0] == 'o' && "=="@[0] == '=' && "!="@[0] == '!');
}

/// `and` is true if both of its operands are, `or` if one of them is. Where the
/// first operand decides, the second is not evaluated.
pub proof fn law_connectives_connect(
    place: PlaceModel,
    left: PlanExpressionModel,
    operator: BinaryOperator,
    right: PlanExpressionModel,
    whole: PlanExpressionModel,
    first: ValueModel,
    second: ValueModel,
    one: bool,
    other: bool,
    steps: Seq<ProgressModel>,
)
    requires
        whole.kind == (PlanExpressionKindModel::Binary {
            left: Box::new(left),
            operator,
            right: Box::new(right),
        }),
        place.gives(left, steps[0], first, steps[1]),
        tells(first, one),
    ensures
        written(operator) == "and"@ && !one ==> place.gives(
            whole,
            steps[0],
            ValueModel::Boolean(false),
            steps[1],
        ),
        written(operator) == "or"@ && one ==> place.gives(
            whole,
            steps[0],
            ValueModel::Boolean(true),
            steps[1],
        ),
        place.gives(right, steps[1], second, steps[2]) && tells(second, other) ==> {
            &&& written(operator) == "and"@ && one ==> place.gives(
                whole,
                steps[0],
                ValueModel::Boolean(one && other),
                steps[2],
            )
            &&& written(operator) == "or"@ && !one ==> place.gives(
                whole,
                steps[0],
                ValueModel::Boolean(one || other),
                steps[2],
            )
        },
{
    reveal_with_fuel(ValueModel::revealed, 3);
    reveal_strlit("and");
    reveal_strlit("or");
    reveal_strlit("==");
    reveal_strlit("!=");
    reveal_strlit("<");
    reveal_strlit("<=");
    reveal_strlit(">");
    reveal_strlit(">=");
    assert("and"@.len() == 3 && "or"@.len() == 2 && "=="@.len() == 2 && "!="@.len() == 2);
    assert("<"@.len() == 1 && "<="@.len() == 2 && ">"@.len() == 1 && ">="@.len() == 2);
    assert("or"@[0] == 'o' && "=="@[0] == '=' && "!="@[0] == '!');
    assert("<="@[0] == '<' && ">="@[0] == '>');
}

/// `not` turns truth round, and a minus the sign of a number.
pub proof fn law_signs_turn_round(
    place: PlaceModel,
    operand: PlanExpressionModel,
    like: PlanExpressionModel,
    value: ValueModel,
    truth: bool,
    steps: Seq<ProgressModel>,
)
    requires
        place.gives(operand, steps[0], value, steps[1]),
    ensures
        tells(value, truth) ==> place.gives(
            expression_of(PlanExpressionKindModel::Not(Box::new(operand)), like),
            steps[0],
            ValueModel::Boolean(!truth),
            steps[1],
        ),
        value matches ValueModel::Integer(number) ==> (number != i64::MIN ==> place.gives(
            expression_of(PlanExpressionKindModel::Negate(Box::new(operand)), like),
            steps[0],
            ValueModel::Integer((0 - number) as i64),
            steps[1],
        )),
        value matches ValueModel::Integer(number) ==> (number == i64::MIN ==> place.evaluates(
            expression_of(PlanExpressionKindModel::Negate(Box::new(operand)), like),
            steps[0],
        ).0 is Err),
{
    reveal_with_fuel(ValueModel::revealed, 3);
}

/// Literals stand for themselves, names of the environment for its variables,
/// the first of a name, and names of the context for its values.
pub proof fn law_literals_and_names(
    place: PlaceModel,
    like: PlanExpressionModel,
    progress: ProgressModel,
    number: i64,
    truth: bool,
    text: Seq<char>,
    nanos: u64,
    at: int,
)
    ensures
        ({
            let constant = |constant: ConstantModel|
                expression_of(PlanExpressionKindModel::Constant(constant), like);
            &&& place.gives(
                constant(ConstantModel::Integer(number)),
                progress,
                ValueModel::Integer(number),
                progress,
            )
            &&& place.gives(
                constant(ConstantModel::Boolean(truth)),
                progress,
                ValueModel::Boolean(truth),
                progress,
            )
            &&& place.gives(
                constant(ConstantModel::String(text)),
                progress,
                ValueModel::String(text),
                progress,
            )
            &&& place.gives(
                constant(ConstantModel::DurationNanos(nanos)),
                progress,
                ValueModel::Duration(crate::duration::Duration { nanos: nanos as u128 }),
                progress,
            )
            &&& place.gives(constant(ConstantModel::Null), progress, ValueModel::Null, progress)
        }),
        0 <= at < place.context.values.len() ==> place.gives(
            expression_of(PlanExpressionKindModel::Context(at), like),
            progress,
            place.context.values[at],
            progress,
        ),
        ({
            let environment = place.world.environment;
            let name = environment[at].0;
            0 <= at < environment.len() && (forall|i: int|
                0 <= i < at ==> (#[trigger] environment[i]).0 != name) ==> place.gives(
                expression_of(PlanExpressionKindModel::Environment(name), like),
                progress,
                ValueModel::String(environment[at].1),
                progress,
            )
        }),
        (forall|i: int|
            0 <= i < place.world.environment.len() ==> (#[trigger] place.world.environment[i]).0
                != text) ==> place.evaluates(
            expression_of(PlanExpressionKindModel::Environment(text), like),
            progress,
        ).0 is Err,
{
    let environment = place.world.environment;
    if 0 <= at < environment.len() {
        let name = environment[at].0;
        if forall|i: int| 0 <= i < at ==> (#[trigger] environment[i]).0 != name {
            lemma_variable(environment, name, at, 0);
        }
    }
    if forall|i: int| 0 <= i < environment.len() ==> (#[trigger] environment[i]).0 != text {
        lemma_variable(environment, text, environment.len() as int, 0);
    }
}

proof fn lemma_variable(
    environment: Seq<(Seq<char>, Seq<char>)>,
    name: Seq<char>,
    at: int,
    from: int,
)
    requires
        0 <= from <= at <= environment.len(),
        forall|i: int| 0 <= i < at ==> (#[trigger] environment[i]).0 != name,
        at < environment.len() ==> environment[at].0 == name,
    ensures
        variable(environment, name, from) == (if at < environment.len() {
            Some(environment[at].1)
        } else {
            None
        }),
    decreases at - from,
{
    if from < at {
        lemma_variable(environment, name, at, from + 1);
    }
}

proof fn lemma_list(
    place: PlaceModel,
    values: Seq<PlanExpressionModel>,
    from: int,
    progress: ProgressModel,
    done: Seq<ValueModel>,
    at: int,
)
    requires
        0 <= from <= values.len(),
        done.len() == from,
        0 <= at < values.len(),
        at < from ==> comes_to(place, values[at], done[at]),
    ensures
        evaluate_list(
            place.world,
            values,
            from,
            place.locals,
            place.context,
            place.frame,
            progress,
            done,
        ).0 matches Ok(found) ==> found.len() == values.len() && comes_to(
            place,
            values[at],
            found[at],
        ),
    decreases values.len() - from,
{
    if from < values.len() {
        if let (Ok(value), after) = place.evaluates(values[from], progress) {
            assert(place.gives(values[from], progress, value, after));
            lemma_list(place, values, from + 1, after, done.push(value), at);
        }
    }
}

/// An array has the values of its elements, in their order.
pub proof fn law_arrays_keep_their_order(
    place: PlaceModel,
    values: Seq<PlanExpressionModel>,
    like: PlanExpressionModel,
    progress: ProgressModel,
    at: int,
)
    requires
        0 <= at < values.len(),
    ensures
        place.evaluates(
            expression_of(PlanExpressionKindModel::Array(values), like),
            progress,
        ).0 matches Ok(value) ==> (value matches ValueModel::Array(found) && found.len()
            == values.len() && comes_to(place, values[at], found[at])),
{
    lemma_list(place, values, 0, progress, Seq::empty(), at);
}

proof fn lemma_fields(
    place: PlaceModel,
    fields: Seq<PlanFieldModel>,
    from: int,
    progress: ProgressModel,
    done: Seq<EntryModel>,
    at: int,
)
    requires
        0 <= from <= fields.len(),
        sorted(done),
        0 <= at < fields.len(),
        forall|i: int| at < i < fields.len() ==> (#[trigger] fields[i]).name != fields[at].name,
        at < from ==> (lookup(done, fields[at].name) matches Some(value) && comes_to(
            place,
            fields[at].expression,
            value,
        )),
    ensures
        evaluate_fields(
            place.world,
            fields,
            from,
            place.locals,
            place.context,
            place.frame,
            progress,
            done,
        ).0 matches Ok(found) ==> sorted(found) && (lookup(found, fields[at].name) matches Some(
            value,
        ) && comes_to(place, fields[at].expression, value)),
    decreases fields.len() - from,
{
    if from < fields.len() {
        if let (Ok(value), after) = place.evaluates(fields[from].expression, progress) {
            assert(place.gives(fields[from].expression, progress, value, after));
            law_insert(done, fields[from].name, value, fields[at].name);
            lemma_fields(
                place,
                fields,
                from + 1,
                after,
                inserted(done, fields[from].name, value),
                at,
            );
        }
    }
}

/// An object has the value of each field under its name, the last of a name.
pub proof fn law_objects_hold_their_fields(
    place: PlaceModel,
    fields: Seq<PlanFieldModel>,
    like: PlanExpressionModel,
    progress: ProgressModel,
    at: int,
)
    requires
        0 <= at < fields.len(),
        forall|i: int| at < i < fields.len() ==> (#[trigger] fields[i]).name != fields[at].name,
    ensures
        place.evaluates(
            expression_of(PlanExpressionKindModel::Object(fields), like),
            progress,
        ).0 matches Ok(value) ==> (value matches ValueModel::Object(found) && sorted(found) && (
        lookup(found, fields[at].name) matches Some(value) && comes_to(
            place,
            fields[at].expression,
            value,
        ))),
{
    lemma_fields(place, fields, 0, progress, Seq::empty(), at);
}

/// A member of an object is what stands under its name, and an element of an
/// array what stands at its place, counted from 0; there are no others.
pub proof fn law_parts_are_found(
    place: PlaceModel,
    whole: PlanExpressionModel,
    index: PlanExpressionModel,
    member: Seq<char>,
    like: PlanExpressionModel,
    entries: Seq<EntryModel>,
    values: Seq<ValueModel>,
    position: i64,
    steps: Seq<ProgressModel>,
)
    ensures
        place.gives(whole, steps[0], ValueModel::Object(entries), steps[1]) ==> {
            let read = expression_of(
                PlanExpressionKindModel::Member { value: Box::new(whole), member },
                like,
            );
            &&& lookup(entries, member) matches Some(found) ==> place.gives(
                read,
                steps[0],
                found,
                steps[1],
            )
            &&& lookup(entries, member) is None ==> place.evaluates(read, steps[0]).0 is Err
        },
        place.gives(whole, steps[0], ValueModel::Array(values), steps[1]) && place.gives(
            index,
            steps[1],
            ValueModel::Integer(position),
            steps[2],
        ) ==> {
            let read = expression_of(
                PlanExpressionKindModel::Index { value: Box::new(whole), index: Box::new(index) },
                like,
            );
            &&& 0 <= position < values.len() ==> place.gives(
                read,
                steps[0],
                values[position as int],
                steps[2],
            )
            &&& !(0 <= position < values.len()) ==> place.evaluates(read, steps[0]).0 is Err
        },
        place.gives(whole, steps[0], ValueModel::Object(entries), steps[1]) && place.gives(
            index,
            steps[1],
            ValueModel::String(member),
            steps[2],
        ) ==> {
            let read = expression_of(
                PlanExpressionKindModel::Index { value: Box::new(whole), index: Box::new(index) },
                like,
            );
            &&& lookup(entries, member) matches Some(found) ==> place.gives(
                read,
                steps[0],
                found,
                steps[2],
            )
            &&& lookup(entries, member) is None ==> place.evaluates(read, steps[0]).0 is Err
        },
{
}

// ---------------------------------------------------------------------------
// Loops and texts

proof fn lemma_rounds(
    place: PlaceModel,
    instructions: Seq<InstructionModel>,
    items: Seq<(ValueModel, ValueModel)>,
    from: int,
    key_slot: Option<int>,
    value_slot: int,
    count: int,
    progress: ProgressModel,
    done: Seq<ValueModel>,
    at: int,
    returned: bool,
)
    requires
        0 <= from <= items.len(),
        0 <= at < items.len(),
        returned ==> done.len() == from,
        at < from && returned ==> round_gives(
            place,
            instructions,
            key_slot,
            value_slot,
            count,
            items[at],
            done[at],
        ),
        returned == every_round_returns(place, instructions),
    ensures
        evaluate_rounds(
            place.world,
            instructions,
            items,
            from,
            key_slot,
            value_slot,
            count,
            place.locals,
            place.context,
            place.frame,
            progress,
            done,
        ).0 matches Ok(found) ==> (returned ==> found.len() == items.len() && round_gives(
            place,
            instructions,
            key_slot,
            value_slot,
            count,
            items[at],
            found[at],
        )),
    decreases items.len() - from,
{
    if from < items.len() {
        let start = RunModel {
            locals: round_locals(place.locals, count, key_slot, value_slot, items[from]),
            assertions: Seq::empty(),
            progress,
        };
        let (result, after) = place.runs(instructions, false, start);
        if let Ok(value) = result {
            let more = match value {
                Some(value) => done.push(value),
                None => done,
            };
            if returned {
                assert(value is Some);
                assert(round_gives(
                    place,
                    instructions,
                    key_slot,
                    value_slot,
                    count,
                    items[from],
                    value->0,
                )) by {
                    assert(place.runs(instructions, false, start).0 == Ok::<
                        Option<ValueModel>,
                        StopModel,
                    >(Some(value->0)));
                }
            }
            lemma_rounds(
                place,
                instructions,
                items,
                from + 1,
                key_slot,
                value_slot,
                count,
                after.progress,
                more,
                at,
                returned,
            );
        }
    }
}

/// Whether instructions never end without a value.
pub open spec fn every_round_returns(
    place: PlaceModel,
    instructions: Seq<InstructionModel>,
) -> bool {
    forall|state: RunModel| #[trigger]
        place.runs(instructions, false, state).0 != Ok::<Option<ValueModel>, StopModel>(None)
}

/// Whether a round of a loop comes to a value where the loop's names stand for
/// an item: the key and its value.
pub open spec fn round_gives(
    place: PlaceModel,
    instructions: Seq<InstructionModel>,
    key_slot: Option<int>,
    value_slot: int,
    count: int,
    item: (ValueModel, ValueModel),
    value: ValueModel,
) -> bool {
    exists|state: RunModel|
        {
            &&& #[trigger] place.runs(instructions, false, state).0 == Ok::<
                Option<ValueModel>,
                StopModel,
            >(Some(value))
            &&& 0 <= value_slot < count ==> state.locals[value_slot] == Some(item.1)
            &&& key_slot matches Some(slot) ==> (0 <= slot < count && slot != value_slot
                ==> state.locals[slot] == Some(item.0))
            &&& forall|i: int|
                0 <= i < count && i < place.locals.len() && i != value_slot && Some(i) != key_slot
                    ==> state.locals[i] == #[trigger] place.locals[i]
        }
}

/// A loop over an array runs once for each element, with the element and its
/// place under the names of the loop, and comes to the values of its rounds in
/// the order of the elements. A loop over an object does so for its entries.
pub proof fn law_loops_run_for_each_item(
    place: PlaceModel,
    iterable: PlanExpressionModel,
    key_slot: Option<int>,
    value_slot: int,
    instructions: Seq<InstructionModel>,
    local_count: int,
    like: PlanExpressionModel,
    values: Seq<ValueModel>,
    entries: Seq<EntryModel>,
    steps: Seq<ProgressModel>,
    at: int,
)
    requires
        every_round_returns(place, instructions),
        values.len() <= i64::MAX,
    ensures
        ({
            let result = place.evaluates(
                expression_of(
                    PlanExpressionKindModel::For {
                        iterable: Box::new(iterable),
                        key_slot,
                        value_slot,
                        instructions,
                        local_count,
                        produces_value: true,
                    },
                    like,
                ),
                steps[0],
            ).0;
            &&& place.gives(iterable, steps[0], ValueModel::Array(values), steps[1]) && 0 <= at
                < values.len() ==> (result matches Ok(value) ==> (value matches ValueModel::Array(
                found,
            ) && found.len() == values.len() && round_gives(
                place,
                instructions,
                key_slot,
                value_slot,
                local_count,
                (ValueModel::Integer(at as i64), values[at]),
                found[at],
            )))
            &&& place.gives(iterable, steps[0], ValueModel::Object(entries), steps[1]) && 0 <= at
                < entries.len() ==> (result matches Ok(value) ==> (value matches ValueModel::Array(
                found,
            ) && found.len() == entries.len() && round_gives(
                place,
                instructions,
                key_slot,
                value_slot,
                local_count,
                (ValueModel::String(entries[at].name), entries[at].value),
                found[at],
            )))
        }),
{
    let one = ValueModel::Array(values);
    if 0 <= at < values.len() {
        lemma_rounds(
            place,
            instructions,
            items_of(one)->0,
            0,
            key_slot,
            value_slot,
            local_count,
            steps[1],
            Seq::empty(),
            at,
            true,
        );
    }
    let other = ValueModel::Object(entries);
    if 0 <= at < entries.len() {
        lemma_rounds(
            place,
            instructions,
            items_of(other)->0,
            0,
            key_slot,
            value_slot,
            local_count,
            steps[1],
            Seq::empty(),
            at,
            true,
        );
    }
}

/// What a part of a text stands for.
pub open spec fn part_shows(place: PlaceModel, part: StringPartModel, text: Seq<char>) -> bool {
    match part {
        StringPartModel::Text(written) => text == written,
        StringPartModel::Value(expression) => exists|value: ValueModel| #[trigger]
            comes_to(place, expression, value) && text == shown(value, true),
    }
}

/// Texts one behind the other.
pub open spec fn put_together(texts: Seq<Seq<char>>) -> Seq<char>
    decreases texts.len(),
{
    if texts.len() == 0 {
        Seq::empty()
    } else {
        put_together(texts.drop_last()) + texts.last()
    }
}

proof fn lemma_parts(
    place: PlaceModel,
    parts: Seq<StringPartModel>,
    from: int,
    progress: ProgressModel,
    done: Seq<char>,
    sensitive: bool,
    texts: Seq<Seq<char>>,
) -> (all: Seq<Seq<char>>)
    requires
        0 <= from <= parts.len(),
        texts.len() == from,
        done == put_together(texts),
        forall|i: int| 0 <= i < from ==> part_shows(place, parts[i], #[trigger] texts[i]),
    ensures
        evaluate_parts(
            place.world,
            parts,
            from,
            place.locals,
            place.context,
            place.frame,
            progress,
            done,
            sensitive,
        ).0 matches Ok(found) ==> {
            &&& all.len() == parts.len()
            &&& found.0 == put_together(all)
            &&& forall|i: int| 0 <= i < parts.len() ==> part_shows(place, parts[i], #[trigger] all[i])
        },
    decreases parts.len() - from,
{
    if from >= parts.len() {
        texts
    } else {
        match parts[from] {
            StringPartModel::Text(text) => {
                let more = texts.push(text);
                assert(more.drop_last() =~= texts);
                lemma_parts(place, parts, from + 1, progress, done + text, sensitive, more)
            },
            StringPartModel::Value(expression) => {
                match place.evaluates(expression, progress) {
                    (Ok(value), after) => {
                        let text = shown(value, true);
                        let more = texts.push(text);
                        assert(more.drop_last() =~= texts);
                        assert(place.gives(expression, progress, value, after));
                        assert(comes_to(place, expression, value));
                        assert(part_shows(place, parts[from], more[from]));
                        lemma_parts(
                            place,
                            parts,
                            from + 1,
                            after,
                            done + text,
                            sensitive || value.contains_sensitive(),
                            more,
                        )
                    },
                    _ => texts,
                }
            },
        }
    }
}

/// A text with expressions in it is its parts one behind the other, with what
/// the expressions come to in their places.
pub proof fn law_inserted_values_stand_in_their_places(
    place: PlaceModel,
    parts: Seq<StringPartModel>,
    like: PlanExpressionModel,
    progress: ProgressModel,
)
    ensures
        place.evaluates(
            expression_of(PlanExpressionKindModel::InterpolatedString(parts), like),
            progress,
        ).0 matches Ok(value) ==> exists|texts: Seq<Seq<char>>|
            {
                &&& texts.len() == parts.len()
                &&& value.revealed() == ValueModel::String(#[trigger] put_together(texts))
                &&& forall|i: int|
                    0 <= i < parts.len() ==> part_shows(place, parts[i], #[trigger] texts[i])
            },
{
    reveal_with_fuel(ValueModel::revealed, 3);
    let texts = lemma_parts(place, parts, 0, progress, Seq::empty(), false, Seq::empty());
}

// ---------------------------------------------------------------------------
// Policies

/// Work under a deadline is asked for with that deadline, comes to its own value
/// if it ends in time, and fails if it does not.
pub proof fn law_deadlines_end_work(
    place: PlaceModel,
    timeout: crate::duration::Duration,
    body: PlanExpressionModel,
    like: PlanExpressionModel,
    progress: ProgressModel,
)
    ensures
        ({
            let (result, after) = place.evaluates(
                expression_of(
                    PlanExpressionKindModel::Within { timeout, body: Box::new(body) },
                    like,
                ),
                progress,
            );
            &&& progress.reply() is None ==> (result matches Err(StopModel::Waiting(
                RequestModel::Within { timeout: asked, task },
            )) && asked == timeout && task.expression == body && task.locals == place.locals
                && task.context == place.context)
            &&& progress.reply() matches Some(ReplyModel::Ended { result: ended, secrets }) ==> {
                &&& ended is None ==> (result matches Err(StopModel::Failed(_)))
                &&& ended matches Some(Ok(value)) ==> result == Ok::<ValueModel, StopModel>(value)
                &&& ended matches Some(Err(error)) ==> result == Err::<ValueModel, StopModel>(
                    StopModel::Failed(error),
                )
            }
        }),
{
}

proof fn lemma_named_branches(
    branches: Seq<PlanBranchModel>,
    values: Seq<ValueModel>,
    from: int,
    done: Seq<EntryModel>,
    at: int,
)
    requires
        0 <= from <= branches.len(),
        sorted(done),
        0 <= at < branches.len(),
        branches[at].name is Some,
        forall|i: int| at < i < branches.len() ==> (#[trigger] branches[i]).name != branches[at].name,
        at < from ==> lookup(done, branches[at].name->0) == Some(values[at]),
    ensures
        lookup(named_branches(branches, values, from, done), branches[at].name->0) == Some(
            values[at],
        ),
    decreases branches.len() - from,
{
    if from < branches.len() {
        match branches[from].name {
            Some(name) => {
                law_insert(done, name, values[from], branches[at].name->0);
                lemma_named_branches(
                    branches,
                    values,
                    from + 1,
                    inserted(done, name, values[from]),
                    at,
                );
            },
            None => {
                lemma_named_branches(branches, values, from + 1, done, at);
            },
        }
    }
}

/// Parallel branches are asked for in their order, with their limit. Their
/// values come back in that order, or each under the name of its branch.
pub proof fn law_branches_come_back_in_order(
    place: PlaceModel,
    limit: int,
    branches: Seq<PlanBranchModel>,
    like: PlanExpressionModel,
    progress: ProgressModel,
    number: u64,
    at: int,
)
    requires
        progress.reply() == Some(ReplyModel::Number(number)),
        0 <= at < branches.len(),
    ensures
        ({
            let (result, after) = place.evaluates(
                expression_of(PlanExpressionKindModel::Parallel { limit, branches }, like),
                progress,
            );
            let reply = progress.advanced().reply();
            &&& reply is None ==> (result matches Err(StopModel::Waiting(
                RequestModel::Parallel { limit: asked, invocation, tasks },
            )) && asked == limit && tasks.len() == branches.len() && tasks[at].expression
                == branches[at].expression && tasks[at].locals == place.locals && tasks[at].context
                == place.context)
            &&& reply matches Some(ReplyModel::Joined(Ok(values))) ==> (values.len()
                == branches.len() ==> {
                &&& (forall|i: int| 0 <= i < branches.len() ==> (#[trigger] branches[i]).name is None)
                    ==> result == Ok::<ValueModel, StopModel>(ValueModel::Array(values))
                &&& (forall|i: int| 0 <= i < branches.len() ==> (#[trigger] branches[i]).name is Some)
                    && (forall|i: int|
                    at < i < branches.len() ==> (#[trigger] branches[i]).name != branches[at].name)
                    ==> (result matches Ok(value) && (value matches ValueModel::Object(entries)
                    && lookup(entries, branches[at].name->0) == Some(values[at])))
            })
            &&& reply matches Some(ReplyModel::Joined(Err(error))) ==> result == Err::<
                ValueModel,
                StopModel,
            >(StopModel::Failed(error))
        }),
{
    if let Some(ReplyModel::Joined(Ok(values))) = progress.advanced().reply() {
        if values.len() == branches.len() && branches[at].name is Some && (forall|i: int|
            at < i < branches.len() ==> (#[trigger] branches[i]).name != branches[at].name) {
            lemma_named_branches(branches, values, 0, Seq::empty(), at);
        }
    }
    assert(branches[at].name is None ==> !crate::execution::branches_named(branches));
}

/// Workloads are asked for as they are written, and come to what was measured.
pub proof fn law_workloads_are_asked_for(
    place: PlaceModel,
    target: int,
    period: crate::duration::Duration,
    duration: crate::duration::Duration,
    limit: int,
    body: PlanExpressionModel,
    like: PlanExpressionModel,
    progress: ProgressModel,
)
    ensures
        ({
            let rate = place.evaluates(
                expression_of(
                    PlanExpressionKindModel::Rate {
                        target,
                        period,
                        duration,
                        limit,
                        body: Box::new(body),
                    },
                    like,
                ),
                progress,
            ).0;
            let steady = place.evaluates(
                expression_of(
                    PlanExpressionKindModel::Concurrency { limit, duration, body: Box::new(body) },
                    like,
                ),
                progress,
            ).0;
            &&& progress.reply() is None ==> {
                &&& rate matches Err(StopModel::Waiting(
                    RequestModel::Rate { target: a, period: b, duration: c, limit: d, task },
                )) && a == target && b == period && c == duration && d == limit && task.expression
                    == body && task.frame.inside_workload && task.locals == place.locals
                &&& steady matches Err(StopModel::Waiting(
                    RequestModel::Concurrency { limit: a, duration: b, task },
                )) && a == limit && b == duration && task.expression == body
                    && task.frame.inside_workload && task.locals == place.locals
            }
            &&& progress.reply() matches Some(ReplyModel::Measured(value)) ==> rate == Ok::<
                ValueModel,
                StopModel,
            >(value) && steady == Ok::<ValueModel, StopModel>(value)
        }),
{
}

} // verus!
