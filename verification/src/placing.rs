//! Which arguments a call hands over.

use vstd::prelude::*;

use crate::lowering::{all_filled, arranged, complete, handed};
use crate::plan::{numbers, optional_plan, plan_models, PlanExpression, PlanExpressionModel};

verus! {

spec fn slot_models(slots: Seq<Option<PlanExpression>>) -> Seq<Option<PlanExpressionModel>> {
    Seq::new(slots.len(), |i: int| optional_plan(slots[i]))
}

/// Puts the values where the order says.
fn fill(values: Vec<PlanExpression>, order: &Vec<usize>, expected: usize) -> (slots: Vec<
    Option<PlanExpression>,
>)
    requires
        values@.len() == order@.len(),
    ensures
        slot_models(slots@) == arranged(
            plan_models(values@),
            numbers(order@),
            expected as nat,
            order@.len() as int,
        ),
{
    let ghost all = plan_models(values@);
    let ghost places = numbers(order@);
    let ghost given = values@;
    let mut slots: Vec<Option<PlanExpression>> = Vec::new();
    while slots.len() < expected
        invariant
            slots@.len() <= expected,
            forall|i: int| 0 <= i < slots@.len() ==> (#[trigger] slots@[i]) is None,
        decreases expected - slots@.len(),
    {
        slots.push(None);
    }
    proof {
        assert(slot_models(slots@) =~= arranged(all, places, expected as nat, 0));
    }
    let mut rest: Vec<PlanExpression> = values;
    let mut at: usize = 0;
    while at < order.len()
        invariant
            all == plan_models(given),
            places == numbers(order@),
            given.len() == order@.len(),
            at <= order@.len(),
            rest@ == given.skip(at as int),
            slots@.len() == expected,
            slot_models(slots@) == arranged(all, places, expected as nat, at as int),
        decreases order@.len() - at,
    {
        let value: PlanExpression = rest.remove(0);
        let slot: usize = order[at];
        let ghost before = slot_models(slots@);
        proof {
            assert(rest@ =~= given.skip(at + 1));
            assert(all[at as int] == value.model());
            assert(places[at as int] == slot);
        }
        if slot < expected {
            slots.set(slot, Some(value));
            proof {
                assert(slot_models(slots@) =~= before.update(slot as int, Some(all[at as int])));
            }
        }
        at += 1;
    }
    slots
}

/// The arguments in the order of the parameters, if each has one.
fn arrange(values: Vec<PlanExpression>, order: &Vec<usize>, expected: usize) -> (placed: Option<
    Vec<PlanExpression>,
>)
    ensures
        (match placed {
            Some(placed) => Some(plan_models(placed@)),
            None => None,
        }) == complete(plan_models(values@), numbers(order@), expected as nat),
{
    if values.len() != order.len() {
        return None;
    }
    let ghost slots = arranged(
        plan_models(values@),
        numbers(order@),
        expected as nat,
        order@.len() as int,
    );
    let ghost target = Seq::new(expected as nat, |i: int| slots[i]->0);
    let mut rest: Vec<Option<PlanExpression>> = fill(values, order, expected);
    let ghost filled = rest@;
    let mut placed: Vec<PlanExpression> = Vec::new();
    proof {
        lemma_arranged_len(
            plan_models(values@),
            numbers(order@),
            expected as nat,
            order@.len() as int,
        );
        assert(plan_models(placed@) =~= target.take(0));
        assert(filled.skip(0) =~= filled);
    }
    while rest.len() > 0
        invariant
            slots == slot_models(filled),
            slots.len() == expected,
            filled.len() == expected,
            placed@.len() <= expected,
            rest@ == filled.skip(placed@.len() as int),
            target == Seq::new(expected as nat, |i: int| slots[i]->0),
            plan_models(placed@) == target.take(placed@.len() as int),
            forall|i: int| 0 <= i < placed@.len() ==> (#[trigger] slots[i]) is Some,
            complete(plan_models(values@), numbers(order@), expected as nat) == (
            if all_filled(slots) {
                Some(target)
            } else {
                None
            }),
        decreases rest@.len(),
    {
        let ghost count = placed@.len() as int;
        proof {
            assert(slots[count] == optional_plan(filled[count]));
        }
        match rest.remove(0) {
            Some(value) => {
                let ghost before = plan_models(placed@);
                placed.push(value);
                proof {
                    assert(rest@ =~= filled.skip(count + 1));
                    assert(plan_models(placed@) =~= before.push(value.model()));
                    assert(target.take(count + 1) =~= target.take(count).push(target[count]));
                }
            },
            None => {
                return None;
            },
        }
    }
    proof {
        assert(target.take(expected as int) =~= target);
    }
    Some(placed)
}

/// A parameter has a value where the order names it.
pub proof fn lemma_filled(
    values: Seq<PlanExpressionModel>,
    order: Seq<int>,
    expected: nat,
    count: int,
    slot: int,
)
    requires
        0 <= count <= order.len(),
        0 <= slot < expected,
    ensures
        arranged(values, order, expected, count).len() == expected,
        arranged(values, order, expected, count)[slot] is Some <==> exists|i: int|
            0 <= i < count && #[trigger] order[i] == slot,
    decreases count,
{
    if count > 0 {
        lemma_filled(values, order, expected, count - 1, slot);
        lemma_arranged_len(values, order, expected, count - 1);
        if order[count - 1] == slot {
            assert(order[count - 1] == slot);
        }
    }
}

/// Whether every parameter is named by the order.
fn covers(order: &Vec<usize>, expected: usize) -> (yes: bool)
    ensures
        yes == forall|slot: int|
            0 <= slot < expected ==> #[trigger] numbers(order@).contains(slot),
{
    let mut slot: usize = 0;
    while slot < expected
        invariant
            slot <= expected,
            forall|other: int| 0 <= other < slot ==> #[trigger] numbers(order@).contains(other),
        decreases expected - slot,
    {
        let mut at: usize = 0;
        while at < order.len() && order[at] != slot
            invariant
                at <= order@.len(),
                forall|i: int| 0 <= i < at ==> #[trigger] order@[i] != slot,
            decreases order@.len() - at,
        {
            at += 1;
        }
        if at >= order.len() {
            proof {
                if numbers(order@).contains(slot as int) {
                    let i = choose|i: int|
                        0 <= i < numbers(order@).len() && numbers(order@)[i] == slot;
                    assert(order@[i] == slot);
                }
                assert(!numbers(order@).contains(slot as int));
            }
            return false;
        }
        proof {
            assert(numbers(order@)[at as int] == slot);
        }
        slot += 1;
    }
    true
}

/// The arguments that a call hands over.
pub fn hand_over(values: Vec<PlanExpression>, order: &Vec<usize>, expected: usize, fine: bool) -> (
    given: Vec<PlanExpression>)
    ensures
        plan_models(given@) == handed(
            plan_models(values@),
            numbers(order@),
            expected as nat,
            fine,
        ),
{
    let ghost models = plan_models(values@);
    let ghost places = numbers(order@);
    let ghost slots = arranged(models, places, expected as nat, places.len() as int);
    proof {
        reveal(handed);
        assert forall|slot: int| 0 <= slot < expected implies ((#[trigger] slots[slot]) is Some
            <==> places.contains(slot)) by {
            lemma_filled(models, places, expected as nat, places.len() as int, slot);
            if places.contains(slot) {
                let i = choose|i: int| 0 <= i < places.len() && places[i] == slot;
                assert(places[i] == slot);
            }
        }
        lemma_arranged_len(models, places, expected as nat, places.len() as int);
    }
    let named: bool = covers(order, expected);
    proof {
        if named {
            assert forall|i: int| 0 <= i < slots.len() implies (#[trigger] slots[i]) is Some by {
                assert(places.contains(i));
            }
            assert(all_filled(slots));
        } else {
            let slot = choose|slot: int|
                0 <= slot < expected && !(#[trigger] places.contains(slot));
            assert(slots[slot] is None);
            assert(!all_filled(slots));
        }
    }
    if !fine || !named || values.len() != order.len() {
        return values;
    }
    match arrange(values, order, expected) {
        Some(placed) => placed,
        None => Vec::new(),
    }
}

pub proof fn lemma_arranged_len(
    values: Seq<PlanExpressionModel>,
    order: Seq<int>,
    expected: nat,
    count: int,
)
    ensures
        arranged(values, order, expected, count).len() == expected,
    decreases count,
{
    if count > 0 {
        lemma_arranged_len(values, order, expected, count - 1);
    }
}

} // verus!
