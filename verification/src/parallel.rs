//! How parallel branches are scheduled.
//!
//! At most so many branches run as the limit allows. They start in the order in
//! which they are written, and their values are given in that order, whichever
//! ends first.

use vstd::prelude::*;

use crate::value::{optional_value, value_models, Value, ValueModel};

verus! {

pub struct ParallelModel {
    pub limit: nat,
    pub next: nat,
    pub active: Seq<usize>,
    pub results: Seq<Option<ValueModel>>,
}

/// The sequence without the element at a position, whose place the last takes.
pub open spec fn taken_out(active: Seq<usize>, position: int) -> Seq<usize> {
    active.update(position, active.last()).drop_last()
}

impl ParallelModel {
    pub open spec fn of(total: nat, limit: nat) -> ParallelModel {
        ParallelModel {
            limit,
            next: 0,
            active: Seq::empty(),
            results: Seq::new(total, |i: int| None),
        }
    }

    pub open spec fn well_formed(self) -> bool {
        &&& self.limit > 0
        &&& self.active.len() <= self.limit
        &&& self.next <= self.results.len() <= usize::MAX
        &&& forall|i: int| 0 <= i < self.active.len() ==> (#[trigger] self.active[i]) < self.next
        &&& forall|i: int, j: int|
            0 <= i < j < self.active.len() ==> #[trigger] self.active[i] != #[trigger] self.active[j]
        &&& forall|k: int|
            0 <= k < self.results.len() ==> ((#[trigger] self.results[k]) is Some <==> k
                < self.next && !self.active.contains(k as usize))
    }

    pub open spec fn may_start(self) -> bool {
        self.next < self.results.len() && self.active.len() < self.limit
    }

    /// The branches when the next one has started.
    pub open spec fn started(self) -> ParallelModel {
        ParallelModel {
            next: self.next + 1,
            active: self.active.push(self.next as usize),
            ..self
        }
    }

    /// The branches when one has come to a value.
    pub open spec fn completed(self, position: int, value: ValueModel) -> ParallelModel {
        ParallelModel {
            active: taken_out(self.active, position),
            results: self.results.update(self.active[position] as int, Some(value)),
            ..self
        }
    }

    /// The branches when one has failed.
    pub open spec fn failed(self, position: int) -> ParallelModel {
        ParallelModel { active: taken_out(self.active, position), ..self }
    }

    pub open spec fn finished(self) -> bool {
        self.next == self.results.len() && self.active.len() == 0
    }

    /// The values in the order of the branches.
    pub open spec fn values(self) -> Seq<ValueModel> {
        Seq::new(self.results.len(), |i: int| self.results[i]->0)
    }
}

/// Where branches have not ended, one runs or one may start.
pub proof fn law_progress(state: ParallelModel)
    requires
        state.well_formed(),
    ensures
        state.finished() || state.active.len() > 0 || state.may_start(),
{
}

/// When all branches have ended, each has its value.
pub proof fn law_every_branch_has_a_value(state: ParallelModel, branch: int)
    requires
        state.well_formed(),
        state.finished(),
        0 <= branch < state.results.len(),
    ensures
        state.results[branch] == Some(state.values()[branch]),
{
    assert(!state.active.contains(branch as usize));
}

/// A branch that ends changes the value of no other branch.
pub proof fn law_values_stay_in_order(
    state: ParallelModel,
    position: int,
    value: ValueModel,
    branch: int,
)
    requires
        state.well_formed(),
        0 <= position < state.active.len(),
        0 <= branch < state.results.len(),
    ensures
        state.completed(position, value).results[branch] == (if branch
            == state.active[position] {
            Some(value)
        } else {
            state.results[branch]
        }),
{
    assert(state.active[position] < state.next);
}

proof fn lemma_completed(state: ParallelModel, position: int, value: ValueModel)
    requires
        state.well_formed(),
        0 <= position < state.active.len(),
    ensures
        state.completed(position, value).well_formed(),
{
    let after = state.completed(position, value);
    let index = state.active[position];
    let last = state.active.len() - 1;
    assert(index < state.next);
    assert forall|i: int| 0 <= i < after.active.len() implies (#[trigger] after.active[i])
        < after.next by {
        let source = if i == position {
            last
        } else {
            i
        };
        assert(after.active[i] == state.active[source]);
    }
    assert forall|i: int, j: int| 0 <= i < j < after.active.len() implies #[trigger] after.active[i]
        != #[trigger] after.active[j] by {
        let first = if i == position {
            last
        } else {
            i
        };
        let second = if j == position {
            last
        } else {
            j
        };
        assert(after.active[i] == state.active[first]);
        assert(after.active[j] == state.active[second]);
        if first < second {
            assert(state.active[first] != state.active[second]);
        } else {
            assert(state.active[second] != state.active[first]);
        }
    }
    assert forall|k: int| 0 <= k < after.results.len() implies ((#[trigger] after.results[k]) is Some
        <==> k < after.next && !after.active.contains(k as usize)) by {
        assert(state.results[k] is Some <==> k < state.next && !state.active.contains(k as usize));
        if k == index {
            if after.active.contains(k as usize) {
                let i = choose|i: int|
                    0 <= i < after.active.len() && after.active[i] == k as usize;
                let source = if i == position {
                    last
                } else {
                    i
                };
                assert(after.active[i] == state.active[source]);
                if source < position {
                    assert(state.active[source] != state.active[position]);
                } else {
                    assert(state.active[position] != state.active[source]);
                }
            }
        } else {
            if state.active.contains(k as usize) {
                let i = choose|i: int|
                    0 <= i < state.active.len() && state.active[i] == k as usize;
                if i == last {
                    assert(after.active[position] == k as usize);
                } else {
                    assert(after.active[i] == k as usize);
                }
                assert(after.active.contains(k as usize));
            }
            if after.active.contains(k as usize) {
                let i = choose|i: int|
                    0 <= i < after.active.len() && after.active[i] == k as usize;
                let source = if i == position {
                    last
                } else {
                    i
                };
                assert(state.active[source] == k as usize);
            }
        }
    }
}

proof fn lemma_started(state: ParallelModel)
    requires
        state.well_formed(),
        state.may_start(),
    ensures
        state.started().well_formed(),
{
    let after = state.started();
    let index = state.next as usize;
    assert forall|i: int| 0 <= i < after.active.len() implies (#[trigger] after.active[i])
        < after.next by {
        if i < state.active.len() {
            assert(after.active[i] == state.active[i]);
        }
    }
    assert forall|i: int, j: int| 0 <= i < j < after.active.len() implies #[trigger] after.active[i]
        != #[trigger] after.active[j] by {
        assert(after.active[i] == state.active[i]);
        assert(state.active[i] < state.next);
        if j < state.active.len() {
            assert(after.active[j] == state.active[j]);
        }
    }
    assert forall|k: int| 0 <= k < after.results.len() implies ((#[trigger] after.results[k]) is Some
        <==> k < after.next && !after.active.contains(k as usize)) by {
        assert(state.results[k] is Some <==> k < state.next && !state.active.contains(k as usize));
        if k == state.next {
            assert(after.active[state.active.len() as int] == k as usize);
        } else {
            if state.active.contains(k as usize) {
                let i = choose|i: int|
                    0 <= i < state.active.len() && state.active[i] == k as usize;
                assert(after.active[i] == k as usize);
            }
            if after.active.contains(k as usize) {
                let i = choose|i: int|
                    0 <= i < after.active.len() && after.active[i] == k as usize;
                assert(state.active[i] == k as usize);
            }
        }
    }
}

/// Branches that run side by side.
pub struct Branches {
    limit: usize,
    next: usize,
    active: Vec<usize>,
    results: Vec<Option<Value>>,
}

pub open spec fn result_models(results: Seq<Option<Value>>) -> Seq<Option<ValueModel>> {
    Seq::new(results.len(), |i: int| optional_value(results[i]))
}

impl Branches {
    pub closed spec fn model(self) -> ParallelModel {
        ParallelModel {
            limit: self.limit as nat,
            next: self.next as nat,
            active: self.active@,
            results: result_models(self.results@),
        }
    }

    /// So many branches, none of which has started.
    pub fn new(total: usize, limit: usize) -> (branches: Branches)
        requires
            limit > 0,
        ensures
            branches.model() == ParallelModel::of(total as nat, limit as nat),
            branches.model().well_formed(),
    {
        let mut results: Vec<Option<Value>> = Vec::new();
        while results.len() < total
            invariant
                results@.len() <= total,
                forall|i: int| 0 <= i < results@.len() ==> (#[trigger] results@[i]) is None,
            decreases total - results@.len(),
        {
            results.push(None);
        }
        let branches: Branches = Branches { limit, next: 0, active: Vec::new(), results };
        proof {
            assert(branches.model().results =~= ParallelModel::of(
                total as nat,
                limit as nat,
            ).results);
        }
        branches
    }

    /// Starts the next branch, where the limit allows.
    pub fn start(&mut self) -> (index: Option<usize>)
        requires
            old(self).model().well_formed(),
        ensures
            old(self).model().may_start() ==> index == Some(old(self).model().next as usize)
                && final(self).model() == old(self).model().started(),
            !old(self).model().may_start() ==> index is None && final(self).model() == old(
                self,
            ).model(),
            final(self).model().well_formed(),
    {
        if self.next < self.results.len() && self.active.len() < self.limit {
            proof {
                lemma_started(self.model());
            }
            let index: usize = self.next;
            self.active.push(index);
            self.next = self.next + 1;
            Some(index)
        } else {
            None
        }
    }

    /// How many branches run.
    pub fn running(&self) -> (count: usize)
        ensures
            count == self.model().active.len(),
    {
        self.active.len()
    }

    /// Which branch runs at a position.
    pub fn branch(&self, position: usize) -> (index: usize)
        requires
            position < self.model().active.len(),
        ensures
            index == self.model().active[position as int],
    {
        self.active[position]
    }

    /// Notes the value of the branch at a position. The last one that runs takes
    /// its place.
    pub fn complete(&mut self, position: usize, value: Value)
        requires
            old(self).model().well_formed(),
            position < old(self).model().active.len(),
        ensures
            final(self).model() == old(self).model().completed(position as int, value.model()),
            final(self).model().well_formed(),
    {
        let ghost before = self.model();
        let ghost held = self.results@;
        proof {
            lemma_completed(before, position as int, value.model());
            assert(before.active[position as int] < before.next);
        }
        let index: usize = self.active.swap_remove(position);
        self.results.set(index, Some(value));
        proof {
            assert(result_models(self.results@) =~= before.completed(
                position as int,
                value.model(),
            ).results);
        }
    }

    /// The branches that still run when the one at a position has failed. They
    /// are those that are to be cancelled.
    pub fn fail(&mut self, position: usize) -> (cancelled: Vec<usize>)
        requires
            position < old(self).model().active.len(),
        ensures
            final(self).model() == old(self).model().failed(position as int),
            cancelled@ == final(self).model().active,
    {
        self.active.swap_remove(position);
        let ghost after = self.model();
        let mut cancelled: Vec<usize> = Vec::new();
        let mut at: usize = 0;
        while at < self.active.len()
            invariant
                self.model() == after,
                at <= self.active@.len(),
                cancelled@ == self.active@.take(at as int),
            decreases self.active@.len() - at,
        {
            cancelled.push(self.active[at]);
            proof {
                assert(cancelled@ =~= self.active@.take(at + 1));
            }
            at += 1;
        }
        proof {
            assert(cancelled@ =~= self.active@);
        }
        cancelled
    }

    pub fn finished(&self) -> (yes: bool)
        ensures
            yes == self.model().finished(),
    {
        self.next == self.results.len() && self.active.len() == 0
    }

    /// The values of all branches, in the order in which they are written.
    pub fn values(self) -> (values: Vec<Value>)
        requires
            self.model().well_formed(),
            self.model().finished(),
        ensures
            value_models(values@) == self.model().values(),
    {
        let ghost state = self.model();
        let mut values: Vec<Value> = Vec::new();
        let mut at: usize = 0;
        while at < self.results.len()
            invariant
                state == self.model(),
                state.well_formed(),
                state.finished(),
                at <= self.results@.len(),
                values@.len() == at,
                forall|i: int|
                    0 <= i < at ==> (#[trigger] values@[i]).model() == state.values()[i],
            decreases self.results@.len() - at,
        {
            proof {
                law_every_branch_has_a_value(state, at as int);
                assert(state.results[at as int] == optional_value(self.results@[at as int]));
            }
            if let Some(value) = &self.results[at] {
                values.push(value.duplicate());
            }
            at += 1;
        }
        proof {
            assert(value_models(values@) =~= state.values());
        }
        values
    }
}

} // verus!
