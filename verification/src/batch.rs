//! How flows and tests are run one after another, and what a command exits with.

use vstd::prelude::*;

verus! {

/// How one run has ended.
#[derive(Clone, Copy, Debug, PartialEq, Eq, Structural)]
pub enum RunOutcome {
    Passed,
    Failed,
    Interrupted,
}

/// What a command exits with.
#[derive(Clone, Copy, Debug, PartialEq, Eq, Structural)]
pub enum Status {
    Success,
    Failure,
    /// The arguments cannot be understood.
    Usage,
    Interrupted,
}

impl Status {
    pub open spec fn number(self) -> u8 {
        match self {
            Status::Success => 0,
            Status::Failure => 1,
            Status::Usage => 2,
            Status::Interrupted => 130,
        }
    }

    /// The exit code.
    pub fn code(self) -> (code: u8)
        ensures
            code == self.number(),
    {
        match self {
            Status::Success => 0,
            Status::Failure => 1,
            Status::Usage => 2,
            Status::Interrupted => 130,
        }
    }
}

/// What comes next: the run at a position, or the end.
#[derive(Clone, Copy, Debug, PartialEq, Eq, Structural)]
pub enum Next {
    Run(usize),
    Done(Status),
}

/// How far the runs of a command have come. Where there are `several`, one that
/// fails does not keep the others from running.
#[derive(Clone, Copy, Debug, PartialEq, Eq, Structural)]
pub struct Batch {
    pub total: usize,
    pub several: bool,
    pub passed: usize,
    pub failed: usize,
}

impl Batch {
    pub open spec fn of(total: usize, several: bool) -> Batch {
        Batch { total, several, passed: 0, failed: 0 }
    }

    pub open spec fn well_formed(self) -> bool {
        self.passed + self.failed <= self.total
    }

    /// What comes after the runs that have ended.
    pub open spec fn following(self) -> Next {
        if self.passed + self.failed < self.total {
            Next::Run((self.passed + self.failed) as usize)
        } else if self.failed > 0 {
            Next::Done(Status::Failure)
        } else {
            Next::Done(Status::Success)
        }
    }

    /// The runs when the one whose turn it is has ended.
    pub open spec fn with(self, outcome: RunOutcome) -> Batch {
        match outcome {
            RunOutcome::Passed => Batch { passed: (self.passed + 1) as usize, ..self },
            RunOutcome::Failed => Batch { failed: (self.failed + 1) as usize, ..self },
            RunOutcome::Interrupted => self,
        }
    }

    /// What comes after a run that has ended.
    pub open spec fn after(self, outcome: RunOutcome) -> Next {
        match outcome {
            RunOutcome::Passed => self.with(outcome).following(),
            RunOutcome::Failed => if self.several {
                self.with(outcome).following()
            } else {
                Next::Done(Status::Failure)
            },
            RunOutcome::Interrupted => Next::Done(Status::Interrupted),
        }
    }

    /// The runs when those at the first positions have ended.
    pub open spec fn with_all(self, outcomes: Seq<RunOutcome>) -> Batch
        decreases outcomes.len(),
    {
        if outcomes.len() == 0 {
            self
        } else {
            self.with_all(outcomes.drop_last()).with(outcomes.last())
        }
    }

    pub fn new(total: usize, several: bool) -> (batch: Batch)
        ensures
            batch == Batch::of(total, several),
            batch.well_formed(),
    {
        Batch { total, several, passed: 0, failed: 0 }
    }

    /// The first run, or the end where there is none.
    pub fn next(&self) -> (next: Next)
        requires
            self.well_formed(),
        ensures
            next == self.following(),
    {
        let ended: usize = self.passed + self.failed;
        if ended < self.total {
            Next::Run(ended)
        } else if self.failed > 0 {
            Next::Done(Status::Failure)
        } else {
            Next::Done(Status::Success)
        }
    }

    /// Notes how a run has ended.
    pub fn record(&mut self, outcome: RunOutcome) -> (next: Next)
        requires
            old(self).well_formed(),
            old(self).following() is Run,
        ensures
            *final(self) == old(self).with(outcome),
            next == old(self).after(outcome),
            final(self).well_formed(),
    {
        match outcome {
            RunOutcome::Passed => {
                self.passed = self.passed + 1;
            },
            RunOutcome::Failed => {
                self.failed = self.failed + 1;
                if !self.several {
                    return Next::Done(Status::Failure);
                }
            },
            RunOutcome::Interrupted => {
                return Next::Done(Status::Interrupted);
            },
        }
        self.next()
    }
}

/// How many of the outcomes are failures.
pub open spec fn failures(outcomes: Seq<RunOutcome>) -> nat
    decreases outcomes.len(),
{
    if outcomes.len() == 0 {
        0
    } else {
        failures(outcomes.drop_last()) + (if outcomes.last() == RunOutcome::Failed {
            1nat
        } else {
            0
        })
    }
}

proof fn lemma_counts(total: usize, outcomes: Seq<RunOutcome>)
    requires
        outcomes.len() <= total,
        forall|i: int|
            0 <= i < outcomes.len() ==> #[trigger] outcomes[i] != RunOutcome::Interrupted,
    ensures
        ({
            let batch = Batch::of(total, true).with_all(outcomes);
            &&& batch.failed == failures(outcomes)
            &&& batch.passed + batch.failed == outcomes.len()
            &&& batch.total == total
            &&& batch.several
        }),
    decreases outcomes.len(),
{
    if outcomes.len() > 0 {
        lemma_counts(total, outcomes.drop_last());
        assert(outcomes.last() != RunOutcome::Interrupted);
    }
}

/// Where several are to be run and none is interrupted, each has its turn, one
/// after another, whatever came of those before it. In the end the status tells
/// of a failure exactly if there was one.
pub proof fn law_batch_goes_on(total: usize, outcomes: Seq<RunOutcome>)
    requires
        outcomes.len() <= total,
        forall|i: int|
            0 <= i < outcomes.len() ==> #[trigger] outcomes[i] != RunOutcome::Interrupted,
    ensures
        Batch::of(total, true).with_all(outcomes).following() == (if outcomes.len() < total {
            Next::Run(outcomes.len() as usize)
        } else if outcomes.contains(RunOutcome::Failed) {
            Next::Done(Status::Failure)
        } else {
            Next::Done(Status::Success)
        }),
{
    lemma_counts(total, outcomes);
    lemma_failures(outcomes);
}

proof fn lemma_failures(outcomes: Seq<RunOutcome>)
    ensures
        failures(outcomes) > 0 <==> outcomes.contains(RunOutcome::Failed),
    decreases outcomes.len(),
{
    if outcomes.len() > 0 {
        let before = outcomes.drop_last();
        lemma_failures(before);
        if outcomes.contains(RunOutcome::Failed) && outcomes.last() != RunOutcome::Failed {
            let i = choose|i: int| 0 <= i < outcomes.len() && outcomes[i] == RunOutcome::Failed;
            assert(before[i] == RunOutcome::Failed);
        }
        if before.contains(RunOutcome::Failed) {
            let i = choose|i: int| 0 <= i < before.len() && before[i] == RunOutcome::Failed;
            assert(outcomes[i] == RunOutcome::Failed);
        }
    }
}

} // verus!
