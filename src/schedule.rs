//! Decisions of a batch fetch: which feed to start next, with at most a fixed
//! number in flight, and a tally of how each one ended. The caller performs
//! the fetches and reports back; one feed's failure frees its slot like any
//! other outcome.

use vstd::prelude::*;

verus! {

/// How many fetches run at once by default.
pub const MAX_CONCURRENT_FETCHES: usize = 5;

/// How a started feed ended.
#[derive(Clone, Copy, Debug, PartialEq, Eq, Structural)]
pub enum FeedOutcome {
    Stored,
    FetchFailed,
    StoreFailed,
}

/// What the caller does next.
#[derive(Clone, Copy, Debug, PartialEq, Eq, Structural)]
pub enum FetchStep {
    /// Start fetching the feed at this index.
    Start(usize),
    /// Every slot is taken, or only running fetches remain: wait for one to end.
    Wait,
    /// Every feed has been started and has ended.
    Done,
}

/// The progress of a batch of `total` feeds, at most `limit` in flight.
pub struct FetchPlan {
    total: usize,
    limit: usize,
    next: usize,
    in_flight: usize,
    stored: usize,
    failed: usize,
}

/// The state of a batch as numbers.
pub struct PlanView {
    pub total: nat,
    pub limit: nat,
    pub next: nat,
    pub in_flight: nat,
    pub stored: nat,
    pub failed: nat,
}

/// A batch is consistent: no more in flight than the limit, and every started
/// feed is either in flight or counted.
pub open spec fn plan_wf(p: PlanView) -> bool {
    &&& p.limit > 0
    &&& p.next <= p.total
    &&& p.in_flight <= p.limit
    &&& p.stored + p.failed + p.in_flight == p.next
}

/// The step a batch takes and the state after it.
pub open spec fn step_of(p: PlanView) -> (PlanView, FetchStep) {
    if p.in_flight < p.limit && p.next < p.total {
        (PlanView { next: p.next + 1, in_flight: p.in_flight + 1, ..p }, FetchStep::Start(p.next as usize))
    } else if p.in_flight > 0 {
        (p, FetchStep::Wait)
    } else {
        (p, FetchStep::Done)
    }
}

/// The state after a running feed ends.
pub open spec fn finish_of(p: PlanView, o: FeedOutcome) -> PlanView {
    match o {
        FeedOutcome::Stored => PlanView { in_flight: (p.in_flight - 1) as nat, stored: p.stored + 1, ..p },
        _ => PlanView { in_flight: (p.in_flight - 1) as nat, failed: p.failed + 1, ..p },
    }
}

impl View for FetchPlan {
    type V = PlanView;

    closed spec fn view(&self) -> PlanView {
        PlanView {
            total: self.total as nat,
            limit: self.limit as nat,
            next: self.next as nat,
            in_flight: self.in_flight as nat,
            stored: self.stored as nat,
            failed: self.failed as nat,
        }
    }
}

impl FetchPlan {
    /// A batch of `total` feeds with at most `limit` in flight.
    pub fn new(total: usize, limit: usize) -> (r: FetchPlan)
        requires
            limit > 0,
        ensures
            plan_wf(r@),
            r@ == (PlanView { total: total as nat, limit: limit as nat, next: 0, in_flight: 0, stored: 0, failed: 0 }),
    {
        FetchPlan { total, limit, next: 0, in_flight: 0, stored: 0, failed: 0 }
    }

    /// Decides what to do next, and takes a slot when a feed starts.
    pub fn next_step(&mut self) -> (r: FetchStep)
        requires
            plan_wf(old(self)@),
        ensures
            plan_wf(final(self)@),
            (final(self)@, r) == step_of(old(self)@),
    {
        if self.in_flight < self.limit && self.next < self.total {
            let i = self.next;
            self.next = self.next + 1;
            self.in_flight = self.in_flight + 1;
            FetchStep::Start(i)
        } else if self.in_flight > 0 {
            FetchStep::Wait
        } else {
            FetchStep::Done
        }
    }

    /// Records that a running feed ended, whatever the outcome, and frees its slot.
    pub fn finish(&mut self, outcome: FeedOutcome)
        requires
            plan_wf(old(self)@),
            old(self)@.in_flight > 0,
        ensures
            plan_wf(final(self)@),
            final(self)@ == finish_of(old(self)@, outcome),
    {
        self.in_flight = self.in_flight - 1;
        match outcome {
            FeedOutcome::Stored => {
                self.stored = self.stored + 1;
            },
            _ => {
                self.failed = self.failed + 1;
            },
        }
    }

    pub fn in_flight(&self) -> (r: usize)
        ensures
            r == self@.in_flight,
    {
        self.in_flight
    }

    pub fn stored(&self) -> (r: usize)
        ensures
            r == self@.stored,
    {
        self.stored
    }

    pub fn failed(&self) -> (r: usize)
        ensures
            r == self@.failed,
    {
        self.failed
    }
}

/// A step never puts more than the limit in flight, and stopping means every
/// feed was started and has ended.
pub proof fn lemma_step_bounded(p: PlanView)
    requires
        plan_wf(p),
    ensures
        plan_wf(step_of(p).0),
        step_of(p).0.in_flight <= p.limit,
        step_of(p).1 == FetchStep::Done ==> p.next == p.total && p.in_flight == 0 && p.stored
            + p.failed == p.total,
{
}

/// A failed feed frees its slot as a stored one does: what is started next
/// does not depend on how earlier feeds ended.
pub proof fn lemma_failure_isolated(p: PlanView, o: FeedOutcome)
    requires
        plan_wf(p),
        p.in_flight > 0,
    ensures
        plan_wf(finish_of(p, o)),
        step_of(finish_of(p, o)).1 == step_of(finish_of(p, FeedOutcome::Stored)).1,
        p.next < p.total ==> step_of(finish_of(p, o)).1 == FetchStep::Start(p.next as usize),
{
}

/// The state after driving a batch for `fuel` moves: a feed is started
/// whenever the step says so, and each wait is answered by the next outcome.
pub open spec fn drive(p: PlanView, outcomes: Seq<FeedOutcome>, fuel: nat) -> PlanView
    decreases fuel,
{
    if fuel == 0 {
        p
    } else {
        match step_of(p).1 {
            FetchStep::Start(_) => drive(step_of(p).0, outcomes, (fuel - 1) as nat),
            FetchStep::Wait => if outcomes.len() > 0 {
                drive(finish_of(p, outcomes[0]), outcomes.drop_first(), (fuel - 1) as nat)
            } else {
                p
            },
            FetchStep::Done => p,
        }
    }
}

/// Moves left before a batch is done: two for each feed not started, one for
/// each running.
pub open spec fn moves_left(p: PlanView) -> nat {
    (2 * (p.total - p.next) + p.in_flight) as nat
}

/// However the feeds end, failures included, a batch driven long enough
/// starts every feed, and ends with none in flight and every feed counted.
pub proof fn lemma_all_attempted(p: PlanView, outcomes: Seq<FeedOutcome>, fuel: nat)
    requires
        plan_wf(p),
        outcomes.len() >= p.in_flight + (p.total - p.next),
        fuel > moves_left(p),
    ensures
        plan_wf(drive(p, outcomes, fuel)),
        drive(p, outcomes, fuel).next == p.total,
        drive(p, outcomes, fuel).in_flight == 0,
        drive(p, outcomes, fuel).stored + drive(p, outcomes, fuel).failed == p.total,
    decreases fuel,
{
    match step_of(p).1 {
        FetchStep::Start(_) => {
            lemma_all_attempted(step_of(p).0, outcomes, (fuel - 1) as nat);
        },
        FetchStep::Wait => {
            lemma_all_attempted(finish_of(p, outcomes[0]), outcomes.drop_first(), (fuel - 1) as nat);
        },
        FetchStep::Done => {},
    }
}

} // verus!
