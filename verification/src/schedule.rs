//! The order of work in a scan: which page is probed next, and when to wait.
//!
//! The caller runs the requests; the dispatcher decides. It hands out the
//! pages in the order of the word list, never lets more than the agreed
//! number of probes be unanswered at once, and starts the next probe as soon
//! as one is answered.

use vstd::prelude::*;

verus! {

/// The smallest number of probes that may run at once.
pub const MIN_CONCURRENCY: usize = 1;

/// The greatest number of probes that may run at once.
pub const MAX_CONCURRENCY: usize = 14;

/// The number of probes that run at once where the caller names none.
pub const DEFAULT_CONCURRENCY: usize = 10;

/// Where a scan stands.
pub struct Plan {
    /// The number of pages to probe.
    pub total: nat,
    /// The number of probes that may be unanswered at once.
    pub limit: nat,
    /// The number of probes started so far.
    pub dispatched: nat,
    /// The number of probes answered so far.
    pub completed: nat,
}

/// What the caller is to do next.
#[derive(Clone, Copy, Debug, PartialEq, Eq, Structural)]
pub enum Step {
    /// Start the probe of the page with this index.
    Dispatch(usize),
    /// Wait until one of the running probes is answered, then report it.
    Await,
    /// Every page was probed and answered.
    Finished,
}

impl Plan {
    /// The number of probes started and not yet answered.
    pub open spec fn in_flight(self) -> int {
        self.dispatched - self.completed
    }

    /// The limit is one that a scan may have, no probe was answered before it
    /// was started, none was started beyond the last page, and no more are
    /// unanswered than the limit allows.
    pub open spec fn valid(self) -> bool {
        &&& MIN_CONCURRENCY <= self.limit <= MAX_CONCURRENCY
        &&& self.completed <= self.dispatched <= self.total
        &&& self.in_flight() <= self.limit
    }

    /// A probe may be started: a page is left and the limit is not reached.
    pub open spec fn may_dispatch(self) -> bool {
        self.dispatched < self.total && self.in_flight() < self.limit
    }

    /// The next step: start the next page where that may be done, else wait
    /// for an answer where one is due, else the scan is over.
    pub open spec fn step(self) -> Step {
        if self.may_dispatch() {
            Step::Dispatch(self.dispatched as usize)
        } else if self.in_flight() > 0 {
            Step::Await
        } else {
            Step::Finished
        }
    }

    /// The plan after its next step was handed out.
    pub open spec fn after_step(self) -> Plan {
        if self.may_dispatch() {
            Plan { dispatched: self.dispatched + 1, ..self }
        } else {
            self
        }
    }

    /// The plan after an answer was reported: one more probe is answered
    /// where one was unanswered, and nothing changes otherwise.
    pub open spec fn after_answer(self) -> Plan {
        if self.in_flight() > 0 {
            Plan { completed: self.completed + 1, ..self }
        } else {
            self
        }
    }

    /// The steps that are still to come before the scan is over, on which
    /// every dispatch and every answer counts one.
    pub open spec fn work_left(self) -> int {
        2 * self.total - self.dispatched - self.completed
    }
}

/// A valid plan stays valid whatever happens next, so at no time are more
/// probes unanswered than the limit allows.
pub proof fn lemma_plan_stays_valid(plan: Plan)
    requires
        plan.valid(),
    ensures
        plan.after_step().valid(),
        plan.after_answer().valid(),
        plan.after_step().in_flight() <= plan.limit,
        plan.after_answer().in_flight() <= plan.limit,
{
}

/// A valid plan comes to its end: each dispatch and each answer leaves less
/// to do, waiting is asked for only while an answer is due, and the scan is
/// over exactly when every page was started once and answered.
pub proof fn lemma_plan_ends(plan: Plan)
    requires
        plan.valid(),
    ensures
        plan.work_left() >= 0,
        plan.step() is Dispatch ==> plan.after_step().work_left() == plan.work_left() - 1,
        plan.step() is Await ==> plan.in_flight() > 0 && plan.after_answer().work_left()
            == plan.work_left() - 1,
        plan.step() is Finished <==> plan.work_left() == 0,
        plan.step() is Finished <==> plan.dispatched == plan.total && plan.completed == plan.total,
{
}

/// The dispatcher of one scan.
#[derive(Debug)]
pub struct Dispatcher {
    total: usize,
    limit: usize,
    dispatched: usize,
    completed: usize,
}

impl View for Dispatcher {
    type V = Plan;

    closed spec fn view(&self) -> Plan {
        Plan {
            total: self.total as nat,
            limit: self.limit as nat,
            dispatched: self.dispatched as nat,
            completed: self.completed as nat,
        }
    }
}

impl Dispatcher {
    #[verifier::type_invariant]
    spec fn well_formed(&self) -> bool {
        self@.valid()
    }

    /// The dispatcher for a scan of `total` pages with at most `concurrency`
    /// probes at once, or nothing where `concurrency` is not from 1 to 14.
    pub fn new(total: usize, concurrency: usize) -> (r: Option<Dispatcher>)
        ensures
            r is Some <==> MIN_CONCURRENCY <= concurrency <= MAX_CONCURRENCY,
            r matches Some(d) ==> d@ == (Plan {
                total: total as nat,
                limit: concurrency as nat,
                dispatched: 0,
                completed: 0,
            }) && d@.valid(),
    {
        if concurrency < MIN_CONCURRENCY || concurrency > MAX_CONCURRENCY {
            None
        } else {
            Some(Dispatcher { total, limit: concurrency, dispatched: 0, completed: 0 })
        }
    }

    /// Hands out the next step. A dispatch names the next page in the order
    /// of the word list and counts it as started.
    pub fn next_step(&mut self) -> (r: Step)
        ensures
            old(self)@.valid(),
            r == old(self)@.step(),
            final(self)@ == old(self)@.after_step(),
            final(self)@.valid(),
    {
        proof {
            use_type_invariant(&*self);
        }
        if self.dispatched < self.total && self.dispatched - self.completed < self.limit {
            let index = self.dispatched;
            self.dispatched = self.dispatched + 1;
            Step::Dispatch(index)
        } else if self.dispatched > self.completed {
            Step::Await
        } else {
            Step::Finished
        }
    }

    /// Reports that one of the running probes was answered. Says whether one
    /// was running.
    pub fn complete(&mut self) -> (r: bool)
        ensures
            old(self)@.valid(),
            r == (old(self)@.in_flight() > 0),
            final(self)@ == old(self)@.after_answer(),
            final(self)@.valid(),
    {
        proof {
            use_type_invariant(&*self);
        }
        if self.dispatched > self.completed {
            self.completed = self.completed + 1;
            true
        } else {
            false
        }
    }

    /// The number of probes started so far: what a progress bar shows.
    pub fn dispatched(&self) -> (n: usize)
        ensures
            n == self@.dispatched,
            self@.valid(),
    {
        proof {
            use_type_invariant(self);
        }
        self.dispatched
    }

    /// The number of probes answered so far.
    pub fn completed(&self) -> (n: usize)
        ensures
            n == self@.completed,
            self@.valid(),
    {
        proof {
            use_type_invariant(self);
        }
        self.completed
    }

    /// The number of probes started and not yet answered, which is never
    /// above the limit.
    pub fn in_flight(&self) -> (n: usize)
        ensures
            n == self@.in_flight(),
            n <= self@.limit,
            self@.valid(),
    {
        proof {
            use_type_invariant(self);
        }
        self.dispatched - self.completed
    }

    /// The number of pages of the scan.
    pub fn total(&self) -> (n: usize)
        ensures
            n == self@.total,
    {
        self.total
    }

    /// The number of probes that may be unanswered at once.
    pub fn limit(&self) -> (n: usize)
        ensures
            n == self@.limit,
            MIN_CONCURRENCY <= n <= MAX_CONCURRENCY,
    {
        proof {
            use_type_invariant(self);
        }
        self.limit
    }
}

} // verus!
