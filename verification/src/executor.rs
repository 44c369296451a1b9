//! Execution bookkeeping for a batch of test cases.
//!
//! The transport runs outside the library; here live the decisions it
//! follows. `Dispatch` is the permit ledger of a bounded-concurrency run:
//! a unit of work acquires one of `capacity` permits before it starts and
//! releases it when it finishes, so the number in flight never exceeds the
//! cap. `Executor::run_tests` is the evaluation of a whole batch: it folds
//! each test's transport outcome into its result, in order.

use vstd::prelude::*;

use crate::http::HttpResponse;
use crate::test_case::TestCase;
use crate::test_case::run_post;

verus! {

/// The permit ledger of one bounded-concurrency run: how many units have
/// started and finished, out of how many, under which permit cap.
pub struct Dispatch {
    pub total: usize,
    pub started: usize,
    pub finished: usize,
    pub capacity: usize,
}

impl Dispatch {
    /// The ledger invariant: units finish only after starting, starts
    /// never pass the batch, and — the concurrency bound — the units in
    /// flight never exceed the permit cap.
    pub open spec fn wf(self) -> bool {
        &&& 1 <= self.capacity
        &&& self.finished <= self.started <= self.total
        &&& self.started - self.finished <= self.capacity
    }

    /// The number of units in flight.
    pub open spec fn in_flight(self) -> int {
        self.started - self.finished
    }

    /// Whether the run has settled: every unit started and finished.
    pub open spec fn done(self) -> bool {
        self.started == self.total && self.finished == self.total
    }

    /// A fresh ledger: nothing started.
    pub fn new(total: usize, capacity: usize) -> (d: Dispatch)
        requires
            1 <= capacity,
        ensures
            d.wf(),
            d.total == total,
            d.capacity == capacity,
            d.started == 0,
            d.finished == 0,
    {
        Dispatch { total, started: 0, finished: 0, capacity }
    }

    /// Whether a fresh unit may start now: work remains and a permit is
    /// free.
    pub fn can_start(&self) -> (r: bool)
        requires
            self.wf(),
        ensures
            r == (self.started < self.total && self.in_flight() < self.capacity),
    {
        self.started < self.total && self.started - self.finished < self.capacity
    }

    /// A unit acquires a permit and starts.
    pub fn start(&mut self)
        requires
            old(self).wf(),
            old(self).started < old(self).total,
            old(self).in_flight() < old(self).capacity,
        ensures
            final(self).wf(),
            final(self).started == old(self).started + 1,
            final(self).finished == old(self).finished,
            final(self).total == old(self).total,
            final(self).capacity == old(self).capacity,
            final(self).in_flight() == old(self).in_flight() + 1,
    {
        self.started = self.started + 1;
    }

    /// A unit finishes and releases its permit.
    pub fn finish(&mut self)
        requires
            old(self).wf(),
            old(self).finished < old(self).started,
        ensures
            final(self).wf(),
            final(self).finished == old(self).finished + 1,
            final(self).started == old(self).started,
            final(self).total == old(self).total,
            final(self).capacity == old(self).capacity,
            final(self).in_flight() == old(self).in_flight() - 1,
    {
        self.finished = self.finished + 1;
    }

    /// The concurrency bound itself: on every well-formed ledger, however
    /// the run interleaved, the units in flight never exceed the cap.
    pub proof fn lemma_bounded_in_flight(self)
        requires
            self.wf(),
        ensures
            self.in_flight() <= self.capacity,
    {
    }

    /// A run never sticks: while any unit is unfinished, a unit can
    /// finish or a fresh one can start, so every finite batch settles.
    pub proof fn lemma_progress(self)
        requires
            self.wf(),
            !self.done(),
        ensures
            self.finished < self.started || (self.started < self.total && self.in_flight()
                < self.capacity),
    {
    }

    /// With one permit the run is fully serialized: at most one unit is
    /// ever in flight.
    pub proof fn lemma_capacity_one_serializes(self)
        requires
            self.wf(),
            self.capacity == 1,
        ensures
            self.in_flight() <= 1,
    {
    }

    /// With at least as many permits as units, a permit is free whenever
    /// work remains: the cap never delays a start, exactly as a cap equal
    /// to the batch size behaves.
    pub proof fn lemma_ample_capacity_never_blocks(self)
        requires
            self.wf(),
            self.capacity >= self.total,
            self.started < self.total,
        ensures
            self.in_flight() < self.capacity,
    {
    }
}

pub struct Executor;

impl Executor {
    /// Folds each test's transport outcome — a response or a transport
    /// error, with the wall-clock duration of the exchange — into that
    /// test's result, in order. Every returned case carries a result; the
    /// batch keeps its length and order. The ledger protocol is followed
    /// with the given permit cap: each unit starts before it finishes,
    /// and the units in flight never exceed the cap.
    pub fn run_tests(
        tests: Vec<TestCase>,
        outcomes: Vec<(Result<HttpResponse, String>, u64)>,
        max_concurrency: usize,
    ) -> (r: Vec<TestCase>)
        requires
            tests@.len() == outcomes@.len(),
            1 <= max_concurrency,
        ensures
            r@.len() == tests@.len(),
            forall|k: int|
                0 <= k < r@.len() ==> run_post(
                    tests@[k],
                    outcomes@[k].0,
                    outcomes@[k].1,
                    #[trigger] r@[k],
                ),
    {
        let total = tests.len();
        let mut ledger = Dispatch::new(total, max_concurrency);
        let mut results: Vec<TestCase> = Vec::new();
        let mut tests = tests;
        let mut outcomes = outcomes;
        let ghost orig_tests = tests@;
        let ghost orig_outcomes = outcomes@;
        let mut i: usize = 0;
        proof {
            assert(orig_tests.skip(0) =~= orig_tests);
            assert(orig_outcomes.skip(0) =~= orig_outcomes);
        }
        while i < total
            invariant
                i <= total,
                total == orig_tests.len() == orig_outcomes.len(),
                tests@ == orig_tests.skip(i as int),
                outcomes@ == orig_outcomes.skip(i as int),
                results@.len() == i,
                ledger.wf(),
                ledger.total == total,
                ledger.capacity == max_concurrency,
                ledger.started == i,
                ledger.finished == i,
                forall|k: int|
                    0 <= k < i ==> run_post(
                        orig_tests[k],
                        orig_outcomes[k].0,
                        orig_outcomes[k].1,
                        #[trigger] results@[k],
                    ),
            decreases total - i,
        {
            ledger.start();
            let case = tests.remove(0);
            let (outcome, duration_ms) = outcomes.remove(0);
            proof {
                assert(orig_tests.skip(i as int)[0] == orig_tests[i as int]);
                assert(orig_outcomes.skip(i as int)[0] == orig_outcomes[i as int]);
                assert(orig_tests.skip(i as int).skip(1) =~= orig_tests.skip(i + 1));
                assert(orig_outcomes.skip(i as int).skip(1) =~= orig_outcomes.skip(i + 1));
            }
            let done = case.run(outcome, duration_ms);
            results.push(done);
            ledger.finish();
            i = i + 1;
        }
        results
    }
}

} // verus!
