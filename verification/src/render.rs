//! The computations behind the result renderers.
//!
//! Rendering itself — colors, glyphs, terminal output — lives outside the
//! library; what the summaries print is computed here: how many cases
//! passed, how many failed, and how much request time they spent.

use vstd::prelude::*;

use crate::test_case::TestCase;
use crate::test_case::TestResult;

verus! {

/// The human-oriented renderer: one line per test and a final summary.
pub struct HumanRenderer;

impl HumanRenderer {
    pub fn new() -> (r: HumanRenderer) {
        HumanRenderer
    }
}

/// The diff-oriented renderer: expected/actual pairs per failure.
pub struct DiffRenderer;

impl DiffRenderer {
    pub fn new() -> (r: DiffRenderer) {
        DiffRenderer
    }
}

/// Whether a case ended passed.
pub open spec fn is_passed(tc: TestCase) -> bool {
    tc.result matches Some(TestResult::Passed { .. })
}

/// Whether a case ended failed.
pub open spec fn is_failed(tc: TestCase) -> bool {
    tc.result matches Some(TestResult::Failed { .. })
}

/// The duration a case's result carries; a case without a result spent
/// nothing.
pub open spec fn dur_of(tc: TestCase) -> int {
    match tc.result {
        Some(TestResult::Passed { duration_ms }) => duration_ms as int,
        Some(TestResult::Failed { duration_ms, .. }) => duration_ms as int,
        None => 0,
    }
}

/// How many of the cases passed.
pub open spec fn spec_passed_count(tests: Seq<TestCase>) -> nat
    decreases tests.len(),
{
    if tests.len() == 0 {
        0
    } else {
        spec_passed_count(tests.drop_last()) + if is_passed(tests.last()) {
            1nat
        } else {
            0nat
        }
    }
}

/// How many of the cases failed.
pub open spec fn spec_failed_count(tests: Seq<TestCase>) -> nat
    decreases tests.len(),
{
    if tests.len() == 0 {
        0
    } else {
        spec_failed_count(tests.drop_last()) + if is_failed(tests.last()) {
            1nat
        } else {
            0nat
        }
    }
}

/// The total request time the results carry.
pub open spec fn spec_duration_sum(tests: Seq<TestCase>) -> int
    decreases tests.len(),
{
    if tests.len() == 0 {
        0
    } else {
        spec_duration_sum(tests.drop_last()) + dur_of(tests.last())
    }
}

proof fn lemma_duration_sum_nonneg(tests: Seq<TestCase>)
    ensures
        spec_duration_sum(tests) >= 0,
    decreases tests.len(),
{
    if tests.len() > 0 {
        lemma_duration_sum_nonneg(tests.drop_last());
    }
}

/// Counts passed and failed cases and sums the request time their
/// results carry; the sum saturates at the largest representable value.
pub fn summary_counts(tests: &Vec<TestCase>) -> (r: (usize, usize, u64))
    ensures
        r.0 == spec_passed_count(tests@),
        r.1 == spec_failed_count(tests@),
        r.2 == if spec_duration_sum(tests@) <= u64::MAX {
            spec_duration_sum(tests@)
        } else {
            u64::MAX as int
        },
{
    let mut passed: usize = 0;
    let mut failed: usize = 0;
    let mut total: u64 = 0;
    let mut i: usize = 0;
    proof {
        assert(tests@.take(0) =~= Seq::<TestCase>::empty());
    }
    while i < tests.len()
        invariant
            i <= tests@.len(),
            passed == spec_passed_count(tests@.take(i as int)),
            failed == spec_failed_count(tests@.take(i as int)),
            passed <= i && failed <= i,
            total == if spec_duration_sum(tests@.take(i as int)) <= u64::MAX {
                spec_duration_sum(tests@.take(i as int))
            } else {
                u64::MAX as int
            },
        decreases tests@.len() - i,
    {
        proof {
            assert(tests@.take(i + 1).drop_last() =~= tests@.take(i as int));
            assert(tests@.take(i + 1).last() == tests@[i as int]);
            lemma_duration_sum_nonneg(tests@.take(i as int));
        }
        match &tests[i].result {
            Some(TestResult::Passed { duration_ms }) => {
                passed = passed + 1;
                total = if total <= u64::MAX - *duration_ms {
                    total + *duration_ms
                } else {
                    u64::MAX
                };
            },
            Some(TestResult::Failed { duration_ms, .. }) => {
                failed = failed + 1;
                total = if total <= u64::MAX - *duration_ms {
                    total + *duration_ms
                } else {
                    u64::MAX
                };
            },
            None => {},
        }
        i = i + 1;
    }
    proof {
        assert(tests@.take(tests@.len() as int) =~= tests@);
    }
    (passed, failed, total)
}

} // verus!
