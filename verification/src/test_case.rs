//! Test cases and their evaluation.
//!
//! A test case pairs one HTTP request with its ordered assertion list.
//! Once the transport has produced an outcome — a response, or a transport
//! error — `run` turns it into a result: `Passed` when every assertion
//! holds, otherwise `Failed` with one failure record per failing assertion
//! in authored order, and a single record on the path `request` for a
//! transport error.

use vstd::prelude::*;

use crate::assertion::Assertion;
use crate::assertion::AssertionFailure;
use crate::assertion::assertion_path;
use crate::assertion::failure_matches;
use crate::assertion::spec_passes;
use crate::http::HttpRequest;
use crate::http::HttpResponse;

verus! {

/// The outcome of one executed test case.
#[derive(Debug)]
pub enum TestResult {
    Passed { duration_ms: u64 },
    Failed { duration_ms: u64, errors: Vec<AssertionFailure> },
}

/// One authored test: an optional name, the request, the assertion list,
/// and — after execution only — the response and the result.
#[derive(Debug)]
pub struct TestCase {
    pub name: Option<String>,
    pub request: HttpRequest,
    pub response: Option<HttpResponse>,
    pub assertions: Vec<Assertion>,
    pub result: Option<TestResult>,
}

/// What the parser guarantees of every case it produces: no response and
/// no result yet, a request whose URL some text parses to, and
/// well-formed assertions.
pub open spec fn wf_parsed(tc: TestCase) -> bool {
    &&& tc.response is None
    &&& tc.result is None
    &&& crate::http::valid_url(tc.request.url@)
    &&& forall|k: int|
        0 <= k < tc.assertions@.len() ==> crate::assertion::wf_assertion(
            #[trigger] tc.assertions@[k],
        )
}

/// The subsequence of assertions that fail against a response, in
/// authored order.
pub open spec fn failing(assertions: Seq<Assertion>, resp: HttpResponse) -> Seq<Assertion>
    decreases assertions.len(),
{
    if assertions.len() == 0 {
        Seq::empty()
    } else if spec_passes(assertions.last(), resp) {
        failing(assertions.drop_last(), resp)
    } else {
        failing(assertions.drop_last(), resp).push(assertions.last())
    }
}

/// No assertion fails exactly when every assertion passes.
pub proof fn lemma_all_pass_iff_no_failing(assertions: Seq<Assertion>, resp: HttpResponse)
    ensures
        failing(assertions, resp).len() == 0 <==> forall|i: int|
            0 <= i < assertions.len() ==> spec_passes(#[trigger] assertions[i], resp),
    decreases assertions.len(),
{
    if assertions.len() > 0 {
        lemma_all_pass_iff_no_failing(assertions.drop_last(), resp);
        assert(forall|i: int|
            0 <= i < assertions.len() - 1 ==> assertions.drop_last()[i] == #[trigger] assertions[i]);
    }
}

/// Every failing assertion is one of the authored assertions.
pub proof fn lemma_failing_subset(assertions: Seq<Assertion>, resp: HttpResponse)
    ensures
        forall|k: int|
            0 <= k < failing(assertions, resp).len() ==> exists|j: int|
                0 <= j < assertions.len() && #[trigger] failing(assertions, resp)[k]
                    == assertions[j],
    decreases assertions.len(),
{
    if assertions.len() > 0 {
        lemma_failing_subset(assertions.drop_last(), resp);
        assert forall|k: int| 0 <= k < failing(assertions, resp).len() implies exists|j: int|
            0 <= j < assertions.len() && #[trigger] failing(assertions, resp)[k]
                == assertions[j] by {
            let sub = failing(assertions.drop_last(), resp);
            if k < sub.len() {
                let j = choose|j: int|
                    0 <= j < assertions.drop_last().len() && sub[k] == assertions.drop_last()[j];
                assert(assertions.drop_last()[j] == assertions[j]);
                assert(failing(assertions, resp)[k] == assertions[j]);
            } else {
                assert(failing(assertions, resp)[k] == assertions[assertions.len() - 1]);
            }
        }
    }
}

/// What `TestCase::run` promises: the authored part is unchanged, a result
/// is always set, a transport error becomes one failure record on the path
/// `request` carrying the error text, and a response is checked against
/// every assertion, yielding `Passed` exactly when none fails and
/// otherwise one matching record per failing assertion in order.
pub open spec fn run_post(
    before: TestCase,
    outcome: Result<HttpResponse, String>,
    duration_ms: u64,
    after: TestCase,
) -> bool {
    &&& after.name == before.name
    &&& after.request == before.request
    &&& after.assertions == before.assertions
    &&& after.result is Some
    &&& match outcome {
        Err(msg) => {
            &&& after.response is None
            &&& match after.result {
                Some(TestResult::Failed { duration_ms: d, errors }) => {
                    &&& d == duration_ms
                    &&& errors@.len() == 1
                    &&& errors@[0].path@ == "request"@
                    &&& errors@[0].expected is None
                    &&& errors@[0].actual is None
                    &&& errors@[0].message@ == msg@
                },
                _ => false,
            }
        },
        Ok(resp) => {
            &&& after.response == Some(resp)
            &&& if failing(before.assertions@, resp).len() == 0 {
                after.result == Some(TestResult::Passed { duration_ms })
            } else {
                match after.result {
                    Some(TestResult::Failed { duration_ms: d, errors }) => {
                        &&& d == duration_ms
                        &&& errors@.len() == failing(before.assertions@, resp).len()
                        &&& forall|k: int|
                            0 <= k < errors@.len() ==> failure_matches(
                                failing(before.assertions@, resp)[k],
                                resp,
                                #[trigger] errors@[k],
                            )
                    },
                    _ => false,
                }
            }
        },
    }
}

/// A case that ran to `Passed` had every one of its assertions pass
/// against the response it received; with no assertions it passes on any
/// response.
pub proof fn lemma_passed_means_all_pass(
    before: TestCase,
    resp: HttpResponse,
    duration_ms: u64,
    after: TestCase,
)
    requires
        run_post(before, Ok(resp), duration_ms, after),
        after.result matches Some(TestResult::Passed { .. }),
    ensures
        forall|i: int|
            0 <= i < before.assertions@.len() ==> spec_passes(
                #[trigger] before.assertions@[i],
                resp,
            ),
{
    lemma_all_pass_iff_no_failing(before.assertions@, resp);
}

impl TestCase {
    /// Evaluates the transport outcome of this test, per `run_post`.
    ///
    /// Every returned case carries a result, and a `Failed` result carries
    /// at least one record, each on the path of some assertion or on
    /// `request`.
    pub fn run(self, outcome: Result<HttpResponse, String>, duration_ms: u64) -> (r: TestCase)
        ensures
            run_post(self, outcome, duration_ms, r),
            match r.result {
                Some(TestResult::Failed { errors, .. }) => errors@.len() >= 1 && forall|k: int|
                    0 <= k < errors@.len() ==> (#[trigger] errors@[k].path@ == "request"@
                        || exists|j: int|
                        0 <= j < self.assertions@.len() && errors@[k].path@ == assertion_path(
                            self.assertions@[j],
                        )),
                _ => true,
            },
    {
        let TestCase { name, request, response: _, assertions, result: _ } = self;
        let resp = match outcome {
            Ok(resp) => resp,
            Err(msg) => {
                let failure = AssertionFailure {
                    path: String::from_str("request"),
                    expected: None,
                    actual: None,
                    message: msg,
                };
                let mut errors: Vec<AssertionFailure> = Vec::new();
                errors.push(failure);
                return TestCase {
                    name,
                    request,
                    response: None,
                    assertions,
                    result: Some(TestResult::Failed { duration_ms, errors }),
                };
            },
        };
        let mut errors: Vec<AssertionFailure> = Vec::new();
        let mut i: usize = 0;
        proof {
            assert(assertions@.take(0) =~= Seq::<Assertion>::empty());
        }
        while i < assertions.len()
            invariant
                i <= assertions@.len(),
                errors@.len() == failing(assertions@.take(i as int), resp).len(),
                forall|k: int|
                    0 <= k < errors@.len() ==> failure_matches(
                        failing(assertions@.take(i as int), resp)[k],
                        resp,
                        #[trigger] errors@[k],
                    ),
            decreases assertions@.len() - i,
        {
            let ghost pre = assertions@.take(i as int);
            proof {
                assert(assertions@.take(i + 1).drop_last() =~= pre);
                assert(assertions@.take(i + 1).last() == assertions@[i as int]);
            }
            match assertions[i].check(&resp) {
                Ok(_) => {},
                Err(f) => {
                    errors.push(f);
                },
            }
            i = i + 1;
        }
        proof {
            assert(assertions@.take(assertions@.len() as int) =~= assertions@);
            lemma_failing_subset(assertions@, resp);
        }
        if errors.len() == 0 {
            TestCase {
                name,
                request,
                response: Some(resp),
                assertions,
                result: Some(TestResult::Passed { duration_ms }),
            }
        } else {
            TestCase {
                name,
                request,
                response: Some(resp),
                assertions,
                result: Some(TestResult::Failed { duration_ms, errors }),
            }
        }
    }
}

} // verus!
