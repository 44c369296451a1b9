//! The assertion engine: path resolution and operator dispatch over HTTP
//! responses.
//!
//! `resolve_path` turns a dotted path into the value it names on a
//! response; `Assertion::check` evaluates one assertion and reports a
//! failure record when it does not hold. Both are specified exactly:
//! `spec_resolve` says what every path resolves to, and `spec_passes` says
//! when every assertion passes.

use vstd::prelude::*;

use crate::digits::string_push;
use crate::http::HttpResponse;
use crate::json::json_of;
use crate::json::parse_json;
use crate::json::spec_coerce;
use crate::json::spec_descend;
use crate::path::split_dots;
use crate::path::split_dots_exec;
use crate::path::copy_range;
use crate::strutil::chars_eq_str;
use crate::strutil::str_to_chars;
use crate::value::AxValue;
use crate::value::Operator;
use crate::value::compare;
use crate::value::render_value_list;
use crate::value::spec_compare;
use crate::value::value_eq;
use crate::value::value_equals;
use crate::value::value_list_rep;
use crate::value::value_rep;

verus! {

/// An assertion as authored by an `EXPECT` clause.
#[derive(Debug)]
pub enum Assertion {
    Binary { path: String, op: Operator, value: AxValue },
    In { path: String, values: Vec<AxValue> },
    Between { path: String, min: AxValue, max: AxValue },
    Exists { path: String },
    Unary { path: String },
}

/// One reported assertion failure: the failing path, the expected and
/// actual sides where the variant has them, and a readable message.
#[derive(Debug)]
pub struct AssertionFailure {
    pub path: String,
    pub expected: Option<String>,
    pub actual: Option<String>,
    pub message: String,
}

/// What a path names on a response: `status` is the status code as a
/// number; `body` is the body text when present; `body.<keys>` descends
/// the body parsed as JSON and coerces the final node; everything else
/// (including any JSON parse failure or missing key) is nothing.
pub open spec fn spec_resolve(resp: HttpResponse, path: Seq<char>) -> Option<AxValue> {
    if path == "status"@ {
        Some(AxValue::Number(resp.status as i64))
    } else if path == "body"@ {
        match resp.body {
            Some(b) => Some(AxValue::String(b)),
            None => None,
        }
    } else if path.len() >= 5 && path.take(5) == "body."@ {
        match resp.body {
            Some(b) => match json_of(b@) {
                Some(root) => match spec_descend(root, split_dots(path.skip(5))) {
                    Some(node) => spec_coerce(node),
                    None => None,
                },
                None => None,
            },
            None => None,
        }
    } else {
        None
    }
}

/// Resolves a path against a response, per `spec_resolve`.
pub fn resolve_path(response: &HttpResponse, path: &str) -> (r: Option<AxValue>)
    ensures
        r == spec_resolve(*response, path@),
{
    let pchars = str_to_chars(path);
    if chars_eq_str(&pchars, "status") {
        return Some(AxValue::Number(response.status as i64));
    }
    if chars_eq_str(&pchars, "body") {
        return match &response.body {
            Some(b) => Some(AxValue::String(b.clone())),
            None => None,
        };
    }
    if pchars.len() >= 5 {
        let prefix = copy_range(&pchars, 0, 5);
        proof {
            assert(prefix@ =~= path@.take(5));
        }
        if chars_eq_str(&prefix, "body.") {
            let body = match &response.body {
                Some(b) => b,
                None => {
                    return None;
                },
            };
            let root = match parse_json(body.as_str()) {
                Some(r) => r,
                None => {
                    return None;
                },
            };
            let n = pchars.len();
            let rest = copy_range(&pchars, 5, n);
            proof {
                assert(rest@ =~= path@.skip(5));
            }
            let keys = split_dots_exec(&rest);
            let node = match root.descend(&keys) {
                Some(node) => node,
                None => {
                    return None;
                },
            };
            return node.coerce();
        }
    }
    None
}

/// What the parser guarantees of every assertion it produces: an `In`
/// list is never empty, and both `Between` endpoints are numbers.
pub open spec fn wf_assertion(a: Assertion) -> bool {
    match a {
        Assertion::In { values, .. } => values@.len() >= 1,
        Assertion::Between { min, max, .. } => min is Number && max is Number,
        _ => true,
    }
}

/// The path an assertion speaks about.
pub open spec fn assertion_path(a: Assertion) -> Seq<char> {
    match a {
        Assertion::Binary { path, .. } => path@,
        Assertion::In { path, .. } => path@,
        Assertion::Between { path, .. } => path@,
        Assertion::Exists { path } => path@,
        Assertion::Unary { path } => path@,
    }
}

/// When an assertion passes against a response.
///
/// Every variant first resolves its path; a path that resolves to nothing
/// fails every variant, `Ne` included. `Binary` applies its operator;
/// `In` passes when some listed value equals the resolved one; `Between`
/// passes when all three sides are numbers and the resolved one lies in
/// the closed range; `Exists` needs only resolution; `Unary` needs the
/// boolean true.
pub open spec fn spec_passes(a: Assertion, resp: HttpResponse) -> bool {
    match a {
        Assertion::Binary { path, op, value } => match spec_resolve(resp, path@) {
            Some(actual) => spec_compare(op, actual, value),
            None => false,
        },
        Assertion::In { path, values } => match spec_resolve(resp, path@) {
            Some(actual) => exists|k: int|
                0 <= k < values@.len() && value_eq(actual, values@[k]),
            None => false,
        },
        Assertion::Between { path, min, max } => match spec_resolve(resp, path@) {
            Some(actual) => {
                &&& actual matches AxValue::Number(a)
                &&& min matches AxValue::Number(lo)
                &&& max matches AxValue::Number(hi)
                &&& lo <= a <= hi
            },
            None => false,
        },
        Assertion::Exists { path } => spec_resolve(resp, path@) is Some,
        Assertion::Unary { path } => match spec_resolve(resp, path@) {
            Some(actual) => value_eq(actual, AxValue::Bool(true)),
            None => false,
        },
    }
}

/// The expected side of a failure record: what the assertion asked for.
pub open spec fn fail_expected(a: Assertion) -> Seq<char> {
    match a {
        Assertion::Binary { value, .. } => value_rep(value),
        Assertion::In { values, .. } => value_list_rep(values@),
        Assertion::Between { min, max, .. } => "between "@ + value_rep(min) + " and "@ + value_rep(
            max,
        ),
        Assertion::Exists { .. } => "exists"@,
        Assertion::Unary { .. } => "true"@,
    }
}

/// The actual side of a failure record: the resolved value rendered, or
/// nothing when the path resolved to nothing (and always nothing for
/// `Exists`, which can only fail that way).
pub open spec fn fail_actual(a: Assertion, resp: HttpResponse) -> Option<Seq<char>> {
    match spec_resolve(resp, assertion_path(a)) {
        Some(actual) => if a is Exists {
            None
        } else {
            Some(value_rep(actual))
        },
        None => None,
    }
}

/// The Debug name of an operator, as messages print it.
pub open spec fn op_rep(op: Operator) -> Seq<char> {
    match op {
        Operator::Eq => "Eq"@,
        Operator::Ne => "Ne"@,
        Operator::Gt => "Gt"@,
        Operator::Lt => "Lt"@,
        Operator::Gte => "Gte"@,
        Operator::Lte => "Lte"@,
    }
}

/// The message of a failure record.
pub open spec fn fail_message(a: Assertion, resp: HttpResponse) -> Seq<char> {
    if spec_resolve(resp, assertion_path(a)) is None && !(a is Exists) {
        "Path '"@ + assertion_path(a) + "' not found"@
    } else {
        match a {
            Assertion::Binary { path, op, value } => "Expected "@ + path@ + " "@ + op_rep(op)
                + " "@ + value_rep(value),
            Assertion::In { path, .. } => "Expected '"@ + path@ + "' to be in list"@,
            Assertion::Between { .. } => "Value not in range"@,
            Assertion::Exists { path } => "Expected '"@ + path@ + "' to exist"@,
            Assertion::Unary { path } => "Expected '"@ + path@ + "' to be true"@,
        }
    }
}

/// What the failure record of an assertion holds when it fails: the
/// assertion's path, the expected side, the actual side where one exists,
/// and the message.
pub open spec fn failure_matches(a: Assertion, resp: HttpResponse, f: AssertionFailure) -> bool {
    &&& f.path@ == assertion_path(a)
    &&& match f.expected {
        Some(e) => e@ == fail_expected(a),
        None => false,
    }
    &&& match (f.actual, fail_actual(a, resp)) {
        (Some(x), Some(y)) => x@ == y,
        (None, None) => true,
        _ => false,
    }
    &&& f.message@ == fail_message(a, resp)
}

/// How a failure record reads: the message, and the expected and actual
/// sides on their own lines where the record has them.
pub open spec fn failure_rep(f: AssertionFailure) -> Seq<char> {
    match (f.expected, f.actual) {
        (Some(e), Some(a)) => f.message@ + "\n  expected: "@ + e@ + "\n  actual:   "@ + a@,
        (Some(e), None) => f.message@ + "\n  expected: "@ + e@ + "\n  actual:   <missing>"@,
        _ => f.message@,
    }
}

impl AssertionFailure {
    /// Renders the record as a human-readable text, per `failure_rep`.
    pub fn render(&self) -> (r: String)
        ensures
            r@ == failure_rep(*self),
    {
        match (&self.expected, &self.actual) {
            (Some(e), Some(a)) => {
                let mut m = self.message.clone();
                m.append("\n  expected: ");
                m.append(e.as_str());
                m.append("\n  actual:   ");
                m.append(a.as_str());
                m
            },
            (Some(e), None) => {
                let mut m = self.message.clone();
                m.append("\n  expected: ");
                m.append(e.as_str());
                m.append("\n  actual:   <missing>");
                m
            },
            _ => self.message.clone(),
        }
    }
}

/// On every response, the path `status` resolves to the status code as a
/// number.
pub proof fn lemma_resolve_status(resp: HttpResponse)
    ensures
        spec_resolve(resp, "status"@) == Some(AxValue::Number(resp.status as i64)),
{
}

/// An `Eq` assertion passes exactly when its path resolves to a value
/// equal to the authored one.
pub proof fn lemma_binary_eq_iff(path: String, value: AxValue, resp: HttpResponse)
    ensures
        spec_passes((Assertion::Binary { path, op: Operator::Eq, value }), resp) <==> (
        spec_resolve(resp, path@) matches Some(a) && value_eq(a, value)),
{
}

/// A `Ne` assertion passes exactly when its path resolves to a value not
/// equal to the authored one: a path that resolves to nothing fails `Ne`
/// too, since there is no actual side to compare.
pub proof fn lemma_binary_ne_iff(path: String, value: AxValue, resp: HttpResponse)
    ensures
        spec_passes((Assertion::Binary { path, op: Operator::Ne, value }), resp) <==> (
        spec_resolve(resp, path@) matches Some(a) && !value_eq(a, value)),
{
}

/// An `In` assertion over a single value is equivalent to the `Eq`
/// assertion on that value.
pub proof fn lemma_in_singleton(path: String, values: Vec<AxValue>, resp: HttpResponse)
    requires
        values@.len() == 1,
    ensures
        spec_passes((Assertion::In { path, values }), resp) <==> spec_passes(
            (Assertion::Binary { path, op: Operator::Eq, value: values@[0] }),
            resp,
        ),
{
}

/// A `Between` assertion passes exactly when both endpoints are numbers
/// and the path resolves to a number in the closed range between them.
pub proof fn lemma_between_iff(path: String, min: AxValue, max: AxValue, resp: HttpResponse)
    ensures
        spec_passes((Assertion::Between { path, min, max }), resp) <==> (spec_resolve(resp, path@)
            matches Some(AxValue::Number(a)) && min matches AxValue::Number(lo)
            && max matches AxValue::Number(hi) && lo <= a <= hi),
{
}

fn op_name(op: &Operator) -> (r: &'static str)
    ensures
        r@ == op_rep(*op),
{
    match op {
        Operator::Eq => "Eq",
        Operator::Ne => "Ne",
        Operator::Gt => "Gt",
        Operator::Lt => "Lt",
        Operator::Gte => "Gte",
        Operator::Lte => "Lte",
    }
}

/// `Path '<path>' not found`.
fn not_found_message(path: &String) -> (r: String)
    ensures
        r@ == "Path '"@ + path@ + "' not found"@,
{
    let mut m = String::from_str("Path '");
    m.append(path.as_str());
    m.append("' not found");
    m
}

impl Assertion {
    /// Evaluates the assertion against a response: nothing when it passes,
    /// per `spec_passes`, and otherwise the failure record that
    /// `failure_matches` describes.
    pub fn check(&self, response: &HttpResponse) -> (r: Result<(), AssertionFailure>)
        ensures
            r matches Ok(_) <==> spec_passes(*self, *response),
            r matches Err(f) ==> failure_matches(*self, *response, f),
    {
        match self {
            Assertion::Binary { path, op, value } => {
                let actual = match resolve_path(response, path.as_str()) {
                    Some(v) => v,
                    None => {
                        return Err(AssertionFailure {
                            path: path.clone(),
                            expected: Some(value.render()),
                            actual: None,
                            message: not_found_message(path),
                        });
                    },
                };
                if !compare(op, &actual, value) {
                    let mut m = String::from_str("Expected ");
                    m.append(path.as_str());
                    m.append(" ");
                    m.append(op_name(op));
                    m.append(" ");
                    let vr = value.render();
                    m.append(vr.as_str());
                    return Err(AssertionFailure {
                        path: path.clone(),
                        expected: Some(value.render()),
                        actual: Some(actual.render()),
                        message: m,
                    });
                }
                Ok(())
            },
            Assertion::Exists { path } => {
                if resolve_path(response, path.as_str()).is_none() {
                    let mut m = String::from_str("Expected '");
                    m.append(path.as_str());
                    m.append("' to exist");
                    return Err(AssertionFailure {
                        path: path.clone(),
                        expected: Some(String::from_str("exists")),
                        actual: None,
                        message: m,
                    });
                }
                Ok(())
            },
            Assertion::Unary { path } => {
                let actual = match resolve_path(response, path.as_str()) {
                    Some(v) => v,
                    None => {
                        return Err(AssertionFailure {
                            path: path.clone(),
                            expected: Some(String::from_str("true")),
                            actual: None,
                            message: not_found_message(path),
                        });
                    },
                };
                if !value_equals(&actual, &AxValue::Bool(true)) {
                    let mut m = String::from_str("Expected '");
                    m.append(path.as_str());
                    m.append("' to be true");
                    return Err(AssertionFailure {
                        path: path.clone(),
                        expected: Some(String::from_str("true")),
                        actual: Some(actual.render()),
                        message: m,
                    });
                }
                Ok(())
            },
            Assertion::In { path, values } => {
                let actual = match resolve_path(response, path.as_str()) {
                    Some(v) => v,
                    None => {
                        return Err(AssertionFailure {
                            path: path.clone(),
                            expected: Some(render_value_list(values)),
                            actual: None,
                            message: not_found_message(path),
                        });
                    },
                };
                let mut found = false;
                let mut i: usize = 0;
                while i < values.len()
                    invariant
                        i <= values@.len(),
                        found == exists|k: int|
                            0 <= k < i && value_eq(actual, values@[k]),
                    decreases values@.len() - i,
                {
                    if value_equals(&actual, &values[i]) {
                        found = true;
                    }
                    i = i + 1;
                }
                if !found {
                    let mut m = String::from_str("Expected '");
                    m.append(path.as_str());
                    m.append("' to be in list");
                    return Err(AssertionFailure {
                        path: path.clone(),
                        expected: Some(render_value_list(values)),
                        actual: Some(actual.render()),
                        message: m,
                    });
                }
                Ok(())
            },
            Assertion::Between { path, min, max } => {
                let actual = match resolve_path(response, path.as_str()) {
                    Some(v) => v,
                    None => {
                        let mut e = String::from_str("between ");
                        let mr = min.render();
                        e.append(mr.as_str());
                        e.append(" and ");
                        let xr = max.render();
                        e.append(xr.as_str());
                        return Err(AssertionFailure {
                            path: path.clone(),
                            expected: Some(e),
                            actual: None,
                            message: not_found_message(path),
                        });
                    },
                };
                let in_range = match (&actual, min, max) {
                    (AxValue::Number(a), AxValue::Number(lo), AxValue::Number(hi)) => *a >= *lo
                        && *a <= *hi,
                    _ => false,
                };
                if !in_range {
                    let mut e = String::from_str("between ");
                    let mr = min.render();
                    e.append(mr.as_str());
                    e.append(" and ");
                    let xr = max.render();
                    e.append(xr.as_str());
                    return Err(AssertionFailure {
                        path: path.clone(),
                        expected: Some(e),
                        actual: Some(actual.render()),
                        message: String::from_str("Value not in range"),
                    });
                }
                Ok(())
            },
        }
    }
}

} // verus!
