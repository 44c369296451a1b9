//! Authored values and comparison operators of the assertion language.

use vstd::prelude::*;

use crate::digits::int_rep;
use crate::digits::render_i64;
use crate::digits::string_push;

verus! {

/// A literal value as authored in an `.ax` file, or resolved from a response.
///
/// The parser produces decimal-free integer literals only; there is no
/// floating-point or null variant.
#[derive(Debug, Clone)]
pub enum AxValue {
    String(String),
    Number(i64),
    Bool(bool),
}

/// A binary comparison operator of the assertion language.
#[derive(Debug, Clone, Copy, PartialEq, Eq, Structural)]
pub enum Operator {
    Eq,
    Ne,
    Gt,
    Lt,
    Gte,
    Lte,
}

/// Structural equality of two values: the variants match and their
/// contents are equal. Values of different variants are never equal.
pub open spec fn value_eq(a: AxValue, b: AxValue) -> bool {
    match (a, b) {
        (AxValue::String(x), AxValue::String(y)) => x@ == y@,
        (AxValue::Number(x), AxValue::Number(y)) => x == y,
        (AxValue::Bool(x), AxValue::Bool(y)) => x == y,
        _ => false,
    }
}

/// The comparison predicate of the assertion language: `Eq` and `Ne` are
/// structural across variants; the four order operators hold only between
/// two numbers.
pub open spec fn spec_compare(op: Operator, actual: AxValue, expected: AxValue) -> bool {
    match op {
        Operator::Eq => value_eq(actual, expected),
        Operator::Ne => !value_eq(actual, expected),
        Operator::Gt => actual matches AxValue::Number(a) && expected matches AxValue::Number(b) && a > b,
        Operator::Lt => actual matches AxValue::Number(a) && expected matches AxValue::Number(b) && a < b,
        Operator::Gte => actual matches AxValue::Number(a) && expected matches AxValue::Number(b)
            && a >= b,
        Operator::Lte => actual matches AxValue::Number(a) && expected matches AxValue::Number(b)
            && a <= b,
    }
}

/// Decides equality of two values, per `value_eq`.
pub fn value_equals(a: &AxValue, b: &AxValue) -> (r: bool)
    ensures
        r == value_eq(*a, *b),
{
    match (a, b) {
        (AxValue::String(x), AxValue::String(y)) => x.eq(y),
        (AxValue::Number(x), AxValue::Number(y)) => x == y,
        (AxValue::Bool(x), AxValue::Bool(y)) => x == y,
        _ => false,
    }
}

/// Applies a comparison operator to a resolved value (`actual`) and an
/// authored value (`expected`), per `spec_compare`.
pub fn compare(op: &Operator, actual: &AxValue, expected: &AxValue) -> (r: bool)
    ensures
        r == spec_compare(*op, *actual, *expected),
{
    match (op, actual, expected) {
        (Operator::Eq, a, b) => value_equals(a, b),
        (Operator::Ne, a, b) => !value_equals(a, b),
        (Operator::Gt, AxValue::Number(a), AxValue::Number(b)) => a > b,
        (Operator::Lt, AxValue::Number(a), AxValue::Number(b)) => a < b,
        (Operator::Gte, AxValue::Number(a), AxValue::Number(b)) => a >= b,
        (Operator::Lte, AxValue::Number(a), AxValue::Number(b)) => a <= b,
        _ => false,
    }
}

/// How a value renders in a failure record: numbers in decimal, booleans
/// as `true` or `false`, strings wrapped in double quotes.
pub open spec fn value_rep(v: AxValue) -> Seq<char> {
    match v {
        AxValue::String(s) => seq!['"'] + s@ + seq!['"'],
        AxValue::Number(n) => int_rep(n as int),
        AxValue::Bool(b) => if b {
            "true"@
        } else {
            "false"@
        },
    }
}

/// How a value renders inside the expected list of an `In` failure:
/// the variant name around the rendered content.
pub open spec fn value_debug_rep(v: AxValue) -> Seq<char> {
    match v {
        AxValue::String(s) => "String("@ + value_rep(v) + ")"@,
        AxValue::Number(n) => "Number("@ + value_rep(v) + ")"@,
        AxValue::Bool(b) => "Bool("@ + value_rep(v) + ")"@,
    }
}

impl AxValue {
    /// Renders the value, per `value_rep`.
    pub fn render(&self) -> (r: String)
        ensures
            r@ == value_rep(*self),
    {
        match self {
            AxValue::String(s) => {
                let mut out = String::new();
                string_push(&mut out, '"');
                out.append(s.as_str());
                string_push(&mut out, '"');
                assert(out@ =~= value_rep(*self));
                out
            },
            AxValue::Number(n) => render_i64(*n),
            AxValue::Bool(b) => {
                if *b {
                    String::from_str("true")
                } else {
                    String::from_str("false")
                }
            },
        }
    }

    /// Renders the value with its variant name, per `value_debug_rep`.
    pub fn render_debug(&self) -> (r: String)
        ensures
            r@ == value_debug_rep(*self),
    {
        let mut out = match self {
            AxValue::String(_) => String::from_str("String("),
            AxValue::Number(_) => String::from_str("Number("),
            AxValue::Bool(_) => String::from_str("Bool("),
        };
        let inner = self.render();
        out.append(inner.as_str());
        out.append(")");
        out
    }
}

/// Renders a list of values as `[a, b, c]` with each element in its
/// `value_debug_rep` form.
pub open spec fn value_list_rep(vs: Seq<AxValue>) -> Seq<char>
    decreases vs.len(),
{
    if vs.len() == 0 {
        "["@ + "]"@
    } else if vs.len() == 1 {
        "["@ + value_debug_rep(vs[0]) + "]"@
    } else {
        value_list_rep(vs.drop_last()).drop_last() + ", "@ + value_debug_rep(vs.last()) + "]"@
    }
}

/// Renders a list of values, per `value_list_rep`.
pub fn render_value_list(vs: &Vec<AxValue>) -> (r: String)
    ensures
        r@ == value_list_rep(vs@),
{
    let mut out = String::from_str("[");
    let mut i: usize = 0;
    while i < vs.len()
        invariant
            i <= vs@.len(),
            if i == 0 {
                out@ == "["@
            } else {
                out@ + "]"@ == value_list_rep(vs@.take(i as int))
            },
        decreases vs@.len() - i,
    {
        let ghost pre = out@;
        if i > 0 {
            out.append(", ");
        }
        let piece = vs[i].render_debug();
        out.append(piece.as_str());
        proof {
            assert(vs@.take(i + 1).drop_last() =~= vs@.take(i as int));
            assert(vs@.take(i + 1).last() == vs@[i as int]);
            if i == 0 {
                assert(out@ + "]"@ =~= "["@ + value_debug_rep(vs@[0]) + "]"@);
            } else {
                reveal_strlit("]");
                assert(pre + "]"@ == value_list_rep(vs@.take(i as int)));
                assert((pre + "]"@).drop_last() =~= pre);
                assert(value_list_rep(vs@.take(i as int)).drop_last() == pre);
                assert(out@ + "]"@ =~= pre + ", "@ + value_debug_rep(vs@[i as int]) + "]"@);
            }
        }
        i = i + 1;
    }
    out.append("]");
    proof {
        if vs@.len() == 0 {
            assert(out@ =~= value_list_rep(vs@));
        } else {
            assert(vs@.take(vs@.len() as int) =~= vs@);
        }
    }
    out
}

impl PartialEq for AxValue {
    fn eq(&self, other: &AxValue) -> (r: bool) {
        value_equals(self, other)
    }
}

impl vstd::std_specs::cmp::PartialEqSpecImpl for AxValue {
    open spec fn obeys_eq_spec() -> bool {
        true
    }

    open spec fn eq_spec(&self, other: &AxValue) -> bool {
        value_eq(*self, *other)
    }
}

} // verus!
