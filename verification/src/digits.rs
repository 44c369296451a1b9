//! Decimal rendering and parsing of integers.
//!
//! Failure records render numbers in decimal, and the parser reads decimal
//! integer literals. Both directions are specified against `dec_rep`, the
//! canonical decimal representation of a natural number.

use vstd::prelude::*;

verus! {

/// The decimal digit character for `d` in `0..=9`.
pub open spec fn digit_char(d: int) -> char {
    if d == 0 {
        '0'
    } else if d == 1 {
        '1'
    } else if d == 2 {
        '2'
    } else if d == 3 {
        '3'
    } else if d == 4 {
        '4'
    } else if d == 5 {
        '5'
    } else if d == 6 {
        '6'
    } else if d == 7 {
        '7'
    } else if d == 8 {
        '8'
    } else {
        '9'
    }
}

/// The canonical decimal representation of a natural number: no leading
/// zeros, except that zero itself is the single digit `0`.
pub open spec fn dec_rep(n: nat) -> Seq<char>
    decreases n,
{
    if n < 10 {
        seq![digit_char(n as int)]
    } else {
        dec_rep(n / 10).push(digit_char((n % 10) as int))
    }
}

/// The decimal representation of an integer: a minus sign before the
/// magnitude for negative numbers.
pub open spec fn int_rep(i: int) -> Seq<char> {
    if i < 0 {
        seq!['-'] + dec_rep((-i) as nat)
    } else {
        dec_rep(i as nat)
    }
}

/// Whether `c` is a decimal digit.
pub open spec fn is_digit_char(c: char) -> bool {
    '0' <= c && c <= '9'
}

/// The numeric value of a digit character.
pub open spec fn digit_val(c: char) -> int {
    c as int - '0' as int
}

/// The value of a digit string read most significant first.
pub open spec fn digits_val(s: Seq<char>) -> int
    decreases s.len(),
{
    if s.len() == 0 {
        0
    } else {
        digits_val(s.drop_last()) * 10 + digit_val(s.last())
    }
}

/// A well-formed decimal integer literal: an optional minus sign followed
/// by one or more digits.
pub open spec fn is_number_lit(s: Seq<char>) -> bool {
    if s.len() > 0 && s[0] == '-' {
        s.len() > 1 && forall|i: int| 1 <= i < s.len() ==> is_digit_char(#[trigger] s[i])
    } else {
        s.len() > 0 && forall|i: int| 0 <= i < s.len() ==> is_digit_char(#[trigger] s[i])
    }
}

/// The value denoted by a decimal integer literal.
pub open spec fn number_lit_val(s: Seq<char>) -> int {
    if s.len() > 0 && s[0] == '-' {
        -digits_val(s.skip(1))
    } else {
        digits_val(s)
    }
}

fn digit_to_char(d: u64) -> (c: char)
    requires
        d < 10,
    ensures
        c == digit_char(d as int),
{
    if d == 0 {
        '0'
    } else if d == 1 {
        '1'
    } else if d == 2 {
        '2'
    } else if d == 3 {
        '3'
    } else if d == 4 {
        '4'
    } else if d == 5 {
        '5'
    } else if d == 6 {
        '6'
    } else if d == 7 {
        '7'
    } else if d == 8 {
        '8'
    } else {
        '9'
    }
}

/// Relies on std's String::push: appending one character to a string.
#[verifier::external_body]
pub fn string_push(s: &mut String, c: char)
    ensures
        final(s)@ == old(s)@.push(c),
{
    s.push(c);
}

/// Renders a natural number in decimal, per `dec_rep`.
pub fn render_u64(n: u64) -> (s: String)
    ensures
        s@ == dec_rep(n as nat),
    decreases n,
{
    if n < 10 {
        let mut s = String::new();
        string_push(&mut s, digit_to_char(n));
        assert(s@ =~= dec_rep(n as nat));
        s
    } else {
        let mut s = render_u64(n / 10);
        string_push(&mut s, digit_to_char(n % 10));
        s
    }
}

/// Renders a signed number in decimal, per `int_rep`.
pub fn render_i64(n: i64) -> (s: String)
    ensures
        s@ == int_rep(n as int),
{
    if n >= 0 {
        render_u64(n as u64)
    } else {
        let mag: u64 = if n == i64::MIN {
            9223372036854775808u64
        } else {
            (-n) as u64
        };
        assert(mag as nat == -(n as int));
        let mut s = String::new();
        string_push(&mut s, '-');
        let rest = render_u64(mag);
        s.append(rest.as_str());
        assert(s@ =~= int_rep(n as int));
        s
    }
}

/// Decides whether `c` is a decimal digit and gives its value.
pub fn char_to_digit(c: char) -> (r: Option<u64>)
    ensures
        match r {
            Some(d) => is_digit_char(c) && d < 10 && d as int == digit_val(c),
            None => !is_digit_char(c),
        },
{
    if c == '0' {
        Some(0)
    } else if c == '1' {
        Some(1)
    } else if c == '2' {
        Some(2)
    } else if c == '3' {
        Some(3)
    } else if c == '4' {
        Some(4)
    } else if c == '5' {
        Some(5)
    } else if c == '6' {
        Some(6)
    } else if c == '7' {
        Some(7)
    } else if c == '8' {
        Some(8)
    } else if c == '9' {
        Some(9)
    } else {
        None
    }
}

proof fn lemma_digits_val_nonneg(s: Seq<char>)
    requires
        forall|i: int| 0 <= i < s.len() ==> is_digit_char(#[trigger] s[i]),
    ensures
        digits_val(s) >= 0,
    decreases s.len(),
{
    if s.len() > 0 {
        lemma_digits_val_nonneg(s.drop_last());
    }
}

/// The value of a digit string dominates the value of any of its prefixes.
proof fn lemma_digits_val_prefix(s: Seq<char>, i: int)
    requires
        0 <= i <= s.len(),
        forall|k: int| 0 <= k < s.len() ==> is_digit_char(#[trigger] s[k]),
    ensures
        digits_val(s) >= digits_val(s.take(i)),
    decreases s.len() - i,
{
    if i < s.len() {
        lemma_digits_val_nonneg(s.drop_last());
        assert(s.take(i) =~= s.drop_last().take(i));
        lemma_digits_val_prefix(s.drop_last(), i);
    } else {
        assert(s.take(i) =~= s);
    }
}

/// Parses a decimal integer literal, most significant digit first.
/// Returns the value when the characters form a well-formed literal whose
/// value fits `i64`, and nothing otherwise.
pub fn parse_i64_chars(s: &Vec<char>) -> (r: Option<i64>)
    ensures
        match r {
            Some(n) => is_number_lit(s@) && n as int == number_lit_val(s@),
            None => !(is_number_lit(s@) && i64::MIN <= number_lit_val(s@) <= i64::MAX),
        },
{
    let negative = s.len() > 0 && s[0] == '-';
    let start: usize = if negative {
        1
    } else {
        0
    };
    if s.len() == start {
        return None;
    }
    let ghost digits = s@.skip(start as int);
    proof {
        if start == 0 {
            assert(digits =~= s@);
        }
    }
    // the largest magnitude that any i64 can carry: 2^63
    let max_mag: u64 = 9223372036854775808u64;
    let mut acc: u64 = 0;
    let mut i: usize = start;
    while i < s.len()
        invariant
            start <= i <= s@.len(),
            negative == (s@.len() > 0 && s@[0] == '-'),
            start == if negative {
                1usize
            } else {
                0usize
            },
            digits == s@.skip(start as int),
            forall|k: int| start <= k < i ==> is_digit_char(#[trigger] s@[k]),
            acc as int == digits_val(s@.subrange(start as int, i as int)),
            acc <= max_mag,
            max_mag == 9223372036854775808u64,
        decreases s@.len() - i,
    {
        let c = s[i];
        let d = match char_to_digit(c) {
            Some(d) => d,
            None => {
                proof {
                    if is_number_lit(s@) {
                        assert(is_digit_char(s@[i as int]));
                    }
                }
                return None;
            },
        };
        let ghost prefix = s@.subrange(start as int, i as int);
        let ghost prefix1 = s@.subrange(start as int, i + 1 as int);
        assert(prefix1.drop_last() =~= prefix);
        assert(prefix1.last() == s@[i as int]);
        if acc > 922337203685477580u64 || acc * 10 > max_mag - d {
            // the prefix alone already exceeds every i64 magnitude
            proof {
                if acc > 922337203685477580u64 {
                    assert(acc * 10 >= 9223372036854775810);
                }
                assert(digits_val(prefix1) > max_mag);
                if is_number_lit(s@) {
                    assert(forall|k: int|
                        0 <= k < digits.len() ==> is_digit_char(#[trigger] digits[k]));
                    assert(prefix1 =~= digits.take(i + 1 - start));
                    lemma_digits_val_prefix(digits, i + 1 - start);
                    assert(digits_val(digits) > max_mag);
                    if start == 0 {
                        assert(digits =~= s@);
                        assert(number_lit_val(s@) > i64::MAX);
                    } else {
                        assert(number_lit_val(s@) == -digits_val(s@.skip(1)));
                        assert(number_lit_val(s@) < i64::MIN);
                    }
                }
            }
            return None;
        }
        acc = acc * 10 + d;
        i = i + 1;
    }
    proof {
        assert(s@.subrange(start as int, i as int) =~= digits);
    }
    if negative {
        if acc == max_mag {
            return Some(i64::MIN);
        }
        let n = -(acc as i64);
        Some(n)
    } else {
        if acc == max_mag {
            // 2^63 itself is one past i64::MAX
            return None;
        }
        Some(acc as i64)
    }
}

} // verus!
