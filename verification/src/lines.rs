//! Line-level text utilities for the `.ax` surface syntax.
//!
//! Outside the verbatim body region, a `#` starts a comment that runs to
//! the end of the line — unless it stands inside a quoted string — and
//! surrounding whitespace is insignificant.

use vstd::prelude::*;

use crate::path::copy_range;

verus! {

/// Whitespace inside a line: space, tab, and a carriage return before a
/// line feed.
pub open spec fn is_space(c: char) -> bool {
    c == ' ' || c == '\t' || c == '\r'
}

/// The position where a comment starts, scanning from `i` with `inq`
/// saying whether the scan stands inside a quoted string; `-1` when the
/// line has no comment.
pub open spec fn comment_start_from(l: Seq<char>, i: int, inq: bool) -> int
    decreases l.len() - i,
{
    if i < 0 || i >= l.len() {
        -1
    } else if !inq && l[i] == '#' {
        i
    } else {
        comment_start_from(l, i + 1, if l[i] == '"' {
            !inq
        } else {
            inq
        })
    }
}

/// A line with its comment removed: everything from the first unquoted
/// `#` on is dropped.
pub open spec fn strip_comment(l: Seq<char>) -> Seq<char> {
    let cs = comment_start_from(l, 0, false);
    if cs >= 0 {
        l.take(cs)
    } else {
        l
    }
}

/// The number of leading whitespace characters.
pub open spec fn lead_spaces(s: Seq<char>) -> int
    decreases s.len(),
{
    if s.len() > 0 && is_space(s[0]) {
        1 + lead_spaces(s.skip(1))
    } else {
        0
    }
}

/// The length of the line once trailing whitespace is dropped.
pub open spec fn end_trimmed(s: Seq<char>) -> int
    decreases s.len(),
{
    if s.len() > 0 && is_space(s.last()) {
        end_trimmed(s.drop_last())
    } else {
        s.len() as int
    }
}

/// The line without leading and trailing whitespace.
pub open spec fn spec_trim(s: Seq<char>) -> Seq<char> {
    if lead_spaces(s) <= end_trimmed(s) {
        s.subrange(lead_spaces(s), end_trimmed(s))
    } else {
        Seq::empty()
    }
}

/// `lead_spaces` counts exactly the leading whitespace run.
pub proof fn lemma_lead_spaces(s: Seq<char>)
    ensures
        0 <= lead_spaces(s) <= s.len(),
        forall|k: int| 0 <= k < lead_spaces(s) ==> is_space(#[trigger] s[k]),
        lead_spaces(s) < s.len() ==> !is_space(s[lead_spaces(s)]),
    decreases s.len(),
{
    if s.len() > 0 && is_space(s[0]) {
        lemma_lead_spaces(s.skip(1));
        assert(forall|k: int| 1 <= k < s.len() ==> s[k] == s.skip(1)[k - 1]);
    }
}

proof fn lemma_end_trimmed(s: Seq<char>)
    ensures
        0 <= end_trimmed(s) <= s.len(),
        forall|k: int| end_trimmed(s) <= k < s.len() ==> is_space(#[trigger] s[k]),
        end_trimmed(s) > 0 ==> !is_space(s[end_trimmed(s) - 1]),
    decreases s.len(),
{
    if s.len() > 0 && is_space(s.last()) {
        lemma_end_trimmed(s.drop_last());
        assert(forall|k: int| 0 <= k < s.len() - 1 ==> s[k] == s.drop_last()[k]);
    }
}

fn is_space_exec(c: char) -> (r: bool)
    ensures
        r == is_space(c),
{
    c == ' ' || c == '\t' || c == '\r'
}

/// The index of the first whitespace character, or the length when there
/// is none.
pub open spec fn first_space(s: Seq<char>) -> int
    decreases s.len(),
{
    if s.len() == 0 {
        0
    } else if is_space(s[0]) {
        0
    } else {
        1 + first_space(s.skip(1))
    }
}

/// The first word of a line: everything before its first whitespace.
pub open spec fn word_of(s: Seq<char>) -> Seq<char> {
    s.take(first_space(s))
}

/// What follows the first word, trimmed.
pub open spec fn rest_of(s: Seq<char>) -> Seq<char> {
    spec_trim(s.skip(first_space(s)))
}

proof fn lemma_first_space(s: Seq<char>)
    ensures
        0 <= first_space(s) <= s.len(),
        forall|k: int| 0 <= k < first_space(s) ==> !is_space(#[trigger] s[k]),
        first_space(s) < s.len() ==> is_space(s[first_space(s)]),
    decreases s.len(),
{
    if s.len() > 0 && !is_space(s[0]) {
        lemma_first_space(s.skip(1));
        assert(forall|k: int| 1 <= k < s.len() ==> s[k] == s.skip(1)[k - 1]);
    }
}

/// Splits a line at its first whitespace: the first word, and the rest
/// trimmed, per `word_of` and `rest_of`.
pub fn split_first_word(l: &Vec<char>) -> (r: (Vec<char>, Vec<char>))
    ensures
        r.0@ == word_of(l@),
        r.1@ == rest_of(l@),
{
    proof {
        lemma_first_space(l@);
    }
    let n = l.len();
    let mut k: usize = 0;
    while k < n && !is_space_exec(l[k])
        invariant
            k <= n,
            n == l@.len(),
            forall|j: int| 0 <= j < k ==> !is_space(#[trigger] l@[j]),
        decreases n - k,
    {
        k = k + 1;
    }
    proof {
        assert(k == first_space(l@)) by {
            if first_space(l@) < k {
                assert(is_space(l@[first_space(l@)]));
            } else if first_space(l@) > k {
                assert(k < n);
                assert(!is_space(l@[k as int]));
            }
        }
    }
    let word = crate::path::copy_range(l, 0, k);
    let rest = trim_exec(&crate::path::copy_range(l, k, n));
    proof {
        assert(word@ =~= word_of(l@));
        assert(l@.subrange(k as int, n as int) =~= l@.skip(k as int));
    }
    (word, rest)
}

/// Removes the comment of a line, per `strip_comment`.
pub fn strip_comment_exec(l: &Vec<char>) -> (r: Vec<char>)
    ensures
        r@ == strip_comment(l@),
{
    let mut i: usize = 0;
    let mut inq = false;
    while i < l.len()
        invariant
            i <= l@.len(),
            comment_start_from(l@, 0, false) == comment_start_from(l@, i as int, inq),
        decreases l@.len() - i,
    {
        let c = l[i];
        if !inq && c == '#' {
            let r = copy_range(l, 0, i);
            proof {
                assert(r@ =~= strip_comment(l@));
            }
            return r;
        }
        if c == '"' {
            inq = !inq;
        }
        i = i + 1;
    }
    let r = copy_range(l, 0, l.len());
    proof {
        assert(r@ =~= l@);
        assert(comment_start_from(l@, i as int, inq) == -1);
    }
    r
}

/// Trims surrounding whitespace, per `spec_trim`.
pub fn trim_exec(s: &Vec<char>) -> (r: Vec<char>)
    ensures
        r@ == spec_trim(s@),
{
    proof {
        lemma_lead_spaces(s@);
        lemma_end_trimmed(s@);
    }
    let n = s.len();
    let mut a: usize = 0;
    while a < n && is_space_exec(s[a])
        invariant
            a <= n,
            n == s@.len(),
            forall|k: int| 0 <= k < a ==> is_space(#[trigger] s@[k]),
        decreases n - a,
    {
        a = a + 1;
    }
    let mut b: usize = n;
    while b > a && is_space_exec(s[b - 1])
        invariant
            a <= b <= n,
            n == s@.len(),
            forall|k: int| b <= k < n ==> is_space(#[trigger] s@[k]),
        decreases b,
    {
        b = b - 1;
    }
    proof {
        // `a` is the least non-space index and `b` ends the trailing
        // whitespace run, so they coincide with the spec's bounds
        if a < n {
            assert(a == lead_spaces(s@)) by {
                if lead_spaces(s@) < a {
                    assert(is_space(s@[lead_spaces(s@)]));
                } else if lead_spaces(s@) > a {
                    assert(is_space(s@[a as int]));
                }
            }
            assert(b > a) by {
                if b == a {
                    assert(is_space(s@[a as int]));
                }
            }
            assert(b == end_trimmed(s@)) by {
                if end_trimmed(s@) < b {
                    assert(is_space(s@[b - 1]));
                } else if end_trimmed(s@) > b {
                    assert(is_space(s@[end_trimmed(s@) - 1]));
                }
            }
        } else {
            assert(lead_spaces(s@) == n) by {
                if lead_spaces(s@) < n {
                    assert(is_space(s@[lead_spaces(s@)]));
                }
            }
            assert(end_trimmed(s@) == 0) by {
                if end_trimmed(s@) > 0 {
                    assert(is_space(s@[end_trimmed(s@) - 1]));
                }
            }
        }
    }
    let r = copy_range(s, a, b);
    proof {
        if a < n {
            assert(r@ == spec_trim(s@));
        } else {
            assert(r@ =~= spec_trim(s@));
        }
    }
    r
}

} // verus!
