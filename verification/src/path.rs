//! Dot-separated path splitting.
//!
//! An assertion path such as `body.user.name` is read as a chain of keys.
//! Splitting is on every dot: empty pieces are kept, as a raw string split
//! would keep them.

use vstd::prelude::*;

verus! {

/// The index of the first occurrence of `c` in `s`, or `-1` when there is
/// none.
pub open spec fn first_occurrence(s: Seq<char>, c: char) -> int
    decreases s.len(),
{
    if s.len() == 0 {
        -1
    } else if s[0] == c {
        0
    } else {
        let r = first_occurrence(s.skip(1), c);
        if r < 0 {
            -1
        } else {
            r + 1
        }
    }
}

/// `first_occurrence` names the least position of `c`: it stays in
/// bounds, lands on `c`, and nothing before it is `c`; `-1` means no
/// occurrence at all.
pub proof fn lemma_first_occurrence(s: Seq<char>, c: char)
    ensures
        -1 <= first_occurrence(s, c) < s.len(),
        first_occurrence(s, c) >= 0 ==> s[first_occurrence(s, c)] == c,
        forall|k: int| 0 <= k < s.len() && k < first_occurrence(s, c) ==> s[k] != c,
        first_occurrence(s, c) == -1 ==> forall|k: int| 0 <= k < s.len() ==> s[k] != c,
    decreases s.len(),
{
    if s.len() > 0 && s[0] != c {
        lemma_first_occurrence(s.skip(1), c);
        assert(forall|k: int| 1 <= k < s.len() ==> s[k] == s.skip(1)[k - 1]);
    }
}

/// The pieces of `s` between occurrences of `c`, in order; a text without
/// `c` is one piece, and each occurrence separates two pieces even when
/// one is empty.
pub open spec fn split_at_char(s: Seq<char>, c: char) -> Seq<Seq<char>>
    decreases s.len(),
{
    let fd = first_occurrence(s, c);
    if 0 <= fd < s.len() {
        seq![s.take(fd)] + split_at_char(s.skip(fd + 1), c)
    } else {
        seq![s]
    }
}

/// The pieces of a path between its dots.
pub open spec fn split_dots(s: Seq<char>) -> Seq<Seq<char>> {
    split_at_char(s, '.')
}

/// Copies the characters of `s` between `from` and `to`.
pub fn copy_range(s: &Vec<char>, from: usize, to: usize) -> (r: Vec<char>)
    requires
        from <= to <= s@.len(),
    ensures
        r@ == s@.subrange(from as int, to as int),
{
    let mut r: Vec<char> = Vec::new();
    let mut i: usize = from;
    while i < to
        invariant
            from <= i <= to <= s@.len(),
            r@ == s@.subrange(from as int, i as int),
        decreases to - i,
    {
        r.push(s[i]);
        assert(r@ =~= s@.subrange(from as int, i + 1));
        i = i + 1;
    }
    r
}

/// The index of the first occurrence of `c` at or after `from`, if any.
pub fn find_char_from(s: &Vec<char>, from: usize, c: char) -> (r: Option<usize>)
    requires
        from <= s@.len(),
    ensures
        match r {
            Some(i) => from <= i < s@.len() && s@[i as int] == c && forall|k: int|
                from <= k < i ==> s@[k] != c,
            None => forall|k: int| from <= k < s@.len() ==> s@[k] != c,
        },
{
    let mut i: usize = from;
    while i < s.len()
        invariant
            from <= i <= s@.len(),
            forall|k: int| from <= k < i ==> s@[k] != c,
        decreases s@.len() - i,
    {
        if s[i] == c {
            return Some(i);
        }
        i = i + 1;
    }
    None
}

/// Splits on every occurrence of `c`, per `split_at_char`.
pub fn split_char_exec(s: &Vec<char>, c: char) -> (r: Vec<Vec<char>>)
    ensures
        r@.map_values(|p: Vec<char>| p@) == split_at_char(s@, c),
    decreases s@.len(),
{
    proof {
        lemma_first_occurrence(s@, c);
    }
    match find_char_from(s, 0, c) {
        None => {
            let piece = copy_range(s, 0, s.len());
            let mut r: Vec<Vec<char>> = Vec::new();
            r.push(piece);
            proof {
                assert(first_occurrence(s@, c) == -1) by {
                    if first_occurrence(s@, c) >= 0 {
                        assert(s@[first_occurrence(s@, c)] == c);
                    }
                }
                assert(piece@ =~= s@);
                assert(r@.map_values(|p: Vec<char>| p@) =~= split_at_char(s@, c));
            }
            r
        },
        Some(fd) => {
            proof {
                assert(first_occurrence(s@, c) == fd) by {
                    if first_occurrence(s@, c) == -1 {
                        assert(s@[fd as int] != c);
                    } else if first_occurrence(s@, c) < fd {
                        assert(s@[first_occurrence(s@, c)] != c);
                    } else if first_occurrence(s@, c) > fd {
                        assert(s@[fd as int] != c);
                    }
                }
            }
            let n = s.len();
            let piece = copy_range(s, 0, fd);
            let rest = copy_range(s, fd + 1, n);
            let mut tail = split_char_exec(&rest, c);
            let mut r: Vec<Vec<char>> = Vec::new();
            r.push(piece);
            r.append(&mut tail);
            proof {
                assert(piece@ =~= s@.take(fd as int));
                assert(rest@ =~= s@.skip(fd + 1));
                assert(r@.map_values(|p: Vec<char>| p@) =~= split_at_char(s@, c));
            }
            r
        },
    }
}

/// Splits a path on every dot, per `split_dots`.
pub fn split_dots_exec(s: &Vec<char>) -> (r: Vec<Vec<char>>)
    ensures
        r@.map_values(|p: Vec<char>| p@) == split_dots(s@),
{
    split_char_exec(s, '.')
}

} // verus!
