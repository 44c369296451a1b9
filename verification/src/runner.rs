//! Run planning: which files take part and what they parse to.
//!
//! Walking directories and reading files happens outside the library;
//! what is decided here: which file names count as test files, that
//! every file parses before anything executes, and how many tests a run
//! holds in all.

use vstd::prelude::*;

use crate::expr::ParseError;
use crate::parser::AxParser;
use crate::parser::block_shape;
use crate::parser::file_wf;
use crate::parser::spec_block_count;
use crate::parser::spec_blocks;
use crate::strutil::str_to_chars;
use crate::test_case::TestCase;
use crate::test_case::wf_parsed;

verus! {

/// A test file's name: anything ending in `.ax` with a non-empty stem.
pub open spec fn is_ax_name(s: Seq<char>) -> bool {
    s.len() >= 4 && s.subrange(s.len() - 3, s.len() as int) == ".ax"@
}

/// The total number of parsed tests over all suites.
pub open spec fn spec_total_tests(suites: Seq<Vec<TestCase>>) -> int
    decreases suites.len(),
{
    if suites.len() == 0 {
        0
    } else {
        spec_total_tests(suites.drop_last()) + suites.last()@.len()
    }
}

proof fn lemma_total_tests_nonneg(suites: Seq<Vec<TestCase>>)
    ensures
        spec_total_tests(suites) >= 0,
    decreases suites.len(),
{
    if suites.len() > 0 {
        lemma_total_tests_nonneg(suites.drop_last());
    }
}

/// The run coordinator's decisions.
pub struct Runner;

impl Runner {
    /// Whether a file name names a test file, per `is_ax_name`.
    pub fn has_ax_extension(name: &str) -> (r: bool)
        ensures
            r == is_ax_name(name@),
    {
        let chars = str_to_chars(name);
        let n = chars.len();
        if n < 4 {
            return false;
        }
        let suffix = crate::path::copy_range(&chars, n - 3, n);
        proof {
            assert(suffix@ =~= name@.subrange(name@.len() - 3, name@.len() as int));
        }
        crate::strutil::chars_eq_str(&suffix, ".ax")
    }

    /// Parses every file's text eagerly, in order: one suite per file,
    /// with one case per test block, every case well formed and shaped
    /// by its block's lines. A run of well-formed files is owed success;
    /// the first parse error aborts the whole run with no suites.
    pub fn parse_all(files: &Vec<String>) -> (r: Result<Vec<Vec<TestCase>>, ParseError>)
        ensures
            (forall|i: int| 0 <= i < files@.len() ==> file_wf((#[trigger] files@[i])@)) ==> r
                is Ok,
            r matches Ok(suites) ==> {
                &&& suites@.len() == files@.len()
                &&& (forall|i: int|
                    0 <= i < files@.len() ==> crate::parser::spec_scan_clean(
                        (#[trigger] files@[i])@,
                    ))
                &&& forall|i: int|
                    0 <= i < suites@.len() ==> (#[trigger] suites@[i])@.len() == spec_block_count(
                        files@[i]@,
                    )
                &&& forall|i: int, j: int|
                    0 <= i < suites@.len() && 0 <= j < suites@[i]@.len() ==> wf_parsed(
                        #[trigger] suites@[i]@[j],
                    ) && block_shape(spec_blocks(files@[i]@)[j], suites@[i]@[j])
            },
    {
        let mut suites: Vec<Vec<TestCase>> = Vec::new();
        let mut i: usize = 0;
        while i < files.len()
            invariant
                i <= files@.len(),
                suites@.len() == i,
                forall|k: int|
                    0 <= k < i ==> crate::parser::spec_scan_clean((#[trigger] files@[k])@),
                forall|k: int|
                    0 <= k < i ==> (#[trigger] suites@[k])@.len() == spec_block_count(
                        files@[k]@,
                    ),
                forall|k: int, j: int|
                    0 <= k < i && 0 <= j < suites@[k]@.len() ==> wf_parsed(
                        #[trigger] suites@[k]@[j],
                    ) && block_shape(spec_blocks(files@[k]@)[j], suites@[k]@[j]),
            decreases files@.len() - i,
        {
            match AxParser::parse_file(&files[i]) {
                Ok(cases) => {
                    suites.push(cases);
                },
                Err(e) => {
                    return Err(e);
                },
            }
            i = i + 1;
        }
        Ok(suites)
    }

    /// The number of tests a run holds in all, saturating at the largest
    /// representable count.
    pub fn total_tests(suites: &Vec<Vec<TestCase>>) -> (n: usize)
        ensures
            n == if spec_total_tests(suites@) <= usize::MAX {
                spec_total_tests(suites@)
            } else {
                usize::MAX as int
            },
    {
        let mut n: usize = 0;
        let mut i: usize = 0;
        proof {
            assert(suites@.take(0) =~= Seq::<Vec<TestCase>>::empty());
        }
        while i < suites.len()
            invariant
                i <= suites@.len(),
                n == if spec_total_tests(suites@.take(i as int)) <= usize::MAX {
                    spec_total_tests(suites@.take(i as int))
                } else {
                    usize::MAX as int
                },
            decreases suites@.len() - i,
        {
            proof {
                assert(suites@.take(i + 1).drop_last() =~= suites@.take(i as int));
                assert(suites@.take(i + 1).last() == suites@[i as int]);
                lemma_total_tests_nonneg(suites@.take(i as int));
            }
            let len = suites[i].len();
            n = if n <= usize::MAX - len {
                n + len
            } else {
                usize::MAX
            };
            i = i + 1;
        }
        proof {
            assert(suites@.take(suites@.len() as int) =~= suites@);
        }
        n
    }
}

} // verus!
