//! Partitioning of the input into byte ranges, one per worker, and the
//! merge of the workers' results into one.
//!
//! The input of length `L` is split into `N` ranges of `L / N` bytes each;
//! the final range has no byte budget, so the remainder of the integer
//! division is absorbed by the final worker rather than dropped.  A worker
//! is allowed to run past its budget to finish the page it is inside, and a
//! worker that starts inside a page record skips the partial fragment while
//! scanning for the next page-start marker, so each page is captured by
//! exactly one worker.

use vstd::prelude::*;

verus! {

use super::{ArticleParser, ArticleParserView};
use vstd::arithmetic::div_mod::{lemma_fundamental_div_mod, lemma_mod_division_less_than_divisor};
use vstd::arithmetic::mul::lemma_mul_inequality;

/// The byte range assigned to one worker: the offset where its parse starts,
/// and how many bytes it may consume before stopping (`None` for the final
/// worker, which runs to end of input).
#[derive(Debug, PartialEq, Eq, Clone, Copy)]
pub struct WorkerRange {
    pub start: u64,
    pub budget: Option<u64>,
}

/// One byte range per worker: worker `i` starts at `i * (file_len / workers)`
/// with a budget of `file_len / workers` bytes, and the final worker has no
/// budget.
pub fn partition_ranges(file_len: u64, workers: u64) -> (r: Vec<WorkerRange>)
    requires
        workers >= 1,
    ensures
        r@.len() == workers,
        forall|i: int|
            0 <= i < workers ==> (#[trigger] r@[i]).start == i * (file_len / workers),
        forall|i: int| 0 <= i < workers - 1 ==> (#[trigger] r@[i]).budget == Some(
            file_len / workers,
        ),
        r@[workers - 1].budget is None,
{
    let per = file_len / workers;
    let mut r: Vec<WorkerRange> = Vec::new();
    let mut i: u64 = 0;
    while i < workers
        invariant
            workers >= 1,
            i <= workers,
            per == file_len / workers,
            r@.len() == i,
            forall|j: int| 0 <= j < i ==> (#[trigger] r@[j]).start == j * per,
            forall|j: int| 0 <= j < i && j < workers - 1 ==> (#[trigger] r@[j]).budget == Some(per),
            forall|j: int| 0 <= j < i && j == workers - 1 ==> (#[trigger] r@[j]).budget is None,
        decreases workers - i,
    {
        proof {
            lemma_fundamental_div_mod(file_len as int, workers as int);
            lemma_mod_division_less_than_divisor(file_len as int, workers as int);
            lemma_mul_inequality(i as int, workers as int, per as int);
            assert(i as int * per as int <= workers as int * per as int);
            assert(workers as int * per as int <= file_len as int);
        }
        let start = i * per;
        let budget = if i + 1 < workers {
            Some(per)
        } else {
            None
        };
        r.push(WorkerRange { start, budget });
        i = i + 1;
    }
    r
}

/// The merge of two result sets (see [`ArticleParser::merge_with`]).
pub open spec fn merge_views(a: ArticleParserView, b: ArticleParserView) -> ArticleParserView {
    ArticleParserView {
        content_pages: a.content_pages + b.content_pages,
        redirects: a.redirects.union_prefer_right(b.redirects),
    }
}

/// The first `n` of `vs` merged left to right.
pub open spec fn spec_merge_all(vs: Seq<ArticleParserView>, n: int) -> ArticleParserView
    decreases n,
{
    if n <= 1 {
        vs[0]
    } else {
        merge_views(spec_merge_all(vs, n - 1), vs[n - 1])
    }
}

/// Merge every parser's result set into one, in worker order: content pages
/// are concatenated by ascending worker index and the redirect mappings are
/// unioned.
pub fn merge_all(parsers: Vec<ArticleParser>) -> (r: ArticleParser)
    requires
        parsers@.len() >= 1,
    ensures
        r@ == spec_merge_all(
            parsers@.map_values(|p: ArticleParser| p@),
            parsers@.len() as int,
        ),
{
    let ghost vs0 = parsers@.map_values(|p: ArticleParser| p@);
    let n = parsers.len();
    let mut rest = parsers;
    let mut full = rest.remove(0);
    let mut i: usize = 1;
    while rest.len() > 0
        invariant
            1 <= i <= n,
            n == vs0.len(),
            i + rest@.len() == n,
            full@ == spec_merge_all(vs0, i as int),
            forall|j: int| 0 <= j < rest@.len() ==> (#[trigger] rest@[j])@ == vs0[i + j],
        decreases rest@.len(),
    {
        let p = rest.remove(0);
        proof {
            assert(p@ == vs0[i as int]);
        }
        full.merge_with(p);
        proof {
            assert(full@.content_pages == spec_merge_all(vs0, i + 1).content_pages);
            assert(full@.redirects == spec_merge_all(vs0, i + 1).redirects);
            assert(full@ == spec_merge_all(vs0, i + 1));
        }
        i = i + 1;
    }
    full
}

} // verus!
