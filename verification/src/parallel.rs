//! Evaluating every line on its own, on the threads of a `rayon` pool.

use rayon::iter::{IndexedParallelIterator, IntoParallelRefIterator, ParallelIterator};
use vstd::prelude::*;

verus! {

/// Trusted: calls `par_iter`, `enumerate`, `map` and `collect` of `rayon`
/// on the lines. The function is applied once to every line with its
/// position, on whichever thread, and the results come back in the order of
/// the lines.
#[verifier::external_body]
pub(crate) fn map_lines<T: Send, F: Fn(usize, &String) -> T + Sync + Send>(
    lines: &Vec<String>,
    f: F,
) -> (results: Vec<T>)
    requires
        forall|i: int|
            0 <= i < lines.len() ==> call_requires(f, (i as usize, &#[trigger] lines[i])),
    ensures
        results.len() == lines.len(),
        forall|i: int|
            0 <= i < lines.len() ==> call_ensures(
                f,
                (i as usize, &lines[i]),
                #[trigger] results[i],
            ),
{
    lines.par_iter().enumerate().map(|(i, line)| f(i, line)).collect()
}

} // verus!
