//! Folding of maximal runs of identical mutation commands.

use vstd::prelude::*;
use crate::command::Command;

verus! {

/// The index just past the run of commands equal to `p[i]` that starts at `i`.
pub open spec fn run_end(p: Seq<Command>, i: int) -> int
    decreases p.len() - i,
{
    if 0 <= i && i + 1 < p.len() && p[i + 1] == p[i] {
        run_end(p, i + 1)
    } else {
        i + 1
    }
}

/// A run is maximal: every command in it equals the first, and the next differs.
pub proof fn lemma_run_end(p: Seq<Command>, i: int)
    requires
        0 <= i < p.len(),
    ensures
        i < run_end(p, i) <= p.len(),
        forall|k: int| i <= k < run_end(p, i) ==> p[k] == p[i],
        run_end(p, i) == p.len() || p[run_end(p, i)] != p[i],
    decreases p.len() - i,
{
    if i + 1 < p.len() && p[i + 1] == p[i] {
        lemma_run_end(p, i + 1);
    }
}

/// Counts the identical commands that start at `start`, and gives the index past them.
pub fn run_length(p: &Vec<Command>, start: usize) -> (r: (usize, usize))
    requires
        start < p@.len(),
    ensures
        r.1 == run_end(p@, start as int),
        r.0 == r.1 - start,
        start < r.1 <= p@.len(),
        forall|k: int| start <= k < r.1 ==> p@[k] == p@[start as int],
        r.1 == p@.len() || p@[r.1 as int] != p@[start as int],
{
    proof {
        lemma_run_end(p@, start as int);
    }
    let first = p[start];
    let len = p.len();
    let mut next: usize = start + 1;
    while next < len && p[next] == first
        invariant
            start < next <= p@.len(),
            first == p@[start as int],
            len == p@.len(),
            run_end(p@, start as int) == run_end(p@, next as int - 1),
            forall|k: int| start <= k < next ==> p@[k] == first,
        decreases p@.len() - next,
    {
        next += 1;
    }
    (next - start, next)
}

} // verus!
