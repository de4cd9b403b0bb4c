//! The iteration schedule and the acceptance rule of simulated annealing.
//!
//! A worsening move of `de` is accepted with probability `exp(-de / T(i))`,
//! where `T(i) = T0 * exp(-i * K / N)`. Drawing `r` uniformly from `[0, 1)`,
//! that is the event `de < -T(i) * ln(r)`: the right-hand side, in penalty
//! units, is the acceptance threshold of iteration `i`, which the caller
//! draws and hands in.
use std::ops::Range;
use vstd::prelude::*;

verus! {

/// Iterations of one annealing run.
pub const N: usize = 15000;

/// The iterations of one run, numbered from 1.
pub fn get_simulation_range() -> (r: Range<usize>)
    ensures
        r.start == 1,
        r.end == N + 1,
{
    1..(N + 1)
}

/// Whether a move that changes the penalty by `de` is taken, given the
/// threshold drawn for its iteration: always when it does not worsen the
/// penalty, else when the worsening stays below the threshold.
pub fn accept_transition(de: i128, threshold: i128) -> (r: bool)
    ensures
        r == (de <= 0 || de < threshold),
{
    de <= 0 || de < threshold
}

} // verus!
