//! Settings of a run.
use crate::layout::Layout;
use vstd::prelude::*;

verus! {

/// Number of swaps per perturbation when none is configured.
pub const DEFAULT_SWAPS: usize = 2;

#[derive(Debug, Clone, Copy, PartialEq, Eq, Structural)]
pub enum Command {
    Run,
    RunRefs,
    Refine,
    Analyze,
}

/// What to do, on which corpus, from which layout, and how hard to search.
#[derive(Debug, Clone)]
pub struct Config {
    pub debug: bool,
    /// Swaps per perturbation when annealing; swaps per candidate when refining.
    pub swaps: usize,
    pub command: Command,
    pub corpus_path: String,
    pub repetition: usize,
    pub layout: Layout,
    pub output: Option<String>,
}

} // verus!
