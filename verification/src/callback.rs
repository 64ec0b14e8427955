//! Callback of Optimization Iteration

use crate::counter::AcceptanceRatio;
use vstd::prelude::*;

verus! {

/// OptProgress expresses Optimization Progress that is passed to a [`OptCallbackFn`]
#[derive(Debug, Clone, Copy)]
pub struct OptProgress<'a, S, SC> {
    /// current iteration step
    pub iter: usize,
    /// acceptance ratio over the rolling window
    pub acceptance_ratio: AcceptanceRatio,
    /// current best state
    pub state: &'a S,
    /// current best score
    pub score: SC,
}

impl<'a, S, SC> OptProgress<'a, S, SC> {
    /// constuctor of OptProgress
    pub fn new(iter: usize, acceptance_ratio: AcceptanceRatio, state: &'a S, score: SC) -> (progress:
        Self)
        ensures
            progress.iter == iter,
            progress.acceptance_ratio == acceptance_ratio,
            progress.state == state,
            progress.score == score,
    {
        Self { iter, acceptance_ratio, state, score }
    }
}

/// OptCallbackFn is a trait of a callback function for optimization
/// Typical usage is to show progress bar and save current result to the file
pub trait OptCallbackFn<S, SC>: for <'a>Fn(OptProgress<'a, S, SC>) {

}

impl<T: for <'a>Fn(OptProgress<'a, S, SC>), S, SC> OptCallbackFn<S, SC> for T {

}

/// The callback that does nothing.
pub fn silent<'a, S, SC>(_progress: OptProgress<'a, S, SC>) {
}

/// The callback may be called with every progress record.
pub open spec fn accepts_all_progress<S, SC, C: OptCallbackFn<S, SC>>(callback: &C) -> bool {
    forall|progress: OptProgress<S, SC>| call_requires(*callback, (progress,))
}

} // verus!
