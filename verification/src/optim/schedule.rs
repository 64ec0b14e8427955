//! Schedules that adaptive strategies follow.

use vstd::prelude::*;

verus! {

/// Target acceptance rate scheduling mode
#[derive(Clone, Copy, Debug, PartialEq, Eq, Structural)]
pub enum TargetAccScheduleMode {
    /// Linearly cool from the initial to the final target acceptance rate
    Linear,
    /// Exponentially cool from the initial to the final target acceptance rate
    Exponential,
    /// Cosine schedule from the initial to the final target acceptance rate
    Cosine,
    /// Constant target acceptance rate
    Constant,
}

impl Default for TargetAccScheduleMode {
    fn default() -> (mode: Self)
        ensures
            mode == TargetAccScheduleMode::Cosine,
    {
        TargetAccScheduleMode::Cosine
    }
}

/// Whether a strategy that updates its parameter every
/// `update_frequency` iterations does so after iteration `iter`: after
/// every iteration whose number is a multiple of the frequency, but not
/// after iteration zero.
pub fn is_update_step(iter: usize, update_frequency: usize) -> (due: bool)
    requires
        update_frequency > 0,
    ensures
        due == (iter > 0 && iter % update_frequency == 0),
{
    iter % update_frequency == 0 && iter > 0
}

/// Whether a strategy that may go without updates does one after
/// iteration `iter`: never at frequency zero, and else after every
/// iteration whose number is a multiple of the frequency, iteration zero
/// included.
pub fn is_optional_update_step(iter: usize, update_frequency: usize) -> (due: bool)
    ensures
        due == (update_frequency > 0 && iter % update_frequency == 0),
{
    update_frequency > 0 && iter % update_frequency == 0
}

/// The number of updates that fall into `n_iter` iterations at one update
/// every `update_frequency` iterations: the number of steps over which a
/// cooling schedule is spread.
pub fn cooling_steps(n_iter: usize, update_frequency: usize) -> (steps: usize)
    requires
        update_frequency > 0,
    ensures
        steps == n_iter / update_frequency,
{
    n_iter / update_frequency
}

} // verus!
