//! What every optimizer offers, and what a strategy plugs in.

use crate::callback::{accepts_all_progress, silent, OptCallbackFn};
use crate::error::LocalsearchError;
use crate::model::{generate_initial_solution, generated, OptModel};
use crate::order::{better, totally_ordered};
use crate::probability::Probability;
use std::time::Duration;
use vstd::prelude::*;

verus! {

/// Transition probability function: from the current score and the score
/// of a trial to the probability with which a trial that does not improve
/// on the current solution is accepted.
pub trait TransitionProbabilityFn<ST: Ord + Sync + Send + Copy>: Fn(ST, ST) -> Probability {

}

impl<F, ST: Ord + Sync + Send + Copy> TransitionProbabilityFn<ST> for F where
    F: Fn(ST, ST) -> Probability,
 {

}

/// Transition probability function of a family: like a
/// [`TransitionProbabilityFn`], with the place of a member of the family
/// (a replica, a round) before the two scores.
pub trait IndexedProbabilityFn<ST: Ord + Sync + Send + Copy>: Fn(usize, ST, ST) -> Probability {

}

impl<F, ST: Ord + Sync + Send + Copy> IndexedProbabilityFn<ST> for F where
    F: Fn(usize, ST, ST) -> Probability,
 {

}

/// The function may be called on every place and pair of scores.
pub open spec fn defined_for_all<ST: Ord + Sync + Send + Copy, F: IndexedProbabilityFn<ST>>(
    family: &F,
) -> bool {
    forall|index: usize, current: ST, trial: ST| callable_at(family, index, current, trial)
}

/// The family may be called on the place and the pair of scores.
pub open spec fn callable_at<ST: Ord + Sync + Send + Copy, F: IndexedProbabilityFn<ST>>(
    family: &F,
    index: usize,
    current: ST,
    trial: ST,
) -> bool {
    call_requires(*family, (index, current, trial))
}

/// `p` is a probability that the family can return for the place and the
/// pair of scores.
pub open spec fn gives<ST: Ord + Sync + Send + Copy, F: IndexedProbabilityFn<ST>>(
    family: &F,
    index: usize,
    current: ST,
    trial: ST,
    p: Probability,
) -> bool {
    call_ensures(*family, (index, current, trial), p)
}

/// Whether a decision agrees with what the family gave for the place
/// `index` and the two scores: some probability that the function
/// returned for them admits some uniform draw exactly if the decision is
/// to accept.
pub open spec fn drawn_from<ST: Ord + Sync + Send + Copy, F: IndexedProbabilityFn<ST>>(
    family: &F,
    index: usize,
    current: ST,
    trial: ST,
    accepted: bool,
) -> bool {
    exists|p: Probability, draw: u64|
        {
            &&& #[trigger] gives(family, index, current, trial, p)
            &&& draw < crate::probability::RESOLUTION
            &&& accepted == #[trigger] p.spec_admits(draw)
        }
}

/// The acceptance rule of member `index` of the family: a trial that
/// improves on the current solution is accepted, any other exactly if the
/// member's probability for it admits a uniform draw.
pub open spec fn member_rule<ST: Ord + Sync + Send + Copy, F: IndexedProbabilityFn<ST>>(
    family: &F,
    index: usize,
) -> spec_fn(ST, ST, bool) -> bool {
    |current: ST, trial: ST, accepted: bool|
        if better(trial, current) {
            accepted
        } else {
            drawn_from(family, index, current, trial, accepted)
        }
}

/// The function may be called on every pair of scores.
pub open spec fn defined_everywhere<ST: Ord + Sync + Send + Copy, FT: TransitionProbabilityFn<ST>>(
    score_func: &FT,
) -> bool {
    forall|current: ST, trial: ST| call_requires(*score_func, (current, trial))
}

/// `outcome` is what the model can answer when it is asked to preprocess
/// the starting solution.
pub open spec fn preprocessed<M: OptModel>(
    model: &M,
    start: (M::SolutionType, M::ScoreType),
    outcome: Result<(M::SolutionType, M::ScoreType), LocalsearchError>,
) -> bool {
    call_ensures(M::preprocess_solution, (model, start.0, start.1), outcome)
}

/// `found` is what the model can make of the best solution when it is
/// asked to postprocess it.
pub open spec fn postprocessed<M: OptModel>(
    model: &M,
    best: (M::SolutionType, M::ScoreType),
    found: (M::SolutionType, M::ScoreType),
) -> bool {
    call_ensures(M::postprocess_solution, (model, best.0, best.1), found)
}

/// `start` is a solution that a run can start from: the given one, if
/// one is given, and else one that the model can generate.
pub open spec fn starts_from<M: OptModel>(
    model: &M,
    given: Option<(M::SolutionType, M::ScoreType)>,
    start: (M::SolutionType, M::ScoreType),
) -> bool {
    match given {
        Some(solution) => start == solution,
        None => generated(model, Ok(start)),
    }
}

/// A run can succeed with `found`: it is what the model's postprocessing
/// makes of what the optimizer returned for the preprocessed start, where
/// `optimized` relates a start to what the optimizer can return for it.
pub open spec fn can_succeed_with<M: OptModel>(
    optimized: spec_fn((M::SolutionType, M::ScoreType), (M::SolutionType, M::ScoreType)) -> bool,
    model: &M,
    initial_solution_and_score: Option<(M::SolutionType, M::ScoreType)>,
    found: (M::SolutionType, M::ScoreType),
) -> bool {
    exists|
        start: (M::SolutionType, M::ScoreType),
        prepared: (M::SolutionType, M::ScoreType),
        best: (M::SolutionType, M::ScoreType),
    |
        {
            &&& starts_from(model, initial_solution_and_score, start)
            &&& #[trigger] preprocessed(model, start, Ok(prepared))
            &&& optimized(prepared, best)
            &&& #[trigger] postprocessed(model, best, found)
        }
}

/// A run can fail with `error`: it is the error with which the
/// preprocessing of a start failed or, where no solution is given, the
/// error with which the model can fail to generate one.
pub open spec fn can_fail_with<M: OptModel>(
    model: &M,
    initial_solution_and_score: Option<(M::SolutionType, M::ScoreType)>,
    error: LocalsearchError,
) -> bool {
    ||| initial_solution_and_score is None && generated(model, Err(error))
    ||| exists|start: (M::SolutionType, M::ScoreType)|
        {
            &&& starts_from(model, initial_solution_and_score, start)
            &&& #[trigger] preprocessed(model, start, Err(error))
        }
}

/// `result` is what a run can return, where `optimized` relates a start
/// to what the optimizer can return for it.
pub open spec fn is_run_outcome<M: OptModel>(
    optimized: spec_fn((M::SolutionType, M::ScoreType), (M::SolutionType, M::ScoreType)) -> bool,
    model: &M,
    initial_solution_and_score: Option<(M::SolutionType, M::ScoreType)>,
    result: Result<(M::SolutionType, M::ScoreType), LocalsearchError>,
) -> bool {
    match result {
        Ok(found) => can_succeed_with(optimized, model, initial_solution_and_score, found),
        Err(error) => can_fail_with(model, initial_solution_and_score, error),
    }
}

/// Optimizer that implements local search algorithm
pub trait LocalSearchOptimizer<M: OptModel> {
    /// What `optimize` can return when it is started from `initial` with
    /// a budget of `n_iter` iterations and the time limit `time_limit`:
    /// each optimizer says so for itself.
    spec fn can_return(
        &self,
        model: &M,
        initial: (M::SolutionType, M::ScoreType),
        n_iter: usize,
        time_limit: Duration,
        result: (M::SolutionType, M::ScoreType),
    ) -> bool;

    /// Start optimization
    ///
    /// What comes back is what the optimizer can return, and its score is
    /// never worse than the initial one.
    fn optimize<C: OptCallbackFn<M::SolutionType, M::ScoreType>>(
        &self,
        model: &M,
        initial_solution: M::SolutionType,
        initial_score: M::ScoreType,
        n_iter: usize,
        time_limit: Duration,
        callback: &C,
    ) -> (result: (M::SolutionType, M::ScoreType))
        requires
            totally_ordered::<M::ScoreType>(),
            accepts_all_progress(callback),
        ensures
            self.can_return(model, (initial_solution, initial_score), n_iter, time_limit, result),
            !better(initial_score, result.1),
    ;

    /// generate initial solution if not given and run optimization
    fn run(
        &self,
        model: &M,
        initial_solution_and_score: Option<(M::SolutionType, M::ScoreType)>,
        n_iter: usize,
        time_limit: Duration,
    ) -> (result: Result<(M::SolutionType, M::ScoreType), LocalsearchError>)
        requires
            totally_ordered::<M::ScoreType>(),
        ensures
            is_run_outcome(
                |prepared: (M::SolutionType, M::ScoreType), best: (M::SolutionType, M::ScoreType)|
                    self.can_return(model, prepared, n_iter, time_limit, best),
                model,
                initial_solution_and_score,
                result,
            ),
    {
        self.run_with_callback(
            model,
            initial_solution_and_score,
            n_iter,
            time_limit,
            &silent::<M::SolutionType, M::ScoreType>,
        )
    }

    /// generate initial solution if not given and run optimization with callback
    fn run_with_callback<C: OptCallbackFn<M::SolutionType, M::ScoreType>>(
        &self,
        model: &M,
        initial_solution_and_score: Option<(M::SolutionType, M::ScoreType)>,
        n_iter: usize,
        time_limit: Duration,
        callback: &C,
    ) -> (result: Result<(M::SolutionType, M::ScoreType), LocalsearchError>)
        requires
            totally_ordered::<M::ScoreType>(),
            accepts_all_progress(callback),
        ensures
            is_run_outcome(
                |prepared: (M::SolutionType, M::ScoreType), best: (M::SolutionType, M::ScoreType)|
                    self.can_return(model, prepared, n_iter, time_limit, best),
                model,
                initial_solution_and_score,
                result,
            ),
    {
        let (initial_solution, initial_score) = match initial_solution_and_score {
            Some((solution, score)) => (solution, score),
            None => {
                match generate_initial_solution(model) {
                    Ok((solution, score)) => (solution, score),
                    Err(error) => {
                        return Err(error);
                    },
                }
            },
        };
        let ghost start = (initial_solution, initial_score);

        let preprocess = M::preprocess_solution;
        let (initial_solution, initial_score) = match preprocess(
            model,
            initial_solution,
            initial_score,
        ) {
            Ok((solution, score)) => (solution, score),
            Err(error) => {
                assert(preprocessed(model, start, Err(error)));
                return Err(error);
            },
        };
        let ghost prepared = (initial_solution, initial_score);

        let (solution, score) = self.optimize(
            model,
            initial_solution,
            initial_score,
            n_iter,
            time_limit,
            callback,
        );
        let ghost best = (solution, score);

        let postprocess = M::postprocess_solution;
        let (solution, score) = postprocess(model, solution, score);
        proof {
            assert(starts_from(model, initial_solution_and_score, start));
            assert(preprocessed(model, start, Ok(prepared)));
            let optimized = |
                prepared: (M::SolutionType, M::ScoreType),
                best: (M::SolutionType, M::ScoreType),
            | self.can_return(model, prepared, n_iter, time_limit, best);
            assert(optimized(prepared, best));
            assert(postprocessed(model, best, (solution, score)));
            assert(can_succeed_with(
                optimized,
                model,
                initial_solution_and_score,
                (solution, score),
            ));
        }
        Ok((solution, score))
    }
}

/// A reference to an optimizer is an optimizer: it returns what the
/// optimizer returns.
impl<M: OptModel, T: LocalSearchOptimizer<M>> LocalSearchOptimizer<M> for &T {
    open spec fn can_return(
        &self,
        model: &M,
        initial: (M::SolutionType, M::ScoreType),
        n_iter: usize,
        time_limit: Duration,
        result: (M::SolutionType, M::ScoreType),
    ) -> bool {
        (**self).can_return(model, initial, n_iter, time_limit, result)
    }

    fn optimize<C: OptCallbackFn<M::SolutionType, M::ScoreType>>(
        &self,
        model: &M,
        initial_solution: M::SolutionType,
        initial_score: M::ScoreType,
        n_iter: usize,
        time_limit: Duration,
        callback: &C,
    ) -> (result: (M::SolutionType, M::ScoreType)) {
        (**self).optimize(model, initial_solution, initial_score, n_iter, time_limit, callback)
    }
}

/// A boxed optimizer is an optimizer: it returns what the optimizer
/// returns.
impl<M: OptModel, T: LocalSearchOptimizer<M>> LocalSearchOptimizer<M> for Box<T> {
    open spec fn can_return(
        &self,
        model: &M,
        initial: (M::SolutionType, M::ScoreType),
        n_iter: usize,
        time_limit: Duration,
        result: (M::SolutionType, M::ScoreType),
    ) -> bool {
        (**self).can_return(model, initial, n_iter, time_limit, result)
    }

    fn optimize<C: OptCallbackFn<M::SolutionType, M::ScoreType>>(
        &self,
        model: &M,
        initial_solution: M::SolutionType,
        initial_score: M::ScoreType,
        n_iter: usize,
        time_limit: Duration,
        callback: &C,
    ) -> (result: (M::SolutionType, M::ScoreType)) {
        (**self).optimize(model, initial_solution, initial_score, n_iter, time_limit, callback)
    }
}

/// A shared optimizer is an optimizer: it returns what the optimizer
/// returns.
impl<M: OptModel, T: LocalSearchOptimizer<M>> LocalSearchOptimizer<M> for std::rc::Rc<T> {
    open spec fn can_return(
        &self,
        model: &M,
        initial: (M::SolutionType, M::ScoreType),
        n_iter: usize,
        time_limit: Duration,
        result: (M::SolutionType, M::ScoreType),
    ) -> bool {
        (**self).can_return(model, initial, n_iter, time_limit, result)
    }

    fn optimize<C: OptCallbackFn<M::SolutionType, M::ScoreType>>(
        &self,
        model: &M,
        initial_solution: M::SolutionType,
        initial_score: M::ScoreType,
        n_iter: usize,
        time_limit: Duration,
        callback: &C,
    ) -> (result: (M::SolutionType, M::ScoreType)) {
        (**self).optimize(model, initial_solution, initial_score, n_iter, time_limit, callback)
    }
}

/// An optimizer shared among threads is an optimizer: it returns what the
/// optimizer returns.
impl<M: OptModel, T: LocalSearchOptimizer<M>> LocalSearchOptimizer<M> for std::sync::Arc<T> {
    open spec fn can_return(
        &self,
        model: &M,
        initial: (M::SolutionType, M::ScoreType),
        n_iter: usize,
        time_limit: Duration,
        result: (M::SolutionType, M::ScoreType),
    ) -> bool {
        (**self).can_return(model, initial, n_iter, time_limit, result)
    }

    fn optimize<C: OptCallbackFn<M::SolutionType, M::ScoreType>>(
        &self,
        model: &M,
        initial_solution: M::SolutionType,
        initial_score: M::ScoreType,
        n_iter: usize,
        time_limit: Duration,
        callback: &C,
    ) -> (result: (M::SolutionType, M::ScoreType)) {
        (**self).optimize(model, initial_solution, initial_score, n_iter, time_limit, callback)
    }
}

} // verus!
