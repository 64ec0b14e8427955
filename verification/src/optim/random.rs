//! Pure random walk.

use crate::callback::OptCallbackFn;
use crate::model::OptModel;
use crate::optim::base::LocalSearchOptimizer;
use crate::optim::epsilon_greedy::{
    epsilon_greedy_rule, is_epsilon_greedy_result, EpsilonGreedyOptimizer,
};
use crate::order::better;
use crate::probability::{lemma_certainties, Probability, RESOLUTION};
use std::time::Duration;
use vstd::prelude::*;

verus! {

/// With epsilon fixed at one, the epsilon-greedy rule accepts every trial.
pub proof fn lemma_epsilon_one_accepts_all<ST: Ord>(current: ST, trial: ST, accepted: bool)
    ensures
        epsilon_greedy_rule(Probability::spec_always())(current, trial, accepted) <==> accepted,
{
    if !better(trial, current) {
        if accepted {
            lemma_certainties(0u64);
            assert(accepted == Probability::spec_always().spec_admits(0u64));
        } else {
            assert forall|draw: u64| draw < RESOLUTION implies accepted
                != #[trigger] Probability::spec_always().spec_admits(draw) by {
                lemma_certainties(draw);
            }
        }
    }
}

/// Optimizer that walks from trial to trial and remembers the best one
#[derive(Clone, Copy, Debug)]
pub struct RandomSearchOptimizer {
    patience: usize,
}

impl RandomSearchOptimizer {
    /// Iterations without improvement after which the optimizer gives up.
    pub closed spec fn patience(&self) -> usize {
        self.patience
    }

    /// - `patience` : the optimizer will give up
    ///   if there is no improvement of the score after this number of iterations
    pub fn new(patience: usize) -> (optimizer: Self)
        ensures
            optimizer.patience() == patience,
    {
        Self { patience }
    }
}

impl<M: OptModel> LocalSearchOptimizer<M> for RandomSearchOptimizer {
    open spec fn can_return(
        &self,
        model: &M,
        initial: (M::SolutionType, M::ScoreType),
        n_iter: usize,
        time_limit: Duration,
        result: (M::SolutionType, M::ScoreType),
    ) -> bool {
        is_epsilon_greedy_result(
            model,
            1,
            self.patience() as nat,
            usize::MAX as nat,
            Probability::spec_always(),
            initial,
            n_iter as nat,
            time_limit,
            result,
        )
    }

    /// Start optimization
    ///
    /// Random search is epsilon-greedy search with epsilon fixed at one,
    /// one trial per iteration and no return to the best solution: its
    /// result is a result of that search.
    fn optimize<C: OptCallbackFn<M::SolutionType, M::ScoreType>>(
        &self,
        model: &M,
        initial_solution: M::SolutionType,
        initial_score: M::ScoreType,
        n_iter: usize,
        time_limit: Duration,
        callback: &C,
    ) -> (result: (M::SolutionType, M::ScoreType))
        ensures
            is_epsilon_greedy_result(
                model,
                1,
                self.patience() as nat,
                usize::MAX as nat,
                Probability::spec_always(),
                (initial_solution, initial_score),
                n_iter as nat,
                time_limit,
                result,
            ),
    {
        let optimizer = EpsilonGreedyOptimizer::new(
            self.patience,
            1,
            usize::MAX,
            Probability::always(),
        );
        optimizer.optimize(model, initial_solution, initial_score, n_iter, time_limit, callback)
    }
}

} // verus!
