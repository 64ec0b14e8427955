//! Greedy search that accepts a worsening trial with a fixed probability.

use crate::callback::OptCallbackFn;
use crate::model::OptModel;
use crate::optim::base::LocalSearchOptimizer;
use crate::optim::course::{
    is_search_result, lemma_step_result_reports_best, lemma_step_result_weaker,
};
use crate::optim::generic::{offers_of, rule_of, GenericLocalSearchOptimizer};
use crate::order::{better, is_better, totally_ordered};
use crate::probability::{Probability, RESOLUTION};
use std::time::Duration;
use vstd::prelude::*;

verus! {

/// The probability with which epsilon-greedy search accepts a trial:
/// certainty for a trial that improves on the current solution, `epsilon`
/// for any other.
pub open spec fn spec_transition_prob<T: Ord>(
    current: T,
    trial: T,
    epsilon: Probability,
) -> Probability {
    if better(trial, current) {
        Probability::spec_always()
    } else {
        epsilon
    }
}

/// The probability with which epsilon-greedy search accepts a trial.
pub fn transition_prob<T: Ord + Copy>(current: T, trial: T, epsilon: Probability) -> (p:
    Probability)
    requires
        totally_ordered::<T>(),
    ensures
        p == spec_transition_prob(current, trial, epsilon),
{
    if is_better(trial, current) {
        return Probability::always();
    }
    epsilon
}

/// The acceptance rule of epsilon-greedy search: a trial that improves on
/// the current solution is accepted, any other exactly if `epsilon`
/// admits a uniform draw.
pub open spec fn epsilon_greedy_rule<ST: Ord>(epsilon: Probability) -> spec_fn(
    ST,
    ST,
    bool,
) -> bool {
    |current: ST, trial: ST, accepted: bool|
        if better(trial, current) {
            accepted
        } else {
            exists|draw: u64| draw < RESOLUTION && accepted == #[trigger] epsilon.spec_admits(draw)
        }
}

/// `result` is what an epsilon-greedy search with the given parameters
/// can return: the best solution of a course of at most `n_iter`
/// iterations that takes, in each, the first of the best among `n_trials`
/// trials of the model, follows the epsilon-greedy rule and stops when the
/// patience is exhausted.
pub open spec fn is_epsilon_greedy_result<M: OptModel>(
    model: &M,
    n_trials: nat,
    patience: nat,
    return_iter: nat,
    epsilon: Probability,
    initial: (M::SolutionType, M::ScoreType),
    n_iter: nat,
    time_limit: Duration,
    result: (M::SolutionType, M::ScoreType),
) -> bool {
    is_search_result(
        epsilon_greedy_rule(epsilon),
        offers_of(model, n_trials),
        patience,
        return_iter,
        initial,
        n_iter,
        time_limit,
        result,
    )
}

/// Optimizer that implements epsilon-greedy algorithm.
/// Unlike a total greedy algorithm such as hill climbing,
/// it allows transitions that worsens the score with a fixed probability
#[derive(Clone, Copy, Debug)]
pub struct EpsilonGreedyOptimizer {
    patience: usize,
    n_trials: usize,
    return_iter: usize,
    epsilon: Probability,
}

impl EpsilonGreedyOptimizer {
    /// Iterations without improvement after which the search gives up.
    pub closed spec fn patience(&self) -> usize {
        self.patience
    }

    /// Number of trial solutions generated at each iteration.
    pub closed spec fn n_trials(&self) -> usize {
        self.n_trials
    }

    /// Iterations without improvement after which the search returns to
    /// the best solution.
    pub closed spec fn return_iter(&self) -> usize {
        self.return_iter
    }

    /// Probability to accept a transition that worsens the score.
    pub closed spec fn epsilon(&self) -> Probability {
        self.epsilon
    }

    /// At least one trial is generated per iteration.
    #[verifier::type_invariant]
    pub closed spec fn usable(&self) -> bool {
        self.n_trials > 0
    }

    /// Constructor of EpsilonGreedyOptimizer
    ///
    /// - `patience` : the optimizer will give up
    ///   if there is no improvement of the score after this number of iterations
    /// - `n_trials` : number of trial solutions to generate and evaluate at each iteration
    /// - `return_iter` : returns to the current best solution if there is no improvement after this number of iterations.
    /// - `epsilon` : probability to accept a transition that worsens the score.
    pub fn new(patience: usize, n_trials: usize, return_iter: usize, epsilon: Probability) -> (optimizer:
        Self)
        requires
            n_trials > 0,
        ensures
            optimizer.patience() == patience,
            optimizer.n_trials() == n_trials,
            optimizer.return_iter() == return_iter,
            optimizer.epsilon() == epsilon,
    {
        Self { patience, n_trials, return_iter, epsilon }
    }
}

impl<M: OptModel> LocalSearchOptimizer<M> for EpsilonGreedyOptimizer {
    open spec fn can_return(
        &self,
        model: &M,
        initial: (M::SolutionType, M::ScoreType),
        n_iter: usize,
        time_limit: Duration,
        result: (M::SolutionType, M::ScoreType),
    ) -> bool {
        is_epsilon_greedy_result(
            model,
            self.n_trials() as nat,
            self.patience() as nat,
            self.return_iter() as nat,
            self.epsilon(),
            initial,
            n_iter as nat,
            time_limit,
            result,
        )
    }

    /// Start optimization
    ///
    /// - `model` : the model to optimize
    /// - `initial_solution` : the initial solution to start optimization.
    /// - `initial_score` : the initial score of the initial solution
    /// - `n_iter`: maximum iterations
    /// - `time_limit`: maximum iteration time
    /// - `callback` : callback function that will be invoked at the end of each iteration
    fn optimize<C: OptCallbackFn<M::SolutionType, M::ScoreType>>(
        &self,
        model: &M,
        initial_solution: M::SolutionType,
        initial_score: M::ScoreType,
        n_iter: usize,
        time_limit: Duration,
        callback: &C,
    ) -> (result: (M::SolutionType, M::ScoreType))
        ensures
            is_epsilon_greedy_result(
                model,
                self.n_trials() as nat,
                self.patience() as nat,
                self.return_iter() as nat,
                self.epsilon(),
                (initial_solution, initial_score),
                n_iter as nat,
                time_limit,
                result,
            ),
    {
        proof {
            use_type_invariant(self);
        }
        let epsilon = self.epsilon;
        let score_func = |current: M::ScoreType, trial: M::ScoreType| -> (p: Probability)
            requires
                totally_ordered::<M::ScoreType>(),
            ensures
                p == spec_transition_prob(current, trial, epsilon),
            { transition_prob(current, trial, epsilon) };
        let optimizer = GenericLocalSearchOptimizer::new(
            self.patience,
            self.n_trials,
            self.return_iter,
            score_func,
        );
        let step_result = optimizer.step(
            model,
            initial_solution,
            initial_score,
            n_iter,
            time_limit,
            callback,
        );
        proof {
            let initial = (initial_solution, initial_score);
            let return_iter = self.return_iter as nat;
            assert forall|current: M::ScoreType, trial: M::ScoreType, accepted: bool| #[trigger]
                rule_of(&score_func)(current, trial, accepted) implies epsilon_greedy_rule(epsilon)(
                current,
                trial,
                accepted,
            ) by {
                if !better(trial, current) {
                    let (p, draw) = choose|p: Probability, draw: u64|
                        {
                            &&& #[trigger] call_ensures(score_func, (current, trial), p)
                            &&& draw < RESOLUTION
                            &&& accepted == #[trigger] p.spec_admits(draw)
                        };
                    assert(accepted == epsilon.spec_admits(draw));
                }
            }
            lemma_step_result_weaker(
                rule_of(&score_func),
                epsilon_greedy_rule(epsilon),
                offers_of(model, self.n_trials as nat),
                self.patience as nat,
                return_iter,
                initial,
                n_iter as nat,
                time_limit,
                step_result,
            );
            lemma_step_result_reports_best(
                epsilon_greedy_rule(epsilon),
                offers_of(model, self.n_trials as nat),
                self.patience as nat,
                return_iter,
                initial,
                n_iter as nat,
                time_limit,
                step_result,
            );
        }
        (step_result.best_solution, step_result.best_score)
    }
}

} // verus!
