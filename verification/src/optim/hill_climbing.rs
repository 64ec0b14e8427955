//! Strictly greedy search.

use crate::callback::OptCallbackFn;
use crate::model::OptModel;
use crate::optim::base::LocalSearchOptimizer;
use crate::optim::epsilon_greedy::{
    epsilon_greedy_rule, is_epsilon_greedy_result, EpsilonGreedyOptimizer,
};
use crate::optim::bookkeeping::Observation;
use crate::optim::course::{decided_by, state_before};
use crate::order::better;
use crate::probability::{lemma_certainties, Probability, RESOLUTION};
use std::time::Duration;
use vstd::prelude::*;

verus! {

/// With epsilon fixed at zero, the epsilon-greedy rule accepts a trial
/// exactly if it is strictly better than the current solution.
pub proof fn lemma_epsilon_zero_is_greedy<ST: Ord>(current: ST, trial: ST, accepted: bool)
    ensures
        epsilon_greedy_rule(Probability::spec_never())(current, trial, accepted) <==> accepted
            == better(trial, current),
{
    if !better(trial, current) {
        if accepted {
            assert forall|draw: u64| draw < RESOLUTION implies accepted
                != #[trigger] Probability::spec_never().spec_admits(draw) by {
                lemma_certainties(draw);
            }
        } else {
            lemma_certainties(0u64);
            assert(accepted == Probability::spec_never().spec_admits(0u64));
        }
    }
}

/// Two strictly greedy courses from the same start that meet the same
/// trials take the same decisions: the trajectory depends on nothing but
/// the trial sequence.
pub proof fn lemma_greedy_course_follows_trials<S, ST: Ord>(
    return_iter: nat,
    initial: (S, ST),
    one: Seq<Observation<S, ST>>,
    other: Seq<Observation<S, ST>>,
)
    requires
        one.len() == other.len(),
        forall|k: int|
            0 <= k < one.len() ==> one[k].solution == other[k].solution && one[k].score
                == other[k].score,
        decided_by(epsilon_greedy_rule(Probability::spec_never()), return_iter, initial, one),
        decided_by(epsilon_greedy_rule(Probability::spec_never()), return_iter, initial, other),
    ensures
        one == other,
{
    lemma_greedy_prefixes_agree(return_iter, initial, one, other, one.len());
    assert(one.take(one.len() as int) =~= one);
    assert(other.take(other.len() as int) =~= other);
}

/// The first `n` decisions of two strictly greedy courses that meet the
/// same trials are the same.
proof fn lemma_greedy_prefixes_agree<S, ST: Ord>(
    return_iter: nat,
    initial: (S, ST),
    one: Seq<Observation<S, ST>>,
    other: Seq<Observation<S, ST>>,
    n: nat,
)
    requires
        n <= one.len() == other.len(),
        forall|k: int|
            0 <= k < one.len() ==> one[k].solution == other[k].solution && one[k].score
                == other[k].score,
        decided_by(epsilon_greedy_rule(Probability::spec_never()), return_iter, initial, one),
        decided_by(epsilon_greedy_rule(Probability::spec_never()), return_iter, initial, other),
    ensures
        one.take(n as int) == other.take(n as int),
    decreases n,
{
    if n == 0 {
        assert(one.take(0) =~= other.take(0));
    } else {
        let k = (n - 1) as int;
        lemma_greedy_prefixes_agree(return_iter, initial, one, other, k as nat);
        let before_one = state_before(initial, one, k, return_iter);
        let before_other = state_before(initial, other, k, return_iter);
        assert(before_one == before_other);
        lemma_epsilon_zero_is_greedy(before_one.current.1, one[k].score, one[k].accepted);
        lemma_epsilon_zero_is_greedy(before_other.current.1, other[k].score, other[k].accepted);
        assert(one[k] == other[k]);
        assert(one.take(n as int) =~= one.take(k).push(one[k]));
        assert(other.take(n as int) =~= other.take(k).push(other[k]));
    }
}

/// Optimizer that implements simple hill climbing algorithm
#[derive(Clone, Copy, Debug)]
pub struct HillClimbingOptimizer {
    patience: usize,
    n_trials: usize,
}

impl HillClimbingOptimizer {
    /// Iterations without improvement after which the optimizer gives up.
    pub closed spec fn patience(&self) -> usize {
        self.patience
    }

    /// Number of trial solutions generated at each iteration.
    pub closed spec fn n_trials(&self) -> usize {
        self.n_trials
    }

    /// At least one trial is generated per iteration.
    #[verifier::type_invariant]
    pub closed spec fn usable(&self) -> bool {
        self.n_trials > 0
    }

    /// - `patience` : the optimizer will give up
    ///   if there is no improvement of the score after this number of iterations
    /// - `n_trials` : number of trial solutions to generate and evaluate at each iteration
    pub fn new(patience: usize, n_trials: usize) -> (optimizer: Self)
        requires
            n_trials > 0,
        ensures
            optimizer.patience() == patience,
            optimizer.n_trials() == n_trials,
    {
        Self { patience, n_trials }
    }
}

impl<M: OptModel> LocalSearchOptimizer<M> for HillClimbingOptimizer {
    open spec fn can_return(
        &self,
        model: &M,
        initial: (M::SolutionType, M::ScoreType),
        n_iter: usize,
        time_limit: Duration,
        result: (M::SolutionType, M::ScoreType),
    ) -> bool {
        is_epsilon_greedy_result(
            model,
            self.n_trials() as nat,
            self.patience() as nat,
            usize::MAX as nat,
            Probability::spec_never(),
            initial,
            n_iter as nat,
            time_limit,
            result,
        )
    }

    /// Start optimization
    ///
    /// Hill climbing is epsilon-greedy search with epsilon fixed at zero
    /// that never returns to the best solution: its result is a result of
    /// that search.
    fn optimize<C: OptCallbackFn<M::SolutionType, M::ScoreType>>(
        &self,
        model: &M,
        initial_solution: M::SolutionType,
        initial_score: M::ScoreType,
        n_iter: usize,
        time_limit: Duration,
        callback: &C,
    ) -> (result: (M::SolutionType, M::ScoreType))
        ensures
            is_epsilon_greedy_result(
                model,
                self.n_trials() as nat,
                self.patience() as nat,
                usize::MAX as nat,
                Probability::spec_never(),
                (initial_solution, initial_score),
                n_iter as nat,
                time_limit,
                result,
            ),
    {
        proof {
            use_type_invariant(self);
        }
        let optimizer = EpsilonGreedyOptimizer::new(
            self.patience,
            self.n_trials,
            usize::MAX,
            Probability::never(),
        );
        optimizer.optimize(model, initial_solution, initial_score, n_iter, time_limit, callback)
    }
}

} // verus!
