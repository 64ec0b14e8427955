//! The acceptance-driven search loop.

use crate::callback::{accepts_all_progress, OptCallbackFn, OptProgress};
use crate::clock::{elapsed_since, limit_reached, now, reached};
use crate::counter::window_of;
use crate::model::{generate_trials, is_offer, OptModel, Trial};
use crate::optim::base::{defined_everywhere, LocalSearchOptimizer, TransitionProbabilityFn};
use crate::optim::bookkeeping::{
    exhausted, lemma_replay_keeps_order, outcomes, replay, start, Observation,
    SearchState, ACCEPTANCE_WINDOW,
};
use crate::optim::course::{
    is_search_course, is_search_result, is_search_run, is_step_result, lemma_course_extends,
    lemma_step_result_reports_best,
};
use crate::order::{
    better, is_better, lemma_better_asymmetric, lemma_better_irreflexive,
    lemma_better_then_not_worse, totally_ordered,
};
use crate::probability::{uniform_draw, Probability, RESOLUTION};
use std::marker::PhantomData;
use std::time::Duration;
use vstd::prelude::*;

pub use crate::optim::bookkeeping::StepResult;

verus! {

/// `i` is the place of the first of the best scores of `scores`.
pub open spec fn is_first_minimum<ST: Ord>(scores: Seq<ST>, i: int) -> bool {
    &&& 0 <= i < scores.len()
    &&& forall|j: int| 0 <= j < scores.len() ==> !better(#[trigger] scores[j], scores[i])
    &&& forall|j: int| 0 <= j < i ==> better(scores[i], #[trigger] scores[j])
}

/// The scores of a sequence of trials.
pub open spec fn trial_scores<S, T, ST>(trials: Seq<(S, T, ST)>) -> Seq<ST> {
    trials.map_values(|trial: (S, T, ST)| trial.2)
}

/// `place` is the place of the first of the best among the first `k`
/// scores.
pub open spec fn leads_so_far<ST: Ord>(scores: Seq<ST>, k: int, place: int) -> bool {
    &&& 0 <= place < k <= scores.len()
    &&& forall|j: int| 0 <= j < k ==> !better(#[trigger] scores[j], scores[place])
    &&& forall|j: int| 0 <= j < place ==> better(scores[place], #[trigger] scores[j])
}

/// The first of the best among the first `k` scores stays the first of
/// the best when one more score is looked at, unless that score is
/// strictly better: then it takes its place.
pub proof fn lemma_lead_moves_on<ST: Ord>(scores: Seq<ST>, k: int, place: int)
    requires
        totally_ordered::<ST>(),
        leads_so_far(scores, k, place),
        k < scores.len(),
    ensures
        leads_so_far(
            scores,
            k + 1,
            if better(scores[k], scores[place]) {
                k
            } else {
                place
            },
        ),
        leads_so_far(scores, scores.len() as int, place) ==> is_first_minimum(scores, place),
{
    if better(scores[k], scores[place]) {
        let found = scores[k];
        let held = scores[place];
        assert forall|j: int| 0 <= j < k implies better(found, #[trigger] scores[j]) by {
            lemma_better_then_not_worse(found, held, scores[j]);
        }
        assert forall|j: int| 0 <= j < k + 1 implies !better(#[trigger] scores[j], found) by {
            if j < k {
                lemma_better_asymmetric(found, scores[j]);
            } else {
                lemma_better_irreflexive(found);
            }
        }
    }
}

/// The place of the best trial; among equally good ones, of the first.
pub fn best_trial<S, T, ST: Ord + Copy>(trials: &Vec<(S, T, ST)>) -> (place: usize)
    requires
        totally_ordered::<ST>(),
        trials@.len() > 0,
    ensures
        is_first_minimum(trial_scores(trials@), place as int),
{
    let ghost scores = trial_scores(trials@);
    let mut place: usize = 0;
    let mut k: usize = 1;
    proof {
        lemma_better_irreflexive(scores[0]);
    }
    while k < trials.len()
        invariant
            totally_ordered::<ST>(),
            scores == trial_scores(trials@),
            leads_so_far(scores, k as int, place as int),
        decreases trials@.len() - k,
    {
        proof {
            lemma_lead_moves_on(scores, k as int, place as int);
        }
        if is_better(trials[k].2, trials[place].2) {
            place = k;
        }
        k = k + 1;
    }
    place
}

/// Where the trials of the search loop come from: a trial is the first
/// of the best among `n_trials` trials that the model can propose around
/// the current solution.
pub open spec fn offers_of<M: OptModel>(model: &M, n_trials: nat) -> spec_fn(
    (M::SolutionType, M::ScoreType),
    (M::SolutionType, M::ScoreType),
) -> bool {
    |current: (M::SolutionType, M::ScoreType), trial: (M::SolutionType, M::ScoreType)|
        is_best_offer(model, n_trials, current, trial)
}

/// `trial` is the first of the best among `n_trials` trials that the
/// model can propose around `current`.
pub open spec fn is_best_offer<M: OptModel>(
    model: &M,
    n_trials: nat,
    current: (M::SolutionType, M::ScoreType),
    trial: (M::SolutionType, M::ScoreType),
) -> bool {
    exists|offer: Seq<Trial<M>>, place: int|
        {
            &&& #[trigger] is_offer(model, n_trials, current, offer)
            &&& #[trigger] is_first_minimum(trial_scores(offer), place)
            &&& trial == (offer[place].0, offer[place].2)
        }
}

/// Whether accepting or rejecting a trial agrees with the acceptance
/// rule: a trial that is strictly better than the current solution is
/// accepted; any other is accepted exactly if the probability that the
/// transition function gave for it admits a uniform draw.
pub open spec fn admissible<ST: Ord + Sync + Send + Copy, FT: TransitionProbabilityFn<ST>>(
    score_func: &FT,
    current: ST,
    trial: ST,
    accepted: bool,
) -> bool {
    if better(trial, current) {
        accepted
    } else {
        exists|p: Probability, draw: u64|
            {
                &&& #[trigger] call_ensures(*score_func, (current, trial), p)
                &&& draw < RESOLUTION
                &&& accepted == #[trigger] p.spec_admits(draw)
            }
    }
}

/// The acceptance rule of the transition probability function
/// `score_func`.
pub open spec fn rule_of<ST: Ord + Sync + Send + Copy, FT: TransitionProbabilityFn<ST>>(
    score_func: &FT,
) -> spec_fn(ST, ST, bool) -> bool {
    |current: ST, trial: ST, accepted: bool| admissible(score_func, current, trial, accepted)
}

/// Optimizer that implements local search algorithm
/// Given a function f that converts a pair of scores to a probability,
/// the trial solution is accepted by the following procedure
///
/// 1. p <- f(current_score, trial_score)
/// 2. accept if p exceeds a uniform draw from the unit interval
pub struct GenericLocalSearchOptimizer<
    ST: Ord + Sync + Send + Copy,
    FT: TransitionProbabilityFn<ST>,
> {
    patience: usize,
    n_trials: usize,
    return_iter: usize,
    score_func: FT,
    phantom: PhantomData<ST>,
}

impl<ST: Ord + Sync + Send + Copy, FT: TransitionProbabilityFn<ST>> GenericLocalSearchOptimizer<
    ST,
    FT,
> {
    /// Iterations without improvement after which the search gives up.
    pub closed spec fn patience(&self) -> usize {
        self.patience
    }

    /// Number of trial solutions generated at each iteration.
    pub closed spec fn n_trials(&self) -> usize {
        self.n_trials
    }

    /// Iterations without improvement after which the search returns to
    /// the best solution.
    pub closed spec fn return_iter(&self) -> usize {
        self.return_iter
    }

    /// The transition probability function.
    pub closed spec fn score_func(&self) -> FT {
        self.score_func
    }

    /// At least one trial is generated per iteration, and the transition
    /// probability function is defined on all scores.
    #[verifier::type_invariant]
    pub closed spec fn usable(&self) -> bool {
        &&& self.n_trials > 0
        &&& defined_everywhere(&self.score_func)
    }

    /// Constructor of GenericLocalSearchOptimizer
    ///
    /// - `patience` : the optimizer will give up
    ///   if there is no improvement of the score after this number of iterations
    /// - `n_trials` : number of trial solutions to generate and evaluate at each iteration
    /// - `return_iter` : returns to the current best solution if there is no improvement after this number of iterations.
    /// - `score_func` : score function to calculate transition probability.
    pub fn new(patience: usize, n_trials: usize, return_iter: usize, score_func: FT) -> (optimizer:
        Self)
        requires
            n_trials > 0,
            defined_everywhere(&score_func),
        ensures
            optimizer.patience() == patience,
            optimizer.n_trials() == n_trials,
            optimizer.return_iter() == return_iter,
            optimizer.score_func() == score_func,
    {
        Self { patience, n_trials, return_iter, score_func, phantom: PhantomData }
    }

    /// Start optimization, returns the best solution and last solution
    ///
    /// - `model` : the model to optimize
    /// - `initial_solution` : the initial solution to start optimization.
    /// - `initial_score` : the initial score of the initial solution
    /// - `n_iter`: maximum iterations
    /// - `time_limit`: maximum iteration time
    /// - `callback` : callback function that will be invoked at the end of each iteration
    pub fn step<M: OptModel<ScoreType = ST>, C: OptCallbackFn<M::SolutionType, ST>>(
        &self,
        model: &M,
        initial_solution: M::SolutionType,
        initial_score: ST,
        n_iter: usize,
        time_limit: Duration,
        callback: &C,
    ) -> (result: StepResult<M::SolutionType, ST>)
        requires
            totally_ordered::<ST>(),
            accepts_all_progress(callback),
        ensures
            is_step_result(
                rule_of(&self.score_func()),
                offers_of(model, self.n_trials() as nat),
                self.patience() as nat,
                self.return_iter() as nat,
                (initial_solution, initial_score),
                n_iter as nat,
                time_limit,
                result,
            ),
            !better(initial_score, result.best_score),
            !better(result.last_score, result.best_score),
    {
        proof {
            use_type_invariant(self);
        }
        let start_time = now();
        let mut state = SearchState::new(initial_solution, initial_score);
        let ghost initial = (initial_solution, initial_score);
        let ghost mut seen: Seq<Observation<M::SolutionType, ST>> = Seq::empty();
        let ghost return_iter = self.return_iter as nat;
        let ghost patience = self.patience as nat;
        let ghost rule = rule_of(&self.score_func);
        let ghost source = offers_of(model, self.n_trials as nat);
        proof {
            lemma_better_irreflexive(initial_score);
            assert(seen.take(0) =~= seen);
        }
        let mut it: usize = 0;
        while it < n_iter
            invariant_except_break
                seen.len() == it,
                !exhausted(state.bookkeeping(), patience) || it == 0,
            invariant
                totally_ordered::<ST>(),
                accepts_all_progress(callback),
                self.usable(),
                return_iter == self.return_iter as nat,
                patience == self.patience as nat,
                rule == rule_of(&self.score_func),
                source == offers_of(model, self.n_trials as nat),
                initial == (initial_solution, initial_score),
                it <= n_iter,
                state.wf(),
                state.bookkeeping() == replay(start(initial.0, initial.1), seen, return_iter),
                state.window() == window_of(outcomes(seen), ACCEPTANCE_WINDOW as nat),
                state.bookkeeping().return_stagnation <= seen.len(),
                state.bookkeeping().patience_stagnation <= seen.len(),
                is_search_course(rule, source, patience, return_iter, initial, n_iter as nat, seen),
                seen.len() == 0 || exists|elapsed: Duration|
                    !(#[trigger] limit_reached(elapsed, time_limit)),
            ensures
                seen.len() == n_iter || (seen.len() > 0 && exhausted(
                    state.bookkeeping(),
                    patience,
                )) || exists|elapsed: Duration| #[trigger] limit_reached(elapsed, time_limit),
            decreases n_iter - it,
        {
            let duration = elapsed_since(&start_time);
            if reached(&duration, &time_limit) {
                assert(limit_reached(duration, time_limit));
                break ;
            }
            assert(!limit_reached(duration, time_limit));
            let mut trials = generate_trials(
                model,
                state.current_solution(),
                state.current_score(),
                self.n_trials,
            );
            let ghost offer = trials@;
            let place = best_trial(&trials);
            let (trial_solution, _, trial_score) = trials.swap_remove(place);

            let current_score = state.current_score();
            let accepted = if is_better(trial_score, current_score) {
                true
            } else {
                let p = (self.score_func)(current_score, trial_score);
                let draw: u64 = uniform_draw();
                p.admits(draw)
            };
            let ghost next = Observation { solution: trial_solution, score: trial_score, accepted };
            proof {
                assert(admissible(&self.score_func, current_score, trial_score, accepted));
                assert(is_offer(model, self.n_trials as nat, state.bookkeeping().current, offer));
                assert(is_first_minimum(trial_scores(offer), place as int));
                assert(is_best_offer(
                    model,
                    self.n_trials as nat,
                    state.bookkeeping().current,
                    (trial_solution, trial_score),
                ));
                lemma_course_extends(
                    rule,
                    source,
                    patience,
                    return_iter,
                    initial,
                    n_iter as nat,
                    seen,
                    next,
                );
                seen = seen.push(next);
            }
            state.advance(trial_solution, trial_score, accepted, self.return_iter);

            if state.gives_up(self.patience) {
                break ;
            }
            let ratio = state.acceptance_counter().acceptance_ratio();
            let progress = OptProgress::new(it, ratio, state.best(), state.best_score());
            callback(progress);
            it = it + 1;
        }
        proof {
            lemma_replay_keeps_order(start(initial.0, initial.1), seen, return_iter);
        }
        let result = state.into_result();
        proof {
            assert(is_search_run(
                rule_of(&self.score_func()),
                offers_of(model, self.n_trials() as nat),
                self.patience() as nat,
                self.return_iter() as nat,
                (initial_solution, initial_score),
                n_iter as nat,
                time_limit,
                seen,
            ));
        }
        result
    }
}

impl<ST, FT, M> LocalSearchOptimizer<M> for GenericLocalSearchOptimizer<ST, FT> where
    ST: Ord + Sync + Send + Copy,
    FT: TransitionProbabilityFn<ST>,
    M: OptModel<ScoreType = ST>,
 {
    open spec fn can_return(
        &self,
        model: &M,
        initial: (M::SolutionType, M::ScoreType),
        n_iter: usize,
        time_limit: Duration,
        result: (M::SolutionType, M::ScoreType),
    ) -> bool {
        is_search_result(
            rule_of(&self.score_func()),
            offers_of(model, self.n_trials() as nat),
            self.patience() as nat,
            self.return_iter() as nat,
            initial,
            n_iter as nat,
            time_limit,
            result,
        )
    }

    /// Start optimization
    ///
    /// - `model` : the model to optimize
    /// - `initial_solution` : the initial solution to start optimization.
    /// - `initial_score` : the initial score of the initial solution
    /// - `n_iter`: maximum iterations
    /// - `time_limit`: maximum iteration time
    /// - `callback` : callback function that will be invoked at the end of each iteration
    fn optimize<C: OptCallbackFn<M::SolutionType, M::ScoreType>>(
        &self,
        model: &M,
        initial_solution: M::SolutionType,
        initial_score: M::ScoreType,
        n_iter: usize,
        time_limit: Duration,
        callback: &C,
    ) -> (result: (M::SolutionType, M::ScoreType))
        ensures
            is_search_result(
                rule_of(&self.score_func()),
                offers_of(model, self.n_trials() as nat),
                self.patience() as nat,
                self.return_iter() as nat,
                (initial_solution, initial_score),
                n_iter as nat,
                time_limit,
                result,
            ),
    {
        let step_result = self.step(
            model,
            initial_solution,
            initial_score,
            n_iter,
            time_limit,
            callback,
        );
        proof {
            lemma_step_result_reports_best(
                rule_of(&self.score_func()),
                offers_of(model, self.n_trials() as nat),
                self.patience() as nat,
                self.return_iter() as nat,
                (initial_solution, initial_score),
                n_iter as nat,
                time_limit,
                step_result,
            );
        }
        (step_result.best_solution, step_result.best_score)
    }
}

} // verus!
