//! Population annealing: a population of searches at a shared
//! temperature that is resampled after every round.

use crate::callback::{accepts_all_progress, OptCallbackFn, OptProgress};
use crate::clock::{elapsed_since, limit_reached, now, reached, remaining, time_left};
use crate::model::{generate_trials, is_offer, OptModel, Trial};
use crate::optim::base::{defined_for_all, IndexedProbabilityFn, LocalSearchOptimizer};
use crate::optim::bookkeeping::StepResult;
use crate::optim::generic::{best_trial, is_first_minimum, trial_scores};
use crate::optim::rounds::{
    best_result, book_before, first_round, is_member_result, is_round_best, is_rounds_course,
    is_sent_back, last_states, lemma_member_result_order, lemma_round_replay_keeps_order,
    lemma_rounds_course_extends, member_round, round_bests, round_observe, round_returns,
    rounds_stop_duly, send_back, take_in_round, Round, RoundBook, RoundKeeper,
};
use crate::order::{
    better, is_better, lemma_better_asymmetric, lemma_better_irreflexive,
    lemma_not_better_transitive, totally_ordered,
};
use rayon::iter::{IntoParallelRefIterator, ParallelIterator};
use std::marker::PhantomData;
use std::time::Duration;
use vstd::prelude::*;

verus! {

/// Resampling function: from the number of the round and the scores of the
/// population to the places of the members that make up the next
/// population, one place for each of its members. A member may be picked
/// any number of times.
pub trait ResamplingFn<ST>: for <'a>Fn(usize, &'a Vec<ST>) -> Vec<usize> {

}

impl<F, ST> ResamplingFn<ST> for F where F: for <'a>Fn(usize, &'a Vec<ST>) -> Vec<usize> {

}

/// The function may be called on every round and population.
pub open spec fn resamples_all<ST, FR: ResamplingFn<ST>>(resample: &FR) -> bool {
    forall|round: usize, scores: &Vec<ST>| call_requires(*resample, (round, scores))
}

/// The picks name one member of a population of `size` for each of its
/// places.
pub open spec fn names_members(picks: Seq<usize>, size: nat) -> bool {
    &&& picks.len() == size
    &&& forall|i: int| 0 <= i < picks.len() ==> picks[i] < size
}

/// Whether the picks name one member of a population of `size` for each
/// of its places.
pub fn check_picks(picks: &Vec<usize>, size: usize) -> (valid: bool)
    ensures
        valid == names_members(picks@, size as nat),
{
    if picks.len() != size {
        return false;
    }
    let mut k: usize = 0;
    while k < picks.len()
        invariant
            picks@.len() == size,
            0 <= k <= picks@.len(),
            forall|i: int| 0 <= i < k ==> picks@[i] < size,
        decreases picks@.len() - k,
    {
        if picks[k] >= size {
            return false;
        }
        k = k + 1;
    }
    true
}

/// `population` is `members` resampled by `picks`: each place holds the
/// score of the member that was picked for it, and its solution or a
/// clone of it.
pub open spec fn is_resampling<S: Clone, ST>(
    members: Seq<(S, ST)>,
    picks: Seq<usize>,
    population: Seq<(S, ST)>,
) -> bool {
    &&& population.len() == picks.len()
    &&& forall|i: int|
        #![trigger population[i]]
        0 <= i < picks.len() ==> {
            &&& population[i].1 == members[picks[i] as int].1
            &&& cloned(members[picks[i] as int].0, population[i].0)
        }
}

/// The population that the picks make of the members: with replacement,
/// in the order of the picks.
pub fn resampled<S: Clone, ST: Copy>(members: &Vec<(S, ST)>, picks: &Vec<usize>) -> (population:
    Vec<(S, ST)>)
    requires
        forall|i: int| 0 <= i < picks@.len() ==> picks@[i] < members@.len(),
    ensures
        is_resampling(members@, picks@, population@),
{
    let mut population: Vec<(S, ST)> = Vec::new();
    let mut k: usize = 0;
    while k < picks.len()
        invariant
            forall|i: int| 0 <= i < picks@.len() ==> picks@[i] < members@.len(),
            0 <= k <= picks@.len(),
            is_resampling(members@, picks@.take(k as int), population@),
        decreases picks@.len() - k,
    {
        let pick = picks[k];
        let solution = members[pick].0.clone();
        let score = members[pick].1;
        population.push((solution, score));
        k = k + 1;
    }
    proof {
        assert(picks@.take(k as int) =~= picks@);
    }
    population
}

/// The scores of the members of a population.
pub open spec fn member_scores<S, ST>(population: Seq<(S, ST)>) -> Seq<ST> {
    population.map_values(|member: (S, ST)| member.1)
}

/// The scores of the members of a population.
pub fn scores_of<S, ST: Copy>(population: &Vec<(S, ST)>) -> (scores: Vec<ST>)
    ensures
        scores@ == member_scores(population@),
{
    let mut scores: Vec<ST> = Vec::new();
    let mut k: usize = 0;
    while k < population.len()
        invariant
            0 <= k <= population@.len(),
            scores@ == member_scores(population@.take(k as int)),
        decreases population@.len() - k,
    {
        scores.push(population[k].1);
        proof {
            assert(member_scores(population@.take(k + 1)) =~= member_scores(
                population@.take(k as int),
            ).push(population@[k as int].1));
        }
        k = k + 1;
    }
    proof {
        assert(population@.take(k as int) =~= population@);
    }
    scores
}

/// The solutions and scores of a sequence of trials.
pub open spec fn trial_states<S, T, ST>(trials: Seq<(S, T, ST)>) -> Seq<(S, ST)> {
    trials.map_values(|trial: (S, T, ST)| (trial.0, trial.2))
}

/// The population that a sequence of trials makes.
pub fn members_of<S, T, ST>(trials: Vec<(S, T, ST)>) -> (population: Vec<(S, ST)>)
    ensures
        population@ == trial_states(trials@),
{
    let ghost all = trials@;
    let total = trials.len();
    let mut population: Vec<(S, ST)> = Vec::new();
    let mut k: usize = 0;
    for trial in iter: trials
        invariant
            all == iter.seq(),
            k == iter.index(),
            k <= all.len() == total,
            population@ == trial_states(all.take(k as int)),
    {
        proof {
            assert(trial_states(all.take(k + 1)) =~= trial_states(all.take(k as int)).push(
                (all[k as int].0, all[k as int].2),
            ));
        }
        population.push((trial.0, trial.2));
        k = k + 1;
    }
    proof {
        assert(all.take(k as int) =~= all);
    }
    population
}

/// `picked` is the population that the resampling function can make of
/// `members` after round `round`: it is asked with the scores of the
/// members; picks that name a member for each place resample the
/// members, any other picks leave them as they are.
pub open spec fn is_picked<S: Clone, ST, FR: ResamplingFn<ST>>(
    resample: &FR,
    round: usize,
    members: Seq<(S, ST)>,
    picked: Seq<(S, ST)>,
) -> bool {
    exists|scores: Vec<ST>, picks: Vec<usize>|
        {
            &&& scores@ == member_scores(members)
            &&& #[trigger] call_ensures(*resample, (round, &scores), picks)
            &&& if names_members(picks@, members.len()) {
                is_resampling(members, picks@, picked)
            } else {
                picked == members
            }
        }
}

/// The population that the resampling function makes of the members
/// after round `round`.
pub fn repopulate<S: Clone, ST: Copy, FR: ResamplingFn<ST>>(
    resample: &FR,
    round: usize,
    members: Vec<(S, ST)>,
) -> (population: Vec<(S, ST)>)
    requires
        resamples_all(resample),
    ensures
        is_picked(resample, round, members@, population@),
        population@.len() == members@.len(),
{
    let scores = scores_of(&members);
    let picks = resample(round, &scores);
    assert(call_ensures(*resample, (round, &scores), picks));
    if check_picks(&picks, members.len()) {
        resampled(&members, &picks)
    } else {
        members
    }
}

/// `first` and `seed` are what population annealing starts from: the
/// first population is made of as many trials around the initial solution
/// as the population has members; the best solution to start with is the
/// first of the best among them, where that is strictly better than the
/// initial solution, and else the initial solution.
pub open spec fn is_annealing_seed<M: OptModel>(
    model: &M,
    population_size: usize,
    initial: (M::SolutionType, M::ScoreType),
    first: Seq<(M::SolutionType, M::ScoreType)>,
    seed: (M::SolutionType, M::ScoreType),
) -> bool {
    exists|offer: Seq<Trial<M>>, place: int|
        {
            &&& #[trigger] is_offer(model, population_size as nat, initial, offer)
            &&& first == trial_states(offer)
            &&& #[trigger] is_first_minimum(trial_scores(offer), place)
            &&& if better(offer[place].2, initial.1) {
                seed.1 == offer[place].2 && cloned(offer[place].0, seed.0)
            } else {
                seed == initial
            }
        }
}

/// The members ran their steps of round `round` with the acceptance
/// probabilities of the round, from where they stood, without giving up
/// or returning, in the time that a reading of `elapsed` left of the time
/// limit.
pub open spec fn population_ran<M: OptModel, FA: IndexedProbabilityFn<M::ScoreType>>(
    model: &M,
    acceptance: &FA,
    n_trials: usize,
    update_frequency: usize,
    time_limit: Duration,
    elapsed: Duration,
    round: usize,
    before: Seq<(M::SolutionType, M::ScoreType)>,
    results: Seq<StepResult<M::SolutionType, M::ScoreType>>,
) -> bool {
    &&& !limit_reached(elapsed, time_limit)
    &&& results.len() == before.len()
    &&& forall|i: int|
        0 <= i < before.len() ==> is_member_result(
            model,
            acceptance,
            round,
            n_trials,
            usize::MAX,
            usize::MAX,
            update_frequency,
            time_left(time_limit, elapsed),
            before[i],
            #[trigger] results[i],
        )
}

/// Whether a round is one that population annealing can make, given its
/// number and the book before it.
///
/// The clock had not reached the time limit, and every member ran its
/// steps in the time that was left, with the acceptance probabilities of
/// the round, from where it stood, without giving up or returning. The
/// round's best is the best of the first of the best results. The
/// resampling function then makes the next population of where the steps
/// ended; where the return stagnation has reached `return_iter`, one of
/// its members is sent back to the best solution.
pub open spec fn is_annealing_round<
    M: OptModel,
    FA: IndexedProbabilityFn<M::ScoreType>,
    FR: ResamplingFn<M::ScoreType>,
>(
    model: &M,
    acceptance: &FA,
    resample: &FR,
    n_trials: usize,
    population_size: usize,
    return_iter: usize,
    update_frequency: usize,
    time_limit: Duration,
    number: int,
    before: RoundBook<M::SolutionType, M::ScoreType>,
    round: Round<M::SolutionType, M::ScoreType>,
) -> bool {
    let after = round_observe(before, round.round_best, update_frequency, return_iter, true);
    &&& 0 <= number <= usize::MAX
    &&& exists|elapsed: Duration| #[trigger]
        population_ran(
            model,
            acceptance,
            n_trials,
            update_frequency,
            time_limit,
            elapsed,
            number as usize,
            round.before,
            round.results,
        )
    &&& is_round_best(round.results, round.round_best)
    &&& exists|picked: Seq<(M::SolutionType, M::ScoreType)>|
        {
            &&& #[trigger] is_picked(
                resample,
                number as usize,
                last_states(round.results),
                picked,
            )
            &&& if round_returns(
                before,
                round.round_best.1,
                update_frequency,
                return_iter,
                true,
            ) {
                is_sent_back(picked, after.best, round.after)
            } else {
                round.after == picked
            }
        }
}

/// The rounds that population annealing can make, as a relation between
/// the number of a round, the book before it and the round.
pub open spec fn annealing_rounds<
    M: OptModel,
    FA: IndexedProbabilityFn<M::ScoreType>,
    FR: ResamplingFn<M::ScoreType>,
>(
    model: &M,
    acceptance: &FA,
    resample: &FR,
    n_trials: usize,
    population_size: usize,
    return_iter: usize,
    update_frequency: usize,
    time_limit: Duration,
) -> spec_fn(
    int,
    RoundBook<M::SolutionType, M::ScoreType>,
    Round<M::SolutionType, M::ScoreType>,
) -> bool {
    |
        number: int,
        before: RoundBook<M::SolutionType, M::ScoreType>,
        round: Round<M::SolutionType, M::ScoreType>,
    |
        is_annealing_round(
            model,
            acceptance,
            resample,
            n_trials,
            population_size,
            return_iter,
            update_frequency,
            time_limit,
            number,
            before,
            round,
        )
}

/// `result` is what population annealing with the given parameters can
/// return: the best solution, with its score, of a course of rounds from
/// the first population and the best solution to start with. A round
/// that improves on the best counts as stagnant all the same.
pub open spec fn is_annealing_result<
    M: OptModel,
    FA: IndexedProbabilityFn<M::ScoreType>,
    FR: ResamplingFn<M::ScoreType>,
>(
    model: &M,
    acceptance: &FA,
    resample: &FR,
    n_trials: usize,
    population_size: usize,
    patience: usize,
    return_iter: usize,
    update_frequency: usize,
    initial: (M::SolutionType, M::ScoreType),
    n_iter: usize,
    time_limit: Duration,
    result: (M::SolutionType, M::ScoreType),
) -> bool {
    exists|
        first: Seq<(M::SolutionType, M::ScoreType)>,
        seed: (M::SolutionType, M::ScoreType),
        rounds: Seq<Round<M::SolutionType, M::ScoreType>>,
    |
        {
            &&& is_annealing_seed(model, population_size, initial, first, seed)
            &&& #[trigger] is_rounds_course(
                annealing_rounds(
                    model,
                    acceptance,
                    resample,
                    n_trials,
                    population_size,
                    return_iter,
                    update_frequency,
                    time_limit,
                ),
                first,
                patience,
                return_iter,
                update_frequency,
                true,
                seed,
                n_iter,
                rounds,
            )
            &&& rounds_stop_duly(
                patience,
                return_iter,
                update_frequency,
                true,
                seed,
                n_iter,
                time_limit,
                rounds,
            )
            &&& result == book_before(
                seed,
                rounds,
                rounds.len() as int,
                update_frequency,
                return_iter,
                true,
            ).best
        }
}

/// Optimizer that implements the population annealing algorithm
/// It runs multiple annealing processes and periodically updates the population
/// by discarding bad candidates and copying good ones.
///
/// The schedule is given by two functions: `acceptance` tells, for the
/// number of a round, with what probability a member accepts a trial that
/// does not improve on its current solution; `resample` picks, for the
/// number of a round and the scores of the population after it, the
/// members of the next population. Picks that do not name a member for
/// each place leave the population as the round left it. Patience and
/// the return to the best solution are kept for the population as a
/// whole: after `return_iter` iterations without improvement, a member
/// chosen at random is replaced by the best solution.
pub struct PopulationAnnealingOptimizer<
    ST: Ord + Sync + Send + Copy,
    FA: IndexedProbabilityFn<ST>,
    FR: ResamplingFn<ST>,
> {
    /// The optimizer will give up if there is no improvement of the score after this number of iterations
    patience: usize,
    /// Number of trial solutions to generate and evaluate at each iteration
    n_trials: usize,
    /// A member returns to the best solution if there is no improvement after this number of iterations
    return_iter: usize,
    /// Number of steps to run each annealing process before updating the population
    update_frequency: usize,
    /// Number of annealing processes to run in parallel
    population_size: usize,
    acceptance: FA,
    resample: FR,
    phantom: PhantomData<ST>,
}

impl<
    ST: Ord + Sync + Send + Copy,
    FA: IndexedProbabilityFn<ST>,
    FR: ResamplingFn<ST>,
> PopulationAnnealingOptimizer<ST, FA, FR> {
    /// Iterations without improvement after which the search gives up.
    pub closed spec fn patience(&self) -> usize {
        self.patience
    }

    /// Number of trial solutions generated at each iteration.
    pub closed spec fn n_trials(&self) -> usize {
        self.n_trials
    }

    /// Iterations without improvement after which a member returns to
    /// the best solution.
    pub closed spec fn return_iter(&self) -> usize {
        self.return_iter
    }

    /// Number of steps per member between two updates of the population.
    pub closed spec fn update_frequency(&self) -> usize {
        self.update_frequency
    }

    /// Number of members of the population.
    pub closed spec fn population_size(&self) -> usize {
        self.population_size
    }

    /// The acceptance probabilities of the rounds.
    pub closed spec fn acceptance(&self) -> FA {
        self.acceptance
    }

    /// The resampling function.
    pub closed spec fn resample(&self) -> FR {
        self.resample
    }

    /// There is a member, a trial per step and a step per round, and the
    /// two functions of the schedule are defined everywhere.
    #[verifier::type_invariant]
    pub closed spec fn usable(&self) -> bool {
        &&& self.n_trials > 0
        &&& self.population_size > 0
        &&& self.update_frequency > 0
        &&& defined_for_all(&self.acceptance)
        &&& resamples_all(&self.resample)
    }

    /// Constructor of PopulationAnnealingOptimizer
    ///
    /// - `patience` : the optimizer will give up
    ///   if there is no improvement of the score after this number of iterations
    /// - `n_trials` : number of trial solutions to generate and evaluate at each iteration
    /// - `return_iter` : a member returns to the best solution if there is no improvement after this number of iterations
    /// - `acceptance` : acceptance probabilities, round by round
    /// - `resample` : resampling function
    /// - `update_frequency` : number of steps to run each annealing process before updating the population
    /// - `population_size` : number of annealing processes to run in parallel
    pub fn new(
        patience: usize,
        n_trials: usize,
        return_iter: usize,
        acceptance: FA,
        resample: FR,
        update_frequency: usize,
        population_size: usize,
    ) -> (optimizer: Self)
        requires
            n_trials > 0,
            population_size > 0,
            update_frequency > 0,
            defined_for_all(&acceptance),
            resamples_all(&resample),
        ensures
            optimizer.patience() == patience,
            optimizer.n_trials() == n_trials,
            optimizer.return_iter() == return_iter,
            optimizer.update_frequency() == update_frequency,
            optimizer.population_size() == population_size,
            optimizer.acceptance() == acceptance,
            optimizer.resample() == resample,
    {
        Self {
            patience,
            n_trials,
            return_iter,
            update_frequency,
            population_size,
            acceptance,
            resample,
            phantom: PhantomData,
        }
    }

    /// The Metropolis steps of round `round` for one member, from a clone
    /// of its solution.
    pub fn member_step<M: OptModel<ScoreType = ST>>(
        &self,
        model: &M,
        round: usize,
        solution: &M::SolutionType,
        score: ST,
        time_limit: Duration,
    ) -> (result: StepResult<M::SolutionType, ST>)
        requires
            totally_ordered::<ST>(),
        ensures
            is_member_result(
                model,
                &self.acceptance(),
                round,
                self.n_trials(),
                usize::MAX,
                usize::MAX,
                self.update_frequency(),
                time_limit,
                (*solution, score),
                result,
            ),
    {
        proof {
            use_type_invariant(self);
        }
        member_round(
            model,
            &self.acceptance,
            round,
            self.n_trials,
            usize::MAX,
            usize::MAX,
            self.update_frequency,
            solution,
            score,
            time_limit,
        )
    }

    /// One round for every member: the Metropolis steps of each, on the
    /// workers of rayon's pool. A parallel iterator over the population,
    /// mapped and collected into a vector, gives one result per member, in
    /// order: each is what `member_step` returned for the member.
    #[verifier::external_body]
    fn run_members<M: OptModel<ScoreType = ST>>(
        &self,
        model: &M,
        round: usize,
        population: &Vec<(M::SolutionType, ST)>,
        time_limit: Duration,
    ) -> (results: Vec<StepResult<M::SolutionType, ST>>) where FA: Sync, FR: Sync
        requires
            totally_ordered::<ST>(),
        ensures
            results@.len() == population@.len(),
            forall|i: int|
                0 <= i < population@.len() ==> is_member_result(
                    model,
                    &self.acceptance(),
                    round,
                    self.n_trials(),
                    usize::MAX,
                    usize::MAX,
                    self.update_frequency(),
                    time_limit,
                    population@[i],
                    #[trigger] results@[i],
                ),
    {
        population.par_iter().map(
            |member| self.member_step(model, round, &member.0, member.1, time_limit),
        ).collect()
    }
}

impl<ST, FA, FR, M> LocalSearchOptimizer<M> for PopulationAnnealingOptimizer<ST, FA, FR> where
    ST: Ord + Sync + Send + Copy,
    FA: IndexedProbabilityFn<ST> + Sync,
    FR: ResamplingFn<ST> + Sync,
    M: OptModel<ScoreType = ST>,
 {
    open spec fn can_return(
        &self,
        model: &M,
        initial: (M::SolutionType, M::ScoreType),
        n_iter: usize,
        time_limit: Duration,
        result: (M::SolutionType, M::ScoreType),
    ) -> bool {
        is_annealing_result(
            model,
            &self.acceptance(),
            &self.resample(),
            self.n_trials(),
            self.population_size(),
            self.patience(),
            self.return_iter(),
            self.update_frequency(),
            initial,
            n_iter,
            time_limit,
            result,
        )
    }

    /// Start optimization
    ///
    /// - `model`: the model to optimize
    /// - `initial_solution`: the solution from which the first population is generated
    /// - `initial_score`: the initial score of the initial solution
    /// - `n_iter`: maximum iterations
    /// - `time_limit`: maximum iteration time
    /// - `callback`: callback function that will be invoked at the end of each iteration
    fn optimize<C: OptCallbackFn<M::SolutionType, M::ScoreType>>(
        &self,
        model: &M,
        initial_solution: M::SolutionType,
        initial_score: M::ScoreType,
        n_iter: usize,
        time_limit: Duration,
        callback: &C,
    ) -> (result: (M::SolutionType, M::ScoreType)) {
        proof {
            use_type_invariant(self);
        }
        let start_time = now();
        let size = self.population_size;
        let ghost initial = (initial_solution, initial_score);

        // Initialize population with trials around the initial solution
        let trials = generate_trials(model, &initial_solution, initial_score, size);
        let ghost offer = trials@;
        let chosen = best_trial(&trials);
        let mut population = members_of(trials);

        // Track the best solution found: a better one of the initial population, if there is one
        let mut keeper = if is_better(population[chosen].1, initial_score) {
            RoundKeeper::new(population[chosen].0.clone(), population[chosen].1)
        } else {
            RoundKeeper::new(initial_solution, initial_score)
        };
        let ghost seed = keeper.book().best;
        let ghost first = population@;
        let ghost mut rounds: Seq<Round<M::SolutionType, ST>> = Seq::empty();
        let ghost uf = self.update_frequency;
        let ghost ri = self.return_iter;
        let ghost valid = annealing_rounds(
            model,
            &self.acceptance,
            &self.resample,
            self.n_trials,
            size,
            ri,
            uf,
            time_limit,
        );
        proof {
            assert(is_first_minimum(trial_scores(offer), chosen as int));
            assert(first[chosen as int] == (offer[chosen as int].0, offer[chosen as int].2));
            assert(is_annealing_seed(model, size, initial, first, seed));
            assert(round_bests(rounds).take(0) =~= Seq::<(M::SolutionType, ST)>::empty());
            lemma_better_irreflexive(initial_score);
            if seed != initial {
                lemma_better_asymmetric(seed.1, initial.1);
            }
        }
        let mut round: usize = 0;

        // Main optimization loop
        while keeper.iter() < n_iter
            invariant_except_break
                keeper.book().patience_stagnation < self.patience || rounds.len() == 0,
                population@ == if rounds.len() == 0 {
                    first
                } else {
                    rounds.last().after
                },
                round <= keeper.book().iter,
            invariant
                totally_ordered::<ST>(),
                accepts_all_progress(callback),
                self.usable(),
                uf == self.update_frequency,
                ri == self.return_iter,
                size == self.population_size,
                initial == (initial_solution, initial_score),
                !better(initial.1, seed.1),
                valid == annealing_rounds(
                    model,
                    &self.acceptance,
                    &self.resample,
                    self.n_trials,
                    size,
                    ri,
                    uf,
                    time_limit,
                ),
                round == rounds.len(),
                population@.len() > 0,
                keeper.book() == book_before(seed, rounds, rounds.len() as int, uf, ri, true),
                is_rounds_course(valid, first, self.patience, ri, uf, true, seed, n_iter, rounds),
                rounds.len() == 0 || exists|elapsed: Duration|
                    !(#[trigger] limit_reached(elapsed, time_limit)),
            ensures
                keeper.book().iter >= n_iter || (rounds.len() > 0
                    && keeper.book().patience_stagnation >= self.patience) || exists|
                    elapsed: Duration,
                | #[trigger] limit_reached(elapsed, time_limit),
            decreases
                    if keeper.book().iter < n_iter {
                        n_iter - keeper.book().iter
                    } else {
                        0
                    },
        {
            let duration = elapsed_since(&start_time);
            if reached(&duration, &time_limit) {
                assert(limit_reached(duration, time_limit));
                break ;
            }
            assert(!limit_reached(duration, time_limit));
            // Process each member of the population
            let time_remaining = remaining(&time_limit, &duration);
            let step_results = self.run_members(model, round, &population, time_remaining);
            let ghost before = population@;
            let ghost results = step_results@;
            let ghost book = keeper.book();

            // Update best solution and score
            let place = best_result(&step_results);
            let round_score = step_results[place].best_score;
            proof {
                assert forall|i: int| 0 <= i < results.len() implies (
                #[trigger] results[i]).acceptance_counter.wf() by {
                    lemma_member_result_order(
                        model,
                        &self.acceptance,
                        round,
                        self.n_trials,
                        usize::MAX,
                        usize::MAX,
                        uf,
                        time_remaining,
                        before[i],
                        results[i],
                    );
                }
            }
            let (members, round_solution, acceptance_ratio) = take_in_round(step_results, place);
            let ghost round_best = (round_solution, round_score);
            let goes_back = keeper.observe(
                round_solution,
                round_score,
                self.update_frequency,
                self.return_iter,
                true,
            );

            // Population update: resample the members of the next population
            population = repopulate(&self.resample, round, members);
            let ghost picked = population@;

            // Check and handle return to best
            if goes_back {
                send_back(&mut population, keeper.best(), keeper.best_score());
            }
            proof {
                let next = Round { before, results, round_best, after: population@ };
                assert(is_round_best(results, round_best));
                assert(round_observe(book, round_best, uf, ri, true) == keeper.book());
                assert(is_picked(&self.resample, round, last_states(next.results), picked));
                assert(next.results.len() == next.before.len());
                let number = round as int;
                assert(number as usize == round);
                assert(population_ran(
                    model,
                    &self.acceptance,
                    self.n_trials,
                    uf,
                    time_limit,
                    duration,
                    number as usize,
                    next.before,
                    next.results,
                ));
                assert(is_picked(&self.resample, number as usize, last_states(next.results), picked));
                assert(if round_returns(book, round_best.1, uf, ri, true) {
                    is_sent_back(picked, keeper.book().best, next.after)
                } else {
                    next.after == picked
                });
                assert(is_annealing_round(
                    model,
                    &self.acceptance,
                    &self.resample,
                    self.n_trials,
                    size,
                    ri,
                    uf,
                    time_limit,
                    round as int,
                    book,
                    next,
                ));
                lemma_rounds_course_extends(
                    valid,
                    first,
                    self.patience,
                    ri,
                    uf,
                    true,
                    seed,
                    n_iter,
                    rounds,
                    next,
                );
                rounds = rounds.push(next);
            }
            round = round + 1;

            // Check patience
            if keeper.gives_up(self.patience) {
                break ;
            }
            // Invoke callback
            let progress = OptProgress::new(
                keeper.iter(),
                acceptance_ratio,
                keeper.best(),
                keeper.best_score(),
            );
            callback(progress);
        }
        proof {
            lemma_round_replay_keeps_order(
                first_round(seed.0, seed.1),
                round_bests(rounds),
                uf,
                ri,
                true,
            );
            assert(round_bests(rounds).take(rounds.len() as int) =~= round_bests(rounds));
            lemma_not_better_transitive(initial_score, seed.1, keeper.book().best.1);
            assert(is_rounds_course(
                annealing_rounds(
                    model,
                    &self.acceptance(),
                    &self.resample(),
                    self.n_trials(),
                    self.population_size(),
                    self.return_iter(),
                    self.update_frequency(),
                    time_limit,
                ),
                first,
                self.patience(),
                self.return_iter(),
                self.update_frequency(),
                true,
                seed,
                n_iter,
                rounds,
            ));
            assert(rounds_stop_duly(
                self.patience(),
                self.return_iter(),
                self.update_frequency(),
                true,
                seed,
                n_iter,
                time_limit,
                rounds,
            ));
            assert(is_annealing_seed(model, self.population_size(), initial, first, seed));
        }
        keeper.into_best()
    }
}

} // verus!
