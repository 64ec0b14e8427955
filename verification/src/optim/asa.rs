//! Annealing that starts over when it stagnates.

use crate::callback::{accepts_all_progress, OptCallbackFn, OptProgress};
use crate::clock::{elapsed_since, limit_reached, now, reached};
use crate::counter::AcceptanceRatio;
use crate::model::{generate_trials, is_offer, OptModel};
use crate::optim::base::{
    callable_at, defined_for_all, drawn_from, gives, IndexedProbabilityFn, LocalSearchOptimizer,
};
use crate::optim::generic::{best_trial, is_best_offer, is_first_minimum, offers_of, trial_scores};
use crate::order::{
    better, is_better, lemma_better_asymmetric, lemma_better_irreflexive,
    lemma_not_better_transitive, totally_ordered,
};
use crate::probability::uniform_draw;
use std::marker::PhantomData;
use std::time::Duration;
use vstd::prelude::*;

verus! {

/// What a reannealing search remembers from one iteration to the next.
pub struct AnnealingBook<S, ST> {
    /// The solution the next trials start from, with its score.
    pub current: (S, ST),
    /// The best solution seen so far, with its score.
    pub best: (S, ST),
    /// Iterations without improvement since the last improvement.
    pub stagnation: nat,
    /// Iterations since the schedule was last started.
    pub schedule_step: nat,
}

/// The book at the start of a search.
pub open spec fn annealing_start<S, ST>(solution: S, score: ST) -> AnnealingBook<S, ST> {
    AnnealingBook {
        current: (solution, score),
        best: (solution, score),
        stagnation: 0,
        schedule_step: 0,
    }
}

/// Whether the search starts over at a stagnation of `stagnation`
/// iterations: at every positive multiple of the interval, and never at
/// interval zero.
pub open spec fn reanneals(stagnation: nat, reanneal_interval: nat) -> bool {
    reanneal_interval > 0 && stagnation > 0 && stagnation % reanneal_interval == 0
}

/// The book after one more iteration.
///
/// An accepted trial becomes the current solution. A current solution
/// that is strictly better than the best replaces it and clears the
/// stagnation; otherwise the stagnation grows by one. The schedule moves
/// on by one step. At a stagnation that is a positive multiple of
/// `reanneal_interval` the search starts over: it goes back to the best
/// solution and to the start of its schedule. At a stagnation of
/// `return_iter` it goes back to the best solution as well.
pub open spec fn reannealing_observe<S, ST: Ord>(
    before: AnnealingBook<S, ST>,
    trial: (S, ST),
    accepted: bool,
    return_iter: nat,
    reanneal_interval: nat,
) -> AnnealingBook<S, ST> {
    let current = if accepted {
        trial
    } else {
        before.current
    };
    let improved = better(current.1, before.best.1);
    let best = if improved {
        current
    } else {
        before.best
    };
    let stagnation = if improved {
        0
    } else {
        before.stagnation + 1
    };
    let restart = reanneals(stagnation, reanneal_interval);
    AnnealingBook {
        current: if restart || stagnation == return_iter {
            best
        } else {
            current
        },
        best,
        stagnation,
        schedule_step: if restart {
            0
        } else {
            before.schedule_step + 1
        },
    }
}

/// What one iteration of a reannealing search brings.
pub struct Annealed<S, ST> {
    /// The trial solution with its score.
    pub trial: (S, ST),
    /// Whether the trial replaces the current solution.
    pub accepted: bool,
}

/// The book after a sequence of iterations.
pub open spec fn reannealing_replay<S, ST: Ord>(
    before: AnnealingBook<S, ST>,
    seen: Seq<Annealed<S, ST>>,
    return_iter: nat,
    reanneal_interval: nat,
) -> AnnealingBook<S, ST>
    decreases seen.len(),
{
    if seen.len() == 0 {
        before
    } else {
        reannealing_observe(
            reannealing_replay(before, seen.drop_last(), return_iter, reanneal_interval),
            seen.last().trial,
            seen.last().accepted,
            return_iter,
            reanneal_interval,
        )
    }
}

/// The place in the schedule whose temperature an iteration uses: the
/// schedule advances only after the second iteration since its start.
pub open spec fn schedule_place(schedule_step: nat) -> nat {
    if schedule_step == 0 {
        0
    } else {
        (schedule_step - 1) as nat
    }
}

/// Whether accepting or rejecting a trial agrees with the annealing rule
/// at place `place` of the schedule: a trial that is not worse than the
/// current solution is accepted, any other exactly if the probability
/// that the schedule gives for it admits a uniform draw.
pub open spec fn annealed_by<ST: Ord + Sync + Send + Copy, FA: IndexedProbabilityFn<ST>>(
    acceptance: &FA,
    place: nat,
    current: ST,
    trial: ST,
    accepted: bool,
) -> bool {
    if !better(current, trial) {
        accepted
    } else {
        place <= usize::MAX && drawn_from(acceptance, place as usize, current, trial, accepted)
    }
}

/// `seen` is a course that the reannealing search can take from
/// `initial`: it has at most `n_iter` iterations, every trial in it comes
/// from `source` for the solution that was current, every decision
/// agrees with the annealing rule at its place of the schedule, and no
/// iteration follows one after which the stagnation stood at `patience`.
pub open spec fn is_reannealing_course<
    S,
    ST: Ord + Sync + Send + Copy,
    FA: IndexedProbabilityFn<ST>,
>(
    acceptance: &FA,
    source: spec_fn((S, ST), (S, ST)) -> bool,
    patience: nat,
    return_iter: nat,
    reanneal_interval: nat,
    initial: (S, ST),
    n_iter: nat,
    seen: Seq<Annealed<S, ST>>,
) -> bool {
    &&& seen.len() <= n_iter
    &&& forall|k: int|
        0 <= k < seen.len() ==> {
            let before = #[trigger] reannealing_replay(
                annealing_start(initial.0, initial.1),
                seen.take(k),
                return_iter,
                reanneal_interval,
            );
            &&& k > 0 ==> before.stagnation != patience
            &&& source(before.current, seen[k].trial)
            &&& annealed_by(
                acceptance,
                schedule_place(before.schedule_step),
                before.current.1,
                seen[k].trial.1,
                seen[k].accepted,
            )
        }
}

/// The course ends where a reannealing search ends: when its iterations
/// are used up, after an iteration that left the stagnation at
/// `patience`, or at a reading of the clock that had reached the time
/// limit; and a search whose time limit every reading has reached makes
/// no iteration.
pub open spec fn reannealing_stops_duly<S, ST: Ord>(
    patience: nat,
    return_iter: nat,
    reanneal_interval: nat,
    initial: (S, ST),
    n_iter: nat,
    time_limit: Duration,
    seen: Seq<Annealed<S, ST>>,
) -> bool {
    &&& {
        ||| seen.len() == n_iter
        ||| seen.len() > 0 && reannealing_replay(
            annealing_start(initial.0, initial.1),
            seen,
            return_iter,
            reanneal_interval,
        ).stagnation == patience
        ||| exists|elapsed: Duration| #[trigger] limit_reached(elapsed, time_limit)
    }
    &&& (forall|elapsed: Duration| #[trigger] limit_reached(elapsed, time_limit)) ==> seen.len()
        == 0
}

/// The result reports the best solution of the book, as it stands or as a
/// clone of it, with its score.
pub open spec fn reports_annealed_best<S: Clone, ST>(
    result: (S, ST),
    book: AnnealingBook<S, ST>,
) -> bool {
    &&& result.1 == book.best.1
    &&& cloned(book.best.0, result.0)
}

/// `result` is what a reannealing search with the given parameters can
/// return: the best solution of one of its courses.
pub open spec fn is_reannealing_result<
    S: Clone,
    ST: Ord + Sync + Send + Copy,
    FA: IndexedProbabilityFn<ST>,
>(
    acceptance: &FA,
    source: spec_fn((S, ST), (S, ST)) -> bool,
    patience: nat,
    return_iter: nat,
    reanneal_interval: nat,
    initial: (S, ST),
    n_iter: nat,
    time_limit: Duration,
    result: (S, ST),
) -> bool {
    exists|seen: Seq<Annealed<S, ST>>|
        {
            &&& is_reannealing_course(
                acceptance,
                source,
                patience,
                return_iter,
                reanneal_interval,
                initial,
                n_iter,
                seen,
            )
            &&& reannealing_stops_duly(
                patience,
                return_iter,
                reanneal_interval,
                initial,
                n_iter,
                time_limit,
                seen,
            )
            &&& reports_annealed_best(
                result,
                #[trigger] reannealing_replay(
                    annealing_start(initial.0, initial.1),
                    seen,
                    return_iter,
                    reanneal_interval,
                ),
            )
        }
}

/// The best score is never worse than the current one.
pub open spec fn annealed_best_leads<S, ST: Ord>(book: AnnealingBook<S, ST>) -> bool {
    !better(book.current.1, book.best.1)
}

/// One iteration keeps the best score ahead of the current one and never
/// makes it worse.
pub proof fn lemma_reannealing_observe_keeps_order<S, ST: Ord>(
    before: AnnealingBook<S, ST>,
    trial: (S, ST),
    accepted: bool,
    return_iter: nat,
    reanneal_interval: nat,
)
    requires
        totally_ordered::<ST>(),
        annealed_best_leads(before),
    ensures
        annealed_best_leads(
            reannealing_observe(before, trial, accepted, return_iter, reanneal_interval),
        ),
        !better(
            before.best.1,
            reannealing_observe(before, trial, accepted, return_iter, reanneal_interval).best.1,
        ),
{
    lemma_better_irreflexive(trial.1);
    lemma_better_irreflexive(before.best.1);
    if accepted && better(trial.1, before.best.1) {
        lemma_better_asymmetric(trial.1, before.best.1);
    }
}

/// A whole sequence of iterations keeps the best score ahead of the
/// current one and never makes it worse.
pub proof fn lemma_reannealing_replay_keeps_order<S, ST: Ord>(
    before: AnnealingBook<S, ST>,
    seen: Seq<Annealed<S, ST>>,
    return_iter: nat,
    reanneal_interval: nat,
)
    requires
        totally_ordered::<ST>(),
        annealed_best_leads(before),
    ensures
        annealed_best_leads(reannealing_replay(before, seen, return_iter, reanneal_interval)),
        !better(
            before.best.1,
            reannealing_replay(before, seen, return_iter, reanneal_interval).best.1,
        ),
    decreases seen.len(),
{
    if seen.len() == 0 {
        lemma_better_irreflexive(before.best.1);
    } else {
        let middle = reannealing_replay(before, seen.drop_last(), return_iter, reanneal_interval);
        lemma_reannealing_replay_keeps_order(
            before,
            seen.drop_last(),
            return_iter,
            reanneal_interval,
        );
        lemma_reannealing_observe_keeps_order(
            middle,
            seen.last().trial,
            seen.last().accepted,
            return_iter,
            reanneal_interval,
        );
        lemma_not_better_transitive(
            before.best.1,
            middle.best.1,
            reannealing_replay(before, seen, return_iter, reanneal_interval).best.1,
        );
    }
}

/// The state of a reannealing search between two iterations.
pub struct AnnealingState<S, ST> {
    current_solution: S,
    current_score: ST,
    /// The best solution, where it is not the current one.
    set_aside_best: Option<S>,
    best_score: ST,
    stagnation_counter: usize,
    step_counter: usize,
}

impl<S, ST: Ord + Copy> AnnealingState<S, ST> {
    /// What the state remembers, as the contracts speak of it.
    pub closed spec fn book(&self) -> AnnealingBook<S, ST> {
        AnnealingBook {
            current: (self.current_solution, self.current_score),
            best: (
                match self.set_aside_best {
                    Some(best) => best,
                    None => self.current_solution,
                },
                self.best_score,
            ),
            stagnation: self.stagnation_counter as nat,
            schedule_step: self.step_counter as nat,
        }
    }

    /// The state is consistent: the best score is never worse than the
    /// current one, and a best solution that is not kept apart is the
    /// current one.
    pub closed spec fn wf(&self) -> bool {
        &&& !better(self.current_score, self.best_score)
        &&& self.set_aside_best is None ==> self.best_score == self.current_score
    }

    /// The state at the start of a search from the given solution.
    pub fn new(initial_solution: S, initial_score: ST) -> (state: Self)
        requires
            totally_ordered::<ST>(),
        ensures
            state.wf(),
            state.book() == annealing_start(initial_solution, initial_score),
    {
        proof {
            lemma_better_irreflexive(initial_score);
        }
        Self {
            current_solution: initial_solution,
            current_score: initial_score,
            set_aside_best: None,
            best_score: initial_score,
            stagnation_counter: 0,
            step_counter: 0,
        }
    }

    /// The current solution.
    pub fn current_solution(&self) -> (solution: &S)
        ensures
            *solution == self.book().current.0,
    {
        &self.current_solution
    }

    /// The score of the current solution.
    pub fn current_score(&self) -> (score: ST)
        ensures
            score == self.book().current.1,
    {
        self.current_score
    }

    /// The best solution seen so far.
    pub fn best(&self) -> (solution: &S)
        ensures
            *solution == self.book().best.0,
    {
        match &self.set_aside_best {
            Some(best) => best,
            None => &self.current_solution,
        }
    }

    /// The score of the best solution seen so far.
    pub fn best_score(&self) -> (score: ST)
        ensures
            score == self.book().best.1,
    {
        self.best_score
    }

    /// The place in the schedule whose temperature the next iteration
    /// uses.
    pub fn schedule_place(&self) -> (place: usize)
        ensures
            place == schedule_place(self.book().schedule_step),
    {
        if self.step_counter == 0 {
            0
        } else {
            self.step_counter - 1
        }
    }

    /// Whether the stagnation stands at `patience`.
    pub fn gives_up(&self, patience: usize) -> (stop: bool)
        ensures
            stop == (self.book().stagnation == patience),
    {
        self.stagnation_counter == patience
    }

    /// Takes in the trial of one iteration and the decision on it.
    pub fn advance(
        &mut self,
        trial_solution: S,
        trial_score: ST,
        accepted: bool,
        return_iter: usize,
        reanneal_interval: usize,
    )
        requires
            totally_ordered::<ST>(),
            old(self).wf(),
            old(self).book().stagnation < usize::MAX,
            old(self).book().schedule_step < usize::MAX,
        ensures
            final(self).wf(),
            final(self).book() == reannealing_observe(
                old(self).book(),
                (trial_solution, trial_score),
                accepted,
                return_iter as nat,
                reanneal_interval as nat,
            ),
    {
        proof {
            lemma_better_irreflexive(trial_score);
            lemma_better_irreflexive(self.best_score);
        }
        let mut improved = false;
        if accepted {
            improved = is_better(trial_score, self.best_score);
            let mut replaced = trial_solution;
            std::mem::swap(&mut self.current_solution, &mut replaced);
            self.current_score = trial_score;
            if improved {
                proof {
                    lemma_better_asymmetric(trial_score, old(self).best_score);
                }
                self.best_score = trial_score;
                self.set_aside_best = None;
            } else if self.set_aside_best.is_none() {
                self.set_aside_best = Some(replaced);
            }
        }
        if improved {
            self.stagnation_counter = 0;
        } else {
            self.stagnation_counter = self.stagnation_counter + 1;
        }
        self.step_counter = self.step_counter + 1;

        let restart = reanneal_interval > 0 && self.stagnation_counter > 0
            && self.stagnation_counter % reanneal_interval == 0;
        if restart {
            self.step_counter = 0;
        }
        if restart || self.stagnation_counter == return_iter {
            match self.set_aside_best.take() {
                Some(best) => {
                    self.current_solution = best;
                },
                None => {},
            }
            self.current_score = self.best_score;
        }
    }
}

impl<S: Clone, ST: Ord + Copy> AnnealingState<S, ST> {
    /// Ends the search: hands out the best solution with its score.
    pub fn into_best(self) -> (result: (S, ST))
        ensures
            reports_annealed_best(result, self.book()),
    {
        let AnnealingState {
            current_solution,
            current_score: _,
            set_aside_best,
            best_score,
            stagnation_counter: _,
            step_counter: _,
        } = self;
        match set_aside_best {
            Some(best) => (best, best_score),
            None => (current_solution.clone(), best_score),
        }
    }
}

/// Adaptive simulated annealing optimizer that re-anneals when stagnating.
///
/// The schedule is given by `acceptance`: for a place in the schedule, it
/// tells with what probability a trial that is worse than the current
/// solution is accepted. The schedule starts over whenever the stagnation
/// reaches a multiple of `reanneal_interval`.
pub struct AdaptiveSimulatedAnnealingOptimizer<
    ST: Ord + Sync + Send + Copy,
    FA: IndexedProbabilityFn<ST>,
> {
    patience: usize,
    n_trials: usize,
    return_iter: usize,
    reanneal_interval: usize,
    acceptance: FA,
    phantom: PhantomData<ST>,
}

impl<ST: Ord + Sync + Send + Copy, FA: IndexedProbabilityFn<ST>> AdaptiveSimulatedAnnealingOptimizer<
    ST,
    FA,
> {
    /// Iterations without improvement after which the search gives up.
    pub closed spec fn patience(&self) -> usize {
        self.patience
    }

    /// Number of trial solutions generated at each iteration.
    pub closed spec fn n_trials(&self) -> usize {
        self.n_trials
    }

    /// Stagnation at which the search returns to the best solution.
    pub closed spec fn return_iter(&self) -> usize {
        self.return_iter
    }

    /// Stagnation at whose multiples the search starts over.
    pub closed spec fn reanneal_interval(&self) -> usize {
        self.reanneal_interval
    }

    /// The acceptance probabilities of the schedule.
    pub closed spec fn acceptance(&self) -> FA {
        self.acceptance
    }

    /// At least one trial is generated per iteration, the interval is
    /// positive, and the schedule is defined everywhere.
    #[verifier::type_invariant]
    pub closed spec fn usable(&self) -> bool {
        &&& self.n_trials > 0
        &&& self.reanneal_interval > 0
        &&& defined_for_all(&self.acceptance)
    }

    /// Create a new adaptive simulated annealing optimizer.
    ///
    /// - `patience`: stop if no improvement is seen for this many iterations.
    /// - `n_trials`: number of trial solutions to evaluate per iteration.
    /// - `return_iter`: revert to the best solution when there is no improvement for this many iterations.
    /// - `acceptance`: acceptance probabilities along the schedule.
    /// - `reanneal_interval`: iterations without improvement before re-annealing; an interval of zero counts as one.
    pub fn new(
        patience: usize,
        n_trials: usize,
        return_iter: usize,
        acceptance: FA,
        reanneal_interval: usize,
    ) -> (optimizer: Self)
        requires
            n_trials > 0,
            defined_for_all(&acceptance),
        ensures
            optimizer.patience() == patience,
            optimizer.n_trials() == n_trials,
            optimizer.return_iter() == return_iter,
            optimizer.acceptance() == acceptance,
            optimizer.reanneal_interval() == if reanneal_interval == 0 {
                1
            } else {
                reanneal_interval
            },
    {
        Self {
            patience,
            n_trials,
            return_iter,
            reanneal_interval: if reanneal_interval == 0 {
                1
            } else {
                reanneal_interval
            },
            acceptance,
            phantom: PhantomData,
        }
    }
}

impl<ST, FA, M> LocalSearchOptimizer<M> for AdaptiveSimulatedAnnealingOptimizer<ST, FA> where
    ST: Ord + Sync + Send + Copy,
    FA: IndexedProbabilityFn<ST>,
    M: OptModel<ScoreType = ST>,
 {
    open spec fn can_return(
        &self,
        model: &M,
        initial: (M::SolutionType, M::ScoreType),
        n_iter: usize,
        time_limit: Duration,
        result: (M::SolutionType, M::ScoreType),
    ) -> bool {
        is_reannealing_result(
            &self.acceptance(),
            offers_of(model, self.n_trials() as nat),
            self.patience() as nat,
            self.return_iter() as nat,
            self.reanneal_interval() as nat,
            initial,
            n_iter as nat,
            time_limit,
            result,
        )
    }

    /// Start optimization
    ///
    /// - `model`: the model to optimize
    /// - `initial_solution`: the initial solution to start optimization
    /// - `initial_score`: the initial score of the initial solution
    /// - `n_iter`: maximum iterations
    /// - `time_limit`: maximum iteration time
    /// - `callback`: callback function that will be invoked at the end of each iteration
    fn optimize<C: OptCallbackFn<M::SolutionType, M::ScoreType>>(
        &self,
        model: &M,
        initial_solution: M::SolutionType,
        initial_score: M::ScoreType,
        n_iter: usize,
        time_limit: Duration,
        callback: &C,
    ) -> (result: (M::SolutionType, M::ScoreType))
        ensures
            is_reannealing_result(
                &self.acceptance(),
                offers_of(model, self.n_trials() as nat),
                self.patience() as nat,
                self.return_iter() as nat,
                self.reanneal_interval() as nat,
                (initial_solution, initial_score),
                n_iter as nat,
                time_limit,
                result,
            ),
    {
        proof {
            use_type_invariant(self);
        }
        let start_time = now();
        let mut state = AnnealingState::new(initial_solution, initial_score);
        let mut accepted_counter: usize = 0;
        let ghost initial = (initial_solution, initial_score);
        let ghost origin = annealing_start(initial_solution, initial_score);
        let ghost mut seen: Seq<Annealed<M::SolutionType, ST>> = Seq::empty();
        let ghost return_iter = self.return_iter as nat;
        let ghost interval = self.reanneal_interval as nat;
        let ghost patience = self.patience as nat;
        let ghost source = offers_of(model, self.n_trials as nat);
        proof {
            lemma_better_irreflexive(initial_score);
        }
        let mut it: usize = 0;
        while it < n_iter
            invariant_except_break
                seen.len() == it,
                state.book().stagnation != patience || it == 0,
            invariant
                totally_ordered::<ST>(),
                accepts_all_progress(callback),
                self.usable(),
                return_iter == self.return_iter as nat,
                interval == self.reanneal_interval as nat,
                patience == self.patience as nat,
                source == offers_of(model, self.n_trials as nat),
                initial == (initial_solution, initial_score),
                origin == annealing_start(initial_solution, initial_score),
                it <= n_iter,
                accepted_counter <= seen.len(),
                state.wf(),
                state.book() == reannealing_replay(origin, seen, return_iter, interval),
                state.book().stagnation <= seen.len(),
                state.book().schedule_step <= seen.len(),
                is_reannealing_course(
                    &self.acceptance,
                    source,
                    patience,
                    return_iter,
                    interval,
                    initial,
                    n_iter as nat,
                    seen,
                ),
                seen.len() == 0 || exists|elapsed: Duration|
                    !(#[trigger] limit_reached(elapsed, time_limit)),
            ensures
                seen.len() == n_iter || (seen.len() > 0 && state.book().stagnation == patience)
                    || exists|elapsed: Duration| #[trigger] limit_reached(elapsed, time_limit),
            decreases n_iter - it,
        {
            let duration = elapsed_since(&start_time);
            if reached(&duration, &time_limit) {
                assert(limit_reached(duration, time_limit));
                break ;
            }
            assert(!limit_reached(duration, time_limit));
            let mut trials = generate_trials(
                model,
                state.current_solution(),
                state.current_score(),
                self.n_trials,
            );
            let ghost offer = trials@;
            let chosen = best_trial(&trials);
            let (trial_solution, _, trial_score) = trials.swap_remove(chosen);

            let current_score = state.current_score();
            let place = state.schedule_place();
            let accepted = if !is_better(current_score, trial_score) {
                true
            } else {
                assert(callable_at(&self.acceptance, place, current_score, trial_score));
                let p = (self.acceptance)(place, current_score, trial_score);
                assert(gives(&self.acceptance, place, current_score, trial_score, p));
                let draw: u64 = uniform_draw();
                p.admits(draw)
            };
            let ghost next = Annealed { trial: (trial_solution, trial_score), accepted };
            proof {
                assert(is_offer(model, self.n_trials as nat, state.book().current, offer));
                assert(is_first_minimum(trial_scores(offer), chosen as int));
                assert(is_best_offer(
                    model,
                    self.n_trials as nat,
                    state.book().current,
                    (trial_solution, trial_score),
                ));
                let longer = seen.push(next);
                assert(longer.drop_last() =~= seen);
                assert(seen.take(seen.len() as int) =~= seen);
                assert(annealed_by(
                    &self.acceptance,
                    place as nat,
                    current_score,
                    trial_score,
                    accepted,
                ));
                assert forall|k: int| 0 <= k < longer.len() implies {
                    let before = #[trigger] reannealing_replay(
                        annealing_start(initial.0, initial.1),
                        longer.take(k),
                        return_iter,
                        interval,
                    );
                    &&& k > 0 ==> before.stagnation != patience
                    &&& source(before.current, longer[k].trial)
                    &&& annealed_by(
                        &self.acceptance,
                        schedule_place(before.schedule_step),
                        before.current.1,
                        longer[k].trial.1,
                        longer[k].accepted,
                    )
                } by {
                    assert(longer.take(k) =~= seen.take(k));
                    if k < seen.len() {
                        let before = reannealing_replay(
                            annealing_start(initial.0, initial.1),
                            seen.take(k),
                            return_iter,
                            interval,
                        );
                        assert(source(before.current, seen[k].trial));
                        assert(annealed_by(
                            &self.acceptance,
                            schedule_place(before.schedule_step),
                            before.current.1,
                            seen[k].trial.1,
                            seen[k].accepted,
                        ));
                    } else {
                        assert(seen.take(k) == seen);
                    }
                }
                seen = longer;
            }
            state.advance(
                trial_solution,
                trial_score,
                accepted,
                self.return_iter,
                self.reanneal_interval,
            );
            if accepted {
                accepted_counter = accepted_counter + 1;
            }
            if state.gives_up(self.patience) {
                break ;
            }
            let ratio = AcceptanceRatio { accepted: accepted_counter, samples: it + 1 };
            let progress = OptProgress::new(it, ratio, state.best(), state.best_score());
            callback(progress);
            it = it + 1;
        }
        proof {
            lemma_reannealing_replay_keeps_order(origin, seen, return_iter, interval);
        }
        let result = state.into_best();
        proof {
            assert(is_reannealing_course(
                &self.acceptance(),
                offers_of(model, self.n_trials() as nat),
                self.patience() as nat,
                self.return_iter() as nat,
                self.reanneal_interval() as nat,
                (initial_solution, initial_score),
                n_iter as nat,
                seen,
            ));
            assert(reannealing_stops_duly(
                self.patience() as nat,
                self.return_iter() as nat,
                self.reanneal_interval() as nat,
                (initial_solution, initial_score),
                n_iter as nat,
                time_limit,
                seen,
            ));
            assert(reports_annealed_best(
                result,
                reannealing_replay(
                    annealing_start(initial.0, initial.1),
                    seen,
                    self.return_iter() as nat,
                    self.reanneal_interval() as nat,
                ),
            ));
        }
        result
    }
}

} // verus!
