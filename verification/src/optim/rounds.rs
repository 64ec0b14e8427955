//! What the multi-replica searches share: the results of a round and the
//! book that is kept from round to round.

use crate::callback::OptProgress;
use crate::clock::limit_reached;
use crate::counter::AcceptanceRatio;
use crate::model::OptModel;
use crate::optim::base::{callable_at, defined_for_all, gives, member_rule, IndexedProbabilityFn};
use crate::optim::bookkeeping::StepResult;
use crate::optim::course::{is_step_result, lemma_step_result_order, lemma_step_result_weaker};
use crate::optim::generic::{
    is_first_minimum, leads_so_far, lemma_lead_moves_on, offers_of, rule_of,
    GenericLocalSearchOptimizer,
};
use crate::order::{
    better, is_better, lemma_better_asymmetric, lemma_better_irreflexive,
    lemma_not_better_transitive, totally_ordered,
};
use crate::probability::{random_index, Probability, RESOLUTION};
use std::time::Duration;
use vstd::prelude::*;

verus! {

/// The best scores of a sequence of step results.
pub open spec fn best_scores<S, ST>(results: Seq<StepResult<S, ST>>) -> Seq<ST> {
    results.map_values(|result: StepResult<S, ST>| result.best_score)
}

/// The place of the step result with the best score; among equally good
/// ones, of the first.
pub fn best_result<S, ST: Ord + Copy>(results: &Vec<StepResult<S, ST>>) -> (place: usize)
    requires
        totally_ordered::<ST>(),
        results@.len() > 0,
    ensures
        is_first_minimum(best_scores(results@), place as int),
{
    let ghost scores = best_scores(results@);
    let mut place: usize = 0;
    let mut k: usize = 1;
    proof {
        lemma_better_irreflexive(scores[0]);
    }
    while k < results.len()
        invariant
            totally_ordered::<ST>(),
            scores == best_scores(results@),
            leads_so_far(scores, k as int, place as int),
        decreases results@.len() - k,
    {
        proof {
            lemma_lead_moves_on(scores, k as int, place as int);
        }
        if is_better(results[k].best_score, results[place].best_score) {
            place = k;
        }
        k = k + 1;
    }
    place
}

/// What a multi-replica search remembers from one round to the next.
pub struct RoundBook<S, ST> {
    /// The best solution seen so far by any replica, with its score.
    pub best: (S, ST),
    /// Iterations that are accounted for.
    pub iter: usize,
    /// Iterations since the last improvement or the last return to the
    /// best solution.
    pub return_stagnation: usize,
    /// Iterations since the last improvement.
    pub patience_stagnation: usize,
}

/// The book at the start of a search.
pub open spec fn first_round<S, ST>(solution: S, score: ST) -> RoundBook<S, ST> {
    RoundBook { best: (solution, score), iter: 0, return_stagnation: 0, patience_stagnation: 0 }
}

/// The states on which a round's steps ended, in the order of the results.
pub open spec fn last_states<S, ST>(results: Seq<StepResult<S, ST>>) -> Seq<(S, ST)> {
    results.map_values(|result: StepResult<S, ST>| (result.last_solution, result.last_score))
}

/// The acceptance ratio over the windows of all the results together; the
/// sums saturate.
pub open spec fn pooled_ratio<S, ST>(results: Seq<StepResult<S, ST>>) -> AcceptanceRatio
    decreases results.len(),
{
    if results.len() == 0 {
        AcceptanceRatio { accepted: 0, samples: 0 }
    } else {
        let before = pooled_ratio(results.drop_last());
        let window = results.last().acceptance_counter@;
        AcceptanceRatio {
            accepted: before.accepted.saturating_add(
                crate::counter::count_accepted(window) as usize,
            ),
            samples: before.samples.saturating_add(window.len() as usize),
        }
    }
}

/// Takes the results of a round apart: the states on which the steps
/// ended, the best solution of the result at `place`, and the acceptance
/// ratio over all the windows together.
pub fn take_in_round<S, ST: Copy>(results: Vec<StepResult<S, ST>>, place: usize) -> (round: (
    Vec<(S, ST)>,
    S,
    AcceptanceRatio,
))
    requires
        place < results@.len(),
        forall|i: int| 0 <= i < results@.len() ==> (#[trigger] results@[i]).acceptance_counter.wf(),
    ensures
        round.0@ == last_states(results@),
        round.1 == results@[place as int].best_solution,
        round.2 == pooled_ratio(results@),
{
    let ghost all = results@;
    let total = results.len();
    let mut states: Vec<(S, ST)> = Vec::new();
    let mut chosen: Option<S> = None;
    let mut accepted: usize = 0;
    let mut samples: usize = 0;
    let mut k: usize = 0;
    for result in iter: results
        invariant
            all == iter.seq(),
            place < all.len(),
            forall|i: int| 0 <= i < all.len() ==> (#[trigger] all[i]).acceptance_counter.wf(),
            k == iter.index(),
            k <= all.len() == total,
            states@ == last_states(all.take(k as int)),
            k > place ==> chosen == Some(all[place as int].best_solution),
            (AcceptanceRatio { accepted, samples }) == pooled_ratio(all.take(k as int)),
    {
        proof {
            assert(all.take(k + 1).drop_last() =~= all.take(k as int));
            assert(all.take(k + 1).last() == all[k as int]);
            assert(last_states(all.take(k + 1)) =~= last_states(all.take(k as int)).push(
                (all[k as int].last_solution, all[k as int].last_score),
            ));
        }
        assert(k < all.len());
        assert(result == all[k as int]);
        let ratio = result.acceptance_counter.acceptance_ratio();
        accepted = accepted.saturating_add(ratio.accepted);
        samples = samples.saturating_add(ratio.samples);
        if k == place {
            chosen = Some(result.best_solution);
        }
        states.push((result.last_solution, result.last_score));
        k = k + 1;
    }
    proof {
        assert(all.take(k as int) =~= all);
    }
    (states, chosen.unwrap(), AcceptanceRatio { accepted, samples })
}

/// The stagnation after a round of `update_frequency` iterations: a
/// round that did not improve on the best adds its iterations; one that
/// did clears the counter and, where `counts_improving` is set, counts
/// itself. The counting saturates.
pub open spec fn round_stagnation(
    before: usize,
    improved: bool,
    update_frequency: usize,
    counts_improving: bool,
) -> usize {
    if !improved {
        before.saturating_add(update_frequency)
    } else if counts_improving {
        update_frequency
    } else {
        0
    }
}

/// Whether a member is sent back to the best solution after a round with
/// the best score `round_score`: the return stagnation has reached
/// `return_iter`.
pub open spec fn round_returns<S, ST: Ord>(
    before: RoundBook<S, ST>,
    round_score: ST,
    update_frequency: usize,
    return_iter: usize,
    counts_improving: bool,
) -> bool {
    round_stagnation(
        before.return_stagnation,
        better(round_score, before.best.1),
        update_frequency,
        counts_improving,
    ) >= return_iter
}

/// The book after a round of `update_frequency` iterations whose best
/// result was `round_best`.
///
/// A round best that is strictly better than the best replaces it. Both
/// stagnation counters move as `round_stagnation` says; a return counter
/// that then has reached `return_iter` starts again.
pub open spec fn round_observe<S, ST: Ord>(
    before: RoundBook<S, ST>,
    round_best: (S, ST),
    update_frequency: usize,
    return_iter: usize,
    counts_improving: bool,
) -> RoundBook<S, ST> {
    let improved = better(round_best.1, before.best.1);
    RoundBook {
        best: if improved {
            round_best
        } else {
            before.best
        },
        iter: before.iter.saturating_add(update_frequency),
        return_stagnation: if round_returns(
            before,
            round_best.1,
            update_frequency,
            return_iter,
            counts_improving,
        ) {
            0
        } else {
            round_stagnation(
                before.return_stagnation,
                improved,
                update_frequency,
                counts_improving,
            )
        },
        patience_stagnation: round_stagnation(
            before.patience_stagnation,
            improved,
            update_frequency,
            counts_improving,
        ),
    }
}

/// The book after a sequence of rounds.
pub open spec fn round_replay<S, ST: Ord>(
    before: RoundBook<S, ST>,
    round_bests: Seq<(S, ST)>,
    update_frequency: usize,
    return_iter: usize,
    counts_improving: bool,
) -> RoundBook<S, ST>
    decreases round_bests.len(),
{
    if round_bests.len() == 0 {
        before
    } else {
        round_observe(
            round_replay(
                before,
                round_bests.drop_last(),
                update_frequency,
                return_iter,
                counts_improving,
            ),
            round_bests.last(),
            update_frequency,
            return_iter,
            counts_improving,
        )
    }
}

/// A round never makes the best score worse.
pub proof fn lemma_round_replay_keeps_order<S, ST: Ord>(
    before: RoundBook<S, ST>,
    round_bests: Seq<(S, ST)>,
    update_frequency: usize,
    return_iter: usize,
    counts_improving: bool,
)
    requires
        totally_ordered::<ST>(),
    ensures
        !better(
            before.best.1,
            round_replay(
                before,
                round_bests,
                update_frequency,
                return_iter,
                counts_improving,
            ).best.1,
        ),
    decreases round_bests.len(),
{
    lemma_better_irreflexive(before.best.1);
    if round_bests.len() > 0 {
        let middle = round_replay(
            before,
            round_bests.drop_last(),
            update_frequency,
            return_iter,
            counts_improving,
        );
        lemma_round_replay_keeps_order(
            before,
            round_bests.drop_last(),
            update_frequency,
            return_iter,
            counts_improving,
        );
        let after = round_observe(
            middle,
            round_bests.last(),
            update_frequency,
            return_iter,
            counts_improving,
        );
        lemma_better_irreflexive(middle.best.1);
        if better(round_bests.last().1, middle.best.1) {
            lemma_better_asymmetric(round_bests.last().1, middle.best.1);
        }
        lemma_not_better_transitive(before.best.1, middle.best.1, after.best.1);
    }
}

/// What a round of a multi-replica search brings.
pub struct Round<S, ST> {
    /// The members before the round.
    pub before: Seq<(S, ST)>,
    /// What the steps of the members returned, member by member.
    pub results: Seq<StepResult<S, ST>>,
    /// The best solution of the first of the best results, with its score.
    pub round_best: (S, ST),
    /// The members after the round.
    pub after: Seq<(S, ST)>,
}

/// `round_best` is the best of the round: the best solution, with its
/// score, of the first of the results with the best score.
pub open spec fn is_round_best<S, ST: Ord>(
    results: Seq<StepResult<S, ST>>,
    round_best: (S, ST),
) -> bool {
    exists|place: int|
        {
            &&& #[trigger] is_first_minimum(best_scores(results), place)
            &&& round_best == (results[place].best_solution, results[place].best_score)
        }
}

/// The bests of a sequence of rounds.
pub open spec fn round_bests<S, ST>(rounds: Seq<Round<S, ST>>) -> Seq<(S, ST)> {
    rounds.map_values(|round: Round<S, ST>| round.round_best)
}

/// The book before round `k` of a search that started from `seed`.
pub open spec fn book_before<S, ST: Ord>(
    seed: (S, ST),
    rounds: Seq<Round<S, ST>>,
    k: int,
    update_frequency: usize,
    return_iter: usize,
    counts_improving: bool,
) -> RoundBook<S, ST> {
    round_replay(
        first_round(seed.0, seed.1),
        round_bests(rounds).take(k),
        update_frequency,
        return_iter,
        counts_improving,
    )
}

/// `rounds` is a course that a multi-replica search can take from the
/// members `first` and the best solution `seed`: every round starts with
/// iterations left, no round follows one after which the patience was
/// exhausted, every round is `valid` for its number and the book before
/// it, and every round starts from the members that the round before it
/// left.
pub open spec fn is_rounds_course<S, ST: Ord>(
    valid: spec_fn(int, RoundBook<S, ST>, Round<S, ST>) -> bool,
    first: Seq<(S, ST)>,
    patience: usize,
    return_iter: usize,
    update_frequency: usize,
    counts_improving: bool,
    seed: (S, ST),
    n_iter: usize,
    rounds: Seq<Round<S, ST>>,
) -> bool {
    forall|k: int|
        0 <= k < rounds.len() ==> {
            let before = #[trigger] book_before(
                seed,
                rounds,
                k,
                update_frequency,
                return_iter,
                counts_improving,
            );
            &&& before.iter < n_iter
            &&& k > 0 ==> before.patience_stagnation < patience
            &&& valid(k, before, rounds[k])
            &&& rounds[k].before == if k == 0 {
                first
            } else {
                rounds[k - 1].after
            }
        }
}

/// One more round extends a course.
pub proof fn lemma_rounds_course_extends<S, ST: Ord>(
    valid: spec_fn(int, RoundBook<S, ST>, Round<S, ST>) -> bool,
    first: Seq<(S, ST)>,
    patience: usize,
    return_iter: usize,
    update_frequency: usize,
    counts_improving: bool,
    seed: (S, ST),
    n_iter: usize,
    rounds: Seq<Round<S, ST>>,
    next: Round<S, ST>,
)
    requires
        is_rounds_course(
            valid,
            first,
            patience,
            return_iter,
            update_frequency,
            counts_improving,
            seed,
            n_iter,
            rounds,
        ),
        ({
            let before = book_before(
                seed,
                rounds,
                rounds.len() as int,
                update_frequency,
                return_iter,
                counts_improving,
            );
            &&& before.iter < n_iter
            &&& rounds.len() > 0 ==> before.patience_stagnation < patience
            &&& valid(rounds.len() as int, before, next)
        }),
        next.before == if rounds.len() == 0 {
            first
        } else {
            rounds.last().after
        },
    ensures
        is_rounds_course(
            valid,
            first,
            patience,
            return_iter,
            update_frequency,
            counts_improving,
            seed,
            n_iter,
            rounds.push(next),
        ),
        book_before(
            seed,
            rounds.push(next),
            rounds.len() as int + 1,
            update_frequency,
            return_iter,
            counts_improving,
        ) == round_observe(
            book_before(
                seed,
                rounds,
                rounds.len() as int,
                update_frequency,
                return_iter,
                counts_improving,
            ),
            next.round_best,
            update_frequency,
            return_iter,
            counts_improving,
        ),
{
    let longer = rounds.push(next);
    assert forall|k: int| 0 <= k <= rounds.len() implies #[trigger] book_before(
        seed,
        longer,
        k,
        update_frequency,
        return_iter,
        counts_improving,
    ) == book_before(seed, rounds, k, update_frequency, return_iter, counts_improving) by {
        assert(round_bests(longer).take(k) =~= round_bests(rounds).take(k));
    }
    let all = round_bests(longer).take(longer.len() as int);
    assert(all.drop_last() =~= round_bests(rounds).take(rounds.len() as int));
    assert(all.last() == next.round_best);
    assert forall|k: int| 0 <= k < longer.len() implies {
        let before = #[trigger] book_before(
            seed,
            longer,
            k,
            update_frequency,
            return_iter,
            counts_improving,
        );
        &&& before.iter < n_iter
        &&& k > 0 ==> before.patience_stagnation < patience
        &&& valid(k, before, longer[k])
        &&& longer[k].before == if k == 0 {
            first
        } else {
            longer[k - 1].after
        }
    } by {
        assert(book_before(seed, longer, k, update_frequency, return_iter, counts_improving)
            == book_before(seed, rounds, k, update_frequency, return_iter, counts_improving));
        if k < rounds.len() {
            assert(longer[k] == rounds[k]);
        }
    }
}

/// `after` is `members` with one member sent back to the best solution:
/// one place holds the best score and the best solution or a clone of it,
/// and every other place holds what it held.
pub open spec fn is_sent_back<S: Clone, ST>(
    members: Seq<(S, ST)>,
    best: (S, ST),
    after: Seq<(S, ST)>,
) -> bool {
    exists|place: int|
        {
            &&& 0 <= place < members.len()
            &&& after.len() == members.len()
            &&& (#[trigger] after[place]).1 == best.1
            &&& cloned(best.0, after[place].0)
            &&& forall|j: int| 0 <= j < members.len() && j != place ==> after[j] == members[j]
        }
}

/// Sends a member, chosen at random, back to the best solution.
pub fn send_back<S: Clone, ST: Copy>(members: &mut Vec<(S, ST)>, best: &S, best_score: ST)
    requires
        old(members)@.len() > 0,
    ensures
        is_sent_back(old(members)@, (*best, best_score), final(members)@),
{
    let place = random_index(members.len());
    let restart = best.clone();
    members.set(place, (restart, best_score));
    assert(members@[place as int].1 == best_score);
}

/// The book of a multi-replica search between two rounds.
pub struct RoundKeeper<S, ST> {
    best_solution: S,
    best_score: ST,
    iter: usize,
    return_stagnation_counter: usize,
    patience_stagnation_counter: usize,
}

impl<S, ST: Ord + Copy> RoundKeeper<S, ST> {
    /// What the keeper remembers, as the contracts speak of it.
    pub closed spec fn book(&self) -> RoundBook<S, ST> {
        RoundBook {
            best: (self.best_solution, self.best_score),
            iter: self.iter,
            return_stagnation: self.return_stagnation_counter,
            patience_stagnation: self.patience_stagnation_counter,
        }
    }

    /// The book at the start of a search from the given best solution.
    pub fn new(solution: S, score: ST) -> (keeper: Self)
        ensures
            keeper.book() == first_round(solution, score),
    {
        Self {
            best_solution: solution,
            best_score: score,
            iter: 0,
            return_stagnation_counter: 0,
            patience_stagnation_counter: 0,
        }
    }

    /// The best solution seen so far.
    pub fn best(&self) -> (solution: &S)
        ensures
            *solution == self.book().best.0,
    {
        &self.best_solution
    }

    /// The score of the best solution seen so far.
    pub fn best_score(&self) -> (score: ST)
        ensures
            score == self.book().best.1,
    {
        self.best_score
    }

    /// The iterations that are accounted for.
    pub fn iter(&self) -> (iter: usize)
        ensures
            iter == self.book().iter,
    {
        self.iter
    }

    /// Whether the search has gone `patience` iterations or more without
    /// improvement.
    pub fn gives_up(&self, patience: usize) -> (stop: bool)
        ensures
            stop == (self.book().patience_stagnation >= patience),
    {
        self.patience_stagnation_counter >= patience
    }

    /// Hands out the best solution with its score.
    pub fn into_best(self) -> (best: (S, ST))
        ensures
            best == self.book().best,
    {
        (self.best_solution, self.best_score)
    }

    /// Takes in the best of a round; tells whether a member is to be sent
    /// back to the best solution.
    pub fn observe(
        &mut self,
        round_solution: S,
        round_score: ST,
        update_frequency: usize,
        return_iter: usize,
        counts_improving: bool,
    ) -> (goes_back: bool)
        requires
            totally_ordered::<ST>(),
        ensures
            final(self).book() == round_observe(
                old(self).book(),
                (round_solution, round_score),
                update_frequency,
                return_iter,
                counts_improving,
            ),
            goes_back == round_returns(
                old(self).book(),
                round_score,
                update_frequency,
                return_iter,
                counts_improving,
            ),
    {
        self.iter = self.iter.saturating_add(update_frequency);
        if is_better(round_score, self.best_score) {
            self.best_score = round_score;
            self.best_solution = round_solution;
            let restart: usize = if counts_improving {
                update_frequency
            } else {
                0
            };
            self.return_stagnation_counter = restart;
            self.patience_stagnation_counter = restart;
        } else {
            self.return_stagnation_counter = self.return_stagnation_counter.saturating_add(
                update_frequency,
            );
            self.patience_stagnation_counter = self.patience_stagnation_counter.saturating_add(
                update_frequency,
            );
        }
        let goes_back = self.return_stagnation_counter >= return_iter;
        if goes_back {
            self.return_stagnation_counter = 0;
        }
        goes_back
    }
}

/// The rounds end where a multi-replica search ends: when its iterations
/// are used up, after a round that exhausted the patience, or at a
/// reading of the clock that had reached the time limit; and a search
/// whose time limit every reading has reached makes no round.
pub open spec fn rounds_stop_duly<S, ST: Ord>(
    patience: usize,
    return_iter: usize,
    update_frequency: usize,
    counts_improving: bool,
    seed: (S, ST),
    n_iter: usize,
    time_limit: Duration,
    rounds: Seq<Round<S, ST>>,
) -> bool {
    let book = book_before(
        seed,
        rounds,
        rounds.len() as int,
        update_frequency,
        return_iter,
        counts_improving,
    );
    &&& {
        ||| book.iter >= n_iter
        ||| rounds.len() > 0 && book.patience_stagnation >= patience
        ||| exists|elapsed: Duration| #[trigger] limit_reached(elapsed, time_limit)
    }
    &&& (forall|elapsed: Duration| #[trigger] limit_reached(elapsed, time_limit)) ==> rounds.len()
        == 0
}

/// `result` is what a round of Metropolis steps can bring for the member
/// at `place` of a family (a replica of a ladder, a member of a
/// population in a round), starting from a clone of the member's
/// solution: the summary of a run of at most `update_frequency`
/// iterations under the member's acceptance rule and the time limit
/// `time_limit`.
pub open spec fn is_member_result<M: OptModel, FA: IndexedProbabilityFn<M::ScoreType>>(
    model: &M,
    acceptance: &FA,
    place: usize,
    n_trials: usize,
    patience: usize,
    return_iter: usize,
    update_frequency: usize,
    time_limit: Duration,
    start: (M::SolutionType, M::ScoreType),
    result: StepResult<M::SolutionType, M::ScoreType>,
) -> bool {
    exists|solution: M::SolutionType|
        {
            &&& cloned(start.0, solution)
            &&& #[trigger] is_step_result(
                member_rule(acceptance, place),
                offers_of(model, n_trials as nat),
                patience as nat,
                return_iter as nat,
                (solution, start.1),
                update_frequency as nat,
                time_limit,
                result,
            )
        }
}

/// The best score that a member's round brings is never worse than the
/// score it started from, and its window is in order.
pub proof fn lemma_member_result_order<M: OptModel, FA: IndexedProbabilityFn<M::ScoreType>>(
    model: &M,
    acceptance: &FA,
    place: usize,
    n_trials: usize,
    patience: usize,
    return_iter: usize,
    update_frequency: usize,
    time_limit: Duration,
    start: (M::SolutionType, M::ScoreType),
    result: StepResult<M::SolutionType, M::ScoreType>,
)
    requires
        totally_ordered::<M::ScoreType>(),
        is_member_result(
            model,
            acceptance,
            place,
            n_trials,
            patience,
            return_iter,
            update_frequency,
            time_limit,
            start,
            result,
        ),
    ensures
        !better(start.1, result.best_score),
        !better(result.last_score, result.best_score),
        result.acceptance_counter.wf(),
{
    let solution = choose|solution: M::SolutionType|
        {
            &&& cloned(start.0, solution)
            &&& #[trigger] is_step_result(
                member_rule(acceptance, place),
                offers_of(model, n_trials as nat),
                patience as nat,
                return_iter as nat,
                (solution, start.1),
                update_frequency as nat,
                time_limit,
                result,
            )
        };
    lemma_step_result_order(
        member_rule(acceptance, place),
        offers_of(model, n_trials as nat),
        patience as nat,
        return_iter as nat,
        (solution, start.1),
        update_frequency as nat,
        time_limit,
        result,
    );
}

/// The Metropolis steps of one round for the member at `place` of a
/// family, from a clone of its solution: a search of at most
/// `update_frequency` iterations under the member's acceptance
/// probabilities, with a callback that does nothing.
pub fn member_round<M: OptModel, FA: IndexedProbabilityFn<M::ScoreType>>(
    model: &M,
    acceptance: &FA,
    place: usize,
    n_trials: usize,
    patience: usize,
    return_iter: usize,
    update_frequency: usize,
    solution: &M::SolutionType,
    score: M::ScoreType,
    time_limit: Duration,
) -> (result: StepResult<M::SolutionType, M::ScoreType>)
    requires
        totally_ordered::<M::ScoreType>(),
        n_trials > 0,
        defined_for_all(acceptance),
    ensures
        is_member_result(
            model,
            acceptance,
            place,
            n_trials,
            patience,
            return_iter,
            update_frequency,
            time_limit,
            (*solution, score),
            result,
        ),
{
    let start = solution.clone();
    let score_func = |current: M::ScoreType, trial: M::ScoreType| -> (p: Probability)
        requires
            callable_at(acceptance, place, current, trial),
        ensures
            gives(acceptance, place, current, trial, p),
        { acceptance(place, current, trial) };
    let metropolis = GenericLocalSearchOptimizer::new(patience, n_trials, return_iter, score_func);
    let silent = |_progress: OptProgress<M::SolutionType, M::ScoreType>| {};
    let result = metropolis.step(model, start, score, update_frequency, time_limit, &silent);
    proof {
        assert forall|current: M::ScoreType, trial: M::ScoreType, accepted: bool| #[trigger]
            rule_of(&score_func)(current, trial, accepted) implies member_rule(acceptance, place)(
            current,
            trial,
            accepted,
        ) by {
            if !better(trial, current) {
                let (p, draw) = choose|p: Probability, draw: u64|
                    {
                        &&& #[trigger] call_ensures(score_func, (current, trial), p)
                        &&& draw < RESOLUTION
                        &&& accepted == #[trigger] p.spec_admits(draw)
                    };
                assert(gives(acceptance, place, current, trial, p));
            }
        }
        lemma_step_result_weaker(
            rule_of(&score_func),
            member_rule(acceptance, place),
            offers_of(model, n_trials as nat),
            patience as nat,
            return_iter as nat,
            (start, score),
            update_frequency as nat,
            time_limit,
            result,
        );
        let given = (*solution, score);
        assert(is_step_result(
            member_rule(acceptance, place),
            offers_of(model, n_trials as nat),
            patience as nat,
            return_iter as nat,
            (start, given.1),
            update_frequency as nat,
            time_limit,
            result,
        ));
    }
    result
}

} // verus!
