//! Parallel tempering: replicas on a ladder of temperatures that trade
//! places.

use crate::callback::{accepts_all_progress, OptCallbackFn, OptProgress};
use crate::clock::{elapsed_since, limit_reached, now, reached, remaining, time_left};
use crate::model::OptModel;
use crate::optim::base::{
    callable_at, defined_for_all, drawn_from, gives, IndexedProbabilityFn, LocalSearchOptimizer,
};
use crate::optim::bookkeeping::StepResult;
use crate::optim::rounds::{
    best_result, book_before, first_round, is_member_result, is_round_best, is_rounds_course,
    is_sent_back, last_states, lemma_member_result_order, lemma_round_replay_keeps_order,
    lemma_rounds_course_extends, member_round, round_bests, round_observe, round_returns,
    rounds_stop_duly, send_back, take_in_round, Round, RoundBook, RoundKeeper,
};
use crate::order::totally_ordered;
use crate::probability::{uniform_draw, Probability, RESOLUTION};
use crate::utils::swap_entries;
use rayon::iter::{IndexedParallelIterator, IntoParallelRefIterator, ParallelIterator};
use std::marker::PhantomData;
use std::time::Duration;
use vstd::prelude::*;

verus! {

/// The replicas after the first `pairs` exchange decisions, taken from the
/// lower end of the ladder upwards: decision `i` exchanges the replicas at
/// `i` and `i + 1` as they then stand.
pub open spec fn exchanged<S, ST>(replicas: Seq<(S, ST)>, decisions: Seq<bool>, pairs: nat) -> Seq<
    (S, ST),
>
    decreases pairs,
{
    if pairs == 0 {
        replicas
    } else {
        let lower = (pairs - 1) as int;
        let before = exchanged(replicas, decisions, (pairs - 1) as nat);
        if decisions[lower] {
            before.update(lower, before[lower + 1]).update(lower + 1, before[lower])
        } else {
            before
        }
    }
}

/// The first `pairs` exchange decisions agree with the exchange
/// probabilities: for each of them, some probability that the function
/// returned for the lower place and the scores of the two neighbours, as
/// they stood when their turn came, admits some uniform draw exactly if
/// the two trade places.
pub open spec fn exchanges_drawn<S, ST: Ord + Sync + Send + Copy, FX: IndexedProbabilityFn<ST>>(
    exchange: &FX,
    replicas: Seq<(S, ST)>,
    decisions: Seq<bool>,
    pairs: nat,
) -> bool
    decreases pairs,
{
    if pairs == 0 {
        true
    } else {
        let lower = (pairs - 1) as int;
        let before = exchanged(replicas, decisions, (pairs - 1) as nat);
        &&& exchanges_drawn(exchange, replicas, decisions, (pairs - 1) as nat)
        &&& drawn_from(
            exchange,
            lower as usize,
            before[lower].1,
            before[lower + 1].1,
            decisions[lower],
        )
    }
}

/// A certain exchange is made whatever the draw: where every probability
/// that the exchange function can return for a pair is one, the decision
/// on the pair is to trade places.
pub proof fn lemma_certain_exchange_is_made<
    ST: Ord + Sync + Send + Copy,
    FX: IndexedProbabilityFn<ST>,
>(exchange: &FX, lower: usize, lower_score: ST, upper_score: ST, decided: bool)
    requires
        forall|p: Probability| #[trigger]
            gives(exchange, lower, lower_score, upper_score, p) ==> p.threshold() >= RESOLUTION,
        drawn_from(exchange, lower, lower_score, upper_score, decided),
    ensures
        decided,
{
}

/// Later decisions leave the earlier ones, and the replicas after them,
/// as they were.
pub proof fn lemma_exchanged_push<S, ST: Ord + Sync + Send + Copy, FX: IndexedProbabilityFn<ST>>(
    exchange: &FX,
    replicas: Seq<(S, ST)>,
    decisions: Seq<bool>,
    next: bool,
    pairs: nat,
)
    requires
        pairs <= decisions.len(),
    ensures
        exchanged(replicas, decisions.push(next), pairs) == exchanged(replicas, decisions, pairs),
        exchanges_drawn(exchange, replicas, decisions.push(next), pairs) == exchanges_drawn(
            exchange,
            replicas,
            decisions,
            pairs,
        ),
    decreases pairs,
{
    if pairs > 0 {
        lemma_exchanged_push(exchange, replicas, decisions, next, (pairs - 1) as nat);
        assert(decisions.push(next)[pairs - 1] == decisions[pairs - 1]);
    }
}

/// One more exchange decision that agrees with the exchange
/// probabilities extends a sequence of such decisions.
pub proof fn lemma_exchange_decided<S, ST: Ord + Sync + Send + Copy, FX: IndexedProbabilityFn<ST>>(
    exchange: &FX,
    replicas: Seq<(S, ST)>,
    decisions: Seq<bool>,
    next: bool,
)
    requires
        decisions.len() + 1 < replicas.len(),
        exchanges_drawn(exchange, replicas, decisions, decisions.len()),
        ({
            let lower = decisions.len() as int;
            let before = exchanged(replicas, decisions, decisions.len());
            drawn_from(exchange, lower as usize, before[lower].1, before[lower + 1].1, next)
        }),
    ensures
        exchanges_drawn(exchange, replicas, decisions.push(next), decisions.len() + 1),
        ({
            let lower = decisions.len() as int;
            let before = exchanged(replicas, decisions, decisions.len());
            exchanged(replicas, decisions.push(next), decisions.len() + 1) == if next {
                before.update(lower, before[lower + 1]).update(lower + 1, before[lower])
            } else {
                before
            }
        }),
{
    lemma_exchanged_push(exchange, replicas, decisions, next, decisions.len());
    assert(decisions.push(next)[decisions.len() as int] == next);
}

/// The replicas at the start: as many as the ladder has places, each
/// with the initial score and the initial solution or a clone of it.
pub open spec fn is_first_ladder<S: Clone, ST>(
    initial: (S, ST),
    n_replicas: usize,
    replicas: Seq<(S, ST)>,
) -> bool {
    &&& replicas.len() == n_replicas
    &&& forall|i: int|
        0 <= i < replicas.len() ==> (#[trigger] replicas[i]).1 == initial.1 && cloned(
            initial.0,
            replicas[i].0,
        )
}

/// The replicas ran their steps of a round with the acceptance
/// probabilities of their places, from where they stood, in the time
/// that a reading of `elapsed` left of the time limit.
pub open spec fn ladder_ran<M: OptModel, FA: IndexedProbabilityFn<M::ScoreType>>(
    model: &M,
    acceptance: &FA,
    n_trials: usize,
    patience: usize,
    return_iter: usize,
    update_frequency: usize,
    time_limit: Duration,
    elapsed: Duration,
    before: Seq<(M::SolutionType, M::ScoreType)>,
    results: Seq<StepResult<M::SolutionType, M::ScoreType>>,
) -> bool {
    &&& !limit_reached(elapsed, time_limit)
    &&& results.len() == before.len()
    &&& forall|i: int|
        0 <= i < before.len() ==> is_member_result(
            model,
            acceptance,
            i as usize,
            n_trials,
            patience,
            return_iter,
            update_frequency,
            time_left(time_limit, elapsed),
            before[i],
            #[trigger] results[i],
        )
}

/// Whether a round is one that parallel tempering can make, given the
/// book before it.
///
/// The clock had not reached the time limit, and every replica ran its
/// steps in the time that was left, with the acceptance probabilities of
/// its place, from where it stood. The round's best is the best of the
/// first of the best results. The replicas go on from where their steps
/// ended; where the return stagnation has reached `return_iter`, one of
/// them is sent back to the best solution first. Unless the patience is
/// then exhausted, each pair of neighbours trades places as the exchange
/// probabilities and a draw decide, from the lower end upwards.
pub open spec fn is_ladder_round<
    M: OptModel,
    FA: IndexedProbabilityFn<M::ScoreType>,
    FX: IndexedProbabilityFn<M::ScoreType>,
>(
    model: &M,
    acceptance: &FA,
    exchange: &FX,
    n_trials: usize,
    patience: usize,
    return_iter: usize,
    update_frequency: usize,
    time_limit: Duration,
    before: RoundBook<M::SolutionType, M::ScoreType>,
    round: Round<M::SolutionType, M::ScoreType>,
) -> bool {
    let after = round_observe(before, round.round_best, update_frequency, return_iter, false);
    &&& exists|elapsed: Duration| #[trigger]
        ladder_ran(
            model,
            acceptance,
            n_trials,
            patience,
            return_iter,
            update_frequency,
            time_limit,
            elapsed,
            round.before,
            round.results,
        )
    &&& is_round_best(round.results, round.round_best)
    &&& exists|returned: Seq<(M::SolutionType, M::ScoreType)>, decisions: Seq<bool>|
        {
            &&& if round_returns(
                before,
                round.round_best.1,
                update_frequency,
                return_iter,
                false,
            ) {
                is_sent_back(last_states(round.results), after.best, returned)
            } else {
                returned == last_states(round.results)
            }
            &&& if after.patience_stagnation >= patience {
                round.after == returned
            } else {
                &&& decisions.len() == returned.len() - 1
                &&& exchanges_drawn(exchange, returned, decisions, decisions.len())
                &&& round.after == #[trigger] exchanged(returned, decisions, decisions.len())
            }
        }
}

/// The rounds that parallel tempering can make, as a relation between
/// the number of a round, the book before it and the round.
pub open spec fn ladder_rounds<
    M: OptModel,
    FA: IndexedProbabilityFn<M::ScoreType>,
    FX: IndexedProbabilityFn<M::ScoreType>,
>(
    model: &M,
    acceptance: &FA,
    exchange: &FX,
    n_trials: usize,
    patience: usize,
    return_iter: usize,
    update_frequency: usize,
    time_limit: Duration,
) -> spec_fn(
    int,
    RoundBook<M::SolutionType, M::ScoreType>,
    Round<M::SolutionType, M::ScoreType>,
) -> bool {
    |
        k: int,
        before: RoundBook<M::SolutionType, M::ScoreType>,
        round: Round<M::SolutionType, M::ScoreType>,
    |
        is_ladder_round(
            model,
            acceptance,
            exchange,
            n_trials,
            patience,
            return_iter,
            update_frequency,
            time_limit,
            before,
            round,
        )
}

/// `result` is what parallel tempering with the given parameters can
/// return: the best solution, with its score, of a run of rounds from as
/// many replicas of the initial solution as the ladder has places, up to
/// where the search ends.
pub open spec fn is_ladder_result<
    M: OptModel,
    FA: IndexedProbabilityFn<M::ScoreType>,
    FX: IndexedProbabilityFn<M::ScoreType>,
>(
    model: &M,
    acceptance: &FA,
    exchange: &FX,
    n_trials: usize,
    n_replicas: usize,
    patience: usize,
    return_iter: usize,
    update_frequency: usize,
    initial: (M::SolutionType, M::ScoreType),
    n_iter: usize,
    time_limit: Duration,
    result: (M::SolutionType, M::ScoreType),
) -> bool {
    exists|
        first: Seq<(M::SolutionType, M::ScoreType)>,
        rounds: Seq<Round<M::SolutionType, M::ScoreType>>,
    |
        {
            &&& is_first_ladder(initial, n_replicas, first)
            &&& #[trigger] is_rounds_course(
                ladder_rounds(
                    model,
                    acceptance,
                    exchange,
                    n_trials,
                    patience,
                    return_iter,
                    update_frequency,
                    time_limit,
                ),
                first,
                patience,
                return_iter,
                update_frequency,
                false,
                initial,
                n_iter,
                rounds,
            )
            &&& rounds_stop_duly(
                patience,
                return_iter,
                update_frequency,
                false,
                initial,
                n_iter,
                time_limit,
                rounds,
            )
            &&& result == book_before(
                initial,
                rounds,
                rounds.len() as int,
                update_frequency,
                return_iter,
                false,
            ).best
        }
}

/// Parallel Tempering (Replica Exchange) optimizer
/// Runs multiple Metropolis replicas at different temperatures.
///
/// The ladder is given by two families of probabilities: `acceptance`
/// tells, for the replica at a place, with what probability it accepts a
/// trial that does not improve on its current solution; `exchange` tells,
/// for the lower place of a pair of neighbours and their two scores, with
/// what probability the two trade places.
pub struct ParallelTemperingOptimizer<
    ST: Ord + Sync + Send + Copy,
    FA: IndexedProbabilityFn<ST>,
    FX: IndexedProbabilityFn<ST>,
> {
    /// The optimizer will give up if there is no improvement of the score after this number of iterations
    patience: usize,
    /// Number of trial solutions to generate and evaluate at each Metropolis step
    n_trials: usize,
    /// Returns to the best solution if there is no improvement after this number of iterations
    return_iter: usize,
    /// Number of replicas
    n_replicas: usize,
    /// Number of Metropolis steps to run per replica between exchange attempts
    update_frequency: usize,
    acceptance: FA,
    exchange: FX,
    phantom: PhantomData<ST>,
}

impl<
    ST: Ord + Sync + Send + Copy,
    FA: IndexedProbabilityFn<ST>,
    FX: IndexedProbabilityFn<ST>,
> ParallelTemperingOptimizer<ST, FA, FX> {
    /// Iterations without improvement after which the search gives up.
    pub closed spec fn patience(&self) -> usize {
        self.patience
    }

    /// Number of trial solutions generated at each Metropolis step.
    pub closed spec fn n_trials(&self) -> usize {
        self.n_trials
    }

    /// Iterations without improvement after which a replica goes_back to
    /// the best solution.
    pub closed spec fn return_iter(&self) -> usize {
        self.return_iter
    }

    /// Number of replicas.
    pub closed spec fn n_replicas(&self) -> usize {
        self.n_replicas
    }

    /// Number of Metropolis steps per replica between exchange attempts.
    pub closed spec fn update_frequency(&self) -> usize {
        self.update_frequency
    }

    /// The acceptance probabilities of the replicas.
    pub closed spec fn acceptance(&self) -> FA {
        self.acceptance
    }

    /// The exchange probabilities of neighbouring replicas.
    pub closed spec fn exchange(&self) -> FX {
        self.exchange
    }

    /// There is a replica, a trial per step and a step per round, and
    /// both families of probabilities are defined everywhere.
    #[verifier::type_invariant]
    pub closed spec fn usable(&self) -> bool {
        &&& self.n_trials > 0
        &&& self.n_replicas > 0
        &&& self.update_frequency > 0
        &&& defined_for_all(&self.acceptance)
        &&& defined_for_all(&self.exchange)
    }

    /// Create a ParallelTemperingOptimizer with an explicit ladder
    pub fn new(
        patience: usize,
        n_trials: usize,
        return_iter: usize,
        n_replicas: usize,
        acceptance: FA,
        exchange: FX,
        update_frequency: usize,
    ) -> (optimizer: Self)
        requires
            n_trials > 0,
            n_replicas > 0,
            update_frequency > 0,
            defined_for_all(&acceptance),
            defined_for_all(&exchange),
        ensures
            optimizer.patience() == patience,
            optimizer.n_trials() == n_trials,
            optimizer.return_iter() == return_iter,
            optimizer.n_replicas() == n_replicas,
            optimizer.update_frequency() == update_frequency,
            optimizer.acceptance() == acceptance,
            optimizer.exchange() == exchange,
    {
        Self {
            patience,
            n_trials,
            return_iter,
            n_replicas,
            update_frequency,
            acceptance,
            exchange,
            phantom: PhantomData,
        }
    }

    /// The Metropolis steps of one round for the replica at `replica`,
    /// from a clone of its solution.
    pub fn replica_step<M: OptModel<ScoreType = ST>>(
        &self,
        model: &M,
        replica: usize,
        solution: &M::SolutionType,
        score: ST,
        time_limit: Duration,
    ) -> (result: StepResult<M::SolutionType, ST>)
        requires
            totally_ordered::<ST>(),
        ensures
            is_member_result(
                model,
                &self.acceptance(),
                replica,
                self.n_trials(),
                self.patience(),
                self.return_iter(),
                self.update_frequency(),
                time_limit,
                (*solution, score),
                result,
            ),
    {
        proof {
            use_type_invariant(self);
        }
        member_round(
            model,
            &self.acceptance,
            replica,
            self.n_trials,
            self.patience,
            self.return_iter,
            self.update_frequency,
            solution,
            score,
            time_limit,
        )
    }

    /// One round for every replica: the Metropolis steps of each, on the
    /// workers of rayon's pool. A parallel iterator over the replicas with
    /// their places, mapped and collected into a vector, gives one result
    /// per replica, in order: each is what `replica_step` returned for
    /// the replica and its place.
    #[verifier::external_body]
    fn run_replicas<M: OptModel<ScoreType = ST>>(
        &self,
        model: &M,
        replicas: &Vec<(M::SolutionType, ST)>,
        time_limit: Duration,
    ) -> (results: Vec<StepResult<M::SolutionType, ST>>) where FA: Sync, FX: Sync
        requires
            totally_ordered::<ST>(),
        ensures
            results@.len() == replicas@.len(),
            forall|i: int|
                0 <= i < replicas@.len() ==> is_member_result(
                    model,
                    &self.acceptance(),
                    i as usize,
                    self.n_trials(),
                    self.patience(),
                    self.return_iter(),
                    self.update_frequency(),
                    time_limit,
                    replicas@[i],
                    #[trigger] results@[i],
                ),
    {
        replicas.par_iter().enumerate().map(
            |(replica, member)| self.replica_step(model, replica, &member.0, member.1, time_limit),
        ).collect()
    }

    /// Attempts an exchange between each pair of neighbouring replicas,
    /// from the lower end of the ladder upwards.
    ///
    /// A pair trades places exactly if the exchange probability for its
    /// lower place and the scores of the two, as they then stand, admits
    /// a uniform draw; a certain exchange is made without a draw.
    pub fn exchange_pass<S>(&self, replicas: &mut Vec<(S, ST)>)
        requires
            old(replicas)@.len() > 0,
        ensures
            final(replicas)@.len() == old(replicas)@.len(),
            exists|decisions: Seq<bool>|
                {
                    &&& decisions.len() == old(replicas)@.len() - 1
                    &&& exchanges_drawn(
                        &self.exchange(),
                        old(replicas)@,
                        decisions,
                        decisions.len(),
                    )
                    &&& final(replicas)@ == #[trigger] exchanged(
                        old(replicas)@,
                        decisions,
                        decisions.len(),
                    )
                },
    {
        proof {
            use_type_invariant(self);
        }
        let ghost before = replicas@;
        let ghost mut decisions: Seq<bool> = Seq::empty();
        let pairs = replicas.len() - 1;
        let mut i: usize = 0;
        while i < pairs
            invariant
                defined_for_all(&self.exchange),
                before.len() > 0,
                pairs == before.len() - 1,
                0 <= i <= pairs,
                decisions.len() == i,
                replicas@.len() == before.len(),
                replicas@ == exchanged(before, decisions, i as nat),
                exchanges_drawn(&self.exchange, before, decisions, i as nat),
            decreases pairs - i,
        {
            let lower_score = replicas[i].1;
            let upper_score = replicas[i + 1].1;
            assert(callable_at(&self.exchange, i, lower_score, upper_score));
            let p = (self.exchange)(i, lower_score, upper_score);
            let accept = if p.is_certain() {
                proof {
                    assert(p.spec_admits(0u64));
                }
                true
            } else {
                let draw: u64 = uniform_draw();
                p.admits(draw)
            };
            proof {
                assert(gives(&self.exchange, i, lower_score, upper_score, p));
                assert(drawn_from(&self.exchange, i, lower_score, upper_score, accept));
                lemma_exchange_decided(&self.exchange, before, decisions, accept);
                decisions = decisions.push(accept);
            }
            if accept {
                swap_entries(replicas, i, i + 1);
            }
            i = i + 1;
        }
    }
}

impl<ST, FA, FX, M> LocalSearchOptimizer<M> for ParallelTemperingOptimizer<ST, FA, FX> where
    ST: Ord + Sync + Send + Copy,
    FA: IndexedProbabilityFn<ST> + Sync,
    FX: IndexedProbabilityFn<ST> + Sync,
    M: OptModel<ScoreType = ST>,
 {
    open spec fn can_return(
        &self,
        model: &M,
        initial: (M::SolutionType, M::ScoreType),
        n_iter: usize,
        time_limit: Duration,
        result: (M::SolutionType, M::ScoreType),
    ) -> bool {
        is_ladder_result(
            model,
            &self.acceptance(),
            &self.exchange(),
            self.n_trials(),
            self.n_replicas(),
            self.patience(),
            self.return_iter(),
            self.update_frequency(),
            initial,
            n_iter,
            time_limit,
            result,
        )
    }

    /// Start optimization
    ///
    /// - `model`: the model to optimize
    /// - `initial_solution`: the initial solution to start optimization
    /// - `initial_score`: the initial score of the initial solution
    /// - `n_iter`: maximum iterations
    /// - `time_limit`: maximum iteration time
    /// - `callback`: callback function that will be invoked at the end of each iteration
    fn optimize<C: OptCallbackFn<M::SolutionType, M::ScoreType>>(
        &self,
        model: &M,
        initial_solution: M::SolutionType,
        initial_score: M::ScoreType,
        n_iter: usize,
        time_limit: Duration,
        callback: &C,
    ) -> (result: (M::SolutionType, M::ScoreType)) {
        proof {
            use_type_invariant(self);
        }
        let start_time = now();
        let n_replicas = self.n_replicas;

        // Initialize replicas: every replica starts from the initial solution
        let mut replicas: Vec<(M::SolutionType, ST)> = Vec::new();
        let mut filled: usize = 0;
        while filled < n_replicas
            invariant
                filled <= n_replicas,
                is_first_ladder((initial_solution, initial_score), filled, replicas@),
            decreases n_replicas - filled,
        {
            replicas.push((initial_solution.clone(), initial_score));
            filled = filled + 1;
        }
        let mut keeper = RoundKeeper::new(initial_solution, initial_score);

        let ghost initial = (initial_solution, initial_score);
        let ghost first = replicas@;
        let ghost mut rounds: Seq<Round<M::SolutionType, ST>> = Seq::empty();
        let ghost uf = self.update_frequency;
        let ghost ri = self.return_iter;
        let ghost valid = ladder_rounds(
            model,
            &self.acceptance,
            &self.exchange,
            self.n_trials,
            self.patience,
            ri,
            uf,
            time_limit,
        );
        proof {
            assert(round_bests(rounds).take(0) =~= Seq::<(M::SolutionType, ST)>::empty());
        }

        while keeper.iter() < n_iter
            invariant_except_break
                keeper.book().patience_stagnation < self.patience || rounds.len() == 0,
                replicas@ == if rounds.len() == 0 {
                    first
                } else {
                    rounds.last().after
                },
            invariant
                totally_ordered::<ST>(),
                accepts_all_progress(callback),
                self.usable(),
                uf == self.update_frequency,
                ri == self.return_iter,
                n_replicas == self.n_replicas,
                initial == (initial_solution, initial_score),
                valid == ladder_rounds(
                    model,
                    &self.acceptance,
                    &self.exchange,
                    self.n_trials,
                    self.patience,
                    ri,
                    uf,
                    time_limit,
                ),
                replicas@.len() == n_replicas,
                first.len() == n_replicas,
                keeper.book() == book_before(initial, rounds, rounds.len() as int, uf, ri, false),
                is_rounds_course(
                    valid,
                    first,
                    self.patience,
                    ri,
                    uf,
                    false,
                    initial,
                    n_iter,
                    rounds,
                ),
                rounds.len() == 0 || exists|elapsed: Duration|
                    !(#[trigger] limit_reached(elapsed, time_limit)),
            ensures
                keeper.book().iter >= n_iter || (rounds.len() > 0
                    && keeper.book().patience_stagnation >= self.patience) || exists|
                    elapsed: Duration,
                | #[trigger] limit_reached(elapsed, time_limit),
            decreases
                    if keeper.book().iter < n_iter {
                        n_iter - keeper.book().iter
                    } else {
                        0
                    },
        {
            let elapsed = elapsed_since(&start_time);
            if reached(&elapsed, &time_limit) {
                assert(limit_reached(elapsed, time_limit));
                break ;
            }
            assert(!limit_reached(elapsed, time_limit));
            // Run Metropolis on each replica in parallel
            let time_remaining = remaining(&time_limit, &elapsed);
            let step_results = self.run_replicas(model, &replicas, time_remaining);
            let ghost before = replicas@;
            let ghost results = step_results@;
            let ghost book = keeper.book();

            // Update best solution and score based on step_results
            let place = best_result(&step_results);
            let round_score = step_results[place].best_score;
            proof {
                assert forall|i: int| 0 <= i < results.len() implies (
                #[trigger] results[i]).acceptance_counter.wf() by {
                    lemma_member_result_order(
                        model,
                        &self.acceptance,
                        i as usize,
                        self.n_trials,
                        self.patience,
                        ri,
                        uf,
                        time_remaining,
                        before[i],
                        results[i],
                    );
                }
            }
            // Compute acceptance ratio; the replicas go on from where their steps ended
            let (last, round_solution, acceptance_ratio) = take_in_round(step_results, place);
            replicas = last;
            let ghost round_best = (round_solution, round_score);
            let goes_back = keeper.observe(
                round_solution,
                round_score,
                self.update_frequency,
                self.return_iter,
                false,
            );

            // Check and handle return to best
            if goes_back {
                send_back(&mut replicas, keeper.best(), keeper.best_score());
            }
            let ghost returned = replicas@;

            // Check patience
            let stop = keeper.gives_up(self.patience);
            if !stop {
                // Attempt exchanges between adjacent replicas
                self.exchange_pass(&mut replicas);
            }
            proof {
                let next = Round { before, results, round_best, after: replicas@ };
                assert(is_round_best(results, round_best));
                let after = round_observe(book, round_best, uf, ri, false);
                assert(after == keeper.book());
                let decisions = if stop {
                    Seq::<bool>::empty()
                } else {
                    choose|decisions: Seq<bool>|
                        {
                            &&& decisions.len() == returned.len() - 1
                            &&& exchanges_drawn(
                                &self.exchange(),
                                returned,
                                decisions,
                                decisions.len(),
                            )
                            &&& replicas@ == #[trigger] exchanged(
                                returned,
                                decisions,
                                decisions.len(),
                            )
                        }
                };
                assert(exchanged(returned, decisions, decisions.len()) == replicas@);
                assert(if round_returns(book, round_best.1, uf, ri, false) {
                    is_sent_back(last_states(results), after.best, returned)
                } else {
                    returned == last_states(results)
                });
                assert(ladder_ran(
                    model,
                    &self.acceptance,
                    self.n_trials,
                    self.patience,
                    ri,
                    uf,
                    time_limit,
                    elapsed,
                    next.before,
                    next.results,
                ));
                assert(is_ladder_round(
                    model,
                    &self.acceptance,
                    &self.exchange,
                    self.n_trials,
                    self.patience,
                    ri,
                    uf,
                    time_limit,
                    book,
                    next,
                ));
                lemma_rounds_course_extends(
                    valid,
                    first,
                    self.patience,
                    ri,
                    uf,
                    false,
                    initial,
                    n_iter,
                    rounds,
                    next,
                );
                rounds = rounds.push(next);
            }
            if stop {
                break ;
            }
            // Invoke callback
            let progress = OptProgress::new(
                keeper.iter(),
                acceptance_ratio,
                keeper.best(),
                keeper.best_score(),
            );
            callback(progress);
        }
        proof {
            lemma_round_replay_keeps_order(
                first_round(initial.0, initial.1),
                round_bests(rounds),
                uf,
                ri,
                false,
            );
            assert(round_bests(rounds).take(rounds.len() as int) =~= round_bests(rounds));
            assert(is_first_ladder(initial, self.n_replicas(), first));
            assert(is_rounds_course(
                ladder_rounds(
                    model,
                    &self.acceptance(),
                    &self.exchange(),
                    self.n_trials(),
                    self.patience(),
                    self.return_iter(),
                    self.update_frequency(),
                    time_limit,
                ),
                first,
                self.patience(),
                self.return_iter(),
                self.update_frequency(),
                false,
                initial,
                n_iter,
                rounds,
            ));
            assert(rounds_stop_duly(
                self.patience(),
                self.return_iter(),
                self.update_frequency(),
                false,
                initial,
                n_iter,
                time_limit,
                rounds,
            ));
        }
        keeper.into_best()
    }
}

} // verus!
