//! Tabu search: a list of forbidden moves in place of a probability.

use crate::callback::{accepts_all_progress, OptCallbackFn, OptProgress};
use crate::clock::{elapsed_since, limit_reached, now, reached};
use crate::counter::AcceptanceRatio;
use crate::model::{generate_trials, is_offer, OptModel, Trial};
use crate::optim::base::LocalSearchOptimizer;
use crate::optim::bookkeeping::{
    best_leads, exhausted, lemma_observe_keeps_order, observe, pass, reports_best, start,
    Bookkeeping, Observation, SearchState,
};
use crate::optim::generic::trial_scores;
use crate::order::{
    better, is_better, lemma_better_irreflexive, lemma_not_better_transitive, totally_ordered,
};
use std::marker::PhantomData;
use std::time::Duration;
use vstd::prelude::*;

verus! {

/// Trait that a tabu list must satisfies
pub trait TabuList: Default {
    /// The type of item stored in the tabu list.
    type Item: Clone + Sync + Send;

    /// Set the length of the tabu list
    fn set_size(&mut self, n: usize);

    /// Check if the item is a Tabu
    fn contains(&self, transition: &Self::Item) -> bool;

    /// Append the item to the list
    fn append(&mut self, transition: Self::Item);
}

/// The scores ascend: no later score is better than an earlier one.
pub open spec fn ascending<ST: Ord>(scores: Seq<ST>) -> bool {
    forall|i: int, j: int| 0 <= i <= j < scores.len() ==> !better(scores[j], scores[i])
}

/// Sorts the trials by score, best first, with the slice method
/// `sort_unstable_by_key` of std: afterwards the vector holds the same
/// trials, in ascending order of their scores. The order among equal
/// scores is left open. std asks that the keys be totally ordered.
#[verifier::external_body]
pub(crate) fn sort_by_score<S, T, ST: Ord + Copy>(samples: &mut Vec<(S, T, ST)>)
    requires
        totally_ordered::<ST>(),
    ensures
        final(samples)@.to_multiset() == old(samples)@.to_multiset(),
        final(samples)@.len() == old(samples)@.len(),
        ascending(trial_scores(final(samples)@)),
{
    samples.sort_unstable_by_key(|sample| sample.2);
}

/// The candidate is open to acceptance: its score is strictly better than
/// the best known (aspiration), or the tabu list was asked about its move
/// and does not hold it.
pub open spec fn passes<S, L: TabuList, ST: Ord>(
    candidate: (S, L::Item, ST),
    tabu_list: &L,
    best_score: ST,
) -> bool {
    better(candidate.2, best_score) || call_ensures(L::contains, (tabu_list, &candidate.1), false)
}

/// The candidate is barred: its score is not better than the best known,
/// and the tabu list was asked about its move and holds it.
pub open spec fn barred<S, L: TabuList, ST: Ord>(
    candidate: (S, L::Item, ST),
    tabu_list: &L,
    best_score: ST,
) -> bool {
    !better(candidate.2, best_score) && call_ensures(L::contains, (tabu_list, &candidate.1), true)
}

/// `found` is the choice among `samples`: the place of the first candidate
/// that passes, all before it being barred, or nothing where all are
/// barred.
pub open spec fn is_choice<S, L: TabuList, ST: Ord>(
    samples: Seq<(S, L::Item, ST)>,
    tabu_list: &L,
    best_score: ST,
    found: Option<int>,
) -> bool {
    match found {
        Some(place) => {
            &&& 0 <= place < samples.len()
            &&& passes(samples[place], tabu_list, best_score)
            &&& forall|j: int|
                0 <= j < place ==> barred(#[trigger] samples[j], tabu_list, best_score)
        },
        None => forall|j: int|
            0 <= j < samples.len() ==> barred(#[trigger] samples[j], tabu_list, best_score),
    }
}

/// A tabu list that answers by what it holds bars the moves it holds and
/// no others, but for aspiration: a candidate whose score is not better
/// than the best known passes exactly if the list does not hold its move,
/// and is barred exactly if it does; a candidate with a better score
/// passes whatever the list holds.
pub proof fn lemma_held_moves_are_barred<S, L: TabuList, ST: Ord>(
    candidate: (S, L::Item, ST),
    tabu_list: &L,
    best_score: ST,
    held: bool,
)
    requires
        call_ensures(L::contains, (tabu_list, &candidate.1), held),
        forall|answer: bool| #[trigger]
            call_ensures(L::contains, (tabu_list, &candidate.1), answer) ==> answer == held,
    ensures
        passes(candidate, tabu_list, best_score) <==> better(candidate.2, best_score) || !held,
        barred(candidate, tabu_list, best_score) <==> !better(candidate.2, best_score) && held,
{
}

/// Appends the move to the tabu list: the list becomes what its `append`
/// makes of it.
pub fn append_move<L: TabuList>(tabu_list: &mut L, item: L::Item)
    ensures
        exists|list: &mut L|
            {
                &&& *list == *old(tabu_list)
                &&& *final(list) == *final(tabu_list)
                &&& #[trigger] call_ensures(L::append, (list, item), ())
            },
{
    let append = L::append;
    append(tabu_list, item);
}

/// Sets the length of the tabu list: the list becomes what its
/// `set_size` makes of it.
pub fn set_list_size<L: TabuList>(tabu_list: &mut L, n: usize)
    ensures
        exists|list: &mut L|
            {
                &&& *list == *old(tabu_list)
                &&& *final(list) == *final(tabu_list)
                &&& #[trigger] call_ensures(L::set_size, (list, n), ())
            },
{
    let set_size = L::set_size;
    set_size(tabu_list, n);
}

/// The first of the samples, in the order given, whose score is strictly
/// better than `best_score` or whose move the tabu list does not hold.
pub fn find_accepted_solution<M, L>(
    samples: Vec<Trial<M>>,
    tabu_list: &L,
    best_score: M::ScoreType,
) -> (accepted: Option<Trial<M>>) where M: OptModel, L: TabuList<Item = M::TransitionType>
    requires
        totally_ordered::<M::ScoreType>(),
    ensures
        exists|found: Option<int>|
            {
                &&& #[trigger] is_choice(samples@, tabu_list, best_score, found)
                &&& match found {
                    Some(place) => accepted == Some(samples@[place]),
                    None => accepted is None,
                }
            },
{
    let ghost all = samples@;
    let mut rest = samples;
    let mut k: usize = 0;
    while k < rest.len()
        invariant
            totally_ordered::<M::ScoreType>(),
            rest@ == all,
            all == samples@,
            0 <= k <= all.len(),
            forall|j: int| 0 <= j < k ==> barred(#[trigger] all[j], tabu_list, best_score),
        decreases all.len() - k,
    {
        // Aspiration Criterion, or Not Tabu
        let is_tabu = L::contains;
        if is_better(rest[k].2, best_score) || !is_tabu(tabu_list, &rest[k].1) {
            let taken = rest.swap_remove(k);
            assert(is_choice(all, tabu_list, best_score, Some(k as int)));
            return Some(taken);
        }
        k = k + 1;
    }
    assert(is_choice(all, tabu_list, best_score, None));
    None
}

/// The bookkeeping after one tabu iteration: an accepted candidate is
/// taken in as an accepted trial, and an iteration without one only adds
/// to the stagnation.
pub open spec fn tabu_observe<S, ST: Ord>(
    before: Bookkeeping<S, ST>,
    taken: Option<(S, ST)>,
    return_iter: nat,
) -> Bookkeeping<S, ST> {
    match taken {
        Some(candidate) => observe(
            before,
            Observation { solution: candidate.0, score: candidate.1, accepted: true },
            return_iter,
        ),
        None => pass(before, return_iter),
    }
}

/// The bookkeeping after a sequence of tabu iterations.
pub open spec fn tabu_replay<S, ST: Ord>(
    before: Bookkeeping<S, ST>,
    taken: Seq<Option<(S, ST)>>,
    return_iter: nat,
) -> Bookkeeping<S, ST>
    decreases taken.len(),
{
    if taken.len() == 0 {
        before
    } else {
        tabu_observe(tabu_replay(before, taken.drop_last(), return_iter), taken.last(), return_iter)
    }
}

/// `taken` is a course that the tabu search can take from `initial`: it
/// has at most `n_iter` iterations, and no iteration follows one that
/// exhausted the patience.
pub open spec fn is_tabu_course<S, ST: Ord>(
    patience: nat,
    return_iter: nat,
    initial: (S, ST),
    n_iter: nat,
    taken: Seq<Option<(S, ST)>>,
) -> bool {
    &&& taken.len() <= n_iter
    &&& forall|k: int|
        0 < k < taken.len() ==> !exhausted(
            #[trigger] tabu_replay(start(initial.0, initial.1), taken.take(k), return_iter),
            patience,
        )
}

/// What one iteration of a tabu search meets: the trials, sorted by
/// score, and the place of the candidate that is taken, if one is.
pub struct TabuStep<S, T, ST> {
    /// The trials of the iteration in ascending order of their scores.
    pub samples: Seq<(S, T, ST)>,
    /// The place of the taken candidate among the samples.
    pub found: Option<int>,
}

/// The candidate that an iteration takes, with its score.
pub open spec fn taken_of<S, T, ST>(step: TabuStep<S, T, ST>) -> Option<(S, ST)> {
    match step.found {
        Some(place) => Some((step.samples[place].0, step.samples[place].2)),
        None => None,
    }
}

/// The candidates that a sequence of iterations takes.
pub open spec fn takens<S, T, ST>(steps: Seq<TabuStep<S, T, ST>>) -> Seq<Option<(S, ST)>> {
    steps.map_values(|step: TabuStep<S, T, ST>| taken_of(step))
}

/// `samples` are `n_trials` trials that the model can propose around
/// `current`, in ascending order of their scores.
pub open spec fn is_sorted_offer<M: OptModel>(
    model: &M,
    n_trials: nat,
    current: (M::SolutionType, M::ScoreType),
    samples: Seq<Trial<M>>,
) -> bool {
    &&& ascending(trial_scores(samples))
    &&& exists|offer: Seq<Trial<M>>|
        #[trigger] is_offer(model, n_trials, current, offer) && samples.to_multiset()
            == offer.to_multiset()
}

/// The bookkeeping before iteration `k` of a tabu search.
pub open spec fn tabu_state_before<S, T, ST: Ord>(
    initial: (S, ST),
    steps: Seq<TabuStep<S, T, ST>>,
    k: int,
    return_iter: nat,
) -> Bookkeeping<S, ST> {
    tabu_replay(start(initial.0, initial.1), takens(steps).take(k), return_iter)
}

/// Every iteration of `steps` chooses as the tabu search does, with the
/// tabu lists `lists` before and after each of them.
///
/// The samples of an iteration are trials around the solution that was
/// current, sorted by score; what is taken is the first candidate that
/// passes by aspiration or because the list, as it then stands, does not
/// hold its move; an iteration that takes nothing leaves the list as it
/// is.
pub open spec fn is_tabu_choices<M: OptModel, L: TabuList<Item = M::TransitionType>>(
    model: &M,
    n_trials: nat,
    return_iter: nat,
    initial: (M::SolutionType, M::ScoreType),
    first_list: L,
    steps: Seq<TabuStep<M::SolutionType, M::TransitionType, M::ScoreType>>,
    lists: Seq<L>,
) -> bool {
    &&& lists.len() == steps.len() + 1
    &&& lists[0] == first_list
    &&& forall|k: int|
        0 <= k < steps.len() ==> {
            let before = #[trigger] tabu_state_before(initial, steps, k, return_iter);
            &&& is_sorted_offer(model, n_trials, before.current, steps[k].samples)
            &&& is_choice(steps[k].samples, &lists[k], before.best.1, steps[k].found)
            &&& steps[k].found is None ==> lists[k + 1] == lists[k]
        }
}

/// One more iteration extends a course of the tabu search.
pub proof fn lemma_tabu_course_extends<M: OptModel, L: TabuList<Item = M::TransitionType>>(
    model: &M,
    n_trials: nat,
    patience: nat,
    return_iter: nat,
    initial: (M::SolutionType, M::ScoreType),
    n_iter: nat,
    first_list: L,
    steps: Seq<TabuStep<M::SolutionType, M::TransitionType, M::ScoreType>>,
    lists: Seq<L>,
    next: TabuStep<M::SolutionType, M::TransitionType, M::ScoreType>,
    next_list: L,
)
    requires
        is_tabu_choices(model, n_trials, return_iter, initial, first_list, steps, lists),
        is_tabu_course(patience, return_iter, initial, n_iter, takens(steps)),
        steps.len() < n_iter,
        ({
            let before = tabu_replay(start(initial.0, initial.1), takens(steps), return_iter);
            &&& steps.len() > 0 ==> !exhausted(before, patience)
            &&& is_sorted_offer(model, n_trials, before.current, next.samples)
            &&& is_choice(next.samples, &lists.last(), before.best.1, next.found)
            &&& next.found is None ==> next_list == lists.last()
        }),
    ensures
        is_tabu_choices(
            model,
            n_trials,
            return_iter,
            initial,
            first_list,
            steps.push(next),
            lists.push(next_list),
        ),
        is_tabu_course(patience, return_iter, initial, n_iter, takens(steps.push(next))),
        tabu_replay(start(initial.0, initial.1), takens(steps.push(next)), return_iter)
            == tabu_observe(
            tabu_replay(start(initial.0, initial.1), takens(steps), return_iter),
            taken_of(next),
            return_iter,
        ),
{
    let longer = steps.push(next);
    let lists2 = lists.push(next_list);
    let origin = start(initial.0, initial.1);
    assert(takens(longer) =~= takens(steps).push(taken_of(next)));
    assert(takens(longer).drop_last() =~= takens(steps));
    assert(takens(steps).take(steps.len() as int) =~= takens(steps));
    assert forall|k: int| 0 <= k <= steps.len() implies #[trigger] tabu_state_before(
        initial,
        longer,
        k,
        return_iter,
    ) == tabu_state_before(initial, steps, k, return_iter) by {
        assert(takens(longer).take(k) =~= takens(steps).take(k));
    }
    assert forall|k: int| 0 <= k < longer.len() implies {
        let before = #[trigger] tabu_state_before(initial, longer, k, return_iter);
        &&& is_sorted_offer(model, n_trials, before.current, longer[k].samples)
        &&& is_choice(longer[k].samples, &lists2[k], before.best.1, longer[k].found)
        &&& longer[k].found is None ==> lists2[k + 1] == lists2[k]
    } by {
        assert(tabu_state_before(initial, longer, k, return_iter) == tabu_state_before(
            initial,
            steps,
            k,
            return_iter,
        ));
        if k < steps.len() {
            assert(longer[k] == steps[k]);
            assert(lists2[k] == lists[k]);
            assert(lists2[k + 1] == lists[k + 1]);
        }
    }
    assert forall|k: int| 0 < k < takens(longer).len() implies !exhausted(
        #[trigger] tabu_replay(origin, takens(longer).take(k), return_iter),
        patience,
    ) by {
        assert(takens(longer).take(k) =~= takens(steps).take(k));
        if k < steps.len() {
            assert(!exhausted(tabu_replay(origin, takens(steps).take(k), return_iter), patience));
        }
    }
}

/// The course ends where a tabu search ends: when its iterations are
/// used up, after an iteration that exhausted the patience, or at a
/// reading of the clock that had reached the time limit; and a search
/// whose time limit every reading has reached makes no iteration.
pub open spec fn tabu_stops_duly<S, ST: Ord>(
    patience: nat,
    return_iter: nat,
    initial: (S, ST),
    n_iter: nat,
    time_limit: Duration,
    taken: Seq<Option<(S, ST)>>,
) -> bool {
    &&& {
        ||| taken.len() == n_iter
        ||| taken.len() > 0 && exhausted(
            tabu_replay(start(initial.0, initial.1), taken, return_iter),
            patience,
        )
        ||| exists|elapsed: Duration| #[trigger] limit_reached(elapsed, time_limit)
    }
    &&& (forall|elapsed: Duration| #[trigger] limit_reached(elapsed, time_limit)) ==> taken.len()
        == 0
}

/// `result` is what a tabu search with the given parameters can return:
/// the best solution of a run of at most `n_iter` iterations that
/// chooses as the tabu search does, from the tabu list `first_list`, up
/// to where the search ends.
pub open spec fn is_tabu_result<M: OptModel, L: TabuList<Item = M::TransitionType>>(
    model: &M,
    n_trials: nat,
    patience: nat,
    return_iter: nat,
    initial: (M::SolutionType, M::ScoreType),
    n_iter: nat,
    time_limit: Duration,
    first_list: L,
    result: (M::SolutionType, M::ScoreType),
) -> bool {
    exists|
        steps: Seq<TabuStep<M::SolutionType, M::TransitionType, M::ScoreType>>,
        lists: Seq<L>,
    |
        {
            &&& #[trigger] is_tabu_choices(
                model,
                n_trials,
                return_iter,
                initial,
                first_list,
                steps,
                lists,
            )
            &&& is_tabu_course(patience, return_iter, initial, n_iter, takens(steps))
            &&& tabu_stops_duly(patience, return_iter, initial, n_iter, time_limit, takens(steps))
            &&& reports_best(
                result,
                tabu_replay(start(initial.0, initial.1), takens(steps), return_iter),
            )
        }
}

/// While no taken candidate improves on the best solution, the best
/// solution stays and the patience counter counts the iterations, those
/// that take nothing included.
pub proof fn lemma_tabu_stagnation_counts<S, ST: Ord>(
    before: Bookkeeping<S, ST>,
    taken: Seq<Option<(S, ST)>>,
    return_iter: nat,
)
    requires
        forall|k: int|
            0 <= k < taken.len() && (#[trigger] taken[k]) is Some ==> !better(
                taken[k]->Some_0.1,
                before.best.1,
            ),
    ensures
        tabu_replay(before, taken, return_iter).best == before.best,
        tabu_replay(before, taken, return_iter).patience_stagnation == before.patience_stagnation
            + taken.len(),
    decreases taken.len(),
{
    if taken.len() > 0 {
        lemma_tabu_stagnation_counts(before, taken.drop_last(), return_iter);
        assert(taken.last() == taken[taken.len() - 1]);
    }
}

/// A tabu search that never takes a candidate better than the solution it
/// started from stops on its patience at one iteration exactly: with
/// patience `P`, it has exhausted its patience when and only when `P`
/// iterations have gone by, and it never goes beyond them.
pub proof fn lemma_tabu_patience_boundary<S, ST: Ord>(
    patience: nat,
    return_iter: nat,
    initial: (S, ST),
    n_iter: nat,
    taken: Seq<Option<(S, ST)>>,
)
    requires
        patience > 0,
        is_tabu_course(patience, return_iter, initial, n_iter, taken),
        forall|k: int|
            0 <= k < taken.len() && (#[trigger] taken[k]) is Some ==> !better(
                taken[k]->Some_0.1,
                initial.1,
            ),
    ensures
        taken.len() <= patience,
        exhausted(tabu_replay(start(initial.0, initial.1), taken, return_iter), patience)
            <==> taken.len() == patience,
{
    let origin = start(initial.0, initial.1);
    lemma_tabu_stagnation_counts(origin, taken, return_iter);
    if taken.len() > patience {
        let prefix = taken.take(patience as int);
        assert forall|k: int| 0 <= k < prefix.len() && (#[trigger] prefix[k]) is Some implies !better(
            prefix[k]->Some_0.1,
            initial.1,
        ) by {
            assert(prefix[k] == taken[k]);
        }
        lemma_tabu_stagnation_counts(origin, prefix, return_iter);
        assert(exhausted(tabu_replay(origin, taken.take(patience as int), return_iter), patience));
    }
}

/// A tabu iteration keeps the best score ahead of the current one and
/// never makes the best score worse.
pub proof fn lemma_tabu_observe_keeps_order<S, ST: Ord>(
    before: Bookkeeping<S, ST>,
    taken: Option<(S, ST)>,
    return_iter: nat,
)
    requires
        totally_ordered::<ST>(),
        best_leads(before),
    ensures
        best_leads(tabu_observe(before, taken, return_iter)),
        !better(before.best.1, tabu_observe(before, taken, return_iter).best.1),
{
    lemma_better_irreflexive(before.best.1);
    match taken {
        Some(candidate) => {
            lemma_observe_keeps_order(
                before,
                Observation { solution: candidate.0, score: candidate.1, accepted: true },
                return_iter,
            );
        },
        None => {},
    }
}

/// A whole sequence of tabu iterations keeps the best score ahead of the
/// current one and never makes the best score worse.
pub proof fn lemma_tabu_replay_keeps_order<S, ST: Ord>(
    before: Bookkeeping<S, ST>,
    taken: Seq<Option<(S, ST)>>,
    return_iter: nat,
)
    requires
        totally_ordered::<ST>(),
        best_leads(before),
    ensures
        best_leads(tabu_replay(before, taken, return_iter)),
        !better(before.best.1, tabu_replay(before, taken, return_iter).best.1),
    decreases taken.len(),
{
    if taken.len() == 0 {
        lemma_better_irreflexive(before.best.1);
    } else {
        let middle = tabu_replay(before, taken.drop_last(), return_iter);
        lemma_tabu_replay_keeps_order(before, taken.drop_last(), return_iter);
        lemma_tabu_observe_keeps_order(middle, taken.last(), return_iter);
        lemma_not_better_transitive(
            before.best.1,
            middle.best.1,
            tabu_replay(before, taken, return_iter).best.1,
        );
    }
}

/// A tabu search that the clock does not stop goes on until its patience
/// is exhausted: where no taken candidate is better than the solution it
/// started from, no reading of the clock reaches the time limit and `P`
/// iterations are in the budget, a run with patience `P` has `P`
/// iterations, neither fewer nor more, and keeps the best solution it
/// started from.
pub proof fn lemma_tabu_stops_at_patience<S, ST: Ord>(
    patience: nat,
    return_iter: nat,
    initial: (S, ST),
    n_iter: nat,
    time_limit: Duration,
    taken: Seq<Option<(S, ST)>>,
)
    requires
        patience > 0,
        patience <= n_iter,
        is_tabu_course(patience, return_iter, initial, n_iter, taken),
        tabu_stops_duly(patience, return_iter, initial, n_iter, time_limit, taken),
        forall|elapsed: Duration| !(#[trigger] limit_reached(elapsed, time_limit)),
        forall|k: int|
            0 <= k < taken.len() && (#[trigger] taken[k]) is Some ==> !better(
                taken[k]->Some_0.1,
                initial.1,
            ),
    ensures
        taken.len() == patience,
        tabu_replay(start(initial.0, initial.1), taken, return_iter).best == initial,
{
    lemma_tabu_patience_boundary(patience, return_iter, initial, n_iter, taken);
    lemma_tabu_stagnation_counts(start(initial.0, initial.1), taken, return_iter);
}

/// Optimizer that implements the tabu search algorithm
pub struct TabuSearchOptimizer<T: TabuList> {
    patience: usize,
    n_trials: usize,
    return_iter: usize,
    default_tabu_size: usize,
    phantom: PhantomData<T>,
}

impl<T: TabuList> TabuSearchOptimizer<T> {
    /// Iterations without improvement after which the search gives up.
    pub closed spec fn patience(&self) -> usize {
        self.patience
    }

    /// Number of trial solutions generated at each iteration.
    pub closed spec fn n_trials(&self) -> usize {
        self.n_trials
    }

    /// Iterations without improvement after which the search returns to
    /// the best solution.
    pub closed spec fn return_iter(&self) -> usize {
        self.return_iter
    }

    /// Size that `optimize` gives its tabu list.
    pub closed spec fn default_tabu_size(&self) -> usize {
        self.default_tabu_size
    }

    /// Constructor of TabuSearchOptimizer
    ///
    /// - `patience` : the optimizer will give up
    ///   if there is no improvement of the score after this number of iterations
    /// - `n_trials` : number of trial solutions to generate and evaluate at each iteration
    /// - `return_iter` : returns to the current best solution if there is no improvement after this number of iterations.
    /// - `default_tabu_size` : size of the tabu list that `optimize` starts with
    pub fn new(patience: usize, n_trials: usize, return_iter: usize, default_tabu_size: usize) -> (optimizer:
        Self)
        ensures
            optimizer.patience() == patience,
            optimizer.n_trials() == n_trials,
            optimizer.return_iter() == return_iter,
            optimizer.default_tabu_size() == default_tabu_size,
    {
        Self { patience, n_trials, return_iter, default_tabu_size, phantom: PhantomData }
    }

    /// Start optimization
    ///
    /// - `model` : the model to optimize
    /// - `initial_solution` : the initial solution to start optimization.
    /// - `initial_score` : the initial score of the initial solution
    /// - `n_iter`: maximum iterations
    /// - `time_limit`: maximum iteration time
    /// - `callback` : callback function that will be invoked at the end of each iteration
    /// - `tabu_list` : initial tabu list
    ///
    /// Returns the best solution, its score and the tabu list as the
    /// search left it.
    pub fn optimize_with_tabu_list<
        M: OptModel<TransitionType = T::Item>,
        C: OptCallbackFn<M::SolutionType, M::ScoreType>,
    >(
        &self,
        model: &M,
        initial_solution: M::SolutionType,
        initial_score: M::ScoreType,
        n_iter: usize,
        time_limit: Duration,
        callback: &C,
        tabu_list: T,
    ) -> (result: (M::SolutionType, M::ScoreType, T))
        requires
            totally_ordered::<M::ScoreType>(),
            accepts_all_progress(callback),
        ensures
            is_tabu_result(
                model,
                self.n_trials() as nat,
                self.patience() as nat,
                self.return_iter() as nat,
                (initial_solution, initial_score),
                n_iter as nat,
                time_limit,
                tabu_list,
                (result.0, result.1),
            ),
            exists|
                steps: Seq<TabuStep<M::SolutionType, M::TransitionType, M::ScoreType>>,
                lists: Seq<T>,
            |
                {
                    &&& #[trigger] is_tabu_choices(
                        model,
                        self.n_trials() as nat,
                        self.return_iter() as nat,
                        (initial_solution, initial_score),
                        tabu_list,
                        steps,
                        lists,
                    )
                    &&& is_tabu_course(
                        self.patience() as nat,
                        self.return_iter() as nat,
                        (initial_solution, initial_score),
                        n_iter as nat,
                        takens(steps),
                    )
                    &&& tabu_stops_duly(
                        self.patience() as nat,
                        self.return_iter() as nat,
                        (initial_solution, initial_score),
                        n_iter as nat,
                        time_limit,
                        takens(steps),
                    )
                    &&& reports_best(
                        (result.0, result.1),
                        tabu_replay(
                            start(initial_solution, initial_score),
                            takens(steps),
                            self.return_iter() as nat,
                        ),
                    )
                    &&& result.2 == lists.last()
                    &&& forall|k: int|
                        0 <= k < steps.len() && (#[trigger] steps[k]).found is Some
                            ==> exists|list: &mut T|
                            {
                                &&& *list == lists[k]
                                &&& *final(list) == lists[k + 1]
                                &&& #[trigger] call_ensures(
                                    T::append,
                                    (list, steps[k].samples[steps[k].found->Some_0].1),
                                    (),
                                )
                            }
                },
            !better(initial_score, result.1),
    {
        let start_time = now();
        let ghost first_list = tabu_list;
        let mut tabu_list = tabu_list;
        let mut state = SearchState::new(initial_solution, initial_score);
        let mut accepted_counter: usize = 0;
        let ghost initial = (initial_solution, initial_score);
        let ghost origin = start(initial_solution, initial_score);
        let ghost mut steps: Seq<TabuStep<M::SolutionType, M::TransitionType, M::ScoreType>> =
            Seq::empty();
        let ghost mut lists: Seq<T> = seq![tabu_list];
        let ghost return_iter = self.return_iter as nat;
        let ghost patience = self.patience as nat;
        let ghost n_trials = self.n_trials as nat;
        proof {
            lemma_better_irreflexive(initial_score);
        }
        let mut it: usize = 0;
        while it < n_iter
            invariant_except_break
                steps.len() == it,
                !exhausted(state.bookkeeping(), patience) || it == 0,
            invariant
                totally_ordered::<M::ScoreType>(),
                accepts_all_progress(callback),
                return_iter == self.return_iter as nat,
                patience == self.patience as nat,
                n_trials == self.n_trials as nat,
                initial == (initial_solution, initial_score),
                origin == start(initial_solution, initial_score),
                it <= n_iter,
                accepted_counter <= steps.len(),
                state.wf(),
                state.bookkeeping() == tabu_replay(origin, takens(steps), return_iter),
                state.bookkeeping().return_stagnation <= steps.len(),
                state.bookkeeping().patience_stagnation <= steps.len(),
                is_tabu_course(patience, return_iter, initial, n_iter as nat, takens(steps)),
                is_tabu_choices(model, n_trials, return_iter, initial, first_list, steps, lists),
                lists.last() == tabu_list,
                steps.len() == 0 || exists|elapsed: Duration|
                    !(#[trigger] limit_reached(elapsed, time_limit)),
                forall|k: int|
                    0 <= k < steps.len() && (#[trigger] steps[k]).found is Some ==> exists|
                        list: &mut T,
                    |
                        {
                            &&& *list == lists[k]
                            &&& *final(list) == lists[k + 1]
                            &&& #[trigger] call_ensures(
                                T::append,
                                (list, steps[k].samples[steps[k].found->Some_0].1),
                                (),
                            )
                        },
            ensures
                steps.len() == n_iter || (steps.len() > 0 && exhausted(
                    state.bookkeeping(),
                    patience,
                )) || exists|elapsed: Duration| #[trigger] limit_reached(elapsed, time_limit),
            decreases n_iter - it,
        {
            let duration = elapsed_since(&start_time);
            if reached(&duration, &time_limit) {
                assert(limit_reached(duration, time_limit));
                break ;
            }
            assert(!limit_reached(duration, time_limit));
            let mut samples = generate_trials(
                model,
                state.current_solution(),
                state.current_score(),
                self.n_trials,
            );
            let ghost offer = samples@;
            sort_by_score(&mut samples);
            let ghost sorted = samples@;
            let ghost list_before = tabu_list;

            let best_score = state.best_score();
            let res = find_accepted_solution::<M, T>(samples, &tabu_list, best_score);
            let ghost found = choose|found: Option<int>|
                {
                    &&& #[trigger] is_choice(sorted, &list_before, best_score, found)
                    &&& match found {
                        Some(place) => res == Some(sorted[place]),
                        None => res is None,
                    }
                };
            let ghost next = TabuStep { samples: sorted, found };
            proof {
                assert(is_offer(model, n_trials, state.bookkeeping().current, offer));
                assert(is_sorted_offer(model, n_trials, state.bookkeeping().current, sorted));
            }
            match res {
                Some((solution, trans, score)) => {
                    // Accepted
                    state.advance(solution, score, true, self.return_iter);
                    accepted_counter = accepted_counter + 1;
                    append_move(&mut tabu_list, trans);
                },
                None => {
                    // No candidate: the stagnation goes on
                    state.stagnate(self.return_iter);
                },
            }
            proof {
                lemma_tabu_course_extends(
                    model,
                    n_trials,
                    patience,
                    return_iter,
                    initial,
                    n_iter as nat,
                    first_list,
                    steps,
                    lists,
                    next,
                    tabu_list,
                );
                let longer = steps.push(next);
                let lists2 = lists.push(tabu_list);
                assert forall|k: int|
                    0 <= k < longer.len() && (#[trigger] longer[k]).found is Some implies exists|
                    list: &mut T,
                |
                    {
                        &&& *list == lists2[k]
                        &&& *final(list) == lists2[k + 1]
                        &&& #[trigger] call_ensures(
                            T::append,
                            (list, longer[k].samples[longer[k].found->Some_0].1),
                            (),
                        )
                    } by {
                    if k < steps.len() {
                        assert(longer[k] == steps[k]);
                        assert(steps[k].found is Some);
                        assert(lists2[k] == lists[k]);
                        assert(lists2[k + 1] == lists[k + 1]);
                    } else {
                        assert(lists2[k] == list_before);
                        assert(lists2[k + 1] == tabu_list);
                    }
                }
                steps = longer;
                lists = lists2;
            }

            if state.gives_up(self.patience) {
                break ;
            }
            let ratio = AcceptanceRatio { accepted: accepted_counter, samples: it + 1 };
            let progress = OptProgress::new(it, ratio, state.best(), state.best_score());
            callback(progress);
            it = it + 1;
        }
        proof {
            lemma_tabu_replay_keeps_order(origin, takens(steps), return_iter);
        }
        let summary = state.into_result();
        proof {
            assert(reports_best(
                (summary.best_solution, summary.best_score),
                tabu_replay(start(initial.0, initial.1), takens(steps), return_iter),
            ));
            assert(is_tabu_choices(
                model,
                self.n_trials() as nat,
                self.return_iter() as nat,
                (initial_solution, initial_score),
                first_list,
                steps,
                lists,
            ));
            assert(takens(steps).len() == steps.len());
            assert(tabu_stops_duly(
                self.patience() as nat,
                self.return_iter() as nat,
                (initial_solution, initial_score),
                n_iter as nat,
                time_limit,
                takens(steps),
            ));
        }
        (summary.best_solution, summary.best_score, tabu_list)
    }
}

impl<T: TabuList, M: OptModel<TransitionType = T::Item>> LocalSearchOptimizer<
    M,
> for TabuSearchOptimizer<T> {
    open spec fn can_return(
        &self,
        model: &M,
        initial: (M::SolutionType, M::ScoreType),
        n_iter: usize,
        time_limit: Duration,
        result: (M::SolutionType, M::ScoreType),
    ) -> bool {
        exists|first_list: T| #[trigger]
            is_tabu_result(
                model,
                self.n_trials() as nat,
                self.patience() as nat,
                self.return_iter() as nat,
                initial,
                n_iter as nat,
                time_limit,
                first_list,
                result,
            )
    }

    /// Start optimization with a fresh tabu list of the default size
    fn optimize<C: OptCallbackFn<M::SolutionType, M::ScoreType>>(
        &self,
        model: &M,
        initial_solution: M::SolutionType,
        initial_score: M::ScoreType,
        n_iter: usize,
        time_limit: Duration,
        callback: &C,
    ) -> (result: (M::SolutionType, M::ScoreType))
        ensures
            exists|fresh: T, first_list: T, list: &mut T|
                {
                    &&& #[trigger] call_ensures(T::default, (), fresh)
                    &&& *list == fresh
                    &&& *final(list) == first_list
                    &&& #[trigger] call_ensures(T::set_size, (list, self.default_tabu_size()), ())
                    &&& #[trigger] is_tabu_result(
                        model,
                        self.n_trials() as nat,
                        self.patience() as nat,
                        self.return_iter() as nat,
                        (initial_solution, initial_score),
                        n_iter as nat,
                        time_limit,
                        first_list,
                        result,
                    )
                },
    {
        let make = T::default;
        let mut tabu_list = make();
        let ghost fresh = tabu_list;
        let size = self.default_tabu_size;
        set_list_size(&mut tabu_list, size);
        let ghost first_list = tabu_list;
        assert(exists|list: &mut T|
            {
                &&& *list == fresh
                &&& *final(list) == first_list
                &&& #[trigger] call_ensures(T::set_size, (list, size), ())
            });
        let (solution, score, _) = self.optimize_with_tabu_list(
            model,
            initial_solution,
            initial_score,
            n_iter,
            time_limit,
            callback,
            tabu_list,
        );
        let result = (solution, score);
        proof {
            assert(call_ensures(T::default, (), fresh));
            assert(size == self.default_tabu_size());
            assert(is_tabu_result(
                model,
                self.n_trials() as nat,
                self.patience() as nat,
                self.return_iter() as nat,
                (initial_solution, initial_score),
                n_iter as nat,
                time_limit,
                first_list,
                result,
            ));
        }
        result
    }
}

} // verus!
