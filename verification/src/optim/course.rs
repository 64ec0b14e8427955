//! The courses that a search can take, and what holds of all of them.

use crate::clock::limit_reached;
use crate::counter::window_of;
use crate::optim::bookkeeping::{
    exhausted, lemma_replay_keeps_order, observe, outcomes, replay, reports_best, start,
    summarizes, Bookkeeping, Observation, StepResult, ACCEPTANCE_WINDOW,
};
use crate::order::{better, lemma_better_irreflexive, totally_ordered};
use crate::probability::Probability;
use crate::utils::fifo_push;
use std::time::Duration;
use vstd::prelude::*;

verus! {

/// The bookkeeping before iteration `k` of a search that saw `seen`.
pub open spec fn state_before<S, ST: Ord>(
    initial: (S, ST),
    seen: Seq<Observation<S, ST>>,
    k: int,
    return_iter: nat,
) -> Bookkeeping<S, ST> {
    replay(start(initial.0, initial.1), seen.take(k), return_iter)
}

/// `seen` is a course that a search loop can take from `initial`: it has
/// at most `n_iter` iterations, and no iteration follows one that
/// exhausted the patience.
pub open spec fn is_course<S, ST: Ord>(
    patience: nat,
    return_iter: nat,
    initial: (S, ST),
    n_iter: nat,
    seen: Seq<Observation<S, ST>>,
) -> bool {
    &&& seen.len() <= n_iter
    &&& forall|k: int|
        0 < k < seen.len() ==> !exhausted(
            #[trigger] state_before(initial, seen, k, return_iter),
            patience,
        )
}

/// Every decision of the course agrees with `rule`, which relates the
/// current score, the score of the trial and the decision on it.
pub open spec fn decided_by<S, ST: Ord>(
    rule: spec_fn(ST, ST, bool) -> bool,
    return_iter: nat,
    initial: (S, ST),
    seen: Seq<Observation<S, ST>>,
) -> bool {
    forall|k: int|
        0 <= k < seen.len() ==> rule(
            (#[trigger] state_before(initial, seen, k, return_iter)).current.1,
            seen[k].score,
            seen[k].accepted,
        )
}

/// A course decided by one rule is decided by every weaker rule.
pub proof fn lemma_decided_by_weaker<S, ST: Ord>(
    rule: spec_fn(ST, ST, bool) -> bool,
    weaker: spec_fn(ST, ST, bool) -> bool,
    return_iter: nat,
    initial: (S, ST),
    seen: Seq<Observation<S, ST>>,
)
    requires
        decided_by(rule, return_iter, initial, seen),
        forall|current: ST, trial: ST, accepted: bool| #[trigger]
            rule(current, trial, accepted) ==> weaker(current, trial, accepted),
    ensures
        decided_by(weaker, return_iter, initial, seen),
{
    assert forall|k: int| 0 <= k < seen.len() implies weaker(
        (#[trigger] state_before(initial, seen, k, return_iter)).current.1,
        seen[k].score,
        seen[k].accepted,
    ) by {
        assert(rule(
            state_before(initial, seen, k, return_iter).current.1,
            seen[k].score,
            seen[k].accepted,
        ));
    }
}

/// Adding an iteration to a course leaves what went before as it was.
pub proof fn lemma_state_before_push<S, ST: Ord>(
    initial: (S, ST),
    seen: Seq<Observation<S, ST>>,
    next: Observation<S, ST>,
    return_iter: nat,
)
    ensures
        forall|k: int|
            0 <= k <= seen.len() ==> #[trigger] state_before(
                initial,
                seen.push(next),
                k,
                return_iter,
            ) == state_before(initial, seen, k, return_iter),
        state_before(initial, seen, seen.len() as int, return_iter) == replay(
            start(initial.0, initial.1),
            seen,
            return_iter,
        ),
        replay(start(initial.0, initial.1), seen.push(next), return_iter) == observe(
            replay(start(initial.0, initial.1), seen, return_iter),
            next,
            return_iter,
        ),
        window_of(outcomes(seen.push(next)), ACCEPTANCE_WINDOW as nat) == fifo_push(
            window_of(outcomes(seen), ACCEPTANCE_WINDOW as nat),
            ACCEPTANCE_WINDOW as nat,
            next.accepted,
        ),
{
    assert forall|k: int| 0 <= k <= seen.len() implies #[trigger] state_before(
        initial,
        seen.push(next),
        k,
        return_iter,
    ) == state_before(initial, seen, k, return_iter) by {
        assert(seen.push(next).take(k) =~= seen.take(k));
    }
    assert(seen.take(seen.len() as int) =~= seen);
    assert(seen.push(next).drop_last() =~= seen);
    assert(outcomes(seen.push(next)).drop_last() =~= outcomes(seen));
}

/// Every trial of the course comes from `source`, which relates the
/// current solution with its score to a trial with its score.
pub open spec fn sourced_by<S, ST: Ord>(
    source: spec_fn((S, ST), (S, ST)) -> bool,
    return_iter: nat,
    initial: (S, ST),
    seen: Seq<Observation<S, ST>>,
) -> bool {
    forall|k: int|
        0 <= k < seen.len() ==> source(
            (#[trigger] state_before(initial, seen, k, return_iter)).current,
            (seen[k].solution, seen[k].score),
        )
}

/// `seen` is a course that a search under `rule` with trials from
/// `source` can take: it has at most `n_iter` iterations, every trial in
/// it comes from `source` for the solution that was current, every
/// decision agrees with `rule`, and no iteration follows one that
/// exhausted the patience.
pub open spec fn is_search_course<S, ST: Ord>(
    rule: spec_fn(ST, ST, bool) -> bool,
    source: spec_fn((S, ST), (S, ST)) -> bool,
    patience: nat,
    return_iter: nat,
    initial: (S, ST),
    n_iter: nat,
    seen: Seq<Observation<S, ST>>,
) -> bool {
    &&& is_course(patience, return_iter, initial, n_iter, seen)
    &&& sourced_by(source, return_iter, initial, seen)
    &&& decided_by(rule, return_iter, initial, seen)
}

/// One more iteration extends a course: the patience was not exhausted
/// before it, its trial comes from the source for the solution that was
/// current, and the decision on it agrees with the rule.
pub proof fn lemma_course_extends<S, ST: Ord>(
    rule: spec_fn(ST, ST, bool) -> bool,
    source: spec_fn((S, ST), (S, ST)) -> bool,
    patience: nat,
    return_iter: nat,
    initial: (S, ST),
    n_iter: nat,
    seen: Seq<Observation<S, ST>>,
    next: Observation<S, ST>,
)
    requires
        is_search_course(rule, source, patience, return_iter, initial, n_iter, seen),
        seen.len() < n_iter,
        seen.len() > 0 ==> !exhausted(
            replay(start(initial.0, initial.1), seen, return_iter),
            patience,
        ),
        source(
            replay(start(initial.0, initial.1), seen, return_iter).current,
            (next.solution, next.score),
        ),
        rule(
            replay(start(initial.0, initial.1), seen, return_iter).current.1,
            next.score,
            next.accepted,
        ),
    ensures
        is_search_course(rule, source, patience, return_iter, initial, n_iter, seen.push(next)),
        replay(start(initial.0, initial.1), seen.push(next), return_iter) == observe(
            replay(start(initial.0, initial.1), seen, return_iter),
            next,
            return_iter,
        ),
        window_of(outcomes(seen.push(next)), ACCEPTANCE_WINDOW as nat) == fifo_push(
            window_of(outcomes(seen), ACCEPTANCE_WINDOW as nat),
            ACCEPTANCE_WINDOW as nat,
            next.accepted,
        ),
{
    lemma_state_before_push(initial, seen, next, return_iter);
    let longer = seen.push(next);
    assert forall|k: int| 0 < k < longer.len() implies !exhausted(
        #[trigger] state_before(initial, longer, k, return_iter),
        patience,
    ) by {
        assert(state_before(initial, longer, k, return_iter) == state_before(
            initial,
            seen,
            k,
            return_iter,
        ));
    }
    assert forall|k: int| 0 <= k < longer.len() implies source(
        (#[trigger] state_before(initial, longer, k, return_iter)).current,
        (longer[k].solution, longer[k].score),
    ) by {
        assert(state_before(initial, longer, k, return_iter) == state_before(
            initial,
            seen,
            k,
            return_iter,
        ));
    }
    assert forall|k: int| 0 <= k < longer.len() implies rule(
        (#[trigger] state_before(initial, longer, k, return_iter)).current.1,
        longer[k].score,
        longer[k].accepted,
    ) by {
        assert(state_before(initial, longer, k, return_iter) == state_before(
            initial,
            seen,
            k,
            return_iter,
        ));
    }
}

/// The course ends where a search ends: when its iterations are used up,
/// after an iteration that exhausted the patience, or at a reading of the
/// clock that had reached the time limit; and a search whose time limit
/// every reading has reached makes no iteration.
pub open spec fn stops_duly<S, ST: Ord>(
    patience: nat,
    return_iter: nat,
    initial: (S, ST),
    n_iter: nat,
    time_limit: Duration,
    seen: Seq<Observation<S, ST>>,
) -> bool {
    &&& {
        ||| seen.len() == n_iter
        ||| seen.len() > 0 && exhausted(
            replay(start(initial.0, initial.1), seen, return_iter),
            patience,
        )
        ||| exists|elapsed: Duration| #[trigger] limit_reached(elapsed, time_limit)
    }
    &&& (forall|elapsed: Duration| #[trigger] limit_reached(elapsed, time_limit)) ==> seen.len()
        == 0
}

/// `seen` is a whole run of a search under `rule` with trials from
/// `source`: one of its courses from `initial`, up to where the search
/// ends.
pub open spec fn is_search_run<S, ST: Ord>(
    rule: spec_fn(ST, ST, bool) -> bool,
    source: spec_fn((S, ST), (S, ST)) -> bool,
    patience: nat,
    return_iter: nat,
    initial: (S, ST),
    n_iter: nat,
    time_limit: Duration,
    seen: Seq<Observation<S, ST>>,
) -> bool {
    &&& is_search_course(rule, source, patience, return_iter, initial, n_iter, seen)
    &&& stops_duly(patience, return_iter, initial, n_iter, time_limit, seen)
}

/// `result` is what a search under `rule` with trials from `source` can
/// return: the summary of one of its runs from `initial`.
pub open spec fn is_step_result<S: Clone, ST: Ord>(
    rule: spec_fn(ST, ST, bool) -> bool,
    source: spec_fn((S, ST), (S, ST)) -> bool,
    patience: nat,
    return_iter: nat,
    initial: (S, ST),
    n_iter: nat,
    time_limit: Duration,
    result: StepResult<S, ST>,
) -> bool {
    exists|seen: Seq<Observation<S, ST>>|
        {
            &&& #[trigger] is_search_run(
                rule,
                source,
                patience,
                return_iter,
                initial,
                n_iter,
                time_limit,
                seen,
            )
            &&& summarizes(
                result,
                replay(start(initial.0, initial.1), seen, return_iter),
                window_of(outcomes(seen), ACCEPTANCE_WINDOW as nat),
            )
        }
}

/// `result` is the best solution, with its score, that a search under
/// `rule` with trials from `source` can return: that of one of its runs
/// from `initial`.
pub open spec fn is_search_result<S: Clone, ST: Ord>(
    rule: spec_fn(ST, ST, bool) -> bool,
    source: spec_fn((S, ST), (S, ST)) -> bool,
    patience: nat,
    return_iter: nat,
    initial: (S, ST),
    n_iter: nat,
    time_limit: Duration,
    result: (S, ST),
) -> bool {
    exists|seen: Seq<Observation<S, ST>>|
        {
            &&& #[trigger] is_search_run(
                rule,
                source,
                patience,
                return_iter,
                initial,
                n_iter,
                time_limit,
                seen,
            )
            &&& reports_best(result, replay(start(initial.0, initial.1), seen, return_iter))
        }
}

/// A run of which a step result is the summary.
pub open spec fn course_of<S: Clone, ST: Ord>(
    rule: spec_fn(ST, ST, bool) -> bool,
    source: spec_fn((S, ST), (S, ST)) -> bool,
    patience: nat,
    return_iter: nat,
    initial: (S, ST),
    n_iter: nat,
    time_limit: Duration,
    result: StepResult<S, ST>,
) -> Seq<Observation<S, ST>> {
    choose|seen: Seq<Observation<S, ST>>|
        {
            &&& #[trigger] is_search_run(
                rule,
                source,
                patience,
                return_iter,
                initial,
                n_iter,
                time_limit,
                seen,
            )
            &&& summarizes(
                result,
                replay(start(initial.0, initial.1), seen, return_iter),
                window_of(outcomes(seen), ACCEPTANCE_WINDOW as nat),
            )
        }
}

/// The best solution of what a search returns, with its score, is a
/// search result, and never worse than what the search started from.
pub proof fn lemma_step_result_reports_best<S: Clone, ST: Ord>(
    rule: spec_fn(ST, ST, bool) -> bool,
    source: spec_fn((S, ST), (S, ST)) -> bool,
    patience: nat,
    return_iter: nat,
    initial: (S, ST),
    n_iter: nat,
    time_limit: Duration,
    result: StepResult<S, ST>,
)
    requires
        totally_ordered::<ST>(),
        is_step_result(rule, source, patience, return_iter, initial, n_iter, time_limit, result),
    ensures
        is_search_result(
            rule,
            source,
            patience,
            return_iter,
            initial,
            n_iter,
            time_limit,
            (result.best_solution, result.best_score),
        ),
        !better(initial.1, result.best_score),
{
    let seen = course_of(rule, source, patience, return_iter, initial, n_iter, time_limit, result);
    assert(is_search_run(rule, source, patience, return_iter, initial, n_iter, time_limit, seen));
    assert(reports_best(
        (result.best_solution, result.best_score),
        replay(start(initial.0, initial.1), seen, return_iter),
    ));
    lemma_step_result_order(
        rule,
        source,
        patience,
        return_iter,
        initial,
        n_iter,
        time_limit,
        result,
    );
}

/// What a search returns under one rule, it can return under every
/// weaker rule.
pub proof fn lemma_step_result_weaker<S: Clone, ST: Ord>(
    rule: spec_fn(ST, ST, bool) -> bool,
    weaker: spec_fn(ST, ST, bool) -> bool,
    source: spec_fn((S, ST), (S, ST)) -> bool,
    patience: nat,
    return_iter: nat,
    initial: (S, ST),
    n_iter: nat,
    time_limit: Duration,
    result: StepResult<S, ST>,
)
    requires
        is_step_result(rule, source, patience, return_iter, initial, n_iter, time_limit, result),
        forall|current: ST, trial: ST, accepted: bool| #[trigger]
            rule(current, trial, accepted) ==> weaker(current, trial, accepted),
    ensures
        is_step_result(weaker, source, patience, return_iter, initial, n_iter, time_limit, result),
{
    let seen = course_of(rule, source, patience, return_iter, initial, n_iter, time_limit, result);
    lemma_decided_by_weaker(rule, weaker, return_iter, initial, seen);
    assert(is_search_run(
        weaker,
        source,
        patience,
        return_iter,
        initial,
        n_iter,
        time_limit,
        seen,
    ));
}

/// The best score that a search returns is never worse than the score it
/// started from, nor than the score it ended on.
pub proof fn lemma_step_result_order<S: Clone, ST: Ord>(
    rule: spec_fn(ST, ST, bool) -> bool,
    source: spec_fn((S, ST), (S, ST)) -> bool,
    patience: nat,
    return_iter: nat,
    initial: (S, ST),
    n_iter: nat,
    time_limit: Duration,
    result: StepResult<S, ST>,
)
    requires
        totally_ordered::<ST>(),
        is_step_result(rule, source, patience, return_iter, initial, n_iter, time_limit, result),
    ensures
        !better(initial.1, result.best_score),
        !better(result.last_score, result.best_score),
{
    let seen = course_of(rule, source, patience, return_iter, initial, n_iter, time_limit, result);
    lemma_better_irreflexive(initial.1);
    lemma_replay_keeps_order(start(initial.0, initial.1), seen, return_iter);
}

/// While no trial improves on the best solution, the best solution stays
/// and the patience counter counts the iterations.
pub proof fn lemma_stagnation_counts<S, ST: Ord>(
    before: Bookkeeping<S, ST>,
    seen: Seq<Observation<S, ST>>,
    return_iter: nat,
)
    requires
        forall|k: int| 0 <= k < seen.len() ==> !better((#[trigger] seen[k]).score, before.best.1),
    ensures
        replay(before, seen, return_iter).best == before.best,
        replay(before, seen, return_iter).patience_stagnation == before.patience_stagnation
            + seen.len(),
    decreases seen.len(),
{
    if seen.len() > 0 {
        lemma_stagnation_counts(before, seen.drop_last(), return_iter);
        assert(seen.last() == seen[seen.len() - 1]);
    }
}

/// A search stops on its patience at one iteration exactly. Let the
/// first `improved` iterations of a course end with its last improvement
/// (zero if nothing improves): with patience `P`, the search has
/// exhausted its patience when and only when `P` iterations have gone by
/// after them, and it never goes beyond. Iterations are counted from
/// zero: if iteration `k` is the last to improve, the search ends with
/// iteration `k + P`.
pub proof fn lemma_patience_boundary<S, ST: Ord>(
    patience: nat,
    return_iter: nat,
    initial: (S, ST),
    n_iter: nat,
    seen: Seq<Observation<S, ST>>,
    improved: int,
)
    requires
        is_course(patience, return_iter, initial, n_iter, seen),
        0 <= improved <= seen.len(),
        improved > 0 || patience > 0,
        improved > 0 ==> better(
            seen[improved - 1].score,
            state_before(initial, seen, improved - 1, return_iter).best.1,
        ),
        forall|k: int|
            improved <= k < seen.len() ==> !better(
                (#[trigger] seen[k]).score,
                state_before(initial, seen, improved, return_iter).best.1,
            ),
    ensures
        seen.len() - improved <= patience,
        exhausted(replay(start(initial.0, initial.1), seen, return_iter), patience)
            <==> seen.len() - improved == patience,
{
    let origin = start(initial.0, initial.1);
    let base = state_before(initial, seen, improved, return_iter);
    assert(base.patience_stagnation == 0) by {
        if improved == 0 {
            assert(seen.take(0).len() == 0);
        } else {
            let head = seen.take(improved);
            assert(head.drop_last() =~= seen.take(improved - 1));
            assert(head.last() == seen[improved - 1]);
        }
    }
    // every later prefix only adds stagnation
    assert forall|n: int| improved <= n <= seen.len() implies (#[trigger] replay(
        origin,
        seen.take(n),
        return_iter,
    )).patience_stagnation == n - improved by {
        let later = seen.subrange(improved, n);
        assert forall|k: int| 0 <= k < later.len() implies !better(
            (#[trigger] later[k]).score,
            base.best.1,
        ) by {
            assert(later[k] == seen[k + improved]);
        }
        lemma_stagnation_counts(base, later, return_iter);
        lemma_replay_split(origin, seen.take(n), improved, return_iter);
        assert(seen.take(n).take(improved) =~= seen.take(improved));
        assert(seen.take(n).subrange(improved, n) =~= later);
    }
    assert(seen.take(seen.len() as int) =~= seen);
    if seen.len() - improved > patience {
        let k = patience + improved;
        assert(0 < k < seen.len());
        assert(exhausted(state_before(initial, seen, k, return_iter), patience));
    }
}

/// Replaying a course is replaying its first `n` iterations and then the
/// rest.
pub proof fn lemma_replay_split<S, ST: Ord>(
    before: Bookkeeping<S, ST>,
    seen: Seq<Observation<S, ST>>,
    n: int,
    return_iter: nat,
)
    requires
        0 <= n <= seen.len(),
    ensures
        replay(before, seen, return_iter) == replay(
            replay(before, seen.take(n), return_iter),
            seen.subrange(n, seen.len() as int),
            return_iter,
        ),
    decreases seen.len(),
{
    let rest = seen.subrange(n, seen.len() as int);
    if n == seen.len() {
        assert(seen.take(n) =~= seen);
    } else {
        lemma_replay_split(before, seen.drop_last(), n, return_iter);
        assert(seen.drop_last().take(n) =~= seen.take(n));
        assert(seen.drop_last().subrange(n, seen.len() - 1) =~= rest.drop_last());
        assert(rest.last() == seen.last());
    }
}

/// The decision on a trial, given the probability that the transition
/// function attaches to it and the uniform draw: a trial that improves on
/// the current solution is accepted, any other exactly if its probability
/// admits the draw.
pub open spec fn decision<ST: Ord>(
    probability: spec_fn(ST, ST) -> Probability,
    current: ST,
    trial: ST,
    draw: u64,
) -> bool {
    better(trial, current) || probability(current, trial).spec_admits(draw)
}

/// Every decision of the course is the one that follows from the trial,
/// the transition probabilities and the draw of its iteration.
pub open spec fn drawn_by<S, ST: Ord>(
    probability: spec_fn(ST, ST) -> Probability,
    draws: Seq<u64>,
    return_iter: nat,
    initial: (S, ST),
    seen: Seq<Observation<S, ST>>,
) -> bool {
    &&& draws.len() == seen.len()
    &&& forall|k: int|
        0 <= k < seen.len() ==> (#[trigger] seen[k]).accepted == decision(
            probability,
            state_before(initial, seen, k, return_iter).current.1,
            seen[k].score,
            draws[k],
        )
}

/// A search is determined by what it is fed: two courses from the same
/// start, with the same parameters, that meet the same trials and the
/// same draws take the same decisions, and so pass through the same
/// states and end with the same bookkeeping and the same window.
pub proof fn lemma_search_is_deterministic<S, ST: Ord>(
    probability: spec_fn(ST, ST) -> Probability,
    draws: Seq<u64>,
    return_iter: nat,
    initial: (S, ST),
    one: Seq<Observation<S, ST>>,
    other: Seq<Observation<S, ST>>,
)
    requires
        one.len() == other.len(),
        forall|k: int|
            0 <= k < one.len() ==> one[k].solution == other[k].solution && one[k].score
                == other[k].score,
        drawn_by(probability, draws, return_iter, initial, one),
        drawn_by(probability, draws, return_iter, initial, other),
    ensures
        one == other,
        replay(start(initial.0, initial.1), one, return_iter) == replay(
            start(initial.0, initial.1),
            other,
            return_iter,
        ),
        window_of(outcomes(one), ACCEPTANCE_WINDOW as nat) == window_of(
            outcomes(other),
            ACCEPTANCE_WINDOW as nat,
        ),
{
    lemma_prefixes_agree(probability, draws, return_iter, initial, one, other, one.len());
    assert(one.take(one.len() as int) =~= one);
    assert(other.take(other.len() as int) =~= other);
}

/// The first `n` decisions of two courses that meet the same trials and
/// the same draws are the same.
proof fn lemma_prefixes_agree<S, ST: Ord>(
    probability: spec_fn(ST, ST) -> Probability,
    draws: Seq<u64>,
    return_iter: nat,
    initial: (S, ST),
    one: Seq<Observation<S, ST>>,
    other: Seq<Observation<S, ST>>,
    n: nat,
)
    requires
        n <= one.len() == other.len(),
        forall|k: int|
            0 <= k < one.len() ==> one[k].solution == other[k].solution && one[k].score
                == other[k].score,
        drawn_by(probability, draws, return_iter, initial, one),
        drawn_by(probability, draws, return_iter, initial, other),
    ensures
        one.take(n as int) == other.take(n as int),
    decreases n,
{
    if n == 0 {
        assert(one.take(0) =~= other.take(0));
    } else {
        let k = (n - 1) as int;
        lemma_prefixes_agree(probability, draws, return_iter, initial, one, other, k as nat);
        assert(state_before(initial, one, k, return_iter) == state_before(
            initial,
            other,
            k,
            return_iter,
        ));
        assert(one[k].accepted == other[k].accepted);
        assert(one[k] == other[k]);
        assert(one.take(n as int) =~= one.take(k).push(one[k]));
        assert(other.take(n as int) =~= other.take(k).push(other[k]));
    }
}

/// The patience counter never counts more than the iterations.
pub proof fn lemma_stagnation_bounded<S, ST: Ord>(
    before: Bookkeeping<S, ST>,
    seen: Seq<Observation<S, ST>>,
    return_iter: nat,
)
    ensures
        replay(before, seen, return_iter).patience_stagnation <= before.patience_stagnation
            + seen.len(),
    decreases seen.len(),
{
    if seen.len() > 0 {
        lemma_stagnation_bounded(before, seen.drop_last(), return_iter);
    }
}

/// A search whose time limit the clock has reached at every reading
/// returns what it started from: the initial solution as the last and, as
/// it stands or as a clone, as the best, with an empty window.
pub proof fn lemma_no_time_no_iteration<S: Clone, ST: Ord>(
    rule: spec_fn(ST, ST, bool) -> bool,
    source: spec_fn((S, ST), (S, ST)) -> bool,
    patience: nat,
    return_iter: nat,
    initial: (S, ST),
    n_iter: nat,
    time_limit: Duration,
    result: StepResult<S, ST>,
)
    requires
        is_step_result(rule, source, patience, return_iter, initial, n_iter, time_limit, result),
        forall|elapsed: Duration| #[trigger] limit_reached(elapsed, time_limit),
    ensures
        result.last_solution == initial.0,
        result.last_score == initial.1,
        result.best_score == initial.1,
        cloned(initial.0, result.best_solution),
        result.acceptance_counter@ == Seq::<bool>::empty(),
{
    let seen = course_of(rule, source, patience, return_iter, initial, n_iter, time_limit, result);
    assert(seen.len() == 0);
    assert(outcomes(seen) =~= Seq::<bool>::empty());
}

/// A search that neither the clock nor the patience can stop makes all
/// its iterations: where no reading of the clock reaches the time limit
/// and the patience is greater than the number of iterations, a run has
/// `n_iter` iterations exactly.
pub proof fn lemma_runs_to_the_end<S, ST: Ord>(
    patience: nat,
    return_iter: nat,
    initial: (S, ST),
    n_iter: nat,
    time_limit: Duration,
    seen: Seq<Observation<S, ST>>,
)
    requires
        is_course(patience, return_iter, initial, n_iter, seen),
        stops_duly(patience, return_iter, initial, n_iter, time_limit, seen),
        forall|elapsed: Duration| !(#[trigger] limit_reached(elapsed, time_limit)),
        n_iter < patience,
    ensures
        seen.len() == n_iter,
{
    lemma_stagnation_bounded(start(initial.0, initial.1), seen, return_iter);
}

/// A search that the clock does not stop goes on until its patience is
/// exhausted. Let the first `improved` iterations of a run end with its
/// last improvement (zero if nothing improves), and let no reading of the
/// clock reach the time limit: with patience `P` and `improved + P`
/// iterations in the budget, the run has `improved + P` iterations,
/// neither fewer nor more. Iterations are counted from zero: if iteration
/// `k` is the last to improve, the search ends with iteration `k + P`.
pub proof fn lemma_stops_at_patience<S, ST: Ord>(
    patience: nat,
    return_iter: nat,
    initial: (S, ST),
    n_iter: nat,
    time_limit: Duration,
    seen: Seq<Observation<S, ST>>,
    improved: int,
)
    requires
        is_course(patience, return_iter, initial, n_iter, seen),
        stops_duly(patience, return_iter, initial, n_iter, time_limit, seen),
        forall|elapsed: Duration| !(#[trigger] limit_reached(elapsed, time_limit)),
        0 <= improved <= seen.len(),
        improved > 0 || patience > 0,
        improved + patience <= n_iter,
        improved > 0 ==> better(
            seen[improved - 1].score,
            state_before(initial, seen, improved - 1, return_iter).best.1,
        ),
        forall|k: int|
            improved <= k < seen.len() ==> !better(
                (#[trigger] seen[k]).score,
                state_before(initial, seen, improved, return_iter).best.1,
            ),
    ensures
        seen.len() == improved + patience,
{
    lemma_patience_boundary(patience, return_iter, initial, n_iter, seen, improved);
}

/// The course follows the streams: its trials are the first of `trials`,
/// and every decision is the one that follows from the trial, the
/// transition probabilities and the draw of its iteration.
pub open spec fn follows<S, ST: Ord>(
    probability: spec_fn(ST, ST) -> Probability,
    trials: Seq<(S, ST)>,
    draws: Seq<u64>,
    return_iter: nat,
    initial: (S, ST),
    seen: Seq<Observation<S, ST>>,
) -> bool {
    &&& seen.len() <= trials.len()
    &&& seen.len() <= draws.len()
    &&& forall|k: int|
        0 <= k < seen.len() ==> {
            &&& (#[trigger] seen[k]).solution == trials[k].0
            &&& seen[k].score == trials[k].1
            &&& seen[k].accepted == decision(
                probability,
                state_before(initial, seen, k, return_iter).current.1,
                seen[k].score,
                draws[k],
            )
        }
}

/// Two runs with the same parameters that are fed the same trials and
/// the same draws, and that the clock does not stop, are the same run:
/// they take the same decisions, stop at the same iteration and end with
/// the same bookkeeping and the same window.
pub proof fn lemma_runs_are_deterministic<S, ST: Ord>(
    probability: spec_fn(ST, ST) -> Probability,
    trials: Seq<(S, ST)>,
    draws: Seq<u64>,
    patience: nat,
    return_iter: nat,
    initial: (S, ST),
    n_iter: nat,
    time_limit: Duration,
    one: Seq<Observation<S, ST>>,
    other: Seq<Observation<S, ST>>,
)
    requires
        forall|elapsed: Duration| !(#[trigger] limit_reached(elapsed, time_limit)),
        follows(probability, trials, draws, return_iter, initial, one),
        follows(probability, trials, draws, return_iter, initial, other),
        is_course(patience, return_iter, initial, n_iter, one),
        is_course(patience, return_iter, initial, n_iter, other),
        stops_duly(patience, return_iter, initial, n_iter, time_limit, one),
        stops_duly(patience, return_iter, initial, n_iter, time_limit, other),
    ensures
        one == other,
{
    if one.len() <= other.len() {
        lemma_shorter_run_is_whole(
            probability,
            trials,
            draws,
            patience,
            return_iter,
            initial,
            n_iter,
            time_limit,
            one,
            other,
        );
    } else {
        lemma_shorter_run_is_whole(
            probability,
            trials,
            draws,
            patience,
            return_iter,
            initial,
            n_iter,
            time_limit,
            other,
            one,
        );
    }
}

/// Of two runs that are fed the same trials and draws, the shorter is
/// the whole of the longer.
proof fn lemma_shorter_run_is_whole<S, ST: Ord>(
    probability: spec_fn(ST, ST) -> Probability,
    trials: Seq<(S, ST)>,
    draws: Seq<u64>,
    patience: nat,
    return_iter: nat,
    initial: (S, ST),
    n_iter: nat,
    time_limit: Duration,
    short: Seq<Observation<S, ST>>,
    long: Seq<Observation<S, ST>>,
)
    requires
        short.len() <= long.len(),
        forall|elapsed: Duration| !(#[trigger] limit_reached(elapsed, time_limit)),
        follows(probability, trials, draws, return_iter, initial, short),
        follows(probability, trials, draws, return_iter, initial, long),
        is_course(patience, return_iter, initial, n_iter, long),
        stops_duly(patience, return_iter, initial, n_iter, time_limit, short),
    ensures
        short == long,
{
    let n = short.len() as int;
    let head = long.take(n);
    let fed = draws.take(n);
    assert forall|k: int| 0 <= k < n implies (#[trigger] head[k]).accepted == decision(
        probability,
        state_before(initial, head, k, return_iter).current.1,
        head[k].score,
        fed[k],
    ) by {
        assert(head.take(k) =~= long.take(k));
        assert(head[k] == long[k]);
    }
    assert forall|k: int| 0 <= k < n implies (#[trigger] short[k]).accepted == decision(
        probability,
        state_before(initial, short, k, return_iter).current.1,
        short[k].score,
        fed[k],
    ) by {}
    assert forall|k: int| 0 <= k < n implies short[k].solution == head[k].solution && short[k].score
        == head[k].score by {
        assert(head[k] == long[k]);
    }
    lemma_prefixes_agree(probability, fed, return_iter, initial, short, head, n as nat);
    assert(short.take(n) =~= short);
    assert(head.take(n) =~= head);
    if n < long.len() {
        // the shorter run has stopped on its patience, where the longer one went on
        assert(state_before(initial, long, n, return_iter) == replay(
            start(initial.0, initial.1),
            short,
            return_iter,
        ));
        assert(false);
    }
    assert(long.take(n) =~= long);
}

} // verus!
