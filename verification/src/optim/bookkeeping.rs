//! What a search remembers from one iteration to the next.

use crate::counter::AcceptanceCounter;
use crate::order::{
    better, is_better, lemma_better_asymmetric, lemma_better_irreflexive,
    lemma_better_then_not_worse, lemma_not_better_transitive, totally_ordered,
};
use crate::utils::fifo_push;
use vstd::prelude::*;

verus! {

/// Size of the window over which a run reports its acceptance ratio.
pub const ACCEPTANCE_WINDOW: usize = 100;

/// What a search remembers from one iteration to the next.
pub struct Bookkeeping<S, ST> {
    /// The solution the next trials start from, with its score.
    pub current: (S, ST),
    /// The best solution seen so far, with its score.
    pub best: (S, ST),
    /// Iterations without improvement since the last improvement or the
    /// last return to the best solution.
    pub return_stagnation: nat,
    /// Iterations without improvement since the last improvement.
    pub patience_stagnation: nat,
}

/// What one iteration brings: the chosen trial and whether it was accepted.
pub struct Observation<S, ST> {
    /// The trial solution.
    pub solution: S,
    /// The score of the trial solution.
    pub score: ST,
    /// Whether the trial replaces the current solution.
    pub accepted: bool,
}

/// The bookkeeping at the start of a search.
pub open spec fn start<S, ST>(solution: S, score: ST) -> Bookkeeping<S, ST> {
    Bookkeeping {
        current: (solution, score),
        best: (solution, score),
        return_stagnation: 0,
        patience_stagnation: 0,
    }
}

/// The bookkeeping after one more iteration.
///
/// A trial that is strictly better than the best replaces it and clears
/// both stagnation counters; any other trial advances both. An accepted
/// trial becomes the current solution. When the return counter then
/// stands at `return_iter`, the search goes back to the best solution and
/// that counter starts again.
pub open spec fn observe<S, ST: Ord>(
    before: Bookkeeping<S, ST>,
    seen: Observation<S, ST>,
    return_iter: nat,
) -> Bookkeeping<S, ST> {
    let improved = better(seen.score, before.best.1);
    let best = if improved {
        (seen.solution, seen.score)
    } else {
        before.best
    };
    let return_stagnation = if improved {
        0
    } else {
        before.return_stagnation + 1
    };
    let patience_stagnation = if improved {
        0
    } else {
        before.patience_stagnation + 1
    };
    let current = if seen.accepted {
        (seen.solution, seen.score)
    } else {
        before.current
    };
    if return_stagnation == return_iter {
        Bookkeeping { current: best, best, return_stagnation: 0, patience_stagnation }
    } else {
        Bookkeeping { current, best, return_stagnation, patience_stagnation }
    }
}

/// The bookkeeping after an iteration that brought no trial to decide on:
/// both stagnation counters advance, and the search goes back to the best
/// solution when the return counter then stands at `return_iter`.
pub open spec fn pass<S, ST>(before: Bookkeeping<S, ST>, return_iter: nat) -> Bookkeeping<S, ST> {
    if before.return_stagnation + 1 == return_iter {
        Bookkeeping {
            current: before.best,
            best: before.best,
            return_stagnation: 0,
            patience_stagnation: before.patience_stagnation + 1,
        }
    } else {
        Bookkeeping {
            current: before.current,
            best: before.best,
            return_stagnation: before.return_stagnation + 1,
            patience_stagnation: before.patience_stagnation + 1,
        }
    }
}

/// The bookkeeping after a sequence of iterations.
pub open spec fn replay<S, ST: Ord>(
    before: Bookkeeping<S, ST>,
    seen: Seq<Observation<S, ST>>,
    return_iter: nat,
) -> Bookkeeping<S, ST>
    decreases seen.len(),
{
    if seen.len() == 0 {
        before
    } else {
        observe(replay(before, seen.drop_last(), return_iter), seen.last(), return_iter)
    }
}

/// The search has gone `patience` iterations without improvement.
pub open spec fn exhausted<S, ST>(state: Bookkeeping<S, ST>, patience: nat) -> bool {
    state.patience_stagnation == patience
}

/// The accept/reject outcomes of a sequence of iterations.
pub open spec fn outcomes<S, ST>(seen: Seq<Observation<S, ST>>) -> Seq<bool> {
    seen.map_values(|o: Observation<S, ST>| o.accepted)
}

/// The best score is never worse than the current one.
pub open spec fn best_leads<S, ST: Ord>(state: Bookkeeping<S, ST>) -> bool {
    !better(state.current.1, state.best.1)
}

/// One iteration keeps the best score ahead of the current one, never
/// makes the best score worse, and leaves the best score at least as good
/// as the trial.
pub proof fn lemma_observe_keeps_order<S, ST: Ord>(
    before: Bookkeeping<S, ST>,
    seen: Observation<S, ST>,
    return_iter: nat,
)
    requires
        totally_ordered::<ST>(),
        best_leads(before),
    ensures
        best_leads(observe(before, seen, return_iter)),
        !better(before.best.1, observe(before, seen, return_iter).best.1),
        !better(seen.score, observe(before, seen, return_iter).best.1),
{
    let after = observe(before, seen, return_iter);
    lemma_better_irreflexive(seen.score);
    lemma_better_irreflexive(before.best.1);
    if better(seen.score, before.best.1) {
        lemma_better_asymmetric(seen.score, before.best.1);
        if !seen.accepted {
            lemma_better_then_not_worse(seen.score, before.best.1, before.current.1);
            lemma_better_asymmetric(seen.score, before.current.1);
        }
    }
}

/// A whole sequence of iterations keeps the best score ahead of the
/// current one and never makes the best score worse.
pub proof fn lemma_replay_keeps_order<S, ST: Ord>(
    before: Bookkeeping<S, ST>,
    seen: Seq<Observation<S, ST>>,
    return_iter: nat,
)
    requires
        totally_ordered::<ST>(),
        best_leads(before),
    ensures
        best_leads(replay(before, seen, return_iter)),
        !better(before.best.1, replay(before, seen, return_iter).best.1),
    decreases seen.len(),
{
    if seen.len() == 0 {
        lemma_better_irreflexive(before.best.1);
    } else {
        let middle = replay(before, seen.drop_last(), return_iter);
        lemma_replay_keeps_order(before, seen.drop_last(), return_iter);
        lemma_observe_keeps_order(middle, seen.last(), return_iter);
        lemma_not_better_transitive(
            before.best.1,
            middle.best.1,
            replay(before, seen, return_iter).best.1,
        );
    }
}

/// The state of a search between two iterations.
pub struct SearchState<S, ST> {
    current_solution: S,
    current_score: ST,
    /// The best solution, where it is not the current one.
    set_aside_best: Option<S>,
    best_score: ST,
    return_stagnation_counter: usize,
    patience_stagnation_counter: usize,
    acceptance_counter: AcceptanceCounter,
}

impl<S, ST: Ord + Copy> SearchState<S, ST> {
    /// The best solution seen so far.
    pub closed spec fn best_solution(&self) -> S {
        match self.set_aside_best {
            Some(best) => best,
            None => self.current_solution,
        }
    }

    /// What the state remembers, as the contracts speak of it.
    pub closed spec fn bookkeeping(&self) -> Bookkeeping<S, ST> {
        Bookkeeping {
            current: (self.current_solution, self.current_score),
            best: (self.best_solution(), self.best_score),
            return_stagnation: self.return_stagnation_counter as nat,
            patience_stagnation: self.patience_stagnation_counter as nat,
        }
    }

    /// The accept/reject outcomes in the rolling window, oldest first.
    pub closed spec fn window(&self) -> Seq<bool> {
        self.acceptance_counter@
    }

    /// The state is consistent: the window is in order, the best score is
    /// never worse than the current one, and a best solution that is not
    /// kept apart is the current one.
    pub closed spec fn wf(&self) -> bool {
        &&& self.acceptance_counter.wf()
        &&& self.acceptance_counter.window_size() == ACCEPTANCE_WINDOW
        &&& !better(self.current_score, self.best_score)
        &&& self.set_aside_best is None ==> self.best_score == self.current_score
    }

    /// The state at the start of a search from the given solution.
    pub fn new(initial_solution: S, initial_score: ST) -> (state: Self)
        requires
            totally_ordered::<ST>(),
        ensures
            state.wf(),
            state.bookkeeping() == start(initial_solution, initial_score),
            state.window() == Seq::<bool>::empty(),
    {
        proof {
            lemma_better_irreflexive(initial_score);
        }
        Self {
            current_solution: initial_solution,
            current_score: initial_score,
            set_aside_best: None,
            best_score: initial_score,
            return_stagnation_counter: 0,
            patience_stagnation_counter: 0,
            acceptance_counter: AcceptanceCounter::new(ACCEPTANCE_WINDOW),
        }
    }

    /// The current solution.
    pub fn current_solution(&self) -> (solution: &S)
        ensures
            *solution == self.bookkeeping().current.0,
    {
        &self.current_solution
    }

    /// The score of the current solution.
    pub fn current_score(&self) -> (score: ST)
        ensures
            score == self.bookkeeping().current.1,
    {
        self.current_score
    }

    /// The best solution seen so far.
    pub fn best(&self) -> (solution: &S)
        ensures
            *solution == self.bookkeeping().best.0,
    {
        match &self.set_aside_best {
            Some(best) => best,
            None => &self.current_solution,
        }
    }

    /// The score of the best solution seen so far.
    pub fn best_score(&self) -> (score: ST)
        ensures
            score == self.bookkeeping().best.1,
    {
        self.best_score
    }

    /// The acceptance counter of the search.
    pub fn acceptance_counter(&self) -> (counter: &AcceptanceCounter)
        requires
            self.wf(),
        ensures
            counter.wf(),
            counter@ == self.window(),
    {
        &self.acceptance_counter
    }

    /// Takes in the trial of one iteration and the decision on it.
    pub fn advance(
        &mut self,
        trial_solution: S,
        trial_score: ST,
        accepted: bool,
        return_iter: usize,
    )
        requires
            totally_ordered::<ST>(),
            old(self).wf(),
            old(self).bookkeeping().return_stagnation < usize::MAX,
            old(self).bookkeeping().patience_stagnation < usize::MAX,
        ensures
            final(self).wf(),
            final(self).bookkeeping() == observe(
                old(self).bookkeeping(),
                Observation { solution: trial_solution, score: trial_score, accepted },
                return_iter as nat,
            ),
            final(self).window() == fifo_push(
                old(self).window(),
                ACCEPTANCE_WINDOW as nat,
                accepted,
            ),
    {
        proof {
            lemma_observe_keeps_order(
                old(self).bookkeeping(),
                Observation { solution: trial_solution, score: trial_score, accepted },
                return_iter as nat,
            );
            lemma_better_irreflexive(trial_score);
        }
        let improved = is_better(trial_score, self.best_score);
        if improved {
            self.best_score = trial_score;
            self.return_stagnation_counter = 0;
            self.patience_stagnation_counter = 0;
        } else {
            self.return_stagnation_counter = self.return_stagnation_counter + 1;
            self.patience_stagnation_counter = self.patience_stagnation_counter + 1;
        }

        self.acceptance_counter.enqueue(accepted);

        if accepted {
            let mut replaced = trial_solution;
            std::mem::swap(&mut self.current_solution, &mut replaced);
            self.current_score = trial_score;
            if improved {
                self.set_aside_best = None;
            } else if self.set_aside_best.is_none() {
                self.set_aside_best = Some(replaced);
            }
        } else if improved {
            self.set_aside_best = Some(trial_solution);
        }

        if self.return_stagnation_counter == return_iter {
            match self.set_aside_best.take() {
                Some(best) => {
                    self.current_solution = best;
                },
                None => {},
            }
            self.current_score = self.best_score;
            self.return_stagnation_counter = 0;
        }
    }

    /// Takes in an iteration that brought no trial to decide on.
    pub fn stagnate(&mut self, return_iter: usize)
        requires
            totally_ordered::<ST>(),
            old(self).wf(),
            old(self).bookkeeping().return_stagnation < usize::MAX,
            old(self).bookkeeping().patience_stagnation < usize::MAX,
        ensures
            final(self).wf(),
            final(self).bookkeeping() == pass(old(self).bookkeeping(), return_iter as nat),
            final(self).window() == old(self).window(),
    {
        proof {
            lemma_better_irreflexive(self.best_score);
        }
        self.return_stagnation_counter = self.return_stagnation_counter + 1;
        self.patience_stagnation_counter = self.patience_stagnation_counter + 1;
        if self.return_stagnation_counter == return_iter {
            match self.set_aside_best.take() {
                Some(best) => {
                    self.current_solution = best;
                },
                None => {},
            }
            self.current_score = self.best_score;
            self.return_stagnation_counter = 0;
        }
    }

    /// Whether the search has gone `patience` iterations without
    /// improvement.
    pub fn gives_up(&self, patience: usize) -> (stop: bool)
        ensures
            stop == exhausted(self.bookkeeping(), patience as nat),
    {
        self.patience_stagnation_counter == patience
    }
}

/// Result of an optimization step, containing information about the best and last solutions,
/// as well as the acceptance counter for the step.
pub struct StepResult<S, ST> {
    /// The best solution found during this step.
    pub best_solution: S,
    /// The score of the best solution found during this step.
    pub best_score: ST,
    /// The last solution at the end of this step (may differ from the best).
    pub last_solution: S,
    /// The score of the last solution at the end of this step.
    pub last_score: ST,
    /// Acceptance counter for the step.
    pub acceptance_counter: AcceptanceCounter,
}

impl<S: Clone, ST: Ord + Copy> SearchState<S, ST> {
    /// Ends the search: hands out the best and the last solution.
    pub fn into_result(self) -> (result: StepResult<S, ST>)
        requires
            self.wf(),
        ensures
            summarizes(result, self.bookkeeping(), self.window()),
    {
        let SearchState {
            current_solution,
            current_score,
            set_aside_best,
            best_score,
            return_stagnation_counter: _,
            patience_stagnation_counter: _,
            acceptance_counter,
        } = self;
        let best_solution = match set_aside_best {
            Some(best) => best,
            None => current_solution.clone(),
        };
        StepResult {
            best_solution,
            best_score,
            last_solution: current_solution,
            last_score: current_score,
            acceptance_counter,
        }
    }
}

/// The result reports the given bookkeeping and window: the last solution
/// and both scores as they stand, the best solution as it stands or as a
/// clone of it.
pub open spec fn summarizes<S: Clone, ST>(
    result: StepResult<S, ST>,
    state: Bookkeeping<S, ST>,
    window: Seq<bool>,
) -> bool {
    &&& result.last_solution == state.current.0
    &&& result.last_score == state.current.1
    &&& result.best_score == state.best.1
    &&& cloned(state.best.0, result.best_solution)
    &&& result.acceptance_counter.wf()
    &&& result.acceptance_counter.window_size() == ACCEPTANCE_WINDOW
    &&& result.acceptance_counter@ == window
}

/// The result reports the best solution of the bookkeeping, as it stands
/// or as a clone of it, with its score.
pub open spec fn reports_best<S: Clone, ST>(result: (S, ST), state: Bookkeeping<S, ST>) -> bool {
    &&& result.1 == state.best.1
    &&& cloned(state.best.0, result.0)
}

} // verus!
