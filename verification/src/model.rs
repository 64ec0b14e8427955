//! The optimization problem as the optimizers see it.

use crate::error::LocalsearchError;
use crate::probability::thread_generator;
use rayon::iter::{IntoParallelIterator, ParallelIterator};
use vstd::prelude::*;

verus! {

/// OptModel is a trait that defines requirements to be used with optimization algorithm
pub trait OptModel: Sync + Send {
    /// Type of the Score
    type ScoreType: Ord + Copy + Sync + Send;

    /// Type of the Solution
    type SolutionType: Clone + Sync + Send;

    /// Type of the Transition
    type TransitionType: Clone + Sync + Send;

    /// Randomly generate a solution
    fn generate_random_solution<R: rand::Rng>(&self, rng: &mut R) -> Result<
        (Self::SolutionType, Self::ScoreType),
        LocalsearchError,
    >;

    /// Generate a new trial solution from current solution
    fn generate_trial_solution<R: rand::Rng>(
        &self,
        current_solution: Self::SolutionType,
        current_score: Self::ScoreType,
        rng: &mut R,
    ) -> (Self::SolutionType, Self::TransitionType, Self::ScoreType);

    /// Preprocess the solution
    ///
    /// A model that does not say otherwise hands the solution on as it
    /// is, and never fails.
    fn preprocess_solution(
        &self,
        current_solution: Self::SolutionType,
        current_score: Self::ScoreType,
    ) -> (prepared: Result<(Self::SolutionType, Self::ScoreType), LocalsearchError>)
        default_ensures
            prepared == Ok::<(Self::SolutionType, Self::ScoreType), LocalsearchError>(
                (current_solution, current_score),
            ),
    {
        Ok((current_solution, current_score))
    }

    /// Postprocess the solution
    ///
    /// A model that does not say otherwise hands the solution on as it
    /// is.
    fn postprocess_solution(
        &self,
        current_solution: Self::SolutionType,
        current_score: Self::ScoreType,
    ) -> (finished: (Self::SolutionType, Self::ScoreType))
        default_ensures
            finished == (current_solution, current_score),
    {
        (current_solution, current_score)
    }
}

/// A trial as the model proposes it: the solution, the move that leads to
/// it, and its score.
pub type Trial<M> = (
    <M as OptModel>::SolutionType,
    <M as OptModel>::TransitionType,
    <M as OptModel>::ScoreType,
);

/// `trial` is what the model can propose around the solution `start`
/// with the score `score`, whatever the generator it draws from holds.
pub open spec fn proposed<M: OptModel>(
    model: &M,
    start: M::SolutionType,
    score: M::ScoreType,
    trial: Trial<M>,
) -> bool {
    exists|rng: &mut rand::rngs::ThreadRng|
        call_ensures(
            M::generate_trial_solution::<rand::rngs::ThreadRng>,
            (model, start, score, rng),
            trial,
        )
}

/// A trial around the current solution: what the model proposes for a
/// clone of the current solution and its score, with the generator of the
/// current thread.
pub(crate) fn propose<M: OptModel>(
    model: &M,
    current_solution: &M::SolutionType,
    current_score: M::ScoreType,
) -> (trial: Trial<M>)
    ensures
        is_proposal(model, (*current_solution, current_score), trial),
{
    let mut rng = thread_generator();
    let start = current_solution.clone();
    let generate = M::generate_trial_solution::<rand::rngs::ThreadRng>;
    let trial = generate(model, start, current_score, &mut rng);
    proof {
        let current = (*current_solution, current_score);
        assert(proposed(model, start, current.1, trial));
    }
    trial
}

/// `trial` is what the model can propose around a clone of the solution
/// `current.0` with the score `current.1`.
pub open spec fn is_proposal<M: OptModel>(
    model: &M,
    current: (M::SolutionType, M::ScoreType),
    trial: Trial<M>,
) -> bool {
    exists|start: M::SolutionType|
        cloned(current.0, start) && #[trigger] proposed(model, start, current.1, trial)
}

/// `offer` is what the model can propose in `n_trials` trials around the
/// solution `current.0` with the score `current.1`: each trial is one
/// that the model can propose for a clone of the solution.
pub open spec fn is_offer<M: OptModel>(
    model: &M,
    n_trials: nat,
    current: (M::SolutionType, M::ScoreType),
    offer: Seq<Trial<M>>,
) -> bool {
    &&& offer.len() == n_trials
    &&& forall|i: int| 0 <= i < offer.len() ==> is_proposal(model, current, #[trigger] offer[i])
}

/// `n_trials` trials around the current solution, each proposed on a
/// worker of rayon's pool. A parallel range of `n_trials` indices, mapped
/// and collected into a vector, gives one item per index, in order: each
/// is what `propose` returned.
#[verifier::external_body]
pub(crate) fn generate_trials<M: OptModel>(
    model: &M,
    current_solution: &M::SolutionType,
    current_score: M::ScoreType,
    n_trials: usize,
) -> (trials: Vec<Trial<M>>)
    ensures
        is_offer(model, n_trials as nat, (*current_solution, current_score), trials@),
{
    (0..n_trials).into_par_iter().map(|_| propose(model, current_solution, current_score)).collect()
}

/// `outcome` is what the model can answer when it is asked for a random
/// solution, whatever the generator it draws from holds.
pub open spec fn generated<M: OptModel>(
    model: &M,
    outcome: Result<(M::SolutionType, M::ScoreType), LocalsearchError>,
) -> bool {
    exists|rng: &mut rand::rngs::ThreadRng|
        call_ensures(M::generate_random_solution::<rand::rngs::ThreadRng>, (model, rng), outcome)
}

/// A random solution of the model: what the model answers when it is
/// asked for one with the generator of the current thread, its failure
/// included.
pub(crate) fn generate_initial_solution<M: OptModel>(model: &M) -> (solution: Result<
    (M::SolutionType, M::ScoreType),
    LocalsearchError,
>)
    ensures
        generated(model, solution),
{
    let mut rng = thread_generator();
    let generate = M::generate_random_solution::<rand::rngs::ThreadRng>;
    generate(model, &mut rng)
}

} // verus!
