//! Optimization algorithms

pub mod asa;
pub mod base;
pub mod bookkeeping;
pub mod course;
pub mod epsilon_greedy;
pub mod generic;
pub mod hill_climbing;
pub mod parallel_tempering;
pub mod population_annealing;
pub mod random;
pub mod rounds;
pub mod schedule;
pub mod tabu_search;

pub use asa::AdaptiveSimulatedAnnealingOptimizer;
pub use base::{IndexedProbabilityFn, LocalSearchOptimizer, TransitionProbabilityFn};
pub use epsilon_greedy::EpsilonGreedyOptimizer;
pub use generic::{GenericLocalSearchOptimizer, StepResult};
pub use hill_climbing::HillClimbingOptimizer;
pub use parallel_tempering::ParallelTemperingOptimizer;
pub use population_annealing::{PopulationAnnealingOptimizer, ResamplingFn};
pub use random::RandomSearchOptimizer;
pub use schedule::TargetAccScheduleMode;
pub use tabu_search::{TabuList, TabuSearchOptimizer};
