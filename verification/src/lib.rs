//! Stochastic local search with machine-checked bookkeeping.
//!
//! The crate provides the acceptance-driven search loop, the tabu-search
//! variant and the multi-replica drivers over an abstract optimization
//! model, together with the small data structures they rest on. Scores
//! are any totally ordered values, lower being better; probabilities are
//! held on a grid (see [`Probability`]), so that every decision of a
//! search is a comparison of two scores or of a draw with a threshold.

pub mod optim;
pub mod utils;

pub mod callback;
pub use callback::{OptCallbackFn, OptProgress};

pub mod counter;
pub use counter::{AcceptanceCounter, AcceptanceRatio};

pub mod error;
pub use error::LocalsearchError;

pub mod model;
pub use model::OptModel;

pub mod order;

pub mod probability;
pub use probability::Probability;

pub mod clock;
pub use web_time::{Duration, Instant};
