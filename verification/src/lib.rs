//! A small ranked-choice voting core: a fixed candidate registry, a
//! one-ballot-per-voter store, a Borda-count tally with a deterministic
//! lexicographic tie-break, and a one-shot administrator-gated decision lock.

pub mod errors;
pub mod order;
pub mod registry;
pub mod store;
pub mod tally;
pub mod voting;
