//! Pairwise optimal-string-alignment distances between the lines of a text.
//!
//! [`distance`] holds the distance itself and what holds of it, [`pairs`]
//! the order in which the pairs of lines are taken, [`results`] what is kept
//! of each comparison, [`scheduler`] the rule by which the comparisons are
//! handed to a bounded number of workers, and [`ranking`] the order in which
//! the results are listed.

pub mod distance;
pub mod pairs;
pub mod ranking;
pub mod results;
pub mod scheduler;

pub use distance::{calculate_osa_distance_between_two_strings, distance};
pub use pairs::{pair_combinations_count, PairEnumerator, PairKey};
pub use ranking::{compare_results, print_count, NUM_PRINT_ALL};
pub use results::{calculate_osa_distances, distance_result, is_comparable, CountMismatch,
    DistanceResult, ResultAggregator};
pub use scheduler::{resolve_thread_num, Action, Scheduler, NUM_ALL_THREADS_AVAILABLE};
