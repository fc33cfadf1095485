//! Levenshtein edit distance over code points, with a bounded early-exit variant and a
//! ranking of candidate strings by closeness to a target.
pub mod edit_distance;
pub mod laws;
pub mod lexical;
pub mod metric;
pub mod ranking;
pub mod text;

pub use edit_distance::{distance, distance_within};
pub use metric::{DELETION_COST, IDENTITY_COST, INSERTION_COST, SUBSTITUTION_COST};
pub use ranking::all_within;
