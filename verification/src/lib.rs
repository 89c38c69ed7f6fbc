//! Ranks a list of candidate strings against a single search term.
//!
//! The ranking pairs every candidate with a relevance score derived from
//! substring matching (prefix matches rank above containment matches, which
//! rank above non-matches) and returns the candidates sorted by that score in
//! descending order.  Two further similarity measures, a character-set
//! Jaccard index and a Levenshtein edit distance, are provided as standalone
//! scorers that the ranking itself does not consult.

pub mod jaccard;
pub mod levenshtein;
pub mod rank;
pub mod score;
pub mod text;

pub use jaccard::calculate_jaccard_index;
pub use levenshtein::calculate_levenshtein_distance;
pub use rank::sort_by_ranking_score;
pub use score::calculate_substring_score;
