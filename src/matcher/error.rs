use vstd::prelude::*;

verus! {

/// Why a query found no category.
#[derive(Debug, Clone)]
pub enum MatchError {
    /// The query was blank.
    EmptyQuery,
    /// Every word of the query was a stop word.
    QueryAllStopWords,
    /// Scoring finished but the best category stayed under the threshold.
    /// Threshold and score are in millionths.
    BelowThreshold {
        threshold: u32,
        closest_slug: String,
        closest_score: u32,
        all_slugs: Vec<String>,
    },
}

} // verus!
