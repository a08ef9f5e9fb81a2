use vstd::prelude::*;

verus! {

/// One whole in the fixed-point unit of scores, thresholds and weights
/// (millionths).
pub const SCORE_SCALE: u32 = 1_000_000;

/// How far the two weights may sum away from one whole, in millionths.
pub const WEIGHT_SUM_TOLERANCE: u32 = 10_000;

/// Parameters of the accept-or-reject decision, all in millionths.
#[derive(Debug, Clone, Copy, PartialEq, Eq, Structural)]
pub struct MatchConfig {
    /// Least score that accepts a match.
    pub match_threshold: u32,
    /// Weight of the edit-distance signal.
    pub match_fuzzy_weight: u32,
    /// Weight of the slug-term signal.
    pub match_keyword_weight: u32,
}

/// Why a configuration was refused.
#[derive(Debug, Clone, Copy, PartialEq, Eq, Structural)]
pub enum ConfigError {
    /// The threshold is above one whole.
    ThresholdOutOfRange,
    /// The two weights do not sum to one whole within the tolerance.
    WeightsDoNotSumToOne,
}

/// Default threshold: 0.4.
pub fn default_threshold() -> (r: u32)
    ensures
        r == 400_000,
{
    400_000
}

/// Default weight of the edit-distance signal: 0.7.
pub fn default_fuzzy_weight() -> (r: u32)
    ensures
        r == 700_000,
{
    700_000
}

/// Default weight of the slug-term signal: 0.3.
pub fn default_keyword_weight() -> (r: u32)
    ensures
        r == 300_000,
{
    300_000
}

impl MatchConfig {
    /// The threshold lies in [0, 1].
    pub open spec fn threshold_in_range(&self) -> bool {
        self.match_threshold <= SCORE_SCALE
    }

    /// The weights sum to one whole within the tolerance.
    pub open spec fn weights_sum_to_one(&self) -> bool {
        let sum = self.match_fuzzy_weight + self.match_keyword_weight;
        SCORE_SCALE - WEIGHT_SUM_TOLERANCE <= sum <= SCORE_SCALE + WEIGHT_SUM_TOLERANCE
    }

    /// The configuration with the default threshold and weights.
    pub fn new_default() -> (r: MatchConfig)
        ensures
            r.match_threshold == 400_000,
            r.match_fuzzy_weight == 700_000,
            r.match_keyword_weight == 300_000,
    {
        MatchConfig {
            match_threshold: default_threshold(),
            match_fuzzy_weight: default_fuzzy_weight(),
            match_keyword_weight: default_keyword_weight(),
        }
    }

    /// Checks the threshold first, then the sum of the weights.
    pub fn validate(&self) -> (r: Result<(), ConfigError>)
        ensures
            !self.threshold_in_range() <==> r == Err::<(), ConfigError>(
                ConfigError::ThresholdOutOfRange,
            ),
            (self.threshold_in_range() && !self.weights_sum_to_one()) <==> r == Err::<
                (),
                ConfigError,
            >(ConfigError::WeightsDoNotSumToOne),
            (self.threshold_in_range() && self.weights_sum_to_one()) <==> r is Ok,
    {
        if self.match_threshold > SCORE_SCALE {
            return Err(ConfigError::ThresholdOutOfRange);
        }
        let sum: u64 = self.match_fuzzy_weight as u64 + self.match_keyword_weight as u64;
        if sum < (SCORE_SCALE - WEIGHT_SUM_TOLERANCE) as u64 || sum > (SCORE_SCALE
            + WEIGHT_SUM_TOLERANCE) as u64 {
            return Err(ConfigError::WeightsDoNotSumToOne);
        }
        Ok(())
    }

    /// The same weights under another threshold.
    pub fn with_threshold(&self, threshold: u32) -> (r: MatchConfig)
        ensures
            r.match_threshold == threshold,
            r.match_fuzzy_weight == self.match_fuzzy_weight,
            r.match_keyword_weight == self.match_keyword_weight,
    {
        MatchConfig { match_threshold: threshold, ..*self }
    }
}

} // verus!
