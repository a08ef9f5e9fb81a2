//! The query matching engine: text normalization, scoring and the
//! accept-or-reject decision.
pub mod config;
pub mod error;
pub mod normalize;
pub mod order;
pub mod scorer;

pub use config::MatchConfig;
pub use error::MatchError;
pub use scorer::match_query;
