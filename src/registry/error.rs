use vstd::prelude::*;

verus! {

/// Why a catalog could not be loaded.
#[derive(Debug, Clone)]
pub enum RegistryError {
    /// The file could not be read.
    FileRead { path: String, error: String },
    /// The file is not a catalog in JSON.
    JsonParse { path: String, error: String, line: usize, column: usize },
    /// A slug is not lowercase alphanumeric segments joined by hyphens.
    InvalidSlug { slug: String },
    /// A category does not have the required number of sources.
    InvalidSourceCount { category: String, expected: usize, actual: usize },
    /// A category has too few query patterns.
    InsufficientQueryPatterns { category: String, minimum: usize, actual: usize },
    /// The ranks of a category's sources are not 1, 2, 3 in some order.
    InvalidRanks { category: String, actual: Vec<u8>, expected: usize },
}

} // verus!
