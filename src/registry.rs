//! The catalog: its data model, its errors and its validation rules.
pub mod error;
pub mod loader;
pub mod types;

pub use error::RegistryError;
pub use types::{Category, Curator, Endorsement, Registry, Source, SourceType};
