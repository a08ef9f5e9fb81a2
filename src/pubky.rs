//! The server's identity key.
pub mod error;
pub mod identity;
