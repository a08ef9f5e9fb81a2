//! Matching of natural-language queries against a curated catalog of topic
//! categories, with the catalog's validation rules and the decisions of the
//! JSON-RPC session that serves it.
pub mod config;
pub mod matcher;
pub mod mcp;
pub mod pubky;
pub mod registry;
pub mod text;
