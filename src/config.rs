use vstd::prelude::*;

verus! {

/// Settings of the server process.
#[derive(Debug, Clone)]
pub struct Config {
    /// Where the catalog file lives.
    pub registry_path: String,
    /// Log format: "pretty" or "json".
    pub log_format: String,
    /// Port to listen on.
    pub port: u16,
    /// Secret key of the server's identity as 64 hex digits; without it a
    /// fresh identity is made at each start.
    pub pkarr_secret_key: Option<String>,
}

/// Log format used when none is configured.
pub fn default_log_format() -> (r: String)
    ensures
        r@ == "pretty"@,
{
    String::from_str("pretty")
}

/// Port the server listens on when none is configured.
pub fn default_port() -> (r: u16)
    ensures
        r == 3000,
{
    3000
}

} // verus!
