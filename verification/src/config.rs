//! The settings that the gateway runs with.

use vstd::prelude::*;
use vstd::string::*;

verus! {

/// The addresses the gateway uses and its policy for a failing adaptation service.
pub struct Config {
    /// Where the adaptation service listens.
    pub icap_server_addr: String,
    /// Where the gateway itself listens.
    pub listen_addr: String,
    /// Fail open: when the adaptation service cannot be had, pass the
    /// request on as it came. Otherwise refuse it.
    pub fallback_mode: bool,
}

impl Config {
    /// The built-in settings: a local adaptation service, every interface
    /// on port 8080, and fail closed.
    pub fn load() -> (config: Config)
        ensures
            config.icap_server_addr@ == "127.0.0.1:1344"@,
            config.listen_addr@ == "0.0.0.0:8080"@,
            !config.fallback_mode,
    {
        Config {
            icap_server_addr: String::from_str("127.0.0.1:1344"),
            listen_addr: String::from_str("0.0.0.0:8080"),
            fallback_mode: false,
        }
    }
}

} // verus!
