//! The configuration that keys the external schedule fetch.

use vstd::prelude::*;
use vstd::string::StringExecFns;

verus! {

/// Location and calculation parameters for the schedule fetch
/// collaborator. The core never interprets these; it only hands them
/// on when a refresh is requested.
#[derive(Debug)]
pub struct Config {
    pub city: String,
    pub country: String,
    pub method: u8,
    pub madhab: u8,
}

impl Default for Config {
    /// The documented defaults, written out on first run when no
    /// configuration file exists yet.
    fn default() -> (r: Config)
        ensures
            r.city@ == "Seattle"@,
            r.country@ == "US"@,
            r.method == 2,
            r.madhab == 1,
    {
        Config {
            city: String::from_str("Seattle"),
            country: String::from_str("US"),
            method: 2,
            madhab: 1,
        }
    }
}

} // verus!
