//! Client configuration: file paths loaded once at startup.

use vstd::prelude::*;

verus! {

/// Where the client keeps its log, its persisted state, and its key file.
pub struct SpiderTuiConfig {
    pub log_path: String,
    pub state_data_path: String,
    pub keyfile_path: String,
}

/// The log file used when the configuration names none.
pub fn default_log_path() -> (r: String)
    ensures
        r@ == "spider_tui.log"@,
{
    "spider_tui.log".to_owned()
}

/// The persisted-state file used when the configuration names none.
pub fn default_state_data_path() -> (r: String)
    ensures
        r@ == "client_state.dat"@,
{
    "client_state.dat".to_owned()
}

/// The key file used when the configuration names none.
pub fn keyfile_path() -> (r: String)
    ensures
        r@ == "spider_keyfile.json"@,
{
    "spider_keyfile.json".to_owned()
}

impl Default for SpiderTuiConfig {
    /// The configuration with every path at its default.
    fn default() -> (r: SpiderTuiConfig)
        ensures
            r.log_path@ == "spider_tui.log"@,
            r.state_data_path@ == "client_state.dat"@,
            r.keyfile_path@ == "spider_keyfile.json"@,
    {
        SpiderTuiConfig {
            log_path: default_log_path(),
            state_data_path: default_state_data_path(),
            keyfile_path: keyfile_path(),
        }
    }
}

} // verus!
