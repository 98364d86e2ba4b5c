//! The settings of the sync tool itself.

use vstd::prelude::*;

verus! {

/// The tool's settings, kept between runs.
#[derive(Debug, Clone, PartialEq, Eq)]
pub struct AppConfig {
    pub auto_sync_enabled: bool,
    pub auto_sync_minutes: u64,
    pub sync_on_launch: bool,
    pub login_item_enabled: bool,
    pub default_from: String,
    pub default_to: String,
    /// The keys the user has approved for syncing; empty means nothing is synced.
    pub selected_keys: Vec<String>,
    pub advanced_mode: bool,
}

impl Default for AppConfig {
    /// No automatic sync (every 30 minutes once turned on), no sync at launch, no
    /// login item, no profiles chosen, no keys approved, the basic mode.
    fn default() -> (r: Self)
        ensures
            !r.auto_sync_enabled,
            r.auto_sync_minutes == 30,
            !r.sync_on_launch,
            !r.login_item_enabled,
            r.default_from@.len() == 0,
            r.default_to@.len() == 0,
            r.selected_keys@.len() == 0,
            !r.advanced_mode,
    {
        AppConfig {
            auto_sync_enabled: false,
            auto_sync_minutes: 30,
            sync_on_launch: false,
            login_item_enabled: false,
            default_from: String::new(),
            default_to: String::new(),
            selected_keys: Vec::new(),
            advanced_mode: false,
        }
    }
}

} // verus!
