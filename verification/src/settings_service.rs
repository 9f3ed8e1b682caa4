//! Reading and replacing the application settings.
use vstd::prelude::*;
use crate::profile::{AppSettings, ProfileStore};

verus! {

/// The settings service.
pub struct SettingsService {}

impl SettingsService {
    pub fn new() -> (s: Self) {
        SettingsService {  }
    }

    /// The current settings.
    pub fn get(&self, store: &ProfileStore) -> (s: AppSettings)
        ensures
            s == store.settings,
    {
        store.load_settings()
    }

    /// Replace the settings; returns what was stored.
    pub fn set(&self, store: &mut ProfileStore, settings: AppSettings) -> (s: AppSettings)
        ensures
            s == settings,
            final(store).settings == settings,
            final(store).profiles@ == old(store).profiles@,
            final(store).active_id == old(store).active_id,
    {
        store.save_settings(settings);
        settings
    }
}

} // verus!
