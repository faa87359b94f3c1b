//! The read-only state snapshot shared by every concurrently handled
//! request; no field is mutated after construction, so no locking exists.

use std::sync::Arc;
use vstd::prelude::*;

use crate::config::Settings;

verus! {

/// Shared handle to the immutable settings.
#[derive(Clone, Debug)]
pub struct AppState {
    pub settings: Arc<Settings>,
}

impl AppState {
    pub fn new(settings: Settings) -> (r: AppState)
        ensures
            r.settings == settings,
    {
        AppState { settings: Arc::new(settings) }
    }
}

} // verus!
