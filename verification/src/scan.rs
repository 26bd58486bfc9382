//! What one scan is asked to do.
use vstd::prelude::*;
use crate::config_loader::UserConfig;

verus! {

/// The options of a scan: a quick scan skips the recently-modified-files
/// pass; the user configuration, if any, overrides built-in settings.
#[derive(Clone, Debug)]
pub struct ScanOptions {
    pub quick: bool,
    pub user_config: Option<UserConfig>,
}

} // verus!
