//! What a project's configuration file holds.

use vstd::prelude::*;

verus! {

/// ConfigFile describes the structure of a `shelly.toml` config.
///
/// Each module should use a separate config with proper types.
/// See eg. `lint::Config`.
#[derive(Debug, Default)]
pub struct ConfigFile {
    /// Lint levels overrides: the name of a lint and the name of its level
    pub levels: Option<Vec<(String, String)>>,
    /// Custom commandlets that are assumed to exist (in addition to the
    /// builtin ones)
    pub extras: Option<ConfigFileExtras>,
}

#[derive(Debug, Default)]
pub struct ConfigFileExtras {
    pub cmdlets: Option<Vec<String>>,
}

} // verus!
