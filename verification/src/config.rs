//! Defaults of the application settings that a settings file may leave out.

use vstd::prelude::*;

verus! {

/// How many lines the log panel keeps when the settings do not say: 1000.
pub fn default_max_log_lines() -> (r: usize)
    ensures
        r == 1000,
{
    1000
}

/// The default of the panel-visibility settings: shown.
pub fn default_true() -> (r: bool)
    ensures
        r,
{
    true
}

} // verus!
