//! The marker of the plugin that installs the overriding provider.

use vstd::prelude::*;

verus! {

/// Names the plugin that replaces the application's asset backend by the
/// overriding provider. It carries no settings.
#[derive(Clone, Copy, Debug, PartialEq, Eq, Structural)]
pub struct InlineAssetsPlugin;

impl Default for InlineAssetsPlugin {
    fn default() -> (r: Self)
        ensures
            r == InlineAssetsPlugin,
    {
        InlineAssetsPlugin
    }
}

} // verus!
