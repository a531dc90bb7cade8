use vstd::prelude::*;

verus! {

/// Operations on a single plugin.
#[derive(PartialEq, Eq, Structural, Debug, Clone, Copy)]
pub enum PluginCommand {
    /// Build the plugin's component.
    Build,
    /// Build, deploy under `plugins/` and serve the single plugin.
    Serve,
}

/// Arguments of the `plugin` command.
pub struct PluginArgs {
    pub command: PluginCommand,
    /// The plugin directory.
    pub path: String,
}

/// Operations on a whole stack.
#[derive(PartialEq, Eq, Structural, Debug, Clone, Copy)]
pub enum StackCommand {
    /// Build every plugin of the stack and deploy it under `plugins/`.
    Build,
    /// Build the stack, then serve it.
    Serve,
}

/// Arguments of the `stack` command.
pub struct StackArgs {
    pub command: StackCommand,
    /// The directory holding `wassel.toml`.
    pub manifest_path: String,
}

} // verus!
