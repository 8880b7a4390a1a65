//! The commands of the `rootftp` program.

use vstd::prelude::*;

verus! {

/// A command line: one command.
#[derive(Debug)]
pub struct Cli {
    pub command: Commands,
}

/// The commands.
#[derive(Debug)]
pub enum Commands {
    /// Start the service, in the background with `daemon`.
    Start { daemon: bool },
    /// Stop the service.
    Stop,
    /// Set the root directory.
    Setdir { _path: String },
    /// Show the configuration and the plugins.
    Status,
    /// Install a plugin library from a local file.
    Loadplugin { _path: String },
    /// Fetch the index of the plugin library.
    Fetch,
    /// Install a plugin from the plugin library.
    Install { plugin_name: String },
    /// List the plugins of the plugin library.
    List,
}

} // verus!
