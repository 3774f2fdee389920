//! The command line, as plain values.

use vstd::prelude::*;

verus! {

/// The command line: the subcommand to run.
#[derive(Debug)]
pub struct Args {
    pub action: Action,
}

/// A subcommand.
#[derive(Debug)]
pub enum Action {
    /// Install plugins defined in tmux config
    Install(InstallArgs),
    /// Update installed plugins that are defined in tmux config
    Update(UpdateArgs),
    /// Load plugins defined in tmux config
    Load,
    /// Clean plugins not listed in tmux config
    Clean,
    /// Run `install`, `clean` and `update --all` in one go
    Sync,
    /// Initialize and load plugins
    Init,
}

/// The options of `install`.
#[derive(Debug)]
pub struct InstallArgs {
    /// Load plugins after install
    pub load: bool,
}

/// The options of `update`.
#[derive(Debug)]
pub struct UpdateArgs {
    /// Update all
    pub all: bool,
    /// Load plugins after update
    pub load: bool,
    /// List of plugins to update
    pub names: Vec<String>,
}

} // verus!
