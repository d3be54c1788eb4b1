//! The options of `gclient`.
use vstd::prelude::*;

verus! {

/// The subcommands of `gclient`.
#[derive(Debug, Clone, Copy, PartialEq, Eq)]
pub enum GclientCommand {
    /// Grep through git repos managed by gclient.
    Grep,
    /// Outputs the solution root (or current dir if there isn't one).
    Root,
    /// Create a .gclient file in the current directory.
    Config,
    /// Generate a patch which can be applied at the root of the tree.
    Pack,
    /// Show modification status for every dependencies.
    Status,
    /// Checkout/update all modules.
    Sync,
    /// Validate the .gclient and DEPS syntax.
    Validate,
    /// Displays local diff for every dependencies.
    Diff,
    /// Revert all modifications in every dependencies.
    Revert,
    /// Runs hooks for files that have been modified in the local working copy.
    Runhooks,
    /// Installs gclient git hooks.
    Installhooks,
    /// Outputs revision info mapping for the client and its dependencies.
    Revinfo,
    /// Get config values from the .gclient file.
    Getconfig,
    /// Get revision information and variable values from a DEPS file.
    Getdep,
    /// Modifies dependency revisions and variable values in a DEPS file.
    Setdep,
    /// Verifies the DEPS file deps are only from allowed_hosts.
    Verify,
    /// Report, and optionally modifies, the status of metric collection.
    Metrics,
}

/// The options of `gclient`.
#[derive(Debug)]
pub struct Gclient {
    /// How many SCM commands can run in parallel.
    pub jobs: usize,
    /// Produces additional output for diagnostics.
    pub verbose: bool,
    pub command: GclientCommand,
}

} // verus!
