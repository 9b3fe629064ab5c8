//! The command line of `swiss`, as the commands receive it.
use vstd::prelude::*;

verus! {

/// The parsed command line.
#[derive(Debug)]
pub struct Cli {
    pub command: Command,
    /// Turn debugging information on.
    pub verbose: bool,
}

/// The manifest a command works on and the profiles overlaid on it.
#[derive(Debug)]
pub struct ManifestArgs {
    /// Path to the bootstrap manifest (YAML).
    pub manifest: String,
    /// Profile(s) to overlay on top of the manifest, in order.
    pub profiles: Vec<String>,
}

/// The `swiss` subcommands.
#[derive(Debug)]
pub enum Command {
    /// Shell startup hook: prints the live init script for a shell.
    Init { shell: Option<String> },
    /// Show the execution plan for a manifest without changing anything.
    Plan { manifest: ManifestArgs },
    /// Bootstrap only: execute the manifest plan (no shell registration).
    Apply { manifest: ManifestArgs, yes: bool, dry_run: bool, force_files: bool },
    /// Full setup: apply, register the manifest and hook the shell init.
    Setup {
        manifest: ManifestArgs,
        template: Option<String>,
        shell: Option<String>,
        yes: bool,
        dry_run: bool,
        force_files: bool,
    },
    /// Re-apply the registered manifest.
    Update { manifest: Option<String>, profiles: Vec<String>, yes: bool, dry_run: bool },
    /// Show cached dependency state and the registered manifest.
    Status {},
    /// Diagnose the installation and, optionally, a manifest.
    Doctor { manifest: Option<String>, profiles: Vec<String> },
    /// Delete the Swiss cache so the next apply re-runs everything.
    CleanCache {},
}

} // verus!
