//! The command line, as plain values.

use vstd::prelude::*;

verus! {

/// The whole command line.
pub struct Args {
    pub command: Command,
    pub verbose: bool,
}

/// The subcommands.
pub enum Command {
    Run(RunCommand),
}

/// What one run asks for: exactly one of `app` and `runtime`, extra install
/// roots, and the command to start inside the sandbox.
pub struct RunCommand {
    pub app: Option<String>,
    pub runtime: Option<String>,
    pub flatpak_install_path: Vec<String>,
    pub apparmor_unconfined: bool,
    pub command: String,
    pub args: Vec<String>,
}

} // verus!
