//! The command line of the tool, as plain values. Paths are strings.

use vstd::prelude::*;

verus! {

/// The parsed command line.
pub struct Cli {
    pub command: Commands,
}

/// What the tool is asked to do.
pub enum Commands {
    /// Run a command and watch its output.
    Run {
        config: String,
        no_pty: bool,
        quiet: bool,
        command: Option<String>,
        cwd: Option<String>,
    },
    /// List the current user's processes.
    Ps,
    /// Watch the output of a running process.
    Attach { config: String, pid: i32, log_file: Option<String> },
}

} // verus!
