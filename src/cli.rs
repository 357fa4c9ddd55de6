//! The command line of the machine's runner, as plain values.
use vstd::prelude::*;

verus! {

/// The parsed command line.
pub struct CLI {
    pub command: Commands,
}

/// The runner's subcommands.
pub enum Commands {
    /// Run a program and report the accumulator at its end; with `trace`,
    /// also after every instruction.
    Run { file: String, trace: bool },
}

} // verus!
