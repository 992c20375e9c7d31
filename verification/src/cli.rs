//! The options of the command line.

use vstd::prelude::*;

verus! {

/// The options of the program.
#[derive(Debug)]
pub struct Args {
    /// Run as a web server; off unless asked for.
    pub launch_server: bool,
}

/// What the program does once its options are read.
#[derive(Debug, Clone, Copy, PartialEq, Eq, Structural)]
pub enum Mode {
    /// Run one simulation on the configuration file and end.
    SingleRun,
    /// Serve the endpoint that starts runs.
    Server,
}

impl Args {
    /// What the options ask for.
    pub fn mode(&self) -> (mode: Mode)
        ensures
            mode == if self.launch_server {
                Mode::Server
            } else {
                Mode::SingleRun
            },
    {
        if self.launch_server {
            Mode::Server
        } else {
            Mode::SingleRun
        }
    }
}

} // verus!
