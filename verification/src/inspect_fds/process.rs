//! A process as `ps` reports it.

use vstd::prelude::*;

verus! {

/// A process: its id, the id of its parent, and its command line.
#[derive(Debug, Clone, PartialEq)]
pub struct Process {
    pub pid: usize,
    pub ppid: usize,
    pub command: String,
}

impl Process {
    /// The process with the given ids and command line.
    pub fn new(pid: usize, ppid: usize, command: String) -> (process: Process)
        ensures
            process.pid == pid,
            process.ppid == ppid,
            process.command == command,
    {
        Process { pid, ppid, command }
    }
}

} // verus!
