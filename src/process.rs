//! One process as seen at enumeration time.
use vstd::prelude::*;

verus! {

/// A running process: its pid, its short command name, and what could be learned of its
/// executable image and argument vector.
#[derive(Debug, Clone, PartialEq, Eq)]
pub struct Process {
    pub pid: usize,
    /// The short name of the running binary; the match key.
    pub cmd: String,
    /// The resolved path of the executable image, when it could be read.
    pub full_cmd_path: Option<String>,
    /// The arguments after the command itself, when they could be read.
    pub args: Option<Vec<String>>,
}

} // verus!
