//! What running an external tool can report back to the library: the
//! processes themselves are spawned by a caller.

use vstd::prelude::*;

verus! {

/// How running a command for its output failed.
#[derive(Debug)]
pub enum ExitError {
    /// The process could not be run or its streams not read.
    Io,
    /// The process exited with a non-zero code; carries the code and
    /// what it wrote to standard error.
    Status { code: i64, stderr: Vec<u8> },
}

} // verus!
