//! How the linker ends.

use vstd::prelude::*;

verus! {

/// Exit status of the linker.
#[derive(Clone, Copy, Debug, PartialEq, Eq, Structural)]
pub enum Exit {
    Success,
    Error,
}

impl Exit {
    /// The status that says that something went wrong.
    pub fn error() -> (e: Exit)
        ensures
            e == Exit::Error,
    {
        Exit::Error
    }

    /// The exit code of the process for this status: 0 on success, 1 on any error.
    pub fn code(self) -> (c: i32)
        ensures
            c == match self {
                Exit::Success => 0i32,
                Exit::Error => 1i32,
            },
    {
        match self {
            Exit::Success => 0,
            Exit::Error => 1,
        }
    }
}

} // verus!
