//! Runtime errors.
use vstd::prelude::*;

verus! {

/// A runtime error.
#[derive(Debug)]
pub enum Error {
    /// The scheduler reported a failure; the value is its error code
    /// (`errno`) at that moment.
    System(i32),
    /// A failure found by this library itself, with a message.
    Custom(String),
}

/// The error that the scheduler's error code `errno` stands for.
pub fn from_errno(errno: i32) -> (r: Error)
    ensures
        r == Error::System(errno),
{
    Error::System(errno)
}

} // verus!
