//! Errors of the supervisor and of the system calls it makes.
use vstd::prelude::*;

verus! {

/// An error, tagged by kind.
#[derive(Clone, Copy, Debug, PartialEq, Eq, Structural)]
pub enum Error {
    /// Bad input: an empty argument vector, a malformed or repeated fd key.
    Spec,
    /// A system call failed with this error code.
    Os(i32),
    /// A descriptor was closed before any byte of a value arrived.
    Eof,
    /// A transfer moved fewer bytes than were asked for.
    IoShort,
    /// A NUL byte in an argument or environment string, or `=` in a name.
    BadArgument,
    /// A system call returned a value outside its documented range.
    Fatal,
}

} // verus!
