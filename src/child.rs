//! Decisions of a forked child between fork and exec.
use vstd::prelude::*;
use vstd::utf8::encode_utf8;

use crate::fdio::write_str;
use crate::frame::{frame, ByteOrder};

verus! {

/// What a child does once its managers' setup has run.
#[derive(PartialEq, Eq, Structural)]
pub enum ChildAction {
    /// Replace the process image.
    Exec,
    /// Exit with the OS-error code, without exec.
    Exit,
}

/// Given the messages of the managers' failed setups, the frames to write on
/// the error channel, one per failure in order, and whether to exec: only
/// where no setup failed.
pub fn after_child_setup(failures: &Vec<String>, order: ByteOrder) -> (r: (Vec<Vec<u8>>, ChildAction))
    ensures
        r.0@.len() == failures@.len(),
        forall|i: int|
            0 <= i < failures@.len() ==> (#[trigger] r.0@[i])@ == frame(encode_utf8(failures@[i]@), order),
        r.1 == ChildAction::Exec <==> failures@.len() == 0,
        r.1 == ChildAction::Exec || r.1 == ChildAction::Exit,
{
    let mut frames: Vec<Vec<u8>> = Vec::new();
    let mut i: usize = 0;
    while i < failures.len()
        invariant
            i <= failures@.len(),
            frames@.len() == i,
            forall|j: int|
                0 <= j < i ==> (#[trigger] frames@[j])@ == frame(encode_utf8(failures@[j]@), order),
        decreases failures@.len() - i,
    {
        frames.push(write_str(failures[i].as_str(), order));
        i = i + 1;
    }
    let action = if failures.len() == 0 {
        ChildAction::Exec
    } else {
        ChildAction::Exit
    };
    (frames, action)
}

/// After a failed exec: the frames to write on the error channel, the exec
/// failure's message first, then one per manager whose child-side teardown
/// failed. The child then exits with the OS-error code.
pub fn after_exec_failure(exec_msg: &str, cleanup_failures: &Vec<String>, order: ByteOrder) -> (r: Vec<Vec<u8>>)
    ensures
        r@.len() == cleanup_failures@.len() + 1,
        r@[0]@ == frame(encode_utf8(exec_msg@), order),
        forall|i: int|
            0 <= i < cleanup_failures@.len() ==> (#[trigger] r@[i + 1])@ == frame(
                encode_utf8(cleanup_failures@[i]@),
                order,
            ),
{
    let mut frames: Vec<Vec<u8>> = Vec::new();
    frames.push(write_str(exec_msg, order));
    let mut i: usize = 0;
    while i < cleanup_failures.len()
        invariant
            i <= cleanup_failures@.len(),
            frames@.len() == i + 1,
            frames@[0]@ == frame(encode_utf8(exec_msg@), order),
            forall|j: int|
                0 <= j < i ==> (#[trigger] frames@[j + 1])@ == frame(
                    encode_utf8(cleanup_failures@[j]@),
                    order,
                ),
        decreases cleanup_failures@.len() - i,
    {
        frames.push(write_str(cleanup_failures[i].as_str(), order));
        i = i + 1;
    }
    frames
}

} // verus!
