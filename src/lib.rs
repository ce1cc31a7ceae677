//! Building blocks of a process supervisor: the framed error channel, the
//! interpretation of system call results, the readiness registry, the checks
//! made before a fork and the launch-and-supervise state machine.

pub mod child;
pub mod environ;
pub mod err;
pub mod fdio;
pub mod frame;
pub mod selector;
pub mod spec;
pub mod supervisor;
pub mod sys;
