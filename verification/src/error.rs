use vstd::prelude::*;

use nix::errno::Errno;

verus! {

/// The error code that `nix` reports for a failed system call.
#[verifier::external_type_specification]
#[verifier::external_body]
pub struct ExErrno(Errno);

/// What can go wrong while starting or stopping the profiler.
#[derive(Debug)]
pub enum Error {
    /// A system call (installing or removing the signal handler) failed.
    NixError(Errno),
    /// The process-wide profiler could not be created.
    CreatingError,
    /// The profiler was asked to start while it was running.
    Running,
    /// The profiler was asked to stop while it was not running.
    NotRunning,
}

} // verus!
