//! Readiness signalling between a daemon and the process that started it.
//!
//! The starter hands the daemon the number of a pipe descriptor and waits
//! for one byte on the pipe: zero says that the daemon is ready, anything
//! else is the code with which it failed. Reading and writing the pipe is
//! left to the caller; what is written and how what was read is understood
//! is decided here.

use vstd::prelude::*;

verus! {

/// The byte that says "ready".
pub const READY: u8 = 0;

/// A daemon that has yet to tell its starter that it is ready.
#[must_use]
pub struct Daemon {
    descriptor: i32,
}

/// What the starter got when it read the pipe.
#[derive(Clone, Copy, Debug, PartialEq, Eq, Structural)]
pub enum Notification {
    /// One byte arrived.
    Byte(u8),
    /// The pipe was closed before a byte arrived.
    EndOfFile,
    /// The read failed otherwise.
    Failed,
}

/// What became of a daemon that was started.
#[derive(Clone, Copy, Debug, PartialEq, Eq, Structural)]
pub enum SpawnStatus {
    /// It told that it is ready.
    Ready,
    /// It told that it failed, with this code.
    FailedWith(u8),
    /// It exited without telling anything.
    ExitedSilently,
    /// Waiting for it failed.
    WaitFailed,
}

/// How a notification is understood.
pub open spec fn status_of(notification: Notification) -> SpawnStatus {
    match notification {
        Notification::Byte(code) => if code == READY {
            SpawnStatus::Ready
        } else {
            SpawnStatus::FailedWith(code)
        },
        Notification::EndOfFile => SpawnStatus::ExitedSilently,
        Notification::Failed => SpawnStatus::WaitFailed,
    }
}

/// What became of a daemon, given what its starter read from the pipe.
pub fn spawn_status(notification: Notification) -> (status: SpawnStatus)
    ensures
        status == status_of(notification),
{
    match notification {
        Notification::Byte(code) => {
            if code == READY {
                SpawnStatus::Ready
            } else {
                SpawnStatus::FailedWith(code)
            }
        },
        Notification::EndOfFile => SpawnStatus::ExitedSilently,
        Notification::Failed => SpawnStatus::WaitFailed,
    }
}

impl Daemon {
    /// The descriptor number of the pipe to the starter.
    pub closed spec fn descriptor_spec(self) -> i32 {
        self.descriptor
    }

    /// A daemon whose pipe to its starter has the number `descriptor`.
    pub fn from_descriptor(descriptor: i32) -> (daemon: Daemon)
        ensures
            daemon.descriptor_spec() == descriptor,
    {
        Daemon { descriptor }
    }

    /// The descriptor number of the pipe to the starter.
    pub fn descriptor(&self) -> (descriptor: i32)
        ensures
            descriptor == self.descriptor_spec(),
    {
        self.descriptor
    }

    /// Uses the daemon up and gives the byte that it has to write to its
    /// pipe to say that it is ready.
    pub fn ready(self) -> (signal: u8)
        ensures
            signal == READY,
            status_of(Notification::Byte(signal)) == SpawnStatus::Ready,
    {
        READY
    }
}

} // verus!
