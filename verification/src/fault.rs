//! What can go wrong while the daemon runs, and which of it ends the daemon.

use vstd::prelude::*;

verus! {

/// Something that went wrong in one of the daemon's tasks.
#[derive(Debug, Clone, Copy, PartialEq, Eq, Structural)]
pub enum Fault {
    /// A configuration that could not be read as one.
    BadConfig,
    /// A command that could not be started.
    SpawnFailed,
    /// A channel between two tasks whose other end is gone.
    ChannelClosed,
    /// The watch on the configuration file could not be set up.
    WatchUnavailable,
    /// The watch on the configuration file stopped telling of changes.
    WatchFailed,
}

impl Fault {
    /// Whether the fault ends the daemon. A task gets over a bad
    /// configuration and over a command that does not start; nothing else.
    pub open spec fn fatal(self) -> bool {
        !(self is BadConfig || self is SpawnFailed)
    }

    /// Whether the fault ends the daemon.
    pub fn is_fatal(&self) -> (fatal: bool)
        ensures
            fatal == self.fatal(),
    {
        match self {
            Fault::BadConfig => false,
            Fault::SpawnFailed => false,
            Fault::ChannelClosed => true,
            Fault::WatchUnavailable => true,
            Fault::WatchFailed => true,
        }
    }
}

} // verus!
