//! Keeping the table in step with the configuration file.

use vstd::prelude::*;
use crate::fault::Fault;
use crate::keymap::{bound, Keybind, Keymap};

verus! {

/// What the watch on the configuration file tells of.
#[derive(Debug, Clone, Copy, PartialEq, Eq, Structural)]
pub enum WatchEvent {
    /// The file's content changed.
    Modified,
    /// Something else happened to the file.
    Other,
    /// The watch itself failed.
    Failed,
}

/// What the watcher hands to the monitor.
#[derive(Debug)]
pub enum Payload {
    /// The file's whole content.
    Bytes(Vec<u8>),
    /// The file could not be read.
    Failed,
}

/// What to do about what came from the watcher.
#[derive(Debug, Clone, Copy, PartialEq, Eq, Structural)]
pub enum MonitorStep {
    /// Read the content as a configuration.
    Parse,
    /// Nothing is to be done.
    Ignore,
    /// The task cannot go on.
    Fail(Fault),
}

/// The task that keeps the table in step with the configuration file.
#[derive(Debug)]
pub struct ConfigMonitor {}

impl ConfigMonitor {
    /// Whether the file is read again after `event`: only after a change of
    /// its content.
    pub fn reads_after(event: WatchEvent) -> (reads: bool)
        ensures
            reads == (event is Modified),
    {
        match event {
            WatchEvent::Modified => true,
            _ => false,
        }
    }

    /// Decides what to do about `received`: a payload, or nothing where the
    /// watcher is gone. An empty content is what a reader sees while the file
    /// is being written, and is no configuration.
    pub fn on_payload(received: &Option<Payload>) -> (step: MonitorStep)
        ensures
            step == match *received {
                Some(Payload::Bytes(bytes)) => if bytes@.len() == 0 {
                    MonitorStep::Ignore
                } else {
                    MonitorStep::Parse
                },
                Some(Payload::Failed) => MonitorStep::Fail(Fault::WatchFailed),
                None => MonitorStep::Fail(Fault::ChannelClosed),
            },
    {
        match received {
            Some(Payload::Bytes(bytes)) => {
                if bytes.len() == 0 {
                    MonitorStep::Ignore
                } else {
                    MonitorStep::Parse
                }
            },
            Some(Payload::Failed) => MonitorStep::Fail(Fault::WatchFailed),
            None => MonitorStep::Fail(Fault::ChannelClosed),
        }
    }

    /// The table to put in the place of the old one: the one that `parsed`
    /// binds. Where the content was no configuration there are no records,
    /// and no table.
    pub fn reload(parsed: Option<Vec<Keybind>>) -> (table: Result<Keymap, Fault>)
        ensures
            match parsed {
                Some(keybinds) => table matches Ok(map) && map@ == bound(keybinds@),
                None => table matches Err(fault) && fault == Fault::BadConfig,
            },
    {
        match parsed {
            Some(keybinds) => Ok(Keymap::from_keybinds(keybinds)),
            None => Err(Fault::BadConfig),
        }
    }

    /// Puts the table that `parsed` binds in the place of `table`. Where the
    /// content was no configuration there are no records, and `table` stays as
    /// it is.
    pub fn install(table: &mut Keymap, parsed: Option<Vec<Keybind>>) -> (fault: Option<Fault>)
        ensures
            match parsed {
                Some(keybinds) => final(table)@ == bound(keybinds@) && fault is None,
                None => final(table)@ == old(table)@ && fault == Some(Fault::BadConfig),
            },
    {
        match ConfigMonitor::reload(parsed) {
            Ok(map) => {
                *table = map;
                None
            },
            Err(fault) => Some(fault),
        }
    }
}

} // verus!
