//! From a chord to the command that it is bound to.

use vstd::prelude::*;
use crate::fault::Fault;
use crate::key::Key;
use crate::keymap::Keymap;

verus! {

/// What to do about what came from the sampler.
#[derive(Debug)]
pub enum FilterStep {
    /// Hand this command on to the runner.
    Forward(String),
    /// The chord is bound to nothing: do nothing.
    Skip,
    /// The task cannot go on.
    Fail(Fault),
}

/// The command that `key` is bound to in `table`.
pub fn resolve(table: &Keymap, key: Key) -> (script: Option<String>)
    ensures
        match script {
            Some(found) => table@.contains_key(key) && found@ == table@[key],
            None => !table@.contains_key(key),
        },
{
    match table.get(&key) {
        Some(found) => Some(found.clone()),
        None => None,
    }
}

/// Decides what to do about `received`: a chord, or nothing where the sampler
/// is gone.
pub fn on_key(table: &Keymap, received: Option<Key>) -> (step: FilterStep)
    ensures
        match received {
            Some(key) if table@.contains_key(key) => step matches FilterStep::Forward(script)
                && script@ == table@[key],
            Some(_) => step is Skip,
            None => step == FilterStep::Fail(Fault::ChannelClosed),
        },
{
    match received {
        Some(key) => match resolve(table, key) {
            Some(script) => FilterStep::Forward(script),
            None => FilterStep::Skip,
        },
        None => FilterStep::Fail(Fault::ChannelClosed),
    }
}

} // verus!
