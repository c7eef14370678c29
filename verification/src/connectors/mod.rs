//! Connectors: what each source reports, turned into events.

use vstd::prelude::*;

use crate::event::{EventModel, Source, StateEvent};

pub mod answer_laws;
pub mod comfyui;
pub mod comfyui_laws;
pub mod dsh;
pub mod dsh_laws;
pub mod hermes;
pub mod hermes_laws;
pub mod lua;
pub mod lua_laws;

verus! {

/// The event to report when the health of a source changes.
pub fn health_flip(source: Source, was: bool, healthy: bool) -> (r: Option<StateEvent>)
    ensures
        match r {
            Some(e) => was != healthy && e@ == (EventModel::SourceHealth { source, healthy }),
            None => was == healthy,
        },
{
    if was != healthy {
        Some(StateEvent::SourceHealth { source, healthy })
    } else {
        None
    }
}

/// Length of one slice of an interruptible sleep.
pub const SLEEP_SLICE_MS: u64 = 50;

/// The next slice of a sleep of which `left` milliseconds are left: nothing
/// once the sleeper was told to stop or has slept enough.
pub fn next_slice(left: u64, stopped: bool) -> (r: Option<u64>)
    ensures
        r == if stopped || left == 0 {
            None
        } else if left < SLEEP_SLICE_MS {
            Some(left)
        } else {
            Some(SLEEP_SLICE_MS)
        },
{
    if stopped || left == 0 {
        None
    } else if left < SLEEP_SLICE_MS {
        Some(left)
    } else {
        Some(SLEEP_SLICE_MS)
    }
}

} // verus!
