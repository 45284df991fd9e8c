//! Sound playback and output volume.
use vstd::prelude::*;

verus! {

/// Plays the start and end sounds and ducks the output volume during a
/// dictation; it keeps no state of its own.
pub struct AudioManager {}

impl AudioManager {
    pub fn new() -> (m: Self)
        ensures
            m == (AudioManager {}),
    {
        AudioManager {}
    }
}

} // verus!
