//! Values exchanged with a transcription backend.
use vstd::prelude::*;

verus! {

/// Sample rate and channel count of the raw audio handed to a transcriber.
#[derive(Clone, Copy)]
pub struct AudioFormat {
    pub sample_rate: u32,
    pub channels: u16,
}

/// One piece of text produced by a transcriber; `is_final` marks the result that
/// replaces every earlier partial one.
pub struct TranscriptionResult {
    pub text: String,
    pub is_final: bool,
}

} // verus!
