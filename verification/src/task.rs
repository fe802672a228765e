//! The plain request shapes of the inference endpoints. The responses carry
//! floating-point inference timings and belong, with the pipelines that
//! produce them, to the unverified service layer.

use vstd::prelude::*;

verus! {

/// A request against an instruct-tuned text model.
#[derive(Debug)]
pub struct InstructRequest {
    pub model: String,
    pub input: String,
    pub max_length: usize,
}

/// A request to transcribe an audio recording.
#[derive(Debug)]
pub struct TranscribeRequest {
    pub model: String,
    pub language: String,
}

} // verus!
