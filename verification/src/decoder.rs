//! Results of decoding a `.hodge` stream.
use vstd::prelude::*;

verus! {

/// Outcome of a decode: frames read, samples written, their sample rate.
pub struct DecodeStats {
    pub total_frames: u64,
    pub total_samples: u64,
    pub sample_rate: u32,
}

} // verus!
