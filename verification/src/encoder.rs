//! Stream-level rule of encoding: the header written before the frames.
use vstd::prelude::*;
use crate::format::{HodgeFileHeader, VERSION, VERSION_V3};
use crate::hodge_math::FRAME_SIZE;

verus! {

/// Number of frames that `samples` mono samples fill, the last one padded
/// with silence.
pub open spec fn frames_for(samples: nat) -> nat {
    ((samples + FRAME_SIZE - 1) / (FRAME_SIZE as int)) as nat
}

/// The header written before `mono_samples` mono samples at `sample_rate`:
/// version 3 when the frames are quantized (`compress`), else version 1; one
/// channel; frames of `FRAME_SIZE` samples, as many as the samples fill.
pub fn encode_header(mono_samples: usize, sample_rate: u32, compress: bool, author: Option<String>) -> (h:
    HodgeFileHeader)
    ensures
        h.version == if compress {
            VERSION_V3
        } else {
            VERSION
        },
        h.sample_rate == sample_rate,
        h.channels == 1,
        h.frame_size == FRAME_SIZE,
        h.total_frames == frames_for(mono_samples as nat),
        h.author == author,
{
    let whole = mono_samples / FRAME_SIZE;
    let frames: usize = if mono_samples % FRAME_SIZE == 0 {
        whole
    } else {
        whole + 1
    };
    assert(frames == frames_for(mono_samples as nat));
    HodgeFileHeader {
        version: if compress {
            VERSION_V3
        } else {
            VERSION
        },
        sample_rate,
        channels: 1,
        frame_size: FRAME_SIZE as u32,
        total_frames: frames as u64,
        author,
    }
}

} // verus!
