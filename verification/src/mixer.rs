//! Header arithmetic for blending two `.hodge` streams frame by frame.
use vstd::prelude::*;
use crate::format::{HodgeFileHeader, VERSION};

verus! {

/// Outcome of a mix: frames written and their sample rate.
pub struct MixStats {
    pub total_frames: u64,
    pub sample_rate: u32,
}

/// Why two streams cannot be mixed.
#[derive(Debug, Clone, Copy, PartialEq, Eq, Structural)]
pub enum MixError {
    /// Frame sizes differ: (first, second).
    FrameSizeMismatch(u32, u32),
    /// Sample rates differ: (first, second).
    SampleRateMismatch(u32, u32),
}

/// The header of the mix of streams `a` and `b`: refused when their frame
/// sizes or (then) sample rates differ; otherwise a version-1 mono stream with
/// `a`'s rate and frame size, as many frames as the shorter stream, and `a`'s
/// author, else `b`'s.
pub fn mix_header(a: &HodgeFileHeader, b: &HodgeFileHeader) -> (res: Result<HodgeFileHeader, MixError>)
    ensures
        a.frame_size != b.frame_size ==> res == Err::<HodgeFileHeader, MixError>(
            MixError::FrameSizeMismatch(a.frame_size, b.frame_size),
        ),
        a.frame_size == b.frame_size && a.sample_rate != b.sample_rate ==> res == Err::<
            HodgeFileHeader,
            MixError,
        >(MixError::SampleRateMismatch(a.sample_rate, b.sample_rate)),
        a.frame_size == b.frame_size && a.sample_rate == b.sample_rate ==> (res matches Ok(h) && {
            &&& h.version == VERSION
            &&& h.sample_rate == a.sample_rate
            &&& h.channels == 1
            &&& h.frame_size == a.frame_size
            &&& h.total_frames == if a.total_frames <= b.total_frames {
                a.total_frames
            } else {
                b.total_frames
            }
            &&& h@.author == if a@.author is Some {
                a@.author
            } else {
                b@.author
            }
        }),
{
    if a.frame_size != b.frame_size {
        return Err(MixError::FrameSizeMismatch(a.frame_size, b.frame_size));
    }
    if a.sample_rate != b.sample_rate {
        return Err(MixError::SampleRateMismatch(a.sample_rate, b.sample_rate));
    }
    let total_frames = if a.total_frames <= b.total_frames {
        a.total_frames
    } else {
        b.total_frames
    };
    let author = match &a.author {
        Some(s) => Some(s.clone()),
        None => match &b.author {
            Some(s) => Some(s.clone()),
            None => None,
        },
    };
    Ok(
        HodgeFileHeader {
            version: VERSION,
            sample_rate: a.sample_rate,
            channels: 1,
            frame_size: a.frame_size,
            total_frames,
            author,
        },
    )
}

} // verus!
