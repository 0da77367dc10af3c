//! Framing of a PCM stream for overlap-add analysis: windows of
//! `RT_FRAME_SIZE` samples every `HOP` samples.
use vstd::prelude::*;

verus! {

/// Samples per real-time frame (5.8 ms at 44.1 kHz).
pub const RT_FRAME_SIZE: usize = 256;

/// Lanes decomposed together.
pub const SIMD_LANES: usize = 4;

/// Distance between consecutive windows: 50% overlap.
pub const HOP: usize = 128;

/// Window `k` of a stream of `n` samples: it starts at `k * HOP` and ends
/// `RT_FRAME_SIZE` later or at the end of the stream.
pub open spec fn ola_window(n: nat, k: nat) -> (nat, nat) {
    let start = k * 128;
    (start, if start + 256 <= n { start + 256 } else { n })
}

/// Number of windows of a stream of `n` samples: one per hop that starts
/// inside the stream.
pub open spec fn ola_window_count(n: nat) -> nat {
    (n + 127) / 128
}

/// Start and end of every analysis window of a stream of `n` samples, in
/// order; the samples past `end` are zero padding.
pub fn ola_windows(n: usize) -> (w: Vec<(usize, usize)>)
    ensures
        w@.len() == ola_window_count(n as nat),
        forall|k: int|
            0 <= k < w@.len() ==> (#[trigger] w@[k]).0 == ola_window(n as nat, k as nat).0 && w@[k].1
                == ola_window(n as nat, k as nat).1,
{
    let mut w: Vec<(usize, usize)> = Vec::new();
    let count: usize = n / HOP + if n % HOP == 0 {
        0
    } else {
        1
    };
    assert(count == ola_window_count(n as nat));
    let mut k: usize = 0;
    while k < count
        invariant
            count == ola_window_count(n as nat),
            k <= count,
            w@.len() == k,
            forall|j: int|
                0 <= j < w@.len() ==> (#[trigger] w@[j]).0 == ola_window(n as nat, j as nat).0 && w@[j].1
                    == ola_window(n as nat, j as nat).1,
        decreases count - k,
    {
        assert(k * 128 < n) by (nonlinear_arith)
            requires
                k < count,
                count == (n + 127) / 128,
        ;
        let start = k * HOP;
        let end = if n - start >= RT_FRAME_SIZE {
            start + RT_FRAME_SIZE
        } else {
            n
        };
        w.push((start, end));
        k = k + 1;
    }
    w
}

} // verus!
