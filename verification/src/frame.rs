//! Byte layouts of `.hodge` frames, with every `f32` carried as its bit
//! pattern (`u32`).
//!
//! v1: `gradient[N] f32`, `solenoidal[N] f32`, `harmonic f32`, `xi f32`, `sc u8`.
//! v2: type byte `0x01` silent (harmonic, xi, sc); `0x02` block floating
//!     point with i8 samples and DPCM (`g_max`, `s_max`, DPCM gradient bytes,
//!     DPCM solenoidal bytes, harmonic, xi, sc); `0x03` full f32.
//! v3: type byte `0x11` silent; `0x12` i16 gradient and i8 solenoidal
//!     (`g_max`, `i16[N]` LE, `s_max`, `i8[N]`, harmonic, xi, sc); `0x13` full f32.
use vstd::prelude::*;
use crate::format::{
    ByteReader,
    FormatError,
    consumed_on_error,
    le_u16,
    le_u32,
    from_le_u16,
    from_le_u32,
    lemma_le_u16_roundtrip,
    lemma_le_u32_roundtrip,
    push_le_u16,
    push_le_u32,
};
use crate::hodge_math::ScClass;

verus! {

/// Class for a stored class byte: 1 and 3 name SC1 and SC3, any other byte SC2.
pub open spec fn sc_of_byte(b: u8) -> ScClass {
    if b == 1 {
        ScClass::SC1
    } else if b == 3 {
        ScClass::SC3
    } else {
        ScClass::SC2
    }
}

pub fn sc_from_byte(b: u8) -> (sc: ScClass)
    ensures
        sc == sc_of_byte(b),
{
    match b {
        1 => ScClass::SC1,
        3 => ScClass::SC3,
        _ => ScClass::SC2,
    }
}

/// Reading back the byte of a class gives the class.
pub proof fn law_sc_byte_roundtrip(sc: ScClass)
    ensures
        sc_of_byte(sc.code()) == sc,
{
}

// ── sequences of samples as bytes ────────────────────────────────

/// Little-endian bytes of each value in turn.
pub open spec fn le_u32s(v: Seq<u32>) -> Seq<u8>
    decreases v.len(),
{
    if v.len() == 0 {
        Seq::empty()
    } else {
        le_u32s(v.drop_last()) + le_u32(v.last())
    }
}

/// Little-endian bytes of each `i16` in turn (two's complement).
pub open spec fn le_i16s(v: Seq<i16>) -> Seq<u8>
    decreases v.len(),
{
    if v.len() == 0 {
        Seq::empty()
    } else {
        le_i16s(v.drop_last()) + le_u16(v.last() as u16)
    }
}

/// Each `i8` as its two's-complement byte.
pub open spec fn i8_bytes(v: Seq<i8>) -> Seq<u8> {
    Seq::new(v.len(), |i: int| v[i] as u8)
}

/// DPCM bytes: the first value, then each wrapping difference to the previous one.
pub open spec fn dpcm_bytes(v: Seq<i8>) -> Seq<u8> {
    Seq::new(
        v.len(),
        |i: int|
            if i == 0 {
                v[0] as u8
            } else {
                v[i].wrapping_sub(v[i - 1]) as u8
            },
    )
}

/// Value `i` of a DPCM stream: the wrapping running sum of its bytes.
pub open spec fn dpcm_value(b: Seq<u8>, i: nat) -> i8
    decreases i,
{
    if i == 0 {
        b[0] as i8
    } else {
        dpcm_value(b, (i - 1) as nat).wrapping_add(b[i as int] as i8)
    }
}

/// `n` little-endian `u32` values starting at byte `off` of `s`.
pub open spec fn u32s_at(s: Seq<u8>, off: int, n: nat) -> Seq<u32> {
    Seq::new(n, |i: int| from_le_u32(s.subrange(off + 4 * i, off + 4 * i + 4)))
}

/// `n` little-endian `i16` values starting at byte `off` of `s`.
pub open spec fn i16s_at(s: Seq<u8>, off: int, n: nat) -> Seq<i16> {
    Seq::new(n, |i: int| from_le_u16(s.subrange(off + 2 * i, off + 2 * i + 2)) as i16)
}

/// `n` `i8` values starting at byte `off` of `s`.
pub open spec fn i8s_at(s: Seq<u8>, off: int, n: nat) -> Seq<i8> {
    Seq::new(n, |i: int| s[off + i] as i8)
}

/// `n` values DPCM-decoded from the bytes starting at `off` of `s`.
pub open spec fn dpcm_at(s: Seq<u8>, off: int, n: nat) -> Seq<i8> {
    Seq::new(n, |i: int| dpcm_value(s.subrange(off, off + n), i as nat))
}

proof fn lemma_le_u32s(v: Seq<u32>)
    ensures
        le_u32s(v).len() == 4 * v.len(),
        forall|i: int|
            0 <= i < v.len() ==> #[trigger] le_u32s(v).subrange(4 * i, 4 * i + 4) == le_u32(v[i]),
    decreases v.len(),
{
    if v.len() > 0 {
        let w = v.drop_last();
        lemma_le_u32s(w);
        assert forall|i: int| 0 <= i < v.len() implies #[trigger] le_u32s(v).subrange(
            4 * i,
            4 * i + 4,
        ) == le_u32(v[i]) by {
            if i < w.len() {
                assert(le_u32s(v).subrange(4 * i, 4 * i + 4) =~= le_u32s(w).subrange(4 * i, 4 * i + 4));
            } else {
                assert(le_u32s(v).subrange(4 * i, 4 * i + 4) =~= le_u32(v.last()));
            }
        }
    }
}

proof fn lemma_le_i16s(v: Seq<i16>)
    ensures
        le_i16s(v).len() == 2 * v.len(),
        forall|i: int|
            0 <= i < v.len() ==> #[trigger] le_i16s(v).subrange(2 * i, 2 * i + 2) == le_u16(
                v[i] as u16,
            ),
    decreases v.len(),
{
    if v.len() > 0 {
        let w = v.drop_last();
        lemma_le_i16s(w);
        assert forall|i: int| 0 <= i < v.len() implies #[trigger] le_i16s(v).subrange(
            2 * i,
            2 * i + 2,
        ) == le_u16(v[i] as u16) by {
            if i < w.len() {
                assert(le_i16s(v).subrange(2 * i, 2 * i + 2) =~= le_i16s(w).subrange(2 * i, 2 * i + 2));
            } else {
                assert(le_i16s(v).subrange(2 * i, 2 * i + 2) =~= le_u16(v.last() as u16));
            }
        }
    }
}

/// Values written as little-endian `u32`s at `off` are read back.
proof fn lemma_u32s_roundtrip(s: Seq<u8>, off: int, v: Seq<u32>)
    requires
        0 <= off,
        off + 4 * v.len() <= s.len(),
        s.subrange(off, off + 4 * v.len()) == le_u32s(v),
    ensures
        u32s_at(s, off, v.len()) == v,
{
    lemma_le_u32s(v);
    assert forall|i: int| 0 <= i < v.len() implies #[trigger] u32s_at(s, off, v.len())[i] == v[i] by {
        assert(s.subrange(off + 4 * i, off + 4 * i + 4) =~= le_u32s(v).subrange(4 * i, 4 * i + 4));
        lemma_le_u32_roundtrip(v[i]);
    }
    assert(u32s_at(s, off, v.len()) =~= v);
}

/// Values written as little-endian `i16`s at `off` are read back.
proof fn lemma_i16s_roundtrip(s: Seq<u8>, off: int, v: Seq<i16>)
    requires
        0 <= off,
        off + 2 * v.len() <= s.len(),
        s.subrange(off, off + 2 * v.len()) == le_i16s(v),
    ensures
        i16s_at(s, off, v.len()) == v,
{
    lemma_le_i16s(v);
    assert forall|i: int| 0 <= i < v.len() implies #[trigger] i16s_at(s, off, v.len())[i] == v[i] by {
        assert(s.subrange(off + 2 * i, off + 2 * i + 2) =~= le_i16s(v).subrange(2 * i, 2 * i + 2));
        let x = v[i];
        lemma_le_u16_roundtrip(x as u16);
        assert(((x as u16) as i16) == x) by (bit_vector);
    }
    assert(i16s_at(s, off, v.len()) =~= v);
}

/// Values written as `i8` bytes at `off` are read back.
proof fn lemma_i8s_roundtrip(s: Seq<u8>, off: int, v: Seq<i8>)
    requires
        0 <= off,
        off + v.len() <= s.len(),
        s.subrange(off, off + v.len()) == i8_bytes(v),
    ensures
        i8s_at(s, off, v.len()) == v,
{
    assert forall|i: int| 0 <= i < v.len() implies #[trigger] i8s_at(s, off, v.len())[i] == v[i] by {
        assert(s[off + i] == s.subrange(off, off + v.len())[i]);
        let x = v[i];
        assert(((x as u8) as i8) == x) by (bit_vector);
    }
    assert(i8s_at(s, off, v.len()) =~= v);
}

/// DPCM decoding undoes DPCM encoding.
pub proof fn lemma_dpcm_roundtrip(v: Seq<i8>, i: nat)
    requires
        i < v.len(),
    ensures
        dpcm_value(dpcm_bytes(v), i) == v[i as int],
    decreases i,
{
    let x = v[i as int];
    assert(((x as u8) as i8) == x) by (bit_vector);
    if i > 0 {
        lemma_dpcm_roundtrip(v, (i - 1) as nat);
        let p = v[i - 1];
        let d = x.wrapping_sub(p);
        assert(((d as u8) as i8) == d) by (bit_vector);
    }
}

/// Values written as DPCM bytes at `off` are read back.
proof fn lemma_dpcm_at_roundtrip(s: Seq<u8>, off: int, v: Seq<i8>)
    requires
        0 <= off,
        off + v.len() <= s.len(),
        s.subrange(off, off + v.len()) == dpcm_bytes(v),
    ensures
        dpcm_at(s, off, v.len()) == v,
{
    assert forall|i: int| 0 <= i < v.len() implies #[trigger] dpcm_at(s, off, v.len())[i] == v[i] by {
        lemma_dpcm_roundtrip(v, i as nat);
    }
    assert(dpcm_at(s, off, v.len()) =~= v);
}

// ── writers ──────────────────────────────────────────────────────

fn push_u32s(w: &mut Vec<u8>, v: &Vec<u32>)
    ensures
        final(w)@ == old(w)@ + le_u32s(v@),
{
    let mut i: usize = 0;
    while i < v.len()
        invariant
            i <= v@.len(),
            w@ == old(w)@ + le_u32s(v@.take(i as int)),
        decreases v.len() - i,
    {
        push_le_u32(w, v[i]);
        assert(v@.take(i + 1).drop_last() =~= v@.take(i as int));
        assert(w@ =~= old(w)@ + le_u32s(v@.take(i + 1)));
        i = i + 1;
    }
    assert(v@.take(v.len() as int) =~= v@);
}

fn push_i16s(w: &mut Vec<u8>, v: &Vec<i16>)
    ensures
        final(w)@ == old(w)@ + le_i16s(v@),
{
    let mut i: usize = 0;
    while i < v.len()
        invariant
            i <= v@.len(),
            w@ == old(w)@ + le_i16s(v@.take(i as int)),
        decreases v.len() - i,
    {
        push_le_u16(w, v[i] as u16);
        assert(v@.take(i + 1).drop_last() =~= v@.take(i as int));
        assert(w@ =~= old(w)@ + le_i16s(v@.take(i + 1)));
        i = i + 1;
    }
    assert(v@.take(v.len() as int) =~= v@);
}

fn push_i8s(w: &mut Vec<u8>, v: &Vec<i8>)
    ensures
        final(w)@ == old(w)@ + i8_bytes(v@),
{
    let mut i: usize = 0;
    while i < v.len()
        invariant
            i <= v@.len(),
            w@ == old(w)@ + i8_bytes(v@.take(i as int)),
        decreases v.len() - i,
    {
        w.push(v[i] as u8);
        assert(w@ =~= old(w)@ + i8_bytes(v@.take(i + 1)));
        i = i + 1;
    }
    assert(v@.take(v.len() as int) =~= v@);
}

fn push_dpcm(w: &mut Vec<u8>, v: &Vec<i8>)
    ensures
        final(w)@ == old(w)@ + dpcm_bytes(v@),
{
    if v.len() == 0 {
        assert(dpcm_bytes(v@) =~= Seq::<u8>::empty());
        assert(w@ =~= old(w)@ + dpcm_bytes(v@));
        return ;
    }
    w.push(v[0] as u8);
    let mut i: usize = 1;
    while i < v.len()
        invariant
            1 <= i <= v@.len(),
            w@ == old(w)@ + dpcm_bytes(v@).take(i as int),
        decreases v.len() - i,
    {
        w.push(v[i].wrapping_sub(v[i - 1]) as u8);
        assert(w@ =~= old(w)@ + dpcm_bytes(v@).take(i + 1));
        i = i + 1;
    }
    assert(dpcm_bytes(v@).take(v.len() as int) =~= dpcm_bytes(v@));
}

/// The trailing `harmonic`, `xi` and class byte of every frame.
pub open spec fn frame_tail(harmonic: u32, xi: u32, sc: ScClass) -> Seq<u8> {
    le_u32(harmonic) + le_u32(xi) + seq![sc.code()]
}

fn push_tail(w: &mut Vec<u8>, harmonic: u32, xi: u32, sc: ScClass)
    ensures
        final(w)@ == old(w)@ + frame_tail(harmonic, xi, sc),
{
    push_le_u32(w, harmonic);
    push_le_u32(w, xi);
    w.push(sc.to_byte());
    assert(w@ =~= old(w)@ + frame_tail(harmonic, xi, sc));
}

// ── readers ──────────────────────────────────────────────────────

fn read_u32s(r: &ByteReader, off: usize, n: usize) -> (v: Vec<u32>)
    requires
        r.wf(),
        off + 4 * n <= r.rest().len(),
    ensures
        v@ == u32s_at(r.rest(), off as int, n as nat),
{
    proof {
        r.lemma_rest_fits();
    }
    let mut v: Vec<u32> = Vec::with_capacity(n);
    let mut i: usize = 0;
    while i < n
        invariant
            r.wf(),
            r.rest().len() <= usize::MAX,
            i <= n,
            off + 4 * n <= r.rest().len(),
            v@ == u32s_at(r.rest(), off as int, i as nat),
        decreases n - i,
    {
        let x = r.peek_u32(off + 4 * i);
        v.push(x);
        assert(v@ =~= u32s_at(r.rest(), off as int, (i + 1) as nat));
        i = i + 1;
    }
    v
}

fn read_i16s(r: &ByteReader, off: usize, n: usize) -> (v: Vec<i16>)
    requires
        r.wf(),
        off + 2 * n <= r.rest().len(),
    ensures
        v@ == i16s_at(r.rest(), off as int, n as nat),
{
    proof {
        r.lemma_rest_fits();
    }
    let mut v: Vec<i16> = Vec::with_capacity(n);
    let mut i: usize = 0;
    while i < n
        invariant
            r.wf(),
            r.rest().len() <= usize::MAX,
            i <= n,
            off + 2 * n <= r.rest().len(),
            v@ == i16s_at(r.rest(), off as int, i as nat),
        decreases n - i,
    {
        let x = r.peek_u16(off + 2 * i) as i16;
        v.push(x);
        assert(v@ =~= i16s_at(r.rest(), off as int, (i + 1) as nat));
        i = i + 1;
    }
    v
}

fn read_i8s(r: &ByteReader, off: usize, n: usize) -> (v: Vec<i8>)
    requires
        r.wf(),
        off + n <= r.rest().len(),
    ensures
        v@ == i8s_at(r.rest(), off as int, n as nat),
{
    proof {
        r.lemma_rest_fits();
    }
    let mut v: Vec<i8> = Vec::with_capacity(n);
    let mut i: usize = 0;
    while i < n
        invariant
            r.wf(),
            r.rest().len() <= usize::MAX,
            i <= n,
            off + n <= r.rest().len(),
            v@ == i8s_at(r.rest(), off as int, i as nat),
        decreases n - i,
    {
        let x = r.peek(off + i) as i8;
        v.push(x);
        assert(v@ =~= i8s_at(r.rest(), off as int, (i + 1) as nat));
        i = i + 1;
    }
    v
}

fn read_dpcm(r: &ByteReader, off: usize, n: usize) -> (v: Vec<i8>)
    requires
        r.wf(),
        off + n <= r.rest().len(),
    ensures
        v@ == dpcm_at(r.rest(), off as int, n as nat),
{
    proof {
        r.lemma_rest_fits();
    }
    let ghost b = r.rest().subrange(off as int, off + n);
    let mut v: Vec<i8> = Vec::with_capacity(n);
    if n == 0 {
        assert(v@ =~= dpcm_at(r.rest(), off as int, n as nat));
        return v;
    }
    let mut prev: i8 = r.peek(off) as i8;
    v.push(prev);
    let mut i: usize = 1;
    while i < n
        invariant
            r.wf(),
            r.rest().len() <= usize::MAX,
            1 <= i <= n,
            off + n <= r.rest().len(),
            b == r.rest().subrange(off as int, off + n),
            v@ =~= Seq::new(i as nat, |k: int| dpcm_value(b, k as nat)),
            prev == dpcm_value(b, (i - 1) as nat),
        decreases n - i,
    {
        let x = r.peek(off + i);
        assert(x == b[i as int]);
        prev = prev.wrapping_add(x as i8);
        v.push(prev);
        i = i + 1;
    }
    v
}

// ── frame values ─────────────────────────────────────────────────

/// A v1 frame: every component at full precision, floats as bit patterns.
#[derive(Debug, Clone)]
pub struct FrameBits {
    pub gradient: Vec<u32>,
    pub solenoidal: Vec<u32>,
    pub harmonic: u32,
    pub xi: u32,
    pub sc_class: ScClass,
}

pub struct FrameBitsView {
    pub gradient: Seq<u32>,
    pub solenoidal: Seq<u32>,
    pub harmonic: u32,
    pub xi: u32,
    pub sc_class: ScClass,
}

impl View for FrameBits {
    type V = FrameBitsView;

    open spec fn view(&self) -> FrameBitsView {
        FrameBitsView {
            gradient: self.gradient@,
            solenoidal: self.solenoidal@,
            harmonic: self.harmonic,
            xi: self.xi,
            sc_class: self.sc_class,
        }
    }
}

/// Samples of a v2 frame.
#[allow(inconsistent_fields)]
pub enum BodyV2 {
    /// No samples stored: all zero.
    Silent,
    /// Block floating point: i8 samples scaled by `g_max`/`s_max`, stored as DPCM.
    Dpcm { g_max: u32, s_max: u32, gradient: Vec<i8>, solenoidal: Vec<i8> },
    /// Full-precision samples.
    Full { gradient: Vec<u32>, solenoidal: Vec<u32> },
}

#[allow(inconsistent_fields)]
pub enum BodyV2View {
    Silent,
    Dpcm { g_max: u32, s_max: u32, gradient: Seq<i8>, solenoidal: Seq<i8> },
    Full { gradient: Seq<u32>, solenoidal: Seq<u32> },
}

pub struct FrameV2 {
    pub body: BodyV2,
    pub harmonic: u32,
    pub xi: u32,
    pub sc_class: ScClass,
}

pub struct FrameV2View {
    pub body: BodyV2View,
    pub harmonic: u32,
    pub xi: u32,
    pub sc_class: ScClass,
}

impl View for FrameV2 {
    type V = FrameV2View;

    open spec fn view(&self) -> FrameV2View {
        FrameV2View {
            body: match self.body {
                BodyV2::Silent => BodyV2View::Silent,
                BodyV2::Dpcm { g_max, s_max, gradient, solenoidal } => BodyV2View::Dpcm {
                    g_max,
                    s_max,
                    gradient: gradient@,
                    solenoidal: solenoidal@,
                },
                BodyV2::Full { gradient, solenoidal } => BodyV2View::Full {
                    gradient: gradient@,
                    solenoidal: solenoidal@,
                },
            },
            harmonic: self.harmonic,
            xi: self.xi,
            sc_class: self.sc_class,
        }
    }
}

/// Samples of a v3 frame.
#[allow(inconsistent_fields)]
pub enum BodyV3 {
    /// No samples stored: all zero.
    Silent,
    /// Gradient as i16 scaled by `g_max`, solenoidal as i8 scaled by `s_max`.
    Block { g_max: u32, gradient: Vec<i16>, s_max: u32, solenoidal: Vec<i8> },
    /// Full-precision samples.
    Full { gradient: Vec<u32>, solenoidal: Vec<u32> },
}

#[allow(inconsistent_fields)]
pub enum BodyV3View {
    Silent,
    Block { g_max: u32, gradient: Seq<i16>, s_max: u32, solenoidal: Seq<i8> },
    Full { gradient: Seq<u32>, solenoidal: Seq<u32> },
}

pub struct FrameV3 {
    pub body: BodyV3,
    pub harmonic: u32,
    pub xi: u32,
    pub sc_class: ScClass,
}

pub struct FrameV3View {
    pub body: BodyV3View,
    pub harmonic: u32,
    pub xi: u32,
    pub sc_class: ScClass,
}

impl View for FrameV3 {
    type V = FrameV3View;

    open spec fn view(&self) -> FrameV3View {
        FrameV3View {
            body: match self.body {
                BodyV3::Silent => BodyV3View::Silent,
                BodyV3::Block { g_max, gradient, s_max, solenoidal } => BodyV3View::Block {
                    g_max,
                    gradient: gradient@,
                    s_max,
                    solenoidal: solenoidal@,
                },
                BodyV3::Full { gradient, solenoidal } => BodyV3View::Full {
                    gradient: gradient@,
                    solenoidal: solenoidal@,
                },
            },
            harmonic: self.harmonic,
            xi: self.xi,
            sc_class: self.sc_class,
        }
    }
}

// ── layouts ──────────────────────────────────────────────────────

pub open spec fn frame_v1_bytes(f: FrameBitsView) -> Seq<u8> {
    le_u32s(f.gradient) + le_u32s(f.solenoidal) + frame_tail(f.harmonic, f.xi, f.sc_class)
}

pub open spec fn frame_v2_bytes(f: FrameV2View) -> Seq<u8> {
    match f.body {
        BodyV2View::Silent => seq![0x01u8] + frame_tail(f.harmonic, f.xi, f.sc_class),
        BodyV2View::Dpcm { g_max, s_max, gradient, solenoidal } => seq![0x02u8] + le_u32(g_max)
            + le_u32(s_max) + dpcm_bytes(gradient) + dpcm_bytes(solenoidal) + frame_tail(
            f.harmonic,
            f.xi,
            f.sc_class,
        ),
        BodyV2View::Full { gradient, solenoidal } => seq![0x03u8] + le_u32s(gradient) + le_u32s(
            solenoidal,
        ) + frame_tail(f.harmonic, f.xi, f.sc_class),
    }
}

pub open spec fn frame_v3_bytes(f: FrameV3View) -> Seq<u8> {
    match f.body {
        BodyV3View::Silent => seq![0x11u8] + frame_tail(f.harmonic, f.xi, f.sc_class),
        BodyV3View::Block { g_max, gradient, s_max, solenoidal } => seq![0x12u8] + le_u32(g_max)
            + le_i16s(gradient) + le_u32(s_max) + i8_bytes(solenoidal) + frame_tail(
            f.harmonic,
            f.xi,
            f.sc_class,
        ),
        BodyV3View::Full { gradient, solenoidal } => seq![0x13u8] + le_u32s(gradient) + le_u32s(
            solenoidal,
        ) + frame_tail(f.harmonic, f.xi, f.sc_class),
    }
}

/// The `u32` at byte `off` of `s`.
pub open spec fn u32_at(s: Seq<u8>, off: int) -> u32 {
    from_le_u32(s.subrange(off, off + 4))
}

/// The v1 frame of `n` samples per component at the start of `s`, and its size.
pub open spec fn parse_frame_v1(s: Seq<u8>, n: nat) -> Result<(FrameBitsView, nat), FormatError> {
    let k = n as int;
    if s.len() < 8 * k + 9 {
        Err(FormatError::UnexpectedEof)
    } else {
        Ok(
            (
                FrameBitsView {
                    gradient: u32s_at(s, 0, n),
                    solenoidal: u32s_at(s, 4 * k, n),
                    harmonic: u32_at(s, 8 * k),
                    xi: u32_at(s, 8 * k + 4),
                    sc_class: sc_of_byte(s[8 * k + 8]),
                },
                (8 * k + 9) as nat,
            ),
        )
    }
}

/// The v2 frame of `n` samples per component at the start of `s`, and its size.
pub open spec fn parse_frame_v2(s: Seq<u8>, n: nat) -> Result<(FrameV2View, nat), FormatError> {
    let k = n as int;
    if s.len() < 1 {
        Err(FormatError::UnexpectedEof)
    } else if s[0] == 0x01 {
        if s.len() < 10 {
            Err(FormatError::UnexpectedEof)
        } else {
            Ok(
                (
                    FrameV2View {
                        body: BodyV2View::Silent,
                        harmonic: u32_at(s, 1),
                        xi: u32_at(s, 5),
                        sc_class: sc_of_byte(s[9]),
                    },
                    10,
                ),
            )
        }
    } else if s[0] == 0x02 {
        if s.len() < 2 * k + 18 {
            Err(FormatError::UnexpectedEof)
        } else {
            Ok(
                (
                    FrameV2View {
                        body: BodyV2View::Dpcm {
                            g_max: u32_at(s, 1),
                            s_max: u32_at(s, 5),
                            gradient: dpcm_at(s, 9, n),
                            solenoidal: dpcm_at(s, 9 + k, n),
                        },
                        harmonic: u32_at(s, 9 + 2 * k),
                        xi: u32_at(s, 13 + 2 * k),
                        sc_class: sc_of_byte(s[17 + 2 * k]),
                    },
                    (2 * k + 18) as nat,
                ),
            )
        }
    } else if s[0] == 0x03 {
        if s.len() < 8 * k + 10 {
            Err(FormatError::UnexpectedEof)
        } else {
            Ok(
                (
                    FrameV2View {
                        body: BodyV2View::Full {
                            gradient: u32s_at(s, 1, n),
                            solenoidal: u32s_at(s, 1 + 4 * k, n),
                        },
                        harmonic: u32_at(s, 1 + 8 * k),
                        xi: u32_at(s, 5 + 8 * k),
                        sc_class: sc_of_byte(s[9 + 8 * k]),
                    },
                    (8 * k + 10) as nat,
                ),
            )
        }
    } else {
        Err(FormatError::UnknownFrameType(s[0]))
    }
}

/// The v3 frame of `n` samples per component at the start of `s`, and its size.
pub open spec fn parse_frame_v3(s: Seq<u8>, n: nat) -> Result<(FrameV3View, nat), FormatError> {
    let k = n as int;
    if s.len() < 1 {
        Err(FormatError::UnexpectedEof)
    } else if s[0] == 0x11 {
        if s.len() < 10 {
            Err(FormatError::UnexpectedEof)
        } else {
            Ok(
                (
                    FrameV3View {
                        body: BodyV3View::Silent,
                        harmonic: u32_at(s, 1),
                        xi: u32_at(s, 5),
                        sc_class: sc_of_byte(s[9]),
                    },
                    10,
                ),
            )
        }
    } else if s[0] == 0x12 {
        if s.len() < 3 * k + 18 {
            Err(FormatError::UnexpectedEof)
        } else {
            Ok(
                (
                    FrameV3View {
                        body: BodyV3View::Block {
                            g_max: u32_at(s, 1),
                            gradient: i16s_at(s, 5, n),
                            s_max: u32_at(s, 5 + 2 * k),
                            solenoidal: i8s_at(s, 9 + 2 * k, n),
                        },
                        harmonic: u32_at(s, 9 + 3 * k),
                        xi: u32_at(s, 13 + 3 * k),
                        sc_class: sc_of_byte(s[17 + 3 * k]),
                    },
                    (3 * k + 18) as nat,
                ),
            )
        }
    } else if s[0] == 0x13 {
        if s.len() < 8 * k + 10 {
            Err(FormatError::UnexpectedEof)
        } else {
            Ok(
                (
                    FrameV3View {
                        body: BodyV3View::Full {
                            gradient: u32s_at(s, 1, n),
                            solenoidal: u32s_at(s, 1 + 4 * k, n),
                        },
                        harmonic: u32_at(s, 1 + 8 * k),
                        xi: u32_at(s, 5 + 8 * k),
                        sc_class: sc_of_byte(s[9 + 8 * k]),
                    },
                    (8 * k + 10) as nat,
                ),
            )
        }
    } else {
        Err(FormatError::UnknownFrameType(s[0]))
    }
}

// ── exec readers and writers ─────────────────────────────────────

/// `per * n + fixed`, or `None` when it does not fit in `usize`.
fn frame_len(n: usize, per: usize, fixed: usize) -> (r: Option<usize>)
    ensures
        r matches Some(x) ==> x == per * n + fixed,
        r is None ==> per * n + fixed > usize::MAX,
{
    match n.checked_mul(per) {
        Some(m) => m.checked_add(fixed),
        None => None,
    }
}

/// Appends the v1 bytes of `f`.
pub fn write_frame(w: &mut Vec<u8>, f: &FrameBits)
    ensures
        final(w)@ == old(w)@ + frame_v1_bytes(f@),
{
    push_u32s(w, &f.gradient);
    push_u32s(w, &f.solenoidal);
    push_tail(w, f.harmonic, f.xi, f.sc_class);
    assert(w@ =~= old(w)@ + frame_v1_bytes(f@));
}

/// Appends the v2 bytes of `f`.
pub fn write_frame_v2(w: &mut Vec<u8>, f: &FrameV2)
    ensures
        final(w)@ == old(w)@ + frame_v2_bytes(f@),
{
    match &f.body {
        BodyV2::Silent => {
            w.push(0x01);
        },
        BodyV2::Dpcm { g_max, s_max, gradient, solenoidal } => {
            w.push(0x02);
            push_le_u32(w, *g_max);
            push_le_u32(w, *s_max);
            push_dpcm(w, gradient);
            push_dpcm(w, solenoidal);
        },
        BodyV2::Full { gradient, solenoidal } => {
            w.push(0x03);
            push_u32s(w, gradient);
            push_u32s(w, solenoidal);
        },
    }
    push_tail(w, f.harmonic, f.xi, f.sc_class);
    assert(w@ =~= old(w)@ + frame_v2_bytes(f@));
}

/// Appends the v3 bytes of `f`.
pub fn write_frame_v3(w: &mut Vec<u8>, f: &FrameV3)
    ensures
        final(w)@ == old(w)@ + frame_v3_bytes(f@),
{
    match &f.body {
        BodyV3::Silent => {
            w.push(0x11);
        },
        BodyV3::Block { g_max, gradient, s_max, solenoidal } => {
            w.push(0x12);
            push_le_u32(w, *g_max);
            push_i16s(w, gradient);
            push_le_u32(w, *s_max);
            push_i8s(w, solenoidal);
        },
        BodyV3::Full { gradient, solenoidal } => {
            w.push(0x13);
            push_u32s(w, gradient);
            push_u32s(w, solenoidal);
        },
    }
    push_tail(w, f.harmonic, f.xi, f.sc_class);
    assert(w@ =~= old(w)@ + frame_v3_bytes(f@));
}

/// Reads a v1 frame of `frame_size` samples per component. On success the
/// reader has moved past it; on failure it has moved as far as
/// `consumed_on_error` says.
pub fn read_frame(r: &mut ByteReader, frame_size: usize) -> (res: Result<FrameBits, FormatError>)
    requires
        old(r).wf(),
    ensures
        final(r).wf(),
        final(r).data() == old(r).data(),
        match parse_frame_v1(old(r).rest(), frame_size as nat) {
            Ok((f, k)) => res matches Ok(ff) && ff@ == f && final(r).pos() == old(r).pos() + k,
            Err(e) => res == Err::<FrameBits, FormatError>(e) && final(r).pos() == old(r).pos()
                + consumed_on_error(e, old(r).rest().len()),
        },
{
    proof {
        r.lemma_rest_fits();
    }
    let n = frame_size;
    let avail = r.remaining();
    let total = match frame_len(n, 8, 9) {
        Some(t) => t,
        None => {
            r.advance(avail);
            return Err(FormatError::UnexpectedEof);
        },
    };
    if avail < total {
        r.advance(avail);
        return Err(FormatError::UnexpectedEof);
    }
    let gradient = read_u32s(r, 0, n);
    let solenoidal = read_u32s(r, 4 * n, n);
    let harmonic = r.peek_u32(8 * n);
    let xi = r.peek_u32(8 * n + 4);
    let sc_class = sc_from_byte(r.peek(8 * n + 8));
    r.advance(total);
    Ok(FrameBits { gradient, solenoidal, harmonic, xi, sc_class })
}

/// Reads a v2 frame of `frame_size` samples per component. On success the
/// reader has moved past it; on failure it has moved as far as
/// `consumed_on_error` says.
pub fn read_frame_v2(r: &mut ByteReader, frame_size: usize) -> (res: Result<FrameV2, FormatError>)
    requires
        old(r).wf(),
    ensures
        final(r).wf(),
        final(r).data() == old(r).data(),
        match parse_frame_v2(old(r).rest(), frame_size as nat) {
            Ok((f, k)) => res matches Ok(ff) && ff@ == f && final(r).pos() == old(r).pos() + k,
            Err(e) => res == Err::<FrameV2, FormatError>(e) && final(r).pos() == old(r).pos()
                + consumed_on_error(e, old(r).rest().len()),
        },
{
    proof {
        r.lemma_rest_fits();
    }
    let n = frame_size;
    let avail = r.remaining();
    if avail < 1 {
        r.advance(avail);
        return Err(FormatError::UnexpectedEof);
    }
    let t = r.peek(0);
    if t == 0x01 {
        if avail < 10 {
            r.advance(avail);
            return Err(FormatError::UnexpectedEof);
        }
        let harmonic = r.peek_u32(1);
        let xi = r.peek_u32(5);
        let sc_class = sc_from_byte(r.peek(9));
        r.advance(10);
        Ok(FrameV2 { body: BodyV2::Silent, harmonic, xi, sc_class })
    } else if t == 0x02 {
        let total = match frame_len(n, 2, 18) {
            Some(x) => x,
            None => {
                r.advance(avail);
                return Err(FormatError::UnexpectedEof);
            },
        };
        if avail < total {
            r.advance(avail);
            return Err(FormatError::UnexpectedEof);
        }
        let g_max = r.peek_u32(1);
        let s_max = r.peek_u32(5);
        let gradient = read_dpcm(r, 9, n);
        let solenoidal = read_dpcm(r, 9 + n, n);
        let harmonic = r.peek_u32(9 + 2 * n);
        let xi = r.peek_u32(13 + 2 * n);
        let sc_class = sc_from_byte(r.peek(17 + 2 * n));
        r.advance(total);
        Ok(FrameV2 { body: BodyV2::Dpcm { g_max, s_max, gradient, solenoidal }, harmonic, xi, sc_class })
    } else if t == 0x03 {
        let total = match frame_len(n, 8, 10) {
            Some(x) => x,
            None => {
                r.advance(avail);
                return Err(FormatError::UnexpectedEof);
            },
        };
        if avail < total {
            r.advance(avail);
            return Err(FormatError::UnexpectedEof);
        }
        let gradient = read_u32s(r, 1, n);
        let solenoidal = read_u32s(r, 1 + 4 * n, n);
        let harmonic = r.peek_u32(1 + 8 * n);
        let xi = r.peek_u32(5 + 8 * n);
        let sc_class = sc_from_byte(r.peek(9 + 8 * n));
        r.advance(total);
        Ok(FrameV2 { body: BodyV2::Full { gradient, solenoidal }, harmonic, xi, sc_class })
    } else {
        r.advance(1);
        Err(FormatError::UnknownFrameType(t))
    }
}

/// Reads a v3 frame of `frame_size` samples per component. On success the
/// reader has moved past it; on failure it has moved as far as
/// `consumed_on_error` says.
pub fn read_frame_v3(r: &mut ByteReader, frame_size: usize) -> (res: Result<FrameV3, FormatError>)
    requires
        old(r).wf(),
    ensures
        final(r).wf(),
        final(r).data() == old(r).data(),
        match parse_frame_v3(old(r).rest(), frame_size as nat) {
            Ok((f, k)) => res matches Ok(ff) && ff@ == f && final(r).pos() == old(r).pos() + k,
            Err(e) => res == Err::<FrameV3, FormatError>(e) && final(r).pos() == old(r).pos()
                + consumed_on_error(e, old(r).rest().len()),
        },
{
    proof {
        r.lemma_rest_fits();
    }
    let n = frame_size;
    let avail = r.remaining();
    if avail < 1 {
        r.advance(avail);
        return Err(FormatError::UnexpectedEof);
    }
    let t = r.peek(0);
    if t == 0x11 {
        if avail < 10 {
            r.advance(avail);
            return Err(FormatError::UnexpectedEof);
        }
        let harmonic = r.peek_u32(1);
        let xi = r.peek_u32(5);
        let sc_class = sc_from_byte(r.peek(9));
        r.advance(10);
        Ok(FrameV3 { body: BodyV3::Silent, harmonic, xi, sc_class })
    } else if t == 0x12 {
        let total = match frame_len(n, 3, 18) {
            Some(x) => x,
            None => {
                r.advance(avail);
                return Err(FormatError::UnexpectedEof);
            },
        };
        if avail < total {
            r.advance(avail);
            return Err(FormatError::UnexpectedEof);
        }
        let g_max = r.peek_u32(1);
        let gradient = read_i16s(r, 5, n);
        let s_max = r.peek_u32(5 + 2 * n);
        let solenoidal = read_i8s(r, 9 + 2 * n, n);
        let harmonic = r.peek_u32(9 + 3 * n);
        let xi = r.peek_u32(13 + 3 * n);
        let sc_class = sc_from_byte(r.peek(17 + 3 * n));
        r.advance(total);
        Ok(FrameV3 { body: BodyV3::Block { g_max, gradient, s_max, solenoidal }, harmonic, xi, sc_class })
    } else if t == 0x13 {
        let total = match frame_len(n, 8, 10) {
            Some(x) => x,
            None => {
                r.advance(avail);
                return Err(FormatError::UnexpectedEof);
            },
        };
        if avail < total {
            r.advance(avail);
            return Err(FormatError::UnexpectedEof);
        }
        let gradient = read_u32s(r, 1, n);
        let solenoidal = read_u32s(r, 1 + 4 * n, n);
        let harmonic = r.peek_u32(1 + 8 * n);
        let xi = r.peek_u32(5 + 8 * n);
        let sc_class = sc_from_byte(r.peek(9 + 8 * n));
        r.advance(total);
        Ok(FrameV3 { body: BodyV3::Full { gradient, solenoidal }, harmonic, xi, sc_class })
    } else {
        r.advance(1);
        Err(FormatError::UnknownFrameType(t))
    }
}

/// Quantized samples of a frame for the v2 block layout.
pub struct QuantV2 {
    pub g_max: u32,
    pub s_max: u32,
    pub gradient: Vec<i8>,
    pub solenoidal: Vec<i8>,
}

/// Quantized samples of a frame for the v3 block layout.
pub struct QuantV3 {
    pub g_max: u32,
    pub gradient: Vec<i16>,
    pub s_max: u32,
    pub solenoidal: Vec<i8>,
}

/// The v2 frame stored for `f`: silent for SC1, the quantized block (`q`) for
/// SC2, full precision for SC3.
pub open spec fn v2_for_class(f: FrameBitsView, g_max: u32, s_max: u32, qg: Seq<i8>, qs: Seq<i8>) -> FrameV2View {
    FrameV2View {
        body: match f.sc_class {
            ScClass::SC1 => BodyV2View::Silent,
            ScClass::SC2 => BodyV2View::Dpcm { g_max, s_max, gradient: qg, solenoidal: qs },
            ScClass::SC3 => BodyV2View::Full { gradient: f.gradient, solenoidal: f.solenoidal },
        },
        harmonic: f.harmonic,
        xi: f.xi,
        sc_class: f.sc_class,
    }
}

/// The v3 frame stored for `f`: silent for SC1, the quantized block (`q`) for
/// SC2, full precision for SC3.
pub open spec fn v3_for_class(f: FrameBitsView, g_max: u32, qg: Seq<i16>, s_max: u32, qs: Seq<i8>) -> FrameV3View {
    FrameV3View {
        body: match f.sc_class {
            ScClass::SC1 => BodyV3View::Silent,
            ScClass::SC2 => BodyV3View::Block { g_max, gradient: qg, s_max, solenoidal: qs },
            ScClass::SC3 => BodyV3View::Full { gradient: f.gradient, solenoidal: f.solenoidal },
        },
        harmonic: f.harmonic,
        xi: f.xi,
        sc_class: f.sc_class,
    }
}

/// Chooses the v2 layout of a frame by its class.
pub fn frame_v2_for_class(f: FrameBits, q: QuantV2) -> (r: FrameV2)
    ensures
        r@ == v2_for_class(f@, q.g_max, q.s_max, q.gradient@, q.solenoidal@),
{
    let FrameBits { gradient, solenoidal, harmonic, xi, sc_class } = f;
    let body = match sc_class {
        ScClass::SC1 => BodyV2::Silent,
        ScClass::SC2 => BodyV2::Dpcm {
            g_max: q.g_max,
            s_max: q.s_max,
            gradient: q.gradient,
            solenoidal: q.solenoidal,
        },
        ScClass::SC3 => BodyV2::Full { gradient, solenoidal },
    };
    FrameV2 { body, harmonic, xi, sc_class }
}

/// Chooses the v3 layout of a frame by its class.
pub fn frame_v3_for_class(f: FrameBits, q: QuantV3) -> (r: FrameV3)
    ensures
        r@ == v3_for_class(f@, q.g_max, q.gradient@, q.s_max, q.solenoidal@),
{
    let FrameBits { gradient, solenoidal, harmonic, xi, sc_class } = f;
    let body = match sc_class {
        ScClass::SC1 => BodyV3::Silent,
        ScClass::SC2 => BodyV3::Block {
            g_max: q.g_max,
            gradient: q.gradient,
            s_max: q.s_max,
            solenoidal: q.solenoidal,
        },
        ScClass::SC3 => BodyV3::Full { gradient, solenoidal },
    };
    FrameV3 { body, harmonic, xi, sc_class }
}

/// A frame as stored by one of the three versions.
pub enum DecodedFrame {
    V1(FrameBits),
    V2(FrameV2),
    V3(FrameV3),
}

/// Reads the next frame of a stream whose header names `version`:
/// version 3, 2 and 1 frames are read as such, any other version is refused
/// without reading.
pub fn read_frame_any(r: &mut ByteReader, version: u32, frame_size: usize) -> (res: Result<
    DecodedFrame,
    FormatError,
>)
    requires
        old(r).wf(),
    ensures
        final(r).wf(),
        final(r).data() == old(r).data(),
        version == 3 ==> match parse_frame_v3(old(r).rest(), frame_size as nat) {
            Ok((f, k)) => res matches Ok(DecodedFrame::V3(ff)) && ff@ == f && final(r).pos() == old(
                r,
            ).pos() + k,
            Err(e) => res == Err::<DecodedFrame, FormatError>(e) && final(r).pos() == old(r).pos()
                + consumed_on_error(e, old(r).rest().len()),
        },
        version == 2 ==> match parse_frame_v2(old(r).rest(), frame_size as nat) {
            Ok((f, k)) => res matches Ok(DecodedFrame::V2(ff)) && ff@ == f && final(r).pos() == old(
                r,
            ).pos() + k,
            Err(e) => res == Err::<DecodedFrame, FormatError>(e) && final(r).pos() == old(r).pos()
                + consumed_on_error(e, old(r).rest().len()),
        },
        version == 1 ==> match parse_frame_v1(old(r).rest(), frame_size as nat) {
            Ok((f, k)) => res matches Ok(DecodedFrame::V1(ff)) && ff@ == f && final(r).pos() == old(
                r,
            ).pos() + k,
            Err(e) => res == Err::<DecodedFrame, FormatError>(e) && final(r).pos() == old(r).pos()
                + consumed_on_error(e, old(r).rest().len()),
        },
        (version < 1 || version > 3) ==> res == Err::<DecodedFrame, FormatError>(
            FormatError::UnsupportedVersion(version),
        ) && final(r).pos() == old(r).pos(),
{
    match version {
        3 => match read_frame_v3(r, frame_size) {
            Ok(f) => Ok(DecodedFrame::V3(f)),
            Err(e) => Err(e),
        },
        2 => match read_frame_v2(r, frame_size) {
            Ok(f) => Ok(DecodedFrame::V2(f)),
            Err(e) => Err(e),
        },
        1 => match read_frame(r, frame_size) {
            Ok(f) => Ok(DecodedFrame::V1(f)),
            Err(e) => Err(e),
        },
        v => Err(FormatError::UnsupportedVersion(v)),
    }
}

// ── what is written is read back ─────────────────────────────────

proof fn lemma_tail_roundtrip(s: Seq<u8>, off: int, harmonic: u32, xi: u32, sc: ScClass)
    requires
        0 <= off,
        off + 9 <= s.len(),
        s.subrange(off, off + 9) == frame_tail(harmonic, xi, sc),
    ensures
        u32_at(s, off) == harmonic,
        u32_at(s, off + 4) == xi,
        sc_of_byte(s[off + 8]) == sc,
{
    let t = frame_tail(harmonic, xi, sc);
    assert(t.subrange(0, 4) =~= le_u32(harmonic));
    assert(t.subrange(4, 8) =~= le_u32(xi));
    assert(s.subrange(off, off + 4) =~= t.subrange(0, 4));
    assert(s.subrange(off + 4, off + 8) =~= t.subrange(4, 8));
    assert(s[off + 8] == s.subrange(off, off + 9)[8]);
    lemma_le_u32_roundtrip(harmonic);
    lemma_le_u32_roundtrip(xi);
}

/// A v1 frame whose components hold `n` samples each is read back from its
/// bytes with `n` samples per component, whatever follows it.
pub proof fn law_frame_v1_roundtrip(f: FrameBitsView, n: nat, tail: Seq<u8>)
    requires
        f.gradient.len() == n,
        f.solenoidal.len() == n,
    ensures
        parse_frame_v1(frame_v1_bytes(f) + tail, n) == Ok::<(FrameBitsView, nat), FormatError>(
            (f, frame_v1_bytes(f).len()),
        ),
{
    let k = n as int;
    let s = frame_v1_bytes(f) + tail;
    lemma_le_u32s(f.gradient);
    lemma_le_u32s(f.solenoidal);
    assert(s.subrange(0, 4 * k) =~= le_u32s(f.gradient));
    assert(s.subrange(4 * k, 8 * k) =~= le_u32s(f.solenoidal));
    assert(s.subrange(8 * k, 8 * k + 9) =~= frame_tail(f.harmonic, f.xi, f.sc_class));
    lemma_u32s_roundtrip(s, 0, f.gradient);
    lemma_u32s_roundtrip(s, 4 * k, f.solenoidal);
    lemma_tail_roundtrip(s, 8 * k, f.harmonic, f.xi, f.sc_class);
}

/// A v2 frame whose sample vectors hold `n` samples each is read back from its
/// bytes with `n` samples per component, whatever follows it (the DPCM coding
/// of block frames included).
#[verifier::spinoff_prover]
#[verifier::rlimit(60)]
pub proof fn law_frame_v2_roundtrip(f: FrameV2View, n: nat, tail: Seq<u8>)
    requires
        f.body matches BodyV2View::Dpcm { gradient, solenoidal, .. } ==> gradient.len() == n
            && solenoidal.len() == n,
        f.body matches BodyV2View::Full { gradient, solenoidal } ==> gradient.len() == n
            && solenoidal.len() == n,
    ensures
        parse_frame_v2(frame_v2_bytes(f) + tail, n) == Ok::<(FrameV2View, nat), FormatError>(
            (f, frame_v2_bytes(f).len()),
        ),
{
    let k = n as int;
    let s = frame_v2_bytes(f) + tail;
    match f.body {
        BodyV2View::Silent => {
            assert(s.subrange(1, 10) =~= frame_tail(f.harmonic, f.xi, f.sc_class));
            lemma_tail_roundtrip(s, 1, f.harmonic, f.xi, f.sc_class);
        },
        BodyV2View::Dpcm { g_max, s_max, gradient, solenoidal } => {
            assert(s.subrange(1, 5) =~= le_u32(g_max));
            assert(s.subrange(5, 9) =~= le_u32(s_max));
            lemma_le_u32_roundtrip(g_max);
            lemma_le_u32_roundtrip(s_max);
            assert(s.subrange(9, 9 + k) =~= dpcm_bytes(gradient));
            assert(s.subrange(9 + k, 9 + 2 * k) =~= dpcm_bytes(solenoidal));
            assert(s.subrange(9 + 2 * k, 18 + 2 * k) =~= frame_tail(f.harmonic, f.xi, f.sc_class));
            lemma_dpcm_at_roundtrip(s, 9, gradient);
            lemma_dpcm_at_roundtrip(s, 9 + k, solenoidal);
            lemma_tail_roundtrip(s, 9 + 2 * k, f.harmonic, f.xi, f.sc_class);
        },
        BodyV2View::Full { gradient, solenoidal } => {
            lemma_le_u32s(gradient);
            lemma_le_u32s(solenoidal);
            assert(s.subrange(1, 1 + 4 * k) =~= le_u32s(gradient));
            assert(s.subrange(1 + 4 * k, 1 + 8 * k) =~= le_u32s(solenoidal));
            assert(s.subrange(1 + 8 * k, 10 + 8 * k) =~= frame_tail(f.harmonic, f.xi, f.sc_class));
            lemma_u32s_roundtrip(s, 1, gradient);
            lemma_u32s_roundtrip(s, 1 + 4 * k, solenoidal);
            lemma_tail_roundtrip(s, 1 + 8 * k, f.harmonic, f.xi, f.sc_class);
        },
    }
}

/// A v3 frame whose sample vectors hold `n` samples each is read back from its
/// bytes with `n` samples per component, whatever follows it.
#[verifier::spinoff_prover]
#[verifier::rlimit(60)]
pub proof fn law_frame_v3_roundtrip(f: FrameV3View, n: nat, tail: Seq<u8>)
    requires
        f.body matches BodyV3View::Block { gradient, solenoidal, .. } ==> gradient.len() == n
            && solenoidal.len() == n,
        f.body matches BodyV3View::Full { gradient, solenoidal } ==> gradient.len() == n
            && solenoidal.len() == n,
    ensures
        parse_frame_v3(frame_v3_bytes(f) + tail, n) == Ok::<(FrameV3View, nat), FormatError>(
            (f, frame_v3_bytes(f).len()),
        ),
{
    let k = n as int;
    let s = frame_v3_bytes(f) + tail;
    match f.body {
        BodyV3View::Silent => {
            assert(s.subrange(1, 10) =~= frame_tail(f.harmonic, f.xi, f.sc_class));
            lemma_tail_roundtrip(s, 1, f.harmonic, f.xi, f.sc_class);
        },
        BodyV3View::Block { g_max, gradient, s_max, solenoidal } => {
            lemma_le_i16s(gradient);
            assert(s.subrange(1, 5) =~= le_u32(g_max));
            assert(s.subrange(5, 5 + 2 * k) =~= le_i16s(gradient));
            assert(s.subrange(5 + 2 * k, 9 + 2 * k) =~= le_u32(s_max));
            assert(s.subrange(9 + 2 * k, 9 + 3 * k) =~= i8_bytes(solenoidal));
            assert(s.subrange(9 + 3 * k, 18 + 3 * k) =~= frame_tail(f.harmonic, f.xi, f.sc_class));
            lemma_le_u32_roundtrip(g_max);
            lemma_le_u32_roundtrip(s_max);
            lemma_i16s_roundtrip(s, 5, gradient);
            lemma_i8s_roundtrip(s, 9 + 2 * k, solenoidal);
            lemma_tail_roundtrip(s, 9 + 3 * k, f.harmonic, f.xi, f.sc_class);
        },
        BodyV3View::Full { gradient, solenoidal } => {
            lemma_le_u32s(gradient);
            lemma_le_u32s(solenoidal);
            assert(s.subrange(1, 1 + 4 * k) =~= le_u32s(gradient));
            assert(s.subrange(1 + 4 * k, 1 + 8 * k) =~= le_u32s(solenoidal));
            assert(s.subrange(1 + 8 * k, 10 + 8 * k) =~= frame_tail(f.harmonic, f.xi, f.sc_class));
            lemma_u32s_roundtrip(s, 1, gradient);
            lemma_u32s_roundtrip(s, 1 + 4 * k, solenoidal);
            lemma_tail_roundtrip(s, 1 + 8 * k, f.harmonic, f.xi, f.sc_class);
        },
    }
}

/// Frame sizes for `n` samples per component: v1 `8n + 9` bytes; v2 silent
/// 10, block `2n + 18`, full `8n + 10`; v3 silent 10, block `3n + 18`, full `8n + 10`.
pub proof fn law_frame_sizes(f1: FrameBitsView, f2: FrameV2View, f3: FrameV3View, n: nat)
    requires
        f1.gradient.len() == n && f1.solenoidal.len() == n,
        f2.body matches BodyV2View::Dpcm { gradient, solenoidal, .. } ==> gradient.len() == n
            && solenoidal.len() == n,
        f2.body matches BodyV2View::Full { gradient, solenoidal } ==> gradient.len() == n
            && solenoidal.len() == n,
        f3.body matches BodyV3View::Block { gradient, solenoidal, .. } ==> gradient.len() == n
            && solenoidal.len() == n,
        f3.body matches BodyV3View::Full { gradient, solenoidal } ==> gradient.len() == n
            && solenoidal.len() == n,
    ensures
        frame_v1_bytes(f1).len() == 8 * n + 9,
        frame_v2_bytes(f2).len() == match f2.body {
            BodyV2View::Silent => 10,
            BodyV2View::Dpcm { .. } => 2 * n + 18,
            BodyV2View::Full { .. } => 8 * n + 10,
        },
        frame_v3_bytes(f3).len() == match f3.body {
            BodyV3View::Silent => 10,
            BodyV3View::Block { .. } => 3 * n + 18,
            BodyV3View::Full { .. } => 8 * n + 10,
        },
{
    lemma_le_u32s(f1.gradient);
    lemma_le_u32s(f1.solenoidal);
    match f2.body {
        BodyV2View::Full { gradient, solenoidal } => {
            lemma_le_u32s(gradient);
            lemma_le_u32s(solenoidal);
        },
        _ => {},
    }
    match f3.body {
        BodyV3View::Block { gradient, .. } => {
            lemma_le_i16s(gradient);
        },
        BodyV3View::Full { gradient, solenoidal } => {
            lemma_le_u32s(gradient);
            lemma_le_u32s(solenoidal);
        },
        _ => {},
    }
}

} // verus!
