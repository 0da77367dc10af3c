//! The `.hodge` container: file header and per-frame byte layouts.
//!
//! Header: magic `HODGE\x01`, then little-endian `version: u32`,
//! `sample_rate: u32`, `channels: u16`, `frame_size: u32`,
//! `total_frames: u64`, then a metadata block: `0x4D`, `u16` length and
//! UTF-8 author bytes, or any other single byte for "no author".
use vstd::prelude::*;
pub use crate::frame::{
    read_frame, read_frame_v2, read_frame_v3, sc_from_byte, write_frame, write_frame_v2, write_frame_v3,
};

verus! {

/// The six magic bytes `HODGE\x01` that open every `.hodge` file.
pub open spec fn hodge_magic() -> Seq<u8> {
    seq![0x48u8, 0x4Fu8, 0x44u8, 0x47u8, 0x45u8, 0x01u8]
}

pub const VERSION: u32 = 1;

pub const VERSION_V2: u32 = 2;

/// Asymmetric i16/i8 block floating point.
pub const VERSION_V3: u32 = 3;

/// Frame type identifier reserved for a fourth-version tonal frame.
pub const V4_SC2_TYPE: u8 = 0x21;

/// Marker byte that announces an author string in the header.
pub const META_MARKER: u8 = 0x4D;

/// Why bytes could not be read as `.hodge` data.
#[derive(Debug, Clone, Copy, PartialEq, Eq, Structural)]
pub enum FormatError {
    /// The bytes ended before the structure did.
    UnexpectedEof,
    /// The first six bytes are not the `.hodge` magic.
    NotHodge,
    /// A frame begins with a type byte that its version does not define.
    UnknownFrameType(u8),
    /// The header names a version that no frame reader handles.
    UnsupportedVersion(u32),
}

/// How many bytes a read that fails with `e` has consumed, when `remaining`
/// bytes were left: running out of bytes consumes all of them, a wrong magic
/// consumes its six bytes, an unknown frame type consumes its type byte, and
/// an unsupported version is refused before anything is read.
pub open spec fn consumed_on_error(e: FormatError, remaining: nat) -> nat {
    match e {
        FormatError::UnexpectedEof => remaining,
        FormatError::NotHodge => 6,
        FormatError::UnknownFrameType(_) => 1,
        FormatError::UnsupportedVersion(_) => 0,
    }
}

// ── little-endian integers ────────────────────────────────────────

pub open spec fn le_u16(v: u16) -> Seq<u8> {
    seq![(v & 0xff) as u8, ((v >> 8u16) & 0xff) as u8]
}

pub open spec fn le_u32(v: u32) -> Seq<u8> {
    seq![
        (v & 0xff) as u8,
        ((v >> 8u32) & 0xff) as u8,
        ((v >> 16u32) & 0xff) as u8,
        ((v >> 24u32) & 0xff) as u8,
    ]
}

pub open spec fn le_u64(v: u64) -> Seq<u8> {
    seq![
        (v & 0xff) as u8,
        ((v >> 8u64) & 0xff) as u8,
        ((v >> 16u64) & 0xff) as u8,
        ((v >> 24u64) & 0xff) as u8,
        ((v >> 32u64) & 0xff) as u8,
        ((v >> 40u64) & 0xff) as u8,
        ((v >> 48u64) & 0xff) as u8,
        ((v >> 56u64) & 0xff) as u8,
    ]
}

/// The `u16` whose little-endian bytes start `s`.
pub open spec fn from_le_u16(s: Seq<u8>) -> u16 {
    (s[0] as u16) | ((s[1] as u16) << 8u16)
}

/// The `u32` whose little-endian bytes start `s`.
pub open spec fn from_le_u32(s: Seq<u8>) -> u32 {
    (s[0] as u32) | ((s[1] as u32) << 8u32) | ((s[2] as u32) << 16u32) | ((s[3] as u32) << 24u32)
}

/// The `u64` whose little-endian bytes start `s`.
pub open spec fn from_le_u64(s: Seq<u8>) -> u64 {
    (from_le_u32(s) as u64) | ((from_le_u32(s.subrange(4, 8)) as u64) << 32u64)
}

pub proof fn lemma_le_u16_roundtrip(v: u16)
    ensures
        from_le_u16(le_u16(v)) == v,
{
    let b0 = (v & 0xff) as u8;
    let b1 = ((v >> 8u16) & 0xff) as u8;
    assert((b0 as u16) | ((b1 as u16) << 8u16) == v) by (bit_vector)
        requires
            b0 == (v & 0xff) as u8,
            b1 == ((v >> 8u16) & 0xff) as u8,
    ;
}

pub proof fn lemma_le_u32_roundtrip(v: u32)
    ensures
        from_le_u32(le_u32(v)) == v,
{
    let b0 = (v & 0xff) as u8;
    let b1 = ((v >> 8u32) & 0xff) as u8;
    let b2 = ((v >> 16u32) & 0xff) as u8;
    let b3 = ((v >> 24u32) & 0xff) as u8;
    assert((b0 as u32) | ((b1 as u32) << 8u32) | ((b2 as u32) << 16u32) | ((b3 as u32) << 24u32)
        == v) by (bit_vector)
        requires
            b0 == (v & 0xff) as u8,
            b1 == ((v >> 8u32) & 0xff) as u8,
            b2 == ((v >> 16u32) & 0xff) as u8,
            b3 == ((v >> 24u32) & 0xff) as u8,
    ;
}

pub proof fn lemma_le_u64_roundtrip(v: u64)
    ensures
        from_le_u64(le_u64(v)) == v,
{
    let s = le_u64(v);
    let lo = (v & 0xffff_ffff) as u32;
    let hi = (v >> 32u64) as u32;
    assert(s.subrange(0, 4) =~= le_u32(lo)) by {
        assert((v & 0xff) as u8 == (lo & 0xff) as u8) by (bit_vector)
            requires lo == (v & 0xffff_ffff) as u32;
        assert(((v >> 8u64) & 0xff) as u8 == ((lo >> 8u32) & 0xff) as u8) by (bit_vector)
            requires lo == (v & 0xffff_ffff) as u32;
        assert(((v >> 16u64) & 0xff) as u8 == ((lo >> 16u32) & 0xff) as u8) by (bit_vector)
            requires lo == (v & 0xffff_ffff) as u32;
        assert(((v >> 24u64) & 0xff) as u8 == ((lo >> 24u32) & 0xff) as u8) by (bit_vector)
            requires lo == (v & 0xffff_ffff) as u32;
    }
    assert(s.subrange(4, 8) =~= le_u32(hi)) by {
        assert(((v >> 32u64) & 0xff) as u8 == (hi & 0xff) as u8) by (bit_vector)
            requires hi == (v >> 32u64) as u32;
        assert(((v >> 40u64) & 0xff) as u8 == ((hi >> 8u32) & 0xff) as u8) by (bit_vector)
            requires hi == (v >> 32u64) as u32;
        assert(((v >> 48u64) & 0xff) as u8 == ((hi >> 16u32) & 0xff) as u8) by (bit_vector)
            requires hi == (v >> 32u64) as u32;
        assert(((v >> 56u64) & 0xff) as u8 == ((hi >> 24u32) & 0xff) as u8) by (bit_vector)
            requires hi == (v >> 32u64) as u32;
    }
    lemma_le_u32_roundtrip(lo);
    lemma_le_u32_roundtrip(hi);
    assert(from_le_u32(s) == from_le_u32(s.subrange(0, 4)));
    assert((lo as u64) | ((hi as u64) << 32u64) == v) by (bit_vector)
        requires
            lo == (v & 0xffff_ffff) as u32,
            hi == (v >> 32u64) as u32,
    ;
}

pub fn push_le_u16(w: &mut Vec<u8>, v: u16)
    ensures
        final(w)@ == old(w)@ + le_u16(v),
{
    w.push((v & 0xff) as u8);
    w.push(((v >> 8u16) & 0xff) as u8);
    assert(w@ =~= old(w)@ + le_u16(v));
}

pub fn push_le_u32(w: &mut Vec<u8>, v: u32)
    ensures
        final(w)@ == old(w)@ + le_u32(v),
{
    w.push((v & 0xff) as u8);
    w.push(((v >> 8u32) & 0xff) as u8);
    w.push(((v >> 16u32) & 0xff) as u8);
    w.push(((v >> 24u32) & 0xff) as u8);
    assert(w@ =~= old(w)@ + le_u32(v));
}

pub fn push_le_u64(w: &mut Vec<u8>, v: u64)
    ensures
        final(w)@ == old(w)@ + le_u64(v),
{
    w.push((v & 0xff) as u8);
    w.push(((v >> 8u64) & 0xff) as u8);
    w.push(((v >> 16u64) & 0xff) as u8);
    w.push(((v >> 24u64) & 0xff) as u8);
    w.push(((v >> 32u64) & 0xff) as u8);
    w.push(((v >> 40u64) & 0xff) as u8);
    w.push(((v >> 48u64) & 0xff) as u8);
    w.push(((v >> 56u64) & 0xff) as u8);
    assert(w@ =~= old(w)@ + le_u64(v));
}

pub fn push_bytes(w: &mut Vec<u8>, bytes: &[u8])
    ensures
        final(w)@ == old(w)@ + bytes@,
{
    w.extend_from_slice(bytes);
    assert(w@ =~= old(w)@ + bytes@);
}

// ── reading cursor ────────────────────────────────────────────────

/// An in-memory cursor over the bytes of a `.hodge` stream.
pub struct ByteReader {
    data: Vec<u8>,
    pos: usize,
}

impl ByteReader {
    /// All bytes the reader was made with.
    pub closed spec fn data(&self) -> Seq<u8> {
        self.data@
    }

    /// How many bytes have been consumed.
    pub closed spec fn pos(&self) -> nat {
        self.pos as nat
    }

    /// The position never passes the end of the data.
    pub closed spec fn wf(&self) -> bool {
        self.pos <= self.data@.len() <= usize::MAX
    }

    /// The bytes not consumed yet.
    pub open spec fn rest(&self) -> Seq<u8> {
        self.data().subrange(self.pos() as int, self.data().len() as int)
    }

    /// The unread bytes fit in memory.
    pub proof fn lemma_rest_fits(&self)
        requires
            self.wf(),
        ensures
            self.rest().len() <= usize::MAX,
            self.pos() + self.rest().len() == self.data().len(),
    {
    }

    pub fn new(data: Vec<u8>) -> (r: ByteReader)
        ensures
            r.wf(),
            r.data() == data@,
            r.pos() == 0,
    {
        let _n = data.len();
        ByteReader { data, pos: 0 }
    }

    pub fn position(&self) -> (p: usize)
        ensures
            p == self.pos(),
    {
        self.pos
    }

    pub fn remaining(&self) -> (n: usize)
        requires
            self.wf(),
        ensures
            n == self.rest().len(),
    {
        self.data.len() - self.pos
    }

    /// Byte at `pos() + k`; requires it to exist.
    pub fn peek(&self, k: usize) -> (b: u8)
        requires
            self.wf(),
            k < self.rest().len(),
        ensures
            b == self.rest()[k as int],
    {
        self.data[self.pos + k]
    }

    /// Little-endian `u16` at `pos() + k`.
    pub fn peek_u16(&self, k: usize) -> (v: u16)
        requires
            self.wf(),
            k + 2 <= self.rest().len(),
        ensures
            v == from_le_u16(self.rest().subrange(k as int, k + 2)),
    {
        let b0 = self.peek(k);
        let b1 = self.peek(k + 1);
        (b0 as u16) | ((b1 as u16) << 8u16)
    }

    /// Little-endian `u32` at `pos() + k`.
    pub fn peek_u32(&self, k: usize) -> (v: u32)
        requires
            self.wf(),
            k + 4 <= self.rest().len(),
        ensures
            v == from_le_u32(self.rest().subrange(k as int, k + 4)),
    {
        let b0 = self.peek(k);
        let b1 = self.peek(k + 1);
        let b2 = self.peek(k + 2);
        let b3 = self.peek(k + 3);
        (b0 as u32) | ((b1 as u32) << 8u32) | ((b2 as u32) << 16u32) | ((b3 as u32) << 24u32)
    }

    /// Little-endian `u64` at `pos() + k`.
    pub fn peek_u64(&self, k: usize) -> (v: u64)
        requires
            self.wf(),
            k + 8 <= self.rest().len(),
        ensures
            v == from_le_u64(self.rest().subrange(k as int, k + 8)),
    {
        let lo = self.peek_u32(k);
        let hi = self.peek_u32(k + 4);
        assert(self.rest().subrange(k as int, k + 8).subrange(0, 4) =~= self.rest().subrange(
            k as int,
            k + 4,
        ));
        assert(self.rest().subrange(k as int, k + 8).subrange(4, 8) =~= self.rest().subrange(
            k + 4,
            k + 8,
        ));
        (lo as u64) | ((hi as u64) << 32u64)
    }

    /// Copy of the `n` bytes at `pos() + k`.
    pub fn peek_bytes(&self, k: usize, n: usize) -> (v: Vec<u8>)
        requires
            self.wf(),
            k + n <= self.rest().len(),
        ensures
            v@ == self.rest().subrange(k as int, k + n),
    {
        let mut v: Vec<u8> = Vec::with_capacity(n);
        let mut i: usize = 0;
        while i < n
            invariant
                self.wf(),
                i <= n,
                k + n <= self.rest().len(),
                v@ == self.rest().subrange(k as int, k + i),
            decreases n - i,
        {
            let b = self.peek(k + i);
            v.push(b);
            assert(v@ =~= self.rest().subrange(k as int, k + i + 1));
            i = i + 1;
        }
        v
    }

    /// Consume `n` bytes.
    pub fn advance(&mut self, n: usize)
        requires
            old(self).wf(),
            n <= old(self).rest().len(),
        ensures
            final(self).wf(),
            final(self).data() == old(self).data(),
            final(self).pos() == old(self).pos() + n,
    {
        self.pos = self.pos + n;
    }
}

// ── header ────────────────────────────────────────────────────────

/// Stream-level parameters of a `.hodge` file.
#[derive(Debug, Clone)]
pub struct HodgeFileHeader {
    pub version: u32,
    pub sample_rate: u32,
    pub channels: u16,
    pub frame_size: u32,
    pub total_frames: u64,
    /// Optional author/copyright string embedded in the header.
    pub author: Option<String>,
}

/// What a header holds, with the author as a character sequence.
pub struct HeaderView {
    pub version: u32,
    pub sample_rate: u32,
    pub channels: u16,
    pub frame_size: u32,
    pub total_frames: u64,
    pub author: Option<Seq<char>>,
}

impl View for HodgeFileHeader {
    type V = HeaderView;

    open spec fn view(&self) -> HeaderView {
        HeaderView {
            version: self.version,
            sample_rate: self.sample_rate,
            channels: self.channels,
            frame_size: self.frame_size,
            total_frames: self.total_frames,
            author: match self.author {
                Some(a) => Some(a@),
                None => None,
            },
        }
    }
}

/// The metadata block: `0x4D`, the UTF-8 length truncated to `u16`, the UTF-8
/// bytes; or the single byte `0x00` when there is no author.
pub open spec fn author_block(author: Option<Seq<char>>) -> Seq<u8> {
    match author {
        Some(a) => seq![0x4Du8] + le_u16(vstd::utf8::encode_utf8(a).len() as u16)
            + vstd::utf8::encode_utf8(a),
        None => seq![0x00u8],
    }
}

/// The bytes `write_header` emits for `h`.
pub open spec fn header_bytes(h: HeaderView) -> Seq<u8> {
    hodge_magic() + le_u32(h.version) + le_u32(h.sample_rate) + le_u16(h.channels) + le_u32(
        h.frame_size,
    ) + le_u64(h.total_frames) + author_block(h.author)
}

/// What `String::from_utf8_lossy` makes of bytes that are not valid UTF-8
/// (each invalid sequence replaced by U+FFFD).
pub uninterp spec fn utf8_lossy(bytes: Seq<u8>) -> Seq<char>;

/// The author text decoded from the metadata bytes: the UTF-8 decoding when
/// they are valid UTF-8, else their lossy decoding.
pub open spec fn author_text(bytes: Seq<u8>) -> Seq<char> {
    if vstd::utf8::valid_utf8(bytes) {
        vstd::utf8::decode_utf8(bytes)
    } else {
        utf8_lossy(bytes)
    }
}

/// Calls `String::from_utf8_lossy`. Trusted: for valid UTF-8 the result is its
/// decoding (as std documents); for other bytes it is `utf8_lossy` of them.
#[verifier::external_body]
fn string_from_utf8_lossy(bytes: &[u8]) -> (s: String)
    ensures
        vstd::utf8::valid_utf8(bytes@) ==> s@ == vstd::utf8::decode_utf8(bytes@),
        !vstd::utf8::valid_utf8(bytes@) ==> s@ == utf8_lossy(bytes@),
{
    String::from_utf8_lossy(bytes).into_owned()
}

/// The fixed 28-byte part of a header that starts `s`, with `author`.
pub open spec fn header_fields(s: Seq<u8>, author: Option<Seq<char>>) -> HeaderView {
    HeaderView {
        version: from_le_u32(s.subrange(6, 10)),
        sample_rate: from_le_u32(s.subrange(10, 14)),
        channels: from_le_u16(s.subrange(14, 16)),
        frame_size: from_le_u32(s.subrange(16, 20)),
        total_frames: from_le_u64(s.subrange(20, 28)),
        author,
    }
}

/// The header at the start of `s` and the number of bytes it occupies.
/// A missing metadata byte means "no author"; a metadata byte other than
/// `0x4D` is consumed and also means "no author".
pub open spec fn parse_header(s: Seq<u8>) -> Result<(HeaderView, nat), FormatError> {
    if s.len() < 6 {
        Err(FormatError::UnexpectedEof)
    } else if s.subrange(0, 6) != hodge_magic() {
        Err(FormatError::NotHodge)
    } else if s.len() < 28 {
        Err(FormatError::UnexpectedEof)
    } else if s.len() == 28 {
        Ok((header_fields(s, None), 28))
    } else if s[28] != 0x4D {
        Ok((header_fields(s, None), 29))
    } else if s.len() < 31 {
        Err(FormatError::UnexpectedEof)
    } else {
        let len = from_le_u16(s.subrange(29, 31)) as nat;
        if s.len() < 31 + len {
            Err(FormatError::UnexpectedEof)
        } else {
            Ok((header_fields(s, Some(author_text(s.subrange(31, 31 + len as int)))), 31 + len))
        }
    }
}

/// Appends the header bytes of `h` to `w`.
pub fn write_header(w: &mut Vec<u8>, h: &HodgeFileHeader)
    ensures
        final(w)@ == old(w)@ + header_bytes(h@),
{
    let ghost start = w@;
    w.push(0x48);
    w.push(0x4F);
    w.push(0x44);
    w.push(0x47);
    w.push(0x45);
    w.push(0x01);
    assert(w@ =~= start + hodge_magic());
    push_le_u32(w, h.version);
    push_le_u32(w, h.sample_rate);
    push_le_u16(w, h.channels);
    push_le_u32(w, h.frame_size);
    push_le_u64(w, h.total_frames);
    let ghost fixed = w@;
    match &h.author {
        Some(a) => {
            let bytes = a.as_str().as_bytes();
            w.push(META_MARKER);
            push_le_u16(w, bytes.len() as u16);
            push_bytes(w, bytes);
            assert(w@ =~= fixed + author_block(h@.author));
        },
        None => {
            w.push(0);
            assert(w@ =~= fixed + author_block(h@.author));
        },
    }
    assert(w@ =~= old(w)@ + header_bytes(h@));
}

/// Reads a header from `r`. On success the reader has moved past it; on
/// failure it has moved as far as `consumed_on_error` says.
pub fn read_header(r: &mut ByteReader) -> (res: Result<HodgeFileHeader, FormatError>)
    requires
        old(r).wf(),
    ensures
        final(r).wf(),
        final(r).data() == old(r).data(),
        match parse_header(old(r).rest()) {
            Ok((h, n)) => res matches Ok(hh) && hh@ == h && final(r).pos() == old(r).pos() + n,
            Err(e) => res == Err::<HodgeFileHeader, FormatError>(e) && final(r).pos() == old(r).pos()
                + consumed_on_error(e, old(r).rest().len()),
        },
{
    let ghost s = r.rest();
    let avail = r.remaining();
    if avail < 6 {
        r.advance(avail);
        return Err(FormatError::UnexpectedEof);
    }
    if !(r.peek(0) == 0x48 && r.peek(1) == 0x4F && r.peek(2) == 0x44 && r.peek(3) == 0x47
        && r.peek(4) == 0x45 && r.peek(5) == 0x01) {
        assert(s.subrange(0, 6) != hodge_magic()) by {
            if s.subrange(0, 6) == hodge_magic() {
                assert(s.subrange(0, 6)[0] == s[0]);
                assert(s.subrange(0, 6)[1] == s[1]);
                assert(s.subrange(0, 6)[2] == s[2]);
                assert(s.subrange(0, 6)[3] == s[3]);
                assert(s.subrange(0, 6)[4] == s[4]);
                assert(s.subrange(0, 6)[5] == s[5]);
            }
        }
        r.advance(6);
        return Err(FormatError::NotHodge);
    }
    assert(s.subrange(0, 6) =~= hodge_magic());
    if avail < 28 {
        r.advance(avail);
        return Err(FormatError::UnexpectedEof);
    }
    let version = r.peek_u32(6);
    let sample_rate = r.peek_u32(10);
    let channels = r.peek_u16(14);
    let frame_size = r.peek_u32(16);
    let total_frames = r.peek_u64(20);
    let mut used: usize = 28;
    let mut author: Option<String> = None;
    if avail > 28 {
        used = 29;
        if r.peek(28) == META_MARKER {
            if avail < 31 {
                r.advance(avail);
                return Err(FormatError::UnexpectedEof);
            }
            let len = r.peek_u16(29) as usize;
            if avail - 31 < len {
                r.advance(avail);
                return Err(FormatError::UnexpectedEof);
            }
            let abuf = r.peek_bytes(31, len);
            author = Some(string_from_utf8_lossy(abuf.as_slice()));
            used = 31 + len;
        }
    }
    r.advance(used);
    let h = HodgeFileHeader { version, sample_rate, channels, frame_size, total_frames, author };
    assert(h@ == parse_header(s)->Ok_0.0);
    Ok(h)
}

/// Reading back the bytes written for a header gives the same header, and
/// consumes exactly those bytes, whatever follows them; this holds whenever the
/// author's UTF-8 encoding fits the 16-bit length field.
pub proof fn law_header_roundtrip(h: HeaderView, tail: Seq<u8>)
    requires
        h.author matches Some(a) ==> vstd::utf8::encode_utf8(a).len() <= 0xffff,
    ensures
        parse_header(header_bytes(h) + tail) == Ok::<(HeaderView, nat), FormatError>(
            (h, header_bytes(h).len()),
        ),
{
    let s = header_bytes(h) + tail;
    lemma_le_u32_roundtrip(h.version);
    lemma_le_u32_roundtrip(h.sample_rate);
    lemma_le_u16_roundtrip(h.channels);
    lemma_le_u32_roundtrip(h.frame_size);
    lemma_le_u64_roundtrip(h.total_frames);
    assert(s.subrange(0, 6) =~= hodge_magic());
    assert(s.subrange(6, 10) =~= le_u32(h.version));
    assert(s.subrange(10, 14) =~= le_u32(h.sample_rate));
    assert(s.subrange(14, 16) =~= le_u16(h.channels));
    assert(s.subrange(16, 20) =~= le_u32(h.frame_size));
    assert(s.subrange(20, 28) =~= le_u64(h.total_frames));
    match h.author {
        Some(a) => {
            let e = vstd::utf8::encode_utf8(a);
            assert(e.len() as u16 == e.len());
            lemma_le_u16_roundtrip(e.len() as u16);
            assert(s[28] == 0x4D);
            assert(s.subrange(29, 31) =~= le_u16(e.len() as u16));
            assert(s.subrange(31, 31 + e.len() as int) =~= e);
            vstd::utf8::encode_utf8_valid_utf8(a);
            vstd::utf8::encode_utf8_decode_utf8(a);
            assert(header_fields(s, Some(a)) == h);
        },
        None => {
            assert(s[28] == 0);
            assert(header_fields(s, None) == h);
        },
    }
}

} // verus!
