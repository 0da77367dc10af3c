//! Hodge watermark: an author string hidden in the least significant bits of
//! 16-bit PCM samples, verified by CRC-32.
//!
//! Layout: the LSBs of samples `0..32` hold the stride (big-endian `u32`);
//! payload bit `k` sits in the LSB of sample `32 + k * stride`. The payload is
//! `HODGEWM1`, the author length (big-endian `u16`), the author bytes and the
//! CRC-32 of the author bytes (big-endian).
use vstd::prelude::*;
use vstd::arithmetic::div_mod::lemma_fundamental_div_mod_converse;

verus! {

pub const MAGIC_BITS: usize = 64;

/// Bits of the big-endian author length that follows the magic.
pub const LEN_BITS: usize = 16;

/// Why a watermark could not be embedded or found.
#[derive(Debug, Clone, Copy, PartialEq, Eq, Structural)]
pub enum WatermarkError {
    /// Too few samples to hold the payload: `need` samples, `have` given.
    TooShort { need: usize, have: usize },
    /// Too few samples to hold even the stride and the magic.
    FileTooShort,
    /// No stride or no magic found.
    NotFound,
    /// The embedded author length is 0 or above 4096.
    InvalidLength,
}

/// The eight magic bytes `HODGEWM1`.
pub open spec fn wm_magic() -> Seq<u8> {
    seq![0x48u8, 0x4Fu8, 0x44u8, 0x47u8, 0x45u8, 0x57u8, 0x4Du8, 0x31u8]
}

// ── CRC-32 (IEEE, reflected, polynomial 0xEDB88320) ──────────────

/// One shift of the reflected CRC register.
pub open spec fn crc_shift(crc: u32) -> u32 {
    if crc & 1 != 0 {
        (crc >> 1u32) ^ 0xEDB8_8320u32
    } else {
        crc >> 1u32
    }
}

/// `k` shifts of the CRC register.
pub open spec fn crc_shifts(crc: u32, k: nat) -> u32
    decreases k,
{
    if k == 0 {
        crc
    } else {
        crc_shift(crc_shifts(crc, (k - 1) as nat))
    }
}

/// The CRC register after feeding `data` into register value `crc`.
pub open spec fn crc_update(crc: u32, data: Seq<u8>) -> u32
    decreases data.len(),
{
    if data.len() == 0 {
        crc
    } else {
        crc_shifts(crc_update(crc, data.drop_last()) ^ (data.last() as u32), 8)
    }
}

/// CRC-32 of `data`: register starts at all ones, result is complemented.
pub open spec fn crc32_spec(data: Seq<u8>) -> u32 {
    !crc_update(0xFFFF_FFFFu32, data)
}

pub fn crc32(data: &[u8]) -> (r: u32)
    ensures
        r == crc32_spec(data@),
{
    let mut crc: u32 = 0xFFFF_FFFF;
    let mut i: usize = 0;
    while i < data.len()
        invariant
            i <= data.len(),
            crc == crc_update(0xFFFF_FFFFu32, data@.take(i as int)),
        decreases data.len() - i,
    {
        let ghost prev = crc;
        crc = crc ^ (data[i] as u32);
        let ghost start = crc;
        let mut k: usize = 0;
        while k < 8
            invariant
                k <= 8,
                crc == crc_shifts(start, k as nat),
            decreases 8 - k,
        {
            if crc & 1 != 0 {
                crc = (crc >> 1u32) ^ 0xEDB8_8320u32;
            } else {
                crc = crc >> 1u32;
            }
            k = k + 1;
        }
        assert(data@.take(i + 1).drop_last() =~= data@.take(i as int));
        i = i + 1;
    }
    assert(data@.take(data.len() as int) =~= data@);
    !crc
}

/// Eight shifts of the CRC register, written out.
pub open spec fn crc_shift8(x: u32) -> u32 {
    crc_shift(crc_shift(crc_shift(crc_shift(crc_shift(crc_shift(crc_shift(crc_shift(x))))))))
}

proof fn lemma_crc_shifts_eight(x: u32)
    ensures
        crc_shifts(x, 8) == crc_shift8(x),
{
    reveal_with_fuel(crc_shifts, 9);
}

proof fn lemma_crc_update_one(r: u32, b: u8)
    ensures
        crc_update(r, seq![b]) == crc_shift8(r ^ (b as u32)),
{
    assert(seq![b].drop_last() =~= Seq::<u8>::empty());
    assert(seq![b].last() == b);
    assert(crc_update(r, Seq::<u8>::empty()) == r);
    assert(crc_update(r, seq![b]) == crc_shifts(r ^ (b as u32), 8));
    lemma_crc_shifts_eight(r ^ (b as u32));
}

/// A byte enters the register whole: feeding `b` is feeding a zero byte into
/// the register XORed with all eight bits of `b`.
pub proof fn law_crc_byte_enters_whole(r: u32, b: u8)
    ensures
        crc_update(r, seq![b]) == crc_update(r ^ (b as u32), seq![0u8]),
{
    lemma_crc_update_one(r, b);
    lemma_crc_update_one(r ^ (b as u32), 0u8);
    assert((r ^ (b as u32)) ^ (0u8 as u32) == r ^ (b as u32)) by (bit_vector);
}

/// Every bit of a byte matters: from any register, two different bytes leave
/// two different registers, so two strings that differ in one byte only have
/// different CRC-32s.
pub proof fn law_crc_distinct_bytes(r: u32, b1: u8, b2: u8)
    requires
        b1 != b2,
    ensures
        crc_update(r, seq![b1]) != crc_update(r, seq![b2]),
{
    lemma_crc_update_one(r, b1);
    lemma_crc_update_one(r, b2);
    let x1 = b1 as u32;
    let x2 = b2 as u32;
    assert(x1 < 256 && x2 < 256 && x1 != x2);
    assert(crc_shift8(r ^ x1) != crc_shift8(r ^ x2)) by (bit_vector)
        requires
            x1 < 256,
            x2 < 256,
            x1 != x2,
    ;
}

/// The CRC register streams: feeding `x` then `y` is feeding `x + y`.
pub proof fn law_crc_streams(r: u32, x: Seq<u8>, y: Seq<u8>)
    ensures
        crc_update(crc_update(r, x), y) == crc_update(r, x + y),
    decreases y.len(),
{
    if y.len() == 0 {
        assert(x + y =~= x);
    } else {
        law_crc_streams(r, x, y.drop_last());
        assert((x + y).drop_last() =~= x + y.drop_last());
        assert((x + y).last() == y.last());
    }
}

/// The IEEE CRC-32 of the bytes `0xFF` and `0x00`: `0xFF000000` and
/// `0xD202EF8D` (polynomial `0xEDB88320`, all-ones start, complemented result).
pub proof fn law_crc32_single_byte_values()
    ensures
        crc32_spec(seq![0xFFu8]) == 0xFF00_0000u32,
        crc32_spec(seq![0x00u8]) == 0xD202_EF8Du32,
{
    lemma_crc_update_one(0xFFFF_FFFFu32, 0xFFu8);
    lemma_crc_update_one(0xFFFF_FFFFu32, 0x00u8);
    assert(!crc_shift8(0xFFFF_FFFFu32 ^ 0xFFu32) == 0xFF00_0000u32 && !crc_shift8(0xFFFF_FFFFu32 ^ 0u32)
        == 0xD202_EF8Du32) by (bit_vector);
}

// ── payload ──────────────────────────────────────────────────────

/// Big-endian bytes of `v`.
pub open spec fn be_u32(v: u32) -> Seq<u8> {
    seq![(v >> 24u32) as u8, ((v >> 16u32) & 0xff) as u8, ((v >> 8u32) & 0xff) as u8, (v & 0xff) as u8]
}

/// The bytes hidden in the samples for `author`; the length field keeps the
/// low 16 bits of the author length.
pub open spec fn wm_payload(author: Seq<u8>) -> Seq<u8> {
    wm_magic() + seq![((author.len() / 256) % 256) as u8, (author.len() % 256) as u8] + author
        + be_u32(crc32_spec(author))
}

/// Payload bit `k`, most significant bit of each byte first.
pub open spec fn payload_bit(p: Seq<u8>, k: int) -> u8 {
    (p[k / 8] >> ((7 - k % 8) as u8)) & 1
}

/// Spacing between payload bits for `n` samples and `bits` payload bits.
pub open spec fn wm_stride(n: nat, bits: nat) -> nat {
    if (n - 32) / (bits as int) >= 1 {
        ((n - 32) / (bits as int)) as nat
    } else {
        1
    }
}

/// `x` with its least significant bit replaced by `bit`.
pub open spec fn set_lsb(x: i16, bit: u8) -> i16 {
    (x & !1i16) | (bit as i16)
}

/// Sample `i` after embedding `payload` with spacing `stride` into `s`.
pub open spec fn embedded_sample(s: Seq<i16>, payload: Seq<u8>, stride: nat, i: int) -> i16 {
    if i < 32 {
        set_lsb(s[i], (((stride as u32) >> ((31 - i) as u32)) & 1) as u8)
    } else if (i - 32) % (stride as int) == 0 && (i - 32) / (stride as int) < payload.len() * 8 {
        set_lsb(s[i], payload_bit(payload, (i - 32) / (stride as int)))
    } else {
        s[i]
    }
}

/// `s` with `author` embedded.
pub open spec fn watermarked(s: Seq<i16>, author: Seq<u8>) -> Seq<i16> {
    Seq::new(
        s.len(),
        |i: int|
            embedded_sample(
                s,
                wm_payload(author),
                wm_stride(s.len(), wm_payload(author).len() * 8),
                i,
            ),
    )
}

proof fn lemma_grid_position(k: int, stride: int)
    requires
        0 <= k,
        1 <= stride,
    ensures
        (k * stride) % stride == 0,
        (k * stride) / stride == k,
{
    lemma_fundamental_div_mod_converse(k * stride, stride, k, 0);
}

/// Embeds `author` into the LSBs of `samples`. Fails when fewer than
/// `32 + payload bits` samples are given.
pub fn embed_watermark(samples: &[i16], author: &[u8]) -> (res: Result<Vec<i16>, WatermarkError>)
    requires
        (author@.len() + 14) * 8 + 32 <= usize::MAX,
    ensures
        ({
            let bits = wm_payload(author@).len() * 8;
            let n = samples@.len();
            if n < 32 || n - 32 < bits {
                res == Err::<Vec<i16>, WatermarkError>(
                    WatermarkError::TooShort { need: (32 + bits) as usize, have: n as usize },
                )
            } else {
                res matches Ok(out) && out@ == watermarked(samples@, author@)
            }
        }),
{
    let crc = crc32(author);
    let alen = author.len();
    let mut payload: Vec<u8> = Vec::with_capacity(14 + alen);
    payload.push(0x48);
    payload.push(0x4F);
    payload.push(0x44);
    payload.push(0x47);
    payload.push(0x45);
    payload.push(0x57);
    payload.push(0x4D);
    payload.push(0x31);
    let hi = (alen >> 8usize) as u8;
    let lo = (alen & 0xFF) as u8;
    assert(hi == ((alen / 256) % 256) as u8) by (bit_vector)
        requires
            hi == (alen >> 8usize) as u8,
    ;
    assert(lo == (alen % 256) as u8) by (bit_vector)
        requires
            lo == (alen & 0xFF) as u8,
    ;
    payload.push(hi);
    payload.push(lo);
    payload.extend_from_slice(author);
    payload.push((crc >> 24u32) as u8);
    payload.push(((crc >> 16u32) & 0xff) as u8);
    payload.push(((crc >> 8u32) & 0xff) as u8);
    payload.push((crc & 0xff) as u8);
    assert(payload@ =~= wm_payload(author@));
    let ghost p = payload@;
    let payload_bits = payload.len() * 8;
    let n = samples.len();
    let available = if n >= 32 { n - 32 } else { 0 };
    if available < payload_bits {
        return Err(WatermarkError::TooShort { need: 32 + payload_bits, have: n });
    }
    let q = available / payload_bits;
    assert(q >= 1 && q * payload_bits <= available) by (nonlinear_arith)
        requires
            q == available / payload_bits,
            payload_bits >= 1,
            available >= payload_bits,
    {
    }
    let stride = if q >= 1 { q } else { 1 };
    assert(stride == wm_stride(n as nat, payload_bits as nat));
    let mut out = vstd::slice::slice_to_vec(samples);
    let mut i: usize = 0;
    while i < 32
        invariant
            i <= 32,
            32 <= n,
            samples@.len() == n,
            out@.len() == n,
            stride == wm_stride(n as nat, payload_bits as nat),
            forall|j: int| 0 <= j < i ==> #[trigger] out@[j] == embedded_sample(samples@, p, stride as nat, j),
            forall|j: int| i <= j < n ==> #[trigger] out@[j] == samples@[j],
        decreases 32 - i,
    {
        let sv = stride as u32;
        let sh = (31 - i) as u32;
        let bit = (sv >> sh) & 1;
        assert((bit as u8) as i16 == bit as i16) by (bit_vector)
            requires
                bit == (sv >> sh) & 1,
        ;
        let v = (out[i] & !1i16) | (bit as i16);
        out.set(i, v);
        i = i + 1;
    }
    let mut bit_idx: usize = 0;
    let mut bi: usize = 0;
    while bi < payload.len()
        invariant
            32 <= n,
            samples@.len() == n,
            payload@ == p,
            payload_bits == p.len() * 8,
            bi <= p.len(),
            bit_idx == bi * 8,
            1 <= stride,
            stride * payload_bits <= n - 32,
            out@.len() == n,
            forall|j: int|
                0 <= j < n ==> #[trigger] out@[j] == if j < 32 || (j - 32) % (stride as int) == 0 && (j
                    - 32) / (stride as int) < bit_idx {
                    embedded_sample(samples@, p, stride as nat, j)
                } else {
                    samples@[j]
                },
        decreases p.len() - bi,
    {
        let byte = payload[bi];
        let mut b: usize = 8;
        while b > 0
            invariant
                32 <= n,
                samples@.len() == n,
                payload@ == p,
                payload_bits == p.len() * 8,
                bi < p.len(),
                b <= 8,
                byte == p[bi as int],
                bit_idx == bi * 8 + (8 - b),
                1 <= stride,
                stride * payload_bits <= n - 32,
                out@.len() == n,
                forall|j: int|
                    0 <= j < n ==> #[trigger] out@[j] == if j < 32 || (j - 32) % (stride as int) == 0 && (
                    j - 32) / (stride as int) < bit_idx {
                        embedded_sample(samples@, p, stride as nat, j)
                    } else {
                        samples@[j]
                    },
            decreases b,
        {
            b = b - 1;
            let bit = (byte >> (b as u8)) & 1;
            proof {
                assert(bit_idx * stride + stride <= n - 32) by (nonlinear_arith)
                    requires
                        bit_idx + 1 <= payload_bits,
                        stride * payload_bits <= n - 32,
                        stride >= 1,
                {
                }
                lemma_grid_position(bit_idx as int, stride as int);
                assert(bit_idx as int / 8 == bi as int && bit_idx as int % 8 == 7 - b) by {
                    lemma_fundamental_div_mod_converse(bit_idx as int, 8, bi as int, 7 - b);
                }
            }
            let pos = 32 + bit_idx * stride;
            if pos < out.len() {
                let v = (out[pos] & !1i16) | (bit as i16);
                out.set(pos, v);
            }
            let ghost k = bit_idx as int;
            bit_idx = bit_idx + 1;
            assert forall|j: int| 0 <= j < n implies #[trigger] out@[j] == if j < 32 || (j - 32) % (
            stride as int) == 0 && (j - 32) / (stride as int) < bit_idx {
                embedded_sample(samples@, p, stride as nat, j)
            } else {
                samples@[j]
            } by {
                if j != pos && j >= 32 && (j - 32) % (stride as int) == 0 && (j - 32) / (stride as int)
                    == k {
                    vstd::arithmetic::div_mod::lemma_fundamental_div_mod(j - 32, stride as int);
                    assert(j - 32 == stride * k);
                    vstd::arithmetic::mul::lemma_mul_is_commutative(stride as int, k);
                }
            }
        }
        bi = bi + 1;
    }
    assert forall|i: int| 0 <= i < n implies #[trigger] out@[i] == embedded_sample(
        samples@,
        p,
        stride as nat,
        i,
    ) by {
        assert(out@[i] == if i < 32 || (i - 32) % (stride as int) == 0 && (i - 32) / (stride as int)
            < bit_idx {
            embedded_sample(samples@, p, stride as nat, i)
        } else {
            samples@[i]
        });
    }
    assert(out@ =~= watermarked(samples@, author@));
    Ok(out)
}

// ── extraction ───────────────────────────────────────────────────

/// Least significant bit of sample `pos`, or 0 past the end.
pub open spec fn lsb_at(s: Seq<i16>, pos: int) -> u8 {
    if 0 <= pos < s.len() {
        (s[pos] & 1i16) as u8
    } else {
        0
    }
}

/// Sample index of bit `bit_i` (0 = least significant) of byte `byte_idx`.
pub open spec fn bit_pos(offset: int, byte_idx: int, stride: int, bit_i: int) -> int {
    offset + (byte_idx * 8 + (7 - bit_i)) * stride
}

/// The low `k` bits of byte `byte_idx` gathered from the samples' LSBs.
pub open spec fn byte_bits(s: Seq<i16>, offset: int, byte_idx: int, stride: int, k: nat) -> u8
    decreases k,
{
    if k == 0 {
        0
    } else {
        byte_bits(s, offset, byte_idx, stride, (k - 1) as nat) | (lsb_at(
            s,
            bit_pos(offset, byte_idx, stride, k - 1),
        ) << ((k - 1) as u8))
    }
}

/// Reads byte `byte_idx` of a payload stored from sample `offset` with the
/// given stride; bits that fall past the end read as 0.
pub fn read_byte_at(samples: &[i16], offset: usize, byte_idx: usize, stride: usize) -> (b: u8)
    ensures
        b == byte_bits(samples@, offset as int, byte_idx as int, stride as int, 8),
{
    let mut b: u8 = 0;
    let mut bit_i: usize = 0;
    while bit_i < 8
        invariant
            bit_i <= 8,
            b == byte_bits(samples@, offset as int, byte_idx as int, stride as int, bit_i as nat),
        decreases 8 - bit_i,
    {
        let ghost target = bit_pos(offset as int, byte_idx as int, stride as int, bit_i as int);
        let mut pos_opt: Option<usize> = None;
        if stride == 0 {
            assert((byte_idx * 8 + (7 - bit_i)) * stride == 0) by (nonlinear_arith)
                requires
                    stride == 0,
            ;
            pos_opt = Some(offset);
        } else if let Some(x) = byte_idx.checked_mul(8) {
            if let Some(y) = x.checked_add(7 - bit_i) {
                if let Some(z) = y.checked_mul(stride) {
                    assert(z >= y) by (nonlinear_arith)
                        requires
                            z == y * stride,
                            stride >= 1,
                    ;
                    pos_opt = offset.checked_add(z);
                } else {
                    assert(y * stride >= y) by (nonlinear_arith)
                        requires
                            stride >= 1,
                            y >= 0,
                    ;
                }
            } else {
                assert((x + (7 - bit_i)) * stride >= x + (7 - bit_i)) by (nonlinear_arith)
                    requires
                        stride >= 1,
                        x >= 0,
                        bit_i <= 7,
                ;
            }
        } else {
            assert((byte_idx * 8 + (7 - bit_i)) * stride >= byte_idx * 8) by (nonlinear_arith)
                requires
                    stride >= 1,
                    byte_idx >= 0,
                    bit_i <= 7,
            ;
        }
        assert(pos_opt matches Some(pos) ==> pos == target);
        assert(pos_opt is None ==> target > usize::MAX);
        let mut bit: u8 = 0;
        let n = samples.len();
        if let Some(pos) = pos_opt {
            if pos < samples.len() {
                let sp = samples[pos];
                let v = sp & 1;
                assert(0 <= v <= 1) by (bit_vector)
                    requires
                        v == sp & 1i16,
                ;
                bit = v as u8;
            }
        }
        assert(bit == lsb_at(samples@, target));
        b = b | (bit << (bit_i as u8));
        bit_i = bit_i + 1;
    }
    b
}

/// Stride bits gathered from the LSBs of the first `k` samples, most
/// significant first.
pub open spec fn stride_bits(s: Seq<i16>, k: nat) -> u32
    decreases k,
{
    if k == 0 {
        0
    } else {
        (stride_bits(s, (k - 1) as nat) << 1u32) | ((s[k - 1] & 1i16) as u32)
    }
}

/// The `u32` whose big-endian bytes are `b0..b3`.
pub open spec fn from_be_u32(b0: u8, b1: u8, b2: u8, b3: u8) -> u32 {
    ((b0 as u32) << 24u32) | ((b1 as u32) << 16u32) | ((b2 as u32) << 8u32) | (b3 as u32)
}

/// Byte `bi` of the payload read with spacing `stride`.
pub open spec fn wm_byte(s: Seq<i16>, stride: nat, bi: int) -> u8 {
    byte_bits(s, 32, bi, stride as int, 8)
}

/// What `extract_watermark` finds in `s`: the author bytes and whether their
/// CRC-32 matches the stored one.
pub open spec fn extract_spec(s: Seq<i16>) -> Result<(Seq<u8>, bool), WatermarkError> {
    if s.len() < 32 + 64 {
        Err(WatermarkError::FileTooShort)
    } else {
        let stride = stride_bits(s, 32) as nat;
        if stride == 0 || stride > s.len() {
            Err(WatermarkError::NotFound)
        } else if Seq::new(8, |bi: int| wm_byte(s, stride, bi)) != wm_magic() {
            Err(WatermarkError::NotFound)
        } else {
            let alen = wm_byte(s, stride, 8) as nat * 256 + wm_byte(s, stride, 9) as nat;
            if alen == 0 || alen > 4096 {
                Err(WatermarkError::InvalidLength)
            } else {
                let author = Seq::new(alen, |i: int| wm_byte(s, stride, 10 + i));
                let stored = from_be_u32(
                    wm_byte(s, stride, 10 + alen as int),
                    wm_byte(s, stride, 11 + alen as int),
                    wm_byte(s, stride, 12 + alen as int),
                    wm_byte(s, stride, 13 + alen as int),
                );
                Ok((author, stored == crc32_spec(author)))
            }
        }
    }
}

/// Extracts the author bytes hidden in `samples` and whether the stored
/// CRC-32 verifies them.
pub fn extract_watermark(samples: &[i16]) -> (res: Result<(Vec<u8>, bool), WatermarkError>)
    ensures
        match extract_spec(samples@) {
            Ok((a, v)) => res matches Ok((aa, vv)) && aa@ == a && vv == v,
            Err(e) => res == Err::<(Vec<u8>, bool), WatermarkError>(e),
        },
{
    let n = samples.len();
    if n < 32 + MAGIC_BITS {
        return Err(WatermarkError::FileTooShort);
    }
    let mut stride_val: u32 = 0;
    let mut i: usize = 0;
    while i < 32
        invariant
            i <= 32,
            n == samples@.len(),
            n >= 96,
            stride_val == stride_bits(samples@, i as nat),
        decreases 32 - i,
    {
        stride_val = (stride_val << 1u32) | ((samples[i] & 1) as u32);
        i = i + 1;
    }
    let stride = stride_val as usize;
    if stride == 0 || stride > n {
        return Err(WatermarkError::NotFound);
    }
    let ghost st = stride as nat;
    let mut magic: Vec<u8> = Vec::new();
    let mut bi: usize = 0;
    while bi < 8
        invariant
            bi <= 8,
            stride == st,
            magic@ =~= Seq::new(bi as nat, |k: int| wm_byte(samples@, st, k)),
        decreases 8 - bi,
    {
        let b = read_byte_at(samples, 32, bi, stride);
        magic.push(b);
        bi = bi + 1;
    }
    if !(magic[0] == 0x48 && magic[1] == 0x4F && magic[2] == 0x44 && magic[3] == 0x47 && magic[4]
        == 0x45 && magic[5] == 0x57 && magic[6] == 0x4D && magic[7] == 0x31) {
        assert(Seq::new(8, |k: int| wm_byte(samples@, st, k)) != wm_magic()) by {
            if Seq::new(8, |k: int| wm_byte(samples@, st, k)) == wm_magic() {
                assert(magic@ == wm_magic());
                assert(magic@[0] == 0x48 && magic@[1] == 0x4F && magic@[2] == 0x44 && magic@[3]
                    == 0x47 && magic@[4] == 0x45 && magic@[5] == 0x57 && magic@[6] == 0x4D
                    && magic@[7] == 0x31);
            }
        }
        return Err(WatermarkError::NotFound);
    }
    assert(magic@ =~= wm_magic());
    let len_hi = read_byte_at(samples, 32, 8, stride);
    let len_lo = read_byte_at(samples, 32, 9, stride);
    let author_len = ((len_hi as usize) << 8usize) | (len_lo as usize);
    assert(author_len == len_hi as nat * 256 + len_lo as nat) by (bit_vector)
        requires
            author_len == ((len_hi as usize) << 8usize) | (len_lo as usize),
    ;
    if author_len == 0 || author_len > 4096 {
        return Err(WatermarkError::InvalidLength);
    }
    let mut author: Vec<u8> = Vec::with_capacity(author_len);
    let mut k: usize = 0;
    while k < author_len
        invariant
            k <= author_len <= 4096,
            stride == st,
            author@ =~= Seq::new(k as nat, |i: int| wm_byte(samples@, st, 10 + i)),
        decreases author_len - k,
    {
        let b = read_byte_at(samples, 32, 10 + k, stride);
        author.push(b);
        k = k + 1;
    }
    let c0 = read_byte_at(samples, 32, 10 + author_len, stride);
    let c1 = read_byte_at(samples, 32, 10 + author_len + 1, stride);
    let c2 = read_byte_at(samples, 32, 10 + author_len + 2, stride);
    let c3 = read_byte_at(samples, 32, 10 + author_len + 3, stride);
    let crc_stored = ((c0 as u32) << 24u32) | ((c1 as u32) << 16u32) | ((c2 as u32) << 8u32) | (
    c3 as u32);
    let verified = crc_stored == crc32(author.as_slice());
    Ok((author, verified))
}

// ── the embedding is read back ───────────────────────────────────

proof fn lemma_set_lsb_reads_back(x: i16, bit: u8)
    requires
        bit <= 1,
    ensures
        ((set_lsb(x, bit) & 1i16) as u8) == bit,
        ((set_lsb(x, bit) & 1i16) as u32) == bit as u32,
{
    assert(((((x & !1i16) | (bit as i16)) & 1i16) as u8) == bit) by (bit_vector)
        requires
            bit <= 1,
    ;
    assert(((((x & !1i16) | (bit as i16)) & 1i16) as u32) == bit as u32) by (bit_vector)
        requires
            bit <= 1,
    ;
}

proof fn lemma_stride_bits(s: Seq<i16>, v: u32, k: nat)
    requires
        k <= 32,
        s.len() >= 32,
        forall|i: int| 0 <= i < 32 ==> ((#[trigger] s[i] & 1i16) as u32) == (v >> ((31 - i) as u32)) & 1,
    ensures
        k >= 1 ==> stride_bits(s, k) == v >> ((32 - k) as u32),
        k == 0 ==> stride_bits(s, k) == 0,
    decreases k,
{
    if k >= 1 {
        lemma_stride_bits(s, v, (k - 1) as nat);
        let b = (s[k - 1] & 1i16) as u32;
        assert(b == (v >> ((32 - k) as u32)) & 1);
        if k == 1 {
            assert(((0u32 << 1u32) | ((v >> 31u32) & 1)) == v >> 31u32) by (bit_vector);
        } else {
            let sh = (32 - k) as u32;
            assert(((v >> ((sh + 1) as u32)) << 1u32) | ((v >> sh) & 1) == v >> sh) by (bit_vector)
                requires
                    sh < 31,
            ;
            assert((33 - k) as u32 == (sh + 1) as u32);
        }
    }
}

proof fn lemma_byte_from_bits(s: Seq<i16>, offset: int, byte_idx: int, stride: int, x: u8)
    requires
        forall|k: int|
            0 <= k < 8 ==> #[trigger] lsb_at(s, bit_pos(offset, byte_idx, stride, k)) == (x >> (
            k as u8)) & 1,
    ensures
        byte_bits(s, offset, byte_idx, stride, 8) == x,
{
    reveal_with_fuel(byte_bits, 9);
    let b0 = lsb_at(s, bit_pos(offset, byte_idx, stride, 0));
    let b1 = lsb_at(s, bit_pos(offset, byte_idx, stride, 1));
    let b2 = lsb_at(s, bit_pos(offset, byte_idx, stride, 2));
    let b3 = lsb_at(s, bit_pos(offset, byte_idx, stride, 3));
    let b4 = lsb_at(s, bit_pos(offset, byte_idx, stride, 4));
    let b5 = lsb_at(s, bit_pos(offset, byte_idx, stride, 5));
    let b6 = lsb_at(s, bit_pos(offset, byte_idx, stride, 6));
    let b7 = lsb_at(s, bit_pos(offset, byte_idx, stride, 7));
    assert((((((((((0u8 | (b0 << 0u8)) | (b1 << 1u8)) | (b2 << 2u8)) | (b3 << 3u8)) | (b4 << 4u8))
        | (b5 << 5u8)) | (b6 << 6u8)) | (b7 << 7u8))) == x) by (bit_vector)
        requires
            b0 == (x >> 0u8) & 1,
            b1 == (x >> 1u8) & 1,
            b2 == (x >> 2u8) & 1,
            b3 == (x >> 3u8) & 1,
            b4 == (x >> 4u8) & 1,
            b5 == (x >> 5u8) & 1,
            b6 == (x >> 6u8) & 1,
            b7 == (x >> 7u8) & 1,
    ;
}

#[verifier::spinoff_prover]
proof fn lemma_payload_byte(s: Seq<i16>, author: Seq<u8>, bi: int)
    requires
        s.len() >= 32 + (author.len() + 14) * 8,
        0 <= bi < author.len() + 14,
    ensures
        wm_byte(
            watermarked(s, author),
            wm_stride(s.len(), wm_payload(author).len() * 8),
            bi,
        ) == wm_payload(author)[bi],
{
    let p = wm_payload(author);
    let bits = p.len() * 8;
    let st = wm_stride(s.len(), bits);
    let e = watermarked(s, author);
    let n = s.len();
    assert(p.len() == author.len() + 14);
    assert(st >= 1 && st * bits <= n - 32) by {
        let q = (n - 32) / (bits as int);
        assert(q >= 1 && q * bits <= n - 32) by (nonlinear_arith)
            requires
                q == (n - 32) / (bits as int),
                bits >= 1,
                n - 32 >= bits,
        {
        }
    }
    assert forall|k: int| 0 <= k < 8 implies #[trigger] lsb_at(e, bit_pos(32, bi, st as int, k)) == (
    p[bi] >> (k as u8)) & 1 by {
        let kk = bi * 8 + (7 - k);
        let pos = bit_pos(32, bi, st as int, k);
        assert(0 <= kk < bits);
        assert(kk * st + st <= n - 32) by (nonlinear_arith)
            requires
                kk + 1 <= bits,
                st * bits <= n - 32,
                st >= 1,
                kk >= 0,
        {
        }
        lemma_grid_position(kk, st as int);
        assert(pos == 32 + kk * st);
        assert(kk / 8 == bi && kk % 8 == 7 - k) by {
            lemma_fundamental_div_mod_converse(kk, 8, bi, 7 - k);
        }
        let x = p[bi];
        let bit = payload_bit(p, kk);
        assert(bit == (x >> ((7 - kk % 8) as u8)) & 1);
        let k8 = k as u8;
        assert((7 - kk % 8) as u8 == k8);
        assert(bit <= 1) by (bit_vector)
            requires
                bit == (x >> k8) & 1,
        ;
        assert(e[pos] == set_lsb(s[pos], bit));
        lemma_set_lsb_reads_back(s[pos], bit);
    }
    lemma_byte_from_bits(e, 32, bi, st as int, p[bi]);
}

/// What is embedded is extracted again, verified: for an author of 1 to 4096
/// bytes, samples long enough to hold the payload, and a stride that fits the
/// 32-bit stride field, extracting from the watermarked samples gives back the
/// author bytes with a matching CRC-32.
#[verifier::spinoff_prover]
#[verifier::rlimit(80)]
pub proof fn law_watermark_roundtrip(s: Seq<i16>, author: Seq<u8>)
    requires
        1 <= author.len() <= 4096,
        s.len() >= 32 + (author.len() + 14) * 8,
        wm_stride(s.len(), (author.len() + 14) * 8) <= u32::MAX,
    ensures
        extract_spec(watermarked(s, author)) == Ok::<(Seq<u8>, bool), WatermarkError>((author, true)),
{
    let p = wm_payload(author);
    let bits = p.len() * 8;
    let st = wm_stride(s.len(), bits);
    let e = watermarked(s, author);
    let n = s.len();
    assert(p.len() == author.len() + 14);
    assert(st >= 1 && st * bits <= n - 32) by {
        let q = (n - 32) / (bits as int);
        assert(q >= 1 && q * bits <= n - 32) by (nonlinear_arith)
            requires
                q == (n - 32) / (bits as int),
                bits >= 1,
                n - 32 >= bits,
        {
        }
    }
    assert(st <= n) by (nonlinear_arith)
        requires
            st * bits <= n - 32,
            bits >= 1,
            st >= 1,
    {
    }
    let v = st as u32;
    assert forall|i: int| 0 <= i < 32 implies ((#[trigger] e[i] & 1i16) as u32) == (v >> ((31 - i) as u32))
        & 1 by {
        let bit = (((st as u32) >> ((31 - i) as u32)) & 1) as u8;
        let sh = (31 - i) as u32;
        assert(bit <= 1 && bit as u32 == (v >> sh) & 1) by (bit_vector)
            requires
                bit == ((v >> sh) & 1) as u8,
        ;
        lemma_set_lsb_reads_back(s[i], bit);
    }
    lemma_stride_bits(e, v, 32);
    assert(v >> 0u32 == v) by (bit_vector);
    assert(stride_bits(e, 32) as nat == st);
    assert forall|bi: int| 0 <= bi < p.len() implies #[trigger] wm_byte(e, st, bi) == p[bi] by {
        lemma_payload_byte(s, author, bi);
    }
    assert(Seq::new(8, |bi: int| wm_byte(e, st, bi)) =~= wm_magic()) by {
        assert forall|bi: int| 0 <= bi < 8 implies wm_byte(e, st, bi) == wm_magic()[bi] by {
            assert(wm_byte(e, st, bi) == p[bi]);
        }
    }
    let alen = wm_byte(e, st, 8) as nat * 256 + wm_byte(e, st, 9) as nat;
    assert(wm_byte(e, st, 8) == p[8]);
    assert(wm_byte(e, st, 9) == p[9]);
    assert(alen == author.len());
    let got = Seq::new(alen, |i: int| wm_byte(e, st, 10 + i));
    assert(got =~= author) by {
        assert forall|i: int| 0 <= i < alen implies got[i] == author[i] by {
            assert(wm_byte(e, st, 10 + i) == p[10 + i]);
        }
    }
    let c = crc32_spec(author);
    let l = author.len() as int;
    assert(wm_byte(e, st, 10 + l) == p[10 + l]);
    assert(wm_byte(e, st, 11 + l) == p[11 + l]);
    assert(wm_byte(e, st, 12 + l) == p[12 + l]);
    assert(wm_byte(e, st, 13 + l) == p[13 + l]);
    assert(from_be_u32(
        (c >> 24u32) as u8,
        ((c >> 16u32) & 0xff) as u8,
        ((c >> 8u32) & 0xff) as u8,
        (c & 0xff) as u8,
    ) == c) by (bit_vector);
}

/// Embedding touches nothing but least significant bits: every watermarked
/// sample agrees with the unmarked sample in all other bits, so it differs from it
/// by at most one.
pub proof fn law_watermark_only_lsbs(s: Seq<i16>, author: Seq<u8>)
    ensures
        watermarked(s, author).len() == s.len(),
        forall|i: int|
            0 <= i < s.len() ==> (#[trigger] watermarked(s, author)[i] & !1i16) == (s[i] & !1i16)
                && -1 <= watermarked(s, author)[i] - s[i] <= 1,
{
    assert forall|i: int| 0 <= i < s.len() implies (#[trigger] watermarked(s, author)[i] & !1i16) == (
    s[i] & !1i16) && -1 <= watermarked(s, author)[i] - s[i] <= 1 by {
        let x = s[i];
        let y = watermarked(s, author)[i];
        if y != x {
            let bit: u8 = if i < 32 {
                (((wm_stride(s.len(), wm_payload(author).len() * 8) as u32) >> ((31 - i) as u32)) & 1) as u8
            } else {
                payload_bit(
                    wm_payload(author),
                    (i - 32) / (wm_stride(s.len(), wm_payload(author).len() * 8) as int),
                )
            };
            if i < 32 {
                let v = wm_stride(s.len(), wm_payload(author).len() * 8) as u32;
                let sh = (31 - i) as u32;
                assert(((v >> sh) & 1) as u8 <= 1) by (bit_vector);
            } else {
                let p = wm_payload(author);
                let k = (i - 32) / (wm_stride(s.len(), p.len() * 8) as int);
                let b = p[k / 8];
                let sh = (7 - k % 8) as u8;
                assert((b >> sh) & 1 <= 1) by (bit_vector);
            }
            assert(y == set_lsb(x, bit));
            assert(((x & !1i16) | (bit as i16)) & !1i16 == x & !1i16) by (bit_vector)
                requires
                    bit <= 1,
            ;
            assert(-1 <= ((x & !1i16) | (bit as i16)) - x <= 1) by (bit_vector)
                requires
                    bit <= 1,
            ;
        }
    }
}

} // verus!
