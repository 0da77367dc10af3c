use hodgecodec::format::{read_header, write_header, ByteReader, FormatError, HodgeFileHeader};
use hodgecodec::frame::{
    read_frame, read_frame_any, read_frame_v2, read_frame_v3, sc_from_byte, write_frame, write_frame_v2,
    write_frame_v3, BodyV2, BodyV3, DecodedFrame, FrameBits, FrameV2, FrameV3,
};
use hodgecodec::frame::{frame_v2_for_class, frame_v3_for_class, QuantV2, QuantV3};
use hodgecodec::hodge_math::ScClass;

fn header(author: Option<&str>) -> HodgeFileHeader {
    HodgeFileHeader {
        version: 3,
        sample_rate: 44100,
        channels: 1,
        frame_size: 1024,
        total_frames: 0x0102_0304_0506_0708,
        author: author.map(|s| s.to_string()),
    }
}

#[test]
fn header_bytes_layout() {
    let mut w = Vec::new();
    write_header(&mut w, &header(None));
    let mut expect = b"HODGE\x01".to_vec();
    expect.extend_from_slice(&3u32.to_le_bytes());
    expect.extend_from_slice(&44100u32.to_le_bytes());
    expect.extend_from_slice(&1u16.to_le_bytes());
    expect.extend_from_slice(&1024u32.to_le_bytes());
    expect.extend_from_slice(&0x0102_0304_0506_0708u64.to_le_bytes());
    expect.push(0);
    assert_eq!(w, expect);
}

#[test]
fn header_roundtrip_with_author() {
    let h = header(Some("MDIACH.EML © 2026"));
    let mut w = Vec::new();
    write_header(&mut w, &h);
    w.extend_from_slice(&[9, 9, 9]);
    let len = w.len();
    let mut r = ByteReader::new(w);
    let g = read_header(&mut r).unwrap();
    assert_eq!(g.version, 3);
    assert_eq!(g.sample_rate, 44100);
    assert_eq!(g.channels, 1);
    assert_eq!(g.frame_size, 1024);
    assert_eq!(g.total_frames, 0x0102_0304_0506_0708);
    assert_eq!(g.author.as_deref(), Some("MDIACH.EML © 2026"));
    assert_eq!(r.position(), len - 3);
}

#[test]
fn header_errors() {
    let mut r = ByteReader::new(b"HODG".to_vec());
    assert_eq!(read_header(&mut r).err(), Some(FormatError::UnexpectedEof));
    assert_eq!(r.position(), 4);
    let mut r = ByteReader::new(b"RIFF\x00\x00\x00\x00".to_vec());
    assert_eq!(read_header(&mut r).err(), Some(FormatError::NotHodge));
    assert_eq!(r.position(), 6);
    let mut w = Vec::new();
    write_header(&mut w, &header(Some("abc")));
    w.truncate(w.len() - 1);
    let len = w.len();
    let mut r = ByteReader::new(w);
    assert_eq!(read_header(&mut r).err(), Some(FormatError::UnexpectedEof));
    assert_eq!(r.position(), len);
}

#[test]
fn header_without_metadata_byte() {
    let mut w = Vec::new();
    write_header(&mut w, &header(None));
    w.pop();
    let mut r = ByteReader::new(w);
    let g = read_header(&mut r).unwrap();
    assert_eq!(g.author, None);
    assert_eq!(r.position(), 28);
}

#[test]
fn header_lossy_author() {
    let mut w = Vec::new();
    write_header(&mut w, &header(None));
    w.pop();
    w.push(0x4D);
    w.extend_from_slice(&2u16.to_le_bytes());
    w.extend_from_slice(&[0x61, 0xFF]);
    let mut r = ByteReader::new(w);
    let g = read_header(&mut r).unwrap();
    assert_eq!(g.author.as_deref(), Some("a\u{FFFD}"));
}

#[test]
fn sc_byte_mapping() {
    assert_eq!(sc_from_byte(1), ScClass::SC1);
    assert_eq!(sc_from_byte(2), ScClass::SC2);
    assert_eq!(sc_from_byte(3), ScClass::SC3);
    assert_eq!(sc_from_byte(0), ScClass::SC2);
    assert_eq!(sc_from_byte(200), ScClass::SC2);
    assert_eq!(ScClass::SC3.to_byte(), 3);
}

#[test]
fn frame_v1_roundtrip() {
    let f = FrameBits {
        gradient: vec![1.5f32.to_bits(), (-0.25f32).to_bits(), 0],
        solenoidal: vec![3, 4, 0xFFFF_FFFF],
        harmonic: 0.125f32.to_bits(),
        xi: 0.5f32.to_bits(),
        sc_class: ScClass::SC3,
    };
    let mut w = Vec::new();
    write_frame(&mut w, &f);
    assert_eq!(w.len(), 8 * 3 + 9);
    assert_eq!(&w[0..4], &1.5f32.to_le_bytes());
    let mut r = ByteReader::new(w);
    let g = read_frame(&mut r, 3).unwrap();
    assert_eq!(g.gradient, f.gradient);
    assert_eq!(g.solenoidal, f.solenoidal);
    assert_eq!(g.harmonic, f.harmonic);
    assert_eq!(g.xi, f.xi);
    assert_eq!(g.sc_class, ScClass::SC3);
    assert_eq!(r.remaining(), 0);
    let mut r = ByteReader::new(vec![0u8; 8 * 3 + 8]);
    assert_eq!(read_frame(&mut r, 3).err(), Some(FormatError::UnexpectedEof));
}

#[test]
fn frame_v2_dpcm_bytes_and_roundtrip() {
    let f = FrameV2 {
        body: BodyV2::Dpcm { g_max: 7, s_max: 9, gradient: vec![10, -120, 127], solenoidal: vec![0, 0, -1] },
        harmonic: 1,
        xi: 2,
        sc_class: ScClass::SC2,
    };
    let mut w = Vec::new();
    write_frame_v2(&mut w, &f);
    assert_eq!(w[0], 0x02);
    // DPCM: 10, -130 wraps to 126, 247 wraps to -9
    assert_eq!(&w[9..12], &[10u8, 126u8, 247u8]);
    assert_eq!(&w[12..15], &[0u8, 0u8, 255u8]);
    assert_eq!(w.len(), 2 * 3 + 18);
    let mut r = ByteReader::new(w);
    match read_frame_v2(&mut r, 3).unwrap() {
        FrameV2 { body: BodyV2::Dpcm { g_max, s_max, gradient, solenoidal }, harmonic, xi, sc_class } => {
            assert_eq!((g_max, s_max, harmonic, xi), (7, 9, 1, 2));
            assert_eq!(gradient, vec![10, -120, 127]);
            assert_eq!(solenoidal, vec![0, 0, -1]);
            assert_eq!(sc_class, ScClass::SC2);
        }
        _ => panic!("wrong frame type"),
    }
}

#[test]
fn frame_v2_silent_and_unknown() {
    let f = FrameV2 { body: BodyV2::Silent, harmonic: 5, xi: 6, sc_class: ScClass::SC1 };
    let mut w = Vec::new();
    write_frame_v2(&mut w, &f);
    assert_eq!(w.len(), 10);
    let mut r = ByteReader::new(w);
    let g = read_frame_v2(&mut r, 1024).unwrap();
    assert!(matches!(g.body, BodyV2::Silent));
    assert_eq!((g.harmonic, g.xi, g.sc_class), (5, 6, ScClass::SC1));
    let mut r = ByteReader::new(vec![0x12, 0, 0]);
    assert_eq!(read_frame_v2(&mut r, 4).err(), Some(FormatError::UnknownFrameType(0x12)));
    assert_eq!(r.position(), 1);
}

#[test]
fn unknown_frame_type_consumes_its_byte() {
    let silent = FrameV2 { body: BodyV2::Silent, harmonic: 7, xi: 8, sc_class: ScClass::SC1 };
    let mut w = vec![0x7F];
    write_frame_v2(&mut w, &silent);
    let mut r = ByteReader::new(w);
    assert_eq!(read_frame_v2(&mut r, 4).err(), Some(FormatError::UnknownFrameType(0x7F)));
    assert_eq!(r.position(), 1);
    let g = read_frame_v2(&mut r, 4).unwrap();
    assert_eq!((g.harmonic, g.xi), (7, 8));
    assert_eq!(r.position(), 11);
    let mut r = ByteReader::new(vec![0x02, 0, 0]);
    assert_eq!(read_frame_v3(&mut r, 4).err(), Some(FormatError::UnknownFrameType(0x02)));
    assert_eq!(r.position(), 1);
    let mut r = ByteReader::new(vec![0x05]);
    assert_eq!(read_frame_any(&mut r, 2, 4).err(), Some(FormatError::UnknownFrameType(0x05)));
    assert_eq!(r.position(), 1);
}

#[test]
fn short_frame_consumes_the_rest() {
    let mut r = ByteReader::new(vec![0x12, 1, 2, 3, 4, 5]);
    assert_eq!(read_frame_v3(&mut r, 4).err(), Some(FormatError::UnexpectedEof));
    assert_eq!(r.position(), 6);
    let mut r = ByteReader::new(vec![0x01, 1, 2]);
    assert_eq!(read_frame_v2(&mut r, 4).err(), Some(FormatError::UnexpectedEof));
    assert_eq!(r.position(), 3);
    let mut r = ByteReader::new(vec![0; 20]);
    assert_eq!(read_frame(&mut r, 4).err(), Some(FormatError::UnexpectedEof));
    assert_eq!(r.position(), 20);
    let mut r = ByteReader::new(Vec::new());
    assert_eq!(read_frame_any(&mut r, 1, 4).err(), Some(FormatError::UnexpectedEof));
    assert_eq!(r.position(), 0);
}

#[test]
fn frame_v3_block_roundtrip() {
    let f = FrameV3 {
        body: BodyV3::Block { g_max: 11, gradient: vec![-32767, 0, 32767, -2], s_max: 12, solenoidal: vec![127, -127, 0, 1] },
        harmonic: 13,
        xi: 14,
        sc_class: ScClass::SC2,
    };
    let mut w = Vec::new();
    write_frame_v3(&mut w, &f);
    assert_eq!(w[0], 0x12);
    assert_eq!(w.len(), 3 * 4 + 18);
    assert_eq!(&w[5..7], &(-32767i16).to_le_bytes());
    let mut r = ByteReader::new(w);
    match read_frame_v3(&mut r, 4).unwrap() {
        FrameV3 { body: BodyV3::Block { g_max, gradient, s_max, solenoidal }, harmonic, xi, sc_class } => {
            assert_eq!((g_max, s_max, harmonic, xi), (11, 12, 13, 14));
            assert_eq!(gradient, vec![-32767, 0, 32767, -2]);
            assert_eq!(solenoidal, vec![127, -127, 0, 1]);
            assert_eq!(sc_class, ScClass::SC2);
        }
        _ => panic!("wrong frame type"),
    }
}

#[test]
fn frame_any_dispatch() {
    let f = FrameV3 { body: BodyV3::Full { gradient: vec![1, 2], solenoidal: vec![3, 4] }, harmonic: 0, xi: 0, sc_class: ScClass::SC3 };
    let mut w = Vec::new();
    write_frame_v3(&mut w, &f);
    let mut r = ByteReader::new(w.clone());
    assert!(matches!(read_frame_any(&mut r, 3, 2), Ok(DecodedFrame::V3(_))));
    let mut r = ByteReader::new(w);
    assert_eq!(read_frame_any(&mut r, 7, 2).err(), Some(FormatError::UnsupportedVersion(7)));
    assert_eq!(r.position(), 0);
}

#[test]
fn layout_follows_class() {
    let bits = |sc| FrameBits { gradient: vec![1, 2], solenoidal: vec![3, 4], harmonic: 5, xi: 6, sc_class: sc };
    let q3 = || QuantV3 { g_max: 7, gradient: vec![8, 9], s_max: 10, solenoidal: vec![11, 12] };
    let q2 = || QuantV2 { g_max: 7, s_max: 10, gradient: vec![8, 9], solenoidal: vec![11, 12] };
    assert!(matches!(frame_v3_for_class(bits(ScClass::SC1), q3()).body, BodyV3::Silent));
    match frame_v3_for_class(bits(ScClass::SC2), q3()).body {
        BodyV3::Block { g_max, gradient, s_max, solenoidal } => {
            assert_eq!((g_max, s_max), (7, 10));
            assert_eq!(gradient, vec![8, 9]);
            assert_eq!(solenoidal, vec![11, 12]);
        }
        _ => panic!("expected block"),
    }
    match frame_v3_for_class(bits(ScClass::SC3), q3()).body {
        BodyV3::Full { gradient, solenoidal } => {
            assert_eq!(gradient, vec![1, 2]);
            assert_eq!(solenoidal, vec![3, 4]);
        }
        _ => panic!("expected full"),
    }
    assert!(matches!(frame_v2_for_class(bits(ScClass::SC1), q2()).body, BodyV2::Silent));
    assert!(matches!(frame_v2_for_class(bits(ScClass::SC2), q2()).body, BodyV2::Dpcm { .. }));
    let f = frame_v2_for_class(bits(ScClass::SC3), q2());
    assert!(matches!(f.body, BodyV2::Full { .. }));
    assert_eq!((f.harmonic, f.xi, f.sc_class), (5, 6, ScClass::SC3));
}
