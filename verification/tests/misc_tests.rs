use hodgecodec::windowing::ola_windows;
use hodgecodec::container::{compress_hodge_bytes, unwrap_hodge_bytes, LoadError};
use hodgecodec::format::HodgeFileHeader;
use hodgecodec::hodge_math::ScClass;
use hodgecodec::mixer::{mix_header, MixError};
use hodgecodec::encoder::encode_header;
use hodgecodec::quant::quant_byte_size;

fn hdr(fs: u32, sr: u32, frames: u64, author: Option<&str>) -> HodgeFileHeader {
    HodgeFileHeader { version: 3, sample_rate: sr, channels: 2, frame_size: fs, total_frames: frames, author: author.map(|s| s.to_string()) }
}

#[test]
fn mix_header_takes_shorter_stream_and_first_author() {
    let h = mix_header(&hdr(1024, 44100, 10, None), &hdr(1024, 44100, 7, Some("b"))).unwrap();
    assert_eq!((h.version, h.sample_rate, h.channels, h.frame_size, h.total_frames), (1, 44100, 1, 1024, 7));
    assert_eq!(h.author.as_deref(), Some("b"));
    let h = mix_header(&hdr(1024, 44100, 3, Some("a")), &hdr(1024, 44100, 7, Some("b"))).unwrap();
    assert_eq!(h.total_frames, 3);
    assert_eq!(h.author.as_deref(), Some("a"));
}

#[test]
fn mix_header_mismatches() {
    assert_eq!(mix_header(&hdr(512, 1, 1, None), &hdr(1024, 2, 1, None)).err(), Some(MixError::FrameSizeMismatch(512, 1024)));
    assert_eq!(mix_header(&hdr(512, 1, 1, None), &hdr(512, 2, 1, None)).err(), Some(MixError::SampleRateMismatch(1, 2)));
}

#[test]
fn quant_sizes() {
    // SC1: 1+2+4 + 256/2 + 4 + 0 + 1
    assert_eq!(quant_byte_size(ScClass::SC1, 256, &[1, 2, 3]), 140);
    // SC2: 12 + 512 + 2 non-zero
    assert_eq!(quant_byte_size(ScClass::SC2, 256, &[0, 5, 0, -1]), 526);
    assert_eq!(quant_byte_size(ScClass::SC3, 0, &[]), 12);
}

#[test]
fn plain_bytes_pass_through() {
    let data = b"HODGE\x01rest".to_vec();
    assert_eq!(unwrap_hodge_bytes(data.clone()), Ok(data));
    assert_eq!(unwrap_hodge_bytes(vec![1, 2, 3]), Err(LoadError::UnexpectedEof));
}

#[test]
fn zstd_wrapped_stream_is_unwrapped() {
    let data: Vec<u8> = (0..5000u32).map(|i| (i % 7) as u8).collect();
    let packed = compress_hodge_bytes(&data).unwrap();
    assert_eq!(&packed[..4], &[0x28, 0xB5, 0x2F, 0xFD]);
    assert_ne!(packed, data);
    assert_eq!(unwrap_hodge_bytes(packed), Ok(data));
}

#[test]
fn corrupt_zstd_is_refused() {
    assert_eq!(unwrap_hodge_bytes(vec![0x28, 0xB5, 0x2F, 0xFD, 0, 0, 0]), Err(LoadError::Decompress));
}

#[test]
fn ola_window_positions() {
    assert_eq!(ola_windows(0), vec![]);
    assert_eq!(ola_windows(300), vec![(0, 256), (128, 300), (256, 300)]);
    assert_eq!(ola_windows(256), vec![(0, 256), (128, 256)]);
    assert_eq!(ola_windows(1), vec![(0, 1)]);
}

#[test]
fn encode_header_counts_padded_frames() {
    let h = encode_header(44100, 44100, true, Some("me".to_string()));
    assert_eq!((h.version, h.sample_rate, h.channels, h.frame_size, h.total_frames), (3, 44100, 1, 1024, 44));
    assert_eq!(h.author.as_deref(), Some("me"));
    let h = encode_header(2048, 48000, false, None);
    assert_eq!((h.version, h.sample_rate, h.channels, h.frame_size, h.total_frames), (1, 48000, 1, 1024, 2));
    assert_eq!(h.author, None);
    assert_eq!(encode_header(0, 8000, false, None).total_frames, 0);
    assert_eq!(encode_header(1, 8000, false, None).total_frames, 1);
    assert_eq!(encode_header(1025, 8000, true, None).total_frames, 2);
}
