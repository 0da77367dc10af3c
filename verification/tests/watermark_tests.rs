use hodgecodec::watermark::{crc32, embed_watermark, extract_watermark, read_byte_at, WatermarkError};

#[test]
fn test_crc32_stable() {
    assert_eq!(crc32(b"MDIACH.EML"), crc32(b"MDIACH.EML"));
    assert_ne!(crc32(b"MDIACH.EML"), crc32(b"other"));
}

#[test]
fn test_watermark_roundtrip() {
    let samples = vec![0i16; 44100];
    let author = "MDIACH.EML";
    let marked = embed_watermark(&samples, author.as_bytes()).unwrap();
    let (decoded, verified) = extract_watermark(&marked).unwrap();
    assert_eq!(String::from_utf8_lossy(&decoded), author);
    assert!(verified, "CRC32 verification failed");
}

#[test]
fn crc32_known_values() {
    assert_eq!(crc32(b""), 0);
    assert_eq!(crc32(b"123456789"), 0xCBF4_3926);
    assert_eq!(crc32(b"a"), 0xE8B7_BE43);
}

#[test]
fn watermark_changes_only_lsbs() {
    let samples: Vec<i16> = (0..5000).map(|i| ((i * 37) % 2001 - 1000) as i16).collect();
    let marked = embed_watermark(&samples, b"x").unwrap();
    assert_eq!(marked.len(), samples.len());
    for (a, b) in samples.iter().zip(marked.iter()) {
        assert_eq!(a & !1, b & !1);
    }
    let (author, ok) = extract_watermark(&marked).unwrap();
    assert_eq!(author, b"x".to_vec());
    assert!(ok);
}

#[test]
fn watermark_too_short() {
    let samples = vec![0i16; 100];
    // payload = 8 + 2 + 3 + 4 = 17 bytes = 136 bits
    assert_eq!(
        embed_watermark(&samples, b"abc"),
        Err(WatermarkError::TooShort { need: 32 + 136, have: 100 })
    );
}

#[test]
fn extract_errors() {
    assert_eq!(extract_watermark(&vec![0i16; 95]), Err(WatermarkError::FileTooShort));
    // zero stride
    assert_eq!(extract_watermark(&vec![0i16; 200]), Err(WatermarkError::NotFound));
    // stride 1, but no magic
    let mut s = vec![0i16; 200];
    s[31] = 1;
    assert_eq!(extract_watermark(&s), Err(WatermarkError::NotFound));
}

#[test]
fn extract_invalid_length() {
    let mut s = embed_watermark(&vec![0i16; 4000], b"ab").unwrap();
    // stride is stored in the first 32 LSBs
    let mut stride: usize = 0;
    for i in 0..32 {
        stride = (stride << 1) | (s[i] & 1) as usize;
    }
    // clear the 16 length bits: bits 64..80 of the payload
    for k in 64..80 {
        let pos = 32 + k * stride;
        s[pos] &= !1;
    }
    assert_eq!(extract_watermark(&s), Err(WatermarkError::InvalidLength));
}

#[test]
fn corrupted_author_fails_crc() {
    let mut s = embed_watermark(&vec![0i16; 4000], b"ab").unwrap();
    let mut stride: usize = 0;
    for i in 0..32 {
        stride = (stride << 1) | (s[i] & 1) as usize;
    }
    // flip the last bit of the first author byte (payload bit 87)
    let pos = 32 + 87 * stride;
    s[pos] ^= 1;
    let (author, ok) = extract_watermark(&s).unwrap();
    assert_eq!(author, vec![0x60u8, b'b']);
    assert!(!ok);
}

#[test]
fn read_byte_at_reads_msb_first_and_zero_past_end() {
    // byte 0xA5 = 1010_0101 stored with stride 1 at offset 0
    let bits = [1, 0, 1, 0, 0, 1, 0, 1];
    let s: Vec<i16> = bits.iter().map(|&b| 10 * 2 + b).collect();
    assert_eq!(read_byte_at(&s, 0, 0, 1), 0xA5);
    assert_eq!(read_byte_at(&s, 4, 0, 1), 0x50);
    assert_eq!(read_byte_at(&s, 0, usize::MAX, usize::MAX), 0);
}
