use hodgecodec::shazam_baseline::{hashes_from_peaks, pack_hash, ShazamFingerprint};
use std::collections::HashSet;

#[test]
fn pack_hash_layout() {
    assert_eq!(pack_hash(3, 5, 7), (3 << 18) | (5 << 8) | 7);
    assert_eq!(pack_hash(0, 0, 1), 1);
}

#[test]
fn pairs_of_neighbouring_frames() {
    let frames = vec![vec![10, 11], vec![20], vec![]];
    let h = hashes_from_peaks(&frames);
    let expect: HashSet<u64> = [pack_hash(10, 20, 1), pack_hash(11, 20, 1)].into_iter().collect();
    assert_eq!(h, expect);
}

#[test]
fn fan_out_and_distance_limits() {
    // 7 peaks in frame 0, one peak in each of 24 later frames
    let mut frames = vec![vec![1usize, 2, 3, 4, 5, 6, 7]];
    for t in 1..25 {
        frames.push(vec![100 + t]);
    }
    let h = hashes_from_peaks(&frames);
    // from frame 0: 5 peaks x 19 distances; each later frame t pairs with the next min(19, 24 - t) frames
    let mut count = 5 * 19;
    for t in 1..25usize {
        count += std::cmp::min(19, 24 - t);
    }
    assert_eq!(h.len(), count);
    assert!(!h.contains(&pack_hash(6, 101, 1)));
    assert!(!h.contains(&pack_hash(1, 120, 20)));
    assert!(h.contains(&pack_hash(5, 119, 19)));
}

#[test]
fn overlap_counts() {
    let a = ShazamFingerprint { hashes: [1u64, 2, 3, 4].into_iter().collect() };
    let b = ShazamFingerprint { hashes: [3u64, 4, 5].into_iter().collect() };
    let e = ShazamFingerprint { hashes: HashSet::new() };
    assert_eq!(a.overlap(&b), Some((2, 3)));
    assert_eq!(b.overlap(&a), Some((2, 3)));
    assert_eq!(a.overlap(&a), Some((4, 4)));
    assert_eq!(a.overlap(&e), None);
}
