use eternal_monitor::media::MEDIA_FLAG_RETRANSMIT;
use eternal_monitor::retransmit::RetransmitRing;

/// Size of each test datagram: a header's worth of bytes and a 4-byte payload.
const DGRAM: usize = 32;

fn frame(epoch: u32, seq: u32, count: u16) -> Vec<Vec<u8>> {
    (0..count)
        .map(|index| {
            let mut bytes = vec![0xAA; DGRAM];
            bytes[4] = 0x01; // keyframe flag, never the retransmit flag
            bytes[8..12].copy_from_slice(&epoch.to_le_bytes());
            bytes[12..16].copy_from_slice(&seq.to_le_bytes());
            bytes[16..18].copy_from_slice(&index.to_le_bytes());
            bytes
        })
        .collect()
}

#[test]
fn lookup_changes_only_the_retransmit_flag_and_preserves_saved_bytes() {
    let original = frame(3, 42, 3);
    let mut ring = RetransmitRing::default();
    ring.insert(3, 42, original.clone());
    let resent = ring.resend(3, 42, 3, &[0, 2], 1_000_000);
    assert_eq!(resent.len(), 2);
    for (mut bytes, index) in resent.into_iter().zip([0, 2]) {
        assert!(bytes[4] & MEDIA_FLAG_RETRANSMIT != 0);
        bytes[4] &= !MEDIA_FLAG_RETRANSMIT;
        assert_eq!(bytes, original[index]);
    }
    assert_eq!(ring.datagrams_at(0), original);
}

#[test]
fn evicts_by_count_and_bytes() {
    let now: u64 = 1_000_000;
    let mut ring = RetransmitRing::default();
    for seq in 1..=97 {
        ring.insert(1, seq, frame(1, seq, 1));
    }
    assert_eq!(ring.len(), 96);
    assert!(ring.resend(1, 1, 1, &[0], now).is_empty());
    assert_eq!(ring.resend(1, 2, 1, &[0], now).len(), 1);

    let mut small = RetransmitRing::with_limits(96, 3 * DGRAM);
    small.insert(1, 1, frame(1, 1, 2));
    small.insert(1, 2, frame(1, 2, 2));
    assert_eq!(small.len(), 1);
    assert_eq!(small.stored_bytes(), 2 * DGRAM);
    assert!(small.resend(1, 1, 2, &[0], now).is_empty());
    small.insert(1, 3, frame(1, 3, 4));
    assert_eq!(small.len(), 1, "oversized frame must not displace useful history");
}

#[test]
fn enforces_count_epoch_and_per_fragment_five_ms_limit() {
    let mut ring = RetransmitRing::default();
    ring.insert(1, 7, frame(1, 7, 2));
    let now: u64 = 1_000_000;
    assert!(ring.resend(2, 7, 2, &[0], now).is_empty());
    assert!(ring.resend(1, 7, 3, &[0], now).is_empty());
    assert!(ring.resend(1, 7, 2, &[2], now).is_empty());
    assert_eq!(ring.resend(1, 7, 2, &[0, 0], now).len(), 1);
    assert!(ring.resend(1, 7, 2, &[0], now + 4_000).is_empty());
    assert_eq!(ring.resend(1, 7, 2, &[1], now).len(), 1);
    assert_eq!(ring.resend(1, 7, 2, &[0], now + 5_000).len(), 1);
    ring.clear();
    assert_eq!(ring.stored_bytes(), 0);
    assert!(ring.resend(1, 7, 2, &[0], now).is_empty());
}

#[test]
fn reinserting_a_frame_replaces_it_and_only_the_first_64_indices_are_served() {
    let mut ring = RetransmitRing::default();
    ring.insert(1, 7, frame(1, 7, 2));
    ring.insert(1, 8, frame(1, 8, 100));
    ring.insert(1, 7, frame(1, 7, 3));
    assert_eq!(ring.len(), 2);
    assert_eq!(ring.datagrams_at(1), frame(1, 7, 3));
    assert_eq!(ring.stored_bytes(), 103 * DGRAM);
    let all: Vec<u16> = (0..100).collect();
    assert_eq!(ring.resend(1, 8, 100, &all, 1_000_000).len(), 64);
    // An empty frame is refused outright.
    ring.insert(1, 9, Vec::new());
    assert_eq!(ring.len(), 2);
    // A clock reading before the last resend counts as too soon.
    assert!(ring.resend(1, 8, 100, &[0], 999_000).is_empty());
    assert_eq!(ring.resend(1, 8, 100, &[99], 999_000).len(), 1);
}
