use eternal_monitor::link::{FramedStats, Outbound, Outgoing, CONTROL_LIMIT};
use eternal_monitor::link::{
    check_length, check_preamble, frame_datagram, framed_length, preamble_bytes, LinkError, LinkId, PeerId,
    VideoQueue, BYTE_LIMIT, FRAME_LIMIT,
};
use eternal_monitor::media::MediaHeader;
use eternal_monitor::wire::MAX_DGRAM_SIZE;

fn packet(seq: u32, keyframe: bool, index: u16, count: u16, size: usize) -> (MediaHeader, Vec<u8>) {
    let header = MediaHeader {
        session_id: 1,
        stream_epoch: 1,
        frame_seq: seq,
        frag_index: index,
        frag_count: count,
        is_keyframe: keyframe,
        is_retransmit: false,
        capture_ts_us: 1,
        payload_len: 0,
    };
    (header, vec![0xAC; size])
}

fn push(queue: &mut VideoQueue, p: (MediaHeader, Vec<u8>)) -> Result<u64, LinkError> {
    queue.push(p.0, &p.1)
}

#[test]
fn queue_holds_whole_frames_and_discards_dependencies_until_a_new_keyframe() {
    let mut queue = VideoQueue::new();
    assert_eq!(push(&mut queue, packet(1, true, 0, 2, 64)).unwrap(), 0);
    assert!(queue.pop().is_none(), "partial frames cannot reach the writer");
    push(&mut queue, packet(1, true, 1, 2, 64)).unwrap();
    push(&mut queue, packet(2, false, 0, 1, 64)).unwrap();
    assert_eq!(queue.len(), 2);
    assert_eq!(push(&mut queue, packet(3, false, 0, 2, 64)).unwrap(), 3);
    assert_eq!(queue.len(), 0);
    assert_eq!(queue.queued_bytes(), 0);
    assert_eq!(push(&mut queue, packet(3, false, 1, 2, 64)).unwrap(), 0);
    assert_eq!(push(&mut queue, packet(4, false, 0, 1, 64)).unwrap(), 1);
    assert_eq!(push(&mut queue, packet(5, true, 0, 1, 64)).unwrap(), 0);
    assert_eq!(queue.pop().unwrap().1.seq, 5);
    assert_eq!(queue.queued_bytes(), 0);
}

#[test]
fn queue_limits_bytes_even_when_a_single_keyframe_is_too_large() {
    let mut queue = VideoQueue::new();
    let mut dropped = 0;
    for index in 0..1000 {
        dropped += push(&mut queue, packet(1, true, index, 1000, MAX_DGRAM_SIZE)).unwrap();
        assert!(queue.queued_bytes() <= BYTE_LIMIT);
        assert!(queue.len() <= FRAME_LIMIT);
    }
    assert_eq!(dropped, 1);
    assert_eq!(queue.queued_bytes(), 0);
    push(&mut queue, packet(2, true, 0, 1, 64)).unwrap();
    assert_eq!(queue.pop().unwrap().1.seq, 2);
}

#[test]
fn fragments_must_continue_the_queued_access_unit() {
    let mut queue = VideoQueue::new();
    assert_eq!(push(&mut queue, packet(1, true, 1, 2, 64)), Err(LinkError::MissingFirstFragment));
    push(&mut queue, packet(1, true, 0, 3, 64)).unwrap();
    assert_eq!(push(&mut queue, packet(1, true, 2, 3, 64)), Err(LinkError::FragmentOrder));
    assert_eq!(push(&mut queue, packet(2, false, 0, 1, 64)), Err(LinkError::UnfinishedAccessUnit));
    push(&mut queue, packet(1, true, 1, 3, 64)).unwrap();
    push(&mut queue, packet(1, true, 2, 3, 64)).unwrap();
    let (revision, frame) = queue.pop().unwrap();
    assert_eq!(revision, 0);
    assert_eq!(frame.datagrams.len(), 3);
}

#[test]
fn framing_rejects_bad_preambles_and_lengths() {
    assert!(check_preamble(&preamble_bytes()).is_ok());
    assert_eq!(preamble_bytes(), b"EMLINK\x01\x00".to_vec());
    for preamble in [b"EMLINK\x02\x00", b"EMLINK\x01\x01", b"BADBAD!!"] {
        assert_eq!(check_preamble(preamble), Err(LinkError::Preamble));
    }
    for length in [0u16, 1401, u16::MAX] {
        assert_eq!(framed_length(&length.to_le_bytes()), Err(LinkError::PacketLength));
    }
    assert_eq!(framed_length(&[4, 0]), Ok(4));
    assert!(frame_datagram(&[]).is_err());
    assert!(frame_datagram(&[0; 1401]).is_err());
    let framed = frame_datagram(&[0xCA; MAX_DGRAM_SIZE]).unwrap();
    assert_eq!(&framed[..2], &(MAX_DGRAM_SIZE as u16).to_le_bytes());
    assert_eq!(framed.len(), MAX_DGRAM_SIZE + 2);
    assert_eq!(frame_datagram(&[0xFE]).unwrap(), vec![1, 0, 0xFE]);
    assert!(check_length(1).is_ok() && check_length(1400).is_ok());
}

#[test]
fn peers_name_their_link() {
    assert_eq!(PeerId::usb(7).link, LinkId::Usb { device_id: 7 });
    assert!(PeerId::usb(7).addr.is_none());
}

#[test]
fn dropped_frames_are_counted_and_force_a_keyframe() {
    let mut stats = FramedStats::default();
    assert!(!stats.record_drops(0));
    assert_eq!(stats.frames_dropped(), 0);
    assert!(stats.record_drops(3));
    assert!(stats.record_drops(2));
    assert_eq!(stats.frames_dropped(), 5);
}

#[test]
fn control_datagrams_go_first_and_their_queue_is_bounded() {
    let mut out = Outbound::new();
    let (header, bytes) = {
        let header = MediaHeader {
            session_id: 1,
            stream_epoch: 1,
            frame_seq: 9,
            frag_index: 0,
            frag_count: 1,
            is_keyframe: true,
            is_retransmit: false,
            capture_ts_us: 1,
            payload_len: 0,
        };
        (header, vec![7u8; 100])
    };
    assert_eq!(out.push_video(header, &bytes), Ok(0));
    out.push_control(&[1, 2, 3]).unwrap();
    match out.next() {
        Some(Outgoing::Control(d)) => assert_eq!(d, vec![1, 2, 3]),
        _ => panic!("control datagram expected first"),
    }
    match out.next() {
        Some(Outgoing::Video(_, frame)) => {
            assert_eq!(frame.seq, 9);
            assert_eq!(frame.datagrams, vec![bytes.clone()]);
        }
        _ => panic!("video frame expected"),
    }
    assert!(out.next().is_none());
    for _ in 0..CONTROL_LIMIT {
        out.push_control(&[0]).unwrap();
    }
    assert_eq!(out.push_control(&[0]), Err(LinkError::ControlQueueFull));
}
