use eternal_monitor::link::{IpAddress, PeerId, SocketAddress};
use eternal_monitor::sender::{
    dispatch, fragment_count, fragment_frame, serve_during_pacing, stream_epoch_after, target_ready, DeferredControl,
    DisplayWait, FrameGate, DEFERRED_LIMIT,
};

#[test]
fn stream_epochs_are_never_zero() {
    assert_eq!(stream_epoch_after(0), 1);
    assert_eq!(stream_epoch_after(41), 42);
    assert_eq!(stream_epoch_after(u32::MAX), 1);
}

#[test]
fn media_waits_for_a_usable_target() {
    assert!(target_ready(PeerId::usb(3)));
    assert!(!target_ready(PeerId { link: eternal_monitor::link::LinkId::Udp, addr: None }));
    assert!(!target_ready(PeerId::udp(SocketAddress { ip: IpAddress::V4(0), port: 5000 })));
    assert!(!target_ready(PeerId::udp(SocketAddress { ip: IpAddress::V4(0x0A00_0005), port: 0 })));
    assert!(target_ready(PeerId::udp(SocketAddress { ip: IpAddress::V4(0x0A00_0005), port: 5000 })));
    assert!(!target_ready(PeerId::udp(SocketAddress { ip: IpAddress::V6(0), port: 5000 })));
}

#[test]
fn each_session_starts_at_a_keyframe() {
    let mut gate = FrameGate::new();
    assert!(!gate.let_through(7, false), "pre-session leftovers wait for the keyframe");
    assert!(gate.let_through(7, true));
    assert!(gate.let_through(7, false));
    assert!(!gate.let_through(8, false), "a new session waits again");
    assert!(!gate.let_through(8, false));
    assert!(gate.let_through(8, true));
    assert!(gate.let_through(8, false));
}

#[test]
fn frames_split_into_numbered_fragments_under_the_cap() {
    assert_eq!(fragment_count(0, 1000), Some(1));
    assert_eq!(fragment_count(1000, 1000), Some(1));
    assert_eq!(fragment_count(1001, 1000), Some(2));
    assert_eq!(fragment_count(1024 * 1000, 1000), Some(1024));
    assert_eq!(fragment_count(1024 * 1000 + 1, 1000), None);
    let fragments = fragment_frame(9, 3, 77, true, 1234, 2500, 1000).unwrap();
    assert_eq!(fragments.len(), 3);
    assert_eq!((fragments[0].start, fragments[0].end), (0, 1000));
    assert_eq!((fragments[2].start, fragments[2].end), (2000, 2500));
    for (index, fragment) in fragments.iter().enumerate() {
        assert_eq!(fragment.header.frag_index as usize, index);
        assert_eq!(fragment.header.frag_count, 3);
        assert_eq!(fragment.header.session_id, 9);
        assert_eq!(fragment.header.stream_epoch, 3);
        assert_eq!(fragment.header.frame_seq, 77);
        assert!(fragment.header.is_keyframe && !fragment.header.is_retransmit);
        assert_eq!(fragment.header.payload_len as usize, fragment.end - fragment.start);
    }
    assert!(fragment_frame(9, 3, 77, false, 0, 0, 1000).unwrap().is_empty());
    assert!(fragment_frame(9, 3, 77, false, 0, 2_000_000, 1000).is_none());
}

#[test]
fn control_held_back_during_pacing_keeps_order_and_bound() {
    assert!(serve_during_pacing(4, 5));
    assert!(!serve_during_pacing(5, 5));
    let mut deferred = DeferredControl::new();
    for n in 0..DEFERRED_LIMIT + 3 {
        assert_eq!(deferred.defer(PeerId::usb(1), vec![n as u8]), n < DEFERRED_LIMIT);
    }
    assert_eq!(deferred.next().unwrap().1, vec![0]);
    assert_eq!(deferred.next().unwrap().1, vec![1]);
    let mut rest = 0;
    while deferred.next().is_some() {
        rest += 1;
    }
    assert_eq!(rest, DEFERRED_LIMIT - 2);
}

#[test]
fn a_new_target_clears_repair_state_and_may_restart_for_the_virtual_display() {
    let d = dispatch(true, false, None, None, DisplayWait::ExtendedWaitingForClient);
    assert!(d.clear_repair_state);
    assert!(d.restart_pipeline);
    assert_eq!(d.resend, None);
    let d = dispatch(true, false, None, None, DisplayWait::Other);
    assert!(!d.restart_pipeline);
    let d = dispatch(false, true, None, None, DisplayWait::ExtendedWaitingForClient);
    assert!(d.clear_repair_state);
    assert!(!d.restart_pipeline);
}

#[test]
fn a_repair_is_served_only_with_its_fragment_count() {
    let d = dispatch(false, false, Some((3, 9, vec![1, 4])), Some(6), DisplayWait::Other);
    assert!(!d.clear_repair_state);
    assert_eq!(d.resend, Some((3, 9, vec![1, 4], 6)));
    let d = dispatch(false, false, Some((3, 9, vec![1])), None, DisplayWait::Other);
    assert_eq!(d.resend, None);
    let d = dispatch(false, false, None, Some(6), DisplayWait::Other);
    assert_eq!(d.resend, None);
}
