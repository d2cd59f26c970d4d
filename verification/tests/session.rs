use eternal_monitor::control::{
    ByeReason, ControlMessage, Hello2, HelloAck, HelloStatus, KeyframeReason, KeyframeRequest, Ping, ReceiverReport,
    StreamConfig, CAP_DECODE_H264, FEATURE_SUPPORTS_NACK, FEATURE_WANTS_INPUT, HOSTCAP_NACK,
};
use eternal_monitor::input::InputEvent;
use eternal_monitor::link::{IpAddress, LinkId, PeerId, SocketAddress};
use eternal_monitor::media::Nack;
use eternal_monitor::pairing::Pairing;
use eternal_monitor::session::{
    Actions, HostConfig, Session, LIVENESS_TIMEOUT_US, USB_TAKEOVER_TIMEOUT_US,
};

const MS: u64 = 1_000;
const START: u64 = 50_000_000;

fn config() -> HostConfig {
    HostConfig {
        stream_config: StreamConfig {
            stream_epoch: 7,
            width: 1280,
            height: 720,
            fps: 60,
            codec: 0,
            flags: 0,
            bitrate_bps: 15_000_000,
        },
        host_name: "TEST-HOST".to_string(),
        host_caps: 0,
    }
}

fn hello_of(nonce: u32, port: u16) -> Hello2 {
    Hello2 {
        proto_min: 2,
        proto_max: 2,
        client_nonce: nonce,
        listen_port: port,
        decoder_caps: CAP_DECODE_H264,
        feature_caps: 0,
        screen_px_w: 2420,
        screen_px_h: 1668,
        screen_pt_w: 1210,
        screen_pt_h: 834,
        refresh_hz: 120,
        device_name: "Test iPad".to_string(),
        device_id: 0,
        preferred_fps: 0,
        auth_token: [0; 16],
        pairing_code: 0,
    }
}

fn hello(nonce: u32, port: u16) -> ControlMessage {
    ControlMessage::Hello2(hello_of(nonce, port))
}

fn addr(ip: [u8; 4], port: u16) -> PeerId {
    PeerId::udp(SocketAddress { ip: IpAddress::V4(u32::from_be_bytes(ip)), port })
}

fn identified_hello(nonce: u32, device_id: u64) -> ControlMessage {
    let mut hello = hello_of(nonce, 50000);
    hello.device_id = device_id;
    hello.feature_caps = FEATURE_SUPPORTS_NACK;
    ControlMessage::Hello2(hello)
}

/// Feed a message without pairing state.
fn send(session: &mut Session, source: PeerId, id: u32, message: ControlMessage, now: u64) -> Actions {
    session.handle_control(source, id, message, &config(), &mut None, now)
}

/// Send as the currently connected client.
fn send_authed(session: &mut Session, source: PeerId, message: ControlMessage, now: u64) -> Actions {
    let id = session.session_id().unwrap_or(0);
    send(session, source, id, message, now)
}

fn tick(session: &mut Session, heartbeat: bool, now: u64) -> Actions {
    session.tick(&config(), &None, heartbeat, now)
}

fn parse_ack(actions: &Actions) -> &HelloAck {
    match &actions.replies[0].message {
        ControlMessage::HelloAck(ack) => ack,
        _ => panic!("expected an answer to the handshake"),
    }
}

#[test]
fn same_device_takes_over_usb_and_ignores_late_wifi_messages() {
    let mut session = Session::new(100);
    let now = START;
    let wifi = addr([10, 0, 0, 5], 50000);
    let usb = PeerId::usb(17);
    send(&mut session, wifi, 0, identified_hello(1, 77), now);
    let wifi_id = session.session_id().unwrap();
    assert!(session.client_supports_nack());
    let takeover = send(&mut session, usb, 0, identified_hello(1, 77), now);
    assert_eq!(takeover.new_target, Some(usb));
    assert!(takeover.force_idr);
    let usb_id = session.session_id().unwrap();
    assert_ne!(usb_id, wifi_id, "the same nonce on a new link creates a new session");
    assert!(!session.client_supports_nack());
    for id in [wifi_id, usb_id] {
        let late = send(&mut session, wifi, id, ControlMessage::Bye(ByeReason::UserDisconnect), now);
        assert!(!late.client_lost);
        assert_eq!(session.peer(), Some(usb));
    }
    let duplicate = send(&mut session, usb, 0, identified_hello(1, 77), now);
    assert!(duplicate.new_target.is_none());
    assert_eq!(parse_ack(&duplicate).session_id, usb_id);
    let wifi_retry = send(&mut session, wifi, 0, identified_hello(2, 77), now);
    assert_eq!(parse_ack(&wifi_retry).status, HelloStatus::Busy);
    assert!(!session.link_lost(LinkId::Udp).client_lost);
    assert!(session.link_lost(usb.link).client_lost);
    let fallback = send(&mut session, wifi, 0, identified_hello(3, 77), now);
    assert_eq!(fallback.new_target, Some(wifi));
}

#[test]
fn identified_foreign_device_is_busy_even_on_the_same_ip() {
    let mut session = Session::new(100);
    let now = START;
    let wifi = addr([10, 0, 0, 5], 50000);
    send(&mut session, wifi, 0, identified_hello(1, 77), now);
    for source in [wifi, PeerId::usb(17)] {
        let foreign = send(&mut session, source, 0, identified_hello(2, 88), now);
        assert_eq!(parse_ack(&foreign).status, HelloStatus::Busy);
        assert!(foreign.new_target.is_none());
    }
    let new_ip = addr([10, 0, 0, 6], 50000);
    let same_device = send(&mut session, new_ip, 0, identified_hello(3, 77), now);
    assert_eq!(same_device.new_target, Some(new_ip));
}

#[test]
fn wifi_goodbye_preserves_the_display_until_usb_takes_over() {
    let mut session = Session::new(100);
    let now = START;
    let wifi = addr([10, 0, 0, 5], 50000);
    let usb = PeerId::usb(17);
    send(&mut session, wifi, 0, identified_hello(1, 77), now);
    let wifi_id = session.session_id().unwrap();
    let bye = send(&mut session, wifi, wifi_id, ControlMessage::Bye(ByeReason::Superseded), now);
    assert!(!bye.client_lost);
    assert_eq!(session.peer(), Some(wifi));
    let later = now + USB_TAKEOVER_TIMEOUT_US / 2;
    let foreign = send(&mut session, usb, 0, identified_hello(2, 88), later);
    assert_eq!(parse_ack(&foreign).status, HelloStatus::Busy);
    let takeover = send(&mut session, usb, 0, identified_hello(2, 77), later);
    assert_eq!(takeover.new_target, Some(usb));
    assert!(takeover.force_idr);
    assert!(!takeover.client_lost);
    assert_ne!(session.session_id(), Some(wifi_id));
    assert!(!tick(&mut session, false, now + USB_TAKEOVER_TIMEOUT_US).client_lost);
}

#[test]
fn missing_usb_takeover_expires_and_late_wifi_traffic_cannot_extend_it() {
    let mut session = Session::new(100);
    let now = START;
    let wifi = addr([10, 0, 0, 5], 50000);
    send(&mut session, wifi, 0, identified_hello(1, 77), now);
    let id = session.session_id().unwrap();
    send(&mut session, wifi, id, ControlMessage::Bye(ByeReason::Superseded), now);
    let late = send(
        &mut session,
        wifi,
        id,
        ControlMessage::ReceiverReport(ReceiverReport::default()),
        now + USB_TAKEOVER_TIMEOUT_US / 2,
    );
    assert!(late.report.is_none());
    let expired = tick(&mut session, false, now + USB_TAKEOVER_TIMEOUT_US);
    assert!(expired.client_lost);
    assert!(!session.is_active());
    for (peer, device_id, reason) in [
        (wifi, 0, ByeReason::Superseded),
        (wifi, 77, ByeReason::UserDisconnect),
        (PeerId::usb(17), 77, ByeReason::Superseded),
    ] {
        send(&mut session, peer, 0, identified_hello(2, device_id), now);
        let bye = send_authed(&mut session, peer, ControlMessage::Bye(reason), now);
        assert!(bye.client_lost, "grace only applies to an identified WiFi takeover");
        assert!(!session.is_active());
    }
}

#[test]
fn legacy_identity_stays_on_its_link_and_usb_never_requests_retransmits() {
    let mut session = Session::new(100);
    let now = START;
    send(&mut session, addr([10, 0, 0, 5], 50000), 0, hello(1, 50000), now);
    let usb = PeerId::usb(17);
    let unknown = send(&mut session, usb, 0, hello(2, 50000), now);
    assert_eq!(parse_ack(&unknown).status, HelloStatus::Busy);
    session.link_lost(LinkId::Udp);
    send(&mut session, usb, 0, identified_hello(3, 77), now);
    let id = session.session_id().unwrap();
    let nack = ControlMessage::Nack(Nack { stream_epoch: 7, frame_seq: 42, frag_count: 1, missing: vec![0] });
    assert!(send(&mut session, usb, id, nack, now).retransmit.is_none());
}

fn nack_message() -> ControlMessage {
    ControlMessage::Nack(Nack { stream_epoch: 7, frame_seq: 42, frag_count: 9, missing: vec![0, 8] })
}

#[test]
fn nack_requires_capability_peer_and_session_and_extends_liveness() {
    let mut session = Session::new(1234);
    let now = START;
    let peer = addr([10, 0, 0, 5], 50000);
    send(&mut session, peer, 0, hello(1, 50000), now);
    assert!(!session.client_supports_nack());
    assert!(send_authed(&mut session, peer, nack_message(), now).retransmit.is_none());

    let mut wants = hello_of(2, 50000);
    wants.feature_caps = FEATURE_SUPPORTS_NACK;
    let actions = send(&mut session, peer, 0, ControlMessage::Hello2(wants), now);
    assert_eq!(parse_ack(&actions).host_caps & HOSTCAP_NACK, HOSTCAP_NACK);
    let id = session.session_id().unwrap();
    assert!(session.client_supports_nack());
    assert!(send(&mut session, peer, id + 1, nack_message(), now).retransmit.is_none());
    assert!(send(&mut session, addr([10, 0, 0, 9], 50000), id, nack_message(), now).retransmit.is_none());
    let later = now + 2_000 * MS;
    assert_eq!(send(&mut session, peer, id, nack_message(), later).retransmit, Some((7, 42, vec![0, 8])));
    assert!(!tick(&mut session, false, now + 4_000 * MS).client_lost);
}

#[test]
fn first_hello_establishes_session_and_targets_media() {
    let mut session = Session::new(1234);
    let now = START;
    let peer = addr([10, 0, 0, 5], 50000);

    let actions = send_authed(&mut session, peer, hello(1, 50000), now);

    assert_eq!(actions.replies.len(), 1);
    let ack = parse_ack(&actions);
    assert_eq!(ack.status, HelloStatus::Accepted);
    assert_ne!(ack.session_id, 0);
    assert_eq!(ack.liveness_timeout_ms, 3000);
    assert_eq!(actions.new_target, Some(addr([10, 0, 0, 5], 50000)));
    assert!(actions.force_idr);
    assert!(session.is_active());

    let info = session.client_info().unwrap();
    assert_eq!(info.screen_px, (2420, 1668));
    assert_eq!(info.refresh_hz, 120, "panel refresh feeds the VDD mode list");
}

#[test]
fn duplicate_nonce_gets_identical_ack_without_new_session() {
    let mut session = Session::new(1234);
    let now = START;
    let peer = addr([10, 0, 0, 5], 50000);

    let first = send_authed(&mut session, peer, hello(1, 50000), now);
    let first_id = parse_ack(&first).session_id;

    let dup = send_authed(&mut session, peer, hello(1, 50000), now);
    assert_eq!(parse_ack(&dup).session_id, first_id);
    assert!(dup.new_target.is_none(), "retransmit must not re-target");
    assert!(!dup.force_idr);
}

#[test]
fn new_nonce_from_same_ip_supersedes_in_place() {
    let mut session = Session::new(1234);
    let now = START;
    let peer = addr([10, 0, 0, 5], 50000);
    let first = send_authed(&mut session, peer, hello(1, 50000), now);
    let first_id = parse_ack(&first).session_id;

    // App relaunched: new ephemeral source port, new nonce.
    let relaunched = addr([10, 0, 0, 5], 50101);
    let second = send_authed(&mut session, relaunched, hello(2, 50101), now);
    let second_id = parse_ack(&second).session_id;

    assert_ne!(second_id, first_id, "supersede must mint a fresh session id");
    assert_eq!(second.new_target, Some(addr([10, 0, 0, 5], 50101)));
    assert!(second.force_idr);
}

#[test]
fn different_ip_is_rejected_busy_while_active() {
    let mut session = Session::new(1234);
    let now = START;
    send_authed(&mut session, addr([10, 0, 0, 5], 50000), hello(1, 50000), now);

    let intruder = addr([10, 0, 0, 9], 40000);
    let actions = send_authed(&mut session, intruder, hello(9, 40000), now);
    let ack = parse_ack(&actions);
    assert_eq!(ack.status, HelloStatus::Busy);
    assert_eq!(ack.session_id, 0);
    assert!(actions.new_target.is_none());
    assert_eq!(session.peer(), Some(addr([10, 0, 0, 5], 50000)));
}

#[test]
fn unsupported_version_is_refused() {
    let mut session = Session::new(1234);
    let now = START;
    let peer = addr([10, 0, 0, 5], 50000);
    let msg = ControlMessage::Hello2(Hello2 {
        proto_min: 3,
        proto_max: 4,
        client_nonce: 1,
        listen_port: 50000,
        decoder_caps: CAP_DECODE_H264,
        feature_caps: 0,
        screen_px_w: 1,
        screen_px_h: 1,
        screen_pt_w: 1,
        screen_pt_h: 1,
        refresh_hz: 60,
        device_name: String::new(),
        device_id: 0,
        preferred_fps: 0,
        auth_token: [0; 16],
        pairing_code: 0,
    });
    let actions = send_authed(&mut session, peer, msg, now);
    assert_eq!(parse_ack(&actions).status, HelloStatus::VersionUnsupported);
    assert!(!session.is_active());
}

#[test]
fn bye_and_liveness_expiry_tear_down() {
    let mut session = Session::new(1234);
    let now = START;
    let peer = addr([10, 0, 0, 5], 50000);
    send_authed(&mut session, peer, hello(1, 50000), now);

    let bye = send_authed(&mut session, peer, ControlMessage::Bye(ByeReason::UserDisconnect), now);
    assert!(bye.client_lost);
    assert!(!session.is_active());

    // Re-establish, then let liveness lapse.
    send_authed(&mut session, peer, hello(2, 50000), now);
    let expired = tick(&mut session, false, now + LIVENESS_TIMEOUT_US);
    assert!(expired.client_lost);
    assert!(!session.is_active());
}

#[test]
fn reports_extend_liveness_and_are_stored() {
    let mut session = Session::new(1234);
    let now = START;
    let peer = addr([10, 0, 0, 5], 50000);
    send_authed(&mut session, peer, hello(1, 50000), now);

    let later = now + 2_500 * MS;
    let report = ReceiverReport { frames_complete: 99, ..ReceiverReport::default() };
    send_authed(&mut session, peer, ControlMessage::ReceiverReport(report), later);

    // Would have expired at now+3s without the report.
    let ticked = tick(&mut session, false, now + 4_000 * MS);
    assert!(!ticked.client_lost);
    assert_eq!(session.last_report().unwrap().frames_complete, 99);

    // Expires 3s after the report.
    let expired = tick(&mut session, false, later + LIVENESS_TIMEOUT_US);
    assert!(expired.client_lost);
}

fn keyframe_request() -> ControlMessage {
    ControlMessage::KeyframeRequest(KeyframeRequest { stream_epoch: 7, last_complete_seq: 10, reason: KeyframeReason::GapLoss })
}

#[test]
fn keyframe_requests_are_rate_limited() {
    let mut session = Session::new(1234);
    let now = START;
    let peer = addr([10, 0, 0, 5], 50000);
    send_authed(&mut session, peer, hello(1, 50000), now);

    let first = send_authed(&mut session, peer, keyframe_request(), now);
    assert!(first.force_idr);

    let spammed = send_authed(&mut session, peer, keyframe_request(), now + 100 * MS);
    assert!(!spammed.force_idr, "requests inside the window are coalesced");

    let granted_again = send_authed(&mut session, peer, keyframe_request(), now + 600 * MS);
    assert!(granted_again.force_idr);
}

fn input_event(event_id: u32) -> ControlMessage {
    ControlMessage::InputEvent(InputEvent {
        input_ver: 1,
        kind: 0,
        phase: 0,
        buttons: 1,
        event_id,
        x_norm: 100,
        y_norm: 100,
        pressure_x1000: 0,
        scroll_dx: 0,
        scroll_dy: 0,
        keycode: 0,
        modifiers: 0,
        client_time_us: 0,
        tilt_x: 0,
        tilt_y: 0,
    })
}

#[test]
fn input_relayed_only_for_sessions_that_asked() {
    let mut session = Session::new(1234);
    let now = START;
    let peer = addr([10, 0, 0, 5], 50000);

    // View-only session: input is dropped.
    send_authed(&mut session, peer, hello(1, 50000), now);
    let dropped = send_authed(&mut session, peer, input_event(1), now);
    assert!(dropped.input.is_none(), "view-only sessions must not inject");

    // Re-handshake asking for input relay.
    let mut wants = hello_of(2, 50000);
    wants.feature_caps = FEATURE_WANTS_INPUT;
    send_authed(&mut session, peer, ControlMessage::Hello2(wants), now);

    let relayed = send_authed(&mut session, peer, input_event(2), now);
    assert!(relayed.input.is_some());

    // A different IP can't inject into this session.
    let intruder = addr([10, 0, 0, 9], 40000);
    let foreign = send_authed(&mut session, intruder, input_event(3), now);
    assert!(foreign.input.is_none());
}

#[test]
fn control_messages_need_the_negotiated_session_id() {
    let mut session = Session::new(1234);
    let now = START;
    let peer = addr([10, 0, 0, 5], 50000);
    let mut wants = hello_of(1, 50000);
    wants.feature_caps = FEATURE_WANTS_INPUT;
    send(&mut session, peer, 0, ControlMessage::Hello2(wants), now);
    let live = session.session_id().unwrap();

    // Same source address, wrong session id.
    let wrong = live.wrapping_add(1);
    assert!(send(&mut session, peer, wrong, input_event(1), now).input.is_none());
    assert!(send(&mut session, peer, wrong, ControlMessage::ReceiverReport(ReceiverReport::default()), now).report.is_none());
    let bye = send(&mut session, peer, wrong, ControlMessage::Bye(ByeReason::UserDisconnect), now);
    assert!(!bye.client_lost, "a foreign BYE must not tear the session down");
    assert!(session.is_active());

    // The real client still works.
    assert!(send(&mut session, peer, live, input_event(2), now).input.is_some());
}

#[test]
fn input_extends_liveness() {
    let mut session = Session::new(1234);
    let now = START;
    let peer = addr([10, 0, 0, 5], 50000);
    let mut wants = hello_of(1, 50000);
    wants.feature_caps = FEATURE_WANTS_INPUT;
    send_authed(&mut session, peer, ControlMessage::Hello2(wants), now);

    // A drag mid-window keeps the session alive past the original deadline.
    let later = now + 2_500 * MS;
    send_authed(&mut session, peer, input_event(1), later);
    let ticked = tick(&mut session, false, now + 4_000 * MS);
    assert!(!ticked.client_lost);
}

#[test]
fn heartbeats_flow_only_while_active() {
    let mut session = Session::new(1234);
    let now = START;
    assert!(tick(&mut session, true, now).replies.is_empty());

    let peer = addr([10, 0, 0, 5], 50000);
    send_authed(&mut session, peer, hello(1, 50000), now);
    let ticked = tick(&mut session, true, now + 100 * MS);
    assert_eq!(ticked.replies.len(), 1);
    assert!(matches!(ticked.replies[0].message, ControlMessage::Heartbeat(_)));
}

#[test]
fn pings_are_answered_with_the_host_clock_in_sequence() {
    let mut session = Session::new(1234);
    let now = START;
    let peer = addr([10, 0, 0, 5], 50000);
    send_authed(&mut session, peer, hello(1, 50000), now);
    let pong = send_authed(&mut session, peer, ControlMessage::Ping(Ping { t1_us: 42 }), now + 5);
    assert_eq!(pong.replies.len(), 1);
    assert_eq!(pong.replies[0].msg_seq, 2);
    match &pong.replies[0].message {
        ControlMessage::Pong(p) => assert_eq!((p.t1_us, p.t2_us, p.t3_us), (42, now + 5, now + 5)),
        _ => panic!("expected a pong"),
    }
    assert!(session.note_legacy_hello(peer));
    assert!(!session.note_legacy_hello(peer));
}

fn pair_config(required: bool) -> Option<Pairing> {
    Some(Pairing::new(required, [7; 16]).unwrap())
}

fn pair_hello(nonce: u32) -> Hello2 {
    let mut hello = hello_of(nonce, 50000);
    hello.device_id = 17;
    hello
}

fn pair_send(session: &mut Session, pairing: &mut Option<Pairing>, peer: PeerId, hello: Hello2, now: u64) -> Actions {
    session.handle_control(peer, 0, ControlMessage::Hello2(hello), &config(), pairing, now)
}

fn code(pairing: &Option<Pairing>) -> u32 {
    pairing.as_ref().unwrap().code()
}

#[test]
fn retransmitted_rejected_handshake_is_one_pairing_attempt() {
    let mut pairing = pair_config(true);
    let mut session = Session::new(10);
    let peer = addr([192, 0, 2, 1], 50000);
    let now = START;
    let mut hello = pair_hello(1);
    for retry in 0..8 {
        let actions = pair_send(&mut session, &mut pairing, peer, hello.duplicate(), now + retry * 300 * MS);
        let ack = parse_ack(&actions);
        assert_eq!(ack.status, HelloStatus::Unauthorized);
        assert_eq!(ack.auth_token, [0; 16]);
    }
    hello.client_nonce = 2;
    hello.pairing_code = code(&pairing);
    let actions = pair_send(&mut session, &mut pairing, peer, hello, now + 3_000 * MS);
    assert_eq!(parse_ack(&actions).status, HelloStatus::Accepted);
}

#[test]
fn changing_credentials_with_the_same_nonce_still_counts_as_guesses() {
    let mut pairing = pair_config(true);
    let mut session = Session::new(10);
    let peer = addr([192, 0, 2, 1], 50000);
    let now = START;
    let mut hello = pair_hello(1);
    for guess in 1..=5 {
        hello.pairing_code = 1_000_000 + guess;
        let actions = pair_send(&mut session, &mut pairing, peer, hello.duplicate(), now);
        assert_eq!(
            parse_ack(&actions).status,
            if guess == 5 { HelloStatus::RateLimited } else { HelloStatus::Unauthorized }
        );
    }
}

fn same_reply(a: &Actions, b: &Actions) -> bool {
    let (x, y) = (parse_ack(a), parse_ack(b));
    a.replies.len() == b.replies.len()
        && a.replies[0].peer == b.replies[0].peer
        && a.replies[0].session_id == b.replies[0].session_id
        && a.replies[0].msg_seq == b.replies[0].msg_seq
        && x.status == y.status
        && x.client_nonce == y.client_nonce
        && x.session_id == y.session_id
        && x.auth_token == y.auth_token
        && x.host_name == y.host_name
        && x.host_caps == y.host_caps
        && x.stream_config == y.stream_config
}

#[test]
fn pairing_required_code_rotation_retry_token_and_regeneration() {
    let mut pairing = pair_config(true);
    let mut session = Session::new(10);
    let peer = addr([192, 0, 2, 1], 50000);
    let now = START;
    let mut hello = pair_hello(1);
    let rejected = pair_send(&mut session, &mut pairing, peer, hello.duplicate(), now);
    assert_eq!(parse_ack(&rejected).status, HelloStatus::Unauthorized);
    assert_eq!(parse_ack(&rejected).auth_token, [0; 16]);
    assert!(rejected.new_target.is_none());
    assert!(!session.is_active());
    hello.pairing_code = code(&pairing);
    let accepted = pair_send(&mut session, &mut pairing, peer, hello.duplicate(), now);
    let ack = parse_ack(&accepted);
    assert_eq!(ack.status, HelloStatus::Accepted);
    assert_eq!(ack.auth_token, [7; 16]);
    assert_ne!(code(&pairing), hello.pairing_code);
    let duplicate = pair_send(&mut session, &mut pairing, peer, hello.duplicate(), now);
    assert!(same_reply(&duplicate, &accepted));
    assert!(duplicate.new_target.is_none());
    let mut modified = hello.duplicate();
    modified.listen_port += 1;
    assert_eq!(
        parse_ack(&pair_send(&mut session, &mut pairing, peer, modified, now)).status,
        HelloStatus::Unauthorized
    );
    hello.client_nonce += 1;
    assert_eq!(
        parse_ack(&pair_send(&mut session, &mut pairing, peer, hello.duplicate(), now)).status,
        HelloStatus::Unauthorized
    );
    hello.auth_token = ack.auth_token;
    hello.pairing_code = 0;
    let reconnected = pair_send(&mut session, &mut pairing, peer, hello.duplicate(), now);
    assert_eq!(parse_ack(&reconnected).status, HelloStatus::Accepted);
    assert_ne!(parse_ack(&reconnected).session_id, ack.session_id);
    pairing.as_mut().unwrap().regenerate_token().unwrap();
    let stale = pair_send(&mut session, &mut pairing, peer, hello, now);
    assert_eq!(parse_ack(&stale).status, HelloStatus::Unauthorized);
    assert_eq!(parse_ack(&stale).auth_token, [0; 16]);
    assert!(session.tick(&config(), &pairing, false, now).client_lost);
    assert!(!session.is_active());
}

#[test]
fn pairing_optional_usb_and_busy_do_not_consume_a_code() {
    let peer = addr([192, 0, 2, 1], 50000);
    let now = START;
    let mut pairing = pair_config(false);
    let mut session = Session::new(10);
    let accepted = pair_send(&mut session, &mut pairing, peer, pair_hello(1), now);
    assert_eq!(parse_ack(&accepted).status, HelloStatus::Accepted);
    assert_eq!(parse_ack(&accepted).auth_token, [0; 16]);
    pairing.as_mut().unwrap().required = true;
    // Requiring pairing now must invalidate the unpaired duplicate too.
    assert_eq!(
        parse_ack(&pair_send(&mut session, &mut pairing, peer, pair_hello(1), now)).status,
        HelloStatus::Unauthorized
    );
    assert!(session.tick(&config(), &pairing, false, now).client_lost);
    let usb = PeerId { link: LinkId::Usb { device_id: 1 }, addr: None };
    let current = code(&pairing);
    let accepted = pair_send(&mut session, &mut pairing, usb, pair_hello(2), now);
    assert_eq!(parse_ack(&accepted).status, HelloStatus::Accepted);
    assert_eq!(parse_ack(&accepted).auth_token, [7; 16]);
    assert_eq!(code(&pairing), current);
    let mut foreign = pair_hello(3);
    foreign.device_id += 1;
    foreign.pairing_code = current;
    let busy = pair_send(&mut session, &mut pairing, peer, foreign, now);
    assert_eq!(parse_ack(&busy).status, HelloStatus::Busy);
    assert_eq!(parse_ack(&busy).auth_token, [0; 16]);
    assert_eq!(code(&pairing), current);
}

#[test]
fn pairing_rate_limit_blocks_code_guesses_but_preserves_paired_and_usb_access() {
    let mut pairing = pair_config(true);
    let now = START;
    let peer = addr([192, 0, 2, 1], 50000);
    let mut session = Session::new(10);
    for nonce in 1..=5 {
        let actions = pair_send(&mut session, &mut pairing, peer, pair_hello(nonce), now);
        let ack = parse_ack(&actions);
        assert_eq!(ack.status, if nonce == 5 { HelloStatus::RateLimited } else { HelloStatus::Unauthorized });
        assert_eq!(ack.auth_token, [0; 16]);
    }
    let mut hello = pair_hello(6);
    hello.pairing_code = code(&pairing);
    assert_eq!(
        parse_ack(&pair_send(&mut session, &mut pairing, peer, hello.duplicate(), now)).status,
        HelloStatus::RateLimited
    );
    hello.auth_token = [7; 16];
    assert_eq!(
        parse_ack(&pair_send(&mut session, &mut pairing, peer, hello.duplicate(), now)).status,
        HelloStatus::Accepted
    );
    hello.auth_token = [0; 16];
    hello.client_nonce += 1;
    assert_eq!(
        parse_ack(&pair_send(&mut session, &mut pairing, peer, hello, now + 60_000 * MS)).status,
        HelloStatus::Accepted
    );
}
