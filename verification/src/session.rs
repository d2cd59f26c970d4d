//! Single-client session state machine with an injected clock.
//!
//! The transport feeds it inbound control messages and time ticks; it
//! returns actions (replies, a new media target, keyframe and teardown
//! signals) for the transport to carry out. Every rule lives here: busy
//! rejection, supersede in place, duplicate-handshake idempotency, liveness
//! expiry, the cable takeover grace, and keyframe-request rate limiting.
//!
//! Instants are microsecond readings of one monotonic clock.

use vstd::prelude::*;
use crate::control::{
    bytes16_eq, nack_valid, nack_validate, same_hello, ByeReason, ControlMessage, Heartbeat, Hello2, HelloAck,
    HelloStatus, HelloView, Ping, Pong, ReceiverReport, StreamConfig, FEATURE_SUPPORTS_NACK, FEATURE_WANTS_AUDIO,
    FEATURE_WANTS_INPUT, CAP_DECODE_HEVC, HOSTCAP_NACK,
};
use crate::input::InputEvent;
use crate::link::{IpAddress, LinkId, PeerId, SocketAddress};
use crate::media::Nack;
use crate::pairing::{authorize_spec, sat_add, zero_token, Grant, Pairing, PairingView};

verus! {

/// Host-dictated timing, advertised to the client in the handshake answer.
pub const HEARTBEAT_INTERVAL_MS: u16 = 1000;
pub const REPORT_INTERVAL_MS: u16 = 500;
pub const LIVENESS_TIMEOUT_MS: u16 = 3000;
pub const LIVENESS_TIMEOUT_US: u64 = 3_000_000;
/// How long a display is kept for a cable takeover after a Wi-Fi goodbye.
pub const USB_TAKEOVER_TIMEOUT_US: u64 = 1_000_000;
/// Honor at most one keyframe request per this window.
pub const KEYFRAME_REQUEST_MIN_INTERVAL_US: u64 = 500_000;
/// The protocol version this host speaks.
pub const PROTO_VERSION: u8 = 2;
/// Session ids advance by this odd step, so consecutive sessions differ.
pub const SESSION_ID_STEP: u32 = 0x9E37_79B9;

/// The stream parameters, host name and capabilities the host announces.
pub struct HostConfig {
    pub stream_config: StreamConfig,
    pub host_name: String,
    pub host_caps: u16,
}

/// The host's answer to a handshake, as the contracts see it.
pub struct AckView {
    pub status: HelloStatus,
    pub accepted_version: u8,
    pub client_nonce: u32,
    pub session_id: u32,
    pub heartbeat_interval_ms: u16,
    pub report_interval_ms: u16,
    pub liveness_timeout_ms: u16,
    pub stream_config: StreamConfig,
    pub host_name: Seq<char>,
    pub auth_token: Seq<u8>,
    pub host_caps: u16,
}

pub enum MessageView {
    Ack(AckView),
    Pong(Pong),
    Heartbeat(Heartbeat),
    Config(StreamConfig),
    Other,
}

pub open spec fn message_view(m: ControlMessage) -> MessageView {
    match m {
        ControlMessage::HelloAck(a) => MessageView::Ack(AckView {
            status: a.status,
            accepted_version: a.accepted_version,
            client_nonce: a.client_nonce,
            session_id: a.session_id,
            heartbeat_interval_ms: a.heartbeat_interval_ms,
            report_interval_ms: a.report_interval_ms,
            liveness_timeout_ms: a.liveness_timeout_ms,
            stream_config: a.stream_config,
            host_name: a.host_name@,
            auth_token: a.auth_token@,
            host_caps: a.host_caps,
        }),
        ControlMessage::Pong(p) => MessageView::Pong(p),
        ControlMessage::Heartbeat(h) => MessageView::Heartbeat(h),
        ControlMessage::StreamConfig(c) => MessageView::Config(c),
        _ => MessageView::Other,
    }
}

/// A control message to send, its destination and the header it travels
/// under.
pub struct Reply {
    pub peer: PeerId,
    pub session_id: u32,
    pub msg_seq: u32,
    pub message: ControlMessage,
}

pub struct ReplyView {
    pub peer: PeerId,
    pub session_id: u32,
    pub msg_seq: u32,
    pub message: MessageView,
}

pub open spec fn reply_view(r: Reply) -> ReplyView {
    ReplyView { peer: r.peer, session_id: r.session_id, msg_seq: r.msg_seq, message: message_view(r.message) }
}

pub open spec fn replies_view(rs: Seq<Reply>) -> Seq<ReplyView> {
    rs.map_values(|r: Reply| reply_view(r))
}

/// What the transport must do after feeding the session an event.
pub struct Actions {
    /// Control messages to send, with their destination.
    pub replies: Vec<Reply>,
    /// The media target changed (new session or takeover).
    pub new_target: Option<PeerId>,
    /// Ask the encoder for a keyframe.
    pub force_idr: bool,
    /// The client is gone: stop sending media.
    pub client_lost: bool,
    /// A fresh receiver report arrived.
    pub report: Option<ReceiverReport>,
    /// A validated `(session_id, event)` from the connected client, only for
    /// a client whose handshake asked for input relay.
    pub input: Option<(u32, InputEvent)>,
    /// A negotiated, session-gated repair request: epoch, frame, indices.
    pub retransmit: Option<(u32, u32, Vec<u16>)>,
}

pub struct ActionsView {
    pub replies: Seq<ReplyView>,
    pub new_target: Option<PeerId>,
    pub force_idr: bool,
    pub client_lost: bool,
    pub report: Option<ReceiverReport>,
    pub input: Option<(u32, InputEvent)>,
    pub retransmit: Option<(u32, u32, Seq<u16>)>,
}

impl Actions {
    pub open spec fn view(&self) -> ActionsView {
        ActionsView {
            replies: replies_view(self.replies@),
            new_target: self.new_target,
            force_idr: self.force_idr,
            client_lost: self.client_lost,
            report: self.report,
            input: self.input,
            retransmit: match self.retransmit {
                Some((e, s, m)) => Some((e, s, m@)),
                None => None,
            },
        }
    }

    pub fn none() -> (a: Actions)
        ensures
            a.view() == no_actions(),
    {
        let a = Actions {
            replies: Vec::new(),
            new_target: None,
            force_idr: false,
            client_lost: false,
            report: None,
            input: None,
            retransmit: None,
        };
        assert(a.view().replies =~= Seq::<ReplyView>::empty());
        a
    }
}

pub open spec fn no_actions() -> ActionsView {
    ActionsView {
        replies: seq![],
        new_target: None,
        force_idr: false,
        client_lost: false,
        report: None,
        input: None,
        retransmit: None,
    }
}

/// Who is connected, as the host shows it.
pub struct ClientInfo {
    pub device_name: String,
    pub device_id: u64,
    pub screen_px: (u16, u16),
    pub refresh_hz: u8,
    pub decoder_caps: u16,
    pub feature_caps: u16,
    pub connected_at: u64,
}

struct ActiveSession {
    session_id: u32,
    accepted_hello: Hello2,
    ack: HelloAck,
    ack_seq: u32,
    auth_token: [u8; 16],
    peer: PeerId,
    connected_at: u64,
    liveness_deadline: u64,
    awaiting_takeover: bool,
    last_keyframe_grant: Option<u64>,
    last_report: Option<ReceiverReport>,
    msg_seq_out: u32,
}

/// The live session as the contracts see it.
pub struct ActiveView {
    pub session_id: u32,
    pub hello: HelloView,
    /// The answer that established the session, and its message number.
    pub ack: AckView,
    pub ack_seq: u32,
    pub auth_token: Seq<u8>,
    pub peer: PeerId,
    pub connected_at: u64,
    pub liveness_deadline: u64,
    pub awaiting_takeover: bool,
    pub last_keyframe_grant: Option<u64>,
    pub last_report: Option<ReceiverReport>,
    pub msg_seq_out: u32,
}

/// The last handshake refused by pairing, and the credentials it was judged
/// against.
pub struct RefusalView {
    pub peer: PeerId,
    pub hello: HelloView,
    pub required: bool,
    pub token: Seq<u8>,
    pub code: u32,
    pub status: HelloStatus,
}

pub struct SessionView {
    pub active: Option<ActiveView>,
    pub next_session_id: u32,
    pub legacy_warned: bool,
    pub last_refused: Option<RefusalView>,
}

pub open spec fn ack_view_of(a: HelloAck) -> AckView {
    match message_view(ControlMessage::HelloAck(a)) {
        MessageView::Ack(v) => v,
        _ => arbitrary(),
    }
}

impl ActiveSession {
    spec fn view(&self) -> ActiveView {
        ActiveView {
            session_id: self.session_id,
            hello: self.accepted_hello.view(),
            ack: ack_view_of(self.ack),
            ack_seq: self.ack_seq,
            auth_token: self.auth_token@,
            peer: self.peer,
            connected_at: self.connected_at,
            liveness_deadline: self.liveness_deadline,
            awaiting_takeover: self.awaiting_takeover,
            last_keyframe_grant: self.last_keyframe_grant,
            last_report: self.last_report,
            msg_seq_out: self.msg_seq_out,
        }
    }
}

pub open spec fn ip_of(addr: Option<SocketAddress>) -> Option<IpAddress> {
    match addr {
        Some(a) => Some(a.ip),
        None => None,
    }
}

/// A message comes from the session's peer: the same link and address.
pub open spec fn peer_matches(a: ActiveView, source: PeerId) -> bool {
    a.peer.link == source.link && ip_of(a.peer.addr) == ip_of(source.addr)
}

/// A handshake comes from the session's device: by the device ids when both
/// sides have one, else by the peer.
pub open spec fn same_device(a: ActiveView, source: PeerId, device_id: u64) -> bool {
    if a.hello.device_id != 0 && device_id != 0 {
        a.hello.device_id == device_id
    } else {
        peer_matches(a, source)
    }
}

/// The next message number of the live session, and the session after;
/// `1` when there is none.
pub open spec fn next_seq(s: SessionView) -> (u32, SessionView) {
    match s.active {
        Some(a) => {
            let n: u32 = if a.msg_seq_out == u32::MAX { 1 } else { (a.msg_seq_out + 1) as u32 };
            (n, SessionView { active: Some(ActiveView { msg_seq_out: n, ..a }), ..s })
        },
        None => (1, s),
    }
}

pub open spec fn host_ack(status: HelloStatus, nonce: u32, session_id: u32, config: HostView, token: Seq<u8>) -> AckView {
    AckView {
        status,
        accepted_version: PROTO_VERSION,
        client_nonce: nonce,
        session_id,
        heartbeat_interval_ms: HEARTBEAT_INTERVAL_MS,
        report_interval_ms: REPORT_INTERVAL_MS,
        liveness_timeout_ms: LIVENESS_TIMEOUT_MS,
        stream_config: config.stream_config,
        host_name: config.host_name,
        auth_token: token,
        host_caps: HOSTCAP_NACK | config.host_caps,
    }
}

pub struct HostView {
    pub stream_config: StreamConfig,
    pub host_name: Seq<char>,
    pub host_caps: u16,
}

impl HostConfig {
    pub open spec fn view(&self) -> HostView {
        HostView { stream_config: self.stream_config, host_name: self.host_name@, host_caps: self.host_caps }
    }
}

/// A refusal: an answer without a session or token, numbered from the live
/// session's counter.
pub open spec fn refusal(s: SessionView, config: HostView, source: PeerId, status: HelloStatus, nonce: u32) -> (
    ActionsView,
    SessionView,
) {
    let (n, s1) = next_seq(s);
    (
        ActionsView {
            replies: seq![ReplyView { peer: source, session_id: 0, msg_seq: n, message: MessageView::Ack(host_ack(status, nonce, 0, config, zero_token())) }],
            ..no_actions()
        },
        s1,
    )
}

/// Where media goes: the client's advertised listen port at its source
/// address (0 means malformed: use the source port).
pub open spec fn media_target(source: PeerId, listen_port: u16) -> PeerId {
    PeerId {
        link: source.link,
        addr: match source.addr {
            Some(a) => Some(SocketAddress { ip: a.ip, port: if listen_port != 0 { listen_port } else { a.port } }),
            None => None,
        },
    }
}

pub open spec fn next_session_id_after(id: u32) -> u32 {
    let w: int = (id + SESSION_ID_STEP) % 0x1_0000_0000;
    if w == 0 { 1 } else { w as u32 }
}

/// One handshake: the actions, the session after, and the pairing state
/// after. `rotated` says whether a spent code was replaced (with `new_code`).
pub open spec fn hello_spec(
    s: SessionView,
    p: Option<PairingView>,
    config: HostView,
    source: PeerId,
    hello: HelloView,
    now: u64,
    rotated: bool,
    new_code: u32,
) -> (ActionsView, SessionView, Option<PairingView>) {
    if hello.proto_min > PROTO_VERSION || hello.proto_max < PROTO_VERSION {
        let (a, s1) = refusal(s, config, source, HelloStatus::VersionUnsupported, hello.client_nonce);
        (a, s1, p)
    } else {
        let token = match p {
            Some(pv) => if pv.required { pv.token } else { zero_token() },
            None => zero_token(),
        };
        if s.active is Some && s.active->0.peer == source && s.active->0.hello == hello
            && s.active->0.auth_token == token {
            // An exact replay of the accepted handshake gets the same answer.
            let a = s.active->0;
            (
                ActionsView {
                    replies: seq![ReplyView { peer: source, session_id: a.session_id, msg_seq: a.ack_seq, message: MessageView::Ack(a.ack) }],
                    ..no_actions()
                },
                s,
                p,
            )
        } else if s.last_refused is Some && p is Some && s.last_refused->0.peer == source
            && s.last_refused->0.hello == hello && s.last_refused->0.required == p->0.required
            && s.last_refused->0.token == p->0.token && s.last_refused->0.code == p->0.code {
            // A retransmitted refused handshake is one pairing attempt, not
            // another guess: it gets the same refusal without a new count.
            let (a, s1) = refusal(s, config, source, s.last_refused->0.status, hello.client_nonce);
            (a, s1, p)
        } else {
            let (grant, p1): (Result<(Seq<u8>, bool), HelloStatus>, Option<PairingView>) = match p {
                Some(pv) => {
                    let (g, l) = authorize_spec(pv, source, hello.auth_token, hello.pairing_code, now);
                    (g, Some(PairingView { limiter: l, ..pv }))
                },
                None => (Ok((zero_token(), false)), None),
            };
            match grant {
                Err(status) => {
                    let (a, s1) = refusal(s, config, source, status, hello.client_nonce);
                    let pv = p->0;
                    (a, SessionView {
                        last_refused: Some(RefusalView { peer: source, hello, required: pv.required, token: pv.token, code: pv.code, status }),
                        ..s1
                    }, p1)
                },
                Ok((granted_token, used_code)) => {
                    let busy = s.active is Some && (!same_device(s.active->0, source, hello.device_id)
                        || (s.active->0.peer.link is Usb && source.link == LinkId::Udp));
                    if busy {
                        let (a, s1) = refusal(s, config, source, HelloStatus::Busy, hello.client_nonce);
                        (a, s1, p1)
                    } else if used_code && !rotated {
                        let (a, s1) = refusal(s, config, source, HelloStatus::Error, hello.client_nonce);
                        (a, s1, p1)
                    } else {
                        let p2 = if used_code { Some(PairingView { code: new_code, ..p1->0 }) } else { p1 };
                        let id = s.next_session_id;
                        let ack = host_ack(HelloStatus::Accepted, hello.client_nonce, id, config, granted_token);
                        let active = ActiveView {
                            session_id: id,
                            hello,
                            ack,
                            ack_seq: 1,
                            auth_token: granted_token,
                            peer: source,
                            connected_at: now,
                            liveness_deadline: sat_add(now, LIVENESS_TIMEOUT_US),
                            awaiting_takeover: false,
                            last_keyframe_grant: None,
                            last_report: None,
                            msg_seq_out: 1,
                        };
                        (
                            ActionsView {
                                replies: seq![ReplyView { peer: source, session_id: id, msg_seq: 1, message: MessageView::Ack(ack) }],
                                new_target: Some(media_target(source, hello.listen_port)),
                                force_idr: true,
                                ..no_actions()
                            },
                            SessionView { active: Some(active), next_session_id: next_session_id_after(id), last_refused: None, ..s },
                            p2,
                        )
                    }
                },
            }
        }
    }
}

/// The live session with its liveness deadline pushed to `now` plus the
/// timeout.
pub open spec fn refreshed(s: SessionView, now: u64) -> SessionView {
    SessionView { active: Some(ActiveView { liveness_deadline: sat_add(now, LIVENESS_TIMEOUT_US), ..s.active->0 }), ..s }
}

/// A message other than a handshake is heard only with the live session's
/// id, and not while the session waits for a cable takeover.
pub open spec fn admitted(s: SessionView, header_session_id: u32) -> bool {
    s.active is Some && s.active->0.session_id == header_session_id && !s.active->0.awaiting_takeover
}

pub open spec fn bye_spec(s: SessionView, source: PeerId, reason: ByeReason, now: u64) -> (ActionsView, SessionView) {
    let a = s.active->0;
    if !peer_matches(a, source) {
        (no_actions(), s)
    } else if reason == ByeReason::Superseded && source.link == LinkId::Udp && a.hello.device_id != 0 {
        // The Wi-Fi goodbye and the cable handshake may arrive in either
        // order: keep the display for a short while for the takeover.
        (no_actions(), SessionView {
            active: Some(ActiveView { awaiting_takeover: true, liveness_deadline: sat_add(now, USB_TAKEOVER_TIMEOUT_US), ..a }),
            ..s
        })
    } else {
        (ActionsView { client_lost: true, ..no_actions() }, SessionView { active: None, ..s })
    }
}

pub open spec fn keyframe_spec(s: SessionView, source: PeerId, now: u64) -> (ActionsView, SessionView) {
    let a = s.active->0;
    if !peer_matches(a, source) {
        (no_actions(), s)
    } else {
        let s1 = refreshed(s, now);
        let a1 = s1.active->0;
        let coalesced = match a.last_keyframe_grant {
            Some(last) => now < last || now - last < KEYFRAME_REQUEST_MIN_INTERVAL_US,
            None => false,
        };
        if coalesced {
            (no_actions(), s1)
        } else {
            (ActionsView { force_idr: true, ..no_actions() }, SessionView {
                active: Some(ActiveView { last_keyframe_grant: Some(now), ..a1 }),
                ..s1
            })
        }
    }
}

pub open spec fn report_spec(s: SessionView, source: PeerId, report: ReceiverReport, now: u64) -> (ActionsView, SessionView) {
    let a = s.active->0;
    if !peer_matches(a, source) {
        (no_actions(), s)
    } else {
        let s1 = refreshed(s, now);
        (ActionsView { report: Some(report), ..no_actions() }, SessionView {
            active: Some(ActiveView { last_report: Some(report), ..s1.active->0 }),
            ..s1
        })
    }
}

pub open spec fn ping_spec(s: SessionView, source: PeerId, ping: Ping, now: u64) -> (ActionsView, SessionView) {
    let a = s.active->0;
    if !peer_matches(a, source) {
        (no_actions(), s)
    } else {
        let s1 = refreshed(s, now);
        let (n, s2) = next_seq(s1);
        (
            ActionsView {
                replies: seq![ReplyView { peer: source, session_id: a.session_id, msg_seq: n, message: MessageView::Pong(Pong { t1_us: ping.t1_us, t2_us: now, t3_us: now }) }],
                ..no_actions()
            },
            s2,
        )
    }
}

pub open spec fn input_spec(s: SessionView, source: PeerId, event: InputEvent, now: u64) -> (ActionsView, SessionView) {
    let a = s.active->0;
    // Only input the client declared it wants to send is relayed: a session
    // that connected view-only stays view-only until it handshakes again.
    if !peer_matches(a, source) || a.hello.feature_caps & FEATURE_WANTS_INPUT == 0 {
        (no_actions(), s)
    } else {
        (ActionsView { input: Some((a.session_id, event)), ..no_actions() }, refreshed(s, now))
    }
}

pub open spec fn nack_spec(s: SessionView, source: PeerId, nack: Nack, now: u64) -> (ActionsView, SessionView) {
    let a = s.active->0;
    if !peer_matches(a, source) || a.peer.link != LinkId::Udp || a.hello.feature_caps & FEATURE_SUPPORTS_NACK == 0
        || !nack_valid(nack) {
        (no_actions(), s)
    } else {
        (ActionsView { retransmit: Some((nack.stream_epoch, nack.frame_seq, nack.missing@)), ..no_actions() }, refreshed(s, now))
    }
}

/// One inbound control message: the actions, the session after and the
/// pairing state after.
pub open spec fn control_spec(
    s: SessionView,
    p: Option<PairingView>,
    config: HostView,
    source: PeerId,
    header_session_id: u32,
    message: ControlMessage,
    now: u64,
    rotated: bool,
    new_code: u32,
) -> (ActionsView, SessionView, Option<PairingView>) {
    match message {
        ControlMessage::Hello2(h) => hello_spec(s, p, config, source, h.view(), now, rotated, new_code),
        _ => if !admitted(s, header_session_id) {
            (no_actions(), s, p)
        } else {
            let (a, s1) = match message {
                ControlMessage::Bye(reason) => bye_spec(s, source, reason, now),
                ControlMessage::KeyframeRequest(_) => keyframe_spec(s, source, now),
                ControlMessage::ReceiverReport(r) => report_spec(s, source, r, now),
                ControlMessage::Ping(ping) => ping_spec(s, source, ping, now),
                ControlMessage::InputEvent(e) => input_spec(s, source, e, now),
                ControlMessage::Nack(n) => nack_spec(s, source, n, now),
                _ => (no_actions(), s),
            };
            (a, s1, p)
        },
    }
}

/// Periodic tick: revoked credentials and lapsed liveness end the session;
/// otherwise a heartbeat goes out when asked for.
pub open spec fn tick_spec(s: SessionView, p: Option<PairingView>, config: HostView, send_heartbeat: bool, now: u64) -> (
    ActionsView,
    SessionView,
) {
    if s.active is None {
        (no_actions(), s)
    } else {
        let a = s.active->0;
        let revoked = p is Some && p->0.required && a.auth_token != p->0.token;
        if revoked || now >= a.liveness_deadline {
            (ActionsView { client_lost: true, ..no_actions() }, SessionView { active: None, ..s })
        } else if send_heartbeat {
            let (n, s1) = next_seq(s);
            (
                ActionsView {
                    replies: seq![ReplyView { peer: a.peer, session_id: a.session_id, msg_seq: n, message: MessageView::Heartbeat(Heartbeat { host_time_us: now, stream_config: config.stream_config }) }],
                    ..no_actions()
                },
                s1,
            )
        } else {
            (no_actions(), s)
        }
    }
}

fn ip_eq(a: Option<SocketAddress>, b: Option<SocketAddress>) -> (r: bool)
    ensures
        r == (ip_of(a) == ip_of(b)),
{
    match (a, b) {
        (Some(x), Some(y)) => match (x.ip, y.ip) {
            (IpAddress::V4(p), IpAddress::V4(q)) => p == q,
            (IpAddress::V6(p), IpAddress::V6(q)) => p == q,
            _ => false,
        },
        (None, None) => true,
        _ => false,
    }
}

fn link_eq(a: LinkId, b: LinkId) -> (r: bool)
    ensures
        r == (a == b),
{
    match (a, b) {
        (LinkId::Udp, LinkId::Udp) => true,
        (LinkId::Usb { device_id: x }, LinkId::Usb { device_id: y }) => x == y,
        _ => false,
    }
}

fn peer_eq(a: PeerId, b: PeerId) -> (r: bool)
    ensures
        r == (a == b),
{
    link_eq(a.link, b.link) && match (a.addr, b.addr) {
        (Some(x), Some(y)) => x.port == y.port && ip_eq(Some(x), Some(y)),
        (None, None) => true,
        _ => false,
    }
}

fn session_peer_matches(a: &ActiveSession, source: PeerId) -> (r: bool)
    ensures
        r == peer_matches(a.view(), source),
{
    link_eq(a.peer.link, source.link) && ip_eq(a.peer.addr, source.addr)
}

fn copy_config(c: &StreamConfig) -> (r: StreamConfig)
    ensures
        r == *c,
{
    *c
}

fn copy_ack(a: &HelloAck) -> (r: HelloAck)
    ensures
        ack_view_of(r) == ack_view_of(*a),
{
    HelloAck {
        status: a.status,
        accepted_version: a.accepted_version,
        client_nonce: a.client_nonce,
        session_id: a.session_id,
        heartbeat_interval_ms: a.heartbeat_interval_ms,
        report_interval_ms: a.report_interval_ms,
        liveness_timeout_ms: a.liveness_timeout_ms,
        stream_config: a.stream_config,
        host_name: String::from_str(a.host_name.as_str()),
        auth_token: a.auth_token,
        host_caps: a.host_caps,
    }
}

fn single_reply(r: Reply) -> (v: Vec<Reply>)
    ensures
        replies_view(v@) == seq![reply_view(r)],
{
    let ghost rv = reply_view(r);
    let v = vec![r];
    assert(replies_view(v@) =~= seq![rv]);
    v
}

struct Refusal {
    peer: PeerId,
    hello: Hello2,
    required: bool,
    token: [u8; 16],
    code: u32,
    status: HelloStatus,
}

impl Refusal {
    spec fn view(&self) -> RefusalView {
        RefusalView {
            peer: self.peer,
            hello: self.hello.view(),
            required: self.required,
            token: self.token@,
            code: self.code,
            status: self.status,
        }
    }
}

pub struct Session {
    active: Option<ActiveSession>,
    next_session_id: u32,
    legacy_client_warned: bool,
    last_refused: Option<Refusal>,
}

impl Session {
    pub closed spec fn view(&self) -> SessionView {
        SessionView {
            active: match self.active {
                Some(a) => Some(a.view()),
                None => None,
            },
            next_session_id: self.next_session_id,
            legacy_warned: self.legacy_client_warned,
            last_refused: match self.last_refused {
                Some(r) => Some(r.view()),
                None => None,
            },
        }
    }

    /// `session_id_seed` lets callers control the first id; zero is never
    /// used.
    pub fn new(session_id_seed: u32) -> (s: Self)
        ensures
            s.view() == (SessionView {
                active: None,
                next_session_id: if session_id_seed == 0 { 1 } else { session_id_seed },
                legacy_warned: false,
                last_refused: None,
            }),
    {
        Session {
            active: None,
            next_session_id: if session_id_seed == 0 { 1 } else { session_id_seed },
            legacy_client_warned: false,
            last_refused: None,
        }
    }

    pub fn is_active(&self) -> (r: bool)
        ensures
            r == self.view().active is Some,
    {
        self.active.is_some()
    }

    pub fn session_id(&self) -> (r: Option<u32>)
        ensures
            r == match self.view().active {
                Some(a) => Some(a.session_id),
                None => None::<u32>,
            },
    {
        match &self.active {
            Some(a) => Some(a.session_id),
            None => None,
        }
    }

    pub fn peer(&self) -> (r: Option<PeerId>)
        ensures
            r == match self.view().active {
                Some(a) => Some(a.peer),
                None => None::<PeerId>,
            },
    {
        match &self.active {
            Some(a) => Some(a.peer),
            None => None,
        }
    }

    /// Who is connected: the device as its handshake described it.
    pub fn client_info(&self) -> (r: Option<ClientInfo>)
        ensures
            match self.view().active {
                Some(a) => r is Some && ({
                    let i = r->0;
                    &&& i.device_name@ == a.hello.device_name
                    &&& i.device_id == a.hello.device_id
                    &&& i.screen_px == (a.hello.screen_px_w, a.hello.screen_px_h)
                    &&& i.refresh_hz == a.hello.refresh_hz
                    &&& i.decoder_caps == a.hello.decoder_caps
                    &&& i.feature_caps == a.hello.feature_caps
                    &&& i.connected_at == a.connected_at
                }),
                None => r is None,
            },
    {
        match &self.active {
            Some(a) => Some(ClientInfo {
                device_name: String::from_str(a.accepted_hello.device_name.as_str()),
                device_id: a.accepted_hello.device_id,
                screen_px: (a.accepted_hello.screen_px_w, a.accepted_hello.screen_px_h),
                refresh_hz: a.accepted_hello.refresh_hz,
                decoder_caps: a.accepted_hello.decoder_caps,
                feature_caps: a.accepted_hello.feature_caps,
                connected_at: a.connected_at,
            }),
            None => None,
        }
    }

    /// Whether the connected client can decode HEVC; false with no client.
    pub fn client_supports_hevc(&self) -> (r: bool)
        ensures
            r == (self.view().active is Some && self.view().active->0.hello.decoder_caps & CAP_DECODE_HEVC != 0),
    {
        match &self.active {
            Some(a) => a.accepted_hello.decoder_caps & CAP_DECODE_HEVC != 0,
            None => false,
        }
    }

    /// Whether repair requests are served: a Wi-Fi client that asked.
    pub fn client_supports_nack(&self) -> (r: bool)
        ensures
            r == (self.view().active is Some && self.view().active->0.peer.link == LinkId::Udp
                && self.view().active->0.hello.feature_caps & FEATURE_SUPPORTS_NACK != 0),
    {
        match &self.active {
            Some(a) => link_eq(a.peer.link, LinkId::Udp) && a.accepted_hello.feature_caps & FEATURE_SUPPORTS_NACK != 0,
            None => false,
        }
    }

    /// The session audio goes to: one that asked for audio and is not
    /// waiting for a takeover.
    pub fn audio_session_id(&self) -> (r: Option<u32>)
        ensures
            r == match self.view().active {
                Some(a) => if !a.awaiting_takeover && a.hello.feature_caps & FEATURE_WANTS_AUDIO != 0 {
                    Some(a.session_id)
                } else {
                    None::<u32>
                },
                None => None::<u32>,
            },
    {
        match &self.active {
            Some(a) => if !a.awaiting_takeover && a.accepted_hello.feature_caps & FEATURE_WANTS_AUDIO != 0 {
                Some(a.session_id)
            } else {
                None
            },
            None => None,
        }
    }

    pub fn last_report(&self) -> (r: Option<ReceiverReport>)
        ensures
            r == match self.view().active {
                Some(a) => a.last_report,
                None => None::<ReceiverReport>,
            },
    {
        match &self.active {
            Some(a) => a.last_report,
            None => None,
        }
    }

    /// A link went away: the session ends if it lived on it.
    pub fn link_lost(&mut self, link: LinkId) -> (a: Actions)
        ensures
            ({
                let lost = old(self).view().active is Some && old(self).view().active->0.peer.link == link;
                &&& a.view() == (ActionsView { client_lost: lost, ..no_actions() })
                &&& final(self).view() == if lost { SessionView { active: None, ..old(self).view() } } else { old(self).view() }
            }),
    {
        let lost = match &self.active {
            Some(s) => link_eq(s.peer.link, link),
            None => false,
        };
        if lost {
            self.active = None;
        }
        let mut a = Actions::none();
        a.client_lost = lost;
        a
    }

    fn next_msg_seq(&mut self) -> (n: u32)
        ensures
            (n, final(self).view()) == next_seq(old(self).view()),
    {
        match self.active.take() {
            Some(mut a) => {
                a.msg_seq_out = if a.msg_seq_out == u32::MAX { 1 } else { a.msg_seq_out + 1 };
                let n = a.msg_seq_out;
                self.active = Some(a);
                n
            },
            None => 1,
        }
    }

    fn allocate_session_id(&mut self) -> (id: u32)
        ensures
            id == old(self).view().next_session_id,
            final(self).view() == (SessionView { next_session_id: next_session_id_after(id), ..old(self).view() }),
    {
        let id = self.next_session_id;
        let w = self.next_session_id.wrapping_add(SESSION_ID_STEP);
        self.next_session_id = if w == 0 { 1 } else { w };
        id
    }

    fn make_ack(&mut self, status: HelloStatus, nonce: u32, session_id: u32, config: &HostConfig, token: [u8; 16], peer: PeerId) -> (r: Reply)
        ensures
            ({
                let (n, s1) = next_seq(old(self).view());
                &&& reply_view(r) == (ReplyView { peer, session_id, msg_seq: n, message: MessageView::Ack(host_ack(status, nonce, session_id, config.view(), token@)) })
                &&& final(self).view() == s1
            }),
    {
        let msg_seq = self.next_msg_seq();
        let ack = HelloAck {
            status,
            accepted_version: PROTO_VERSION,
            client_nonce: nonce,
            session_id,
            heartbeat_interval_ms: HEARTBEAT_INTERVAL_MS,
            report_interval_ms: REPORT_INTERVAL_MS,
            liveness_timeout_ms: LIVENESS_TIMEOUT_MS,
            stream_config: copy_config(&config.stream_config),
            host_name: String::from_str(config.host_name.as_str()),
            auth_token: token,
            host_caps: HOSTCAP_NACK | config.host_caps,
        };
        Reply { peer, session_id, msg_seq, message: ControlMessage::HelloAck(ack) }
    }

    fn refuse(&mut self, status: HelloStatus, nonce: u32, config: &HostConfig, source: PeerId) -> (a: Actions)
        ensures
            (a.view(), final(self).view()) == refusal(old(self).view(), config.view(), source, status, nonce),
    {
        let z = [0u8; 16];
        assert(z@ =~= zero_token());
        let reply = self.make_ack(status, nonce, 0, config, z, source);
        let mut a = Actions::none();
        a.replies = single_reply(reply);
        a
    }

    #[verifier::rlimit(60)]
    #[verifier::spinoff_prover]
    fn handle_hello(
        &mut self,
        source: PeerId,
        hello: Hello2,
        config: &HostConfig,
        pairing: &mut Option<Pairing>,
        now: u64,
    ) -> (a: Actions)
        requires
            match *old(pairing) { Some(p) => p.wf(), None => true },
        ensures
            match *final(pairing) { Some(p) => p.wf(), None => true },
            ({
                let p0 = match *old(pairing) { Some(p) => Some(p.view()), None => None::<PairingView> };
                let p1 = match *final(pairing) { Some(p) => Some(p.view()), None => None::<PairingView> };
                let rotated = p0 is Some && p1 is Some && p1->0.code != p0->0.code;
                let new_code = match p1 { Some(p) => p.code, None => 0 };
                (a.view(), final(self).view(), p1) == hello_spec(old(self).view(), p0, config.view(), source, hello.view(), now, rotated, new_code)
            }),
    {
        // Version gate first.
        if hello.proto_min > PROTO_VERSION || hello.proto_max < PROTO_VERSION {
            return self.refuse(HelloStatus::VersionUnsupported, hello.client_nonce, config, source);
        }
        let token: [u8; 16] = match pairing {
            Some(p) => p.ack_token(),
            None => {
                let z = [0u8; 16];
                assert(z@ =~= zero_token());
                z
            },
        };
        let replay = match &self.active {
            Some(s) => peer_eq(s.peer, source) && same_hello(&s.accepted_hello, &hello) && bytes16_eq(&s.auth_token, &token),
            None => false,
        };
        if replay {
            // Exact replay of an accepted handshake: losing the first answer
            // must not require the already-rotated code.
            let s = self.active.as_ref().unwrap();
            let reply = Reply {
                peer: source,
                session_id: s.session_id,
                msg_seq: s.ack_seq,
                message: ControlMessage::HelloAck(copy_ack(&s.ack)),
            };
            let mut a = Actions::none();
            a.replies = single_reply(reply);
            return a;
        }
        let retransmitted = match (&self.last_refused, &*pairing) {
            (Some(r), Some(p)) => peer_eq(r.peer, source) && same_hello(&r.hello, &hello) && r.required == p.required()
                && bytes16_eq(&r.token, &p.token()) && r.code == p.code(),
            _ => false,
        };
        if retransmitted {
            let status = self.last_refused.as_ref().unwrap().status;
            return self.refuse(status, hello.client_nonce, config, source);
        }
        let grant: Grant = match pairing {
            Some(p) => {
                let (required, token, code) = (p.required(), p.token(), p.code());
                match p.authorize(source, &hello, now) {
                    Ok(g) => g,
                    Err(status) => {
                        let nonce = hello.client_nonce;
                        let a = self.refuse(status, nonce, config, source);
                        self.last_refused = Some(Refusal { peer: source, hello, required, token, code, status });
                        return a;
                    },
                }
            },
            None => {
                let z = [0u8; 16];
                assert(z@ =~= zero_token());
                Grant { token: z, used_code: false }
            },
        };
        let busy = match &self.active {
            Some(s) => {
                let same = if s.accepted_hello.device_id != 0 && hello.device_id != 0 {
                    s.accepted_hello.device_id == hello.device_id
                } else {
                    session_peer_matches(s, source)
                };
                let cable = match s.peer.link {
                    LinkId::Usb { .. } => true,
                    LinkId::Udp => false,
                };
                !same || (cable && link_eq(source.link, LinkId::Udp))
            },
            None => false,
        };
        if busy {
            // A different device while one is streaming, or the same device
            // falling back from the cable to Wi-Fi while the cable is up.
            return self.refuse(HelloStatus::Busy, hello.client_nonce, config, source);
        }
        if grant.used_code {
            let rotated = match pairing {
                Some(p) => p.rotate_code(),
                None => Ok(()),
            };
            if rotated.is_err() {
                return self.refuse(HelloStatus::Error, hello.client_nonce, config, source);
            }
        }
        let session_id = self.allocate_session_id();
        let target = PeerId {
            link: source.link,
            addr: match source.addr {
                Some(addr) => Some(SocketAddress { ip: addr.ip, port: if hello.listen_port != 0 { hello.listen_port } else { addr.port } }),
                None => None,
            },
        };
        let ack = HelloAck {
            status: HelloStatus::Accepted,
            accepted_version: PROTO_VERSION,
            client_nonce: hello.client_nonce,
            session_id,
            heartbeat_interval_ms: HEARTBEAT_INTERVAL_MS,
            report_interval_ms: REPORT_INTERVAL_MS,
            liveness_timeout_ms: LIVENESS_TIMEOUT_MS,
            stream_config: copy_config(&config.stream_config),
            host_name: String::from_str(config.host_name.as_str()),
            auth_token: grant.token,
            host_caps: HOSTCAP_NACK | config.host_caps,
        };
        let reply = Reply { peer: source, session_id, msg_seq: 1, message: ControlMessage::HelloAck(copy_ack(&ack)) };
        self.last_refused = None;
        self.active = Some(ActiveSession {
            session_id,
            accepted_hello: hello,
            ack,
            ack_seq: 1,
            auth_token: grant.token,
            peer: source,
            connected_at: now,
            liveness_deadline: now.saturating_add(LIVENESS_TIMEOUT_US),
            awaiting_takeover: false,
            last_keyframe_grant: None,
            last_report: None,
            msg_seq_out: 1,
        });
        let mut a = Actions::none();
        a.replies = single_reply(reply);
        a.new_target = Some(target);
        a.force_idr = true;
        a
    }

    /// Feed one inbound control message. `header_session_id` is the id the
    /// datagram claims; every message but a handshake must carry the live
    /// session's: an address is shared by every process on a device and is
    /// easily spoofed on the local link, so a stray message must not move
    /// the pointer, steer the bitrate, or end a session.
    pub fn handle_control(
        &mut self,
        source: PeerId,
        header_session_id: u32,
        message: ControlMessage,
        config: &HostConfig,
        pairing: &mut Option<Pairing>,
        now: u64,
    ) -> (a: Actions)
        requires
            match *old(pairing) { Some(p) => p.wf(), None => true },
        ensures
            match *final(pairing) { Some(p) => p.wf(), None => true },
            ({
                let p0 = match *old(pairing) { Some(p) => Some(p.view()), None => None::<PairingView> };
                let p1 = match *final(pairing) { Some(p) => Some(p.view()), None => None::<PairingView> };
                let rotated = p0 is Some && p1 is Some && p1->0.code != p0->0.code;
                let new_code = match p1 { Some(p) => p.code, None => 0 };
                (a.view(), final(self).view(), p1) == control_spec(
                    old(self).view(), p0, config.view(), source, header_session_id, message, now, rotated, new_code)
            }),
    {
        match message {
            ControlMessage::Hello2(hello) => {
                return self.handle_hello(source, hello, config, pairing, now);
            },
            _ => {},
        }
        let ghost m = message;
        let admitted = match &self.active {
            Some(s) => s.session_id == header_session_id && !s.awaiting_takeover,
            None => false,
        };
        if !admitted {
            return Actions::none();
        }
        let mut s = self.active.take().unwrap();
        let mut a = Actions::none();
        if !session_peer_matches(&s, source) {
            self.active = Some(s);
            return a;
        }
        match message {
            ControlMessage::Bye(reason) => {
                let takeover = match reason {
                    ByeReason::Superseded => link_eq(source.link, LinkId::Udp) && s.accepted_hello.device_id != 0,
                    ByeReason::UserDisconnect => false,
                };
                if takeover {
                    s.awaiting_takeover = true;
                    s.liveness_deadline = now.saturating_add(USB_TAKEOVER_TIMEOUT_US);
                    self.active = Some(s);
                } else {
                    a.client_lost = true;
                }
            },
            ControlMessage::KeyframeRequest(_) => {
                s.liveness_deadline = now.saturating_add(LIVENESS_TIMEOUT_US);
                let coalesced = match s.last_keyframe_grant {
                    Some(last) => now < last || now - last < KEYFRAME_REQUEST_MIN_INTERVAL_US,
                    None => false,
                };
                if !coalesced {
                    s.last_keyframe_grant = Some(now);
                    a.force_idr = true;
                }
                self.active = Some(s);
            },
            ControlMessage::ReceiverReport(report) => {
                s.liveness_deadline = now.saturating_add(LIVENESS_TIMEOUT_US);
                s.last_report = Some(report);
                a.report = Some(report);
                self.active = Some(s);
            },
            ControlMessage::Ping(ping) => {
                s.liveness_deadline = now.saturating_add(LIVENESS_TIMEOUT_US);
                let session_id = s.session_id;
                self.active = Some(s);
                let msg_seq = self.next_msg_seq();
                a.replies = single_reply(Reply {
                    peer: source,
                    session_id,
                    msg_seq,
                    message: ControlMessage::Pong(Pong { t1_us: ping.t1_us, t2_us: now, t3_us: now }),
                });
            },
            ControlMessage::InputEvent(event) => {
                if s.accepted_hello.feature_caps & FEATURE_WANTS_INPUT != 0 {
                    // A stream of touches is proof of life as good as any report.
                    s.liveness_deadline = now.saturating_add(LIVENESS_TIMEOUT_US);
                    a.input = Some((s.session_id, event));
                }
                self.active = Some(s);
            },
            ControlMessage::Nack(nack) => {
                if link_eq(s.peer.link, LinkId::Udp) && s.accepted_hello.feature_caps & FEATURE_SUPPORTS_NACK != 0
                    && nack_validate(&nack) {
                    s.liveness_deadline = now.saturating_add(LIVENESS_TIMEOUT_US);
                    a.retransmit = Some((nack.stream_epoch, nack.frame_seq, nack.missing));
                }
                self.active = Some(s);
            },
            _ => {
                self.active = Some(s);
            },
        }
        a
    }

    /// Periodic tick: expire the session when its credentials were revoked
    /// or the client has been silent past the liveness window; otherwise the
    /// heartbeat to send, when `send_heartbeat` asks for one.
    pub fn tick(&mut self, config: &HostConfig, pairing: &Option<Pairing>, send_heartbeat: bool, now: u64) -> (a: Actions)
        ensures
            ({
                let p = match *pairing { Some(p) => Some(p.view()), None => None::<PairingView> };
                (a.view(), final(self).view()) == tick_spec(old(self).view(), p, config.view(), send_heartbeat, now)
            }),
    {
        let mut a = Actions::none();
        let (revoked, expired, peer, session_id) = match &self.active {
            Some(s) => {
                let revoked = match pairing {
                    Some(p) => p.required() && !bytes16_eq(&s.auth_token, &p.token()),
                    None => false,
                };
                (revoked, now >= s.liveness_deadline, s.peer, s.session_id)
            },
            None => {
                return a;
            },
        };
        if revoked || expired {
            self.active = None;
            a.client_lost = true;
            return a;
        }
        if send_heartbeat {
            let msg_seq = self.next_msg_seq();
            a.replies = single_reply(Reply {
                peer,
                session_id,
                msg_seq,
                message: ControlMessage::Heartbeat(Heartbeat { host_time_us: now, stream_config: copy_config(&config.stream_config) }),
            });
        }
        a
    }

    /// One stream-configuration notice for the live client; the heartbeat's
    /// embedded configuration self-heals if it is lost.
    pub fn stream_config_notify(&mut self, config: &HostConfig) -> (r: Vec<Reply>)
        ensures
            match old(self).view().active {
                Some(s) => {
                    let (n, s1) = next_seq(old(self).view());
                    &&& replies_view(r@) == seq![ReplyView { peer: s.peer, session_id: s.session_id, msg_seq: n, message: MessageView::Config(config.stream_config) }]
                    &&& final(self).view() == s1
                },
                None => r@.len() == 0 && final(self).view() == old(self).view(),
            },
    {
        let (peer, session_id) = match &self.active {
            Some(s) => (s.peer, s.session_id),
            None => {
                return Vec::new();
            },
        };
        let msg_seq = self.next_msg_seq();
        single_reply(Reply { peer, session_id, msg_seq, message: ControlMessage::StreamConfig(copy_config(&config.stream_config)) })
    }

    /// An old-protocol handshake arrived. It gets no reply (the old app
    /// cannot parse one); returns whether to tell the user, which happens
    /// once.
    pub fn note_legacy_hello(&mut self, source: PeerId) -> (warn: bool)
        ensures
            warn == !old(self).view().legacy_warned,
            final(self).view() == (SessionView { legacy_warned: true, ..old(self).view() }),
    {
        let warn = !self.legacy_client_warned;
        self.legacy_client_warned = true;
        warn
    }
}

} // verus!

verus! {

/// A refused handshake that arrives again is one pairing attempt, not two
/// guesses: the retransmission leaves the pairing state (and so the
/// failure count) as the first one left it, and is answered as the first.
pub proof fn lemma_refused_handshake_counts_once(
    s: SessionView,
    p: PairingView,
    config: HostView,
    source: PeerId,
    hello: HelloView,
    now: u64,
    later: u64,
    rotated: bool,
    new_code: u32,
)
    requires
        hello.proto_min <= PROTO_VERSION <= hello.proto_max,
        authorize_spec(p, source, hello.auth_token, hello.pairing_code, now).0 is Err,
    ensures
        ({
            let (a1, s1, p1) = hello_spec(s, Some(p), config, source, hello, now, rotated, new_code);
            let (a2, s2, p2) = hello_spec(s1, p1, config, source, hello, later, rotated, new_code);
            &&& p2 == p1
            &&& a1.replies.len() == 1
            &&& a2.replies.len() == 1
            &&& a2.replies[0].message == a1.replies[0].message
        }),
{
}

/// A tick's heartbeat tells the client the host's current stream
/// configuration and clock: every reply a tick sends is one heartbeat to the
/// live session's peer, under its id, carrying `now` and the stream
/// configuration of the host configuration handed to that tick, whatever
/// configuration the session's handshake agreed on.
pub proof fn lemma_heartbeat_carries_current_config(
    s: SessionView,
    p: Option<PairingView>,
    config: HostView,
    send_heartbeat: bool,
    now: u64,
)
    ensures
        ({
            let replies = tick_spec(s, p, config, send_heartbeat, now).0.replies;
            &&& replies.len() <= 1
            &&& replies.len() == 1 ==> send_heartbeat
            &&& forall|k: int| 0 <= k < replies.len() ==> {
                &&& (#[trigger] replies[k]).message == MessageView::Heartbeat(
                    Heartbeat { host_time_us: now, stream_config: config.stream_config },
                )
                &&& s.active matches Some(a) && replies[k].peer == a.peer && replies[k].session_id == a.session_id
            }
        }),
{
}

/// Every handshake answer advertises the host's capabilities: an answer
/// made by this call carries `HOSTCAP_NACK | config.host_caps` for the host
/// configuration of the call; the only other answer is the exact replay of
/// the live session's stored answer, and a session this call accepts stores
/// an answer with those capabilities.
pub proof fn lemma_acks_advertise_host_caps(
    s: SessionView,
    p: Option<PairingView>,
    config: HostView,
    source: PeerId,
    header_session_id: u32,
    message: ControlMessage,
    now: u64,
    rotated: bool,
    new_code: u32,
)
    ensures
        ({
            let (a, s1, p1) = control_spec(s, p, config, source, header_session_id, message, now, rotated, new_code);
            &&& forall|k: int| 0 <= k < a.replies.len() ==> ((#[trigger] a.replies[k]).message matches MessageView::Ack(ack)
                ==> ack.host_caps == HOSTCAP_NACK | config.host_caps || (s.active matches Some(o) && ack == o.ack))
            &&& s1.active matches Some(n) ==> n.ack.host_caps == HOSTCAP_NACK | config.host_caps
                || (s.active matches Some(o) && n.ack == o.ack)
        }),
{
}

} // verus!
