//! The control messages exchanged over a session: the client's handshake and
//! requests, and the host's replies.

use vstd::prelude::*;
use crate::input::InputEvent;
use crate::media::{Nack, MAX_NACK_MISSING, MAX_FRAG_COUNT};

verus! {

/// The client can decode H.264.
pub const CAP_DECODE_H264: u16 = 0x0001;
/// The client can decode HEVC.
pub const CAP_DECODE_HEVC: u16 = 0x0002;
/// The client will send input events.
pub const FEATURE_WANTS_INPUT: u16 = 0x0001;
/// The client requests missing fragments.
pub const FEATURE_SUPPORTS_NACK: u16 = 0x0002;
/// The client plays the audio stream.
pub const FEATURE_WANTS_AUDIO: u16 = 0x0004;
/// The host serves repair requests.
pub const HOSTCAP_NACK: u16 = 0x0001;

#[derive(Clone, Copy, Debug, PartialEq, Eq, Structural)]
pub enum HelloStatus {
    Accepted,
    VersionUnsupported,
    Busy,
    Unauthorized,
    RateLimited,
    Error,
}

/// The client's handshake.
#[derive(Clone, Debug)]
pub struct Hello2 {
    pub proto_min: u8,
    pub proto_max: u8,
    pub client_nonce: u32,
    pub listen_port: u16,
    pub decoder_caps: u16,
    pub feature_caps: u16,
    pub screen_px_w: u16,
    pub screen_px_h: u16,
    pub screen_pt_w: u16,
    pub screen_pt_h: u16,
    pub refresh_hz: u8,
    pub device_name: String,
    pub device_id: u64,
    pub preferred_fps: u8,
    pub auth_token: [u8; 16],
    pub pairing_code: u32,
}

/// A handshake as the contracts compare them: every field, the name by its
/// characters and the token by its bytes.
pub struct HelloView {
    pub proto_min: u8,
    pub proto_max: u8,
    pub client_nonce: u32,
    pub listen_port: u16,
    pub decoder_caps: u16,
    pub feature_caps: u16,
    pub screen_px_w: u16,
    pub screen_px_h: u16,
    pub screen_pt_w: u16,
    pub screen_pt_h: u16,
    pub refresh_hz: u8,
    pub device_name: Seq<char>,
    pub device_id: u64,
    pub preferred_fps: u8,
    pub auth_token: Seq<u8>,
    pub pairing_code: u32,
}

impl Hello2 {
    pub open spec fn view(&self) -> HelloView {
        HelloView {
            proto_min: self.proto_min,
            proto_max: self.proto_max,
            client_nonce: self.client_nonce,
            listen_port: self.listen_port,
            decoder_caps: self.decoder_caps,
            feature_caps: self.feature_caps,
            screen_px_w: self.screen_px_w,
            screen_px_h: self.screen_px_h,
            screen_pt_w: self.screen_pt_w,
            screen_pt_h: self.screen_pt_h,
            refresh_hz: self.refresh_hz,
            device_name: self.device_name@,
            device_id: self.device_id,
            preferred_fps: self.preferred_fps,
            auth_token: self.auth_token@,
            pairing_code: self.pairing_code,
        }
    }

    /// A copy, field by field.
    pub fn duplicate(&self) -> (h: Hello2)
        ensures
            h.view() == self.view(),
    {
        Hello2 {
            proto_min: self.proto_min,
            proto_max: self.proto_max,
            client_nonce: self.client_nonce,
            listen_port: self.listen_port,
            decoder_caps: self.decoder_caps,
            feature_caps: self.feature_caps,
            screen_px_w: self.screen_px_w,
            screen_px_h: self.screen_px_h,
            screen_pt_w: self.screen_pt_w,
            screen_pt_h: self.screen_pt_h,
            refresh_hz: self.refresh_hz,
            device_name: String::from_str(self.device_name.as_str()),
            device_id: self.device_id,
            preferred_fps: self.preferred_fps,
            auth_token: self.auth_token,
            pairing_code: self.pairing_code,
        }
    }
}

pub fn bytes16_eq(a: &[u8; 16], b: &[u8; 16]) -> (r: bool)
    ensures
        r == (a@ == b@),
{
    let mut i: usize = 0;
    while i < 16
        invariant
            a@.len() == 16,
            b@.len() == 16,
            0 <= i <= 16,
            forall|j: int| 0 <= j < i ==> a@[j] == b@[j],
        decreases 16 - i,
    {
        if a[i] != b[i] {
            return false;
        }
        i = i + 1;
    }
    assert(a@ =~= b@);
    true
}

/// Whether two handshakes are the same in every field.
pub fn same_hello(a: &Hello2, b: &Hello2) -> (r: bool)
    ensures
        r == (a.view() == b.view()),
{
    a.proto_min == b.proto_min && a.proto_max == b.proto_max && a.client_nonce == b.client_nonce
        && a.listen_port == b.listen_port && a.decoder_caps == b.decoder_caps && a.feature_caps
        == b.feature_caps && a.screen_px_w == b.screen_px_w && a.screen_px_h == b.screen_px_h
        && a.screen_pt_w == b.screen_pt_w && a.screen_pt_h == b.screen_pt_h && a.refresh_hz
        == b.refresh_hz && crate::text::str_eq(a.device_name.as_str(), b.device_name.as_str())
        && a.device_id == b.device_id && a.preferred_fps == b.preferred_fps && bytes16_eq(
        &a.auth_token,
        &b.auth_token,
    ) && a.pairing_code == b.pairing_code
}

/// The stream parameters the host announces.
#[derive(Clone, Copy, Debug, PartialEq, Eq, Structural)]
pub struct StreamConfig {
    pub stream_epoch: u32,
    pub width: u16,
    pub height: u16,
    pub fps: u8,
    pub codec: u8,
    pub flags: u8,
    pub bitrate_bps: u32,
}

/// The client's periodic reception statistics.
#[derive(Clone, Copy, Debug, PartialEq, Eq, Structural)]
pub struct ReceiverReport {
    pub stream_epoch: u32,
    pub highest_seq: u32,
    pub frames_complete: u32,
    pub frames_dropped: u32,
    pub frags_received: u32,
    pub frags_lost: u32,
    pub frags_repaired: u32,
    pub jitter_us: u32,
    pub decode_fps_x10: u16,
    pub assembler_depth: u16,
    pub decode_depth: u16,
    pub e2e_latency_ms_x10: u16,
    pub rtt_ms_x10: u16,
    pub nacks_sent: u32,
    pub audio_packets_lost: u32,
    pub audio_buffer_ms: u16,
}

impl Default for ReceiverReport {
    fn default() -> (r: Self)
        ensures
            r == (ReceiverReport {
                stream_epoch: 0,
                highest_seq: 0,
                frames_complete: 0,
                frames_dropped: 0,
                frags_received: 0,
                frags_lost: 0,
                frags_repaired: 0,
                jitter_us: 0,
                decode_fps_x10: 0,
                assembler_depth: 0,
                decode_depth: 0,
                e2e_latency_ms_x10: 0,
                rtt_ms_x10: 0,
                nacks_sent: 0,
                audio_packets_lost: 0,
                audio_buffer_ms: 0,
            }),
    {
        ReceiverReport {
            stream_epoch: 0,
            highest_seq: 0,
            frames_complete: 0,
            frames_dropped: 0,
            frags_received: 0,
            frags_lost: 0,
            frags_repaired: 0,
            jitter_us: 0,
            decode_fps_x10: 0,
            assembler_depth: 0,
            decode_depth: 0,
            e2e_latency_ms_x10: 0,
            rtt_ms_x10: 0,
            nacks_sent: 0,
            audio_packets_lost: 0,
            audio_buffer_ms: 0,
        }
    }
}

#[derive(Clone, Copy, Debug, PartialEq, Eq, Structural)]
pub enum KeyframeReason {
    GapLoss,
}

#[derive(Clone, Copy, Debug, PartialEq, Eq, Structural)]
pub struct KeyframeRequest {
    pub stream_epoch: u32,
    pub last_complete_seq: u32,
    pub reason: KeyframeReason,
}

#[derive(Clone, Copy, Debug, PartialEq, Eq, Structural)]
pub enum ByeReason {
    UserDisconnect,
    Superseded,
}

#[derive(Clone, Copy, Debug, PartialEq, Eq, Structural)]
pub struct Ping {
    pub t1_us: u64,
}

#[derive(Clone, Copy, Debug, PartialEq, Eq, Structural)]
pub struct Pong {
    pub t1_us: u64,
    pub t2_us: u64,
    pub t3_us: u64,
}

#[derive(Clone, Copy, Debug, PartialEq, Eq, Structural)]
pub struct Heartbeat {
    pub host_time_us: u64,
    pub stream_config: StreamConfig,
}

/// The host's answer to a handshake.
#[derive(Clone, Debug)]
pub struct HelloAck {
    pub status: HelloStatus,
    pub accepted_version: u8,
    pub client_nonce: u32,
    pub session_id: u32,
    pub heartbeat_interval_ms: u16,
    pub report_interval_ms: u16,
    pub liveness_timeout_ms: u16,
    pub stream_config: StreamConfig,
    pub host_name: String,
    pub auth_token: [u8; 16],
    pub host_caps: u16,
}

/// A control message, either direction.
pub enum ControlMessage {
    Hello2(Hello2),
    HelloAck(HelloAck),
    Bye(ByeReason),
    KeyframeRequest(KeyframeRequest),
    ReceiverReport(ReceiverReport),
    Ping(Ping),
    Pong(Pong),
    Heartbeat(Heartbeat),
    StreamConfig(StreamConfig),
    InputEvent(InputEvent),
    Nack(Nack),
}

/// A repair request is well formed: a valid fragment count, and 1..=64
/// missing indices, each below the count.
pub open spec fn nack_valid(n: Nack) -> bool {
    &&& 1 <= n.frag_count <= MAX_FRAG_COUNT
    &&& 1 <= n.missing@.len() <= MAX_NACK_MISSING
    &&& forall|i: int| 0 <= i < n.missing@.len() ==> #[trigger] n.missing@[i] < n.frag_count
}

pub fn nack_validate(n: &Nack) -> (ok: bool)
    ensures
        ok == nack_valid(*n),
{
    if n.frag_count < 1 || n.frag_count > MAX_FRAG_COUNT || n.missing.len() < 1 || n.missing.len() > MAX_NACK_MISSING {
        return false;
    }
    let mut i: usize = 0;
    while i < n.missing.len()
        invariant
            0 <= i <= n.missing@.len(),
            forall|j: int| 0 <= j < i ==> #[trigger] n.missing@[j] < n.frag_count,
        decreases n.missing@.len() - i,
    {
        if n.missing[i] >= n.frag_count {
            return false;
        }
        i = i + 1;
    }
    true
}

} // verus!
