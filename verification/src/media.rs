//! The media and repair-request records that the reassembler consumes and
//! produces: one fragment header per video datagram, and the negative
//! acknowledgement that asks the host to resend missing fragments.

use vstd::prelude::*;

verus! {

/// The most fragments one access unit may be split into.
pub const MAX_FRAG_COUNT: u16 = 1024;
/// The most fragment indices one repair request may carry.
pub const MAX_NACK_MISSING: usize = 64;
/// Set in byte 4 of a media datagram that repeats an earlier transmission.
pub const MEDIA_FLAG_RETRANSMIT: u8 = 0x02;

#[derive(Clone, Copy, Debug, PartialEq, Eq, Structural)]
pub struct MediaHeader {
    pub session_id: u32,
    pub stream_epoch: u32,
    pub frame_seq: u32,
    pub frag_index: u16,
    pub frag_count: u16,
    pub is_keyframe: bool,
    pub is_retransmit: bool,
    pub capture_ts_us: u64,
    pub payload_len: u16,
}

/// A request to resend the listed fragments of one frame.
#[derive(Clone, Debug, PartialEq, Eq)]
pub struct Nack {
    pub stream_epoch: u32,
    pub frame_seq: u32,
    pub frag_count: u16,
    pub missing: Vec<u16>,
}

} // verus!
