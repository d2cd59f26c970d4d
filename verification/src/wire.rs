//! Protocol-v2 datagram framing shared by every packet type, and the audio
//! header: one 20 ms Opus packet with its own sequence and the video's
//! stream epoch.
//!
//! Every datagram starts with an eight-byte common prefix: two magic bytes,
//! the protocol version, the packet type, a flags byte, a reserved byte and
//! the little-endian payload length.

use vstd::prelude::*;
use vstd::bytes::*;
use vstd::slice::*;

verus! {

/// The largest datagram either side sends or accepts.
pub const MAX_DGRAM_SIZE: usize = 1400;
pub const PREFIX_SIZE: usize = 8;
pub const WIRE_MAGIC_0: u8 = 0x45;
pub const WIRE_MAGIC_1: u8 = 0x4D;
pub const WIRE_VERSION: u8 = 2;

pub const TYPE_CONTROL: u8 = 1;
pub const TYPE_MEDIA: u8 = 2;
pub const TYPE_AUDIO: u8 = 3;

pub const AUDIO_HEADER_SIZE: usize = 28;
pub const AUDIO_FLAG_DISCONTINUITY: u8 = 1;

/// The header field a decoder rejected.
#[derive(Clone, Copy, Debug, PartialEq, Eq, Structural)]
pub enum Field {
    Magic,
    Version,
    PacketType,
    SessionId,
    StreamEpoch,
    PayloadLen,
}

#[derive(Clone, Copy, Debug, PartialEq, Eq, Structural)]
pub enum WireError {
    Truncated,
    LengthMismatch,
    InvalidField(Field),
}

/// The packet family of a datagram, judged from its common prefix alone.
#[derive(Clone, Copy, Debug, PartialEq, Eq, Structural)]
pub enum Classified {
    Control { flags: u8 },
    Media { flags: u8 },
    Audio { flags: u8 },
    Invalid,
}

#[derive(Clone, Copy, Debug, PartialEq, Eq, Structural)]
pub struct CommonPrefix {
    pub packet_type: u8,
    pub flags: u8,
    pub payload_len: u16,
}

#[derive(Clone, Copy, Debug, PartialEq, Eq, Structural)]
pub struct AudioHeader {
    pub session_id: u32,
    pub stream_epoch: u32,
    pub audio_seq: u32,
    pub capture_ts_us: u64,
    pub discontinuity: bool,
}

/// The eight prefix bytes for a datagram of this type, flags and payload length.
pub open spec fn prefix_bytes(p: CommonPrefix) -> Seq<u8> {
    seq![WIRE_MAGIC_0, WIRE_MAGIC_1, WIRE_VERSION, p.packet_type, p.flags, 0u8]
        + spec_u16_to_le_bytes(p.payload_len)
}

/// What `CommonPrefix::decode` makes of a byte sequence.
pub open spec fn decode_prefix_spec(b: Seq<u8>) -> Result<CommonPrefix, WireError> {
    if b.len() < PREFIX_SIZE {
        Err(WireError::Truncated)
    } else if b[0] != WIRE_MAGIC_0 || b[1] != WIRE_MAGIC_1 {
        Err(WireError::InvalidField(Field::Magic))
    } else if b[2] != WIRE_VERSION {
        Err(WireError::InvalidField(Field::Version))
    } else {
        Ok(
            CommonPrefix {
                packet_type: b[3],
                flags: b[4],
                payload_len: spec_u16_from_le_bytes(b.subrange(6, 8)),
            },
        )
    }
}

pub open spec fn classify_spec(b: Seq<u8>) -> Classified {
    match decode_prefix_spec(b) {
        Ok(p) => if p.packet_type == TYPE_CONTROL {
            Classified::Control { flags: p.flags }
        } else if p.packet_type == TYPE_MEDIA {
            Classified::Media { flags: p.flags }
        } else if p.packet_type == TYPE_AUDIO {
            Classified::Audio { flags: p.flags }
        } else {
            Classified::Invalid
        },
        Err(_) => Classified::Invalid,
    }
}

pub open spec fn audio_flags(h: AudioHeader) -> u8 {
    if h.discontinuity {
        AUDIO_FLAG_DISCONTINUITY
    } else {
        0
    }
}

/// The identity and size rules every audio packet obeys; `None` when valid.
pub open spec fn audio_validate_spec(h: AudioHeader, payload_len: int) -> Option<WireError> {
    if h.session_id == 0 {
        Some(WireError::InvalidField(Field::SessionId))
    } else if h.stream_epoch == 0 {
        Some(WireError::InvalidField(Field::StreamEpoch))
    } else if payload_len == 0 || payload_len > MAX_DGRAM_SIZE - AUDIO_HEADER_SIZE {
        Some(WireError::InvalidField(Field::PayloadLen))
    } else {
        None
    }
}

/// The complete datagram for one audio packet.
pub open spec fn audio_encoding(h: AudioHeader, opus: Seq<u8>) -> Seq<u8> {
    prefix_bytes(
        CommonPrefix { packet_type: TYPE_AUDIO, flags: audio_flags(h), payload_len: opus.len() as u16 },
    ) + spec_u32_to_le_bytes(h.session_id) + spec_u32_to_le_bytes(h.stream_epoch)
        + spec_u32_to_le_bytes(h.audio_seq) + spec_u64_to_le_bytes(h.capture_ts_us) + opus
}

/// The header fields stored in bytes 8..28 of an audio datagram.
pub open spec fn audio_fields(b: Seq<u8>, flags: u8) -> AudioHeader {
    AudioHeader {
        session_id: spec_u32_from_le_bytes(b.subrange(8, 12)),
        stream_epoch: spec_u32_from_le_bytes(b.subrange(12, 16)),
        audio_seq: spec_u32_from_le_bytes(b.subrange(16, 20)),
        capture_ts_us: spec_u64_from_le_bytes(b.subrange(20, 28)),
        discontinuity: flags & AUDIO_FLAG_DISCONTINUITY != 0,
    }
}

/// What `AudioHeader::decode` makes of a byte sequence.
pub open spec fn audio_decode_spec(b: Seq<u8>) -> Result<(AudioHeader, Seq<u8>), WireError> {
    match decode_prefix_spec(b) {
        Err(e) => Err(e),
        Ok(p) => if p.packet_type != TYPE_AUDIO {
            Err(WireError::InvalidField(Field::PacketType))
        } else if b.len() < AUDIO_HEADER_SIZE {
            Err(WireError::Truncated)
        } else if p.payload_len as int != b.len() - AUDIO_HEADER_SIZE {
            Err(WireError::LengthMismatch)
        } else {
            let h = audio_fields(b, p.flags);
            match audio_validate_spec(h, b.len() - AUDIO_HEADER_SIZE) {
                Some(e) => Err(e),
                None => Ok((h, b.subrange(AUDIO_HEADER_SIZE as int, b.len() as int))),
            }
        },
    }
}

fn push_all(out: &mut Vec<u8>, mut more: Vec<u8>)
    ensures
        final(out)@ == old(out)@ + more@,
{
    out.append(&mut more);
}

impl CommonPrefix {
    /// The prefix as the first eight bytes of a new datagram buffer.
    pub fn encode(self) -> (bytes: Vec<u8>)
        ensures
            bytes@ == prefix_bytes(self),
    {
        let mut bytes: Vec<u8> = Vec::new();
        bytes.push(WIRE_MAGIC_0);
        bytes.push(WIRE_MAGIC_1);
        bytes.push(WIRE_VERSION);
        bytes.push(self.packet_type);
        bytes.push(self.flags);
        bytes.push(0u8);
        push_all(&mut bytes, u16_to_le_bytes(self.payload_len));
        assert(bytes@ =~= prefix_bytes(self));
        bytes
    }

    pub fn decode(bytes: &[u8]) -> (result: Result<CommonPrefix, WireError>)
        ensures
            result == decode_prefix_spec(bytes@),
    {
        if bytes.len() < PREFIX_SIZE {
            return Err(WireError::Truncated);
        }
        if bytes[0] != WIRE_MAGIC_0 || bytes[1] != WIRE_MAGIC_1 {
            return Err(WireError::InvalidField(Field::Magic));
        }
        if bytes[2] != WIRE_VERSION {
            return Err(WireError::InvalidField(Field::Version));
        }
        let len = u16_from_le_bytes(slice_subrange(bytes, 6, 8));
        Ok(CommonPrefix { packet_type: bytes[3], flags: bytes[4], payload_len: len })
    }
}

/// Sorts a datagram by its prefix without decoding the rest.
pub fn classify(bytes: &[u8]) -> (c: Classified)
    ensures
        c == classify_spec(bytes@),
{
    match CommonPrefix::decode(bytes) {
        Ok(p) => if p.packet_type == TYPE_CONTROL {
            Classified::Control { flags: p.flags }
        } else if p.packet_type == TYPE_MEDIA {
            Classified::Media { flags: p.flags }
        } else if p.packet_type == TYPE_AUDIO {
            Classified::Audio { flags: p.flags }
        } else {
            Classified::Invalid
        },
        Err(_) => Classified::Invalid,
    }
}

impl AudioHeader {
    pub fn validate(self, payload_len: usize) -> (result: Result<(), WireError>)
        ensures
            match audio_validate_spec(self, payload_len as int) {
                Some(e) => result == Err::<(), WireError>(e),
                None => result is Ok,
            },
    {
        if self.session_id == 0 {
            return Err(WireError::InvalidField(Field::SessionId));
        }
        if self.stream_epoch == 0 {
            return Err(WireError::InvalidField(Field::StreamEpoch));
        }
        if payload_len == 0 || payload_len > MAX_DGRAM_SIZE - AUDIO_HEADER_SIZE {
            return Err(WireError::InvalidField(Field::PayloadLen));
        }
        Ok(())
    }

    /// The full datagram: prefix, header fields and the Opus payload.
    pub fn encode(self, opus: &[u8]) -> (result: Result<Vec<u8>, WireError>)
        ensures
            match audio_validate_spec(self, opus@.len() as int) {
                Some(e) => result == Err::<Vec<u8>, WireError>(e),
                None => result matches Ok(bytes) && bytes@ == audio_encoding(self, opus@),
            },
    {
        match self.validate(opus.len()) {
            Err(e) => return Err(e),
            Ok(()) => {},
        }
        let flags = if self.discontinuity {
            AUDIO_FLAG_DISCONTINUITY
        } else {
            0
        };
        let mut bytes = CommonPrefix {
            packet_type: TYPE_AUDIO,
            flags,
            payload_len: opus.len() as u16,
        }.encode();
        push_all(&mut bytes, u32_to_le_bytes(self.session_id));
        push_all(&mut bytes, u32_to_le_bytes(self.stream_epoch));
        push_all(&mut bytes, u32_to_le_bytes(self.audio_seq));
        push_all(&mut bytes, u64_to_le_bytes(self.capture_ts_us));
        push_all(&mut bytes, slice_to_vec(opus));
        Ok(bytes)
    }

    /// Splits a datagram into its header and Opus payload.
    pub fn decode(bytes: &[u8]) -> (result: Result<(AudioHeader, &[u8]), WireError>)
        ensures
            match audio_decode_spec(bytes@) {
                Ok((h, p)) => result matches Ok((h2, p2)) && h2 == h && p2@ == p,
                Err(e) => result == Err::<(AudioHeader, &[u8]), WireError>(e),
            },
    {
        let prefix = match CommonPrefix::decode(bytes) {
            Ok(p) => p,
            Err(e) => return Err(e),
        };
        if prefix.packet_type != TYPE_AUDIO {
            return Err(WireError::InvalidField(Field::PacketType));
        }
        if bytes.len() < AUDIO_HEADER_SIZE {
            return Err(WireError::Truncated);
        }
        let payload = slice_subrange(bytes, AUDIO_HEADER_SIZE, bytes.len());
        if prefix.payload_len as usize != payload.len() {
            return Err(WireError::LengthMismatch);
        }
        let header = AudioHeader {
            session_id: u32_from_le_bytes(slice_subrange(bytes, 8, 12)),
            stream_epoch: u32_from_le_bytes(slice_subrange(bytes, 12, 16)),
            audio_seq: u32_from_le_bytes(slice_subrange(bytes, 16, 20)),
            capture_ts_us: u64_from_le_bytes(slice_subrange(bytes, 20, 28)),
            discontinuity: prefix.flags & AUDIO_FLAG_DISCONTINUITY != 0,
        };
        match header.validate(payload.len()) {
            Err(e) => return Err(e),
            Ok(()) => {},
        }
        Ok((header, payload))
    }
}

} // verus!

verus! {

/// Decoding an encoded audio packet gives back its header and payload,
/// for every header and payload that the encoder accepts.
pub proof fn lemma_audio_encode_decode(h: AudioHeader, opus: Seq<u8>)
    requires
        audio_validate_spec(h, opus.len() as int) is None,
    ensures
        audio_decode_spec(audio_encoding(h, opus)) == Ok::<(AudioHeader, Seq<u8>), WireError>((h, opus)),
{
    lemma_auto_spec_u16_to_from_le_bytes();
    lemma_auto_spec_u32_to_from_le_bytes();
    lemma_auto_spec_u64_to_from_le_bytes();
    let b = audio_encoding(h, opus);
    let f = audio_flags(h);
    let pre = prefix_bytes(CommonPrefix { packet_type: TYPE_AUDIO, flags: f, payload_len: opus.len() as u16 });
    assert(b.len() == 28 + opus.len());
    assert(b.subrange(6, 8) =~= spec_u16_to_le_bytes(opus.len() as u16));
    assert(b.subrange(8, 12) =~= spec_u32_to_le_bytes(h.session_id));
    assert(b.subrange(12, 16) =~= spec_u32_to_le_bytes(h.stream_epoch));
    assert(b.subrange(16, 20) =~= spec_u32_to_le_bytes(h.audio_seq));
    assert(b.subrange(20, 28) =~= spec_u64_to_le_bytes(h.capture_ts_us));
    assert(b.subrange(28, b.len() as int) =~= opus);
    assert(b[4] == f);
    assert((1u8 & 1u8) != 0u8 && (0u8 & 1u8) == 0u8) by (bit_vector);
    assert(audio_fields(b, b[4]) == h);
}

/// A datagram the decoder accepts is exactly the encoding of what it
/// decoded, when its flags byte holds only the discontinuity bit and its
/// reserved byte is zero.
pub proof fn lemma_audio_decode_encode(b: Seq<u8>)
    requires
        audio_decode_spec(b) is Ok,
        b[4] == 0 || b[4] == 1,
        b[5] == 0,
    ensures
        audio_decode_spec(b) matches Ok((h, p)) && audio_encoding(h, p) == b,
{
    lemma_auto_spec_u16_to_from_le_bytes();
    lemma_auto_spec_u32_to_from_le_bytes();
    lemma_auto_spec_u64_to_from_le_bytes();
    let (h, p) = audio_decode_spec(b).unwrap();
    assert((1u8 & 1u8) != 0u8 && (0u8 & 1u8) == 0u8) by (bit_vector);
    assert(audio_flags(h) == b[4]);
    let e = audio_encoding(h, p);
    assert(p.len() as u16 == spec_u16_from_le_bytes(b.subrange(6, 8)));
    assert(e =~= b) by {
        assert(e.subrange(6, 8) =~= spec_u16_to_le_bytes(p.len() as u16));
        assert(b.subrange(6, 8) == spec_u16_to_le_bytes(spec_u16_from_le_bytes(b.subrange(6, 8))));
        assert(b.subrange(8, 12) == spec_u32_to_le_bytes(h.session_id));
        assert(b.subrange(12, 16) == spec_u32_to_le_bytes(h.stream_epoch));
        assert(b.subrange(16, 20) == spec_u32_to_le_bytes(h.audio_seq));
        assert(b.subrange(20, 28) == spec_u64_to_le_bytes(h.capture_ts_us));
        assert forall|i: int| 0 <= i < b.len() implies e[i] == b[i] by {
            if 6 <= i < 8 {
                assert(e[i] == e.subrange(6, 8)[i - 6]);
                assert(b[i] == b.subrange(6, 8)[i - 6]);
            } else if 8 <= i < 12 {
                assert(e[i] == spec_u32_to_le_bytes(h.session_id)[i - 8]);
                assert(b[i] == b.subrange(8, 12)[i - 8]);
            } else if 12 <= i < 16 {
                assert(e[i] == spec_u32_to_le_bytes(h.stream_epoch)[i - 12]);
                assert(b[i] == b.subrange(12, 16)[i - 12]);
            } else if 16 <= i < 20 {
                assert(e[i] == spec_u32_to_le_bytes(h.audio_seq)[i - 16]);
                assert(b[i] == b.subrange(16, 20)[i - 16]);
            } else if 20 <= i < 28 {
                assert(e[i] == spec_u64_to_le_bytes(h.capture_ts_us)[i - 20]);
                assert(b[i] == b.subrange(20, 28)[i - 20]);
            } else if i >= 28 {
                assert(e[i] == p[i - 28]);
            }
        }
    }
}

} // verus!
