//! PC audio: the capture formats, idle-silence accounting, and the sender
//! that turns encoded Opus packets into audio datagrams for the live
//! session. Capture, resampling and encoding themselves are the
//! application's (they work on floating-point samples).

use vstd::prelude::*;
use vstd::slice::slice_to_vec;
use crate::link::PeerId;
use crate::wire::{audio_encoding, audio_validate_spec, AudioHeader};

verus! {

pub const SAMPLE_RATE: u32 = 48_000;
pub const FRAME_SAMPLES: usize = 960;
pub const BITRATE: usize = 128_000;
/// Idle silence is accounted for at most this much wall time per wait
/// (nanoseconds).
pub const MAX_SILENCE_NS: u64 = 100_000_000;
/// A packet captured longer ago than this is stale (microseconds).
pub const MAX_AUDIO_AGE_US: u64 = 100_000;

/// One encoded 20 ms Opus packet.
#[derive(Clone, Debug)]
pub struct AudioPacket {
    pub seq: u32,
    pub capture_ts_us: u64,
    pub discontinuity: bool,
    pub opus: Vec<u8>,
}

/// A packet encoded for one session.
pub struct SessionPacket {
    pub session_id: u32,
    pub packet: AudioPacket,
}

/// The interleaved sample container formats a capture endpoint hands out.
#[derive(Clone, Copy, Debug, PartialEq, Eq, Structural)]
pub enum SampleEncoding {
    Float32,
    Pcm16,
    Pcm24,
    Pcm32,
}

impl SampleEncoding {
    /// Bytes per sample.
    pub fn bytes(self) -> (n: usize)
        ensures
            n == match self {
                SampleEncoding::Pcm16 => 2usize,
                SampleEncoding::Pcm24 => 3usize,
                _ => 4usize,
            },
    {
        match self {
            SampleEncoding::Pcm16 => 2,
            SampleEncoding::Pcm24 => 3,
            _ => 4,
        }
    }
}

/// Idle silence for `elapsed_ns` of waiting (at most 100 ms counted): the
/// whole frames it spans at `rate`, and the time those frames represent.
/// Carrying the remainder forward keeps coarse timer waits from drifting.
pub open spec fn silence_span_spec(rate: u32, elapsed_ns: u64) -> (int, int) {
    let nanos: int = if elapsed_ns > MAX_SILENCE_NS { MAX_SILENCE_NS as int } else { elapsed_ns as int };
    let frames = nanos * rate / 1_000_000_000;
    (frames, frames * 1_000_000_000 / (rate as int))
}

pub fn silence_span(rate: u32, elapsed_ns: u64) -> (r: (usize, u64))
    requires
        rate > 0,
    ensures
        r.0 == silence_span_spec(rate, elapsed_ns).0,
        r.1 == silence_span_spec(rate, elapsed_ns).1,
        r.1 <= (if elapsed_ns > MAX_SILENCE_NS { MAX_SILENCE_NS } else { elapsed_ns }),
{
    let nanos: u64 = if elapsed_ns > MAX_SILENCE_NS { MAX_SILENCE_NS } else { elapsed_ns };
    assert(nanos * rate <= 100_000_000 * 0xffff_ffff) by (nonlinear_arith)
        requires nanos <= 100_000_000, rate <= 0xffff_ffff;
    let frames: u64 = nanos * (rate as u64) / 1_000_000_000;
    assert(frames <= nanos * rate / 1_000_000_000);
    assert(frames * 1_000_000_000 <= nanos * rate) by (nonlinear_arith)
        requires frames == nanos * rate / 1_000_000_000, nanos >= 0, rate > 0;
    let consumed: u64 = frames * 1_000_000_000 / (rate as u64);
    assert(consumed <= nanos) by (nonlinear_arith)
        requires consumed == frames * 1_000_000_000 / (rate as int), frames * 1_000_000_000 <= nanos * rate, rate > 0;
    assert(frames <= 0xffff_ffff) by (nonlinear_arith)
        requires frames == nanos * rate / 1_000_000_000, nanos <= 100_000_000, rate <= 0xffff_ffff;
    (frames as usize, consumed)
}

/// The number of set bits.
pub open spec fn popcount(x: u32) -> nat
    decreases x,
{
    if x == 0 { 0 } else { (x % 2) as nat + popcount(x / 2) }
}

proof fn lemma_popcount_bound(v: u32)
    ensures
        popcount(v) <= v,
    decreases v,
{
    if v != 0 {
        lemma_popcount_bound(v / 2);
    }
}

fn count_ones(x: u32) -> (n: u32)
    ensures
        n == popcount(x),
{
    proof {
        lemma_popcount_bound(x);
    }
    let mut v = x;
    let mut n: u32 = 0;
    while v != 0
        invariant
            n + popcount(v) == popcount(x),
            popcount(x) <= x,
        decreases v,
    {
        n = n + v % 2;
        v = v / 2;
    }
    n
}

/// A capture endpoint's mix format.
#[derive(Clone, Copy, Debug, PartialEq, Eq, Structural)]
pub struct PcmFormat {
    pub rate: u32,
    pub channels: u16,
    /// Speaker mask; zero means the standard layout for the channel count.
    pub channel_mask: u32,
}

/// The channel layout a format asks for: the channel count, and the speaker
/// mask when the format gives one.
#[derive(Clone, Copy, Debug, PartialEq, Eq, Structural)]
pub struct ChannelLayout {
    pub channels: u16,
    pub speaker_mask: Option<u32>,
}

pub open spec fn layout_spec(f: PcmFormat) -> Result<ChannelLayout, &'static str> {
    if !(8000 <= f.rate <= 384_000) || !(1 <= f.channels <= 8) {
        Err("unsupported audio mix format")
    } else if f.channel_mask != 0 && popcount(f.channel_mask) != f.channels {
        Err("audio channel mask disagrees with channel count")
    } else {
        Ok(ChannelLayout { channels: f.channels, speaker_mask: if f.channel_mask != 0 { Some(f.channel_mask) } else { None } })
    }
}

impl PcmFormat {
    pub fn stereo_48k() -> (f: PcmFormat)
        ensures
            f == (PcmFormat { rate: SAMPLE_RATE, channels: 2, channel_mask: 3 }),
    {
        PcmFormat { rate: SAMPLE_RATE, channels: 2, channel_mask: 3 }
    }

    /// The channel layout of a supported format: 8 to 384 kHz, one to eight
    /// channels, and a speaker mask, if any, naming as many speakers.
    pub fn layout(self) -> (r: Result<ChannelLayout, &'static str>)
        ensures
            r == layout_spec(self),
    {
        if !(8000 <= self.rate && self.rate <= 384_000) || !(1 <= self.channels && self.channels <= 8) {
            return Err("unsupported audio mix format");
        }
        if self.channel_mask != 0 && count_ones(self.channel_mask) != self.channels as u32 {
            return Err("audio channel mask disagrees with channel count");
        }
        Ok(ChannelLayout { channels: self.channels, speaker_mask: if self.channel_mask != 0 { Some(self.channel_mask) } else { None } })
    }
}

/// What to do with one encoded packet.
pub enum AudioDecision {
    /// Nothing to send: audio is off, the packet is not for the live
    /// session, or it does not make a valid datagram.
    Skip,
    /// The packet is dropped (stale or too large); the next one is marked as
    /// a discontinuity.
    Drop,
    /// Send this datagram to this peer.
    Send(PeerId, Vec<u8>),
}

/// Marks the first packet of each stream, and the first after a loss, as a
/// discontinuity.
pub struct AudioSender {
    last_stream: Option<(u32, u32)>,
    reset_pending: bool,
}

pub open spec fn audio_header_for(p: AudioPacket, session_id: u32, epoch: u32, reset_pending: bool, last_stream: Option<(u32, u32)>) -> AudioHeader {
    AudioHeader {
        session_id,
        stream_epoch: epoch,
        audio_seq: p.seq,
        capture_ts_us: p.capture_ts_us,
        discontinuity: p.discontinuity || reset_pending || last_stream != Some((session_id, epoch)),
    }
}

impl AudioSender {
    pub closed spec fn last_stream_spec(&self) -> Option<(u32, u32)> {
        self.last_stream
    }

    pub closed spec fn reset_pending_spec(&self) -> bool {
        self.reset_pending
    }

    pub fn new() -> (s: Self)
        ensures
            s.last_stream_spec() is None,
            !s.reset_pending_spec(),
    {
        AudioSender { last_stream: None, reset_pending: false }
    }

    /// Decide what to send for `queued`: only while audio is enabled, only
    /// for the session that asked for audio, only to its peer, only while
    /// the packet is fresh and the datagram fits `max_dgram`.
    pub fn prepare(
        &mut self,
        queued: &SessionPacket,
        audio_enabled: bool,
        audio_session: Option<u32>,
        peer: Option<PeerId>,
        epoch: u32,
        now_us: u64,
        max_dgram: usize,
    ) -> (d: AudioDecision)
        ensures
            final(self).last_stream_spec() == old(self).last_stream_spec(),
            ({
                let p = queued.packet;
                let h = audio_header_for(p, queued.session_id, epoch, old(self).reset_pending_spec(), old(self).last_stream_spec());
                let stale = now_us >= p.capture_ts_us && now_us - p.capture_ts_us > MAX_AUDIO_AGE_US;
                if !audio_enabled || audio_session != Some(queued.session_id) || peer is None {
                    d is Skip && final(self).reset_pending_spec() == old(self).reset_pending_spec()
                } else if stale {
                    d is Drop && final(self).reset_pending_spec()
                } else if audio_validate_spec(h, p.opus@.len() as int) is Some {
                    d is Skip && final(self).reset_pending_spec() == old(self).reset_pending_spec()
                } else if audio_encoding(h, p.opus@).len() > max_dgram {
                    d is Drop && final(self).reset_pending_spec()
                } else {
                    &&& final(self).reset_pending_spec() == old(self).reset_pending_spec()
                    &&& match d {
                        AudioDecision::Send(to, bytes) => to == peer->0 && bytes@ == audio_encoding(h, p.opus@),
                        _ => false,
                    }
                }
            }),
    {
        if !audio_enabled {
            return AudioDecision::Skip;
        }
        match audio_session {
            Some(id) => if id != queued.session_id {
                return AudioDecision::Skip;
            },
            None => {
                return AudioDecision::Skip;
            },
        }
        let to = match peer {
            Some(p) => p,
            None => {
                return AudioDecision::Skip;
            },
        };
        if now_us >= queued.packet.capture_ts_us && now_us - queued.packet.capture_ts_us > MAX_AUDIO_AGE_US {
            self.reset_pending = true;
            return AudioDecision::Drop;
        }
        let continues = match self.last_stream {
            Some((s, e)) => s == queued.session_id && e == epoch,
            None => false,
        };
        let header = AudioHeader {
            session_id: queued.session_id,
            stream_epoch: epoch,
            audio_seq: queued.packet.seq,
            capture_ts_us: queued.packet.capture_ts_us,
            discontinuity: queued.packet.discontinuity || self.reset_pending || !continues,
        };
        let datagram = match header.encode(queued.packet.opus.as_slice()) {
            Ok(bytes) => bytes,
            Err(_) => {
                return AudioDecision::Skip;
            },
        };
        if datagram.len() > max_dgram {
            self.reset_pending = true;
            return AudioDecision::Drop;
        }
        AudioDecision::Send(to, datagram)
    }

    /// The datagram of `(session_id, epoch)` went out: later packets of the
    /// same stream continue it.
    pub fn sent(&mut self, session_id: u32, epoch: u32)
        ensures
            final(self).last_stream_spec() == Some((session_id, epoch)),
            !final(self).reset_pending_spec(),
    {
        self.last_stream = Some((session_id, epoch));
        self.reset_pending = false;
    }

    /// Sending failed: the next packet starts afresh.
    pub fn send_failed(&mut self)
        ensures
            final(self).last_stream_spec() == old(self).last_stream_spec(),
            final(self).reset_pending_spec(),
    {
        self.reset_pending = true;
    }
}

/// A deterministic test source: a 1 kHz tone, with 100 ms of digital
/// silence at the end of every two-second period. Sample time never
/// depends on polling.
pub struct SyntheticSource {
    position: u64,
}

/// Where sample `position` falls: `None` in the silent tail of its
/// two-second period, else its phase among the 48 samples of one tone cycle.
pub open spec fn synthetic_phase(position: u64) -> Option<u8> {
    if (position as int) % 96000 >= 91200 {
        None
    } else {
        Some((position % 48) as u8)
    }
}

impl SyntheticSource {
    pub closed spec fn position_view(&self) -> u64 {
        self.position
    }

    pub fn new() -> (s: Self)
        ensures
            s.position_view() == 0,
    {
        SyntheticSource { position: 0 }
    }

    /// The next `count` samples as phases (see `synthetic_phase`).
    pub fn read_phases(&mut self, count: usize) -> (phases: Vec<Option<u8>>)
        requires
            old(self).position_view() + count <= u64::MAX,
        ensures
            final(self).position_view() == old(self).position_view() + count,
            phases@.len() == count,
            forall|k: int| 0 <= k < count ==> phases@[k] == synthetic_phase((old(self).position_view() + k) as u64),
    {
        let start = self.position;
        let mut phases: Vec<Option<u8>> = Vec::new();
        let mut k: usize = 0;
        while k < count
            invariant
                0 <= k <= count,
                start + count <= u64::MAX,
                self.position == start + k,
                phases@.len() == k,
                forall|j: int| 0 <= j < k ==> phases@[j] == synthetic_phase((start + j) as u64),
            decreases count - k,
        {
            let position = self.position;
            self.position = self.position + 1;
            let phase = if position % (2 * SAMPLE_RATE as u64) >= (SAMPLE_RATE as u64) * 19 / 10 {
                None
            } else {
                Some((position % 48) as u8)
            };
            phases.push(phase);
            k = k + 1;
        }
        phases
    }
}

impl Default for SyntheticSource {
    fn default() -> (s: Self)
        ensures
            s.position_view() == 0,
    {
        SyntheticSource::new()
    }
}

} // verus!
