//! Datagram links. The USB tunnel is a byte stream, so each datagram travels
//! behind a two-byte little-endian length after an eight-byte preamble; its
//! outbound video queue holds whole access units and discards queued video
//! when the reader falls behind.
//!
//! Sockets, tasks and the byte streams themselves belong to the application;
//! this module holds the framing rules and the queue.

use vstd::prelude::*;
use vstd::bytes::{spec_u16_to_le_bytes, u16_to_le_bytes, u16_from_le_bytes, lemma_auto_spec_u16_to_from_le_bytes};
use crate::media::MediaHeader;
use crate::wire::MAX_DGRAM_SIZE;

verus! {

/// The first eight bytes either side writes on a tunnel.
pub const PREAMBLE_SIZE: usize = 8;
pub const FRAME_LIMIT: usize = 2;
pub const BYTE_LIMIT: usize = 1024 * 1024;
pub const CONTROL_LIMIT: usize = 64;

pub open spec fn preamble() -> Seq<u8> {
    seq![0x45u8, 0x4D, 0x4C, 0x49, 0x4E, 0x4B, 0x01, 0x00]
}

#[derive(Clone, Copy, Debug, PartialEq, Eq, Hash, Structural)]
pub enum LinkId {
    Udp,
    Usb { device_id: u32 },
}

#[derive(Clone, Copy, Debug, PartialEq, Eq, Hash, Structural)]
pub enum IpAddress {
    V4(u32),
    V6(u128),
}

#[derive(Clone, Copy, Debug, PartialEq, Eq, Hash, Structural)]
pub struct SocketAddress {
    pub ip: IpAddress,
    pub port: u16,
}

/// Who a datagram came from or goes to: the link, and on UDP the address.
#[derive(Clone, Copy, Debug, PartialEq, Eq, Hash, Structural)]
pub struct PeerId {
    pub link: LinkId,
    pub addr: Option<SocketAddress>,
}

impl PeerId {
    pub fn udp(addr: SocketAddress) -> (p: Self)
        ensures
            p.link == LinkId::Udp,
            p.addr == Some(addr),
    {
        PeerId { link: LinkId::Udp, addr: Some(addr) }
    }

    pub fn usb(device_id: u32) -> (p: Self)
        ensures
            p.link == (LinkId::Usb { device_id }),
            p.addr.is_none(),
    {
        PeerId { link: LinkId::Usb { device_id }, addr: None }
    }
}

/// Why a tunnel refused a packet.
#[derive(Clone, Copy, Debug, PartialEq, Eq, Structural)]
pub enum LinkError {
    /// A datagram outside 1..=1400 bytes.
    PacketLength,
    /// The tunnel did not start with the expected preamble.
    Preamble,
    /// A first fragment arrived while the previous access unit is unfinished.
    UnfinishedAccessUnit,
    /// A later fragment arrived with no access unit started.
    MissingFirstFragment,
    /// A fragment does not continue the access unit being queued.
    FragmentOrder,
    /// The control queue is full.
    ControlQueueFull,
}

pub open spec fn length_ok(len: int) -> bool {
    1 <= len <= MAX_DGRAM_SIZE
}

/// A datagram must be 1..=1400 bytes long to travel on a link.
pub fn check_length(len: usize) -> (r: Result<(), LinkError>)
    ensures
        r is Ok <==> length_ok(len as int),
        r is Err ==> r == Err::<(), LinkError>(LinkError::PacketLength),
{
    if len < 1 || len > MAX_DGRAM_SIZE {
        return Err(LinkError::PacketLength);
    }
    Ok(())
}

/// Whether the first eight bytes read from a tunnel are the preamble.
pub fn check_preamble(bytes: &[u8]) -> (r: Result<(), LinkError>)
    ensures
        r is Ok <==> bytes@ == preamble(),
        r is Err ==> r == Err::<(), LinkError>(LinkError::Preamble),
{
    let expected: [u8; 8] = [0x45, 0x4D, 0x4C, 0x49, 0x4E, 0x4B, 0x01, 0x00];
    assert(expected@ =~= preamble());
    if bytes.len() != PREAMBLE_SIZE {
        return Err(LinkError::Preamble);
    }
    let mut i: usize = 0;
    while i < PREAMBLE_SIZE
        invariant
            bytes@.len() == PREAMBLE_SIZE,
            expected@ == preamble(),
            0 <= i <= PREAMBLE_SIZE,
            forall|j: int| 0 <= j < i ==> bytes@[j] == preamble()[j],
        decreases PREAMBLE_SIZE - i,
    {
        if bytes[i] != expected[i] {
            return Err(LinkError::Preamble);
        }
        i = i + 1;
    }
    assert(bytes@ =~= preamble());
    Ok(())
}

/// The preamble the connecting side writes.
pub fn preamble_bytes() -> (b: Vec<u8>)
    ensures
        b@ == preamble(),
{
    let b = vec![0x45u8, 0x4D, 0x4C, 0x49, 0x4E, 0x4B, 0x01, 0x00];
    assert(b@ =~= preamble());
    b
}

/// A datagram as it travels on a tunnel: its length, then its bytes.
pub open spec fn framed(datagram: Seq<u8>) -> Seq<u8> {
    spec_u16_to_le_bytes(datagram.len() as u16) + datagram
}

/// Frame a datagram for a tunnel.
pub fn frame_datagram(datagram: &[u8]) -> (r: Result<Vec<u8>, LinkError>)
    ensures
        r is Ok <==> length_ok(datagram@.len() as int),
        r is Ok ==> r->Ok_0@ == framed(datagram@),
        r is Err ==> r == Err::<Vec<u8>, LinkError>(LinkError::PacketLength),
{
    check_length(datagram.len())?;
    let mut out = u16_to_le_bytes(datagram.len() as u16);
    let mut i: usize = 0;
    let ghost head = out@;
    while i < datagram.len()
        invariant
            0 <= i <= datagram@.len(),
            out@ == head + datagram@.take(i as int),
        decreases datagram@.len() - i,
    {
        out.push(datagram[i]);
        assert(head + datagram@.take(i + 1) =~= (head + datagram@.take(i as int)).push(datagram@[i as int]));
        i = i + 1;
    }
    assert(datagram@.take(i as int) =~= datagram@);
    Ok(out)
}

/// The length a tunnel announces for the next datagram, checked before its
/// body is read.
pub fn framed_length(prefix: &[u8]) -> (r: Result<usize, LinkError>)
    requires
        prefix@.len() == 2,
    ensures
        r is Ok <==> length_ok(u16_from_le_bytes_spec(prefix@) as int),
        r is Ok ==> r->Ok_0 == u16_from_le_bytes_spec(prefix@),
        r is Err ==> r == Err::<usize, LinkError>(LinkError::PacketLength),
{
    let len = u16_from_le_bytes(prefix) as usize;
    check_length(len)?;
    Ok(len)
}

pub open spec fn u16_from_le_bytes_spec(b: Seq<u8>) -> u16 {
    vstd::bytes::spec_u16_from_le_bytes(b)
}

/// Reading back a framed datagram gives the datagram.
pub proof fn lemma_framing_round_trip(datagram: Seq<u8>)
    requires
        length_ok(datagram.len() as int),
    ensures
        u16_from_le_bytes_spec(framed(datagram).subrange(0, 2)) == datagram.len(),
        framed(datagram).subrange(2, framed(datagram).len() as int) == datagram,
{
    lemma_auto_spec_u16_to_from_le_bytes();
    let f = framed(datagram);
    assert(f.subrange(0, 2) =~= spec_u16_to_le_bytes(datagram.len() as u16));
    assert(f.subrange(2, f.len() as int) =~= datagram);
}

/// One queued access unit as the contracts see it.
pub struct QueuedView {
    pub epoch: u32,
    pub seq: u32,
    pub frag_count: u16,
    pub datagrams: Seq<Seq<u8>>,
}

pub open spec fn queued_bytes(d: Seq<Seq<u8>>) -> nat
    decreases d.len(),
{
    if d.len() == 0 { 0 } else { queued_bytes(d.drop_last()) + d.last().len() }
}

pub open spec fn frames_bytes(frames: Seq<QueuedView>) -> nat
    decreases frames.len(),
{
    if frames.len() == 0 { 0 } else { frames_bytes(frames.drop_last()) + queued_bytes(frames.last().datagrams) }
}

pub open spec fn complete(f: QueuedView) -> bool {
    f.datagrams.len() == f.frag_count
}

/// The outbound video queue as the contracts see it.
pub struct VideoView {
    pub frames: Seq<QueuedView>,
    pub revision: u64,
    pub awaiting_keyframe: bool,
    pub discarded: Option<(u32, u32)>,
}

/// Everything queued is dropped and the queue waits for a keyframe.
pub open spec fn cleared(q: VideoView) -> VideoView {
    VideoView {
        frames: seq![],
        revision: (if q.revision == u64::MAX { 0 } else { q.revision + 1 }) as u64,
        awaiting_keyframe: true,
        discarded: q.discarded,
    }
}

/// Queueing one video datagram: the whole frames it dropped, and the queue
/// after. All dependent frames are discarded until a new keyframe starts, and
/// queued frames are superseded so a stalled tunnel always makes room for the
/// newest recovery frame.
pub open spec fn push_spec(q: VideoView, h: MediaHeader, d: Seq<u8>) -> (Result<u64, LinkError>, VideoView) {
    let key = (h.stream_epoch, h.frame_seq);
    if q.discarded == Some(key) {
        (Ok(0), q)
    } else if q.awaiting_keyframe && !(h.is_keyframe && h.frag_index == 0) {
        (Ok(1), VideoView { discarded: Some(key), ..q })
    } else {
        let q0 = VideoView { awaiting_keyframe: false, ..q };
        let bytes = frames_bytes(q0.frames);
        // A first fragment starts a new access unit.
        let started: Option<(Result<u64, LinkError>, VideoView)> = if h.frag_index == 0 {
            if q0.frames.len() > 0 && !complete(q0.frames.last()) {
                Some((Err(LinkError::UnfinishedAccessUnit), q0))
            } else if q0.frames.len() >= FRAME_LIMIT || bytes + d.len() > BYTE_LIMIT {
                let dropped = q0.frames.len() as u64;
                if !h.is_keyframe {
                    Some((Ok((dropped + 1) as u64), VideoView { discarded: Some(key), ..cleared(q0) }))
                } else {
                    None
                }
            } else {
                None
            }
        } else {
            None
        };
        match started {
            Some(r) => r,
            None => {
                let recovered = h.frag_index == 0 && (q0.frames.len() >= FRAME_LIMIT || bytes + d.len() > BYTE_LIMIT);
                let dropped: u64 = if recovered { q0.frames.len() as u64 } else { 0 };
                let q1 = if recovered { VideoView { awaiting_keyframe: false, ..cleared(q0) } } else { q0 };
                let q2 = if h.frag_index == 0 {
                    VideoView {
                        frames: q1.frames.push(QueuedView {
                            epoch: h.stream_epoch,
                            seq: h.frame_seq,
                            frag_count: h.frag_count,
                            datagrams: seq![],
                        }),
                        ..q1
                    }
                } else {
                    q1
                };
                if q2.frames.len() == 0 {
                    (Err(LinkError::MissingFirstFragment), q2)
                } else if q2.frames.last().epoch != h.stream_epoch || q2.frames.last().seq != h.frame_seq
                    || q2.frames.last().frag_count != h.frag_count
                    || q2.frames.last().datagrams.len() != h.frag_index {
                    (Err(LinkError::FragmentOrder), q2)
                } else if frames_bytes(q2.frames) + d.len() > BYTE_LIMIT {
                    (Ok((dropped + q2.frames.len()) as u64), VideoView { discarded: Some(key), ..cleared(q2) })
                } else {
                    let last = q2.frames.last();
                    (Ok(dropped), VideoView {
                        frames: q2.frames.update(
                            q2.frames.len() - 1,
                            QueuedView { datagrams: last.datagrams.push(d), ..last },
                        ),
                        ..q2
                    })
                }
            },
        }
    }
}

struct QueuedFrame {
    epoch: u32,
    seq: u32,
    frag_count: u16,
    datagrams: Vec<Vec<u8>>,
    bytes: usize,
}

pub open spec fn views_of(d: Seq<Vec<u8>>) -> Seq<Seq<u8>> {
    d.map_values(|v: Vec<u8>| v@)
}

impl QueuedFrame {
    spec fn view(&self) -> QueuedView {
        QueuedView { epoch: self.epoch, seq: self.seq, frag_count: self.frag_count, datagrams: views_of(self.datagrams@) }
    }
}

/// A complete access unit taken from the queue.
pub struct DequeuedFrame {
    pub epoch: u32,
    pub seq: u32,
    pub datagrams: Vec<Vec<u8>>,
}

/// Complete access units are the unit of delivery and eviction. A partial
/// frame cannot leave the queue, even if its fragments arrive in separate
/// calls.
pub struct VideoQueue {
    frames: Vec<QueuedFrame>,
    bytes: usize,
    revision: u64,
    awaiting_keyframe: bool,
    discarded: Option<(u32, u32)>,
}

proof fn lemma_queued_bytes_push(d: Seq<Seq<u8>>, x: Seq<u8>)
    ensures
        queued_bytes(d.push(x)) == queued_bytes(d) + x.len(),
{
    assert(d.push(x).drop_last() =~= d);
}

proof fn lemma_frames_bytes_front(frames: Seq<QueuedView>)
    requires
        frames.len() > 0,
    ensures
        frames_bytes(frames) == queued_bytes(frames[0].datagrams) + frames_bytes(frames.drop_first()),
    decreases frames.len(),
{
    if frames.len() > 1 {
        lemma_frames_bytes_front(frames.drop_last());
        assert(frames.drop_last().drop_first() =~= frames.drop_first().drop_last());
    } else {
        assert(frames.drop_last() =~= Seq::<QueuedView>::empty());
        assert(frames.drop_first() =~= Seq::<QueuedView>::empty());
    }
}

impl VideoQueue {
    spec fn frames_view(&self) -> Seq<QueuedView> {
        self.frames@.map_values(|f: QueuedFrame| f.view())
    }

    pub closed spec fn view(&self) -> VideoView {
        VideoView {
            frames: self.frames_view(),
            revision: self.revision,
            awaiting_keyframe: self.awaiting_keyframe,
            discarded: self.discarded,
        }
    }

    /// Bytes are counted exactly, and both limits hold.
    pub closed spec fn wf(&self) -> bool {
        &&& self.bytes == frames_bytes(self.frames_view())
        &&& forall|i: int| 0 <= i < self.frames@.len() ==> #[trigger] self.frames@[i].bytes == queued_bytes(
            views_of(self.frames@[i].datagrams@),
        )
        &&& self.bytes <= BYTE_LIMIT
        &&& self.frames@.len() <= FRAME_LIMIT
    }

    pub fn new() -> (q: Self)
        ensures
            q.wf(),
            q.view() == (VideoView { frames: seq![], revision: 0, awaiting_keyframe: false, discarded: None }),
    {
        let q = VideoQueue { frames: Vec::new(), bytes: 0, revision: 0, awaiting_keyframe: false, discarded: None };
        assert(q.frames_view() =~= Seq::<QueuedView>::empty());
        q
    }

    /// How many bytes the queued datagrams take.
    pub fn queued_bytes(&self) -> (n: usize)
        requires
            self.wf(),
        ensures
            n == frames_bytes(self.view().frames),
    {
        self.bytes
    }

    /// How many access units are queued, complete or not.
    pub fn len(&self) -> (n: usize)
        ensures
            n == self.view().frames.len(),
    {
        self.frames.len()
    }

    /// Drop everything queued and wait for a keyframe; returns the whole
    /// frames dropped.
    fn clear_for_recovery(&mut self) -> (dropped: u64)
        requires
            old(self).wf(),
        ensures
            final(self).wf(),
            final(self).view() == cleared(old(self).view()),
            dropped == old(self).view().frames.len(),
    {
        let dropped = self.frames.len() as u64;
        self.frames = Vec::new();
        self.bytes = 0;
        self.revision = self.revision.wrapping_add(1);
        self.awaiting_keyframe = true;
        assert(self.frames_view() =~= Seq::<QueuedView>::empty());
        dropped
    }

    /// Queue one video datagram whose header is `header`; returns the whole
    /// frames dropped.
    pub fn push(&mut self, header: MediaHeader, bytes: &[u8]) -> (r: Result<u64, LinkError>)
        requires
            old(self).wf(),
            bytes@.len() <= usize::MAX / 2,
        ensures
            final(self).wf(),
            (r, final(self).view()) == push_spec(old(self).view(), header, bytes@),
    {
        let ghost q = self.view();
        let key = (header.stream_epoch, header.frame_seq);
        match self.discarded {
            Some(d) => {
                if d.0 == key.0 && d.1 == key.1 {
                    return Ok(0);
                }
            },
            None => {},
        }
        if self.awaiting_keyframe {
            if header.is_keyframe && header.frag_index == 0 {
                self.awaiting_keyframe = false;
            } else {
                self.discarded = Some(key);
                return Ok(1);
            }
        }
        let ghost q0 = self.view();
        assert(q0 == VideoView { awaiting_keyframe: false, ..q });
        let mut dropped: u64 = 0;
        if header.frag_index == 0 {
            let n = self.frames.len();
            if n > 0 && self.frames[n - 1].datagrams.len() != self.frames[n - 1].frag_count as usize {
                return Err(LinkError::UnfinishedAccessUnit);
            }
            if self.frames.len() >= FRAME_LIMIT || self.bytes + bytes.len() > BYTE_LIMIT {
                dropped = dropped + self.clear_for_recovery();
                if !header.is_keyframe {
                    self.discarded = Some(key);
                    return Ok(dropped + 1);
                }
                self.awaiting_keyframe = false;
            }
            let ghost before = self.frames_view();
            let fresh: Vec<Vec<u8>> = Vec::new();
            assert(views_of(fresh@) =~= Seq::<Seq<u8>>::empty());
            self.frames.push(QueuedFrame {
                epoch: header.stream_epoch,
                seq: header.frame_seq,
                frag_count: header.frag_count,
                datagrams: fresh,
                bytes: 0,
            });
            assert(self.frames_view() =~= before.push(QueuedView {
                epoch: header.stream_epoch,
                seq: header.frame_seq,
                frag_count: header.frag_count,
                datagrams: seq![],
            }));
            assert(self.frames_view().drop_last() =~= before);
            assert(queued_bytes(Seq::<Seq<u8>>::empty()) == 0);
        }
        let n = self.frames.len();
        if n == 0 {
            return Err(LinkError::MissingFirstFragment);
        }
        if self.frames[n - 1].epoch != key.0 || self.frames[n - 1].seq != key.1
            || self.frames[n - 1].frag_count != header.frag_count
            || self.frames[n - 1].datagrams.len() != header.frag_index as usize {
            return Err(LinkError::FragmentOrder);
        }
        if self.bytes + bytes.len() > BYTE_LIMIT {
            dropped = dropped + self.clear_for_recovery();
            self.discarded = Some(key);
            return Ok(dropped);
        }
        let ghost before = self.frames_view();
        let mut frame = self.frames.pop().unwrap();
        let copy = vstd::slice::slice_to_vec(bytes);
        proof {
            lemma_queued_bytes_push(views_of(frame.datagrams@), copy@);
        }
        let ghost old_datagrams = frame.datagrams@;
        frame.bytes = frame.bytes + bytes.len();
        frame.datagrams.push(copy);
        assert(views_of(frame.datagrams@) =~= views_of(old_datagrams).push(bytes@));
        self.frames.push(frame);
        self.bytes = self.bytes + bytes.len();
        assert(self.frames_view() =~= before.update(
            before.len() - 1,
            QueuedView { datagrams: before.last().datagrams.push(bytes@), ..before.last() },
        ));
        assert(self.frames_view().drop_last() =~= before.drop_last());
        Ok(dropped)
    }

    /// The oldest access unit, once complete, with the queue revision it was
    /// queued under; a partial frame never leaves the queue.
    pub fn pop(&mut self) -> (r: Option<(u64, DequeuedFrame)>)
        requires
            old(self).wf(),
        ensures
            final(self).wf(),
            old(self).view().frames.len() > 0 && complete(old(self).view().frames[0]) ==> match r {
                Some((revision, frame)) => {
                    &&& revision == old(self).view().revision
                    &&& frame.epoch == old(self).view().frames[0].epoch
                    &&& frame.seq == old(self).view().frames[0].seq
                    &&& views_of(frame.datagrams@) == old(self).view().frames[0].datagrams
                    &&& final(self).view() == (VideoView { frames: old(self).view().frames.drop_first(), ..old(self).view() })
                },
                None => false,
            },
            !(old(self).view().frames.len() > 0 && complete(old(self).view().frames[0])) ==> r is None
                && final(self).view() == old(self).view(),
    {
        if self.frames.len() == 0 || self.frames[0].datagrams.len() != self.frames[0].frag_count as usize {
            return None;
        }
        let ghost before = self.frames_view();
        proof {
            lemma_frames_bytes_front(before);
        }
        let frame = self.frames.remove(0);
        assert(self.frames_view() =~= before.drop_first());
        self.bytes = self.bytes - frame.bytes;
        Some((self.revision, DequeuedFrame { epoch: frame.epoch, seq: frame.seq, datagrams: frame.datagrams }))
    }
}

/// What a tunnel's writer sends next.
pub enum Outgoing {
    /// A control datagram, sent before any queued video.
    Control(Vec<u8>),
    /// A whole video access unit and the queue revision it was taken at.
    Video(u64, DequeuedFrame),
}

/// A tunnel's outbound queues: control datagrams in arrival order, at most
/// `CONTROL_LIMIT` of them, and the video queue.
pub struct Outbound {
    controls: Vec<Vec<u8>>,
    video: VideoQueue,
}

impl Outbound {
    pub closed spec fn controls_view(&self) -> Seq<Seq<u8>> {
        views_of(self.controls@)
    }

    pub closed spec fn video_view(&self) -> VideoView {
        self.video.view()
    }

    pub closed spec fn wf(&self) -> bool {
        &&& self.controls@.len() <= CONTROL_LIMIT
        &&& self.video.wf()
    }

    pub fn new() -> (o: Self)
        ensures
            o.wf(),
            o.controls_view() == Seq::<Seq<u8>>::empty(),
            o.video_view() == (VideoView { frames: seq![], revision: 0, awaiting_keyframe: false, discarded: None }),
    {
        let o = Outbound { controls: Vec::new(), video: VideoQueue::new() };
        assert(o.controls_view() =~= Seq::<Seq<u8>>::empty());
        o
    }

    /// Queue a control datagram; a full queue refuses it.
    pub fn push_control(&mut self, datagram: &[u8]) -> (r: Result<(), LinkError>)
        requires
            old(self).wf(),
        ensures
            final(self).wf(),
            final(self).video_view() == old(self).video_view(),
            old(self).controls_view().len() >= CONTROL_LIMIT ==> r == Err::<(), LinkError>(LinkError::ControlQueueFull)
                && final(self).controls_view() == old(self).controls_view(),
            old(self).controls_view().len() < CONTROL_LIMIT ==> r is Ok
                && final(self).controls_view() == old(self).controls_view().push(datagram@),
    {
        if self.controls.len() >= CONTROL_LIMIT {
            return Err(LinkError::ControlQueueFull);
        }
        let ghost before = self.controls@;
        self.controls.push(vstd::slice::slice_to_vec(datagram));
        assert(views_of(self.controls@) =~= views_of(before).push(datagram@));
        Ok(())
    }

    /// Queue a video datagram (see `VideoQueue::push`); returns the whole
    /// frames dropped.
    pub fn push_video(&mut self, header: MediaHeader, bytes: &[u8]) -> (r: Result<u64, LinkError>)
        requires
            old(self).wf(),
            bytes@.len() <= usize::MAX / 2,
        ensures
            final(self).wf(),
            final(self).controls_view() == old(self).controls_view(),
            (r, final(self).video_view()) == push_spec(old(self).video_view(), header, bytes@),
    {
        self.video.push(header, bytes)
    }

    /// The writer's next packet: the oldest control datagram if any, else the
    /// oldest complete video access unit.
    pub fn next(&mut self) -> (r: Option<Outgoing>)
        requires
            old(self).wf(),
        ensures
            final(self).wf(),
            old(self).controls_view().len() > 0 ==> match r {
                Some(Outgoing::Control(d)) => d@ == old(self).controls_view()[0]
                    && final(self).controls_view() == old(self).controls_view().drop_first()
                    && final(self).video_view() == old(self).video_view(),
                _ => false,
            },
            old(self).controls_view().len() == 0 ==> final(self).controls_view().len() == 0 && match r {
                Some(Outgoing::Control(_)) => false,
                Some(Outgoing::Video(revision, frame)) => {
                    let q = old(self).video_view();
                    &&& q.frames.len() > 0 && complete(q.frames[0])
                    &&& revision == q.revision
                    &&& frame.epoch == q.frames[0].epoch
                    &&& frame.seq == q.frames[0].seq
                    &&& views_of(frame.datagrams@) == q.frames[0].datagrams
                    &&& final(self).video_view() == (VideoView { frames: q.frames.drop_first(), ..q })
                },
                None => !(old(self).video_view().frames.len() > 0 && complete(old(self).video_view().frames[0]))
                    && final(self).video_view() == old(self).video_view(),
            },
    {
        if self.controls.len() > 0 {
            let ghost before = self.controls@;
            let d = self.controls.remove(0);
            assert(views_of(self.controls@) =~= views_of(before).drop_first());
            return Some(Outgoing::Control(d));
        }
        match self.video.pop() {
            Some((revision, frame)) => Some(Outgoing::Video(revision, frame)),
            None => None,
        }
    }
}

impl VideoQueue {
    /// A stalled tunnel never makes the queue grow past two frames or past
    /// the byte limit.
    pub proof fn lemma_queue_bounded(&self)
        requires
            self.wf(),
        ensures
            self.view().frames.len() <= FRAME_LIMIT,
            frames_bytes(self.view().frames) <= BYTE_LIMIT,
    {
    }
}

/// Counters that a framed link shares with the transport.
pub struct FramedStats {
    frames_dropped: u64,
}

impl FramedStats {
    pub closed spec fn dropped_view(&self) -> u64 {
        self.frames_dropped
    }

    pub fn new() -> (s: Self)
        ensures
            s.dropped_view() == 0,
    {
        FramedStats { frames_dropped: 0 }
    }

    /// Video frames the writer dropped so far.
    pub fn frames_dropped(&self) -> (n: u64)
        ensures
            n == self.dropped_view(),
    {
        self.frames_dropped
    }

    /// Count frames the writer dropped; returns whether the encoder must
    /// send a keyframe next (it must whenever any frame was dropped).
    pub fn record_drops(&mut self, dropped: u64) -> (force_keyframe: bool)
        ensures
            force_keyframe == (dropped > 0),
            dropped > 0 ==> final(self).dropped_view() == (old(self).dropped_view() as int + dropped) % 0x1_0000_0000_0000_0000,
            dropped == 0 ==> final(self).dropped_view() == old(self).dropped_view(),
    {
        if dropped > 0 {
            self.frames_dropped = self.frames_dropped.wrapping_add(dropped);
            true
        } else {
            false
        }
    }
}

impl Default for FramedStats {
    fn default() -> (s: Self)
        ensures
            s.dropped_view() == 0,
    {
        FramedStats::new()
    }
}

} // verus!
