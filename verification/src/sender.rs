//! The media sender's decisions: each pipeline run's stream epoch, which
//! encoded frames go out (a new session starts at a keyframe), how a frame
//! splits into fragments, and the bounded queue of control traffic held
//! back while a paced frame is on the wire. The socket loop that carries
//! them out is the application's.

use vstd::prelude::*;
use crate::link::{IpAddress, LinkId, PeerId};
use crate::media::{MediaHeader, MAX_FRAG_COUNT};

verus! {

/// Control datagrams held back during one paced frame.
pub const DEFERRED_LIMIT: usize = 64;

/// The stream epoch of the run after `previous` runs: never zero, which the
/// receiver treats as invalid.
pub fn stream_epoch_after(previous: u32) -> (epoch: u32)
    ensures
        epoch == if previous == u32::MAX { 1 } else { (previous + 1) as u32 },
        epoch != 0,
{
    let next = previous.wrapping_add(1);
    if next == 0 { 1 } else { next }
}

pub open spec fn unspecified(ip: IpAddress) -> bool {
    match ip {
        IpAddress::V4(a) => a == 0,
        IpAddress::V6(a) => a == 0,
    }
}

/// Media can go to a target: a cable peer, or a Wi-Fi peer with a
/// specified address and port.
pub open spec fn target_ready_spec(target: PeerId) -> bool {
    target.link != LinkId::Udp || match target.addr {
        Some(a) => !unspecified(a.ip) && a.port != 0,
        None => false,
    }
}

pub fn target_ready(target: PeerId) -> (ready: bool)
    ensures
        ready == target_ready_spec(target),
{
    match target.link {
        LinkId::Usb { .. } => true,
        LinkId::Udp => match target.addr {
            Some(a) => {
                let specified = match a.ip {
                    IpAddress::V4(x) => x != 0,
                    IpAddress::V6(x) => x != 0,
                };
                specified && a.port != 0
            },
            None => false,
        },
    }
}

/// Frames already queued when a session starts are leftovers from before
/// its keyframe: each session begins at a keyframe.
pub struct FrameGate {
    last_session_id: Option<u32>,
    awaiting_keyframe: bool,
}

impl FrameGate {
    pub closed spec fn last_session(&self) -> Option<u32> {
        self.last_session_id
    }

    pub closed spec fn awaiting(&self) -> bool {
        self.awaiting_keyframe
    }

    pub fn new() -> (g: Self)
        ensures
            g.last_session() is None,
            g.awaiting(),
    {
        FrameGate { last_session_id: None, awaiting_keyframe: true }
    }

    /// Whether a frame for `session_id` goes out: after a session change
    /// nothing does until a keyframe.
    pub fn let_through(&mut self, session_id: u32, is_keyframe: bool) -> (send: bool)
        ensures
            final(self).last_session() == Some(session_id),
            ({
                let waiting = old(self).awaiting() || old(self).last_session() != Some(session_id);
                &&& send == (!waiting || is_keyframe)
                &&& final(self).awaiting() == (waiting && !is_keyframe)
            }),
    {
        let same = match self.last_session_id {
            Some(id) => id == session_id,
            None => false,
        };
        if !same {
            self.last_session_id = Some(session_id);
            self.awaiting_keyframe = true;
        }
        if self.awaiting_keyframe {
            if !is_keyframe {
                return false;
            }
            self.awaiting_keyframe = false;
        }
        true
    }
}

pub open spec fn ceil_div(a: int, b: int) -> int {
    (a + b - 1) / b
}

/// How many fragments a frame of `payload_len` bytes is announced with:
/// one per `payload_size` bytes, at least one, and no frame beyond the
/// fragment cap (`None`).
pub open spec fn fragment_count_spec(payload_len: int, payload_size: int) -> Option<u16> {
    let n = if payload_len == 0 { 1 } else { ceil_div(payload_len, payload_size) };
    if n > MAX_FRAG_COUNT { None } else { Some(n as u16) }
}

proof fn lemma_ceil_div(len: int, size: int)
    requires
        len >= 0,
        size > 0,
    ensures
        ceil_div(len, size) == len / size + if len % size == 0 { 0int } else { 1int },
        ceil_div(len, size) * size <= len + size - 1,
{
    let q = len / size;
    let r = len % size;
    assert(len == q * size + r && 0 <= r < size) by (nonlinear_arith)
        requires q == len / size, r == len % size, size > 0;
    if r == 0 {
        assert((len + size - 1) / size == q) by (nonlinear_arith)
            requires len == q * size, size > 0;
    } else {
        assert((len + size - 1) / size == q + 1) by (nonlinear_arith)
            requires len == q * size + r, 0 < r < size;
    }
    assert(ceil_div(len, size) * size <= len + size - 1) by (nonlinear_arith)
        requires size > 0, len + size - 1 >= 0, ceil_div(len, size) == (len + size - 1) / size;
}

proof fn lemma_chunk_start(i: int, len: int, size: int)
    requires
        len >= 0,
        size > 0,
        0 <= i < ceil_div(len, size),
    ensures
        i * size < len,
{
    lemma_ceil_div(len, size);
    assert(i * size < len) by (nonlinear_arith)
        requires i + 1 <= ceil_div(len, size), ceil_div(len, size) * size <= len + size - 1, size > 0, i >= 0;
}

pub fn fragment_count(payload_len: usize, payload_size: usize) -> (n: Option<u16>)
    requires
        payload_size > 0,
    ensures
        n == fragment_count_spec(payload_len as int, payload_size as int),
{
    if payload_len == 0 {
        return Some(1);
    }
    proof {
        lemma_ceil_div(payload_len as int, payload_size as int);
    }
    let q = payload_len / payload_size;
    if q > MAX_FRAG_COUNT as usize {
        return None;
    }
    let count: usize = if payload_len % payload_size == 0 { q } else { q + 1 };
    if count > MAX_FRAG_COUNT as usize {
        None
    } else {
        Some(count as u16)
    }
}

/// One fragment of a frame: its header and where its payload lies.
#[derive(Clone, Copy, Debug, PartialEq, Eq, Structural)]
pub struct Fragment {
    pub header: MediaHeader,
    pub start: usize,
    pub end: usize,
}

/// The fragments of a frame, in order: each `payload_size` bytes of the
/// payload but the last, all announcing the same frame and count.
pub open spec fn fragment_ok(f: Fragment, i: int, session_id: u32, stream_epoch: u32, frame_seq: u32, is_keyframe: bool, capture_ts_us: u64, payload_len: int, payload_size: int, count: u16) -> bool {
    &&& f.start == i * payload_size
    &&& f.end == if (i + 1) * payload_size < payload_len { (i + 1) * payload_size } else { payload_len }
    &&& f.header == (MediaHeader {
        session_id,
        stream_epoch,
        frame_seq,
        frag_index: i as u16,
        frag_count: count,
        is_keyframe,
        is_retransmit: false,
        capture_ts_us,
        payload_len: (f.end - f.start) as u16,
    })
}

/// Every fragment of a frame travels under the frame's own header: its
/// session, epoch, sequence number, keyframe flag and capture time are the
/// ones the frame was split with, it is no retransmission, its index is its
/// position, and it announces its own byte count.
pub proof fn lemma_fragments_carry_the_frame_header(
    f: Fragment,
    i: int,
    session_id: u32,
    stream_epoch: u32,
    frame_seq: u32,
    is_keyframe: bool,
    capture_ts_us: u64,
    payload_len: int,
    payload_size: int,
    count: u16,
)
    requires
        fragment_ok(f, i, session_id, stream_epoch, frame_seq, is_keyframe, capture_ts_us, payload_len, payload_size, count),
    ensures
        f.header.capture_ts_us == capture_ts_us,
        f.header.session_id == session_id,
        f.header.stream_epoch == stream_epoch,
        f.header.frame_seq == frame_seq,
        f.header.is_keyframe == is_keyframe,
        f.header.frag_count == count,
        !f.header.is_retransmit,
        f.header.frag_index == i as u16,
        f.start == i * payload_size,
{
}

/// Split a frame into fragments of at most `payload_size` bytes; `None`
/// for a frame beyond the fragment cap. An empty frame is announced as one
/// fragment but has none to send.
pub fn fragment_frame(
    session_id: u32,
    stream_epoch: u32,
    frame_seq: u32,
    is_keyframe: bool,
    capture_ts_us: u64,
    payload_len: usize,
    payload_size: usize,
) -> (r: Option<Vec<Fragment>>)
    requires
        0 < payload_size <= u16::MAX,
    ensures
        match fragment_count_spec(payload_len as int, payload_size as int) {
            None => r is None,
            Some(count) => r is Some && ({
                let fs = r->0@;
                &&& fs.len() == if payload_len == 0 { 0 } else { ceil_div(payload_len as int, payload_size as int) }
                &&& forall|i: int| 0 <= i < fs.len() ==> fragment_ok(#[trigger] fs[i], i, session_id, stream_epoch, frame_seq, is_keyframe, capture_ts_us, payload_len as int, payload_size as int, count)
            }),
        },
        r matches Some(fs) ==> forall|i: int| 0 <= i < fs@.len() ==> {
            &&& (#[trigger] fs@[i]).header.capture_ts_us == capture_ts_us
            &&& fs@[i].header.session_id == session_id
            &&& fs@[i].header.stream_epoch == stream_epoch
            &&& fs@[i].header.frame_seq == frame_seq
            &&& fs@[i].header.is_keyframe == is_keyframe
        },
{
    let count = match fragment_count(payload_len, payload_size) {
        Some(c) => c,
        None => {
            return None;
        },
    };
    let chunks: usize = if payload_len == 0 { 0 } else { count as usize };
    let mut fs: Vec<Fragment> = Vec::new();
    let mut i: usize = 0;
    while i < chunks
        invariant
            0 < payload_size <= u16::MAX,
            fragment_count_spec(payload_len as int, payload_size as int) == Some(count),
            chunks == if payload_len == 0 { 0 } else { ceil_div(payload_len as int, payload_size as int) },
            0 <= i <= chunks,
            fs@.len() == i,
            forall|j: int| 0 <= j < i ==> fragment_ok(#[trigger] fs@[j], j, session_id, stream_epoch, frame_seq, is_keyframe, capture_ts_us, payload_len as int, payload_size as int, count),
        decreases chunks - i,
    {
        proof {
            lemma_chunk_start(i as int, payload_len as int, payload_size as int);
        }
        let start: usize = i * payload_size;
        let end: usize = if payload_len - start > payload_size { start + payload_size } else { payload_len };
        proof {
            assert((i + 1) * payload_size == start + payload_size) by (nonlinear_arith)
                requires start == i * payload_size;
        }
        fs.push(Fragment {
            header: MediaHeader {
                session_id,
                stream_epoch,
                frame_seq,
                frag_index: i as u16,
                frag_count: count,
                is_keyframe,
                is_retransmit: false,
                capture_ts_us,
                payload_len: (end - start) as u16,
            },
            start,
            end,
        });
        i = i + 1;
    }
    Some(fs)
}

/// A repair request for the frame being paced waits until that frame is in
/// the retransmission store; requests for earlier frames are served at once.
pub fn serve_during_pacing(nack_frame_seq: u32, current_seq: u32) -> (now: bool)
    ensures
        now == (nack_frame_seq != current_seq),
{
    nack_frame_seq != current_seq
}

/// Control traffic held back while a paced frame is on the wire, in arrival
/// order; at most 64 datagrams wait, later ones are dropped.
pub struct DeferredControl {
    queue: Vec<(PeerId, Vec<u8>)>,
}

impl DeferredControl {
    pub closed spec fn waiting(&self) -> Seq<(PeerId, Seq<u8>)> {
        self.queue@.map_values(|e: (PeerId, Vec<u8>)| (e.0, e.1@))
    }

    pub fn new() -> (d: Self)
        ensures
            d.waiting() == Seq::<(PeerId, Seq<u8>)>::empty(),
    {
        let d = DeferredControl { queue: Vec::new() };
        assert(d.waiting() =~= Seq::<(PeerId, Seq<u8>)>::empty());
        d
    }

    /// Hold one datagram back; returns whether there was room.
    pub fn defer(&mut self, peer: PeerId, datagram: Vec<u8>) -> (kept: bool)
        ensures
            kept == (old(self).waiting().len() < DEFERRED_LIMIT),
            kept ==> final(self).waiting() == old(self).waiting().push((peer, datagram@)),
            !kept ==> final(self).waiting() == old(self).waiting(),
    {
        if self.queue.len() >= DEFERRED_LIMIT {
            return false;
        }
        let ghost before = self.waiting();
        self.queue.push((peer, datagram));
        assert(self.waiting() =~= before.push((peer, datagram@)));
        true
    }

    /// The oldest held-back datagram, if any.
    pub fn next(&mut self) -> (r: Option<(PeerId, Vec<u8>)>)
        ensures
            old(self).waiting().len() == 0 ==> r is None && final(self).waiting() == old(self).waiting(),
            old(self).waiting().len() > 0 ==> match r {
                Some((peer, datagram)) => (peer, datagram@) == old(self).waiting()[0]
                    && final(self).waiting() == old(self).waiting().drop_first(),
                None => false,
            },
    {
        if self.queue.len() == 0 {
            return None;
        }
        let ghost before = self.waiting();
        let e = self.queue.remove(0);
        assert(self.waiting() =~= before.drop_first());
        Some(e)
    }
}

/// What the sender does around a control message or a liveness tick, once
/// the session has decided: forget the repair store and the fault queue,
/// serve a repair request, restart the pipeline for the virtual display.
#[derive(Debug, PartialEq, Eq)]
pub struct Dispatch {
    /// Clear the retransmit ring and the delayed fault datagrams.
    pub clear_repair_state: bool,
    /// Resend `(epoch, frame, missing indices, fragment count)`.
    pub resend: Option<(u32, u32, Vec<u16>, u16)>,
    /// Restart the capture pipeline so the virtual display comes up.
    pub restart_pipeline: bool,
}

/// The state of the virtual extended display the pipeline reports.
#[derive(Debug, Clone, Copy, PartialEq, Eq, Structural)]
pub enum DisplayWait {
    /// The virtual display is selected and waits for a client.
    ExtendedWaitingForClient,
    /// Anything else.
    Other,
}

/// The dispatch rules: a new target or a lost client clears the repair
/// store and the fault queue; a repair request is served only together with
/// the fragment count its NACK carried; the first target while the virtual
/// display waits for a client restarts the pipeline.
pub fn dispatch(
    new_target: bool,
    client_lost: bool,
    retransmit: Option<(u32, u32, Vec<u16>)>,
    nack_frag_count: Option<u16>,
    display: DisplayWait,
) -> (d: Dispatch)
    ensures
        d.clear_repair_state == (new_target || client_lost),
        d.restart_pipeline == (new_target && display == DisplayWait::ExtendedWaitingForClient),
        match (retransmit, nack_frag_count) {
            (Some((epoch, seq, missing)), Some(count)) => d.resend matches Some((e, s, m, c))
                && e == epoch && s == seq && m@ == missing@ && c == count,
            _ => d.resend is None,
        },
{
    let resend = match (retransmit, nack_frag_count) {
        (Some((epoch, seq, missing)), Some(count)) => Some((epoch, seq, missing, count)),
        _ => None,
    };
    Dispatch {
        clear_repair_state: new_target || client_lost,
        resend,
        restart_pipeline: new_target && display == DisplayWait::ExtendedWaitingForClient,
    }
}

} // verus!
