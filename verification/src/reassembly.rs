//! Fragment reassembly with the receiver's rules: epoch precedence,
//! duplicate and stale rejection, the backward-jump restart heuristic,
//! negotiated ordered repair windows, and bounded partial-frame storage.
//!
//! Time is a monotonic microsecond count supplied by the caller.

use vstd::prelude::*;
use crate::media::{MediaHeader, Nack, MAX_FRAG_COUNT, MAX_NACK_MISSING};
use vstd::slice::slice_to_vec;

verus! {

pub const STREAM_RESTART_GAP: u32 = 256;
pub const STALE_FRAME_TIMEOUT_US: u64 = 100_000;
pub const EPOCH_RESYNC_THRESHOLD: u32 = 512;
/// Also bounds frames held behind an incomplete one in repair mode.
pub const MAX_PENDING_FRAMES: usize = 8;
/// How far a stall can move one frame's repair deadline.
pub const MAX_STALL_ALLOWANCE_US: u64 = 100_000;
pub const MAX_PENDING_BYTES: usize = 8 * 1024 * 1024;
pub const DEFAULT_FRAME_PERIOD_US: u64 = 16_667;
pub const DEFAULT_RTT_US: u64 = 10_000;
pub const MAX_RTT_US: u64 = 1_000_000;
/// Fractional bits of the fixed-point jitter estimate.
pub const JITTER_FRACTION_BITS: u32 = 16;
const JITTER_LIMIT: u128 = 0x4_0000_0000_0000_0000_0000;

#[derive(Debug, Clone, Copy, PartialEq, Eq, Structural)]
pub enum DropReason {
    StaleEpoch,
    DuplicateCompleted,
    StaleSeq,
    ZeroCount,
    IndexOutOfRange,
    CountMismatch,
    DuplicateFragment,
    CountExceedsCap,
    Capacity,
}

#[derive(Debug, Clone, PartialEq, Eq)]
pub enum AddOutcome {
    Stored,
    Completed(Vec<u8>),
    Dropped(DropReason),
}

#[derive(Debug, Clone, PartialEq, Eq)]
pub struct AssembledFrame {
    pub seq: u32,
    pub capture_ts_us: u64,
    pub is_keyframe: bool,
    pub payload: Vec<u8>,
}

#[derive(Debug, Default, Clone, Copy, PartialEq, Eq, Structural)]
pub struct ReassemblyCounters {
    pub frames_complete: u64,
    pub frames_dropped: u64,
    pub frags_received: u64,
    pub frags_lost: u64,
    pub frags_repaired: u64,
    pub nacks_sent: u64,
    pub highest_seq: u32,
    pub stream_epoch: u32,
    pub assembler_depth: u8,
    pub jitter_us: u32,
}

struct PendingFrame {
    header: MediaHeader,
    fragments: Vec<Option<Vec<u8>>>,
    received: u16,
    bytes: usize,
    created_at: u64,
    contiguous: u16,
    highest_index: u16,
    repaired: u64,
    gap_at: Option<u64>,
    deadline: Option<u64>,
    retry_at: Option<u64>,
    requested_at: Option<u64>,
    completed_at: Option<u64>,
    stall_used: u64,
    stall_counted_until: Option<u64>,
    /// Indices already requested; each is requested when first seen missing
    /// and at most once more by the frame's single retry.
    requested: Vec<bool>,
    retried: bool,
    keyframe_requested: bool,
}

pub struct Reassembler {
    pending: Vec<PendingFrame>,
    pending_bytes: usize,
    latest_completed_seq: u32,
    retired_seq: u32,
    current_epoch: Option<u32>,
    stale_epoch_streak: u32,
    counters: ReassemblyCounters,
    repair_enabled: bool,
    frame_period_us: u64,
    rtt_us: u64,
    ready: Vec<AssembledFrame>,
    nacks: Vec<Nack>,
    keyframe_needed: bool,
    clock_origin: Option<u64>,
    previous_transit: Option<i128>,
    jitter_fp: u128,
    last_arrival: Option<u64>,
    last_repair: Option<u64>,
}

// ---------------------------------------------------------------------------
// Specification helpers

/// How many fragment slots are filled.
pub open spec fn count_some(s: Seq<Option<Vec<u8>>>) -> nat
    decreases s.len(),
{
    if s.len() == 0 {
        0
    } else {
        count_some(s.drop_last()) + if s.last() is Some { 1nat } else { 0nat }
    }
}

/// The fragments joined in index order (missing slots contribute nothing).
pub open spec fn joined(s: Seq<Option<Vec<u8>>>) -> Seq<u8>
    decreases s.len(),
{
    if s.len() == 0 {
        Seq::empty()
    } else {
        joined(s.drop_last()) + match s.last() {
            Some(v) => v@,
            None => Seq::empty(),
        }
    }
}

spec fn sum_bytes(s: Seq<PendingFrame>) -> nat
    decreases s.len(),
{
    if s.len() == 0 {
        0
    } else {
        sum_bytes(s.drop_last()) + s.last().bytes as nat
    }
}

proof fn lemma_count_some_bound(s: Seq<Option<Vec<u8>>>)
    ensures
        count_some(s) <= s.len(),
        count_some(s) == s.len() ==> forall|i: int| 0 <= i < s.len() ==> s[i] is Some,
    decreases s.len(),
{
    if s.len() > 0 {
        lemma_count_some_bound(s.drop_last());
        if count_some(s) == s.len() {
            assert forall|i: int| 0 <= i < s.len() implies s[i] is Some by {
                if i < s.len() - 1 {
                    assert(s[i] == s.drop_last()[i]);
                }
            }
        }
    }
}

proof fn lemma_count_some_full(s: Seq<Option<Vec<u8>>>)
    requires
        forall|i: int| 0 <= i < s.len() ==> #[trigger] s[i] is Some,
    ensures
        count_some(s) == s.len(),
    decreases s.len(),
{
    if s.len() > 0 {
        assert forall|i: int| 0 <= i < s.drop_last().len() implies #[trigger] s.drop_last()[i] is Some by {
            assert(s.drop_last()[i] == s[i]);
        }
        lemma_count_some_full(s.drop_last());
    }
}

/// The parts joined in order.
pub open spec fn concat_parts(parts: Seq<Seq<u8>>) -> Seq<u8>
    decreases parts.len(),
{
    if parts.len() == 0 {
        Seq::empty()
    } else {
        concat_parts(parts.drop_last()) + parts.last()
    }
}

proof fn lemma_joined_parts(f: Seq<Option<Vec<u8>>>, parts: Seq<Seq<u8>>)
    requires
        f.len() == parts.len(),
        forall|k: int| 0 <= k < f.len() ==> ((#[trigger] f[k]) matches Some(v) && v@ == parts[k]),
    ensures
        joined(f) == concat_parts(parts),
    decreases f.len(),
{
    if f.len() > 0 {
        assert forall|k: int| 0 <= k < f.drop_last().len() implies ((#[trigger] f.drop_last()[k]) matches Some(v) && v@
            == parts.drop_last()[k]) by {
            assert(f.drop_last()[k] == f[k]);
            assert(parts.drop_last()[k] == parts[k]);
        }
        lemma_joined_parts(f.drop_last(), parts.drop_last());
        assert(f[f.len() - 1] matches Some(v) && v@ == parts[f.len() - 1]);
    }
}

proof fn lemma_count_some_update(s: Seq<Option<Vec<u8>>>, i: int, v: Vec<u8>)
    requires
        0 <= i < s.len(),
        s[i] is None,
    ensures
        count_some(s.update(i, Some(v))) == count_some(s) + 1,
    decreases s.len(),
{
    let t = s.update(i, Some(v));
    if i == s.len() - 1 {
        assert(t.drop_last() =~= s.drop_last());
    } else {
        assert(t.drop_last() =~= s.drop_last().update(i, Some(v)));
        lemma_count_some_update(s.drop_last(), i, v);
    }
}

proof fn lemma_count_some_empty(n: nat)
    ensures
        count_some(Seq::new(n, |i: int| None::<Vec<u8>>)) == 0,
    decreases n,
{
    if n > 0 {
        assert(Seq::new(n, |i: int| None::<Vec<u8>>).drop_last() =~= Seq::new(
            (n - 1) as nat,
            |i: int| None::<Vec<u8>>,
        ));
        lemma_count_some_empty((n - 1) as nat);
    }
}

proof fn lemma_sum_update(s: Seq<PendingFrame>, i: int, f: PendingFrame)
    requires
        0 <= i < s.len(),
    ensures
        sum_bytes(s.update(i, f)) + s[i].bytes == sum_bytes(s) + f.bytes,
        s[i].bytes <= sum_bytes(s),
    decreases s.len(),
{
    let t = s.update(i, f);
    if i == s.len() - 1 {
        assert(t.drop_last() =~= s.drop_last());
    } else {
        assert(t.drop_last() =~= s.drop_last().update(i, f));
        lemma_sum_update(s.drop_last(), i, f);
    }
}

proof fn lemma_sum_remove(s: Seq<PendingFrame>, i: int)
    requires
        0 <= i < s.len(),
    ensures
        sum_bytes(s.remove(i)) + s[i].bytes == sum_bytes(s),
    decreases s.len(),
{
    if i == s.len() - 1 {
        assert(s.remove(i) =~= s.drop_last());
    } else {
        assert(s.remove(i).drop_last() =~= s.drop_last().remove(i));
        lemma_sum_remove(s.drop_last(), i);
    }
}

proof fn lemma_sum_insert(s: Seq<PendingFrame>, i: int, f: PendingFrame)
    requires
        0 <= i <= s.len(),
    ensures
        sum_bytes(s.insert(i, f)) == sum_bytes(s) + f.bytes,
    decreases s.len(),
{
    if i == s.len() {
        assert(s.insert(i, f).drop_last() =~= s);
    } else {
        assert(s.insert(i, f).drop_last() =~= s.drop_last().insert(i, f));
        lemma_sum_insert(s.drop_last(), i, f);
    }
}

impl PendingFrame {
    spec fn seq(&self) -> u32 {
        self.header.frame_seq
    }

    spec fn frag_count(&self) -> u16 {
        self.header.frag_count
    }

    spec fn is_complete(&self) -> bool {
        self.received == self.header.frag_count
    }

    spec fn wf(&self) -> bool {
        &&& 1 <= self.header.frag_count <= MAX_FRAG_COUNT
        &&& self.fragments@.len() == self.header.frag_count
        &&& self.requested@.len() == self.header.frag_count
        &&& self.received as nat == count_some(self.fragments@)
        &&& self.contiguous <= self.header.frag_count
        &&& forall|i: int| 0 <= i < self.contiguous ==> #[trigger] self.fragments@[i] is Some
        &&& self.highest_index < self.header.frag_count
        &&& self.stall_used <= MAX_STALL_ALLOWANCE_US
    }

    /// The frame's payload: its fragments joined in index order.
    spec fn payload(&self) -> Seq<u8> {
        joined(self.fragments@)
    }

    fn complete(&self) -> (c: bool)
        requires
            self.wf(),
        ensures
            c == self.is_complete(),
    {
        self.received == self.header.frag_count
    }

    fn missing_fragments(&self) -> (m: u64)
        requires
            self.wf(),
        ensures
            m == self.header.frag_count - self.received,
    {
        proof {
            lemma_count_some_bound(self.fragments@);
        }
        (self.header.frag_count - self.received) as u64
    }

    fn has(&self, index: u16) -> (b: bool)
        requires
            self.wf(),
            index < self.header.frag_count,
        ensures
            b == self.fragments@[index as int] is Some,
    {
        self.fragments[index as usize].is_some()
    }
}

} // verus!

verus! {

/// Appends every byte of `src` to `out`.
fn append_bytes(out: &mut Vec<u8>, src: &Vec<u8>)
    ensures
        final(out)@ == old(out)@ + src@,
{
    let mut j: usize = 0;
    while j < src.len()
        invariant
            j <= src@.len(),
            out@ == old(out)@ + src@.take(j as int),
        decreases src@.len() - j,
    {
        out.push(src[j]);
        j = j + 1;
        assert(out@ =~= old(out)@ + src@.take(j as int));
    }
    assert(src@.take(j as int) =~= src@);
}

fn max_u32(a: u32, b: u32) -> (m: u32)
    ensures
        m == if a >= b { a } else { b },
{
    if a >= b {
        a
    } else {
        b
    }
}

/// Microseconds from `arrived` to `now`, zero when `now` is earlier.
pub open spec fn age_at(arrived: u64, now: u64) -> int {
    if now >= arrived {
        now - arrived
    } else {
        0
    }
}

impl Reassembler {
    /// Everything except the rule that nothing at or behind the retired
    /// sequence number stays pending.
    spec fn wf_core(&self) -> bool {
        &&& self.pending@.len() <= MAX_PENDING_FRAMES
        &&& forall|i: int| 0 <= i < self.pending@.len() ==> (#[trigger] self.pending@[i]).wf()
        &&& forall|i: int, j: int|
            0 <= i < j < self.pending@.len() ==> (#[trigger] self.pending@[i]).seq() < (#[trigger] self.pending@[j]).seq()
        &&& self.pending_bytes == sum_bytes(self.pending@)
        &&& self.pending_bytes <= MAX_PENDING_BYTES
        &&& self.latest_completed_seq <= self.retired_seq
        &&& self.rtt_us <= MAX_RTT_US
        &&& self.stale_epoch_streak < EPOCH_RESYNC_THRESHOLD
        &&& self.jitter_fp <= JITTER_LIMIT
        &&& (self.previous_transit matches Some(p) ==> -0x1_0000_0000_0000_0000 <= p <= 0x1_0000_0000_0000_0000)
    }

    spec fn beyond_retired(&self) -> bool {
        forall|i: int|
            0 <= i < self.pending@.len() ==> self.retired_seq == 0 || (#[trigger] self.pending@[i]).seq() > self.retired_seq
    }

    /// The reassembler's invariant: at most eight frames and 8 MiB are held,
    /// frames are kept in sequence order, and each frame's bookkeeping
    /// matches the fragments it holds.
    pub closed spec fn wf(&self) -> bool {
        self.wf_core() && self.beyond_retired()
    }

    /// Sequence numbers of the partially or fully received frames held, ascending.
    pub closed spec fn pending_seqs(&self) -> Seq<u32> {
        Seq::new(self.pending@.len(), |i: int| self.pending@[i].seq())
    }

    /// The stored payload of one fragment, if that frame is held and the
    /// fragment has arrived.
    pub closed spec fn fragment(&self, seq: u32, index: u16) -> Option<Seq<u8>> {
        if exists|i: int| 0 <= i < self.pending@.len() && self.pending@[i].seq() == seq {
            let i = choose|i: int| 0 <= i < self.pending@.len() && self.pending@[i].seq() == seq;
            if index < self.pending@[i].fragments@.len() {
                match self.pending@[i].fragments@[index as int] {
                    Some(v) => Some(v@),
                    None => None,
                }
            } else {
                None
            }
        } else {
            None
        }
    }

    /// The position of held frame `seq` in the pending list.
    spec fn slot(&self, seq: u32) -> int {
        choose|i: int| 0 <= i < self.pending@.len() && self.pending@[i].seq() == seq
    }

    /// The fragment count of frame `seq`, if that frame is held.
    pub closed spec fn held_count(&self, seq: u32) -> Option<u16> {
        if exists|i: int| 0 <= i < self.pending@.len() && self.pending@[i].seq() == seq {
            Some(self.pending@[self.slot(seq)].header.frag_count)
        } else {
            None
        }
    }

    /// How many fragments of frame `seq` are held; zero when it is not held.
    pub closed spec fn received_of(&self, seq: u32) -> nat {
        if exists|i: int| 0 <= i < self.pending@.len() && self.pending@[i].seq() == seq {
            self.pending@[self.slot(seq)].received as nat
        } else {
            0
        }
    }

    /// When the first fragment of held frame `seq` arrived.
    pub closed spec fn arrived_at(&self, seq: u32) -> u64 {
        if exists|i: int| 0 <= i < self.pending@.len() && self.pending@[i].seq() == seq {
            self.pending@[self.slot(seq)].created_at
        } else {
            0
        }
    }

    /// Whether held frame `seq` has already asked for a keyframe.
    pub closed spec fn keyframe_asked(&self, seq: u32) -> bool {
        if exists|i: int| 0 <= i < self.pending@.len() && self.pending@[i].seq() == seq {
            self.pending@[self.slot(seq)].keyframe_requested
        } else {
            false
        }
    }

    /// The payload bytes held across all pending frames.
    pub closed spec fn held_bytes(&self) -> nat {
        self.pending_bytes as nat
    }

    /// How many fragments of held frame `seq` never arrived.
    pub open spec fn missing_of(&self, seq: u32) -> int {
        match self.held_count(seq) {
            Some(c) => c - self.received_of(seq),
            None => 0,
        }
    }

    /// Whether a sweep without repair at `now_us` keeps frame `seq`: it is
    /// held, and it is complete or its first fragment arrived less than the
    /// stale timeout ago.
    pub open spec fn sweep_keeps(&self, seq: u32, now_us: u64) -> bool {
        &&& self.held_count(seq) matches Some(c)
        &&& (self.received_of(seq) == c || age_at(self.arrived_at(seq), now_us) < STALE_FRAME_TIMEOUT_US)
    }

    pub closed spec fn epoch(&self) -> Option<u32> {
        self.current_epoch
    }

    pub closed spec fn latest_completed(&self) -> u32 {
        self.latest_completed_seq
    }

    /// The newest sequence number that was delivered or given up on.
    pub closed spec fn retired(&self) -> u32 {
        self.retired_seq
    }

    pub closed spec fn streak(&self) -> u32 {
        self.stale_epoch_streak
    }

    pub closed spec fn repair(&self) -> bool {
        self.repair_enabled
    }

    pub closed spec fn counters_view(&self) -> ReassemblyCounters {
        self.counters
    }

    pub closed spec fn ready_view(&self) -> Seq<AssembledFrame> {
        self.ready@
    }

    pub closed spec fn nacks_view(&self) -> Seq<Nack> {
        self.nacks@
    }

    pub closed spec fn keyframe_pending(&self) -> bool {
        self.keyframe_needed
    }

    pub closed spec fn frame_period(&self) -> u64 {
        self.frame_period_us
    }

    pub closed spec fn rtt(&self) -> u64 {
        self.rtt_us
    }

    pub fn new() -> (r: Self)
        ensures
            r.wf(),
            r.pending_seqs().len() == 0,
            r.epoch() is None,
            r.latest_completed() == 0,
            r.retired() == 0,
            !r.repair(),
            r.counters_view() == ReassemblyCounters::default_spec(),
            r.frame_period() == DEFAULT_FRAME_PERIOD_US,
            r.rtt() == DEFAULT_RTT_US,
            r.streak() == 0,
            !r.keyframe_pending(),
            r.ready_view().len() == 0,
            r.held_bytes() == 0,
            forall|s: u32| #[trigger] r.held_count(s) is None && r.gone(s),
    {
        let r = Reassembler {
            pending: Vec::new(),
            pending_bytes: 0,
            latest_completed_seq: 0,
            retired_seq: 0,
            current_epoch: None,
            stale_epoch_streak: 0,
            counters: ReassemblyCounters::zero(),
            repair_enabled: false,
            frame_period_us: DEFAULT_FRAME_PERIOD_US,
            rtt_us: DEFAULT_RTT_US,
            ready: Vec::new(),
            nacks: Vec::new(),
            keyframe_needed: false,
            clock_origin: None,
            previous_transit: None,
            jitter_fp: 0,
            last_arrival: None,
            last_repair: None,
        };
        proof {
            assert(r.pending@ =~= Seq::<PendingFrame>::empty());
            lemma_empty_observed(&r, 0);
        }
        r
    }

    pub fn counters(&self) -> (c: ReassemblyCounters)
        ensures
            c == self.counters_view(),
    {
        self.counters
    }

    pub fn pending_frames(&self) -> (n: usize)
        ensures
            n == self.pending_seqs().len(),
    {
        self.pending.len()
    }

    pub fn latest_completed_seq(&self) -> (s: u32)
        ensures
            s == self.latest_completed(),
    {
        self.latest_completed_seq
    }

    /// Negotiated repair: on or off, the stream's frame period and the
    /// measured round trip (capped at one second), all in microseconds.
    pub fn configure_repair(&mut self, enabled: bool, frame_period_us: u64, rtt_us: u64)
        requires
            old(self).wf(),
        ensures
            final(self).wf(),
            final(self).repair() == enabled,
            final(self).frame_period() == frame_period_us,
            final(self).rtt() == if rtt_us <= MAX_RTT_US { rtt_us } else { MAX_RTT_US },
            final(self).pending_seqs() == old(self).pending_seqs(),
            final(self).epoch() == old(self).epoch(),
            final(self).counters_view() == old(self).counters_view(),
    {
        self.repair_enabled = enabled;
        self.frame_period_us = frame_period_us;
        self.rtt_us = if rtt_us <= MAX_RTT_US { rtt_us } else { MAX_RTT_US };
    }

    /// Repair-mode callers drain deliveries and requests after each add/tick.
    pub fn take_ready(&mut self) -> (frames: Vec<AssembledFrame>)
        requires
            old(self).wf(),
        ensures
            final(self).wf(),
            frames@ == old(self).ready_view(),
            final(self).ready_view().len() == 0,
            final(self).pending_seqs() == old(self).pending_seqs(),
    {
        let mut frames: Vec<AssembledFrame> = Vec::new();
        std::mem::swap(&mut frames, &mut self.ready);
        frames
    }

    pub fn take_nacks(&mut self) -> (nacks: Vec<Nack>)
        requires
            old(self).wf(),
        ensures
            final(self).wf(),
            nacks@ == old(self).nacks_view(),
            final(self).nacks_view().len() == 0,
            final(self).pending_seqs() == old(self).pending_seqs(),
    {
        let mut nacks: Vec<Nack> = Vec::new();
        std::mem::swap(&mut nacks, &mut self.nacks);
        nacks
    }

    /// `(epoch, latest completed seq)` once per loss that needs a keyframe.
    pub fn take_keyframe_request(&mut self) -> (r: Option<(u32, u32)>)
        requires
            old(self).wf(),
        ensures
            final(self).wf(),
            !final(self).keyframe_pending(),
            r == if old(self).keyframe_pending() {
                Some(
                    (
                        match old(self).epoch() {
                            Some(e) => e,
                            None => 0u32,
                        },
                        old(self).latest_completed(),
                    ),
                )
            } else {
                None::<(u32, u32)>
            },
    {
        let needed = self.keyframe_needed;
        self.keyframe_needed = false;
        if needed {
            let epoch = match self.current_epoch {
                Some(e) => e,
                None => 0,
            };
            Some((epoch, self.latest_completed_seq))
        } else {
            None
        }
    }
}

impl ReassemblyCounters {
    pub open spec fn default_spec() -> ReassemblyCounters {
        ReassemblyCounters {
            frames_complete: 0,
            frames_dropped: 0,
            frags_received: 0,
            frags_lost: 0,
            frags_repaired: 0,
            nacks_sent: 0,
            highest_seq: 0,
            stream_epoch: 0,
            assembler_depth: 0,
            jitter_us: 0,
        }
    }

    pub fn zero() -> (c: ReassemblyCounters)
        ensures
            c == ReassemblyCounters::default_spec(),
    {
        ReassemblyCounters {
            frames_complete: 0,
            frames_dropped: 0,
            frags_received: 0,
            frags_lost: 0,
            frags_repaired: 0,
            nacks_sent: 0,
            highest_seq: 0,
            stream_epoch: 0,
            assembler_depth: 0,
            jitter_us: 0,
        }
    }
}

} // verus!

verus! {


impl Reassembler {
    /// The epoch, negotiated repair settings and arrival clocks agree.
    pub closed spec fn same_config(&self, other: &Reassembler) -> bool {
        &&& self.current_epoch == other.current_epoch
        &&& self.stale_epoch_streak == other.stale_epoch_streak
        &&& self.repair_enabled == other.repair_enabled
        &&& self.frame_period_us == other.frame_period_us
        &&& self.rtt_us == other.rtt_us
        &&& self.last_arrival == other.last_arrival
        &&& self.last_repair == other.last_repair
        &&& self.clock_origin == other.clock_origin
        &&& self.previous_transit == other.previous_transit
        &&& self.jitter_fp == other.jitter_fp
    }

    fn find_index(&self, seq: u32) -> (r: Option<usize>)
        requires
            self.wf_core(),
        ensures
            r matches Some(i) ==> i < self.pending@.len() && self.pending@[i as int].seq() == seq,
            r is None ==> forall|i: int| 0 <= i < self.pending@.len() ==> (#[trigger] self.pending@[i]).seq() != seq,
    {
        let mut i: usize = 0;
        while i < self.pending.len()
            invariant
                i <= self.pending@.len(),
                forall|k: int| 0 <= k < i ==> (#[trigger] self.pending@[k]).seq() != seq,
            decreases self.pending@.len() - i,
        {
            if self.pending[i].header.frame_seq == seq {
                return Some(i);
            }
            i = i + 1;
        }
        None
    }

    /// Whether a complete keyframe is held after frame `i`.
    spec fn later_keyframe_complete(&self, i: int) -> bool {
        exists|j: int| i < j < self.pending@.len() && (#[trigger] self.pending@[j]).header.is_keyframe
            && self.pending@[j].is_complete()
    }

    /// Marks that a keyframe is needed because frame `i` is being given up
    /// on, unless a later complete keyframe already restores references.
    fn request_keyframe_at(&mut self, i: usize)
        requires
            old(self).wf_core(),
            i < old(self).pending@.len(),
        ensures
            ({
                let asks = !old(self).later_keyframe_complete(i as int) && !old(self).pending@[i as int].keyframe_requested;
                &&& final(self).keyframe_needed == (old(self).keyframe_needed || asks)
                &&& final(self).pending@ == if asks {
                    old(self).pending@.update(i as int, PendingFrame { keyframe_requested: true, ..old(self).pending@[i as int] })
                } else {
                    old(self).pending@
                }
            }),
            final(self).same_config(&old(self)),
            final(self).wf_core(),
            old(self).beyond_retired() ==> final(self).beyond_retired(),
            final(self).pending@.len() == old(self).pending@.len(),
            forall|k: int| 0 <= k < final(self).pending@.len() ==> same_content(#[trigger] final(self).pending@[k], old(self).pending@[k]),
            final(self).counters == old(self).counters,
            final(self).ready == old(self).ready,
            final(self).nacks == old(self).nacks,
            final(self).retired_seq == old(self).retired_seq,
            final(self).latest_completed_seq == old(self).latest_completed_seq,
            final(self).current_epoch == old(self).current_epoch,
            final(self).repair_enabled == old(self).repair_enabled,
            final(self).frame_period_us == old(self).frame_period_us,
            final(self).last_arrival == old(self).last_arrival,
            final(self).last_repair == old(self).last_repair,
    {
        let mut j = i + 1;
        while j < self.pending.len()
            invariant
                i < j <= self.pending@.len(),
                self.wf_core(),
                *self == *old(self),
                forall|q: int| i < q < j ==> !((#[trigger] self.pending@[q]).header.is_keyframe && self.pending@[q].is_complete()),
            decreases self.pending@.len() - j,
        {
            if self.pending[j].header.is_keyframe && self.pending[j].complete() {
                return;
            }
            j = j + 1;
        }
        if !self.pending[i].keyframe_requested {
            self.keyframe_needed = true;
            let mut frame = self.pending.remove(i);
            frame.keyframe_requested = true;
            self.pending.insert(i, frame);
            proof {
                assert(self.pending@ =~= old(self).pending@.update(i as int, frame));
                lemma_sum_update(old(self).pending@, i as int, frame);
            }
        }
        proof {
            if old(self).beyond_retired() {
                assert forall|k: int| 0 <= k < self.pending@.len() implies self.retired_seq == 0
                    || (#[trigger] self.pending@[k]).seq() > self.retired_seq by {
                    assert(old(self).pending@[k].seq() == self.pending@[k].seq());
                }
            }
        }
    }

    /// Removes frame `i`, counting it and its missing fragments as lost.
    fn drop_at(&mut self, i: usize)
        requires
            old(self).wf_core(),
            i < old(self).pending@.len(),
        ensures
            final(self).same_config(&old(self)),
            final(self).wf_core(),
            old(self).beyond_retired() ==> final(self).beyond_retired(),
            final(self).pending@.len() == old(self).pending@.len() - 1,
            forall|k: int| 0 <= k < final(self).pending@.len() ==> same_content(
                #[trigger] final(self).pending@[k],
                old(self).pending@[if k < i { k } else { k + 1 }],
            ),
            final(self).counters.frames_dropped == old(self).counters.frames_dropped.wrapping_add(1),
            final(self).counters.frames_complete == old(self).counters.frames_complete,
            final(self).counters.frags_received == old(self).counters.frags_received,
            final(self).counters.frags_lost == old(self).counters.frags_lost.wrapping_add(
                (old(self).pending@[i as int].header.frag_count - old(self).pending@[i as int].received) as u64),
            final(self).pending@ == old(self).pending@.remove(i as int),
            final(self).keyframe_needed == (old(self).keyframe_needed || (!old(self).later_keyframe_complete(i as int)
                && !old(self).pending@[i as int].keyframe_requested)),
            final(self).ready == old(self).ready,
            final(self).nacks == old(self).nacks,
            final(self).retired_seq == old(self).retired_seq,
            final(self).latest_completed_seq == old(self).latest_completed_seq,
            final(self).current_epoch == old(self).current_epoch,
            final(self).repair_enabled == old(self).repair_enabled,
            final(self).frame_period_us == old(self).frame_period_us,
            final(self).last_arrival == old(self).last_arrival,
            final(self).last_repair == old(self).last_repair,
    {
        self.request_keyframe_at(i);
        let ghost mid = self.pending@;
        let frame = self.pending.remove(i);
        proof {
            lemma_sum_remove(mid, i as int);
            assert(self.pending@ =~= mid.remove(i as int));
            assert(mid.remove(i as int) =~= old(self).pending@.remove(i as int));
        }
        self.pending_bytes = self.pending_bytes - frame.bytes;
        let missing = frame.missing_fragments();
        self.counters.frames_dropped = self.counters.frames_dropped.wrapping_add(1);
        self.counters.frags_lost = self.counters.frags_lost.wrapping_add(missing);
    }
}

} // verus!

verus! {

proof fn lemma_joined_step(s: Seq<Option<Vec<u8>>>, k: int)
    requires
        0 <= k < s.len(),
    ensures
        joined(s.take(k + 1)) == joined(s.take(k)) + match s[k] {
            Some(v) => v@,
            None => Seq::<u8>::empty(),
        },
{
    assert(s.take(k + 1).drop_last() =~= s.take(k));
}

impl Reassembler {
    /// Hands frame `i` to the ready queue as one payload, in index order.
    fn deliver_at(&mut self, i: usize)
        requires
            old(self).wf_core(),
            i < old(self).pending@.len(),
            old(self).pending@[i as int].is_complete(),
        ensures
            final(self).same_config(&old(self)),
            final(self).wf_core(),
            final(self).pending@ == old(self).pending@.remove(i as int),
            final(self).latest_completed_seq == old(self).pending@[i as int].seq(),
            final(self).retired_seq == if old(self).retired_seq >= old(self).pending@[i as int].seq() {
                old(self).retired_seq
            } else {
                old(self).pending@[i as int].seq()
            },
            final(self).ready@.len() == old(self).ready@.len() + 1,
            final(self).ready@.take(old(self).ready@.len() as int) == old(self).ready@,
            final(self).ready@.last().seq == old(self).pending@[i as int].seq(),
            final(self).ready@.last().payload@ == old(self).pending@[i as int].payload(),
            final(self).ready@.last().is_keyframe == old(self).pending@[i as int].header.is_keyframe,
            final(self).ready@.last().capture_ts_us == old(self).pending@[i as int].header.capture_ts_us,
            final(self).counters.frames_complete == old(self).counters.frames_complete.wrapping_add(1),
            final(self).counters.frames_dropped == old(self).counters.frames_dropped,
            final(self).counters.frags_received == old(self).counters.frags_received,
            final(self).counters.frags_lost == old(self).counters.frags_lost,
            final(self).nacks == old(self).nacks,
            final(self).current_epoch == old(self).current_epoch,
            final(self).repair_enabled == old(self).repair_enabled,
            final(self).frame_period_us == old(self).frame_period_us,
            final(self).last_arrival == old(self).last_arrival,
            final(self).last_repair == old(self).last_repair,
            final(self).keyframe_needed == old(self).keyframe_needed,
    {
        let frame = self.pending.remove(i);
        proof {
            lemma_sum_remove(old(self).pending@, i as int);
            lemma_count_some_bound(frame.fragments@);
        }
        self.pending_bytes = self.pending_bytes - frame.bytes;
        let mut payload: Vec<u8> = Vec::new();
        let mut k: usize = 0;
        while k < frame.fragments.len()
            invariant
                frame.wf(),
                frame.is_complete(),
                k <= frame.fragments@.len(),
                payload@ == joined(frame.fragments@.take(k as int)),
                forall|m: int| 0 <= m < frame.fragments@.len() ==> frame.fragments@[m] is Some,
            decreases frame.fragments@.len() - k,
        {
            proof {
                lemma_joined_step(frame.fragments@, k as int);
            }
            match &frame.fragments[k] {
                Some(bytes) => append_bytes(&mut payload, bytes),
                None => {},
            }
            k = k + 1;
        }
        proof {
            assert(frame.fragments@.take(k as int) =~= frame.fragments@);
        }
        let seq = frame.header.frame_seq;
        self.latest_completed_seq = seq;
        self.retired_seq = max_u32(self.retired_seq, seq);
        self.counters.frames_complete = self.counters.frames_complete.wrapping_add(1);
        self.counters.frags_repaired = self.counters.frags_repaired.wrapping_add(frame.repaired);
        self.ready.push(
            AssembledFrame {
                seq,
                capture_ts_us: frame.header.capture_ts_us,
                is_keyframe: frame.header.is_keyframe,
                payload,
            },
        );
        proof {
            assert(self.ready@.take(old(self).ready@.len() as int) =~= old(self).ready@);
        }
    }

    fn update_depth(&mut self)
        requires
            old(self).wf_core(),
        ensures
            final(self).same_config(&old(self)),
            final(self).wf_core(),
            final(self).pending == old(self).pending,
            final(self).beyond_retired() == old(self).beyond_retired(),
            final(self).counters.assembler_depth as int <= final(self).pending@.len(),
            final(self).counters == (ReassemblyCounters {
                assembler_depth: final(self).counters.assembler_depth,
                ..old(self).counters
            }),
            final(self).ready == old(self).ready,
            final(self).nacks == old(self).nacks,
            final(self).retired_seq == old(self).retired_seq,
            final(self).latest_completed_seq == old(self).latest_completed_seq,
            final(self).current_epoch == old(self).current_epoch,
            final(self).repair_enabled == old(self).repair_enabled,
            final(self).keyframe_needed == old(self).keyframe_needed,
            final(self).pending_bytes == old(self).pending_bytes,
    {
        let mut depth: u8 = 0;
        let mut i: usize = 0;
        while i < self.pending.len()
            invariant
                i <= self.pending@.len() <= MAX_PENDING_FRAMES,
                depth as int <= i,
                self.wf_core(),
            decreases self.pending@.len() - i,
        {
            if !self.pending[i].complete() {
                depth = depth + 1;
            }
            i = i + 1;
        }
        self.counters.assembler_depth = depth;
    }

    /// Forgets every frame and all sequence progress; keeps the epoch and
    /// the negotiated repair settings.
    fn reset_internal(&mut self)
        requires
            old(self).wf_core(),
        ensures
            final(self).wf(),
            final(self).pending@.len() == 0,
            final(self).latest_completed_seq == 0,
            final(self).retired_seq == 0,
            final(self).stale_epoch_streak == 0,
            final(self).counters == ReassemblyCounters::default_spec(),
            final(self).ready@.len() == 0,
            final(self).nacks@.len() == 0,
            !final(self).keyframe_needed,
            final(self).current_epoch == old(self).current_epoch,
            final(self).repair_enabled == old(self).repair_enabled,
            final(self).frame_period_us == old(self).frame_period_us,
            final(self).rtt_us == old(self).rtt_us,
            final(self).last_arrival is None,
            final(self).last_repair is None,
    {
        self.pending.clear();
        self.pending_bytes = 0;
        self.latest_completed_seq = 0;
        self.retired_seq = 0;
        self.stale_epoch_streak = 0;
        self.ready.clear();
        self.nacks.clear();
        self.keyframe_needed = false;
        self.clock_origin = None;
        self.previous_transit = None;
        self.jitter_fp = 0;
        self.last_arrival = None;
        self.last_repair = None;
        self.counters = ReassemblyCounters::zero();
    }

    /// Forgets all state, including the epoch: any stream is accepted next.
    pub fn reset(&mut self)
        requires
            old(self).wf(),
        ensures
            final(self).wf(),
            final(self).pending_seqs().len() == 0,
            final(self).epoch() is None,
            final(self).latest_completed() == 0,
            final(self).retired() == 0,
            final(self).streak() == 0,
            final(self).counters_view() == ReassemblyCounters::default_spec(),
            final(self).ready_view().len() == 0,
            final(self).nacks_view().len() == 0,
            !final(self).keyframe_pending(),
            final(self).repair() == old(self).repair(),
            final(self).frame_period() == old(self).frame_period(),
            final(self).rtt() == old(self).rtt(),
            final(self).held_bytes() == 0,
            forall|s: u32| #[trigger] final(self).held_count(s) is None && final(self).gone(s),
    {
        self.reset_internal();
        self.current_epoch = None;
        proof {
            lemma_empty_observed(&*self, 0);
        }
    }
}

} // verus!

verus! {

fn min_u64(a: u64, b: u64) -> (m: u64)
    ensures
        m == if a <= b { a } else { b },
{
    if a <= b {
        a
    } else {
        b
    }
}

fn max_u64(a: u64, b: u64) -> (m: u64)
    ensures
        m == if a >= b { a } else { b },
{
    if a >= b {
        a
    } else {
        b
    }
}

/// The fields of one frame that repair bookkeeping never touches.
spec fn same_content(a: PendingFrame, b: PendingFrame) -> bool {
    &&& a.fragments == b.fragments
    &&& a.header == b.header
    &&& a.bytes == b.bytes
    &&& a.received == b.received
    &&& a.created_at == b.created_at
    &&& a.contiguous == b.contiguous
    &&& a.highest_index == b.highest_index
    &&& a.repaired == b.repaired
    &&& a.completed_at == b.completed_at
}

/// The indices in `[lo, k)` that a request for frame `f` asks for: those
/// missing and, unless `again`, never requested before; ascending.
spec fn wanted(fragments: Seq<Option<Vec<u8>>>, requested: Seq<bool>, lo: int, k: int, again: bool) -> Seq<u16>
    decreases k - lo,
{
    if k <= lo {
        seq![]
    } else {
        wanted(fragments, requested, lo, k - 1, again) + if fragments[k - 1] is None && (again || !requested[k - 1]) {
            seq![(k - 1) as u16]
        } else {
            seq![]
        }
    }
}

/// How many NACKs carry `n` indices, at most 64 each.
spec fn nack_chunks(n: int) -> int {
    (n + 63) / 64
}

/// `after` is `before` followed by the NACKs asking for `m` for one frame,
/// 64 indices to a NACK, in order.
spec fn nacks_for(before: Seq<Nack>, after: Seq<Nack>, epoch: u32, seq: u32, count: u16, m: Seq<u16>) -> bool {
    &&& after.len() == before.len() + nack_chunks(m.len() as int)
    &&& after.take(before.len() as int) == before
    &&& forall|q: int| 0 <= q < nack_chunks(m.len() as int) ==> {
        let nack = #[trigger] after[before.len() + q];
        &&& nack.stream_epoch == epoch
        &&& nack.frame_seq == seq
        &&& nack.frag_count == count
        &&& nack.missing@ == m.subrange(64 * q, min_int(64 * q + 64, m.len() as int))
    }
}

/// The repair window a frame's first gap opens: twice the RTT plus one and
/// a half frame periods, kept within 8..=25 ms.
spec fn gap_window(rtt: u64, period: u64) -> int {
    let w = 2 * rtt + period * 3 / 2;
    if w < 8_000 { 8_000 } else if w > 25_000 { 25_000 } else { w }
}

impl Reassembler {
    /// Asks for the missing fragments of frame `i` from its contiguous
    /// prefix through `through`: those never requested, or all missing ones
    /// when `again`. At most 64 indices go in one request.
    fn request(&mut self, i: usize, through: u16, again: bool, now: u64)
        requires
            old(self).wf_core(),
            i < old(self).pending@.len(),
            through < old(self).pending@[i as int].header.frag_count,
        ensures
            final(self).same_config(&old(self)),
            final(self).wf_core(),
            old(self).beyond_retired() ==> final(self).beyond_retired(),
            final(self).pending@.len() == old(self).pending@.len(),
            forall|k: int| 0 <= k < final(self).pending@.len() ==> same_content(
                #[trigger] final(self).pending@[k],
                old(self).pending@[k],
            ),
            forall|k: int| 0 <= k < final(self).pending@.len() && k != i ==> #[trigger] final(self).pending@[k] == old(self).pending@[k],
            final(self).pending@[i as int].deadline == old(self).pending@[i as int].deadline,
            final(self).pending@[i as int].gap_at == old(self).pending@[i as int].gap_at,
            final(self).pending@[i as int].retried == old(self).pending@[i as int].retried,
            final(self).pending@[i as int].retry_at == old(self).pending@[i as int].retry_at,
            ({
                let f = old(self).pending@[i as int];
                let m = wanted(f.fragments@, f.requested@, f.contiguous as int, through + 1, again);
                let chunks = nack_chunks(m.len() as int);
                &&& nacks_for(old(self).nacks@, final(self).nacks@, match old(self).current_epoch { Some(e) => e, None => 0u32 },
                    f.seq(), f.header.frag_count, m)
                &&& final(self).counters.nacks_sent as int == (old(self).counters.nacks_sent + chunks) % 0x1_0000_0000_0000_0000
                &&& final(self).pending@[i as int].requested@ == Seq::new(
                    f.requested@.len(),
                    |x: int| f.requested@[x] || m.contains(x as u16),
                )
                &&& final(self).pending@[i as int].requested_at == if m.len() > 0 && f.requested_at is None {
                    Some(now)
                } else {
                    f.requested_at
                }
                &&& final(self).pending@[i as int].stall_used == f.stall_used
                &&& final(self).pending@[i as int].stall_counted_until == f.stall_counted_until
                &&& final(self).pending@[i as int].keyframe_requested == f.keyframe_requested
            }),
            final(self).nacks@.len() >= old(self).nacks@.len(),
            final(self).nacks@.take(old(self).nacks@.len() as int) == old(self).nacks@,
            forall|n: int| old(self).nacks@.len() <= n < final(self).nacks@.len() ==> {
                let nack = #[trigger] final(self).nacks@[n];
                let frame = old(self).pending@[i as int];
                &&& nack.frame_seq == frame.seq()
                &&& nack.frag_count == frame.header.frag_count
                &&& 1 <= nack.missing@.len() <= MAX_NACK_MISSING
                &&& forall|m: int| 0 <= m < nack.missing@.len() ==> {
                    &&& frame.contiguous <= #[trigger] nack.missing@[m] <= through
                    &&& frame.fragments@[nack.missing@[m] as int] is None
                }
            },
            final(self).counters == (ReassemblyCounters {
                nacks_sent: final(self).counters.nacks_sent,
                ..old(self).counters
            }),
            final(self).ready == old(self).ready,
            final(self).retired_seq == old(self).retired_seq,
            final(self).latest_completed_seq == old(self).latest_completed_seq,
            final(self).current_epoch == old(self).current_epoch,
            final(self).repair_enabled == old(self).repair_enabled,
            final(self).frame_period_us == old(self).frame_period_us,
            final(self).rtt_us == old(self).rtt_us,
            final(self).last_arrival == old(self).last_arrival,
            final(self).last_repair == old(self).last_repair,
            final(self).keyframe_needed == old(self).keyframe_needed,
    {
        let ghost frame0 = self.pending@[i as int];
        let contiguous = self.pending[i].contiguous;
        if contiguous > through {
            assert(wanted(frame0.fragments@, frame0.requested@, contiguous as int, through + 1, again) =~= Seq::<u16>::empty());
            assert(frame0.requested@ =~= Seq::new(frame0.requested@.len(), |x: int| frame0.requested@[x]
                || wanted(frame0.fragments@, frame0.requested@, contiguous as int, through + 1, again).contains(x as u16)));
            assert(self.nacks@.take(self.nacks@.len() as int) =~= self.nacks@);
            return;
        }
        let mut missing: Vec<u16> = Vec::new();
        let mut k: u16 = contiguous;
        while k <= through
            invariant
                self.pending@ == old(self).pending@,
                self.wf_core(),
                frame0 == self.pending@[i as int],
                i < self.pending@.len(),
                through < frame0.header.frag_count,
                contiguous == frame0.contiguous,
                contiguous <= k <= through + 1,
                missing@.len() <= k - contiguous,
                missing@ == wanted(frame0.fragments@, frame0.requested@, contiguous as int, k as int, again),
                forall|m: int| 0 <= m < missing@.len() ==> {
                    &&& contiguous <= #[trigger] missing@[m] < k
                    &&& frame0.fragments@[missing@[m] as int] is None
                },
            decreases through + 1 - k,
        {
            if !self.pending[i].has(k) && (again || !self.pending[i].requested[k as usize]) {
                missing.push(k);
            }
            k = k + 1;
        }
        if missing.len() == 0 {
            assert(frame0.requested@ =~= Seq::new(frame0.requested@.len(), |x: int| frame0.requested@[x]
                || missing@.contains(x as u16)));
            assert(self.nacks@.take(self.nacks@.len() as int) =~= self.nacks@);
            return;
        }
        let mut frame = self.pending.remove(i);
        let mut m: usize = 0;
        assert(frame.requested@ =~= Seq::new(frame0.requested@.len(), |x: int| frame0.requested@[x]
            || missing@.take(0).contains(x as u16)));
        while m < missing.len()
            invariant
                m <= missing@.len(),
                frame.requested@ == Seq::new(frame0.requested@.len(), |x: int| frame0.requested@[x]
                    || missing@.take(m as int).contains(x as u16)),
                frame.requested_at == frame0.requested_at,
                frame.stall_counted_until == frame0.stall_counted_until,
                frame.keyframe_requested == frame0.keyframe_requested,
                frame.wf(),
                same_content(frame, frame0),
                frame.deadline == frame0.deadline,
                frame.gap_at == frame0.gap_at,
                frame.retried == frame0.retried,
                frame.retry_at == frame0.retry_at,
                frame.stall_used == frame0.stall_used,
                frame0.wf(),
                forall|q: int| 0 <= q < missing@.len() ==> (#[trigger] missing@[q]) < frame0.header.frag_count,
            decreases missing@.len() - m,
        {
            let index = missing[m] as usize;
            let ghost before_req = frame.requested@;
            frame.requested.set(index, true);
            proof {
                assert(missing@.take(m + 1) =~= missing@.take(m as int).push(missing@[m as int]));
                assert(frame.requested@ == before_req.update(index as int, true));
                assert forall|x: int| 0 <= x < frame0.requested@.len() implies #[trigger] frame.requested@[x]
                    == (frame0.requested@[x] || missing@.take(m + 1).contains(x as u16)) by {
                    assert((x as u16) as int == x);
                    if x == index as int {
                        assert(missing@.take(m + 1)[m as int] == x as u16);
                    } else {
                        assert(frame.requested@[x] == before_req[x]);
                        if missing@.take(m + 1).contains(x as u16) {
                            let w = choose|w: int| 0 <= w < m + 1 && #[trigger] missing@.take(m + 1)[w] == x as u16;
                            assert(w != m);
                            assert(missing@.take(m as int)[w] == x as u16);
                        }
                        if missing@.take(m as int).contains(x as u16) {
                            let w = choose|w: int| 0 <= w < m && #[trigger] missing@.take(m as int)[w] == x as u16;
                            assert(missing@.take(m + 1)[w] == x as u16);
                        }
                    }
                }
                assert(frame.requested@ =~= Seq::new(frame0.requested@.len(), |x: int| frame0.requested@[x]
                    || missing@.take(m + 1).contains(x as u16)));
            }
            m = m + 1;
        }
        assert(missing@.take(missing@.len() as int) =~= missing@);
        if frame.requested_at.is_none() {
            frame.requested_at = Some(now);
        }
        self.pending.insert(i, frame);
        proof {
            assert(self.pending@ =~= old(self).pending@.update(i as int, frame));
            lemma_sum_update(old(self).pending@, i as int, frame);
        }
        let epoch = match self.current_epoch {
            Some(e) => e,
            None => 0,
        };
        let frag_count = frame0_count(&self.pending[i]);
        let seq = frame0_seq(&self.pending[i]);
        let ghost nacks0 = self.nacks@;
        let ghost done: int = 0;
        let mut start: usize = 0;
        while start < missing.len()
            invariant
                self.wf_core(),
                done >= 0,
                start as int == min_int(64 * done, missing@.len() as int),
                done == 0 || 64 * (done - 1) < missing@.len(),
                self.nacks@.len() == nacks0.len() + done,
                epoch == match old(self).current_epoch { Some(e) => e, None => 0u32 },
                forall|q: int| 0 <= q < done ==> {
                    let nack = #[trigger] self.nacks@[nacks0.len() + q];
                    &&& nack.stream_epoch == epoch
                    &&& nack.frame_seq == frame0.seq()
                    &&& nack.frag_count == frame0.header.frag_count
                    &&& nack.missing@ == missing@.subrange(64 * q, min_int(64 * q + 64, missing@.len() as int))
                },
                self.counters.nacks_sent as int == (old(self).counters.nacks_sent + done) % 0x1_0000_0000_0000_0000,
                self.pending@ == old(self).pending@.update(i as int, frame),
                start <= missing@.len(),
                i < self.pending@.len(),
                frag_count == frame0.header.frag_count,
                seq == frame0.seq(),
                contiguous == frame0.contiguous,
                nacks0 == old(self).nacks@,
                self.same_config(&old(self)),
                self.nacks@.len() >= nacks0.len(),
                self.nacks@.take(nacks0.len() as int) == nacks0,
                self.counters == (ReassemblyCounters {
                    nacks_sent: self.counters.nacks_sent,
                    ..old(self).counters
                }),
                self.ready == old(self).ready,
                self.retired_seq == old(self).retired_seq,
                self.latest_completed_seq == old(self).latest_completed_seq,
                self.current_epoch == old(self).current_epoch,
                self.repair_enabled == old(self).repair_enabled,
                self.frame_period_us == old(self).frame_period_us,
                self.rtt_us == old(self).rtt_us,
                self.last_arrival == old(self).last_arrival,
                self.last_repair == old(self).last_repair,
                self.keyframe_needed == old(self).keyframe_needed,
                forall|q: int| 0 <= q < missing@.len() ==> {
                    &&& contiguous <= #[trigger] missing@[q] <= through
                    &&& frame0.fragments@[missing@[q] as int] is None
                },
                forall|n: int| nacks0.len() <= n < self.nacks@.len() ==> {
                    let nack = #[trigger] self.nacks@[n];
                    &&& nack.frame_seq == frame0.seq()
                    &&& nack.frag_count == frame0.header.frag_count
                    &&& 1 <= nack.missing@.len() <= MAX_NACK_MISSING
                    &&& forall|m: int| 0 <= m < nack.missing@.len() ==> {
                        &&& frame0.contiguous <= #[trigger] nack.missing@[m] <= through
                        &&& frame0.fragments@[nack.missing@[m] as int] is None
                    }
                },
            decreases missing@.len() - start,
        {
            let end = if missing.len() - start > MAX_NACK_MISSING {
                start + MAX_NACK_MISSING
            } else {
                missing.len()
            };
            let mut chunk: Vec<u16> = Vec::new();
            let mut c = start;
            while c < end
                invariant
                    start <= c <= end <= missing@.len(),
                    chunk@ == missing@.subrange(start as int, c as int),
                decreases end - c,
            {
                chunk.push(missing[c]);
                c = c + 1;
                assert(chunk@ =~= missing@.subrange(start as int, c as int));
            }
            self.counters.nacks_sent = self.counters.nacks_sent.wrapping_add(1);
            let ghost before = self.nacks@;
            let ghost chunk_view = chunk@;
            assert(chunk_view.len() == end - start);
            self.nacks.push(Nack { stream_epoch: epoch, frame_seq: seq, frag_count, missing: chunk });
            assert(self.nacks@.last().missing@ == chunk_view);
            proof {
                assert forall|q: int| 0 <= q < done + 1 implies {
                    let nack = #[trigger] self.nacks@[nacks0.len() + q];
                    &&& nack.stream_epoch == epoch
                    &&& nack.frame_seq == frame0.seq()
                    &&& nack.frag_count == frame0.header.frag_count
                    &&& nack.missing@ == missing@.subrange(64 * q, min_int(64 * q + 64, missing@.len() as int))
                } by {
                    if q < done {
                        assert(self.nacks@[nacks0.len() + q] == before[nacks0.len() + q]);
                    }
                }
                done = done + 1;
                assert(self.nacks@.take(nacks0.len() as int) =~= before.take(nacks0.len() as int));
                assert forall|n: int| nacks0.len() <= n < self.nacks@.len() implies {
                    let nack = #[trigger] self.nacks@[n];
                    &&& nack.frame_seq == frame0.seq()
                    &&& nack.frag_count == frame0.header.frag_count
                    &&& 1 <= nack.missing@.len() <= MAX_NACK_MISSING
                    &&& forall|m: int| 0 <= m < nack.missing@.len() ==> {
                        &&& frame0.contiguous <= #[trigger] nack.missing@[m] <= through
                        &&& frame0.fragments@[nack.missing@[m] as int] is None
                    }
                } by {
                    if n < before.len() {
                        assert(self.nacks@[n] == before[n]);
                    } else {
                        let nack = self.nacks@[n];
                        assert(n == before.len());
                        assert(nack == self.nacks@.last());
                        assert forall|m: int| 0 <= m < nack.missing@.len() implies {
                            &&& frame0.contiguous <= #[trigger] nack.missing@[m] <= through
                            &&& frame0.fragments@[nack.missing@[m] as int] is None
                        } by {
                            assert(nack.missing@ == chunk_view);
                            assert(chunk_view[m] == missing@[start + m]);
                        }
                    }
                }
            }
            start = end;
        }
        proof {
            if old(self).beyond_retired() {
                assert forall|q: int| 0 <= q < self.pending@.len() implies self.retired_seq == 0
                    || (#[trigger] self.pending@[q]).seq() > self.retired_seq by {
                    assert(old(self).pending@[q].seq() == self.pending@[q].seq());
                }
            }
        }
    }
}

fn frame0_count(f: &PendingFrame) -> (c: u16)
    ensures
        c == f.header.frag_count,
{
    f.header.frag_count
}

fn frame0_seq(f: &PendingFrame) -> (s: u32)
    ensures
        s == f.header.frame_seq,
{
    f.header.frame_seq
}

} // verus!

verus! {

spec fn sat_u64(v: int) -> int {
    if v > u64::MAX { u64::MAX as int } else { v }
}

spec fn min_int(a: int, b: int) -> int {
    if a <= b { a } else { b }
}

spec fn max_int(a: int, b: int) -> int {
    if a >= b { a } else { b }
}

/// When the link went silent for a waiting frame: a frame period after the
/// last arrival, or, once its fragments were requested, the RTT plus 5 ms
/// after the later of that request and the last repair, whichever is first.
spec fn silent_from(f: PendingFrame, last_arrival: Option<u64>, last_repair: Option<u64>, period: u64, rtt: u64) -> Option<int> {
    let silent: Option<int> = match last_arrival {
        Some(last) => Some(sat_u64(last + period)),
        None => None,
    };
    match f.requested_at {
        Some(asked) => {
            let base: int = match last_repair {
                Some(repair) => max_int(repair as int, asked as int),
                None => asked as int,
            };
            let due = sat_u64(sat_u64(base + rtt) + 5_000);
            Some(match silent {
                Some(x) => min_int(x, due),
                None => due,
            })
        },
        None => silent,
    }
}

/// How long a frame with a gap has been stalled at `now` and not yet
/// counted: from the later of its silence, its gap and what was counted
/// before, capped by what is left of its allowance.
/// A waiting frame after traffic resumed: a frame with a deadline that
/// stalled `extra` more has its deadline moved by that much, the time
/// counted against its allowance, and the stall marked counted up to `now`.
spec fn resumed(f: PendingFrame, extra: int, now: u64) -> PendingFrame {
    match f.deadline {
        Some(d) => if extra > 0 {
            PendingFrame {
                deadline: Some(sat_u64(d + extra) as u64),
                stall_used: (f.stall_used + extra) as u64,
                stall_counted_until: Some(now),
                ..f
            }
        } else {
            f
        },
        None => f,
    }
}

spec fn stall_spec(f: PendingFrame, last_arrival: Option<u64>, last_repair: Option<u64>, period: u64, rtt: u64, now: u64) -> int {
    match f.gap_at {
        None => 0,
        Some(gap) => match silent_from(f, last_arrival, last_repair, period, rtt) {
            None => 0,
            Some(s) => {
                let from1 = max_int(s, gap as int);
                let from = match f.stall_counted_until {
                    Some(counted) => max_int(from1, counted as int),
                    None => from1,
                };
                if now <= from { 0 } else { min_int(now - from, MAX_STALL_ALLOWANCE_US - f.stall_used) }
            },
        },
    }
}

impl Reassembler {
    spec fn stall_of(&self, f: PendingFrame, now: u64) -> int {
        stall_spec(f, self.last_arrival, self.last_repair, self.frame_period_us, self.rtt_us, now)
    }

    /// How long waiting frame `i` has been stalled, not yet counted, within
    /// its remaining allowance.
    fn stall(&self, i: usize, now: u64) -> (extra: u64)
        requires
            self.wf_core(),
            i < self.pending@.len(),
        ensures
            extra <= MAX_STALL_ALLOWANCE_US - self.pending@[i as int].stall_used,
            extra == self.stall_of(self.pending@[i as int], now),
    {
        let frame = &self.pending[i];
        let gap = match frame.gap_at {
            None => return 0,
            Some(g) => g,
        };
        let mut silent_from: Option<u64> = match self.last_arrival {
            Some(last) => Some(last.saturating_add(self.frame_period_us)),
            None => None,
        };
        match frame.requested_at {
            Some(asked) => {
                let base = match self.last_repair {
                    Some(repair) => max_u64(repair, asked),
                    None => asked,
                };
                let due = base.saturating_add(self.rtt_us).saturating_add(5_000);
                silent_from = Some(
                    match silent_from {
                        Some(silent) => min_u64(silent, due),
                        None => due,
                    },
                );
            },
            None => {},
        }
        let mut from = match silent_from {
            None => return 0,
            Some(f) => f,
        };
        from = max_u64(from, gap);
        match frame.stall_counted_until {
            Some(counted) => from = max_u64(from, counted),
            None => {},
        }
        if now <= from {
            return 0;
        }
        min_u64(now - from, MAX_STALL_ALLOWANCE_US - frame.stall_used)
    }

    /// Traffic arrived: move each waiting frame's deadline past the stall so far.
    fn resume_after_stall(&mut self, now: u64)
        requires
            old(self).wf(),
        ensures
            final(self).wf(),
            final(self).pending@.len() == old(self).pending@.len(),
            forall|k: int| 0 <= k < final(self).pending@.len() ==> #[trigger] final(self).pending@[k] == resumed(
                old(self).pending@[k],
                old(self).stall_of(old(self).pending@[k], now),
                now,
            ),
            forall|k: int| 0 <= k < final(self).pending@.len() ==> same_content(
                #[trigger] final(self).pending@[k],
                old(self).pending@[k],
            ),
            final(self).counters == old(self).counters,
            final(self).ready == old(self).ready,
            final(self).nacks == old(self).nacks,
            final(self).retired_seq == old(self).retired_seq,
            final(self).latest_completed_seq == old(self).latest_completed_seq,
            final(self).current_epoch == old(self).current_epoch,
            final(self).stale_epoch_streak == old(self).stale_epoch_streak,
            final(self).repair_enabled == old(self).repair_enabled,
            final(self).frame_period_us == old(self).frame_period_us,
            final(self).rtt_us == old(self).rtt_us,
            final(self).last_arrival == old(self).last_arrival,
            final(self).last_repair == old(self).last_repair,
            final(self).keyframe_needed == old(self).keyframe_needed,
            final(self).clock_origin == old(self).clock_origin,
            final(self).previous_transit == old(self).previous_transit,
            final(self).jitter_fp == old(self).jitter_fp,
    {
        let mut i: usize = 0;
        while i < self.pending.len()
            invariant
                i <= self.pending@.len(),
                self.wf(),
                self.pending@.len() == old(self).pending@.len(),
                forall|k: int| 0 <= k < self.pending@.len() ==> same_content(
                    #[trigger] self.pending@[k],
                    old(self).pending@[k],
                ),
                self.counters == old(self).counters,
                self.ready == old(self).ready,
                self.nacks == old(self).nacks,
                self.retired_seq == old(self).retired_seq,
                self.latest_completed_seq == old(self).latest_completed_seq,
                self.current_epoch == old(self).current_epoch,
                self.stale_epoch_streak == old(self).stale_epoch_streak,
                self.repair_enabled == old(self).repair_enabled,
                self.frame_period_us == old(self).frame_period_us,
                self.rtt_us == old(self).rtt_us,
                self.last_arrival == old(self).last_arrival,
                self.last_repair == old(self).last_repair,
                self.keyframe_needed == old(self).keyframe_needed,
                self.clock_origin == old(self).clock_origin,
                self.previous_transit == old(self).previous_transit,
                self.jitter_fp == old(self).jitter_fp,
                forall|k: int| 0 <= k < i ==> #[trigger] self.pending@[k] == resumed(
                    old(self).pending@[k],
                    old(self).stall_of(old(self).pending@[k], now),
                    now,
                ),
                forall|k: int| i <= k < self.pending@.len() ==> #[trigger] self.pending@[k] == old(self).pending@[k],
            decreases self.pending@.len() - i,
        {
            if self.pending[i].deadline.is_some() {
                let extra = self.stall(i, now);
                if extra > 0 {
                    let ghost before = self.pending@;
                    let mut frame = self.pending.remove(i);
                    frame.deadline = match frame.deadline {
                        Some(d) => Some(d.saturating_add(extra)),
                        None => None,
                    };
                    frame.stall_used = frame.stall_used + extra;
                    frame.stall_counted_until = Some(now);
                    self.pending.insert(i, frame);
                    proof {
                        assert(self.pending@ =~= before.update(i as int, frame));
                        lemma_sum_update(before, i as int, frame);
                        assert forall|q: int| 0 <= q < self.pending@.len() implies self.retired_seq == 0
                            || (#[trigger] self.pending@[q]).seq() > self.retired_seq by {
                            assert(before[q].seq() == self.pending@[q].seq());
                        }
                    }
                }
            }
            i = i + 1;
        }
    }

    /// The first gap starts frame `i`'s repair deadline and schedules its one
    /// retry; every gap requests the fragments it newly shows missing.
    fn begin_gap(&mut self, i: usize, through: u16, now: u64)
        requires
            old(self).wf(),
            i < old(self).pending@.len(),
            through < old(self).pending@[i as int].header.frag_count,
        ensures
            final(self).wf(),
            final(self).pending@.len() == old(self).pending@.len(),
            forall|k: int| 0 <= k < final(self).pending@.len() ==> same_content(
                #[trigger] final(self).pending@[k],
                old(self).pending@[k],
            ),
            final(self).pending@[i as int].deadline is Some,
            final(self).pending@[i as int].retried == old(self).pending@[i as int].retried,
            ({
                let f = old(self).pending@[i as int];
                let g = final(self).pending@[i as int];
                let m = wanted(f.fragments@, f.requested@, f.contiguous as int, through + 1, false);
                &&& f.deadline is None ==> {
                    &&& g.gap_at == Some(now)
                    &&& g.deadline == Some(sat_u64(now + gap_window(old(self).rtt_us, old(self).frame_period_us)) as u64)
                    &&& g.retry_at == Some(sat_u64(sat_u64(now + old(self).rtt_us) + 5_000) as u64)
                }
                &&& f.deadline is Some ==> g.gap_at == f.gap_at && g.deadline == f.deadline && g.retry_at == f.retry_at
                &&& nacks_for(old(self).nacks@, final(self).nacks@, match old(self).current_epoch { Some(e) => e, None => 0u32 },
                    f.seq(), f.header.frag_count, m)
                &&& final(self).counters.nacks_sent as int == (old(self).counters.nacks_sent + nack_chunks(m.len() as int))
                    % 0x1_0000_0000_0000_0000
                &&& g.requested@ == Seq::new(f.requested@.len(), |x: int| f.requested@[x] || m.contains(x as u16))
                &&& forall|k: int| 0 <= k < final(self).pending@.len() && k != i ==> #[trigger] final(self).pending@[k] == old(self).pending@[k]
            }),
            final(self).ready == old(self).ready,
            final(self).retired_seq == old(self).retired_seq,
            final(self).latest_completed_seq == old(self).latest_completed_seq,
            final(self).current_epoch == old(self).current_epoch,
            final(self).stale_epoch_streak == old(self).stale_epoch_streak,
            final(self).repair_enabled == old(self).repair_enabled,
            final(self).frame_period_us == old(self).frame_period_us,
            final(self).rtt_us == old(self).rtt_us,
            final(self).last_arrival == old(self).last_arrival,
            final(self).last_repair == old(self).last_repair,
            final(self).keyframe_needed == old(self).keyframe_needed,
            final(self).counters.frames_complete == old(self).counters.frames_complete,
            final(self).counters.frames_dropped == old(self).counters.frames_dropped,
            final(self).counters.frags_received == old(self).counters.frags_received,
            final(self).clock_origin == old(self).clock_origin,
            final(self).previous_transit == old(self).previous_transit,
            final(self).jitter_fp == old(self).jitter_fp,
    {
        if self.pending[i].deadline.is_none() {
            let window = 2 * (self.rtt_us as u128) + (self.frame_period_us as u128) * 3 / 2;
            let window_us: u64 = if window < 8_000 {
                8_000
            } else if window > 25_000 {
                25_000
            } else {
                window as u64
            };
            let ghost before = self.pending@;
            let mut frame = self.pending.remove(i);
            frame.gap_at = Some(now);
            frame.deadline = Some(now.saturating_add(window_us));
            frame.retry_at = Some(now.saturating_add(self.rtt_us).saturating_add(5_000));
            self.pending.insert(i, frame);
            proof {
                assert(self.pending@ =~= before.update(i as int, frame));
                lemma_sum_update(before, i as int, frame);
                assert forall|q: int| 0 <= q < self.pending@.len() implies self.retired_seq == 0
                    || (#[trigger] self.pending@[q]).seq() > self.retired_seq by {
                    assert(before[q].seq() == self.pending@[q].seq());
                }
            }
        }
        self.request(i, through, false, now);
    }

    /// Delivers complete frames in order; a complete frame that skips a
    /// sequence number waits up to half a frame period for it.
    fn drain_ready(&mut self, now: u64)
        requires
            old(self).wf(),
        ensures
            final(self).wf(),
            ({
                let hold = (old(self).frame_period_us / 2) as u64;
                let c = drain_count(old(self).pending@, old(self).latest_completed_seq, old(self).retired_seq, hold, now);
                &&& c <= old(self).pending@.len()
                &&& final(self).pending@ == old(self).pending@.subrange(c as int, old(self).pending@.len() as int)
                &&& final(self).ready@.len() == old(self).ready@.len() + c
                &&& forall|q: int| 0 <= q < c ==> {
                    &&& (#[trigger] final(self).ready@[old(self).ready@.len() + q]).seq == old(self).pending@[q].seq()
                    &&& final(self).ready@[old(self).ready@.len() + q].payload@ == old(self).pending@[q].payload()
                    &&& final(self).ready@[old(self).ready@.len() + q].is_keyframe == old(self).pending@[q].header.is_keyframe
                    &&& final(self).ready@[old(self).ready@.len() + q].capture_ts_us == old(self).pending@[q].header.capture_ts_us
                }
                &&& (final(self).latest_completed_seq, final(self).retired_seq) == drain_marks(
                    old(self).pending@, old(self).latest_completed_seq, old(self).retired_seq, hold, now)
                &&& final(self).counters.frames_complete as int == (old(self).counters.frames_complete + c) % 0x1_0000_0000_0000_0000
            }),
            final(self).pending@.len() <= old(self).pending@.len(),
            final(self).pending@ == old(self).pending@.subrange(
                old(self).pending@.len() - final(self).pending@.len(),
                old(self).pending@.len() as int,
            ),
            final(self).ready@.len() >= old(self).ready@.len(),
            final(self).ready@.take(old(self).ready@.len() as int) == old(self).ready@,
            final(self).nacks == old(self).nacks,
            final(self).current_epoch == old(self).current_epoch,
            final(self).stale_epoch_streak == old(self).stale_epoch_streak,
            final(self).repair_enabled == old(self).repair_enabled,
            final(self).frame_period_us == old(self).frame_period_us,
            final(self).rtt_us == old(self).rtt_us,
            final(self).last_arrival == old(self).last_arrival,
            final(self).last_repair == old(self).last_repair,
            final(self).keyframe_needed == old(self).keyframe_needed,
            final(self).counters.frames_dropped == old(self).counters.frames_dropped,
            final(self).counters.frags_received == old(self).counters.frags_received,
            final(self).counters.frags_lost == old(self).counters.frags_lost,
            final(self).retired_seq >= old(self).retired_seq,
            final(self).clock_origin == old(self).clock_origin,
            final(self).previous_transit == old(self).previous_transit,
            final(self).jitter_fp == old(self).jitter_fp,
    {
        let hold = self.frame_period_us / 2;
        let ghost taken: nat = 0;
        let ghost old_latest = old(self).latest_completed_seq;
        let ghost old_retired = old(self).retired_seq;
        assert(old(self).pending@.subrange(0, old(self).pending@.len() as int) =~= old(self).pending@);
        while self.pending.len() > 0
            invariant
                self.wf(),
                hold == old(self).frame_period_us / 2,
                taken <= old(self).pending@.len(),
                self.pending@ == old(self).pending@.subrange(taken as int, old(self).pending@.len() as int),
                self.ready@.len() == old(self).ready@.len() + taken,
                forall|q: int| 0 <= q < taken ==> {
                    &&& (#[trigger] self.ready@[old(self).ready@.len() + q]).seq == old(self).pending@[q].seq()
                    &&& self.ready@[old(self).ready@.len() + q].payload@ == old(self).pending@[q].payload()
                    &&& self.ready@[old(self).ready@.len() + q].is_keyframe == old(self).pending@[q].header.is_keyframe
                    &&& self.ready@[old(self).ready@.len() + q].capture_ts_us == old(self).pending@[q].header.capture_ts_us
                },
                drain_count(old(self).pending@, old_latest, old_retired, hold, now)
                    == taken + drain_count(self.pending@, self.latest_completed_seq, self.retired_seq, hold, now),
                drain_marks(old(self).pending@, old_latest, old_retired, hold, now)
                    == drain_marks(self.pending@, self.latest_completed_seq, self.retired_seq, hold, now),
                self.counters.frames_complete as int == (old(self).counters.frames_complete + taken) % 0x1_0000_0000_0000_0000,
                old_latest == old(self).latest_completed_seq,
                old_retired == old(self).retired_seq,
                self.pending@.len() <= old(self).pending@.len(),
                self.pending@ == old(self).pending@.subrange(
                    old(self).pending@.len() - self.pending@.len(),
                    old(self).pending@.len() as int,
                ),
                self.ready@.len() >= old(self).ready@.len(),
                self.ready@.take(old(self).ready@.len() as int) == old(self).ready@,
                self.nacks == old(self).nacks,
                self.current_epoch == old(self).current_epoch,
                self.stale_epoch_streak == old(self).stale_epoch_streak,
                self.repair_enabled == old(self).repair_enabled,
                self.frame_period_us == old(self).frame_period_us,
                self.rtt_us == old(self).rtt_us,
                self.last_arrival == old(self).last_arrival,
                self.last_repair == old(self).last_repair,
                self.keyframe_needed == old(self).keyframe_needed,
                self.counters.frames_dropped == old(self).counters.frames_dropped,
                self.counters.frags_received == old(self).counters.frags_received,
                self.counters.frags_lost == old(self).counters.frags_lost,
                self.retired_seq >= old(self).retired_seq,
                self.clock_origin == old(self).clock_origin,
                self.previous_transit == old(self).previous_transit,
                self.jitter_fp == old(self).jitter_fp,
            ensures
                self.pending@.len() == 0 || !deliverable_now(self.pending@[0], self.latest_completed_seq, self.retired_seq, hold, now),
            decreases self.pending@.len(),
        {
            if !self.pending[0].complete() {
                break;
            }
            let seq = self.pending[0].header.frame_seq;
            let resolved = max_u32(self.latest_completed_seq, self.retired_seq);
            let completed_at = match self.pending[0].completed_at {
                Some(at) => at,
                None => now,
            };
            if resolved > 0 && seq > resolved.wrapping_add(1) && !self.pending[0].header.is_keyframe
                && now < completed_at.saturating_add(hold) {
                break;
            }
            let ghost before = *self;
            assert(deliverable_now(before.pending@[0], before.latest_completed_seq, before.retired_seq, hold, now));
            self.deliver_at(0);
            proof {
                assert(before.pending@.drop_first() =~= before.pending@.remove(0));
                assert(before.pending@[0] == old(self).pending@[taken as int]);
                taken = taken + 1;
                assert forall|q: int| 0 <= q < taken implies {
                    &&& (#[trigger] self.ready@[old(self).ready@.len() + q]).seq == old(self).pending@[q].seq()
                    &&& self.ready@[old(self).ready@.len() + q].payload@ == old(self).pending@[q].payload()
                    &&& self.ready@[old(self).ready@.len() + q].is_keyframe == old(self).pending@[q].header.is_keyframe
                    &&& self.ready@[old(self).ready@.len() + q].capture_ts_us == old(self).pending@[q].header.capture_ts_us
                } by {
                    if q < taken - 1 {
                        assert(self.ready@.take(before.ready@.len() as int)[old(self).ready@.len() + q]
                            == before.ready@[old(self).ready@.len() + q]);
                    }
                }
                assert forall|q: int| 0 <= q < self.pending@.len() implies self.retired_seq == 0
                    || (#[trigger] self.pending@[q]).seq() > self.retired_seq by {
                    assert(self.pending@[q] == before.pending@[q + 1]);
                    assert(before.pending@[0].seq() < before.pending@[q + 1].seq());
                }
                assert(self.pending@ =~= old(self).pending@.subrange(
                    old(self).pending@.len() - self.pending@.len(),
                    old(self).pending@.len() as int,
                ));
                assert(self.ready@.take(old(self).ready@.len() as int) =~= old(self).ready@) by {
                    assert(self.ready@.take(before.ready@.len() as int) == before.ready@);
                }
            }
        }
    }
}

} // verus!

verus! {

/// Whether the oldest held frame is delivered now: it is complete, and it
/// either follows what was delivered or given up on, is a keyframe, or has
/// waited `hold` since it completed.
spec fn deliverable_now(f: PendingFrame, latest: u32, retired: u32, hold: u64, now: u64) -> bool {
    let resolved: u32 = if latest >= retired { latest } else { retired };
    let completed_at: int = match f.completed_at {
        Some(at) => at as int,
        None => now as int,
    };
    f.is_complete() && !(resolved > 0 && f.seq() > (resolved + 1) % 0x1_0000_0000 && !f.header.is_keyframe
        && now < sat_u64(completed_at + hold))
}

/// How many leading frames ordered delivery hands out.
spec fn drain_count(frames: Seq<PendingFrame>, latest: u32, retired: u32, hold: u64, now: u64) -> nat
    decreases frames.len(),
{
    if frames.len() > 0 && deliverable_now(frames[0], latest, retired, hold, now) {
        1 + drain_count(frames.drop_first(), frames[0].seq(), if retired >= frames[0].seq() { retired } else { frames[0].seq() }, hold, now)
    } else {
        0
    }
}

/// The latest delivered and the retired sequence numbers after ordered
/// delivery.
spec fn drain_marks(frames: Seq<PendingFrame>, latest: u32, retired: u32, hold: u64, now: u64) -> (u32, u32)
    decreases frames.len(),
{
    if frames.len() > 0 && deliverable_now(frames[0], latest, retired, hold, now) {
        drain_marks(frames.drop_first(), frames[0].seq(), if retired >= frames[0].seq() { retired } else { frames[0].seq() }, hold, now)
    } else {
        (latest, retired)
    }
}

/// Whether a non-repair sweep keeps this frame: it is complete, or its
/// first fragment arrived less than the stale timeout ago.
spec fn keep_unrepaired(f: PendingFrame, now: u64) -> bool {
    f.is_complete() || (if now >= f.created_at { now - f.created_at } else { 0 }) < STALE_FRAME_TIMEOUT_US
}

/// `a + n` on a counter that wraps at 2^64.
pub open spec fn wrap_add(a: u64, n: int) -> u64 {
    ((a + n) % 0x1_0000_0000_0000_0000) as u64
}

proof fn lemma_wrap_step(a: u64, n: int, d: u64)
    ensures
        wrap_add(a, n).wrapping_add(d) == wrap_add(a, n + d),
{
    let m: int = 0x1_0000_0000_0000_0000;
    let x: int = (a + n) % m;
    assert(0 <= x < m);
    vstd::arithmetic::div_mod::lemma_add_mod_noop(a + n, d as int, m);
    vstd::arithmetic::div_mod::lemma_small_mod(d as nat, m as nat);
    assert((x + d) % m == (a + n + d) % m);
    if x + d > u64::MAX {
        vstd::arithmetic::div_mod::lemma_mod_sub_multiples_vanish(x + d, m);
        vstd::arithmetic::div_mod::lemma_small_mod((x + d - m) as nat, m as nat);
    } else {
        vstd::arithmetic::div_mod::lemma_small_mod((x + d) as nat, m as nat);
    }
}

impl Reassembler {
    /// Frame `seq` is held by both with the same count, fragments, arrival
    /// time and keyframe flag, or by neither.
    pub open spec fn same_frame(&self, other: &Reassembler, seq: u32) -> bool {
        &&& self.held_count(seq) == other.held_count(seq)
        &&& self.received_of(seq) == other.received_of(seq)
        &&& self.arrived_at(seq) == other.arrived_at(seq)
        &&& self.keyframe_asked(seq) == other.keyframe_asked(seq)
        &&& forall|k: u16| #[trigger] self.fragment(seq, k) == other.fragment(seq, k)
    }

    /// Frame `seq` is not held.
    pub open spec fn gone(&self, seq: u32) -> bool {
        &&& self.held_count(seq) is None
        &&& self.received_of(seq) == 0
        &&& forall|k: u16| #[trigger] self.fragment(seq, k) is None
    }

    /// The frames among `seqs` that a sweep without repair at `now_us`
    /// drops, in order.
    pub open spec fn swept(&self, seqs: Seq<u32>, now_us: u64) -> Seq<u32>
        decreases seqs.len(),
    {
        if seqs.len() == 0 {
            seqs
        } else if self.sweep_keeps(seqs.last(), now_us) {
            self.swept(seqs.drop_last(), now_us)
        } else {
            self.swept(seqs.drop_last(), now_us).push(seqs.last())
        }
    }

    /// The fragments that never arrived, summed over frames `seqs`.
    pub open spec fn lost_in(&self, seqs: Seq<u32>) -> int
        decreases seqs.len(),
    {
        if seqs.len() == 0 {
            0
        } else {
            self.lost_in(seqs.drop_last()) + self.missing_of(seqs.last())
        }
    }

    /// No held frame is complete.
    pub open spec fn none_complete(&self) -> bool {
        forall|s: u32| #[trigger] self.held_count(s) matches Some(c) ==> self.received_of(s) < c
    }
}

impl Reassembler {
    spec fn holds(&self, seq: u32) -> bool {
        exists|k: int| 0 <= k < self.pending@.len() && (#[trigger] self.pending@[k]).seq() == seq
    }

    /// Every frame still held was held before, with the same content.
    spec fn kept_frame(&self, f: PendingFrame) -> bool {
        exists|j: int| 0 <= j < self.pending@.len() && same_content(f, #[trigger] self.pending@[j])
    }

    /// Every frame held now was held by `old`, with the same fragments.
    pub closed spec fn kept_from(&self, old: &Reassembler) -> bool {
        forall|k: int| 0 <= k < self.pending@.len() ==> old.kept_frame(#[trigger] self.pending@[k])
    }

    /// Every frame held now is one that `old` held, unchanged.
    spec fn exact_from(&self, old: &Reassembler) -> bool {
        forall|k: int| 0 <= k < self.pending@.len() ==> exists|j: int|
            0 <= j < old.pending@.len() && old.pending@[j] == #[trigger] self.pending@[k]
    }

    fn snapshot_seqs(&self) -> (keys: Vec<u32>)
        requires
            self.wf_core(),
        ensures
            keys@.len() == self.pending@.len(),
            forall|j: int| 0 <= j < keys@.len() ==> keys@[j] == (#[trigger] self.pending@[j]).seq(),
    {
        let mut keys: Vec<u32> = Vec::new();
        let mut j: usize = 0;
        while j < self.pending.len()
            invariant
                j <= self.pending@.len(),
                keys@.len() == j,
                forall|q: int| 0 <= q < j ==> keys@[q] == (#[trigger] self.pending@[q]).seq(),
            decreases self.pending@.len() - j,
        {
            keys.push(self.pending[j].header.frame_seq);
            j = j + 1;
        }
        keys
    }

    /// Periodic cleanup. Without repair, incomplete frames older than the
    /// stale timeout are dropped. With repair, a frame past its (stall
    /// extended) deadline is given up on once it is the oldest, frames
    /// waiting a frame period start their repair window, and each frame
    /// gets one retry of its outstanding requests.
    #[verifier::rlimit(80)]
    fn tick_inner(&mut self, now_us: u64)
        requires
            old(self).wf(),
        ensures
            final(self).wf(),
            final(self).epoch() == old(self).epoch(),
            final(self).streak() == old(self).streak(),
            final(self).repair() == old(self).repair(),
            final(self).frame_period() == old(self).frame_period(),
            final(self).rtt() == old(self).rtt(),
            final(self).counters_view().frags_received == old(self).counters_view().frags_received,
            final(self).same_config(&old(self)),
            final(self).kept_from(&old(self)),
            !old(self).repair_enabled ==> final(self).ready == old(self).ready,
            !old(self).repair_enabled ==> final(self).retired_seq == old(self).retired_seq,
            !old(self).repair() ==> forall|j: int|
                0 <= j < old(self).pending@.len() ==> (final(self).holds((#[trigger] old(self).pending@[j]).seq())
                    <==> keep_unrepaired(old(self).pending@[j], now_us)),
            !old(self).repair_enabled ==> {
                let swept = old(self).swept(old(self).pending_seqs(), now_us);
                &&& final(self).exact_from(&old(self))
                &&& final(self).pending@.len() + swept.len() == old(self).pending@.len()
                &&& final(self).counters.frames_complete == old(self).counters.frames_complete
                &&& final(self).latest_completed_seq == old(self).latest_completed_seq
                &&& final(self).pending_bytes <= old(self).pending_bytes
                &&& final(self).nacks == old(self).nacks
                &&& final(self).counters.frames_dropped == wrap_add(old(self).counters.frames_dropped, swept.len() as int)
                &&& final(self).counters.frags_lost == wrap_add(old(self).counters.frags_lost, old(self).lost_in(swept))
                &&& old(self).keyframe_needed ==> final(self).keyframe_needed
                &&& swept.len() == 0 ==> final(self).keyframe_needed == old(self).keyframe_needed
                &&& (old(self).none_complete() && (exists|s: u32| #[trigger] old(self).held_count(s) is Some
                    && !old(self).sweep_keeps(s, now_us) && !old(self).keyframe_asked(s))) ==> final(self).keyframe_needed
            },
    {
        let now = now_us;
        let keys = self.snapshot_seqs();
        proof {
            assert(keys@ =~= old(self).pending_seqs());
            assert(keys@.take(0) =~= Seq::<u32>::empty());
        }
        let mut n: usize = 0;
        while n < keys.len()
            invariant
                self.wf(),
                old(self).wf(),
                n <= keys@.len(),
                keys@.len() == old(self).pending@.len(),
                keys@ == old(self).pending_seqs(),
                forall|j: int| 0 <= j < keys@.len() ==> keys@[j] == (#[trigger] old(self).pending@[j]).seq(),
                self.same_config(&old(self)),
                self.counters.frags_received == old(self).counters.frags_received,
                self.kept_from(&old(self)),
                !old(self).repair_enabled ==> self.ready == old(self).ready,
                !old(self).repair_enabled ==> self.retired_seq == old(self).retired_seq,
                !old(self).repair_enabled ==> forall|j: int|
                    0 <= j < old(self).pending@.len() ==> {
                        &&& j < n ==> (self.holds((#[trigger] old(self).pending@[j]).seq())
                            <==> keep_unrepaired(old(self).pending@[j], now))
                        &&& j >= n ==> self.holds(old(self).pending@[j].seq())
                    },
                !old(self).repair_enabled ==> {
                    let swept = old(self).swept(keys@.take(n as int), now);
                    &&& self.exact_from(&old(self))
                    &&& self.pending@.len() + swept.len() == n + (old(self).pending@.len() - n)
                    &&& self.counters.frames_complete == old(self).counters.frames_complete
                    &&& self.latest_completed_seq == old(self).latest_completed_seq
                    &&& self.pending_bytes <= old(self).pending_bytes
                    &&& self.nacks == old(self).nacks
                    &&& self.counters.frames_dropped == wrap_add(old(self).counters.frames_dropped, swept.len() as int)
                    &&& self.counters.frags_lost == wrap_add(old(self).counters.frags_lost, old(self).lost_in(swept))
                    &&& old(self).keyframe_needed ==> self.keyframe_needed
                    &&& swept.len() == 0 ==> self.keyframe_needed == old(self).keyframe_needed
                    &&& (old(self).none_complete() && (exists|j: int| 0 <= j < n && !keep_unrepaired(#[trigger] old(self).pending@[j], now)
                        && !old(self).pending@[j].keyframe_requested)) ==> self.keyframe_needed
                },
            decreases keys@.len() - n,
        {
            let seq = keys[n];
            let ghost before = *self;
            let ghost mut dropped_now = false;
            let ghost mut idx: int = 0;
            match self.find_index(seq) {
                None => {},
                Some(i) => {
                    proof {
                        idx = i as int;
                    }
                    if !self.pending[i].complete() {
                        if self.repair_enabled {
                            self.tick_repair(i, now);
                        } else {
                            let age = now.saturating_sub(self.pending[i].created_at);
                            if age >= STALE_FRAME_TIMEOUT_US {
                                proof {
                                    dropped_now = true;
                                }
                                self.drop_at(i);
                            }
                        }
                    }
                },
            }
            proof {
                if !old(self).repair_enabled {
                    let m = n as int;
                    assert(keys@.take(m + 1).drop_last() =~= keys@.take(m));
                    assert(keys@.take(m + 1).last() == keys@[m]);
                    old(self).lemma_observe_at(m);
                    assert(old(self).sweep_keeps(seq, now) == keep_unrepaired(old(self).pending@[m], now));
                    assert(before.holds(seq));
                    if !dropped_now {
                        assert(*self == before);
                        if !keep_unrepaired(old(self).pending@[m], now) {
                            // the frame found is the old frame itself
                            assert(false) by {
                                let k = idx;
                                assert(0 <= k < before.pending@.len() && before.pending@[k].seq() == seq);
                                let j = choose|j: int| 0 <= j < old(self).pending@.len() && old(self).pending@[j] == #[trigger] before.pending@[k];
                                if j < m {
                                    assert(old(self).pending@[j].seq() < old(self).pending@[m].seq());
                                } else if j > m {
                                    assert(old(self).pending@[m].seq() < old(self).pending@[j].seq());
                                }
                            }
                        }
                    } else {
                        let k = idx;
                        let j = choose|j: int| 0 <= j < old(self).pending@.len() && old(self).pending@[j] == #[trigger] before.pending@[k];
                        if j < m {
                            assert(old(self).pending@[j].seq() < old(self).pending@[m].seq());
                        } else if j > m {
                            assert(old(self).pending@[m].seq() < old(self).pending@[j].seq());
                        }
                        assert(before.pending@[k] == old(self).pending@[m]);
                        lemma_count_some_bound(old(self).pending@[m].fragments@);
                        let swept0 = old(self).swept(keys@.take(m), now);
                        assert(old(self).swept(keys@.take(m + 1), now) == swept0.push(seq));
                        assert(swept0.push(seq).drop_last() =~= swept0);
                        lemma_wrap_step(old(self).counters.frames_dropped, swept0.len() as int, 1);
                        lemma_wrap_step(old(self).counters.frags_lost, old(self).lost_in(swept0),
                            (old(self).pending@[m].header.frag_count - old(self).pending@[m].received) as u64);
                        lemma_sum_remove(before.pending@, k);
                        assert forall|q: int| 0 <= q < self.pending@.len() implies exists|j2: int|
                            0 <= j2 < old(self).pending@.len() && old(self).pending@[j2] == #[trigger] self.pending@[q] by {
                            let q2 = if q < k { q } else { q + 1 };
                            assert(self.pending@[q] == before.pending@[q2]);
                        }
                        if old(self).none_complete() {
                            assert(!before.later_keyframe_complete(k)) by {
                                if before.later_keyframe_complete(k) {
                                    let q = choose|q: int| k < q < before.pending@.len() && (#[trigger] before.pending@[q]).header.is_keyframe
                                        && before.pending@[q].is_complete();
                                    let j2 = choose|j2: int| 0 <= j2 < old(self).pending@.len() && old(self).pending@[j2] == #[trigger] before.pending@[q];
                                    old(self).lemma_observe_at(j2);
                                    assert(old(self).held_count(old(self).pending@[j2].seq()) is Some);
                                }
                            }
                        }
                    }
                    assert forall|j: int| 0 <= j < old(self).pending@.len() implies {
                        &&& j < n + 1 ==> (self.holds((#[trigger] old(self).pending@[j]).seq())
                            <==> keep_unrepaired(old(self).pending@[j], now))
                        &&& j >= n + 1 ==> self.holds(old(self).pending@[j].seq())
                    } by {
                        let s = old(self).pending@[j].seq();
                        if s == seq {
                            assert(j == n) by {
                                if j < n {
                                    assert(old(self).pending@[j].seq() < old(self).pending@[n as int].seq());
                                } else if j > n {
                                    assert(old(self).pending@[n as int].seq() < old(self).pending@[j].seq());
                                }
                            }
                            if dropped_now {
                                if self.holds(s) {
                                    let q = choose|q: int| 0 <= q < self.pending@.len() && (#[trigger] self.pending@[q]).seq() == s;
                                    let q2 = if q < idx { q } else { q + 1 };
                                    assert(self.pending@[q] == before.pending@[q2]);
                                    if q2 < idx {
                                        assert(before.pending@[q2].seq() < before.pending@[idx].seq());
                                    } else {
                                        assert(before.pending@[idx].seq() < before.pending@[q2].seq());
                                    }
                                }
                            }
                        } else {
                            if before.holds(s) {
                                let k = choose|k: int| 0 <= k < before.pending@.len() && (#[trigger] before.pending@[k]).seq() == s;
                                if !dropped_now {
                                    assert(self.pending@[k].seq() == s);
                                } else {
                                    if k < idx {
                                        assert(self.pending@[k].seq() == s);
                                    } else {
                                        assert(k != idx);
                                        assert(self.pending@[k - 1].seq() == s);
                                    }
                                }
                            }
                            if self.holds(s) {
                                let k = choose|k: int| 0 <= k < self.pending@.len() && (#[trigger] self.pending@[k]).seq() == s;
                                if !dropped_now {
                                    assert(before.pending@[k].seq() == s);
                                } else {
                                    if k < idx {
                                        assert(before.pending@[k].seq() == s);
                                    } else {
                                        assert(before.pending@[k + 1].seq() == s);
                                    }
                                }
                            }
                        }
                    }
                }
            }
            n = n + 1;
        }
        proof {
            assert(keys@.take(keys@.len() as int) =~= keys@);
            if !old(self).repair_enabled {
                if old(self).none_complete() && (exists|s: u32| #[trigger] old(self).held_count(s) is Some
                    && !old(self).sweep_keeps(s, now_us) && !old(self).keyframe_asked(s)) {
                    let s = choose|s: u32| #[trigger] old(self).held_count(s) is Some
                        && !old(self).sweep_keeps(s, now_us) && !old(self).keyframe_asked(s);
                    let j = old(self).slot(s);
                    old(self).lemma_observe_at(j);
                    assert(!keep_unrepaired(old(self).pending@[j], now));
                }
            }
        }
        if self.repair_enabled {
            self.drain_ready(now);
        }
        self.update_depth();
    }
}

} // verus!

verus! {

proof fn lemma_kept_trans(a: &Reassembler, b: &Reassembler, c: &Reassembler)
    requires
        a.kept_from(b),
        b.kept_from(c),
    ensures
        a.kept_from(c),
{
    assert forall|k: int| 0 <= k < a.pending@.len() implies c.kept_frame(#[trigger] a.pending@[k]) by {
        assert(b.kept_frame(a.pending@[k]));
        let m = choose|m: int| 0 <= m < b.pending@.len() && same_content(a.pending@[k], #[trigger] b.pending@[m]);
        assert(c.kept_frame(b.pending@[m]));
        let j = choose|j: int| 0 <= j < c.pending@.len() && same_content(b.pending@[m], #[trigger] c.pending@[j]);
        assert(same_content(a.pending@[k], c.pending@[j]));
    }
}

impl Reassembler {
    /// Observers after storing fragment `index` of held frame `seq`.
    spec fn stored_observed(before: Reassembler, after: Reassembler, seq: u32, index: u16, payload: Seq<u8>) -> bool {
        &&& forall|s: u32| #![trigger after.held_count(s)] s != seq ==> after.same_frame(&before, s)
        &&& after.held_count(seq) == before.held_count(seq)
        &&& after.received_of(seq) == before.received_of(seq) + 1
        &&& after.arrived_at(seq) == before.arrived_at(seq)
        &&& after.keyframe_asked(seq) == before.keyframe_asked(seq)
        &&& after.fragment(seq, index) == Some(payload)
        &&& forall|k: u16| k != index ==> #[trigger] after.fragment(seq, k) == before.fragment(seq, k)
    }

    /// What storing a fragment changes, beyond the frame itself.
    spec fn stored_from(before: Reassembler, after: Reassembler, header: MediaHeader, payload: Seq<u8>) -> bool {
        &&& Reassembler::stored_observed(before, after, header.frame_seq, header.frag_index, payload)
        &&& after.counters.frames_complete == before.counters.frames_complete
        &&& after.counters.frames_dropped == before.counters.frames_dropped
        &&& after.counters.frags_lost == before.counters.frags_lost
        &&& after.counters.frags_received == if header.is_retransmit {
            before.counters.frags_received
        } else {
            before.counters.frags_received.wrapping_add(1)
        }
        &&& after.retired_seq == before.retired_seq
        &&& after.latest_completed_seq == before.latest_completed_seq
        &&& after.ready == before.ready
        &&& after.stale_epoch_streak == before.stale_epoch_streak
    }

    /// What placing the frame for `header` changes.
    spec fn placed_from(before: Reassembler, after: Reassembler, header: MediaHeader, now: u64) -> bool {
        let seq = header.frame_seq;
        &&& after.counters == before.counters
        &&& after.retired_seq == before.retired_seq
        &&& after.latest_completed_seq == before.latest_completed_seq
        &&& after.ready == before.ready
        &&& after.stale_epoch_streak == before.stale_epoch_streak
        &&& before.holds(seq) ==> after == before
        &&& !before.holds(seq) ==> {
            &&& forall|s: u32| #![trigger after.held_count(s)] s != seq ==> after.same_frame(&before, s)
            &&& after.held_count(seq) == Some(header.frag_count)
            &&& after.received_of(seq) == 0
            &&& after.arrived_at(seq) == now
            &&& !after.keyframe_asked(seq)
            &&& forall|k: u16| #[trigger] after.fragment(seq, k) is None
        }
    }
}

proof fn lemma_swept_all_kept(b: &Reassembler, seqs: Seq<u32>, now: u64)
    requires
        b.swept(seqs, now).len() == 0,
    ensures
        forall|j: int| 0 <= j < seqs.len() ==> b.sweep_keeps(#[trigger] seqs[j], now),
    decreases seqs.len(),
{
    if seqs.len() > 0 {
        if !b.sweep_keeps(seqs.last(), now) {
            assert(b.swept(seqs, now).len() > 0);
        }
        lemma_swept_all_kept(b, seqs.drop_last(), now);
        assert forall|j: int| 0 <= j < seqs.len() implies b.sweep_keeps(#[trigger] seqs[j], now) by {
            if j < seqs.len() - 1 {
                assert(seqs[j] == seqs.drop_last()[j]);
            }
        }
    }
}

proof fn lemma_wrap_zero(a: u64)
    ensures
        wrap_add(a, 0) == a,
{
    vstd::arithmetic::div_mod::lemma_small_mod(a as nat, 0x1_0000_0000_0000_0000nat);
}

/// After a sweep without repair, the frames it keeps are unchanged and the
/// others are gone.
proof fn lemma_sweep_observed(after: &Reassembler, before: &Reassembler, now: u64)
    requires
        after.wf_core(),
        before.wf_core(),
        after.exact_from(before),
        forall|j: int| 0 <= j < before.pending@.len() ==> (after.holds((#[trigger] before.pending@[j]).seq())
            <==> keep_unrepaired(before.pending@[j], now)),
    ensures
        forall|s: u32| #![trigger after.held_count(s)] #![trigger before.held_count(s)]
            (before.sweep_keeps(s, now) ==> after.same_frame(before, s)) && (!before.sweep_keeps(s, now) ==> after.gone(s)),
{
    assert forall|s: u32| #![trigger after.held_count(s)] #![trigger before.held_count(s)]
        (before.sweep_keeps(s, now) ==> after.same_frame(before, s)) && (!before.sweep_keeps(s, now) ==> after.gone(s)) by {
        if before.holds(s) {
            let j = choose|j: int| 0 <= j < before.pending@.len() && (#[trigger] before.pending@[j]).seq() == s;
            before.lemma_observe_at(j);
            if after.holds(s) {
                let k = choose|k: int| 0 <= k < after.pending@.len() && (#[trigger] after.pending@[k]).seq() == s;
                let j2 = choose|j2: int| 0 <= j2 < before.pending@.len() && before.pending@[j2] == #[trigger] after.pending@[k];
                if j2 < j {
                    assert(before.pending@[j2].seq() < before.pending@[j].seq());
                } else if j2 > j {
                    assert(before.pending@[j].seq() < before.pending@[j2].seq());
                }
                after.lemma_observe_at(k);
            } else {
                after.lemma_observe_absent(s);
            }
        } else {
            before.lemma_observe_absent(s);
            if after.holds(s) {
                let k = choose|k: int| 0 <= k < after.pending@.len() && (#[trigger] after.pending@[k]).seq() == s;
                let j2 = choose|j2: int| 0 <= j2 < before.pending@.len() && before.pending@[j2] == #[trigger] after.pending@[k];
                assert(before.pending@[j2].seq() == s);
            }
            after.lemma_observe_absent(s);
        }
    }
}

/// Removing held frame `i` makes it gone and leaves every other frame.
proof fn lemma_remove_observed(after: &Reassembler, before: &Reassembler, i: int)
    requires
        after.wf_core(),
        before.wf_core(),
        0 <= i < before.pending@.len(),
        after.pending@ == before.pending@.remove(i),
    ensures
        after.gone(before.pending@[i].seq()),
        forall|s: u32| #![trigger after.held_count(s)]
            s != before.pending@[i].seq() ==> after.same_frame(before, s),
{
    let gone_seq = before.pending@[i].seq();
    assert forall|s: u32| #![trigger after.held_count(s)]
        s != gone_seq ==> after.same_frame(before, s) by {
        if s != gone_seq {
            if before.holds(s) {
                let j = choose|j: int| 0 <= j < before.pending@.len() && (#[trigger] before.pending@[j]).seq() == s;
                before.lemma_observe_at(j);
                let j2 = if j < i { j } else { j - 1 };
                assert(j != i);
                assert(after.pending@[j2] == before.pending@[j]);
                after.lemma_observe_at(j2);
            } else {
                before.lemma_observe_absent(s);
                assert forall|k: int| 0 <= k < after.pending@.len() implies (#[trigger] after.pending@[k]).seq() != s by {
                    let k2 = if k < i { k } else { k + 1 };
                    assert(after.pending@[k] == before.pending@[k2]);
                }
                after.lemma_observe_absent(s);
            }
        }
    }
    assert forall|k: int| 0 <= k < after.pending@.len() implies (#[trigger] after.pending@[k]).seq() != gone_seq by {
        let k2 = if k < i { k } else { k + 1 };
        assert(after.pending@[k] == before.pending@[k2]);
        if k2 < i {
            assert(before.pending@[k2].seq() < before.pending@[i].seq());
        } else {
            assert(before.pending@[i].seq() < before.pending@[k2].seq());
        }
    }
    after.lemma_observe_absent(gone_seq);
}

/// Changing held frame `i` in place, keeping its sequence number, leaves
/// every other frame.
proof fn lemma_update_observed(after: &Reassembler, before: &Reassembler, i: int)
    requires
        after.wf_core(),
        before.wf_core(),
        0 <= i < before.pending@.len(),
        after.pending@.len() == before.pending@.len(),
        after.pending@[i].seq() == before.pending@[i].seq(),
        forall|k: int| 0 <= k < after.pending@.len() && k != i ==> #[trigger] after.pending@[k] == before.pending@[k],
    ensures
        forall|s: u32| #![trigger after.held_count(s)]
            s != before.pending@[i].seq() ==> after.same_frame(before, s),
{
    assert forall|s: u32| #![trigger after.held_count(s)]
        s != before.pending@[i].seq() ==> after.same_frame(before, s) by {
        if s != before.pending@[i].seq() {
            if before.holds(s) {
                let j = choose|j: int| 0 <= j < before.pending@.len() && (#[trigger] before.pending@[j]).seq() == s;
                before.lemma_observe_at(j);
                after.lemma_observe_at(j);
            } else {
                before.lemma_observe_absent(s);
                assert forall|k: int| 0 <= k < after.pending@.len() implies (#[trigger] after.pending@[k]).seq() != s by {
                    if k != i {
                        assert(after.pending@[k] == before.pending@[k]);
                    }
                }
                after.lemma_observe_absent(s);
            }
        }
    }
}

/// Inserting a frame for a sequence number not held leaves every other frame.
proof fn lemma_insert_observed(after: &Reassembler, before: &Reassembler, p: int)
    requires
        after.wf_core(),
        before.wf_core(),
        0 <= p <= before.pending@.len(),
        after.pending@ == before.pending@.insert(p, after.pending@[p]),
        forall|k: int| 0 <= k < before.pending@.len() ==> (#[trigger] before.pending@[k]).seq() != after.pending@[p].seq(),
    ensures
        forall|s: u32| #![trigger after.held_count(s)]
            s != after.pending@[p].seq() ==> after.same_frame(before, s),
{
    let f = after.pending@[p];
    assert forall|s: u32| #![trigger after.held_count(s)]
        s != f.seq() ==> after.same_frame(before, s) by {
        if s != f.seq() {
            if before.holds(s) {
                let j = choose|j: int| 0 <= j < before.pending@.len() && (#[trigger] before.pending@[j]).seq() == s;
                before.lemma_observe_at(j);
                let j2 = if j < p { j } else { j + 1 };
                assert(after.pending@[j2] == before.pending@[j]);
                after.lemma_observe_at(j2);
            } else {
                before.lemma_observe_absent(s);
                assert forall|k: int| 0 <= k < after.pending@.len() implies (#[trigger] after.pending@[k]).seq() != s by {
                    if k < p {
                        assert(after.pending@[k] == before.pending@[k]);
                    } else if k > p {
                        assert(after.pending@[k] == before.pending@[k - 1]);
                    }
                }
                after.lemma_observe_absent(s);
            }
        }
    }
}

/// Storing fragment `index` into held frame `i` changes only that frame's
/// fragment, its count of received fragments, and nothing else observable.
proof fn lemma_store_observed(after: &Reassembler, before: &Reassembler, i: int, index: u16, payload: Seq<u8>)
    requires
        after.wf_core(),
        before.wf_core(),
        0 <= i < before.pending@.len(),
        after.pending@.len() == before.pending@.len(),
        forall|k: int| 0 <= k < after.pending@.len() && k != i ==> #[trigger] after.pending@[k] == before.pending@[k],
        after.pending@[i].header == before.pending@[i].header,
        after.pending@[i].created_at == before.pending@[i].created_at,
        after.pending@[i].keyframe_requested == before.pending@[i].keyframe_requested,
        after.pending@[i].received == before.pending@[i].received + 1,
        index < before.pending@[i].header.frag_count,
        after.pending@[i].fragments@[index as int] matches Some(v) && v@ == payload,
        forall|k: int| 0 <= k < after.pending@[i].fragments@.len() && k != index
            ==> #[trigger] after.pending@[i].fragments@[k] == before.pending@[i].fragments@[k],
    ensures
        Reassembler::stored_observed(*before, *after, before.pending@[i].seq(), index, payload),
{
    lemma_update_observed(after, before, i);
    after.lemma_observe_at(i);
    before.lemma_observe_at(i);
}

impl Reassembler {
    proof fn lemma_kept_pointwise(&self, old: &Reassembler)
        requires
            self.pending@.len() == old.pending@.len(),
            forall|k: int| 0 <= k < self.pending@.len() ==> same_content(#[trigger] self.pending@[k], old.pending@[k]),
        ensures
            self.kept_from(old),
    {
        assert forall|k: int| 0 <= k < self.pending@.len() implies old.kept_frame(#[trigger] self.pending@[k]) by {
            assert(same_content(self.pending@[k], old.pending@[k]));
        }
    }

    /// The repair-mode step of `tick` for waiting frame `i`: past its
    /// stall-extended deadline it is given up on once it is the oldest (and
    /// ordered delivery runs); a frame without a deadline that has waited a
    /// frame period opens its repair window; otherwise a frame whose retry
    /// is due asks once more for everything still missing.
    fn tick_repair(&mut self, i: usize, now: u64)
        requires
            old(self).wf(),
            i < old(self).pending@.len(),
            old(self).repair_enabled,
        ensures
            final(self).wf(),
            final(self).kept_from(&old(self)),
            final(self).same_config(&old(self)),
            final(self).counters.frags_received == old(self).counters.frags_received,
            ({
                let f = old(self).pending@[i as int];
                let count = f.header.frag_count;
                let epoch = match old(self).current_epoch { Some(e) => e, None => 0u32 };
                let expired = f.deadline matches Some(d) && now >= sat_u64(d + old(self).stall_of(f, now));
                let starts_gap = !expired && f.deadline is None
                    && (if now >= f.created_at { now - f.created_at } else { 0 }) >= old(self).frame_period_us;
                let retries = !expired && !starts_gap && !f.retried && (f.retry_at matches Some(r) && now >= r);
                let hold = (old(self).frame_period_us / 2) as u64;
                let retired = if old(self).retired_seq >= f.seq() { old(self).retired_seq } else { f.seq() };
                let rest = old(self).pending@.drop_first();
                let c = drain_count(rest, old(self).latest_completed_seq, retired, hold, now);
                &&& (expired && i == 0) ==> {
                    &&& final(self).pending@ == rest.subrange(c as int, rest.len() as int)
                    &&& final(self).ready@.len() == old(self).ready@.len() + c
                    &&& (final(self).latest_completed_seq, final(self).retired_seq)
                        == drain_marks(rest, old(self).latest_completed_seq, retired, hold, now)
                    &&& final(self).counters.frames_dropped == old(self).counters.frames_dropped.wrapping_add(1)
                    &&& final(self).counters.frags_lost == old(self).counters.frags_lost.wrapping_add((count - f.received) as u64)
                    &&& final(self).keyframe_needed == (old(self).keyframe_needed
                        || (!old(self).later_keyframe_complete(0) && !f.keyframe_requested))
                    &&& final(self).nacks == old(self).nacks
                }
                &&& (expired && i != 0) ==> *final(self) == *old(self)
                &&& starts_gap ==> {
                    let m = wanted(f.fragments@, f.requested@, f.contiguous as int, count as int, false);
                    &&& final(self).pending@[i as int].gap_at == Some(now)
                    &&& final(self).pending@[i as int].deadline
                        == Some(sat_u64(now + gap_window(old(self).rtt_us, old(self).frame_period_us)) as u64)
                    &&& nacks_for(old(self).nacks@, final(self).nacks@, epoch, f.seq(), count, m)
                    &&& final(self).ready == old(self).ready
                }
                &&& retries ==> {
                    let m = wanted(f.fragments@, f.requested@, f.contiguous as int, count as int, true);
                    &&& final(self).pending@[i as int].retried
                    &&& nacks_for(old(self).nacks@, final(self).nacks@, epoch, f.seq(), count, m)
                    &&& final(self).ready == old(self).ready
                }
                &&& (!expired && !starts_gap && !retries) ==> *final(self) == *old(self)
            }),
    {
        let deadline = self.pending[i].deadline;
        let expired = match deadline {
            Some(d) => now >= d.saturating_add(self.stall(i, now)),
            None => false,
        };
        let count = self.pending[i].header.frag_count;
        if expired {
            if i == 0 {
                let seq = self.pending[0].header.frame_seq;
                self.drop_at(0);
                let ghost dropped = *self;
                proof {
                    assert forall|k: int| 0 <= k < dropped.pending@.len() implies old(self).kept_frame(#[trigger] dropped.pending@[k]) by {
                        assert(same_content(dropped.pending@[k], old(self).pending@[k + 1]));
                    }
                }
                self.retired_seq = max_u32(self.retired_seq, seq);
                proof {
                    assert forall|q: int| 0 <= q < self.pending@.len() implies self.retired_seq == 0
                        || (#[trigger] self.pending@[q]).seq() > self.retired_seq by {
                        assert(self.pending@[q].seq() == old(self).pending@[q + 1].seq());
                        assert(old(self).pending@[0].seq() < old(self).pending@[q + 1].seq());
                    }
                }
                let ghost mid = *self;
                self.drain_ready(now);
                proof {
                    assert(self.kept_from(&mid)) by {
                        assert forall|k: int| 0 <= k < self.pending@.len() implies mid.kept_frame(#[trigger] self.pending@[k]) by {
                            let j = mid.pending@.len() - self.pending@.len() + k;
                            assert(self.pending@[k] == mid.pending@[j]);
                        }
                    }
                    assert(mid.kept_from(&old(self))) by {
                        assert(mid.pending == dropped.pending);
                    }
                    lemma_kept_trans(&*self, &mid, &old(self));
                }
            } else {
                proof {
                    self.lemma_kept_pointwise(&old(self));
                }
            }
        } else if deadline.is_none() && now.saturating_sub(self.pending[i].created_at) >= self.frame_period_us {
            self.begin_gap(i, count - 1, now);
            proof {
                self.lemma_kept_pointwise(&old(self));
            }
        } else {
            let retry_due = match self.pending[i].retry_at {
                Some(retry) => now >= retry,
                None => false,
            };
            if !self.pending[i].retried && retry_due {
                let ghost before = self.pending@;
                let mut frame = self.pending.remove(i);
                frame.retried = true;
                self.pending.insert(i, frame);
                proof {
                    assert(self.pending@ =~= before.update(i as int, frame));
                    lemma_sum_update(before, i as int, frame);
                    assert forall|q: int| 0 <= q < self.pending@.len() implies self.retired_seq == 0
                        || (#[trigger] self.pending@[q]).seq() > self.retired_seq by {
                        assert(before[q].seq() == self.pending@[q].seq());
                    }
                }
                self.request(i, count - 1, true, now);
            }
            proof {
                self.lemma_kept_pointwise(&old(self));
            }
        }
    }
}

} // verus!

verus! {

impl Reassembler {
    /// Periodic cleanup. Without repair, incomplete frames older than the
    /// stale timeout are dropped and all others kept. With repair, a frame
    /// past its stall-extended deadline is given up on once it is the
    /// oldest, frames waiting a frame period start their repair window, and
    /// each frame gets one retry of its outstanding requests.
    pub fn tick(&mut self, now_us: u64)
        requires
            old(self).wf(),
        ensures
            final(self).wf(),
            final(self).epoch() == old(self).epoch(),
            final(self).streak() == old(self).streak(),
            final(self).repair() == old(self).repair(),
            final(self).frame_period() == old(self).frame_period(),
            final(self).rtt() == old(self).rtt(),
            final(self).counters_view().frags_received == old(self).counters_view().frags_received,
            final(self).same_config(&old(self)),
            final(self).kept_from(&old(self)),
            !old(self).repair() ==> forall|s: u32|
                old(self).pending_seqs().contains(s) ==> (final(self).pending_seqs().contains(s)
                    <==> old(self).sweep_keeps(s, now_us)),
            !old(self).repair() ==> forall|s: u32| #![trigger final(self).held_count(s)] #![trigger old(self).held_count(s)]
                (old(self).sweep_keeps(s, now_us) ==> final(self).same_frame(&old(self), s))
                    && (!old(self).sweep_keeps(s, now_us) ==> final(self).gone(s)),
            !old(self).repair() ==> {
                let swept = old(self).swept(old(self).pending_seqs(), now_us);
                &&& final(self).counters_view().frames_dropped == wrap_add(old(self).counters_view().frames_dropped, swept.len() as int)
                &&& final(self).counters_view().frags_lost == wrap_add(old(self).counters_view().frags_lost, old(self).lost_in(swept))
                &&& final(self).counters_view().frames_complete == old(self).counters_view().frames_complete
                &&& final(self).retired() == old(self).retired()
                &&& final(self).latest_completed() == old(self).latest_completed()
                &&& final(self).held_bytes() <= old(self).held_bytes()
                &&& old(self).keyframe_pending() ==> final(self).keyframe_pending()
                &&& swept.len() == 0 ==> final(self).keyframe_pending() == old(self).keyframe_pending()
                &&& (old(self).none_complete() && (exists|s: u32| #[trigger] old(self).held_count(s) is Some
                    && !old(self).sweep_keeps(s, now_us) && !old(self).keyframe_asked(s))) ==> final(self).keyframe_pending()
            },
    {
        self.tick_inner(now_us);
        proof {
            if !old(self).repair_enabled {
                lemma_sweep_observed(&*self, &old(self), now_us);
            }
        }
        proof {
            if !old(self).repair_enabled {
                assert forall|s: u32| old(self).pending_seqs().contains(s) implies (self.pending_seqs().contains(s)
                    <==> old(self).sweep_keeps(s, now_us)) by {
                    let j = choose|j: int| 0 <= j < old(self).pending_seqs().len() && old(self).pending_seqs()[j] == s;
                    assert(old(self).pending@[j].seq() == s);
                    if self.pending_seqs().contains(s) {
                        let k = choose|k: int| 0 <= k < self.pending_seqs().len() && self.pending_seqs()[k] == s;
                        assert(self.pending@[k].seq() == s);
                        assert(self.holds(s));
                    }
                    if self.holds(s) {
                        let k = choose|k: int| 0 <= k < self.pending@.len() && (#[trigger] self.pending@[k]).seq() == s;
                        assert(self.pending_seqs()[k] == s);
                    }
                    if old(self).sweep_keeps(s, now_us) {
                        let q = choose|q: int| 0 <= q < old(self).pending@.len() && (#[trigger] old(self).pending@[q]).seq() == s
                            && keep_unrepaired(old(self).pending@[q], now_us);
                        if q < j {
                            assert(old(self).pending@[q].seq() < old(self).pending@[j].seq());
                        } else if q > j {
                            assert(old(self).pending@[j].seq() < old(self).pending@[q].seq());
                        }
                    }
                }
            }
        }
    }
}

} // verus!

verus! {

impl Reassembler {
    /// The epoch step replaces all state: a newer epoch, or the resync after
    /// too many stale-epoch fragments in a row.
    pub open spec fn resets_on_epoch(&self, epoch: u32) -> bool {
        match self.epoch() {
            Some(c) => epoch > c || (epoch < c && self.streak() + 1 >= EPOCH_RESYNC_THRESHOLD),
            None => false,
        }
    }

    /// The rejections decided before any frame is touched, from the state
    /// before the call alone.
    pub open spec fn precheck(&self, header: MediaHeader) -> Option<DropReason> {
        let seq = header.frame_seq;
        let retired = if self.resets_on_epoch(header.stream_epoch) { 0 } else { self.retired() };
        if (self.epoch() matches Some(c) && header.stream_epoch < c)
            && self.streak() + 1 < EPOCH_RESYNC_THRESHOLD {
            Some(DropReason::StaleEpoch)
        } else if retired > 0 && seq == retired {
            Some(DropReason::DuplicateCompleted)
        } else if retired > 0 && seq < retired && retired - seq <= STREAM_RESTART_GAP {
            Some(DropReason::StaleSeq)
        } else if header.frag_count == 0 {
            Some(DropReason::ZeroCount)
        } else if header.frag_count > MAX_FRAG_COUNT {
            Some(DropReason::CountExceedsCap)
        } else if header.frag_index >= header.frag_count {
            Some(DropReason::IndexOutOfRange)
        } else {
            None
        }
    }

    proof fn lemma_fragment_at(&self, i: int, index: u16)
        requires
            self.wf_core(),
            0 <= i < self.pending@.len(),
        ensures
            self.fragment(self.pending@[i].seq(), index) == if index < self.pending@[i].fragments@.len() {
                match self.pending@[i].fragments@[index as int] {
                    Some(v) => Some(v@),
                    None => None::<Seq<u8>>,
                }
            } else {
                None::<Seq<u8>>
            },
    {
        let seq = self.pending@[i].seq();
        let j = choose|j: int| 0 <= j < self.pending@.len() && self.pending@[j].seq() == seq;
        if j < i {
            assert(self.pending@[j].seq() < self.pending@[i].seq());
        } else if j > i {
            assert(self.pending@[i].seq() < self.pending@[j].seq());
        }
    }

    /// What the observers report for held frame `i`.
    proof fn lemma_observe_at(&self, i: int)
        requires
            self.wf_core(),
            0 <= i < self.pending@.len(),
        ensures
            self.held_count(self.pending@[i].seq()) == Some(self.pending@[i].header.frag_count),
            self.received_of(self.pending@[i].seq()) == self.pending@[i].received as nat,
            self.arrived_at(self.pending@[i].seq()) == self.pending@[i].created_at,
            self.keyframe_asked(self.pending@[i].seq()) == self.pending@[i].keyframe_requested,
            self.missing_of(self.pending@[i].seq()) == self.pending@[i].header.frag_count - self.pending@[i].received,
            forall|now: u64| #[trigger] self.sweep_keeps(self.pending@[i].seq(), now) == keep_unrepaired(self.pending@[i], now),
            forall|k: u16| #[trigger] self.fragment(self.pending@[i].seq(), k) == if k < self.pending@[i].fragments@.len() {
                match self.pending@[i].fragments@[k as int] {
                    Some(v) => Some(v@),
                    None => None::<Seq<u8>>,
                }
            } else {
                None::<Seq<u8>>
            },
    {
        let seq = self.pending@[i].seq();
        assert(exists|q: int| 0 <= q < self.pending@.len() && self.pending@[q].seq() == seq);
        let j = self.slot(seq);
        if j < i {
            assert(self.pending@[j].seq() < self.pending@[i].seq());
        } else if j > i {
            assert(self.pending@[i].seq() < self.pending@[j].seq());
        }
        assert(j == i);
        assert forall|k: u16| #[trigger] self.fragment(seq, k) == if k < self.pending@[i].fragments@.len() {
            match self.pending@[i].fragments@[k as int] {
                Some(v) => Some(v@),
                None => None::<Seq<u8>>,
            }
        } else {
            None::<Seq<u8>>
        } by {
            self.lemma_fragment_at(i, k);
        }
    }

    /// What the observers report for a frame that is not held.
    proof fn lemma_observe_absent(&self, seq: u32)
        requires
            forall|k: int| 0 <= k < self.pending@.len() ==> (#[trigger] self.pending@[k]).seq() != seq,
        ensures
            self.held_count(seq) is None,
            self.received_of(seq) == 0,
            self.keyframe_asked(seq) == false,
            self.arrived_at(seq) == 0,
            self.missing_of(seq) == 0,
            forall|now: u64| !#[trigger] self.sweep_keeps(seq, now),
            forall|k: u16| #[trigger] self.fragment(seq, k) is None,
    {
    }

    proof fn lemma_fragment_absent(&self, seq: u32, index: u16)
        requires
            forall|k: int| 0 <= k < self.pending@.len() ==> (#[trigger] self.pending@[k]).seq() != seq,
        ensures
            self.fragment(seq, index) is None,
    {
    }

    /// A fresh frame for `header` with no fragments yet.
    fn fresh_frame(header: MediaHeader, now: u64) -> (f: PendingFrame)
        requires
            1 <= header.frag_count <= MAX_FRAG_COUNT,
        ensures
            f.wf(),
            f.header == header,
            f.bytes == 0,
            f.received == 0,
            f.created_at == now,
            !f.keyframe_requested,
            forall|k: int| 0 <= k < f.fragments@.len() ==> f.fragments@[k] is None,
    {
        let mut fragments: Vec<Option<Vec<u8>>> = Vec::new();
        let mut requested: Vec<bool> = Vec::new();
        let mut k: u16 = 0;
        while k < header.frag_count
            invariant
                k <= header.frag_count,
                fragments@ =~= Seq::new(k as nat, |q: int| None::<Vec<u8>>),
                requested@.len() == k,
            decreases header.frag_count - k,
        {
            fragments.push(None);
            requested.push(false);
            k = k + 1;
        }
        proof {
            lemma_count_some_empty(k as nat);
        }
        PendingFrame {
            header,
            fragments,
            received: 0,
            bytes: 0,
            created_at: now,
            contiguous: 0,
            highest_index: 0,
            repaired: 0,
            gap_at: None,
            deadline: None,
            retry_at: None,
            requested_at: None,
            completed_at: None,
            stall_used: 0,
            stall_counted_until: None,
            requested,
            retried: false,
            keyframe_requested: false,
        }
    }

    /// Where a frame with `seq` belongs in the ascending pending list.
    fn insert_position(&self, seq: u32) -> (p: usize)
        requires
            self.wf_core(),
            forall|k: int| 0 <= k < self.pending@.len() ==> (#[trigger] self.pending@[k]).seq() != seq,
        ensures
            p <= self.pending@.len(),
            forall|k: int| 0 <= k < p ==> (#[trigger] self.pending@[k]).seq() < seq,
            forall|k: int| p <= k < self.pending@.len() ==> (#[trigger] self.pending@[k]).seq() > seq,
    {
        let mut p: usize = 0;
        while p < self.pending.len() && self.pending[p].header.frame_seq < seq
            invariant
                p <= self.pending@.len(),
                self.wf_core(),
                forall|k: int| 0 <= k < p ==> (#[trigger] self.pending@[k]).seq() < seq,
            decreases self.pending@.len() - p,
        {
            p = p + 1;
        }
        proof {
            assert forall|k: int| p <= k < self.pending@.len() implies (#[trigger] self.pending@[k]).seq() > seq by {
                if k > p {
                    assert(self.pending@[p as int].seq() < self.pending@[k].seq());
                }
            }
        }
        p
    }
}

} // verus!

verus! {

fn abs_diff_i128(a: i128, b: i128) -> (d: u128)
    requires
        -0x1_0000_0000_0000_0000 <= a <= 0x1_0000_0000_0000_0000,
        -0x1_0000_0000_0000_0000 <= b <= 0x1_0000_0000_0000_0000,
    ensures
        d <= 0x2_0000_0000_0000_0000,
        d as int == if a >= b { a - b } else { b - a },
{
    if a >= b {
        (a - b) as u128
    } else {
        (b - a) as u128
    }
}

/// A fragment's transit time: arrival on the receiver's clock, measured
/// from the first arrival (saturating at zero), less its capture stamp.
spec fn transit_spec(origin: u64, capture_ts_us: u64, now: u64) -> int {
    (if now >= origin { now - origin } else { 0 }) - capture_ts_us
}

/// The jitter estimate after one transit sample: it moves one sixteenth of
/// the way toward the transit difference (kept with 16 fractional bits).
spec fn jitter_after(jitter_fp: u128, previous: Option<i128>, transit: int) -> u128 {
    match previous {
        Some(p) => ((15 * jitter_fp + (if transit >= p { transit - p } else { p - transit }) * 65536) / 16) as u128,
        None => jitter_fp,
    }
}

impl Reassembler {
    /// Updates the interarrival jitter estimate (RFC 3550 style, one
    /// sixteenth per sample) for a first-transmission fragment.
    fn note_transit(&mut self, capture_ts_us: u64, now: u64)
        requires
            old(self).wf_core(),
        ensures
            final(self).clock_origin == Some(match old(self).clock_origin { Some(o) => o, None => now }),
            final(self).previous_transit == Some(transit_spec(
                match old(self).clock_origin { Some(o) => o, None => now }, capture_ts_us, now) as i128),
            final(self).jitter_fp == jitter_after(old(self).jitter_fp, old(self).previous_transit, transit_spec(
                match old(self).clock_origin { Some(o) => o, None => now }, capture_ts_us, now)),
            final(self).wf_core(),
            final(self).pending == old(self).pending,
            old(self).beyond_retired() ==> final(self).beyond_retired(),
            final(self).counters == old(self).counters,
            final(self).ready == old(self).ready,
            final(self).nacks == old(self).nacks,
            final(self).retired_seq == old(self).retired_seq,
            final(self).latest_completed_seq == old(self).latest_completed_seq,
            final(self).current_epoch == old(self).current_epoch,
            final(self).stale_epoch_streak == old(self).stale_epoch_streak,
            final(self).repair_enabled == old(self).repair_enabled,
            final(self).frame_period_us == old(self).frame_period_us,
            final(self).rtt_us == old(self).rtt_us,
            final(self).last_arrival == old(self).last_arrival,
            final(self).last_repair == old(self).last_repair,
            final(self).keyframe_needed == old(self).keyframe_needed,
    {
        let origin = match self.clock_origin {
            Some(o) => o,
            None => {
                self.clock_origin = Some(now);
                now
            },
        };
        let transit: i128 = now.saturating_sub(origin) as i128 - capture_ts_us as i128;
        match self.previous_transit {
            Some(previous) => {
                let d = abs_diff_i128(transit, previous);
                assert((d << 16u32) == d * 65536) by (bit_vector)
                    requires d <= 0x2_0000_0000_0000_0000u128;
                let sample = d << 16u32;
                self.jitter_fp = (15 * self.jitter_fp + sample) / 16;
            },
            None => {},
        }
        self.previous_transit = Some(transit);
    }

    /// The jitter estimate in whole microseconds, saturating at `u32::MAX`.
    fn jitter_us(&self) -> (j: u32)
        ensures
            j == if self.jitter_fp / 65536 > u32::MAX { u32::MAX as int } else { (self.jitter_fp / 65536) as int },
    {
        let fp = self.jitter_fp;
        let whole = fp >> 16u32;
        assert(whole == fp / 65536) by (bit_vector)
            requires
                whole == fp >> 16u32,
        ;
        if whole > u32::MAX as u128 {
            u32::MAX
        } else {
            whole as u32
        }
    }
}

} // verus!

verus! {

impl Reassembler {
    /// Writes the arriving fragment into held frame `i`.
    #[verifier::rlimit(40)]
    fn store_fragment(&mut self, i: usize, header: MediaHeader, payload: &[u8], now: u64) -> (complete: bool)
        requires
            old(self).wf(),
            i < old(self).pending@.len(),
            old(self).pending@[i as int].seq() == header.frame_seq,
            old(self).pending@[i as int].header.frag_count == header.frag_count,
            header.frag_index < header.frag_count,
            old(self).pending@[i as int].fragments@[header.frag_index as int] is None,
            old(self).pending_bytes + payload@.len() <= MAX_PENDING_BYTES,
        ensures
            final(self).wf(),
            final(self).pending@.len() == old(self).pending@.len(),
            forall|k: int| 0 <= k < final(self).pending@.len() && k != i ==> #[trigger] final(self).pending@[k] == old(self).pending@[k],
            final(self).pending@[i as int].header == old(self).pending@[i as int].header,
            final(self).pending@[i as int].created_at == old(self).pending@[i as int].created_at,
            final(self).pending@[i as int].fragments@.len() == old(self).pending@[i as int].fragments@.len(),
            final(self).pending@[i as int].fragments@[header.frag_index as int] matches Some(v) && v@ == payload@,
            forall|k: int| 0 <= k < final(self).pending@[i as int].fragments@.len() && k != header.frag_index
                ==> #[trigger] final(self).pending@[i as int].fragments@[k] == old(self).pending@[i as int].fragments@[k],
            complete == final(self).pending@[i as int].is_complete(),
            final(self).ready == old(self).ready,
            final(self).nacks == old(self).nacks,
            final(self).retired_seq == old(self).retired_seq,
            final(self).latest_completed_seq == old(self).latest_completed_seq,
            final(self).current_epoch == old(self).current_epoch,
            final(self).stale_epoch_streak == old(self).stale_epoch_streak,
            final(self).repair_enabled == old(self).repair_enabled,
            final(self).frame_period_us == old(self).frame_period_us,
            final(self).rtt_us == old(self).rtt_us,
            final(self).last_arrival == old(self).last_arrival,
            final(self).last_repair == old(self).last_repair,
            final(self).keyframe_needed == old(self).keyframe_needed,
            final(self).counters.frags_received == if header.is_retransmit {
                old(self).counters.frags_received
            } else {
                old(self).counters.frags_received.wrapping_add(1)
            },
            final(self).counters.frames_complete == old(self).counters.frames_complete,
            final(self).counters.frames_dropped == old(self).counters.frames_dropped,
            final(self).counters.frags_lost == old(self).counters.frags_lost,
            final(self).pending_bytes == old(self).pending_bytes + payload@.len(),
            Reassembler::stored_from(*old(self), *final(self), header, payload@),
    {
        let index = header.frag_index;
        let count = header.frag_count;
        let ghost before = self.pending@;
        let mut frame = self.pending.remove(i);
        let bytes = slice_to_vec(payload);
        let ghost old_frags = frame.fragments@;
        frame.fragments.set(index as usize, Some(bytes));
        proof {
            lemma_count_some_update(old_frags, index as int, bytes);
            lemma_count_some_bound(frame.fragments@);
            lemma_sum_update(before, i as int, frame);
        }
        frame.received = frame.received + 1;
        frame.bytes = frame.bytes + payload.len();
        if index > frame.highest_index {
            frame.highest_index = index;
        }
        let ghost f1 = frame;
        assert(frame.wf());
        while frame.contiguous < count && frame.fragments[frame.contiguous as usize].is_some()
            invariant
                frame.wf(),
                frame == (PendingFrame { contiguous: frame.contiguous, ..f1 }),
                frame.contiguous <= count,
                count == frame.header.frag_count,
                frame.fragments@.len() == count,
                forall|q: int| 0 <= q < frame.contiguous ==> #[trigger] frame.fragments@[q] is Some,
            decreases count - frame.contiguous,
        {
            frame.contiguous = frame.contiguous + 1;
        }
        if header.is_retransmit {
            frame.repaired = frame.repaired.wrapping_add(1);
        }
        let complete = frame.complete();
        if complete {
            frame.completed_at = Some(now);
        }
        let ghost frame_bytes_before = before[i as int].bytes;
        self.pending.insert(i, frame);
        proof {
            assert(self.pending@ =~= before.update(i as int, frame));
            lemma_sum_update(before, i as int, frame);
            assert forall|q: int| 0 <= q < self.pending@.len() implies self.retired_seq == 0
                || (#[trigger] self.pending@[q]).seq() > self.retired_seq by {
                assert(before[q].seq() == self.pending@[q].seq());
            }
        }
        self.pending_bytes = self.pending_bytes + payload.len();
        if !header.is_retransmit {
            self.counters.frags_received = self.counters.frags_received.wrapping_add(1);
            self.note_transit(header.capture_ts_us, now);
        }
        if header.frame_seq > self.counters.highest_seq {
            self.counters.highest_seq = header.frame_seq;
        }
        self.counters.stream_epoch = header.stream_epoch;
        self.counters.jitter_us = self.jitter_us();
        proof {
            lemma_store_observed(&*self, &old(self), i as int, index, payload@);
        }
        complete
    }
}

} // verus!

verus! {

impl Reassembler {
    /// Makes room for a fragment of `seq` carrying `len` bytes: while the
    /// frame is new and eight are held, or the bytes would pass the limit,
    /// the oldest frame is given up on. In repair mode that retires it, and
    /// a fragment at or behind the retired point is then stale.
    #[verifier::rlimit(60)]
    fn make_room(&mut self, seq: u32, len: usize, now: u64) -> (stale: bool)
        requires
            old(self).wf(),
            len <= MAX_PENDING_BYTES,
            old(self).repair_enabled ==> old(self).retired_seq == 0 || seq > old(self).retired_seq,
        ensures
            final(self).wf(),
            final(self).kept_from(&old(self)),
            final(self).same_config(&old(self)),
            final(self).counters.frags_received == old(self).counters.frags_received,
            !stale ==> final(self).holds(seq) || final(self).pending@.len() < MAX_PENDING_FRAMES,
            !stale ==> final(self).pending_bytes + len <= MAX_PENDING_BYTES,
            !stale && final(self).repair_enabled ==> final(self).retired_seq == 0 || seq > final(self).retired_seq,
            stale ==> final(self).repair_enabled,
            !final(self).repair_enabled ==> final(self).ready == old(self).ready,
            !final(self).repair_enabled ==> final(self).retired_seq == old(self).retired_seq,
            !old(self).repair_enabled && old(self).pending_bytes + len <= MAX_PENDING_BYTES ==> {
                let evict = !old(self).holds(seq) && old(self).pending@.len() >= MAX_PENDING_FRAMES;
                &&& !evict ==> *final(self) == *old(self)
                &&& evict ==> old(self).evicted_to(&*final(self))
            },
    {
        let ghost fits = !old(self).repair_enabled && old(self).pending_bytes + len <= MAX_PENDING_BYTES;
        let ghost evict = !old(self).holds(seq) && old(self).pending@.len() >= MAX_PENDING_FRAMES;
        loop
            invariant
                self.wf(),
                old(self).wf(),
                len <= MAX_PENDING_BYTES,
                self.kept_from(&old(self)),
                self.same_config(&old(self)),
                self.counters.frags_received == old(self).counters.frags_received,
                self.repair_enabled ==> self.retired_seq == 0 || seq > self.retired_seq,
                !self.repair_enabled ==> self.ready == old(self).ready,
                !self.repair_enabled ==> self.retired_seq == old(self).retired_seq,
                fits == (!old(self).repair_enabled && old(self).pending_bytes + len <= MAX_PENDING_BYTES),
                evict == (!old(self).holds(seq) && old(self).pending@.len() >= MAX_PENDING_FRAMES),
                fits ==> (*self == *old(self) || (evict && old(self).evicted_to(&*self) && !self.holds(seq))),
            ensures
                self.wf(),
                self.kept_from(&old(self)),
                self.same_config(&old(self)),
                self.counters.frags_received == old(self).counters.frags_received,
                self.holds(seq) || self.pending@.len() < MAX_PENDING_FRAMES,
                self.pending_bytes + len <= MAX_PENDING_BYTES,
                self.repair_enabled ==> self.retired_seq == 0 || seq > self.retired_seq,
                !self.repair_enabled ==> self.ready == old(self).ready,
                !self.repair_enabled ==> self.retired_seq == old(self).retired_seq,
                fits ==> (!evict ==> *self == *old(self)) && (evict ==> old(self).evicted_to(&*self)),
            decreases self.pending@.len(),
        {
            let absent = match self.find_index(seq) {
                Some(_) => false,
                None => true,
            };
            if !((absent && self.pending.len() >= MAX_PENDING_FRAMES)
                || self.pending_bytes + len > MAX_PENDING_BYTES) {
                proof {
                    if !absent {
                        let i = choose|i: int| 0 <= i < self.pending@.len() && self.pending@[i].seq() == seq;
                    }
                }
                break;
            }
            if self.pending.len() == 0 {
                break;
            }
            proof {
                if fits && *self != *old(self) {
                    assert(self.pending@.len() < MAX_PENDING_FRAMES);
                    assert(false);
                }
            }
            let oldest = self.pending[0].header.frame_seq;
            let ghost before = *self;
            self.drop_at(0);
            let ghost dropped = *self;
            proof {
                assert forall|k: int| 0 <= k < dropped.pending@.len() implies before.kept_frame(#[trigger] dropped.pending@[k]) by {
                    assert(same_content(dropped.pending@[k], before.pending@[k + 1]));
                }
                lemma_kept_trans(&dropped, &before, &old(self));
                lemma_sum_remove(before.pending@, 0);
                if fits {
                    assert(!self.holds(seq)) by {
                        if self.holds(seq) {
                            let q = choose|q: int| 0 <= q < self.pending@.len() && (#[trigger] self.pending@[q]).seq() == seq;
                            assert(self.pending@[q] == before.pending@[q + 1]);
                        }
                    }
                }
            }
            if self.repair_enabled {
                self.retired_seq = max_u32(self.retired_seq, oldest);
                proof {
                    assert forall|q: int| 0 <= q < self.pending@.len() implies self.retired_seq == 0
                        || (#[trigger] self.pending@[q]).seq() > self.retired_seq by {
                        assert(self.pending@[q].seq() == before.pending@[q + 1].seq());
                        assert(before.pending@[0].seq() < before.pending@[q + 1].seq());
                    }
                    assert(self.kept_from(&old(self)));
                }
                let ghost mid = *self;
                self.drain_ready(now);
                proof {
                    assert forall|k: int| 0 <= k < self.pending@.len() implies mid.kept_frame(#[trigger] self.pending@[k]) by {
                        let j = mid.pending@.len() - self.pending@.len() + k;
                        assert(self.pending@[k] == mid.pending@[j]);
                    }
                    lemma_kept_trans(&*self, &mid, &old(self));
                }
                if seq <= self.retired_seq {
                    return true;
                }
            }
        }
        false
    }

    /// `after` is this state with its oldest frame given up on, counted as
    /// dropped with its missing fragments as lost.
    spec fn evicted_to(&self, after: &Reassembler) -> bool {
        &&& self.pending@.len() > 0
        &&& after.pending@ == self.pending@.remove(0)
        &&& after.counters.frames_dropped == self.counters.frames_dropped.wrapping_add(1)
        &&& after.counters.frags_lost == self.counters.frags_lost.wrapping_add(
            (self.pending@[0].header.frag_count - self.pending@[0].received) as u64)
        &&& after.counters.frames_complete == self.counters.frames_complete
        &&& after.counters.frags_received == self.counters.frags_received
        &&& after.retired_seq == self.retired_seq
        &&& after.latest_completed_seq == self.latest_completed_seq
        &&& after.ready == self.ready
        &&& after.pending_bytes <= self.pending_bytes
        &&& after.same_config(self)
    }
}

} // verus!

verus! {

impl Reassembler {
    /// Compatibility entry for receivers that have not negotiated repair.
    pub fn add_fragment(&mut self, seq: u32, index: u16, count: u16, epoch: u32, payload: &[u8], now_us: u64) -> (outcome: AddOutcome)
        requires
            old(self).wf(),
            payload@.len() <= u16::MAX,
        ensures
            final(self).wf(),
            ({
                let header = MediaHeader {
                    session_id: 1,
                    stream_epoch: epoch,
                    frame_seq: seq,
                    frag_index: index,
                    frag_count: count,
                    is_keyframe: false,
                    is_retransmit: false,
                    capture_ts_us: 0,
                    payload_len: payload@.len() as u16,
                };
                old(self).add_outcome_spec(header, payload@, now_us, *final(self), outcome)
            }),
    {
        self.add_media(
            MediaHeader {
                session_id: 1,
                stream_epoch: epoch,
                frame_seq: seq,
                frag_index: index,
                frag_count: count,
                is_keyframe: false,
                is_retransmit: false,
                capture_ts_us: 0,
                payload_len: payload.len() as u16,
            },
            payload,
            now_us,
        )
    }

    /// The fragment restarts sequence tracking: a newer epoch, the resync
    /// after too many stale-epoch fragments, or a backward jump past the
    /// restart gap.
    pub open spec fn restarts(&self, header: MediaHeader) -> bool {
        self.resets_on_epoch(header.stream_epoch) || backjump(self.retired(), header.frame_seq)
    }

    /// The stale-epoch streak once the fragment's epoch is accepted.
    pub open spec fn streak_after(&self, header: MediaHeader) -> u32 {
        if self.restarts(header) || self.epoch() == Some(header.stream_epoch) {
            0
        } else {
            self.streak()
        }
    }

    /// Frame `s` survives the restart check and the sweep that storing
    /// `header` at `now_us` runs first.
    pub open spec fn live(&self, header: MediaHeader, now_us: u64, s: u32) -> bool {
        !self.restarts(header) && self.sweep_keeps(s, now_us)
    }

    /// The counters that storing `header` starts from.
    pub open spec fn base_counters(&self, header: MediaHeader) -> ReassemblyCounters {
        if self.restarts(header) {
            ReassemblyCounters::default_spec()
        } else {
            self.counters_view()
        }
    }

    /// Without repair: which fragments are stored, completed or dropped, and
    /// what each outcome leaves behind.
    pub open spec fn plain_outcome_spec(
        &self,
        header: MediaHeader,
        payload: Seq<u8>,
        now_us: u64,
        after: Reassembler,
        outcome: AddOutcome,
    ) -> bool {
        let seq = header.frame_seq;
        let index = header.frag_index;
        let count = header.frag_count;
        let restart = self.restarts(header);
        let base = self.base_counters(header);
        let live = self.live(header, now_us, seq);
        let mismatch = live && self.held_count(seq) != Some(count);
        let dup = live && self.held_count(seq) == Some(count) && self.fragment(seq, index) is Some;
        let swept = if restart { Seq::<u32>::empty() } else { self.swept(self.pending_seqs(), now_us) };
        let lost = if restart { 0 } else { self.lost_in(swept) };
        let held = if restart { 0 } else { self.pending_seqs().len() - swept.len() };
        let fits = (if restart { 0 } else { self.held_bytes() }) + payload.len() <= MAX_PENDING_BYTES;
        let ready_empty = restart || self.ready_view().len() == 0;
        let evict = !live && held >= MAX_PENDING_FRAMES;
        let fills = forall|k: u16| k < count && k != index ==> live && #[trigger] self.fragment(seq, k) is Some;
        let parts = Seq::new(count as nat, |k: int| if k == index { payload } else {
            match self.fragment(seq, k as u16) { Some(v) => v, None => Seq::empty() }
        });
        let base_held = if restart { 0 } else { self.held_bytes() };
        &&& (self.precheck(header) is Some && self.precheck(header) != Some(DropReason::StaleEpoch)) ==> {
            &&& after.held_bytes() == base_held
            &&& after.retired() == if restart { 0 } else { self.retired() }
            &&& after.latest_completed() == if restart { 0 } else { self.latest_completed() }
            &&& after.streak() == self.streak_after(header)
            &&& after.counters_view() == base
            &&& forall|s: u32| #![trigger after.held_count(s)] if restart { after.gone(s) } else { after.same_frame(self, s) }
        }
        &&& self.precheck(header) is None ==> {
            &&& (outcome == AddOutcome::Dropped(DropReason::CountMismatch)) == mismatch
            &&& (outcome == AddOutcome::Dropped(DropReason::DuplicateFragment)) == dup
            &&& (outcome == AddOutcome::Dropped(DropReason::Capacity)) == (!mismatch && !dup && payload.len() > MAX_PENDING_BYTES)
            &&& outcome != AddOutcome::Dropped(DropReason::StaleSeq)
            &&& after.streak() == self.streak_after(header)
            &&& outcome is Dropped ==> after.held_bytes() <= base_held
            &&& (!(outcome is Dropped) && fits && ready_empty) ==> after.held_bytes() <= base_held + payload.len()
            &&& outcome is Dropped ==> {
                &&& forall|s: u32| #![trigger after.held_count(s)] (self.live(header, now_us, s) ==> after.same_frame(self, s))
                    && (!self.live(header, now_us, s) ==> after.gone(s))
                &&& after.retired() == if restart { 0 } else { self.retired() }
                &&& after.latest_completed() == if restart { 0 } else { self.latest_completed() }
                &&& after.counters_view().frames_complete == base.frames_complete
                &&& after.counters_view().frags_received == base.frags_received
                &&& after.counters_view().frames_dropped == wrap_add(base.frames_dropped, swept.len() as int)
                &&& after.counters_view().frags_lost == wrap_add(base.frags_lost, lost)
            }
            &&& (fits && ready_empty && !mismatch && !dup) ==> {
                &&& (outcome is Completed <==> fills)
                &&& (outcome is Stored <==> !fills)
                &&& (outcome matches AddOutcome::Completed(p) ==> p@ == concat_parts(parts))
                &&& after.counters_view().frames_complete == if fills {
                    base.frames_complete.wrapping_add(1)
                } else {
                    base.frames_complete
                }
                &&& after.counters_view().frags_received == if header.is_retransmit {
                    base.frags_received
                } else {
                    base.frags_received.wrapping_add(1)
                }
            }
            &&& (fits && ready_empty && outcome is Stored) ==> {
                &&& after.held_count(seq) == Some(count)
                &&& after.fragment(seq, index) == Some(payload)
                &&& forall|k: u16| k != index ==> #[trigger] after.fragment(seq, k) == if live { self.fragment(seq, k) } else { None }
                &&& after.received_of(seq) == (if live { self.received_of(seq) } else { 0 }) + 1
                &&& after.arrived_at(seq) == if live { self.arrived_at(seq) } else { now_us }
                &&& after.keyframe_asked(seq) == (live && self.keyframe_asked(seq))
                &&& after.retired() == if restart { 0 } else { self.retired() }
                &&& after.latest_completed() == if restart { 0 } else { self.latest_completed() }
                &&& !evict ==> {
                    &&& forall|s: u32| #![trigger after.held_count(s)] s != seq ==> (self.live(header, now_us, s) ==> after.same_frame(self, s))
                        && (!self.live(header, now_us, s) ==> after.gone(s))
                    &&& after.counters_view().frames_dropped == wrap_add(base.frames_dropped, swept.len() as int)
                    &&& after.counters_view().frags_lost == wrap_add(base.frags_lost, lost)
                }
                &&& (evict && swept.len() == 0) ==> {
                    let oldest = self.pending_seqs()[0];
                    &&& after.gone(oldest)
                    &&& forall|s: u32| #![trigger after.held_count(s)] s != seq && s != oldest ==> after.same_frame(self, s)
                    &&& after.counters_view().frames_dropped == base.frames_dropped.wrapping_add(1)
                    &&& after.counters_view().frags_lost == base.frags_lost.wrapping_add(self.missing_of(oldest) as u64)
                }
            }
        }
    }

    /// What every call of `add_media` on this state guarantees about the
    /// state after it and its outcome.
    pub open spec fn add_outcome_spec(
        &self,
        header: MediaHeader,
        payload: Seq<u8>,
        now_us: u64,
        after: Reassembler,
        outcome: AddOutcome,
    ) -> bool {
        let seq = header.frame_seq;
        let index = header.frag_index;
        &&& (self.precheck(header) matches Some(reason) ==> outcome == AddOutcome::Dropped(reason))
        &&& (self.precheck(header) is None ==> !(outcome matches AddOutcome::Dropped(r) && (r == DropReason::StaleEpoch
            || r == DropReason::DuplicateCompleted || r == DropReason::ZeroCount
            || r == DropReason::CountExceedsCap || r == DropReason::IndexOutOfRange)))
        &&& (self.precheck(header) == Some(DropReason::StaleEpoch) ==> {
            &&& after.pending_seqs() == self.pending_seqs()
            &&& after.streak() == self.streak() + 1
            &&& after.epoch() == self.epoch()
            &&& after.retired() == self.retired()
            &&& after.latest_completed() == self.latest_completed()
            &&& after.counters_view() == self.counters_view()
            &&& after.held_bytes() == self.held_bytes()
            &&& forall|s: u32| #![trigger after.held_count(s)] after.same_frame(self, s)
        })
        &&& (self.precheck(header) != Some(DropReason::StaleEpoch) ==> after.epoch() == Some(header.stream_epoch))
        &&& (outcome == AddOutcome::Dropped(DropReason::DuplicateFragment) ==> {
            &&& self.fragment(seq, index) is Some
            &&& after.fragment(seq, index) == self.fragment(seq, index)
            &&& after.counters_view().frags_received == self.counters_view().frags_received
        })
        &&& (outcome == AddOutcome::Dropped(DropReason::CountMismatch) ==> forall|k: u16|
            #[trigger] after.fragment(seq, k) == self.fragment(seq, k))
        &&& (outcome is Completed ==> !self.repair())
        &&& (self.restarts(header) || self.ready_view().len() == 0) ==> (outcome matches AddOutcome::Completed(p) ==> {
            &&& after.latest_completed() == seq
            &&& after.retired() == seq
            &&& forall|s: u32| #[trigger] after.pending_seqs().contains(s) ==> s > seq
        })
        &&& (!self.repair() ==> self.plain_outcome_spec(header, payload, now_us, after, outcome))
        &&& after.repair() == self.repair()
        &&& after.frame_period() == self.frame_period()
        &&& after.rtt() == self.rtt()
    }

}

} // verus!

verus! {

proof fn lemma_kept_fragment(a: &Reassembler, b: &Reassembler, i: int)
    requires
        a.wf_core(),
        b.wf_core(),
        a.kept_from(b),
        0 <= i < a.pending@.len(),
    ensures
        forall|k: u16| #[trigger] a.fragment(a.pending@[i].seq(), k) == b.fragment(a.pending@[i].seq(), k),
{
    assert(b.kept_frame(a.pending@[i]));
    let j = choose|j: int| 0 <= j < b.pending@.len() && same_content(a.pending@[i], #[trigger] b.pending@[j]);
    assert forall|k: u16| #[trigger] a.fragment(a.pending@[i].seq(), k) == b.fragment(a.pending@[i].seq(), k) by {
        a.lemma_fragment_at(i, k);
        b.lemma_fragment_at(j, k);
    }
}

/// The rejection decided from the retired point and the fragment's
/// indices, after the epoch step.
pub open spec fn early_reject(retired: u32, header: MediaHeader) -> Option<DropReason> {
    let seq = header.frame_seq;
    if retired > 0 && seq == retired {
        Some(DropReason::DuplicateCompleted)
    } else if retired > 0 && seq < retired && retired - seq <= STREAM_RESTART_GAP {
        Some(DropReason::StaleSeq)
    } else if header.frag_count == 0 {
        Some(DropReason::ZeroCount)
    } else if header.frag_count > MAX_FRAG_COUNT {
        Some(DropReason::CountExceedsCap)
    } else if header.frag_index >= header.frag_count {
        Some(DropReason::IndexOutOfRange)
    } else {
        None
    }
}

/// A backward jump past the restart gap from retired point `retired`.
pub open spec fn backjump(retired: u32, seq: u32) -> bool {
    retired > 0 && seq < retired && retired - seq > STREAM_RESTART_GAP
}

impl Reassembler {
    /// Epoch precedence: a newer epoch restarts everything; an older one is
    /// dropped until `EPOCH_RESYNC_THRESHOLD` arrive in a row, which resyncs.
    /// Returns true when the fragment is dropped as stale.
    fn epoch_step(&mut self, epoch: u32) -> (stale: bool)
        requires
            old(self).wf(),
        ensures
            final(self).wf(),
            stale == ((old(self).current_epoch matches Some(c) && epoch < c)
                && old(self).stale_epoch_streak + 1 < EPOCH_RESYNC_THRESHOLD),
            stale ==> *final(self) == (Reassembler {
                stale_epoch_streak: (old(self).stale_epoch_streak + 1) as u32,
                ..*old(self)
            }),
            !stale ==> final(self).current_epoch == Some(epoch),
            !stale && old(self).resets_on_epoch(epoch) ==> {
                &&& final(self).pending@.len() == 0
                &&& final(self).ready@.len() == 0
                &&& final(self).retired_seq == 0
                &&& final(self).latest_completed_seq == 0
                &&& final(self).repair_enabled == old(self).repair_enabled
                &&& final(self).frame_period_us == old(self).frame_period_us
                &&& final(self).rtt_us == old(self).rtt_us
            },
            !stale && !old(self).resets_on_epoch(epoch) ==> *final(self) == (Reassembler {
                current_epoch: Some(epoch),
                stale_epoch_streak: final(self).stale_epoch_streak,
                ..*old(self)
            }),
            !stale && !old(self).resets_on_epoch(epoch) ==> final(self).stale_epoch_streak == if old(self).current_epoch
                == Some(epoch) {
                0
            } else {
                old(self).stale_epoch_streak
            },
            !stale && old(self).resets_on_epoch(epoch) ==> {
                &&& final(self).stale_epoch_streak == 0
                &&& final(self).pending_bytes == 0
                &&& final(self).counters == ReassemblyCounters::default_spec()
            },
    {
        match self.current_epoch {
            Some(current) => {
                if epoch > current {
                    self.reset_internal();
                    self.current_epoch = Some(epoch);
                } else if epoch < current {
                    if self.stale_epoch_streak + 1 < EPOCH_RESYNC_THRESHOLD {
                        self.stale_epoch_streak = self.stale_epoch_streak + 1;
                        return true;
                    }
                    self.reset_internal();
                    self.current_epoch = Some(epoch);
                } else {
                    self.stale_epoch_streak = 0;
                }
            },
            None => {
                self.current_epoch = Some(epoch);
            },
        }
        false
    }

    /// Records the arrival, then applies the retired-point and index checks.
    /// A backward jump past the restart gap starts over.
    #[verifier::rlimit(40)]
    fn early_checks(&mut self, header: MediaHeader, now: u64) -> (reject: Option<DropReason>)
        requires
            old(self).wf(),
        ensures
            final(self).wf(),
            reject == early_reject(old(self).retired_seq, header),
            final(self).pending@.len() > 0 ==> final(self).counters == old(self).counters,
            final(self).ready@.len() == 0 || final(self).ready == old(self).ready,
            final(self).current_epoch == old(self).current_epoch,
            final(self).repair_enabled == old(self).repair_enabled,
            final(self).frame_period_us == old(self).frame_period_us,
            final(self).rtt_us == old(self).rtt_us,
            final(self).kept_from(&old(self)),
            reject is None ==> final(self).retired_seq == 0 || header.frame_seq > final(self).retired_seq,
            final(self).stale_epoch_streak == old(self).stale_epoch_streak || final(self).stale_epoch_streak == 0,
            !old(self).repair_enabled && !backjump(old(self).retired_seq, header.frame_seq) ==> {
                &&& final(self).pending == old(self).pending
                &&& final(self).pending_bytes == old(self).pending_bytes
                &&& final(self).counters == old(self).counters
                &&& final(self).retired_seq == old(self).retired_seq
                &&& final(self).latest_completed_seq == old(self).latest_completed_seq
                &&& final(self).stale_epoch_streak == old(self).stale_epoch_streak
                &&& final(self).keyframe_needed == old(self).keyframe_needed
                &&& final(self).ready == old(self).ready
            },
            backjump(old(self).retired_seq, header.frame_seq) ==> {
                &&& final(self).pending@.len() == 0
                &&& final(self).pending_bytes == 0
                &&& final(self).counters == ReassemblyCounters::default_spec()
                &&& final(self).retired_seq == 0
                &&& final(self).latest_completed_seq == 0
                &&& final(self).stale_epoch_streak == 0
                &&& final(self).ready@.len() == 0
            },
    {
        let seq = header.frame_seq;
        let index = header.frag_index;
        let count = header.frag_count;
        if self.repair_enabled {
            self.resume_after_stall(now);
            proof {
                self.lemma_kept_pointwise(&old(self));
            }
        } else {
            proof {
                self.lemma_kept_pointwise(&old(self));
            }
        }
        self.last_arrival = Some(now);
        if header.is_retransmit {
            self.last_repair = Some(now);
        }
        let retired = max_u32(self.latest_completed_seq, self.retired_seq);
        if retired > 0 {
            if seq == retired {
                return Some(DropReason::DuplicateCompleted);
            }
            if seq < retired {
                if retired - seq > STREAM_RESTART_GAP {
                    self.reset_internal();
                } else {
                    return Some(DropReason::StaleSeq);
                }
            }
        }
        if count == 0 {
            return Some(DropReason::ZeroCount);
        }
        if count > MAX_FRAG_COUNT {
            return Some(DropReason::CountExceedsCap);
        }
        if index >= count {
            return Some(DropReason::IndexOutOfRange);
        }
        None
    }
}

} // verus!

verus! {

impl Reassembler {
    /// After the fragment at `index` of frame `i` is stored: in repair mode
    /// a gap starts the repair window and a completion opens windows for
    /// the older incomplete frames, then ordered delivery runs; without
    /// repair a completed frame is delivered at once and everything up to
    /// it is dropped.
    fn finish_store(&mut self, i: usize, complete: bool, now: u64) -> (outcome: AddOutcome)
        requires
            old(self).wf(),
            i < old(self).pending@.len(),
            complete == old(self).pending@[i as int].is_complete(),
        ensures
            final(self).wf(),
            final(self).current_epoch == old(self).current_epoch,
            final(self).repair_enabled == old(self).repair_enabled,
            final(self).frame_period_us == old(self).frame_period_us,
            final(self).rtt_us == old(self).rtt_us,
            outcome is Stored || outcome is Completed,
            final(self).stale_epoch_streak == old(self).stale_epoch_streak,
            old(self).repair_enabled ==> outcome is Stored,
            !old(self).repair_enabled && complete ==> outcome is Completed,
            !old(self).repair_enabled && !complete && old(self).ready@.len() > 0 ==> outcome == AddOutcome::Completed(
                old(self).ready@[0].payload),
            !old(self).repair_enabled && !complete && old(self).ready@.len() == 0 ==> {
                &&& outcome is Stored
                &&& *final(self) == (Reassembler { counters: final(self).counters, ..*old(self) })
                &&& final(self).counters.frames_complete == old(self).counters.frames_complete
                &&& final(self).counters.frags_received == old(self).counters.frags_received
                &&& final(self).counters.frames_dropped == old(self).counters.frames_dropped
                &&& final(self).counters.frags_lost == old(self).counters.frags_lost
            },
            !old(self).repair_enabled && complete ==> {
                &&& final(self).counters.frames_complete == old(self).counters.frames_complete.wrapping_add(1)
                &&& final(self).counters.frags_received == old(self).counters.frags_received
                &&& final(self).pending_bytes <= old(self).pending_bytes
            },
            outcome matches AddOutcome::Completed(p) ==> (complete ==> {
                &&& !old(self).repair_enabled
                &&& final(self).latest_completed_seq == old(self).pending@[i as int].seq()
                &&& final(self).retired_seq == old(self).pending@[i as int].seq()
                &&& forall|k: int| 0 <= k < final(self).pending@.len()
                    ==> (#[trigger] final(self).pending@[k]).seq() > old(self).pending@[i as int].seq()
                &&& (old(self).ready@.len() == 0 ==> p@ == old(self).pending@[i as int].payload())
            }),
    {
        let repair = self.repair_enabled;
        if repair {
            let highest = self.pending[i].highest_index;
            if !complete && self.pending[i].contiguous < highest {
                self.begin_gap(i, highest, now);
            }
            if complete {
                let mut k: usize = 0;
                while k < i
                    invariant
                        self.wf(),
                        k <= i < self.pending@.len(),
                        self.stale_epoch_streak == old(self).stale_epoch_streak,
                        self.current_epoch == old(self).current_epoch,
                        self.repair_enabled == old(self).repair_enabled,
                        self.frame_period_us == old(self).frame_period_us,
                        self.rtt_us == old(self).rtt_us,
                    decreases i - k,
                {
                    if !self.pending[k].complete() {
                        let through = self.pending[k].header.frag_count - 1;
                        self.begin_gap(k, through, now);
                    }
                    k = k + 1;
                }
            }
            self.drain_ready(now);
            self.update_depth();
            return AddOutcome::Stored;
        }
        if !complete {
            self.update_depth();
            if self.ready.len() > 0 {
                let frame = self.ready.remove(0);
                return AddOutcome::Completed(frame.payload);
            }
            return AddOutcome::Stored;
        }
        let ghost seq = self.pending@[i as int].seq();
        assert(old(self).beyond_retired());
        assert(old(self).retired_seq == 0 || seq > old(self).retired_seq);
        self.deliver_at(i);
        let ghost delivered = *self;
        assert(delivered.retired_seq == seq);
        proof {
            lemma_sum_remove(old(self).pending@, i as int);
        }
        let mut dropped: usize = 0;
        while dropped < i
            invariant
                self.wf_core(),
                dropped <= i,
                self.pending@.len() + dropped == delivered.pending@.len(),
                forall|k: int| 0 <= k < self.pending@.len() ==> same_content(
                    #[trigger] self.pending@[k],
                    delivered.pending@[k + dropped],
                ),
                delivered.pending@ == old(self).pending@.remove(i as int),
                old(self).wf(),
                i < old(self).pending@.len(),
                self.retired_seq == delivered.retired_seq,
                self.latest_completed_seq == seq,
                self.ready == delivered.ready,
                self.current_epoch == old(self).current_epoch,
                self.repair_enabled == old(self).repair_enabled,
                self.frame_period_us == old(self).frame_period_us,
                self.rtt_us == old(self).rtt_us,
                seq == old(self).pending@[i as int].seq(),
                self.counters.frames_complete == delivered.counters.frames_complete,
                self.counters.frags_received == delivered.counters.frags_received,
                self.stale_epoch_streak == old(self).stale_epoch_streak,
                self.pending_bytes <= old(self).pending_bytes,
            decreases i - dropped,
        {
            let ghost before = self.pending@;
            self.drop_at(0);
            proof {
                lemma_sum_remove(before, 0);
            }
            dropped = dropped + 1;
        }
        proof {
            assert forall|k: int| 0 <= k < self.pending@.len() implies (#[trigger] self.pending@[k]).seq() > seq by {
                assert(self.pending@[k].seq() == delivered.pending@[k + i].seq());
                assert(delivered.pending@[k + i] == old(self).pending@[k + i + 1]);
                assert(old(self).pending@[i as int].seq() < old(self).pending@[k + i + 1].seq());
            }
            assert(self.retired_seq >= seq);
        }
        self.update_depth();
        let frame = self.ready.remove(0);
        AddOutcome::Completed(frame.payload)
    }
}

} // verus!

verus! {

/// Without repair, storing a fragment that passed the checks: from the state
/// `b` before the sweep, through the sweep `t`, room-making `m`, placing `pl`,
/// storing `st` and delivery `f`.
#[verifier::rlimit(80)]
proof fn lemma_accept_stored(
    b: Reassembler,
    t: Reassembler,
    m: Reassembler,
    pl: Reassembler,
    st: Reassembler,
    f: Reassembler,
    header: MediaHeader,
    payload: Seq<u8>,
    now: u64,
    i: int,
    complete: bool,
    outcome: AddOutcome,
)
    requires
        b.wf(),
        t.wf(),
        m.wf(),
        pl.wf(),
        st.wf(),
        f.wf(),
        1 <= header.frag_count <= MAX_FRAG_COUNT,
        header.frag_index < header.frag_count,
        payload.len() <= MAX_PENDING_BYTES,
        Reassembler::swept_state(b, t, now),
        t.exact_from(&b),
        t.pending@.len() + b.swept(b.pending_seqs(), now).len() == b.pending@.len(),
        t.pending_bytes <= b.pending_bytes,
        t.ready == b.ready,
        t.held_count(header.frame_seq) matches Some(c) ==> c == header.frag_count
            && t.fragment(header.frame_seq, header.frag_index) is None,
        t.pending_bytes + payload.len() <= MAX_PENDING_BYTES ==> {
            let evict = !t.holds(header.frame_seq) && t.pending@.len() >= MAX_PENDING_FRAMES;
            &&& !evict ==> m == t
            &&& evict ==> t.evicted_to(&m)
        },
        m.ready == t.ready,
        Reassembler::placed_from(m, pl, header, now),
        Reassembler::stored_from(pl, st, header, payload),
        0 <= i < st.pending@.len(),
        st.pending@[i].seq() == header.frame_seq,
        complete == st.pending@[i].is_complete(),
        outcome is Stored || outcome is Completed,
        complete ==> outcome is Completed,
        outcome matches AddOutcome::Completed(p) ==> (complete ==> (st.ready@.len() == 0 ==> p@ == st.pending@[i].payload())),
        !complete && st.ready@.len() == 0 ==> {
            &&& outcome is Stored
            &&& f == (Reassembler { counters: f.counters, ..st })
            &&& f.counters.frames_complete == st.counters.frames_complete
            &&& f.counters.frags_received == st.counters.frags_received
            &&& f.counters.frames_dropped == st.counters.frames_dropped
            &&& f.counters.frags_lost == st.counters.frags_lost
        },
        complete ==> f.counters.frames_complete == st.counters.frames_complete.wrapping_add(1)
            && f.counters.frags_received == st.counters.frags_received,
        f.stale_epoch_streak == st.stale_epoch_streak,
        st.stale_epoch_streak == b.stale_epoch_streak,
    ensures
        Reassembler::accept_spec(b, header, payload, now, f, outcome),
{
    reveal(Reassembler::accept_spec);
    let seq = header.frame_seq;
    let index = header.frag_index;
    let count = header.frag_count;
    let swept = b.swept(b.pending_seqs(), now);
    let live = b.sweep_keeps(seq, now);
    if t.holds(seq) {
        let j = choose|j: int| 0 <= j < t.pending@.len() && (#[trigger] t.pending@[j]).seq() == seq;
        t.lemma_observe_at(j);
    } else {
        t.lemma_observe_absent(seq);
    }
    assert(live == t.holds(seq));
    let fits = b.held_bytes() + payload.len() <= MAX_PENDING_BYTES;
    if fits && b.ready_view().len() == 0 {
        assert(t.pending_bytes + payload.len() <= MAX_PENDING_BYTES);
        let evict = !live && b.pending_seqs().len() - swept.len() >= MAX_PENDING_FRAMES;
        assert(b.pending_seqs().len() == b.pending@.len());
        assert(m.holds(seq) == live) by {
            if evict && m.holds(seq) {
                let q = choose|q: int| 0 <= q < m.pending@.len() && (#[trigger] m.pending@[q]).seq() == seq;
                assert(m.pending@[q] == t.pending@[q + 1]);
            }
        }
        assert forall|k: u16| k != index implies #[trigger] st.fragment(seq, k) == if live { b.fragment(seq, k) } else {
            None::<Seq<u8>>
        } by {
            assert(st.fragment(seq, k) == pl.fragment(seq, k));
        }
        st.lemma_observe_at(i);
        lemma_count_some_bound(st.pending@[i].fragments@);
        let frags = st.pending@[i].fragments@;
        let parts = Seq::new(count as nat, |k: int| if k == index { payload } else {
            match b.fragment(seq, k as u16) { Some(v) => v, None => Seq::empty() }
        });
        let fills = forall|k: u16| k < count && k != index ==> live && #[trigger] b.fragment(seq, k) is Some;
        if complete {
            assert forall|k: u16| k < count && k != index implies live && #[trigger] b.fragment(seq, k) is Some by {
                assert(frags[k as int] is Some);
                assert(st.fragment(seq, k) is Some);
            }
            assert forall|k: int| 0 <= k < frags.len() implies ((#[trigger] frags[k]) matches Some(v) && v@ == parts[k]) by {
                assert(frags[k] is Some);
                assert(st.fragment(seq, k as u16) is Some);
                if k != index {
                    assert(st.fragment(seq, k as u16) == b.fragment(seq, k as u16));
                }
            }
            lemma_joined_parts(frags, parts);
        } else {
            assert(!fills) by {
                if fills {
                    assert forall|k: int| 0 <= k < frags.len() implies #[trigger] frags[k] is Some by {
                        if k != index {
                            assert(b.fragment(seq, k as u16) is Some);
                            assert(st.fragment(seq, k as u16) is Some);
                        } else {
                            assert(st.fragment(seq, index) is Some);
                        }
                    }
                    lemma_count_some_full(frags);
                }
            }
        }
        assert(m.counters.frames_complete == t.counters.frames_complete);
        assert(m.counters.frags_received == t.counters.frags_received);
        assert(m.retired_seq == t.retired_seq && m.latest_completed_seq == t.latest_completed_seq);
        if !complete {
            assert forall|s: u32| #![trigger f.held_count(s)] true implies f.same_frame(&st, s) by {}
            if !evict {
                assert(m == t);
                assert forall|s: u32| #![trigger f.held_count(s)] s != seq implies (b.sweep_keeps(s, now) ==> f.same_frame(&b, s))
                    && (!b.sweep_keeps(s, now) ==> f.gone(s)) by {
                    assert(f.same_frame(&st, s));
                    assert(st.same_frame(&pl, s));
                    assert(pl.same_frame(&m, s));
                    assert(t.held_count(s) == t.held_count(s));
                }
            } else if swept.len() == 0 {
                lemma_swept_all_kept(&b, b.pending_seqs(), now);
                let oldest = b.pending_seqs()[0];
                assert(oldest == b.pending@[0].seq());
                assert(b.sweep_keeps(oldest, now));
                assert(t.held_count(oldest) is Some);
                assert(t.pending@[0].seq() == oldest) by {
                    let k = choose|k: int| 0 <= k < t.pending@.len() && t.pending@[k].seq() == oldest;
                    let j0 = choose|j0: int| 0 <= j0 < b.pending@.len() && b.pending@[j0] == #[trigger] t.pending@[0];
                    if k != 0 {
                        assert(t.pending@[0].seq() < t.pending@[k].seq());
                        if j0 > 0 {
                            assert(b.pending@[0].seq() < b.pending@[j0].seq());
                        }
                    }
                }
                t.lemma_observe_at(0);
                lemma_remove_observed(&m, &t, 0);
                lemma_wrap_zero(b.counters.frames_dropped);
                lemma_wrap_zero(b.counters.frags_lost);
                assert(!b.holds(seq)) by {
                    if b.holds(seq) {
                        let q = choose|q: int| 0 <= q < b.pending@.len() && (#[trigger] b.pending@[q]).seq() == seq;
                        assert(b.pending_seqs()[q] == seq);
                    }
                }
                assert(oldest != seq);
                assert forall|s: u32| #![trigger f.held_count(s)] s != seq && s != oldest implies f.same_frame(&b, s) by {
                    assert(f.same_frame(&st, s));
                    assert(st.same_frame(&pl, s));
                    assert(pl.same_frame(&m, s));
                    assert(m.same_frame(&t, s));
                    assert(t.held_count(s) == t.held_count(s));
                    if !b.sweep_keeps(s, now) {
                        assert(!b.holds(s)) by {
                            if b.holds(s) {
                                let q = choose|q: int| 0 <= q < b.pending@.len() && (#[trigger] b.pending@[q]).seq() == s;
                                assert(b.pending_seqs()[q] == s);
                            }
                        }
                        b.lemma_observe_absent(s);
                    }
                }
                assert(f.same_frame(&st, oldest));
                assert(st.same_frame(&pl, oldest));
                assert(pl.same_frame(&m, oldest));
            }
        }
    }
}

/// Two states holding the same frames observe every frame alike.
proof fn lemma_same_pending_observed(a: &Reassembler, b: &Reassembler)
    requires
        a.wf_core(),
        b.wf_core(),
        a.pending == b.pending,
    ensures
        forall|s: u32| #![trigger a.held_count(s)] #![trigger b.held_count(s)] a.same_frame(b, s),
        a.pending_seqs() == b.pending_seqs(),
{
    assert forall|s: u32| #![trigger a.held_count(s)] #![trigger b.held_count(s)] a.same_frame(b, s) by {
        if a.holds(s) {
            let j = choose|j: int| 0 <= j < a.pending@.len() && (#[trigger] a.pending@[j]).seq() == s;
            a.lemma_observe_at(j);
            b.lemma_observe_at(j);
        } else {
            a.lemma_observe_absent(s);
            b.lemma_observe_absent(s);
        }
    }
    assert(a.pending_seqs() =~= b.pending_seqs());
}

/// An empty state holds nothing.
proof fn lemma_empty_observed(a: &Reassembler, now: u64)
    requires
        a.pending@.len() == 0,
    ensures
        forall|s: u32| #![trigger a.held_count(s)] a.gone(s) && !a.sweep_keeps(s, now) && a.arrived_at(s) == 0
            && !a.keyframe_asked(s),
        a.pending_seqs() == Seq::<u32>::empty(),
{
    assert forall|s: u32| #![trigger a.held_count(s)] a.gone(s) && !a.sweep_keeps(s, now) && a.arrived_at(s) == 0
        && !a.keyframe_asked(s) by {
        a.lemma_observe_absent(s);
    }
    assert(a.pending_seqs() =~= Seq::<u32>::empty());
}

proof fn lemma_swept_same(a: &Reassembler, b: &Reassembler, seqs: Seq<u32>, now: u64)
    requires
        forall|s: u32| #![trigger a.held_count(s)] #![trigger b.held_count(s)] a.same_frame(b, s),
    ensures
        a.swept(seqs, now) == b.swept(seqs, now),
        a.lost_in(seqs) == b.lost_in(seqs),
    decreases seqs.len(),
{
    if seqs.len() > 0 {
        lemma_swept_same(a, b, seqs.drop_last(), now);
        assert(a.same_frame(b, seqs.last()));
    }
}

/// Without repair, the outcome of storing a fragment that passed the early
/// checks, stated over the state before the call.
#[verifier::rlimit(80)]
proof fn lemma_plain_bridge(
    old: Reassembler,
    b: Reassembler,
    after: Reassembler,
    header: MediaHeader,
    payload: Seq<u8>,
    now: u64,
    outcome: AddOutcome,
)
    requires
        old.wf(),
        b.wf(),
        !old.repair_enabled,
        old.precheck(header) is None,
        Reassembler::accept_spec(b, header, payload, now, after, outcome),
        !old.restarts(header) ==> {
            &&& b.pending == old.pending
            &&& b.pending_bytes == old.pending_bytes
            &&& b.counters == old.counters
            &&& b.retired_seq == old.retired_seq
            &&& b.latest_completed_seq == old.latest_completed_seq
            &&& b.ready == old.ready
        },
        old.restarts(header) ==> {
            &&& b.pending@.len() == 0
            &&& b.pending_bytes == 0
            &&& b.counters == ReassemblyCounters::default_spec()
            &&& b.retired_seq == 0
            &&& b.latest_completed_seq == 0
            &&& b.ready@.len() == 0
        },
        b.stale_epoch_streak == old.streak_after(header),
        outcome is Dropped ==> after.pending_bytes <= b.pending_bytes,
        !(outcome is Dropped) && b.pending_bytes + payload.len() <= MAX_PENDING_BYTES && b.ready@.len() == 0
            ==> after.pending_bytes <= b.pending_bytes + payload.len(),
    ensures
        old.plain_outcome_spec(header, payload, now, after, outcome),
{
    reveal(Reassembler::accept_spec);
    let seq = header.frame_seq;
    let index = header.frag_index;
    let count = header.frag_count;
    let restart = old.restarts(header);
    let parts = Seq::new(count as nat, |k: int| if k == index { payload } else {
        match old.fragment(seq, k as u16) { Some(v) => v, None => Seq::empty() }
    });
    let parts_b = Seq::new(count as nat, |k: int| if k == index { payload } else {
        match b.fragment(seq, k as u16) { Some(v) => v, None => Seq::empty() }
    });
    if !restart {
        lemma_same_pending_observed(&b, &old);
        lemma_swept_same(&b, &old, old.pending_seqs(), now);
        assert(b.same_frame(&old, seq));
        assert forall|k: u16| #![trigger old.fragment(seq, k)] #![trigger b.fragment(seq, k)] old.fragment(seq, k)
            == b.fragment(seq, k) by {}
        assert(parts =~= parts_b);
        assert forall|s: u32| #![trigger after.held_count(s)] b.sweep_keeps(s, now) == old.live(header, now, s) by {
            assert(b.same_frame(&old, s));
        }
        assert forall|s: u32| #![trigger after.held_count(s)] after.same_frame(&b, s) ==> after.same_frame(&old, s) by {
            assert(b.same_frame(&old, s));
        }
        let swept = old.swept(old.pending_seqs(), now);
        lemma_swept_same(&b, &old, swept, now);
        assert(b.sweep_keeps(seq, now) == old.live(header, now, seq));
        let fills_b = forall|k: u16| k < count && k != index ==> b.sweep_keeps(seq, now) && #[trigger] b.fragment(seq, k) is Some;
        let fills = forall|k: u16| k < count && k != index ==> old.live(header, now, seq) && #[trigger] old.fragment(seq, k) is Some;
        assert(fills_b == fills) by {
            if fills_b {
                assert forall|k: u16| k < count && k != index implies old.live(header, now, seq) && #[trigger] old.fragment(seq, k) is Some by {
                    assert(b.fragment(seq, k) is Some);
                }
            }
            if fills {
                assert forall|k: u16| k < count && k != index implies b.sweep_keeps(seq, now) && #[trigger] b.fragment(seq, k) is Some by {
                    assert(old.fragment(seq, k) is Some);
                }
            }
        }
    } else {
        lemma_empty_observed(&b, now);
        assert(b.swept(b.pending_seqs(), now) =~= Seq::<u32>::empty());
        assert(b.same_frame(&b, seq));
        assert forall|s: u32| #![trigger after.held_count(s)] b.sweep_keeps(s, now) == old.live(header, now, s) by {
            assert(b.gone(s));
        }
        let fills_b = forall|k: u16| k < count && k != index ==> b.sweep_keeps(seq, now) && #[trigger] b.fragment(seq, k) is Some;
        let fills = forall|k: u16| k < count && k != index ==> old.live(header, now, seq) && #[trigger] old.fragment(seq, k) is Some;
        assert(!old.live(header, now, seq));
        if count > 1 {
            let k: u16 = if index == 0 { 1 } else { 0 };
            assert(!fills_b) by {
                assert(b.fragment(seq, k) is None);
            }
            assert(!fills) by {
                assert(!(old.live(header, now, seq) && old.fragment(seq, k) is Some));
            }
        } else {
            assert(parts =~= parts_b);
            assert(fills_b);
            assert(fills);
        }
    }
}

/// The state the epoch step and the early checks hand on, without repair:
/// the old frames, or nothing after a restart.
proof fn lemma_restart_state(old: Reassembler, e: Reassembler, c: Reassembler, header: MediaHeader)
    requires
        old.wf(),
        e.wf(),
        c.wf(),
        !old.repair_enabled,
        old.resets_on_epoch(header.stream_epoch) ==> {
            &&& e.pending@.len() == 0
            &&& e.ready@.len() == 0
            &&& e.retired_seq == 0
            &&& e.latest_completed_seq == 0
            &&& e.repair_enabled == old.repair_enabled
            &&& e.stale_epoch_streak == 0
            &&& e.pending_bytes == 0
            &&& e.counters == ReassemblyCounters::default_spec()
        },
        !old.resets_on_epoch(header.stream_epoch) ==> e == (Reassembler {
            current_epoch: Some(header.stream_epoch),
            stale_epoch_streak: e.stale_epoch_streak,
            ..old
        }),
        !old.resets_on_epoch(header.stream_epoch) ==> e.stale_epoch_streak == if old.current_epoch == Some(
            header.stream_epoch,
        ) {
            0
        } else {
            old.stale_epoch_streak
        },
        !e.repair_enabled && !backjump(e.retired_seq, header.frame_seq) ==> {
            &&& c.pending == e.pending
            &&& c.pending_bytes == e.pending_bytes
            &&& c.counters == e.counters
            &&& c.retired_seq == e.retired_seq
            &&& c.latest_completed_seq == e.latest_completed_seq
            &&& c.stale_epoch_streak == e.stale_epoch_streak
            &&& c.ready == e.ready
        },
        backjump(e.retired_seq, header.frame_seq) ==> {
            &&& c.pending@.len() == 0
            &&& c.pending_bytes == 0
            &&& c.counters == ReassemblyCounters::default_spec()
            &&& c.retired_seq == 0
            &&& c.latest_completed_seq == 0
            &&& c.stale_epoch_streak == 0
            &&& c.ready@.len() == 0
        },
    ensures
        !old.restarts(header) ==> {
            &&& c.pending == old.pending
            &&& c.pending_bytes == old.pending_bytes
            &&& c.counters == old.counters
            &&& c.retired_seq == old.retired_seq
            &&& c.latest_completed_seq == old.latest_completed_seq
            &&& c.ready == old.ready
        },
        old.restarts(header) ==> {
            &&& c.pending@.len() == 0
            &&& c.pending_bytes == 0
            &&& c.counters == ReassemblyCounters::default_spec()
            &&& c.retired_seq == 0
            &&& c.latest_completed_seq == 0
            &&& c.ready@.len() == 0
        },
        c.stale_epoch_streak == old.streak_after(header),
{
}

/// Without repair, a fragment dropped by the early checks leaves the frames
/// it found, or nothing after a restart.
proof fn lemma_early_drop_plain(
    old: Reassembler,
    c: Reassembler,
    header: MediaHeader,
    payload: Seq<u8>,
    now: u64,
    outcome: AddOutcome,
)
    requires
        old.wf(),
        c.wf(),
        !old.repair_enabled,
        old.precheck(header) is Some,
        outcome == AddOutcome::Dropped(old.precheck(header)->0),
        !old.restarts(header) ==> {
            &&& c.pending == old.pending
            &&& c.pending_bytes == old.pending_bytes
            &&& c.counters == old.counters
            &&& c.retired_seq == old.retired_seq
            &&& c.latest_completed_seq == old.latest_completed_seq
            &&& c.ready == old.ready
        },
        old.restarts(header) ==> {
            &&& c.pending@.len() == 0
            &&& c.pending_bytes == 0
            &&& c.counters == ReassemblyCounters::default_spec()
            &&& c.retired_seq == 0
            &&& c.latest_completed_seq == 0
            &&& c.ready@.len() == 0
        },
        c.stale_epoch_streak == old.streak_after(header),
    ensures
        old.plain_outcome_spec(header, payload, now, c, outcome),
{
    if !old.restarts(header) {
        lemma_same_pending_observed(&c, &old);
    } else {
        lemma_empty_observed(&c, now);
    }
}

impl Reassembler {
    /// The index of the held frame for `header`, creating an empty one in
    /// sequence order when none is held.
    fn place_frame(&mut self, header: MediaHeader, len: usize, now: u64) -> (i: usize)
        requires
            old(self).wf(),
            1 <= header.frag_count <= MAX_FRAG_COUNT,
            header.frag_index < header.frag_count,
            old(self).retired_seq == 0 || header.frame_seq > old(self).retired_seq,
            old(self).holds(header.frame_seq) || old(self).pending@.len() < MAX_PENDING_FRAMES,
            old(self).pending_bytes + len <= MAX_PENDING_BYTES,
            forall|k: int| 0 <= k < old(self).pending@.len() && (#[trigger] old(self).pending@[k]).seq() == header.frame_seq
                ==> old(self).pending@[k].header.frag_count == header.frag_count
                && old(self).pending@[k].fragments@[header.frag_index as int] is None,
        ensures
            final(self).wf(),
            i < final(self).pending@.len(),
            final(self).pending@[i as int].seq() == header.frame_seq,
            final(self).pending@[i as int].header.frag_count == header.frag_count,
            final(self).pending@[i as int].fragments@[header.frag_index as int] is None,
            final(self).pending_bytes + len <= MAX_PENDING_BYTES,
            final(self).ready == old(self).ready,
            final(self).counters == old(self).counters,
            final(self).latest_completed_seq == old(self).latest_completed_seq,
            final(self).retired_seq == old(self).retired_seq,
            final(self).same_config(&old(self)),
            final(self).pending_bytes == old(self).pending_bytes,
            final(self).keyframe_needed == old(self).keyframe_needed,
            final(self).nacks == old(self).nacks,
            old(self).holds(header.frame_seq) ==> *final(self) == *old(self),
            !old(self).holds(header.frame_seq) ==> final(self).pending@.len() == old(self).pending@.len() + 1,
            Reassembler::placed_from(*old(self), *final(self), header, now),
    {
        let seq = header.frame_seq;
        match self.find_index(seq) {
            Some(i) => {
                proof {
                    assert(old(self).holds(seq));
                }
                i
            },
            None => {
                let p = self.insert_position(seq);
                let frame = Reassembler::fresh_frame(header, now);
                let ghost before = self.pending@;
                self.pending.insert(p, frame);
                proof {
                    lemma_sum_insert(before, p as int, frame);
                    assert forall|a: int, b: int| 0 <= a < b < self.pending@.len() implies
                        (#[trigger] self.pending@[a]).seq() < (#[trigger] self.pending@[b]).seq() by {
                        if a < p && b > p {
                            assert(self.pending@[a] == before[a]);
                            assert(self.pending@[b] == before[b - 1]);
                        } else if a < p && b == p {
                        } else if a == p {
                            assert(self.pending@[b] == before[b - 1]);
                        } else if b < p {
                        } else {
                            assert(self.pending@[a] == before[a - 1]);
                            assert(self.pending@[b] == before[b - 1]);
                        }
                    }
                    assert forall|q: int| 0 <= q < self.pending@.len() implies self.retired_seq == 0
                        || (#[trigger] self.pending@[q]).seq() > self.retired_seq by {
                        if q < p {
                            assert(self.pending@[q] == before[q]);
                        } else if q > p {
                            assert(self.pending@[q] == before[q - 1]);
                        }
                    }
                    assert forall|q: int| 0 <= q < self.pending@.len() implies (#[trigger] self.pending@[q]).wf() by {
                        if q < p {
                            assert(self.pending@[q] == before[q]);
                        } else if q > p {
                            assert(self.pending@[q] == before[q - 1]);
                        }
                    }
                    assert(!old(self).holds(seq));
                    lemma_insert_observed(&*self, &old(self), p as int);
                    self.lemma_observe_at(p as int);
                }
                p
            },
        }
    }

    /// The state a sweep without repair at `now` leaves behind, from `b`:
    /// kept frames unchanged, the others gone and counted as lost.
    spec fn swept_state(b: Reassembler, after: Reassembler, now: u64) -> bool {
        let swept = b.swept(b.pending_seqs(), now);
        &&& forall|s: u32| #![trigger after.held_count(s)]
            (b.sweep_keeps(s, now) ==> after.same_frame(&b, s)) && (!b.sweep_keeps(s, now) ==> after.gone(s))
        &&& after.retired() == b.retired()
        &&& after.latest_completed() == b.latest_completed()
        &&& after.counters_view().frames_complete == b.counters_view().frames_complete
        &&& after.counters_view().frags_received == b.counters_view().frags_received
        &&& after.counters_view().frames_dropped == wrap_add(b.counters_view().frames_dropped, swept.len() as int)
        &&& after.counters_view().frags_lost == wrap_add(b.counters_view().frags_lost, b.lost_in(swept))
    }

    /// Without repair, what storing a fragment that passed the early checks
    /// does, from state `b`.
    #[verifier::opaque]
    spec fn accept_spec(b: Reassembler, header: MediaHeader, payload: Seq<u8>, now: u64, after: Reassembler, outcome: AddOutcome) -> bool {
        let seq = header.frame_seq;
        let index = header.frag_index;
        let count = header.frag_count;
        let live = b.sweep_keeps(seq, now);
        let mismatch = live && b.held_count(seq) != Some(count);
        let dup = live && b.held_count(seq) == Some(count) && b.fragment(seq, index) is Some;
        let swept = b.swept(b.pending_seqs(), now);
        let fits = b.held_bytes() + payload.len() <= MAX_PENDING_BYTES;
        let evict = !live && b.pending_seqs().len() - swept.len() >= MAX_PENDING_FRAMES;
        let fills = forall|k: u16| k < count && k != index ==> live && #[trigger] b.fragment(seq, k) is Some;
        let parts = Seq::new(count as nat, |k: int| if k == index { payload } else {
            match b.fragment(seq, k as u16) { Some(v) => v, None => Seq::empty() }
        });
        &&& (outcome == AddOutcome::Dropped(DropReason::CountMismatch)) == mismatch
        &&& (outcome == AddOutcome::Dropped(DropReason::DuplicateFragment)) == dup
        &&& (outcome == AddOutcome::Dropped(DropReason::Capacity)) == (!mismatch && !dup && payload.len() > MAX_PENDING_BYTES)
        &&& outcome != AddOutcome::Dropped(DropReason::StaleSeq)
        &&& after.streak() == b.streak()
        &&& (outcome is Dropped ==> Reassembler::swept_state(b, after, now))
        &&& (fits && b.ready_view().len() == 0 && !mismatch && !dup) ==> {
            &&& (outcome is Completed <==> fills)
            &&& (outcome is Stored <==> !fills)
            &&& (outcome matches AddOutcome::Completed(p) ==> p@ == concat_parts(parts))
            &&& after.counters_view().frames_complete == if fills {
                b.counters_view().frames_complete.wrapping_add(1)
            } else {
                b.counters_view().frames_complete
            }
            &&& after.counters_view().frags_received == if header.is_retransmit {
                b.counters_view().frags_received
            } else {
                b.counters_view().frags_received.wrapping_add(1)
            }
        }
        &&& (fits && b.ready_view().len() == 0 && outcome is Stored) ==> {
            &&& after.held_count(seq) == Some(count)
            &&& after.fragment(seq, index) == Some(payload)
            &&& forall|k: u16| k != index ==> #[trigger] after.fragment(seq, k) == if live { b.fragment(seq, k) } else { None }
            &&& after.received_of(seq) == (if live { b.received_of(seq) } else { 0 }) + 1
            &&& after.arrived_at(seq) == if live { b.arrived_at(seq) } else { now }
            &&& after.keyframe_asked(seq) == (live && b.keyframe_asked(seq))
            &&& after.retired() == b.retired()
            &&& after.latest_completed() == b.latest_completed()
            &&& !evict ==> {
                &&& forall|s: u32| #![trigger after.held_count(s)] s != seq ==> (b.sweep_keeps(s, now) ==> after.same_frame(&b, s))
                    && (!b.sweep_keeps(s, now) ==> after.gone(s))
                &&& after.counters_view().frames_dropped == wrap_add(b.counters_view().frames_dropped, swept.len() as int)
                &&& after.counters_view().frags_lost == wrap_add(b.counters_view().frags_lost, b.lost_in(swept))
            }
            &&& (evict && swept.len() == 0) ==> {
                let oldest = b.pending_seqs()[0];
                &&& after.gone(oldest)
                &&& forall|s: u32| #![trigger after.held_count(s)] s != seq && s != oldest ==> after.same_frame(&b, s)
                &&& after.counters_view().frames_dropped == b.counters_view().frames_dropped.wrapping_add(1)
                &&& after.counters_view().frags_lost == b.counters_view().frags_lost.wrapping_add(b.missing_of(oldest) as u64)
            }
        }
    }

    /// Stores a fragment that passed the early checks: cleanup, the
    /// repair-mode stale check, agreement with a held frame, the byte
    /// budget, then room-making, storage and delivery.
    #[verifier::rlimit(60)]
    fn accept_fragment(&mut self, header: MediaHeader, payload: &[u8], now: u64) -> (outcome: AddOutcome)
        requires
            old(self).wf(),
            1 <= header.frag_count <= MAX_FRAG_COUNT,
            header.frag_index < header.frag_count,
            old(self).retired_seq == 0 || header.frame_seq > old(self).retired_seq,
        ensures
            final(self).wf(),
            final(self).current_epoch == old(self).current_epoch,
            final(self).repair_enabled == old(self).repair_enabled,
            final(self).frame_period_us == old(self).frame_period_us,
            final(self).rtt_us == old(self).rtt_us,
            outcome matches AddOutcome::Dropped(r) ==> r == DropReason::StaleSeq || r == DropReason::CountMismatch
                || r == DropReason::DuplicateFragment || r == DropReason::Capacity,
            outcome == AddOutcome::Dropped(DropReason::DuplicateFragment) ==> {
                &&& old(self).fragment(header.frame_seq, header.frag_index) is Some
                &&& final(self).fragment(header.frame_seq, header.frag_index) == old(self).fragment(
                    header.frame_seq,
                    header.frag_index,
                )
                &&& final(self).counters.frags_received == old(self).counters.frags_received
            },
            outcome == AddOutcome::Dropped(DropReason::CountMismatch) ==> forall|k: u16|
                #[trigger] final(self).fragment(header.frame_seq, k) == old(self).fragment(header.frame_seq, k),
            outcome == AddOutcome::Dropped(DropReason::CountMismatch) ==> old(self).holds(header.frame_seq),
            outcome is Completed ==> !old(self).repair_enabled,
            old(self).ready@.len() == 0 ==> (outcome matches AddOutcome::Completed(p) ==> {
                &&& final(self).latest_completed_seq == header.frame_seq
                &&& final(self).retired_seq == header.frame_seq
                &&& forall|k: int| 0 <= k < final(self).pending@.len()
                    ==> (#[trigger] final(self).pending@[k]).seq() > header.frame_seq
            }),
            !old(self).repair_enabled ==> Reassembler::accept_spec(*old(self), header, payload@, now, *final(self), outcome),
            !old(self).repair_enabled && outcome is Dropped ==> final(self).pending_bytes <= old(self).pending_bytes,
            !old(self).repair_enabled && !(outcome is Dropped) && old(self).pending_bytes + payload@.len() <= MAX_PENDING_BYTES
                && old(self).ready@.len() == 0 ==> final(self).pending_bytes <= old(self).pending_bytes + payload@.len(),
    {
        proof {
            reveal(Reassembler::accept_spec);
        }
        let seq = header.frame_seq;
        let index = header.frag_index;
        let count = header.frag_count;
        self.tick_inner(now);
        let ghost post_tick = *self;
        proof {
            if !old(self).repair_enabled {
                lemma_sweep_observed(&post_tick, &old(self), now);
                assert(Reassembler::swept_state(*old(self), post_tick, now));
            }
        }
        if self.repair_enabled && self.retired_seq > 0 && seq <= self.retired_seq {
            return AddOutcome::Dropped(DropReason::StaleSeq);
        }
        match self.find_index(seq) {
            Some(i) => {
                proof {
                    lemma_kept_fragment(&*self, &old(self), i as int);
                    self.lemma_fragment_at(i as int, index);
                    self.lemma_observe_at(i as int);
                }
                if self.pending[i].header.frag_count != count {
                    return AddOutcome::Dropped(DropReason::CountMismatch);
                }
                if self.pending[i].has(index) {
                    return AddOutcome::Dropped(DropReason::DuplicateFragment);
                }
            },
            None => {
                proof {
                    self.lemma_observe_absent(seq);
                }
            },
        }
        if payload.len() > MAX_PENDING_BYTES {
            return AddOutcome::Dropped(DropReason::Capacity);
        }
        if self.make_room(seq, payload.len(), now) {
            return AddOutcome::Dropped(DropReason::StaleSeq);
        }
        let ghost roomy = *self;
        proof {
            assert forall|k: int| 0 <= k < self.pending@.len() && (#[trigger] self.pending@[k]).seq() == seq implies
                self.pending@[k].header.frag_count == count && self.pending@[k].fragments@[index as int] is None by {
                assert(post_tick.kept_frame(self.pending@[k]));
                let j = choose|j: int| 0 <= j < post_tick.pending@.len() && same_content(self.pending@[k], #[trigger] post_tick.pending@[j]);
                assert(post_tick.pending@[j].seq() == seq);
            }
        }
        let i = self.place_frame(header, payload.len(), now);
        let ghost placed = *self;
        let complete = self.store_fragment(i, header, payload, now);
        let ghost stored = *self;
        proof {
            self.lemma_fragment_at(i as int, index);
            self.lemma_observe_at(i as int);
            if complete {
                lemma_count_some_bound(self.pending@[i as int].fragments@);
            }
        }
        let outcome = self.finish_store(i, complete, now);
        proof {
            if !old(self).repair_enabled {
                lemma_accept_stored(*old(self), post_tick, roomy, placed, stored, *self, header, payload@, now, i as int, complete, outcome);
            }
        }
        outcome
    }

    /// Feeds one media fragment arriving at `now_us`.
    #[verifier::rlimit(100)]
    pub fn add_media(&mut self, header: MediaHeader, payload: &[u8], now_us: u64) -> (outcome: AddOutcome)
        requires
            old(self).wf(),
        ensures
            final(self).wf(),
            old(self).add_outcome_spec(header, payload@, now_us, *final(self), outcome),
    {
        if self.epoch_step(header.stream_epoch) {
            proof {
                lemma_same_pending_observed(&*self, &old(self));
            }
            return AddOutcome::Dropped(DropReason::StaleEpoch);
        }
        let ghost after_epoch = *self;
        let ghost restart = old(self).restarts(header);
        match self.early_checks(header, now_us) {
            Some(reason) => {
                proof {
                    if reason == DropReason::DuplicateFragment || reason == DropReason::CountMismatch {
                        assert(false);
                    }
                    if !old(self).repair_enabled {
                        lemma_restart_state(*old(self), after_epoch, *self, header);
                        lemma_early_drop_plain(*old(self), *self, header, payload@, now_us, AddOutcome::Dropped(reason));
                    }
                }
                return AddOutcome::Dropped(reason);
            },
            None => {},
        }
        let ghost checked = *self;
        proof {
            if !old(self).repair_enabled {
                lemma_restart_state(*old(self), after_epoch, checked, header);
            }
        }
        let outcome = self.accept_fragment(header, payload, now_us);
        proof {
            let seq = header.frame_seq;
            if checked.holds(seq) {
                let i = choose|i: int| 0 <= i < checked.pending@.len() && (#[trigger] checked.pending@[i]).seq() == seq;
                assert(checked.pending@.len() > 0);
                assert(!old(self).resets_on_epoch(header.stream_epoch)) by {
                    if old(self).resets_on_epoch(header.stream_epoch) {
                        assert(after_epoch.pending@.len() == 0);
                        assert(checked.kept_frame(checked.pending@[i]));
                        assert(after_epoch.kept_frame(checked.pending@[i]));
                    }
                }
                assert(after_epoch.pending == old(self).pending);
                lemma_kept_fragment(&checked, &after_epoch, i);
                assert forall|k: u16| #[trigger] after_epoch.fragment(seq, k) == old(self).fragment(seq, k) by {}
            }
            if outcome == AddOutcome::Dropped(DropReason::DuplicateFragment) {
                assert(checked.holds(seq)) by {
                    if !checked.holds(seq) {
                        checked.lemma_fragment_absent(seq, header.frag_index);
                    }
                }
            }
            if outcome is Completed && (restart || old(self).ready@.len() == 0) {
                assert(checked.ready@.len() == 0);
                assert forall|s: u32| #[trigger] self.pending_seqs().contains(s) implies s > seq by {
                    let k = choose|k: int| 0 <= k < self.pending_seqs().len() && self.pending_seqs()[k] == s;
                    assert(self.pending@[k].seq() == s);
                }
            }
            if !old(self).repair_enabled {
                lemma_plain_bridge(*old(self), checked, *self, header, payload@, now_us, outcome);
            }
        }
        outcome
    }

}

} // verus!

verus! {

impl Reassembler {
    /// What every valid reassembler's observers satisfy: at most eight
    /// frames, held in ascending order, exactly those with a fragment count;
    /// a frame not held has nothing stored; each frame's count is in range
    /// and its received fragments within it; at most 8 MiB is held, and
    /// nothing when no frame is.
    pub proof fn lemma_view_laws(&self)
        requires
            self.wf(),
        ensures
            self.pending_seqs().len() <= MAX_PENDING_FRAMES,
            forall|a: int, b: int| 0 <= a < b < self.pending_seqs().len() ==> #[trigger] self.pending_seqs()[a]
                < #[trigger] self.pending_seqs()[b],
            forall|s: u32| #![trigger self.held_count(s)] #![trigger self.pending_seqs().contains(s)]
                self.pending_seqs().contains(s) <==> self.held_count(s) is Some,
            forall|s: u32| #![trigger self.held_count(s)]
                self.held_count(s) is None ==> self.gone(s) && self.arrived_at(s) == 0 && !self.keyframe_asked(s),
            forall|s: u32| #![trigger self.held_count(s)]
                self.held_count(s) matches Some(c) ==> 1 <= c <= MAX_FRAG_COUNT && self.received_of(s) <= c,
            self.held_bytes() <= MAX_PENDING_BYTES,
            self.pending_seqs().len() == 0 ==> self.held_bytes() == 0,
    {
        assert forall|s: u32| #![trigger self.held_count(s)] #![trigger self.pending_seqs().contains(s)]
            self.pending_seqs().contains(s) <==> self.held_count(s) is Some by {
            if self.pending_seqs().contains(s) {
                let k = choose|k: int| 0 <= k < self.pending_seqs().len() && self.pending_seqs()[k] == s;
                self.lemma_observe_at(k);
            }
            if self.holds(s) {
                let k = choose|k: int| 0 <= k < self.pending@.len() && (#[trigger] self.pending@[k]).seq() == s;
                assert(self.pending_seqs()[k] == s);
            } else {
                self.lemma_observe_absent(s);
            }
        }
        assert forall|s: u32| #![trigger self.held_count(s)]
            self.held_count(s) matches Some(c) ==> 1 <= c <= MAX_FRAG_COUNT && self.received_of(s) <= c by {
            if self.holds(s) {
                let k = choose|k: int| 0 <= k < self.pending@.len() && (#[trigger] self.pending@[k]).seq() == s;
                self.lemma_observe_at(k);
                lemma_count_some_bound(self.pending@[k].fragments@);
            } else {
                self.lemma_observe_absent(s);
            }
        }
        assert forall|s: u32| #![trigger self.held_count(s)]
            self.held_count(s) is None ==> self.gone(s) && self.arrived_at(s) == 0 && !self.keyframe_asked(s) by {
            if self.holds(s) {
                let k = choose|k: int| 0 <= k < self.pending@.len() && (#[trigger] self.pending@[k]).seq() == s;
                self.lemma_observe_at(k);
            } else {
                self.lemma_observe_absent(s);
            }
        }
        if self.pending@.len() == 0 {
            assert(self.pending@ =~= Seq::<PendingFrame>::empty());
        }
    }

    /// Whether frame `seq` is currently held, partially or fully received.
    pub fn is_pending(&self, seq: u32) -> (held: bool)
        requires
            self.wf(),
        ensures
            held == self.pending_seqs().contains(seq),
    {
        match self.find_index(seq) {
            Some(i) => {
                proof {
                    assert(self.pending_seqs()[i as int] == seq);
                }
                true
            },
            None => {
                proof {
                    if self.pending_seqs().contains(seq) {
                        let k = choose|k: int| 0 <= k < self.pending_seqs().len() && self.pending_seqs()[k] == seq;
                        assert(self.pending@[k].seq() == seq);
                    }
                }
                false
            },
        }
    }
}

} // verus!

verus! {

/// A frame is delivered once: after a fragment completes frame `seq`, any
/// further fragment of that frame in the same epoch is dropped as a
/// duplicate of a completed frame, before it touches any state.
pub proof fn lemma_completed_frame_is_not_reassembled(
    before: Reassembler,
    header: MediaHeader,
    payload: Seq<u8>,
    now_us: u64,
    after: Reassembler,
    frame: Vec<u8>,
    again: MediaHeader,
)
    requires
        before.add_outcome_spec(header, payload, now_us, after, AddOutcome::Completed(frame)),
        again.frame_seq == header.frame_seq,
        again.stream_epoch == header.stream_epoch,
        header.frame_seq > 0,
        before.ready_view().len() == 0,
    ensures
        after.precheck(again) == Some(DropReason::DuplicateCompleted),
{
}

} // verus!
