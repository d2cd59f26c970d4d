//! Bounded, per-session storage of the exact first-transmission datagrams,
//! so that fragments a receiver reports missing can be sent again.
//!
//! Instants are microsecond readings of one monotonic clock.

use vstd::prelude::*;
use vstd::slice::slice_to_vec;
use crate::media::MEDIA_FLAG_RETRANSMIT;

verus! {

pub const FRAME_LIMIT: usize = 96;
pub const BYTE_LIMIT: usize = 12 * 1024 * 1024;
/// The receiver requests each fragment once, retries once after its RTT plus
/// 5 ms, and once more after a stall. A longer interval would swallow the
/// retry that replaces a lost resend (microseconds).
pub const RESEND_INTERVAL_US: u64 = 5_000;
/// The most indices one request is served for.
pub const MAX_RESEND_INDICES: usize = 64;

/// One stored frame as the contracts see it.
pub struct StoredView {
    pub epoch: u32,
    pub seq: u32,
    pub datagrams: Seq<Seq<u8>>,
    pub last_resend: Seq<Option<u64>>,
}

/// Total length of a frame's datagrams.
pub open spec fn dgram_bytes(d: Seq<Seq<u8>>) -> nat
    decreases d.len(),
{
    if d.len() == 0 { 0 } else { dgram_bytes(d.drop_last()) + d.last().len() }
}

/// Total length of the stored frames' datagrams.
pub open spec fn total_bytes(frames: Seq<StoredView>) -> nat
    decreases frames.len(),
{
    if frames.len() == 0 { 0 } else { dgram_bytes(frames[0].datagrams) + total_bytes(frames.drop_first()) }
}

pub open spec fn keys_unique(frames: Seq<StoredView>) -> bool {
    forall|i: int, j: int| 0 <= i < j < frames.len() ==> !(frames[i].epoch == frames[j].epoch && frames[i].seq == frames[j].seq)
}

pub open spec fn has_key(frames: Seq<StoredView>, epoch: u32, seq: u32) -> bool {
    exists|i: int| 0 <= i < frames.len() && #[trigger] frames[i].epoch == epoch && frames[i].seq == seq
}

/// Where the frame `(epoch, seq)` is stored, when it is.
pub open spec fn key_index(frames: Seq<StoredView>, epoch: u32, seq: u32) -> int {
    choose|i: int| 0 <= i < frames.len() && #[trigger] frames[i].epoch == epoch && frames[i].seq == seq
}

/// Oldest frames leave until one more frame of `add` bytes fits both limits.
pub open spec fn evict(frames: Seq<StoredView>, add: nat, frame_limit: nat, byte_limit: nat) -> Seq<StoredView>
    decreases frames.len(),
{
    if frames.len() > 0 && (frames.len() >= frame_limit || total_bytes(frames) + add > byte_limit) {
        evict(frames.drop_first(), add, frame_limit, byte_limit)
    } else {
        frames
    }
}

/// The frames after storing `datagrams` as frame `(epoch, seq)`: an empty or
/// oversized frame is refused and displaces nothing; otherwise an older copy
/// of the same frame is replaced, the oldest frames make room, and the new
/// frame is the newest, with no resend yet.
pub open spec fn insert_spec(
    frames: Seq<StoredView>,
    epoch: u32,
    seq: u32,
    datagrams: Seq<Seq<u8>>,
    frame_limit: nat,
    byte_limit: nat,
) -> Seq<StoredView> {
    let n = dgram_bytes(datagrams);
    if datagrams.len() == 0 || n > byte_limit {
        frames
    } else {
        let without = if has_key(frames, epoch, seq) { frames.remove(key_index(frames, epoch, seq)) } else { frames };
        evict(without, n, frame_limit, byte_limit).push(StoredView {
            epoch,
            seq,
            datagrams,
            last_resend: Seq::new(datagrams.len(), |i: int| None::<u64>),
        })
    }
}

/// A stored datagram as it is sent again: byte 4 carries the retransmit flag.
pub open spec fn flagged(d: Seq<u8>) -> Seq<u8> {
    d.update(4, d[4] | MEDIA_FLAG_RETRANSMIT)
}

/// Serving one requested index: what is sent and the resend times after.
pub open spec fn resend_step(
    datagrams: Seq<Seq<u8>>,
    state: (Seq<Seq<u8>>, Seq<Option<u64>>),
    index: u16,
    now: u64,
) -> (Seq<Seq<u8>>, Seq<Option<u64>>) {
    let (out, last) = state;
    if index >= datagrams.len() {
        state
    } else if last[index as int] is Some && (now < last[index as int]->0 || now - last[index as int]->0 < RESEND_INTERVAL_US) {
        state
    } else if datagrams[index as int].len() <= 4 {
        state
    } else {
        (out.push(flagged(datagrams[index as int])), last.update(index as int, Some(now)))
    }
}

/// Serving the requested indices in order.
pub open spec fn resend_fold(
    datagrams: Seq<Seq<u8>>,
    last: Seq<Option<u64>>,
    missing: Seq<u16>,
    now: u64,
) -> (Seq<Seq<u8>>, Seq<Option<u64>>)
    decreases missing.len(),
{
    if missing.len() == 0 {
        (seq![], last)
    } else {
        resend_step(datagrams, resend_fold(datagrams, last, missing.drop_last(), now), missing.last(), now)
    }
}

struct StoredFrame {
    epoch: u32,
    seq: u32,
    datagrams: Vec<Vec<u8>>,
    last_resend: Vec<Option<u64>>,
    bytes: usize,
}

pub open spec fn dgram_views(d: Seq<Vec<u8>>) -> Seq<Seq<u8>> {
    d.map_values(|v: Vec<u8>| v@)
}

impl StoredFrame {
    spec fn view(&self) -> StoredView {
        StoredView { epoch: self.epoch, seq: self.seq, datagrams: dgram_views(self.datagrams@), last_resend: self.last_resend@ }
    }

    spec fn wf(&self) -> bool {
        &&& self.datagrams@.len() > 0
        &&& self.last_resend@.len() == self.datagrams@.len()
        &&& self.bytes == dgram_bytes(dgram_views(self.datagrams@))
    }
}

pub struct RetransmitRing {
    frames: Vec<StoredFrame>,
    bytes: usize,
    frame_limit: usize,
    byte_limit: usize,
}

proof fn lemma_dgram_bytes_prefix(s: Seq<Seq<u8>>, i: int)
    requires
        0 <= i <= s.len(),
    ensures
        dgram_bytes(s.take(i)) <= dgram_bytes(s),
    decreases s.len(),
{
    if i < s.len() {
        assert(s.drop_last().take(i) =~= s.take(i));
        lemma_dgram_bytes_prefix(s.drop_last(), i);
    } else {
        assert(s.take(i) =~= s);
    }
}

proof fn lemma_total_push(frames: Seq<StoredView>, f: StoredView)
    ensures
        total_bytes(frames.push(f)) == total_bytes(frames) + dgram_bytes(f.datagrams),
    decreases frames.len(),
{
    let p = frames.push(f);
    if frames.len() > 0 {
        assert(p.drop_first() =~= frames.drop_first().push(f));
        lemma_total_push(frames.drop_first(), f);
        assert(p[0] == frames[0]);
        assert(total_bytes(p) == dgram_bytes(p[0].datagrams) + total_bytes(p.drop_first()));
    } else {
        assert(p.drop_first() =~= Seq::<StoredView>::empty());
        assert(total_bytes(p.drop_first()) == 0);
        assert(p[0] == f);
        assert(total_bytes(p) == dgram_bytes(p[0].datagrams) + total_bytes(p.drop_first()));
    }
}

proof fn lemma_total_remove(frames: Seq<StoredView>, i: int)
    requires
        0 <= i < frames.len(),
    ensures
        total_bytes(frames.remove(i)) + dgram_bytes(frames[i].datagrams) == total_bytes(frames),
    decreases frames.len(),
{
    if i > 0 {
        assert(frames.remove(i).drop_first() =~= frames.drop_first().remove(i - 1));
        lemma_total_remove(frames.drop_first(), i - 1);
    } else {
        assert(frames.remove(0) =~= frames.drop_first());
    }
}

proof fn lemma_evict_shape(frames: Seq<StoredView>, add: nat, frame_limit: nat, byte_limit: nat)
    ensures
        ({
            let e = evict(frames, add, frame_limit, byte_limit);
            &&& e.len() <= frames.len()
            &&& e == frames.subrange(frames.len() - e.len(), frames.len() as int)
        }),
    decreases frames.len(),
{
    if frames.len() > 0 && (frames.len() >= frame_limit || total_bytes(frames) + add > byte_limit) {
        lemma_evict_shape(frames.drop_first(), add, frame_limit, byte_limit);
        let e = evict(frames, add, frame_limit, byte_limit);
        assert(frames.drop_first().subrange(frames.len() - 1 - e.len(), frames.len() - 1) =~= frames.subrange(
            frames.len() - e.len(),
            frames.len() as int,
        ));
    } else {
        assert(frames =~= frames.subrange(0, frames.len() as int));
    }
}

impl RetransmitRing {
    spec fn frames_view(&self) -> Seq<StoredView> {
        self.frames@.map_values(|f: StoredFrame| f.view())
    }

    /// The stored frames, oldest first.
    pub closed spec fn stored(&self) -> Seq<StoredView> {
        self.frames_view()
    }

    pub closed spec fn frame_limit_spec(&self) -> nat {
        self.frame_limit as nat
    }

    pub closed spec fn byte_limit_spec(&self) -> nat {
        self.byte_limit as nat
    }

    /// The ring holds whole frames with distinct keys, within both limits.
    pub closed spec fn wf(&self) -> bool {
        &&& forall|i: int| 0 <= i < self.frames@.len() ==> (#[trigger] self.frames@[i]).wf()
        &&& self.bytes == total_bytes(self.frames_view())
        &&& keys_unique(self.frames_view())
        &&& self.frames@.len() <= self.frame_limit
        &&& self.frame_limit >= 1
        &&& self.bytes <= self.byte_limit
        &&& self.byte_limit <= usize::MAX / 2
    }

    pub fn new() -> (r: Self)
        ensures
            r.wf(),
            r.stored() == Seq::<StoredView>::empty(),
            r.frame_limit_spec() == FRAME_LIMIT,
            r.byte_limit_spec() == BYTE_LIMIT,
    {
        let r = RetransmitRing { frames: Vec::new(), bytes: 0, frame_limit: FRAME_LIMIT, byte_limit: BYTE_LIMIT };
        assert(r.frames_view() =~= Seq::<StoredView>::empty());
        r
    }

    /// A ring with other limits than the defaults.
    pub fn with_limits(frame_limit: usize, byte_limit: usize) -> (r: Self)
        requires
            frame_limit >= 1,
            byte_limit <= usize::MAX / 2,
        ensures
            r.wf(),
            r.stored() == Seq::<StoredView>::empty(),
            r.frame_limit_spec() == frame_limit,
            r.byte_limit_spec() == byte_limit,
    {
        let r = RetransmitRing { frames: Vec::new(), bytes: 0, frame_limit, byte_limit };
        assert(r.frames_view() =~= Seq::<StoredView>::empty());
        r
    }

    /// How many frames are stored.
    pub fn len(&self) -> (n: usize)
        ensures
            n == self.stored().len(),
    {
        self.frames.len()
    }

    /// How many bytes the stored datagrams take.
    pub fn stored_bytes(&self) -> (n: usize)
        requires
            self.wf(),
        ensures
            n == total_bytes(self.stored()),
    {
        self.bytes
    }

    /// A copy of the stored datagrams of the frame at `position` (oldest
    /// first).
    pub fn datagrams_at(&self, position: usize) -> (d: Vec<Vec<u8>>)
        requires
            position < self.stored().len(),
        ensures
            dgram_views(d@) == self.stored()[position as int].datagrams,
    {
        let frame = &self.frames[position];
        let mut d: Vec<Vec<u8>> = Vec::new();
        let mut i: usize = 0;
        while i < frame.datagrams.len()
            invariant
                0 <= i <= frame.datagrams@.len(),
                d@.len() == i,
                dgram_views(d@) == dgram_views(frame.datagrams@).take(i as int),
            decreases frame.datagrams@.len() - i,
        {
            let copy = slice_to_vec(frame.datagrams[i].as_slice());
            assert(copy@ == frame.datagrams@[i as int]@);
            let ghost prev = d@;
            d.push(copy);
            assert(d@ == prev.push(copy));
            assert forall|j: int| 0 <= j < i + 1 implies #[trigger] dgram_views(d@)[j] == dgram_views(frame.datagrams@)[j] by {
                assert(dgram_views(d@)[j] == d@[j]@);
                assert(dgram_views(frame.datagrams@)[j] == frame.datagrams@[j]@);
                if j < i {
                    assert(d@[j] == prev[j]);
                    assert(dgram_views(prev)[j] == prev[j]@);
                    assert(dgram_views(prev)[j] == dgram_views(frame.datagrams@).take(i as int)[j]);
                }
            }
            assert(dgram_views(d@) =~= dgram_views(frame.datagrams@).take(i + 1));
            i = i + 1;
        }
        assert(dgram_views(frame.datagrams@).take(i as int) =~= dgram_views(frame.datagrams@));
        d
    }

    pub fn clear(&mut self)
        requires
            old(self).wf(),
        ensures
            final(self).wf(),
            final(self).stored() == Seq::<StoredView>::empty(),
            final(self).frame_limit_spec() == old(self).frame_limit_spec(),
            final(self).byte_limit_spec() == old(self).byte_limit_spec(),
    {
        self.frames = Vec::new();
        self.bytes = 0;
        assert(self.frames_view() =~= Seq::<StoredView>::empty());
    }

    /// Store a frame's datagrams in their original index order, before any
    /// fault injection.
    pub fn insert(&mut self, epoch: u32, seq: u32, datagrams: Vec<Vec<u8>>)
        requires
            old(self).wf(),
            dgram_bytes(dgram_views(datagrams@)) <= usize::MAX,
        ensures
            final(self).wf(),
            final(self).stored() == insert_spec(
                old(self).stored(),
                epoch,
                seq,
                dgram_views(datagrams@),
                old(self).frame_limit_spec(),
                old(self).byte_limit_spec(),
            ),
            final(self).frame_limit_spec() == old(self).frame_limit_spec(),
            final(self).byte_limit_spec() == old(self).byte_limit_spec(),
    {
        let ghost views = dgram_views(datagrams@);
        let mut bytes: usize = 0;
        let mut i: usize = 0;
        while i < datagrams.len()
            invariant
                0 <= i <= datagrams@.len(),
                views == dgram_views(datagrams@),
                bytes == dgram_bytes(views.take(i as int)),
                dgram_bytes(views) <= usize::MAX,
            decreases datagrams@.len() - i,
        {
            proof {
                assert(views.take(i + 1).drop_last() =~= views.take(i as int));
                lemma_dgram_bytes_prefix(views, i + 1);
            }
            bytes = bytes + datagrams[i].len();
            i = i + 1;
        }
        assert(views.take(i as int) =~= views);
        if datagrams.len() == 0 || bytes > self.byte_limit {
            return;
        }
        let ghost before = self.frames_view();
        // An older copy of the same frame is replaced.
        let mut k: usize = 0;
        while k < self.frames.len()
            invariant
                0 <= k <= self.frames@.len(),
                forall|j: int| 0 <= j < k ==> !(#[trigger] self.frames@[j].epoch == epoch && self.frames@[j].seq == seq),
            ensures
                0 <= k <= self.frames@.len(),
                forall|j: int| 0 <= j < k ==> !(#[trigger] self.frames@[j].epoch == epoch && self.frames@[j].seq == seq),
                k < self.frames@.len() ==> self.frames@[k as int].epoch == epoch && self.frames@[k as int].seq == seq,
            decreases self.frames@.len() - k,
        {
            if self.frames[k].epoch == epoch && self.frames[k].seq == seq {
                break;
            }
            k = k + 1;
        }
        if k < self.frames.len() {
            proof {
                assert(before[k as int].epoch == epoch && before[k as int].seq == seq);
                assert(has_key(before, epoch, seq));
                let c = key_index(before, epoch, seq);
                if c != k {
                    if c < k {
                        assert(before[c].epoch == epoch && before[c].seq == seq);
                    } else {
                        assert(!(before[k as int].epoch == before[c].epoch && before[k as int].seq == before[c].seq));
                    }
                }
                lemma_total_remove(before, k as int);
            }
            let removed = self.frames.remove(k);
            self.bytes = self.bytes - removed.bytes;
            assert(self.frames_view() =~= before.remove(k as int));
        } else {
            assert(!has_key(before, epoch, seq)) by {
                if has_key(before, epoch, seq) {
                    let c = choose|c: int| 0 <= c < before.len() && #[trigger] before[c].epoch == epoch && before[c].seq == seq;
                    assert(self.frames@[c].epoch == epoch);
                }
            }
        }
        let ghost without = self.frames_view();
        assert(keys_unique(without)) by {
            assert forall|a: int, b: int| 0 <= a < b < without.len() implies !(without[a].epoch == without[b].epoch
                && without[a].seq == without[b].seq) by {
                if k < before.len() {
                    let a0 = if a < k { a } else { a + 1 };
                    let b0 = if b < k { b } else { b + 1 };
                    assert(without[a] == before[a0] && without[b] == before[b0]);
                } else {
                    assert(without[a] == before[a] && without[b] == before[b]);
                }
            }
        }
        assert(!has_key(without, epoch, seq)) by {
            if has_key(without, epoch, seq) {
                let c = choose|c: int| 0 <= c < without.len() && #[trigger] without[c].epoch == epoch && without[c].seq == seq;
                if k < before.len() {
                    let c0 = if c < k { c } else { c + 1 };
                    assert(without[c] == before[c0]);
                    assert(!(before[k as int].epoch == before[c0].epoch && before[k as int].seq == before[c0].seq));
                } else {
                    assert(without[c] == before[c]);
                }
            }
        }
        // The oldest frames make room.
        loop
            invariant
                self.bytes == total_bytes(self.frames_view()),
                forall|j: int| 0 <= j < self.frames@.len() ==> (#[trigger] self.frames@[j]).wf(),
                evict(self.frames_view(), bytes as nat, self.frame_limit as nat, self.byte_limit as nat)
                    == evict(without, bytes as nat, self.frame_limit as nat, self.byte_limit as nat),
                self.frames_view().len() <= without.len(),
                self.frames_view() == without.subrange(without.len() - self.frames_view().len(), without.len() as int),
                self.bytes <= self.byte_limit,
                self.byte_limit <= usize::MAX / 2,
                self.frame_limit >= 1,
                bytes <= self.byte_limit,
                self.frame_limit == old(self).frame_limit,
                self.byte_limit == old(self).byte_limit,
            ensures
                self.bytes == total_bytes(self.frames_view()),
                forall|j: int| 0 <= j < self.frames@.len() ==> (#[trigger] self.frames@[j]).wf(),
                self.frames_view() == evict(without, bytes as nat, self.frame_limit as nat, self.byte_limit as nat),
                self.frames_view().len() <= without.len(),
                self.frames_view() == without.subrange(without.len() - self.frames_view().len(), without.len() as int),
                self.frames@.len() == 0 || (self.frames@.len() < self.frame_limit && self.bytes + bytes <= self.byte_limit),
                self.bytes <= self.byte_limit,
            decreases self.frames@.len(),
        {
            if !(self.frames.len() >= self.frame_limit || self.bytes + bytes > self.byte_limit) {
                break;
            }
            if self.frames.len() == 0 {
                break;
            }
            let ghost cur = self.frames_view();
            let front = self.frames.remove(0);
            self.bytes = self.bytes - front.bytes;
            assert(self.frames_view() =~= cur.drop_first());
            assert(without.subrange(without.len() - cur.len() + 1, without.len() as int) =~= cur.drop_first());
        }
        let ghost kept = self.frames_view();
        let count = datagrams.len();
        let mut last_resend: Vec<Option<u64>> = Vec::new();
        let mut j: usize = 0;
        while j < count
            invariant
                0 <= j <= count,
                last_resend@ == Seq::new(j as nat, |x: int| None::<u64>),
            decreases count - j,
        {
            last_resend.push(None);
            assert(last_resend@ =~= Seq::new((j + 1) as nat, |x: int| None::<u64>));
            j = j + 1;
        }
        let frame = StoredFrame { epoch, seq, datagrams, last_resend, bytes };
        proof {
            lemma_total_push(kept, frame.view());
            lemma_evict_shape(without, bytes as nat, self.frame_limit as nat, self.byte_limit as nat);
        }
        self.frames.push(frame);
        self.bytes = self.bytes + bytes;
        assert(self.frames_view() =~= kept.push(frame.view()));
        assert(keys_unique(self.frames_view())) by {
            let f = self.frames_view();
            assert forall|a: int, b: int| 0 <= a < b < f.len() implies !(f[a].epoch == f[b].epoch && f[a].seq == f[b].seq) by {
                let off = without.len() - kept.len();
                if b < kept.len() {
                    assert(f[a] == without[a + off] && f[b] == without[b + off]);
                } else {
                    assert(f[a] == without[a + off]);
                    assert(f[b].epoch == epoch && f[b].seq == seq);
                    if f[a].epoch == epoch && f[a].seq == seq {
                        assert(has_key(without, epoch, seq));
                    }
                }
            }
        }
    }

    /// Send again the requested fragments of frame `(epoch, seq)`: the first
    /// 64 indices are served in order, skipping indices out of range and
    /// indices sent again less than 5 ms ago. A frame that is not stored, or
    /// whose fragment count differs, gets nothing. Only byte 4 of what is
    /// sent differs from the stored datagram, which itself never changes.
    pub fn resend(&mut self, epoch: u32, seq: u32, frag_count: u16, missing: &[u16], now: u64) -> (sent: Vec<Vec<u8>>)
        requires
            old(self).wf(),
        ensures
            final(self).wf(),
            final(self).frame_limit_spec() == old(self).frame_limit_spec(),
            final(self).byte_limit_spec() == old(self).byte_limit_spec(),
            !has_key(old(self).stored(), epoch, seq) ==> sent@.len() == 0 && final(self).stored() == old(self).stored(),
            has_key(old(self).stored(), epoch, seq) ==> ({
                let k = key_index(old(self).stored(), epoch, seq);
                let f = old(self).stored()[k];
                if f.datagrams.len() != frag_count {
                    sent@.len() == 0 && final(self).stored() == old(self).stored()
                } else {
                    let served = if missing@.len() > MAX_RESEND_INDICES { missing@.take(MAX_RESEND_INDICES as int) } else { missing@ };
                    let (out, last) = resend_fold(f.datagrams, f.last_resend, served, now);
                    &&& dgram_views(sent@) == out
                    &&& final(self).stored() == old(self).stored().update(k, StoredView { last_resend: last, ..f })
                }
            }),
    {
        let ghost before = self.frames_view();
        let mut k: usize = 0;
        while k < self.frames.len()
            invariant
                0 <= k <= self.frames@.len(),
                forall|j: int| 0 <= j < k ==> !(#[trigger] self.frames@[j].epoch == epoch && self.frames@[j].seq == seq),
            ensures
                0 <= k <= self.frames@.len(),
                forall|j: int| 0 <= j < k ==> !(#[trigger] self.frames@[j].epoch == epoch && self.frames@[j].seq == seq),
                k < self.frames@.len() ==> self.frames@[k as int].epoch == epoch && self.frames@[k as int].seq == seq,
            decreases self.frames@.len() - k,
        {
            if self.frames[k].epoch == epoch && self.frames[k].seq == seq {
                break;
            }
            k = k + 1;
        }
        if k == self.frames.len() {
            assert(!has_key(before, epoch, seq)) by {
                if has_key(before, epoch, seq) {
                    let c = choose|c: int| 0 <= c < before.len() && #[trigger] before[c].epoch == epoch && before[c].seq == seq;
                    assert(self.frames@[c].epoch == epoch);
                }
            }
            return Vec::new();
        }
        proof {
            assert(before[k as int].epoch == epoch && before[k as int].seq == seq);
            assert(has_key(before, epoch, seq));
            let c = key_index(before, epoch, seq);
            if c != k {
                if c < k {
                    assert(before[c].epoch == epoch && before[c].seq == seq);
                } else {
                    assert(!(before[k as int].epoch == before[c].epoch && before[k as int].seq == before[c].seq));
                }
            }
        }
        if self.frames[k].datagrams.len() != frag_count as usize {
            return Vec::new();
        }
        let mut frame = self.frames.remove(k);
        let ghost f = frame.view();
        let ghost views = f.datagrams;
        let limit: usize = if missing.len() > MAX_RESEND_INDICES { MAX_RESEND_INDICES } else { missing.len() };
        let ghost served = if missing@.len() > MAX_RESEND_INDICES { missing@.take(MAX_RESEND_INDICES as int) } else { missing@ };
        assert(served =~= missing@.take(limit as int));
        let mut sent: Vec<Vec<u8>> = Vec::new();
        let mut i: usize = 0;
        while i < limit
            invariant
                0 <= i <= limit,
                limit <= missing@.len(),
                frame.wf(),
                frame.epoch == f.epoch,
                frame.seq == f.seq,
                frame.datagrams@ == old(self).frames@[k as int].datagrams@,
                views == dgram_views(frame.datagrams@),
                f == old(self).frames@[k as int].view(),
                (dgram_views(sent@), frame.last_resend@) == resend_fold(views, f.last_resend, missing@.take(i as int), now),
            decreases limit - i,
        {
            assert(missing@.take(i + 1).drop_last() =~= missing@.take(i as int));
            let index = missing[i];
            let ghost prev_sent = sent@;
            if (index as usize) < frame.datagrams.len() {
                let recent = match frame.last_resend[index as usize] {
                    Some(last) => now < last || now - last < RESEND_INTERVAL_US,
                    None => false,
                };
                if !recent && frame.datagrams[index as usize].len() > 4 {
                    let mut datagram = slice_to_vec(frame.datagrams[index as usize].as_slice());
                    let flags = datagram[4] | MEDIA_FLAG_RETRANSMIT;
                    datagram.set(4, flags);
                    assert(datagram@ == flagged(views[index as int]));
                    frame.last_resend.set(index as usize, Some(now));
                    sent.push(datagram);
                    assert(dgram_views(sent@) =~= dgram_views(prev_sent).push(flagged(views[index as int])));
                }
            }
            i = i + 1;
        }
        self.frames.insert(k, frame);
        assert(self.frames_view() =~= before.update(k as int, StoredView { last_resend: frame.last_resend@, ..f }));
        assert(keys_unique(self.frames_view())) by {
            let g = self.frames_view();
            assert forall|a: int, b: int| 0 <= a < b < g.len() implies !(g[a].epoch == g[b].epoch && g[a].seq == g[b].seq) by {
                assert(g[a].epoch == before[a].epoch && g[a].seq == before[a].seq);
                assert(g[b].epoch == before[b].epoch && g[b].seq == before[b].seq);
            }
        }
        proof {
            lemma_total_update_resend(before, k as int, frame.last_resend@);
        }
        sent
    }
}

proof fn lemma_total_update_resend(frames: Seq<StoredView>, k: int, last: Seq<Option<u64>>)
    requires
        0 <= k < frames.len(),
    ensures
        total_bytes(frames.update(k, StoredView { last_resend: last, ..frames[k] })) == total_bytes(frames),
    decreases frames.len(),
{
    let u = frames.update(k, StoredView { last_resend: last, ..frames[k] });
    if k > 0 {
        assert(u.drop_first() =~= frames.drop_first().update(k - 1, StoredView { last_resend: last, ..frames[k] }));
        lemma_total_update_resend(frames.drop_first(), k - 1, last);
    } else {
        assert(u.drop_first() =~= frames.drop_first());
    }
}

impl Default for RetransmitRing {
    fn default() -> (r: Self)
        ensures
            r.wf(),
            r.stored() == Seq::<StoredView>::empty(),
            r.frame_limit_spec() == FRAME_LIMIT,
            r.byte_limit_spec() == BYTE_LIMIT,
    {
        RetransmitRing::new()
    }
}

/// What is stored can be read back: right after a frame is stored it is
/// found under its key with the datagrams given, none of them resent yet,
/// and a request for one of its fragments is answered with that datagram,
/// flagged as a retransmission.
pub proof fn lemma_stored_frame_is_served(
    frames: Seq<StoredView>,
    epoch: u32,
    seq: u32,
    datagrams: Seq<Seq<u8>>,
    frame_limit: nat,
    byte_limit: nat,
    index: u16,
    now: u64,
)
    requires
        keys_unique(frames),
        datagrams.len() > 0,
        dgram_bytes(datagrams) <= byte_limit,
        index < datagrams.len(),
        datagrams[index as int].len() > 4,
    ensures
        ({
            let after = insert_spec(frames, epoch, seq, datagrams, frame_limit, byte_limit);
            let k = key_index(after, epoch, seq);
            &&& has_key(after, epoch, seq)
            &&& after[k].datagrams == datagrams
            &&& after[k].last_resend == Seq::new(datagrams.len(), |i: int| None::<u64>)
            &&& resend_fold(after[k].datagrams, after[k].last_resend, seq![index], now).0
                == seq![flagged(datagrams[index as int])]
        }),
{
    let n = dgram_bytes(datagrams);
    let without = if has_key(frames, epoch, seq) { frames.remove(key_index(frames, epoch, seq)) } else { frames };
    assert(!has_key(without, epoch, seq)) by {
        if has_key(frames, epoch, seq) {
            let r = key_index(frames, epoch, seq);
            if has_key(without, epoch, seq) {
                let j = choose|j: int| 0 <= j < without.len() && #[trigger] without[j].epoch == epoch && without[j].seq == seq;
                if j < r {
                    assert(without[j] == frames[j]);
                } else {
                    assert(without[j] == frames[j + 1]);
                }
            }
        }
    }
    lemma_evict_shape(without, n, frame_limit, byte_limit);
    let e = evict(without, n, frame_limit, byte_limit);
    assert(!has_key(e, epoch, seq)) by {
        if has_key(e, epoch, seq) {
            let j = choose|j: int| 0 <= j < e.len() && #[trigger] e[j].epoch == epoch && e[j].seq == seq;
            assert(e[j] == without[without.len() - e.len() + j]);
        }
    }
    let fresh = StoredView { epoch, seq, datagrams, last_resend: Seq::new(datagrams.len(), |i: int| None::<u64>) };
    let after = e.push(fresh);
    assert(after == insert_spec(frames, epoch, seq, datagrams, frame_limit, byte_limit));
    assert(after[e.len() as int].epoch == epoch && after[e.len() as int].seq == seq);
    assert(has_key(after, epoch, seq));
    let k = key_index(after, epoch, seq);
    assert(k == e.len()) by {
        if k < e.len() {
            assert(after[k] == e[k]);
        }
    }
    let m = seq![index];
    assert(m.drop_last() =~= Seq::<u16>::empty());
    assert(resend_fold(datagrams, fresh.last_resend, m.drop_last(), now) == (Seq::<Seq<u8>>::empty(), fresh.last_resend));
    assert(resend_fold(datagrams, fresh.last_resend, m, now).0 =~= seq![flagged(datagrams[index as int])]);
}

impl RetransmitRing {
    /// The ring never holds more frames or bytes than its limits allow, and
    /// never two copies of one frame.
    pub proof fn lemma_ring_bounded(&self)
        requires
            self.wf(),
        ensures
            self.stored().len() <= self.frame_limit_spec(),
            total_bytes(self.stored()) <= self.byte_limit_spec(),
            keys_unique(self.stored()),
    {
    }
}

} // verus!
