//! Deterministic first-transmission faults for stream tests: drops,
//! adjacent reorders and bounded jitter, driven by a xorshift generator
//! with a fixed seed. Control traffic and repair datagrams bypass it.
//!
//! Times are nanoseconds on the caller's monotonic clock. Rates are
//! thresholds on a 53-bit draw: a draw `x` hits a rate when
//! `x < threshold`, so a threshold of `DRAW_SCALE` always hits and 0 never.

use vstd::prelude::*;

verus! {

pub const QUEUE_LIMIT: usize = 4096;
/// How long a held datagram waits for a successor to swap with.
pub const REORDER_WAIT_NS: u64 = 1_000_000;
/// Two to the 53rd: the number of distinct draws.
pub const DRAW_SCALE: u64 = 0x20_0000_0000_0000;
pub const SEED: u64 = 0x9E37_79B9_7F4A_7C15;

/// One xorshift64 step.
pub open spec fn xorshift(r: u64) -> u64 {
    let a = r ^ (r << 13u64);
    let b = a ^ (a >> 7u64);
    b ^ (b << 17u64)
}

/// The 53-bit draw a generator state gives.
pub open spec fn draw_of(r: u64) -> u64 {
    r >> 11u64
}

/// The delay that a draw `x` makes of the jitter bound.
pub open spec fn jitter_delay(jitter_ns: u64, x: u64) -> int {
    (jitter_ns * x) / (DRAW_SCALE as int)
}

/// A scheduled datagram: due time, arrival order, bytes.
pub type EntryView = (u64, u64, Seq<u8>);

pub open spec fn key_lt(a: (u64, u64), b: (u64, u64)) -> bool {
    a.0 < b.0 || (a.0 == b.0 && a.1 < b.1)
}

pub open spec fn key_of(e: EntryView) -> (u64, u64) {
    (e.0, e.1)
}

/// Strictly increasing by (due time, order).
pub open spec fn sorted(q: Seq<EntryView>) -> bool {
    forall|i: int, j: int| 0 <= i < j < q.len() ==> key_lt(key_of(q[i]), key_of(q[j]))
}

/// `p` splits `q` into the keys below `k` and the rest.
pub open spec fn is_position(q: Seq<EntryView>, k: (u64, u64), p: int) -> bool {
    &&& 0 <= p <= q.len()
    &&& forall|i: int| 0 <= i < p ==> key_lt(key_of(q[i]), k)
    &&& forall|i: int| p <= i < q.len() ==> !key_lt(key_of(q[i]), k)
}

pub open spec fn position(q: Seq<EntryView>, k: (u64, u64)) -> int {
    choose|p: int| is_position(q, k, p)
}

/// `q` with `d` filed under `k`; an entry with the same key is replaced.
pub open spec fn insert_key(q: Seq<EntryView>, k: (u64, u64), d: Seq<u8>) -> Seq<EntryView> {
    let p = position(q, k);
    if p < q.len() && key_of(q[p]) == k { q.update(p, (k.0, k.1, d)) } else { q.insert(p, (k.0, k.1, d)) }
}

/// How many leading entries are due at `now`.
pub open spec fn due_count(q: Seq<EntryView>, now: u64) -> nat
    decreases q.len(),
{
    if q.len() == 0 || q[0].0 > now { 0 } else { 1 + due_count(q.drop_first(), now) }
}

/// The fixed settings of an injector.
#[derive(Clone, Copy, Debug, PartialEq, Eq)]
pub struct FaultConfig {
    pub drop_threshold: u64,
    pub reorder_threshold: u64,
    pub jitter_ns: u64,
}

/// The state of an injector as values.
pub struct FaultModel {
    pub rng: u64,
    pub order: u64,
    pub queue: Seq<EntryView>,
    pub held: Option<(u64, Seq<u8>)>,
}

/// Scheduling `d` at `at`: unless the queue is full, one draw picks the
/// delay and the datagram is filed under (at + delay, next order).
pub open spec fn schedule_spec(cfg: FaultConfig, m: FaultModel, d: Seq<u8>, at: u64) -> FaultModel {
    if m.queue.len() >= QUEUE_LIMIT {
        m
    } else {
        let r = xorshift(m.rng);
        let o = (if m.order == u64::MAX { 0 } else { m.order + 1 }) as u64;
        let due = (at + jitter_delay(cfg.jitter_ns, draw_of(r))) as u64;
        FaultModel { rng: r, order: o, queue: insert_key(m.queue, (due, o), d), held: m.held }
    }
}

/// Draining at `now`: a held datagram whose wait is over is scheduled at
/// the end of its wait, then every due datagram leaves in key order.
pub open spec fn drain_spec(cfg: FaultConfig, m: FaultModel, now: u64) -> (FaultModel, Seq<Seq<u8>>) {
    let m1 = match m.held {
        Some((at, d)) => if at <= now {
            schedule_spec(cfg, FaultModel { rng: m.rng, order: m.order, queue: m.queue, held: None }, d, at)
        } else {
            m
        },
        None => m,
    };
    let c = due_count(m1.queue, now) as int;
    (
        FaultModel { rng: m1.rng, order: m1.order, queue: m1.queue.subrange(c, m1.queue.len() as int), held: m1.held },
        m1.queue.subrange(0, c).map_values(|e: EntryView| e.2),
    )
}

/// The model with the generator advanced once.
pub open spec fn advanced(m: FaultModel) -> FaultModel {
    FaultModel { rng: xorshift(m.rng), order: m.order, queue: m.queue, held: m.held }
}

/// What happens to a new datagram once the due ones have left: dropped on
/// a drop draw; sent behind it when one is held; held on a reorder draw;
/// else scheduled.
pub open spec fn admit_spec(cfg: FaultConfig, m: FaultModel, d: Seq<u8>, now: u64) -> (FaultModel, bool) {
    if cfg.drop_threshold > 0 && draw_of(xorshift(m.rng)) < cfg.drop_threshold {
        (advanced(m), true)
    } else {
        let m2 = if cfg.drop_threshold > 0 { advanced(m) } else { m };
        match m2.held {
            Some((_, prev)) => {
                let m3 = FaultModel { rng: m2.rng, order: m2.order, queue: m2.queue, held: None };
                (schedule_spec(cfg, schedule_spec(cfg, m3, d, now), prev, now), false)
            },
            None => if cfg.reorder_threshold > 0 && draw_of(xorshift(m2.rng)) < cfg.reorder_threshold {
                let m3 = advanced(m2);
                (FaultModel { rng: m3.rng, order: m3.order, queue: m3.queue, held: Some(((now + REORDER_WAIT_NS) as u64, d)) }, false)
            } else {
                let m3 = if cfg.reorder_threshold > 0 { advanced(m2) } else { m2 };
                (schedule_spec(cfg, m3, d, now), false)
            },
        }
    }
}

/// A push: drain, then place the datagram, then drain again; a dropped
/// datagram leaves only the first drain.
pub open spec fn push_spec(cfg: FaultConfig, m: FaultModel, d: Seq<u8>, now: u64) -> (FaultModel, Seq<Seq<u8>>) {
    let (m1, out1) = drain_spec(cfg, m, now);
    let (m2, dropped) = admit_spec(cfg, m1, d, now);
    if dropped {
        (m2, out1)
    } else {
        let (m3, out2) = drain_spec(cfg, m2, now);
        (m3, out1 + out2)
    }
}

struct Scheduled {
    at: u64,
    order: u64,
    datagram: Vec<u8>,
}

impl Scheduled {
    spec fn view(&self) -> EntryView {
        (self.at, self.order, self.datagram@)
    }
}

pub struct FaultInjector {
    config: FaultConfig,
    rng: u64,
    order: u64,
    queue: Vec<Scheduled>,
    held: Option<(u64, Vec<u8>)>,
}

pub open spec fn held_view(h: Option<(u64, Vec<u8>)>) -> Option<(u64, Seq<u8>)> {
    match h {
        Some((at, d)) => Some((at, d@)),
        None => None,
    }
}

proof fn lemma_position_unique(q: Seq<EntryView>, k: (u64, u64), p: int)
    requires
        is_position(q, k, p),
    ensures
        position(q, k) == p,
{
    let c = position(q, k);
    assert(is_position(q, k, c));
    if c < p {
        assert(key_lt(key_of(q[c]), k));
    } else if c > p {
        assert(key_lt(key_of(q[p]), k));
    }
}

proof fn lemma_due_prefix(q: Seq<EntryView>, now: u64)
    requires
        sorted(q),
    ensures
        due_count(q, now) <= q.len(),
        forall|i: int| 0 <= i < due_count(q, now) ==> q[i].0 <= now,
        due_count(q, now) < q.len() ==> q[due_count(q, now) as int].0 > now,
    decreases q.len(),
{
    if q.len() > 0 && q[0].0 <= now {
        let r = q.drop_first();
        assert(sorted(r)) by {
            assert forall|i: int, j: int| 0 <= i < j < r.len() implies key_lt(key_of(r[i]), key_of(r[j])) by {
                assert(r[i] == q[i + 1] && r[j] == q[j + 1]);
            }
        }
        lemma_due_prefix(r, now);
        assert forall|i: int| 0 <= i < due_count(q, now) implies q[i].0 <= now by {
            if i > 0 {
                assert(q[i] == r[i - 1]);
            }
        }
        if due_count(q, now) < q.len() {
            assert(q[due_count(q, now) as int] == r[due_count(r, now) as int]);
        }
    }
}

fn entry_before(e: &Scheduled, due: u64, order: u64) -> (b: bool)
    ensures
        b == key_lt(key_of(e@), (due, order)),
{
    e.at < due || (e.at == due && e.order < order)
}

impl FaultInjector {
    pub closed spec fn cfg(&self) -> FaultConfig {
        self.config
    }

    pub closed spec fn queue_view(&self) -> Seq<EntryView> {
        self.queue@.map_values(|e: Scheduled| e@)
    }

    pub closed spec fn model(&self) -> FaultModel {
        FaultModel { rng: self.rng, order: self.order, queue: self.queue_view(), held: held_view(self.held) }
    }

    /// The queue is ordered by key and bounded.
    pub closed spec fn wf(&self) -> bool {
        &&& sorted(self.queue_view())
        &&& self.queue@.len() <= QUEUE_LIMIT
    }

    pub fn new(drop_threshold: u64, reorder_threshold: u64, jitter_ns: u64) -> (f: Self)
        ensures
            f.wf(),
            f.cfg() == (FaultConfig { drop_threshold, reorder_threshold, jitter_ns }),
            f.model().rng == SEED,
            f.model().order == 0,
            f.model().queue == Seq::<EntryView>::empty(),
            f.model().held is None,
    {
        let f = FaultInjector {
            config: FaultConfig { drop_threshold, reorder_threshold, jitter_ns },
            rng: SEED,
            order: 0,
            queue: Vec::new(),
            held: None,
        };
        assert(f.queue_view() =~= Seq::<EntryView>::empty());
        f
    }

    /// Whether any fault is configured.
    pub fn enabled(&self) -> (e: bool)
        ensures
            e == (self.cfg().drop_threshold > 0 || self.cfg().reorder_threshold > 0 || self.cfg().jitter_ns > 0),
    {
        self.config.drop_threshold > 0 || self.config.reorder_threshold > 0 || self.config.jitter_ns > 0
    }

    /// Forget everything queued or held (a new session starts).
    pub fn clear(&mut self)
        requires
            old(self).wf(),
        ensures
            final(self).wf(),
            final(self).cfg() == old(self).cfg(),
            final(self).model().rng == old(self).model().rng,
            final(self).model().order == old(self).model().order,
            final(self).model().queue == Seq::<EntryView>::empty(),
            final(self).model().held is None,
    {
        self.queue = Vec::new();
        self.held = None;
        assert(self.queue_view() =~= Seq::<EntryView>::empty());
    }

    /// How many datagrams wait in the queue.
    pub fn queue_len(&self) -> (n: usize)
        ensures
            n == self.model().queue.len(),
    {
        self.queue.len()
    }

    /// The due times of the queued datagrams, in queue order.
    pub fn due_times(&self) -> (t: Vec<u64>)
        ensures
            t@.len() == self.model().queue.len(),
            forall|i: int| 0 <= i < t@.len() ==> t@[i] == self.model().queue[i].0,
    {
        let mut t: Vec<u64> = Vec::new();
        let mut i: usize = 0;
        while i < self.queue.len()
            invariant
                0 <= i <= self.queue@.len(),
                t@.len() == i,
                forall|j: int| 0 <= j < i ==> t@[j] == self.queue_view()[j].0,
            decreases self.queue@.len() - i,
        {
            t.push(self.queue[i].at);
            i = i + 1;
        }
        t
    }

    fn random(&mut self) -> (x: u64)
        ensures
            final(self).rng == xorshift(old(self).rng),
            x == draw_of(final(self).rng),
            x < DRAW_SCALE,
            final(self).config == old(self).config,
            final(self).order == old(self).order,
            final(self).queue == old(self).queue,
            final(self).held == old(self).held,
    {
        let r0 = self.rng;
        let a = r0 ^ (r0 << 13u64);
        let b = a ^ (a >> 7u64);
        let r = b ^ (b << 17u64);
        self.rng = r;
        let x = r >> 11u64;
        assert(x < 0x20_0000_0000_0000u64) by (bit_vector)
            requires
                x == r >> 11u64,
        ;
        x
    }

    fn delay(jitter_ns: u64, x: u64) -> (d: u64)
        requires
            x < DRAW_SCALE,
        ensures
            d == jitter_delay(jitter_ns, x),
            d <= jitter_ns,
    {
        assert((jitter_ns as u128) * (x as u128) <= 0xffff_ffff_ffff_ffffu128 * 0x20_0000_0000_0000u128) by (nonlinear_arith)
            requires
                x < 0x20_0000_0000_0000u64,
        ;
        let product: u128 = (jitter_ns as u128) * (x as u128);
        let shifted = product >> 53u128;
        assert(shifted == product / 0x20_0000_0000_0000u128) by (bit_vector)
            requires
                shifted == product >> 53u128,
        ;
        assert(product / 0x20_0000_0000_0000u128 <= jitter_ns) by (nonlinear_arith)
            requires
                product == jitter_ns * x,
                x < 0x20_0000_0000_0000u64,
        ;
        shifted as u64
    }

    fn schedule(&mut self, datagram: Vec<u8>, at: u64)
        requires
            old(self).wf(),
            at + old(self).config.jitter_ns <= u64::MAX,
        ensures
            final(self).wf(),
            final(self).config == old(self).config,
            final(self).model() == schedule_spec(old(self).config, old(self).model(), datagram@, at),
    {
        let ghost m = self.model();
        if self.queue.len() >= QUEUE_LIMIT {
            return;
        }
        let x = self.random();
        let delay = Self::delay(self.config.jitter_ns, x);
        self.order = self.order.wrapping_add(1);
        let due = at + delay;
        let order = self.order;
        let ghost q = self.queue_view();
        let ghost k = (due, order);
        let n = self.queue.len();
        let mut p: usize = 0;
        while p < n && entry_before(&self.queue[p], due, order)
            invariant
                n == self.queue@.len(),
                q == self.queue_view(),
                k == (due, order),
                0 <= p <= n,
                forall|i: int| 0 <= i < p ==> key_lt(key_of(q[i]), k),
            decreases n - p,
        {
            assert(q[p as int] == self.queue@[p as int]@);
            p = p + 1;
        }
        assert(is_position(q, k, p as int)) by {
            assert forall|i: int| p <= i < q.len() implies !key_lt(key_of(q[i]), k) by {
                if i > p {
                    assert(key_lt(key_of(q[p as int]), key_of(q[i])));
                }
            }
        }
        proof {
            lemma_position_unique(q, k, p as int);
        }
        let entry = Scheduled { at: due, order, datagram };
        if p < n && self.queue[p].at == due && self.queue[p].order == order {
            self.queue.remove(p);
            self.queue.insert(p, entry);
            assert(self.queue_view() =~= q.update(p as int, (due, order, entry.datagram@)));
        } else {
            self.queue.insert(p, entry);
            assert(self.queue_view() =~= q.insert(p as int, (due, order, entry.datagram@)));
            assert(sorted(self.queue_view())) by {
                let nq = self.queue_view();
                assert forall|i: int, j: int| 0 <= i < j < nq.len() implies key_lt(key_of(nq[i]), key_of(nq[j])) by {
                    if j < p {
                    } else if j == p {
                    } else if i < p {
                        assert(nq[j] == q[j - 1]);
                    } else if i == p {
                        assert(nq[j] == q[j - 1]);
                    } else {
                        assert(nq[i] == q[i - 1] && nq[j] == q[j - 1]);
                    }
                }
            }
        }
        assert(self.model() == schedule_spec(self.config, m, entry.datagram@, at));
    }

    /// Hand out everything due at `now`, in due order.
    pub fn drain_due(&mut self, now: u64) -> (ready: Vec<Vec<u8>>)
        requires
            old(self).wf(),
            now + old(self).cfg().jitter_ns <= u64::MAX,
        ensures
            final(self).wf(),
            final(self).cfg() == old(self).cfg(),
            (final(self).model(), ready@.map_values(|d: Vec<u8>| d@)) == drain_spec(old(self).cfg(), old(self).model(), now),
    {
        let ghost m = self.model();
        let take_held = match &self.held {
            Some((at, _)) => *at <= now,
            None => false,
        };
        if take_held {
            let held = self.held.take();
            match held {
                Some((at, datagram)) => {
                    self.schedule(datagram, at);
                },
                None => {},
            }
        }
        let ghost m1 = self.model();
        let ghost q = self.queue_view();
        proof {
            lemma_due_prefix(q, now);
        }
        let mut ready: Vec<Vec<u8>> = Vec::new();
        let mut taken: usize = 0;
        let ghost cfg0 = self.config;
        assert(q.subrange(0, q.len() as int) =~= q);
        assert(ready@.map_values(|d: Vec<u8>| d@) =~= q.subrange(0, 0).map_values(|e: EntryView| e.2));
        while self.queue.len() > 0 && self.queue[0].at <= now
            invariant
                self.wf(),
                self.config == cfg0,
                self.rng == m1.rng,
                self.order == m1.order,
                held_view(self.held) == m1.held,
                q == m1.queue,
                sorted(q),
                q.len() <= QUEUE_LIMIT,
                taken <= q.len(),
                self.queue_view() == q.subrange(taken as int, q.len() as int),
                ready@.map_values(|d: Vec<u8>| d@) == q.subrange(0, taken as int).map_values(|e: EntryView| e.2),
                due_count(q, now) == taken + due_count(self.queue_view(), now),
            decreases self.queue@.len(),
        {
            let ghost cur = self.queue_view();
            let ghost before = ready@.map_values(|d: Vec<u8>| d@);
            assert(cur[0] == self.queue[0]@);
            let e = self.queue.remove(0);
            assert(self.queue_view() =~= cur.drop_first());
            assert(cur.drop_first() =~= q.subrange(taken + 1, q.len() as int));
            assert(sorted(self.queue_view())) by {
                let nq = self.queue_view();
                assert forall|i: int, j: int| 0 <= i < j < nq.len() implies key_lt(key_of(nq[i]), key_of(nq[j])) by {
                    assert(nq[i] == cur[i + 1] && nq[j] == cur[j + 1]);
                }
            }
            assert(e@ == cur[0]);
            assert(q[taken as int] == cur[0]);
            ready.push(e.datagram);
            assert(ready@.map_values(|d: Vec<u8>| d@) =~= before.push(cur[0].2));
            assert(q.subrange(0, taken + 1).map_values(|e: EntryView| e.2) =~= q.subrange(0, taken as int).map_values(|e: EntryView| e.2).push(q[taken as int].2));
            taken = taken + 1;
        }
        proof {
            if self.queue_view().len() > 0 {
                assert(self.queue_view()[0] == self.queue[0]@);
            }
        }
        ready
    }

    /// Take a datagram for first transmission at `now`: returns what is
    /// due to go out now, in order.
    pub fn push(&mut self, datagram: &[u8], now: u64) -> (ready: Vec<Vec<u8>>)
        requires
            old(self).wf(),
            now + old(self).cfg().jitter_ns + REORDER_WAIT_NS <= u64::MAX,
        ensures
            final(self).wf(),
            final(self).cfg() == old(self).cfg(),
            (final(self).model(), ready@.map_values(|d: Vec<u8>| d@)) == push_spec(old(self).cfg(), old(self).model(), datagram@, now),
    {
        let ghost cfg = self.config;
        let mut ready = self.drain_due(now);
        let ghost m1 = self.model();
        let ghost out1 = ready@.map_values(|d: Vec<u8>| d@);
        if self.config.drop_threshold > 0 {
            let x = self.random();
            if x < self.config.drop_threshold {
                assert(self.model() == advanced(m1));
                return ready;
            }
        }
        let held = self.held.take();
        match held {
            Some((_, previous)) => {
                self.schedule(vstd::slice::slice_to_vec(datagram), now);
                self.schedule(previous, now);
            },
            None => {
                let mut hold = false;
                if self.config.reorder_threshold > 0 {
                    let x = self.random();
                    hold = x < self.config.reorder_threshold;
                }
                if hold {
                    self.held = Some((now + REORDER_WAIT_NS, vstd::slice::slice_to_vec(datagram)));
                } else {
                    self.schedule(vstd::slice::slice_to_vec(datagram), now);
                }
            },
        }
        assert(self.model() == admit_spec(cfg, m1, datagram@, now).0);
        let mut more = self.drain_due(now);
        let ghost out2 = more@.map_values(|d: Vec<u8>| d@);
        ready.append(&mut more);
        assert(ready@.map_values(|d: Vec<u8>| d@) =~= out1 + out2);
        ready
    }

    /// When something next falls due: the earliest queued due time or the
    /// end of the held datagram's wait.
    pub fn next_deadline(&self) -> (d: Option<u64>)
        requires
            self.wf(),
        ensures
            d == next_deadline_spec(self.model()),
    {
        let first = if self.queue.len() > 0 { Some(self.queue[0].at) } else { None };
        proof {
            if self.queue@.len() > 0 {
                assert(self.queue_view()[0] == self.queue@[0]@);
            }
        }
        match (&self.held, first) {
            (Some((at, _)), Some(q)) => Some(if *at < q { *at } else { q }),
            (Some((at, _)), None) => Some(*at),
            (None, f) => f,
        }
    }
}

/// The earliest of the first queued due time and the held wait's end.
pub open spec fn next_deadline_spec(m: FaultModel) -> Option<u64> {
    let first: Option<u64> = if m.queue.len() > 0 { Some(m.queue[0].0) } else { None };
    match (m.held, first) {
        (Some((at, _)), Some(q)) => Some(if at < q { at } else { q }),
        (Some((at, _)), None) => Some(at),
        (None, f) => f,
    }
}

/// A draw never reaches `DRAW_SCALE`, so the delay a draw picks lies
/// between zero and the jitter bound: a datagram never leaves before it
/// was handed over, nor later than the bound after.
pub proof fn lemma_delay_within_jitter(jitter_ns: u64, r: u64)
    ensures
        draw_of(r) < DRAW_SCALE,
        0 <= jitter_delay(jitter_ns, draw_of(r)) <= jitter_ns,
{
    let x = draw_of(r);
    assert(x < 0x20_0000_0000_0000u64) by (bit_vector)
        requires
            x == r >> 11u64,
    ;
    assert(0 <= (jitter_ns * x) / 0x20_0000_0000_0000int <= jitter_ns) by (nonlinear_arith)
        requires
            x < 0x20_0000_0000_0000u64,
    ;
}

/// With a drop threshold of at least `DRAW_SCALE` (a rate of one) every
/// datagram is dropped: a push only hands out what was already due.
pub proof fn lemma_certain_drop(cfg: FaultConfig, m: FaultModel, d: Seq<u8>, now: u64)
    requires
        cfg.drop_threshold >= DRAW_SCALE,
    ensures
        admit_spec(cfg, m, d, now).1,
        push_spec(cfg, m, d, now).1 == drain_spec(cfg, m, now).1,
        push_spec(cfg, m, d, now).0.queue == drain_spec(cfg, m, now).0.queue,
{
    lemma_delay_within_jitter(0, xorshift(drain_spec(cfg, m, now).0.rng));
    lemma_delay_within_jitter(0, xorshift(m.rng));
}

/// Without faults a datagram goes out at once and nothing is kept.
pub proof fn lemma_no_faults_pass_through(cfg: FaultConfig, m: FaultModel, d: Seq<u8>, now: u64)
    requires
        cfg.drop_threshold == 0,
        cfg.reorder_threshold == 0,
        cfg.jitter_ns == 0,
        m.queue.len() == 0,
        m.held is None,
    ensures
        push_spec(cfg, m, d, now).1 == seq![d],
        push_spec(cfg, m, d, now).0.queue.len() == 0,
        push_spec(cfg, m, d, now).0.held is None,
{
    let (m1, out1) = drain_spec(cfg, m, now);
    assert(m1.queue =~= Seq::<EntryView>::empty());
    assert(out1 =~= Seq::<Seq<u8>>::empty());
    let r = xorshift(m1.rng);
    let o = (if m1.order == u64::MAX { 0 } else { m1.order + 1 }) as u64;
    lemma_delay_within_jitter(0, r);
    let k = (now, o);
    assert(is_position(m1.queue, k, 0));
    lemma_position_unique(m1.queue, k, 0);
    let m2 = admit_spec(cfg, m1, d, now).0;
    assert(m2.queue =~= seq![(now, o, d)]);
    assert(due_count(m2.queue.drop_first(), now) == 0);
    assert(due_count(m2.queue, now) == 1);
    let (m3, out2) = drain_spec(cfg, m2, now);
    assert(out2 =~= seq![d]);
    assert(out1 + out2 =~= seq![d]);
}

impl FaultInjector {
    /// The queue never holds more than `QUEUE_LIMIT` datagrams.
    pub proof fn lemma_queue_bounded(&self)
        requires
            self.wf(),
        ensures
            self.model().queue.len() <= QUEUE_LIMIT,
            sorted(self.model().queue),
    {
        assert(self.queue_view().len() == self.queue@.len());
    }
}

} // verus!