//! The per-connection input relay: session-scoped edge deduplication, pen
//! stroke ordering, and the record of what is held down so that a session
//! that ends never leaves a key, button or pen tip stuck.
//!
//! The relay does not touch the desktop itself: each call returns the
//! injections to perform, in order, and the caller hands them to the native
//! backend.

use vstd::prelude::*;
use crate::input::{
    is_edge, resolve, resolve_spec, geometry_fits, CaptureGeometry, EventDeduper, InputEvent,
    Injection, PenPhase, PenSample, VirtualScreen, KIND_PENCIL, PHASE_CANCELLED, RECENT_EDGE_IDS,
};

verus! {

/// Keys are held as (scan code, extended) pairs, ordered by scan code and
/// then with the plain key before the extended one.
pub open spec fn key_lt(a: (u16, bool), b: (u16, bool)) -> bool {
    a.0 < b.0 || (a.0 == b.0 && !a.1 && b.1)
}

pub open spec fn strictly_sorted(s: Seq<(u16, bool)>) -> bool {
    forall|i: int, j: int| 0 <= i < j < s.len() ==> key_lt(s[i], s[j])
}

/// The held keys in release order: ascending.
pub open spec fn sorted_keys(keys: Set<(u16, bool)>) -> Seq<(u16, bool)> {
    choose|s: Seq<(u16, bool)>| strictly_sorted(s) && s.to_set() == keys
}

pub open spec fn key_ups(keys: Seq<(u16, bool)>) -> Seq<Injection> {
    keys.map_values(|k: (u16, bool)| Injection::KeyUp { scan: k.0, extended: k.1 })
}

/// What a relay holds down: keys, mouse buttons, the last pointer position
/// and the pen contact or hover.
pub struct HeldState {
    pub keys: Set<(u16, bool)>,
    pub left: bool,
    pub right: bool,
    pub middle: bool,
    pub pointer: (u16, u16),
    pub pen: Option<PenSample>,
}

pub open spec fn held_empty(pointer: (u16, u16)) -> HeldState {
    HeldState { keys: Set::empty(), left: false, right: false, middle: false, pointer, pen: None }
}

pub open spec fn pen_released(phase: PenPhase) -> bool {
    phase == PenPhase::Up || phase == PenPhase::Leave || phase == PenPhase::Cancel
}

/// The effect of one performed injection on what is held.
pub open spec fn held_step(s: HeldState, inj: Injection) -> HeldState {
    match inj {
        Injection::Pen(sample) => HeldState {
            pen: if pen_released(sample.phase) { None } else { Some(sample) },
            ..s
        },
        Injection::KeyDown { scan, extended } => HeldState { keys: s.keys.insert((scan, extended)), ..s },
        Injection::KeyUp { scan, extended } => HeldState { keys: s.keys.remove((scan, extended)), ..s },
        Injection::MoveAbs { x, y } => HeldState { pointer: (x, y), ..s },
        Injection::LeftDown { .. } => HeldState { left: true, ..s },
        Injection::LeftUp { .. } => HeldState { left: false, ..s },
        Injection::RightDown { .. } => HeldState { right: true, ..s },
        Injection::RightUp { .. } => HeldState { right: false, ..s },
        Injection::MiddleDown { .. } => HeldState { middle: true, ..s },
        Injection::MiddleUp { .. } => HeldState { middle: false, ..s },
        _ => s,
    }
}

/// The effect of a batch of performed injections, first to last.
pub open spec fn held_after(s: HeldState, injs: Seq<Injection>) -> HeldState
    decreases injs.len(),
{
    if injs.len() == 0 {
        s
    } else {
        held_step(held_after(s, injs.drop_last()), injs.last())
    }
}

/// The injections that let go of everything held: key-ups in ascending key
/// order, then the held buttons at the pointer (left, right, middle), then a
/// cancel of a pen contact or a leave of a hovering pen, with zero pressure.
pub open spec fn release_spec(s: HeldState) -> Seq<Injection> {
    let (x, y) = s.pointer;
    key_ups(sorted_keys(s.keys))
        + (if s.left { seq![Injection::LeftUp { x, y }] } else { seq![] })
        + (if s.right { seq![Injection::RightUp { x, y }] } else { seq![] })
        + (if s.middle { seq![Injection::MiddleUp { x, y }] } else { seq![] })
        + (match s.pen {
            Some(p) => seq![Injection::Pen(PenSample {
                phase: if p.phase == PenPhase::Down || p.phase == PenPhase::Move {
                    PenPhase::Cancel
                } else {
                    PenPhase::Leave
                },
                pressure: 0,
                ..p
            })],
            None => seq![],
        })
}

/// Two ascending key sequences with the same keys are the same sequence.
proof fn lemma_sorted_unique(a: Seq<(u16, bool)>, b: Seq<(u16, bool)>)
    requires
        strictly_sorted(a),
        strictly_sorted(b),
        forall|k: (u16, bool)| a.contains(k) <==> b.contains(k),
    ensures
        a == b,
    decreases a.len(),
{
    if a.len() == 0 {
        if b.len() > 0 {
            assert(b.contains(b[0]));
        }
        assert(a =~= b);
    } else {
        assert(a.contains(a[0]));
        let j = choose|j: int| 0 <= j < b.len() && b[j] == a[0];
        assert(b.contains(b[0]));
        let i = choose|i: int| 0 <= i < a.len() && a[i] == b[0];
        if j > 0 {
            assert(key_lt(b[0], b[j]));
            if i > 0 {
                assert(key_lt(a[0], a[i]));
            }
            assert(false);
        }
        let a2 = a.drop_first();
        let b2 = b.drop_first();
        assert forall|k: (u16, bool)| a2.contains(k) <==> b2.contains(k) by {
            if a2.contains(k) {
                let p = choose|p: int| 0 <= p < a2.len() && a2[p] == k;
                assert(a[p + 1] == k);
                assert(key_lt(a[0], a[p + 1]));
                assert(a.contains(k));
                let q = choose|q: int| 0 <= q < b.len() && b[q] == k;
                if q == 0 {
                    assert(false);
                }
                assert(b2[q - 1] == k);
            }
            if b2.contains(k) {
                let p = choose|p: int| 0 <= p < b2.len() && b2[p] == k;
                assert(b[p + 1] == k);
                assert(key_lt(b[0], b[p + 1]));
                assert(b.contains(k));
                let q = choose|q: int| 0 <= q < a.len() && a[q] == k;
                if q == 0 {
                    assert(false);
                }
                assert(a2[q - 1] == k);
            }
        }
        lemma_sorted_unique(a2, b2);
        assert(a =~= seq![a[0]] + a2);
        assert(b =~= seq![b[0]] + b2);
    }
}

/// An ascending sequence is the release order of its own keys.
proof fn lemma_sorted_is_sorted_keys(s: Seq<(u16, bool)>)
    requires
        strictly_sorted(s),
    ensures
        sorted_keys(s.to_set()) == s,
{
    let t = sorted_keys(s.to_set());
    assert(strictly_sorted(s) && s.to_set() == s.to_set());
    assert(strictly_sorted(t) && t.to_set() == s.to_set());
    assert forall|k: (u16, bool)| s.contains(k) <==> t.contains(k) by {
        assert(s.to_set().contains(k) == s.contains(k));
        assert(t.to_set().contains(k) == t.contains(k));
    }
    lemma_sorted_unique(s, t);
}

/// What is held down, as the injections performed left it.
#[derive(Debug)]
pub struct HeldInputs {
    keys: Vec<(u16, bool)>,
    left: bool,
    right: bool,
    middle: bool,
    pointer: (u16, u16),
    pen: Option<PenSample>,
}

fn key_less(a: (u16, bool), b: (u16, bool)) -> (r: bool)
    ensures
        r == key_lt(a, b),
{
    a.0 < b.0 || (a.0 == b.0 && !a.1 && b.1)
}

fn same_key(a: (u16, bool), b: (u16, bool)) -> (r: bool)
    ensures
        r == (a == b),
{
    a.0 == b.0 && a.1 == b.1
}

impl HeldInputs {
    pub closed spec fn state(&self) -> HeldState {
        HeldState {
            keys: self.keys@.to_set(),
            left: self.left,
            right: self.right,
            middle: self.middle,
            pointer: self.pointer,
            pen: self.pen,
        }
    }

    pub closed spec fn wf(&self) -> bool {
        strictly_sorted(self.keys@)
    }

    pub fn new() -> (h: Self)
        ensures
            h.wf(),
            h.state() == held_empty((0, 0)),
    {
        let h = HeldInputs { keys: Vec::new(), left: false, right: false, middle: false, pointer: (0, 0), pen: None };
        assert(h.keys@.to_set() =~= Set::empty());
        h
    }

    fn press_key(&mut self, key: (u16, bool))
        requires
            old(self).wf(),
        ensures
            final(self).wf(),
            final(self).state() == (HeldState { keys: old(self).state().keys.insert(key), ..old(self).state() }),
    {
        let mut i: usize = 0;
        while i < self.keys.len()
            invariant
                self.wf(),
                *self == *old(self),
                0 <= i <= self.keys@.len(),
                forall|j: int| 0 <= j < i ==> key_lt(#[trigger] self.keys@[j], key),
            ensures
                0 <= i <= self.keys@.len(),
                i < self.keys@.len() ==> !key_lt(self.keys@[i as int], key),
            decreases self.keys@.len() - i,
        {
            if !key_less(self.keys[i], key) {
                break;
            }
            i = i + 1;
        }
        let ghost s = self.keys@;
        if i < self.keys.len() && same_key(self.keys[i], key) {
            assert(s.to_set().insert(key) =~= s.to_set()) by {
                assert(s.contains(key));
            }
            return;
        }
        // Everything from i on is above the new key.
        assert forall|j: int| i <= j < s.len() implies key_lt(key, s[j]) by {
            assert(!key_lt(s[i as int], key));
            if j > i {
                assert(key_lt(s[i as int], s[j]));
            }
        }
        self.keys.insert(i, key);
        let ghost t = self.keys@;
        assert(t =~= s.subrange(0, i as int).push(key) + s.subrange(i as int, s.len() as int));
        assert(strictly_sorted(t)) by {
            assert forall|a: int, b: int| 0 <= a < b < t.len() implies key_lt(t[a], t[b]) by {
                if b < i {
                } else if b == i {
                } else if a < i {
                    assert(t[b] == s[b - 1]);
                    assert(key_lt(s[a], key));
                    assert(key_lt(key, s[b - 1]));
                } else if a == i {
                    assert(t[b] == s[b - 1]);
                } else {
                    assert(t[a] == s[a - 1] && t[b] == s[b - 1]);
                }
            }
        }
        assert(t.to_set() =~= s.to_set().insert(key)) by {
            assert forall|k: (u16, bool)| t.contains(k) <==> (s.contains(k) || k == key) by {
                if t.contains(k) {
                    let p = choose|p: int| 0 <= p < t.len() && t[p] == k;
                    if p < i {
                        assert(s[p] == k);
                    } else if p > i {
                        assert(s[p - 1] == k);
                    }
                }
                if s.contains(k) {
                    let p = choose|p: int| 0 <= p < s.len() && s[p] == k;
                    if p < i {
                        assert(t[p] == k);
                    } else {
                        assert(t[p + 1] == k);
                    }
                }
                if k == key {
                    assert(t[i as int] == key);
                }
            }
        }
    }

    fn lift_key(&mut self, key: (u16, bool))
        requires
            old(self).wf(),
        ensures
            final(self).wf(),
            final(self).state() == (HeldState { keys: old(self).state().keys.remove(key), ..old(self).state() }),
    {
        let mut i: usize = 0;
        while i < self.keys.len()
            invariant
                self.wf(),
                *self == *old(self),
                0 <= i <= self.keys@.len(),
                forall|j: int| 0 <= j < i ==> self.keys@[j] != key,
            ensures
                0 <= i <= self.keys@.len(),
                i < self.keys@.len() ==> self.keys@[i as int] == key,
            decreases self.keys@.len() - i,
        {
            if same_key(self.keys[i], key) {
                break;
            }
            i = i + 1;
        }
        let ghost s = self.keys@;
        if i == self.keys.len() {
            assert(s.to_set().remove(key) =~= s.to_set()) by {
                if s.contains(key) {
                    let p = choose|p: int| 0 <= p < s.len() && s[p] == key;
                    assert(false);
                }
            }
            return;
        }
        self.keys.remove(i);
        let ghost t = self.keys@;
        assert(t =~= s.subrange(0, i as int) + s.subrange(i + 1, s.len() as int));
        assert(strictly_sorted(t)) by {
            assert forall|a: int, b: int| 0 <= a < b < t.len() implies key_lt(t[a], t[b]) by {
                if b < i {
                } else if a < i {
                    assert(t[b] == s[b + 1]);
                } else {
                    assert(t[a] == s[a + 1] && t[b] == s[b + 1]);
                }
            }
        }
        assert(t.to_set() =~= s.to_set().remove(key)) by {
            assert forall|k: (u16, bool)| t.contains(k) <==> (s.contains(k) && k != key) by {
                if t.contains(k) {
                    let p = choose|p: int| 0 <= p < t.len() && t[p] == k;
                    if p < i {
                        assert(s[p] == k);
                        assert(key_lt(s[p], s[i as int]));
                    } else {
                        assert(s[p + 1] == k);
                        assert(key_lt(s[i as int], s[p + 1]));
                    }
                }
                if s.contains(k) && k != key {
                    let p = choose|p: int| 0 <= p < s.len() && s[p] == k;
                    if p < i {
                        assert(t[p] == k);
                    } else {
                        assert(p != i);
                        assert(t[p - 1] == k);
                    }
                }
            }
        }
    }

    fn record_one(&mut self, injection: Injection)
        requires
            old(self).wf(),
        ensures
            final(self).wf(),
            final(self).state() == held_step(old(self).state(), injection),
    {
        match injection {
            Injection::Pen(sample) => {
                self.pen = match sample.phase {
                    PenPhase::Up | PenPhase::Leave | PenPhase::Cancel => None,
                    _ => Some(sample),
                };
            },
            Injection::KeyDown { scan, extended } => self.press_key((scan, extended)),
            Injection::KeyUp { scan, extended } => self.lift_key((scan, extended)),
            Injection::MoveAbs { x, y } => self.pointer = (x, y),
            Injection::LeftDown { .. } => self.left = true,
            Injection::LeftUp { .. } => self.left = false,
            Injection::RightDown { .. } => self.right = true,
            Injection::RightUp { .. } => self.right = false,
            Injection::MiddleDown { .. } => self.middle = true,
            Injection::MiddleUp { .. } => self.middle = false,
            _ => {},
        }
    }

    /// Note the effect of injections that were performed, first to last.
    pub fn record(&mut self, injections: &[Injection])
        requires
            old(self).wf(),
        ensures
            final(self).wf(),
            final(self).state() == held_after(old(self).state(), injections@),
    {
        let mut i: usize = 0;
        while i < injections.len()
            invariant
                self.wf(),
                0 <= i <= injections@.len(),
                self.state() == held_after(old(self).state(), injections@.take(i as int)),
            decreases injections@.len() - i,
        {
            assert(injections@.take(i + 1).drop_last() =~= injections@.take(i as int));
            self.record_one(injections[i]);
            i = i + 1;
        }
        assert(injections@.take(i as int) =~= injections@);
    }

    /// Let go of everything held and forget it: the next release is empty.
    pub fn release(&mut self) -> (releases: Vec<Injection>)
        requires
            old(self).wf(),
        ensures
            final(self).wf(),
            releases@ == release_spec(old(self).state()),
            final(self).state() == held_empty(old(self).state().pointer),
    {
        let ghost s0 = self.state();
        proof {
            lemma_sorted_is_sorted_keys(self.keys@);
        }
        let mut releases: Vec<Injection> = Vec::new();
        let mut i: usize = 0;
        while i < self.keys.len()
            invariant
                0 <= i <= self.keys@.len(),
                releases@ == key_ups(self.keys@.take(i as int)),
            decreases self.keys@.len() - i,
        {
            let (scan, extended) = self.keys[i];
            releases.push(Injection::KeyUp { scan, extended });
            assert(key_ups(self.keys@.take(i + 1)) =~= key_ups(self.keys@.take(i as int)).push(
                Injection::KeyUp { scan, extended },
            ));
            i = i + 1;
        }
        assert(self.keys@.take(i as int) =~= self.keys@);
        self.keys = Vec::new();
        let (x, y) = self.pointer;
        if self.left {
            releases.push(Injection::LeftUp { x, y });
        }
        if self.right {
            releases.push(Injection::RightUp { x, y });
        }
        if self.middle {
            releases.push(Injection::MiddleUp { x, y });
        }
        self.left = false;
        self.right = false;
        self.middle = false;
        match self.pen {
            Some(sample) => {
                let phase = match sample.phase {
                    PenPhase::Down | PenPhase::Move => PenPhase::Cancel,
                    _ => PenPhase::Leave,
                };
                releases.push(Injection::Pen(PenSample { phase, pressure: 0, ..sample }));
            },
            None => {},
        }
        self.pen = None;
        assert(self.keys@.to_set() =~= Set::empty());
        assert(releases@ =~= release_spec(s0));
        releases
    }
}

impl Default for HeldInputs {
    fn default() -> (h: Self)
        ensures
            h.wf(),
            h.state() == held_empty((0, 0)),
    {
        HeldInputs::new()
    }
}

/// Releasing twice in a row lets go of nothing the second time.
pub proof fn lemma_release_is_once(pointer: (u16, u16))
    ensures
        release_spec(held_empty(pointer)) == Seq::<Injection>::empty(),
{
    let e: Seq<(u16, bool)> = seq![];
    assert(strictly_sorted(e));
    lemma_sorted_is_sorted_keys(e);
    assert(e.to_set() =~= Set::<(u16, bool)>::empty());
    assert(key_ups(e) =~= Seq::<Injection>::empty());
    assert(release_spec(held_empty(pointer)) =~= Seq::<Injection>::empty());
}

/// How long a stationary pen contact may go without a refresh (microseconds).
pub const PEN_REFRESH_US: u64 = 50_000;

/// The relay's state as the contracts see it.
pub struct RelayState {
    pub session: Option<u32>,
    pub recent: Seq<Option<u32>>,
    pub cursor: usize,
    pub held: HeldState,
    pub pen_sequence: Option<u32>,
    pub last_pen_input: Option<u64>,
}

/// A pen sample id that is not newer than the last accepted one, in 32-bit
/// wrapping order.
pub open spec fn pen_stale(last: u32, id: u32) -> bool {
    let d: int = if id >= last { id - last } else { id - last + 0x1_0000_0000 };
    d == 0 || d >= 0x8000_0000
}

/// The held pen sample, if its tip is in contact.
pub open spec fn pen_contact(held: Option<PenSample>) -> Option<PenSample> {
    match held {
        Some(p) => if p.phase == PenPhase::Down || p.phase == PenPhase::Move { Some(p) } else { None },
        None => None,
    }
}

/// How a resolved batch is fixed up against the held pen contact: a new
/// stroke, hover or leave while a tip is down first cancels the old contact;
/// a lost down is recovered at the first move; an up or cancel with no contact
/// is dropped (`None`); an up away from the last contact first moves there;
/// a cancel cancels the held contact.
pub open spec fn pen_adjust(injs: Seq<Injection>, held: Option<PenSample>) -> Option<Seq<Injection>> {
    if injs.len() == 0 {
        Some(injs)
    } else {
        match injs[0] {
            Injection::Pen(sample) => match pen_contact(held) {
                Some(prev) => {
                    if sample.phase == PenPhase::Down || sample.phase == PenPhase::Hover
                        || sample.phase == PenPhase::Leave {
                        Some(seq![Injection::Pen(PenSample { phase: PenPhase::Cancel, pressure: 0, ..prev })] + injs)
                    } else if sample.phase == PenPhase::Up && (sample.x != prev.x || sample.y != prev.y) {
                        Some(seq![Injection::Pen(PenSample { phase: PenPhase::Move, pressure: prev.pressure, ..sample })] + injs)
                    } else if sample.phase == PenPhase::Cancel {
                        Some(injs.update(0, Injection::Pen(PenSample { phase: PenPhase::Cancel, pressure: 0, ..prev })))
                    } else {
                        Some(injs)
                    }
                },
                None => {
                    if sample.phase == PenPhase::Move {
                        Some(injs.update(0, Injection::Pen(PenSample { phase: PenPhase::Down, ..sample })))
                    } else if sample.phase == PenPhase::Up || sample.phase == PenPhase::Cancel {
                        None
                    } else {
                        Some(injs)
                    }
                },
            },
            _ => Some(injs),
        }
    }
}

pub open spec fn fresh_recent() -> Seq<Option<u32>> {
    Seq::new(RECENT_EDGE_IDS as nat, |i: int| None::<u32>)
}

/// The state after a reset: nothing held, no session.
pub open spec fn reset_state(s: RelayState) -> RelayState {
    RelayState {
        session: None,
        recent: fresh_recent(),
        cursor: 0,
        held: held_empty(s.held.pointer),
        pen_sequence: None,
        last_pen_input: None,
    }
}

/// One event through the relay: what is injected, and the state after.
pub open spec fn relay_spec(
    s: RelayState,
    session_id: u32,
    event: InputEvent,
    output: CaptureGeometry,
    screen: VirtualScreen,
    now: u64,
) -> (Seq<Injection>, RelayState) {
    // A new or superseded session first releases what the old one held.
    let fresh = s.session != Some(session_id);
    let pre = if fresh { release_spec(s.held) } else { seq![] };
    let s0 = if fresh { RelayState { session: Some(session_id), ..reset_state(s) } } else { s };
    let pencil = event.kind == KIND_PENCIL;
    let gated = pencil && (!(event.input_ver == 1 || event.input_ver == 2)
        || event.phase > PHASE_CANCELLED
        || (s0.pen_sequence is Some && pen_stale(s0.pen_sequence->0, event.event_id)));
    if gated {
        (pre, s0)
    } else {
        let s1 = if pencil { RelayState { pen_sequence: Some(event.event_id), ..s0 } } else { s0 };
        let edge = is_edge(event.phase);
        if edge && s1.recent.contains(Some(event.event_id)) {
            (pre, s1)
        } else {
            let s2 = if edge {
                RelayState {
                    recent: s1.recent.update(s1.cursor as int, Some(event.event_id)),
                    cursor: ((s1.cursor + 1) % (RECENT_EDGE_IDS as int)) as usize,
                    ..s1
                }
            } else {
                s1
            };
            match pen_adjust(resolve_spec(event, output, screen), s2.held.pen) {
                None => (pre, s2),
                Some(injs) => (pre + injs, RelayState {
                    held: held_after(s2.held, injs),
                    last_pen_input: if pencil { Some(now) } else { s2.last_pen_input },
                    ..s2
                }),
            }
        }
    }
}

/// The refresh owed to a stationary pen contact or hover at `now`, if any:
/// at least the refresh interval after the last pen input, never for a
/// released tip.
pub open spec fn pen_refresh_spec(s: RelayState, now: u64) -> Option<Injection> {
    match s.last_pen_input {
        None => None,
        Some(last) => {
            if now >= last && now - last < PEN_REFRESH_US || now < last {
                None
            } else {
                match s.held.pen {
                    Some(p) => {
                        if p.phase == PenPhase::Down || p.phase == PenPhase::Move {
                            Some(Injection::Pen(PenSample { phase: PenPhase::Move, ..p }))
                        } else if p.phase == PenPhase::Hover {
                            Some(Injection::Pen(p))
                        } else {
                            None
                        }
                    },
                    None => None,
                }
            }
        }
    }
}

/// The transport's per-connection relay state: an edge deduper scoped to the
/// current session (a superseded session restarts its `event_id` counter, so
/// dedupe state must not leak across sessions), what is held down, and the
/// ordering of pen samples.
#[derive(Debug)]
pub struct InputRelay {
    session: Option<u32>,
    deduper: EventDeduper,
    held: HeldInputs,
    pen_sequence: Option<u32>,
    last_pen_input: Option<u64>,
}

impl InputRelay {
    pub closed spec fn state(&self) -> RelayState {
        RelayState {
            session: self.session,
            recent: self.deduper.recent_ids(),
            cursor: self.deduper.cursor(),
            held: self.held.state(),
            pen_sequence: self.pen_sequence,
            last_pen_input: self.last_pen_input,
        }
    }

    pub closed spec fn wf(&self) -> bool {
        self.deduper.wf() && self.held.wf()
    }

    pub fn new() -> (r: Self)
        ensures
            r.wf(),
            r.state() == reset_state(RelayState {
                session: None,
                recent: fresh_recent(),
                cursor: 0,
                held: held_empty((0, 0)),
                pen_sequence: None,
                last_pen_input: None,
            }),
    {
        InputRelay {
            session: None,
            deduper: EventDeduper::new(),
            held: HeldInputs::new(),
            pen_sequence: None,
            last_pen_input: None,
        }
    }

    /// This relay hands its injections to the caller and drives no native
    /// pen device of its own, so native pen input is never available here.
    pub fn pen_available(&self) -> (available: bool)
        ensures
            !available,
    {
        false
    }

    /// Release keys, buttons and the pen when a session ends, expires, or is
    /// superseded; returns the releases to inject.
    pub fn reset(&mut self) -> (releases: Vec<Injection>)
        requires
            old(self).wf(),
        ensures
            final(self).wf(),
            releases@ == release_spec(old(self).state().held),
            final(self).state() == reset_state(old(self).state()),
    {
        let releases = self.held.release();
        self.session = None;
        self.deduper = EventDeduper::new();
        self.pen_sequence = None;
        self.last_pen_input = None;
        releases
    }

    /// The system expires stationary synthetic pen contacts unless they are
    /// refreshed: returns the refresh to inject at `now`, if one is due.
    /// Real samples always win; a released or disconnected tip is never kept
    /// down.
    pub fn keep_pen_alive(&mut self, now: u64) -> (refresh: Option<Injection>)
        requires
            old(self).wf(),
        ensures
            final(self).wf(),
            refresh == pen_refresh_spec(old(self).state(), now),
            refresh is Some ==> final(self).state() == (RelayState {
                last_pen_input: Some(now),
                ..old(self).state()
            }),
            refresh is None ==> final(self).state() == old(self).state(),
    {
        let last = match self.last_pen_input {
            Some(last) => last,
            None => return None,
        };
        if now < last || now - last < PEN_REFRESH_US {
            return None;
        }
        let sample = match self.held.pen {
            Some(sample) => sample,
            None => return None,
        };
        let phase = match sample.phase {
            PenPhase::Down | PenPhase::Move => PenPhase::Move,
            PenPhase::Hover => PenPhase::Hover,
            _ => return None,
        };
        self.last_pen_input = Some(now);
        Some(Injection::Pen(PenSample { phase, ..sample }))
    }

    /// Dedupe, map and record one session-validated event; returns the
    /// injections to perform, in order.
    pub fn relay(
        &mut self,
        session_id: u32,
        event: &InputEvent,
        output: CaptureGeometry,
        screen: VirtualScreen,
        now: u64,
    ) -> (injected: Vec<Injection>)
        requires
            old(self).wf(),
            geometry_fits(output),
        ensures
            final(self).wf(),
            (injected@, final(self).state()) == relay_spec(old(self).state(), session_id, *event, output, screen, now),
    {
        let ghost s = self.state();
        let mut out: Vec<Injection> = Vec::new();
        let fresh = match self.session {
            Some(id) => id != session_id,
            None => true,
        };
        if fresh {
            out = self.reset();
            self.session = Some(session_id);
        }
        assert(out@ == (if fresh { release_spec(s.held) } else { seq![] }));
        // Pen updates are ordered samples. Replayed or reordered packets must
        // never move a stroke backwards or revive a released contact.
        if event.kind == KIND_PENCIL {
            if !(event.input_ver == 1 || event.input_ver == 2) || event.phase > PHASE_CANCELLED {
                return out;
            }
            match self.pen_sequence {
                Some(last) => {
                    let d = event.event_id.wrapping_sub(last);
                    if d == 0 || d >= 0x8000_0000 {
                        return out;
                    }
                },
                None => {},
            }
            self.pen_sequence = Some(event.event_id);
        }
        if !self.deduper.accept(event) {
            return out;
        }
        let mut injections = resolve(event, output, screen);
        let ghost resolved = injections@;
        if injections.len() > 0 {
            match injections[0] {
                Injection::Pen(sample) => {
                    let contact = match self.held.pen {
                        Some(p) => match p.phase {
                            PenPhase::Down | PenPhase::Move => Some(p),
                            _ => None,
                        },
                        None => None,
                    };
                    match contact {
                        Some(prev) => {
                            match sample.phase {
                                PenPhase::Down | PenPhase::Hover | PenPhase::Leave => {
                                    injections.insert(0, Injection::Pen(PenSample { phase: PenPhase::Cancel, pressure: 0, ..prev }));
                                },
                                PenPhase::Up => {
                                    if sample.x != prev.x || sample.y != prev.y {
                                        // The system wants the up at the last contact
                                        // position: carry a final move there first.
                                        injections.insert(0, Injection::Pen(PenSample {
                                            phase: PenPhase::Move,
                                            pressure: prev.pressure,
                                            ..sample
                                        }));
                                    }
                                },
                                PenPhase::Cancel => {
                                    injections.set(0, Injection::Pen(PenSample { phase: PenPhase::Cancel, pressure: 0, ..prev }));
                                },
                                _ => {},
                            }
                        },
                        None => {
                            match sample.phase {
                                // A lost down recovers at the first actual sample.
                                PenPhase::Move => {
                                    injections.set(0, Injection::Pen(PenSample { phase: PenPhase::Down, ..sample }));
                                },
                                PenPhase::Up | PenPhase::Cancel => {
                                    return out;
                                },
                                _ => {},
                            }
                        },
                    }
                },
                _ => {},
            }
        }
        assert(pen_adjust(resolved, self.held.state().pen) == Some(injections@)) by {
            if resolved.len() > 0 {
                match resolved[0] {
                    Injection::Pen(sample) => {
                        assert(injections@ =~= pen_adjust(resolved, self.held.state().pen)->0);
                    },
                    _ => {},
                }
            }
        }
        self.held.record(injections.as_slice());
        if event.kind == KIND_PENCIL {
            self.last_pen_input = Some(now);
        }
        let ghost pre = out@;
        let mut i: usize = 0;
        while i < injections.len()
            invariant
                0 <= i <= injections@.len(),
                out@ == pre + injections@.take(i as int),
            decreases injections@.len() - i,
        {
            out.push(injections[i]);
            assert(pre + injections@.take(i + 1) =~= (pre + injections@.take(i as int)).push(injections@[i as int]));
            i = i + 1;
        }
        assert(injections@.take(i as int) =~= injections@);
        out
    }
}

impl Default for InputRelay {
    fn default() -> (r: Self)
        ensures
            r.wf(),
            r.state() == reset_state(RelayState {
                session: None,
                recent: fresh_recent(),
                cursor: 0,
                held: held_empty((0, 0)),
                pen_sequence: None,
                last_pen_input: None,
            }),
    {
        InputRelay::new()
    }
}

/// The whole captured output taken as the absolute-pointer space, for
/// desktops where the output is the only monitor.
pub fn output_as_screen(output: CaptureGeometry) -> (screen: VirtualScreen)
    ensures
        screen.left == output.left,
        screen.top == output.top,
        screen.width == output.width,
        screen.height == output.height,
{
    VirtualScreen { left: output.left, top: output.top, width: output.width, height: output.height }
}

} // verus!
