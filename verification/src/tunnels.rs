//! Which USB tunnel generations are live. Each tunnel a device worker opens
//! carries the generation of that worker; a datagram or a close from an
//! older generation of the same tunnel is stale and ignored, so a replaced
//! tunnel can never deliver into, or tear down, its successor.

use vstd::prelude::*;
use crate::link::LinkId;

verus! {

/// The generation live for `id`, if any.
pub open spec fn live_generation(links: Seq<(LinkId, u64)>, id: LinkId) -> Option<u64> {
    if exists|i: int| 0 <= i < links.len() && #[trigger] links[i].0 == id {
        Some(links[choose|i: int| 0 <= i < links.len() && #[trigger] links[i].0 == id].1)
    } else {
        None
    }
}

pub open spec fn ids_unique(links: Seq<(LinkId, u64)>) -> bool {
    forall|i: int, j: int| 0 <= i < j < links.len() ==> links[i].0 != links[j].0
}

proof fn lemma_live_at(links: Seq<(LinkId, u64)>, k: int)
    requires
        ids_unique(links),
        0 <= k < links.len(),
    ensures
        live_generation(links, links[k].0) == Some(links[k].1),
{
    let id = links[k].0;
    assert(links[k].0 == id);
    let c = choose|i: int| 0 <= i < links.len() && #[trigger] links[i].0 == id;
    if c != k {
        if c < k {
            assert(links[c].0 != links[k].0);
        } else {
            assert(links[k].0 != links[c].0);
        }
    }
}

/// Whether an event of `generation` on tunnel `id` is current.
pub open spec fn current(live: Map<LinkId, u64>, id: LinkId, generation: u64) -> bool {
    live.contains_key(id) && live[id] == generation
}

/// The live tunnels after a close of `generation` on `id`: only a current
/// close removes the tunnel.
pub open spec fn after_close(live: Map<LinkId, u64>, id: LinkId, generation: u64) -> Map<LinkId, u64> {
    if current(live, id, generation) { live.remove(id) } else { live }
}

/// The live USB tunnels and their generations.
pub struct TunnelRegistry {
    links: Vec<(LinkId, u64)>,
}

impl TunnelRegistry {
    pub closed spec fn live(&self, id: LinkId) -> Option<u64> {
        live_generation(self.links@, id)
    }

    /// Each live tunnel's generation.
    pub closed spec fn view(&self) -> Map<LinkId, u64> {
        Map::new(|id: LinkId| self.live(id) is Some, |id: LinkId| self.live(id)->0)
    }

    pub closed spec fn count(&self) -> nat {
        self.links@.len()
    }

    /// No tunnel is listed twice.
    pub closed spec fn wf(&self) -> bool {
        ids_unique(self.links@)
    }

    /// Pointwise facts about `live` settle the map view.
    proof fn lemma_connected_view(&self, id: LinkId, generation: u64)
        ensures
            forall|r: TunnelRegistry| #![trigger r.view()]
                r.live(id) == Some(generation)
                && (forall|other: LinkId| other != id ==> r.live(other) == self.live(other))
                ==> r@ == self@.insert(id, generation),
    {
        assert forall|r: TunnelRegistry| #![trigger r.view()]
            r.live(id) == Some(generation)
            && (forall|other: LinkId| other != id ==> r.live(other) == self.live(other))
            implies r@ == self@.insert(id, generation) by {
            assert(r@ =~= self@.insert(id, generation));
        }
    }

    proof fn lemma_closed_view(&self, id: LinkId, generation: u64)
        ensures
            forall|r: TunnelRegistry| #![trigger r.view()]
                (if self.live(id) == Some(generation) { r.live(id) is None } else { r.live(id) == self.live(id) })
                && (forall|other: LinkId| other != id ==> r.live(other) == self.live(other))
                ==> r@ == after_close(self@, id, generation),
    {
        assert forall|r: TunnelRegistry| #![trigger r.view()]
            (if self.live(id) == Some(generation) { r.live(id) is None } else { r.live(id) == self.live(id) })
            && (forall|other: LinkId| other != id ==> r.live(other) == self.live(other))
            implies r@ == after_close(self@, id, generation) by {
            if self.live(id) == Some(generation) {
                assert(r@ =~= self@.remove(id));
            } else {
                assert(r@ =~= self@);
            }
        }
    }

    pub fn new() -> (r: Self)
        ensures
            r.wf(),
            r.count() == 0,
            forall|id: LinkId| r.live(id) is None,
    {
        TunnelRegistry { links: Vec::new() }
    }

    /// Whether no tunnel is live.
    pub fn is_empty(&self) -> (e: bool)
        requires
            self.wf(),
        ensures
            e == (self.count() == 0),
            e ==> forall|id: LinkId| self.live(id) is None,
    {
        self.links.len() == 0
    }

    fn position(&self, id: LinkId) -> (r: Option<usize>)
        requires
            self.wf(),
        ensures
            match r {
                Some(k) => k < self.links@.len() && self.links@[k as int].0 == id,
                None => forall|i: int| 0 <= i < self.links@.len() ==> self.links@[i].0 != id,
            },
    {
        let mut k: usize = 0;
        while k < self.links.len()
            invariant
                0 <= k <= self.links@.len(),
                forall|i: int| 0 <= i < k ==> self.links@[i].0 != id,
            decreases self.links@.len() - k,
        {
            if self.links[k].0 == id {
                return Some(k);
            }
            k = k + 1;
        }
        None
    }

    /// A worker of `generation` connected tunnel `id`; it replaces any older
    /// tunnel with that id.
    pub fn connected(&mut self, id: LinkId, generation: u64)
        requires
            old(self).wf(),
        ensures
            final(self).wf(),
            final(self).live(id) == Some(generation),
            forall|other: LinkId| other != id ==> final(self).live(other) == old(self).live(other),
            final(self)@ == old(self)@.insert(id, generation),
    {
        let ghost before = self.links@;
        proof {
            self.lemma_connected_view(id, generation);
        }
        match self.position(id) {
            Some(k) => {
                self.links.set(k, (id, generation));
                proof {
                    lemma_live_at(self.links@, k as int);
                    assert forall|other: LinkId| other != id implies self.live(other) == old(self).live(other) by {
                        if exists|i: int| 0 <= i < before.len() && #[trigger] before[i].0 == other {
                            let i = choose|i: int| 0 <= i < before.len() && #[trigger] before[i].0 == other;
                            lemma_live_at(before, i);
                            assert(self.links@[i] == before[i]);
                            lemma_live_at(self.links@, i);
                        } else {
                            assert forall|i: int| 0 <= i < self.links@.len() implies #[trigger] self.links@[i].0 != other by {
                                if i != k {
                                    assert(self.links@[i] == before[i]);
                                }
                            }
                        }
                    }
                }
            },
            None => {
                self.links.push((id, generation));
                proof {
                    assert(ids_unique(self.links@)) by {
                        assert forall|i: int, j: int| 0 <= i < j < self.links@.len() implies self.links@[i].0 != self.links@[j].0 by {
                            assert(self.links@[i] == before[i]);
                            if j < before.len() {
                                assert(self.links@[j] == before[j]);
                            }
                        }
                    }
                    lemma_live_at(self.links@, before.len() as int);
                    assert forall|other: LinkId| other != id implies self.live(other) == old(self).live(other) by {
                        if exists|i: int| 0 <= i < before.len() && #[trigger] before[i].0 == other {
                            let i = choose|i: int| 0 <= i < before.len() && #[trigger] before[i].0 == other;
                            lemma_live_at(before, i);
                            assert(self.links@[i] == before[i]);
                            lemma_live_at(self.links@, i);
                        } else {
                            assert forall|i: int| 0 <= i < self.links@.len() implies #[trigger] self.links@[i].0 != other by {
                                if i < before.len() {
                                    assert(self.links@[i] == before[i]);
                                }
                            }
                        }
                    }
                }
            },
        }
    }

    /// Whether an event of `generation` on tunnel `id` is current.
    pub fn accepts(&self, id: LinkId, generation: u64) -> (current: bool)
        requires
            self.wf(),
        ensures
            current == (self.live(id) == Some(generation)),
            current == crate::tunnels::current(self@, id, generation),
    {
        match self.position(id) {
            Some(k) => {
                proof {
                    lemma_live_at(self.links@, k as int);
                }
                self.links[k].1 == generation
            },
            None => false,
        }
    }

    /// Tunnel `id` of `generation` closed: a current tunnel is removed and
    /// `true` returned; a stale close changes nothing.
    pub fn closed(&mut self, id: LinkId, generation: u64) -> (removed: bool)
        requires
            old(self).wf(),
        ensures
            final(self).wf(),
            removed == (old(self).live(id) == Some(generation)),
            removed ==> final(self).live(id) is None && final(self).count() + 1 == old(self).count(),
            !removed ==> final(self).live(id) == old(self).live(id) && final(self).count() == old(self).count(),
            forall|other: LinkId| other != id ==> final(self).live(other) == old(self).live(other),
            final(self)@ == after_close(old(self)@, id, generation),
    {
        let ghost before = self.links@;
        proof {
            self.lemma_closed_view(id, generation);
        }
        match self.position(id) {
            Some(k) => {
                proof {
                    lemma_live_at(before, k as int);
                }
                if self.links[k].1 != generation {
                    return false;
                }
                self.links.remove(k);
                proof {
                    let after = self.links@;
                    assert(ids_unique(after)) by {
                        assert forall|i: int, j: int| 0 <= i < j < after.len() implies after[i].0 != after[j].0 by {
                            let bi = if i < k { i } else { i + 1 };
                            let bj = if j < k { j } else { j + 1 };
                            assert(after[i] == before[bi] && after[j] == before[bj]);
                        }
                    }
                    assert forall|i: int| 0 <= i < after.len() implies #[trigger] after[i].0 != id by {
                        let bi = if i < k { i } else { i + 1 };
                        assert(after[i] == before[bi]);
                    }
                    assert forall|other: LinkId| other != id implies self.live(other) == old(self).live(other) by {
                        if exists|i: int| 0 <= i < before.len() && #[trigger] before[i].0 == other {
                            let i = choose|i: int| 0 <= i < before.len() && #[trigger] before[i].0 == other;
                            lemma_live_at(before, i);
                            let ai = if i < k { i } else { i - 1 };
                            assert(after[ai] == before[i]);
                            lemma_live_at(after, ai);
                        } else {
                            assert forall|i: int| 0 <= i < after.len() implies #[trigger] after[i].0 != other by {
                                let bi = if i < k { i } else { i + 1 };
                                assert(after[i] == before[bi]);
                            }
                        }
                    }
                }
                true
            },
            None => false,
        }
    }
}

impl Default for TunnelRegistry {
    fn default() -> (r: Self)
        ensures
            r.wf(),
            r.count() == 0,
    {
        TunnelRegistry::new()
    }
}

/// A replaced tunnel cannot reach its successor: once generation `newer`
/// of tunnel `id` is connected, events of any other generation are stale,
/// and a close from one of them leaves the new tunnel live.
pub proof fn lemma_stale_generation_ignored(live: Map<LinkId, u64>, id: LinkId, newer: u64, older: u64)
    requires
        older != newer,
    ensures
        !current(live.insert(id, newer), id, older),
        after_close(live.insert(id, newer), id, older) == live.insert(id, newer),
        current(after_close(live.insert(id, newer), id, older), id, newer),
{
}

/// Drops newly counted by a link since the last report, and the count to
/// report from next time; a counter that went back reports nothing new.
pub fn drops_since(total: u64, reported: u64) -> (r: (u64, u64))
    ensures
        r.0 == (if total >= reported { total - reported } else { 0 }),
        r.1 == total,
{
    (total.saturating_sub(reported), total)
}

} // verus!
