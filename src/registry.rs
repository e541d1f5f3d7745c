//! The registry shared by all candidates: per peer, how many handshakes are in
//! flight and which connection, if any, has already won.

use vstd::prelude::*;

use crate::peer_id::PeerId;

verus! {

/// What the registry records for one peer.
pub struct ConnectionId<C> {
    /// Candidates currently negotiating a socket to this peer.
    pub currently_handshaking: u64,
    /// The connection that won the race, once there is one.
    pub active_connection: Option<C>,
}

/// An entry is kept only while it says something: a handshake in flight or a winner.
pub open spec fn is_live<C>(e: ConnectionId<C>) -> bool {
    e.currently_handshaking > 0 || e.active_connection.is_some()
}

/// Handshakes in flight for `peer` (none when it has no entry).
pub open spec fn handshaking_of<C>(m: Map<Seq<u8>, ConnectionId<C>>, peer: Seq<u8>) -> nat {
    if m.contains_key(peer) {
        m[peer].currently_handshaking as nat
    } else {
        0
    }
}

/// The winning connection recorded for `peer` (none when it has no entry).
pub open spec fn active_of<C>(m: Map<Seq<u8>, ConnectionId<C>>, peer: Seq<u8>) -> Option<C> {
    if m.contains_key(peer) {
        m[peer].active_connection
    } else {
        None
    }
}

/// The table after one more handshake has begun for `peer`.
pub open spec fn after_begin<C>(m: Map<Seq<u8>, ConnectionId<C>>, peer: Seq<u8>) -> Map<
    Seq<u8>,
    ConnectionId<C>,
> {
    m.insert(
        peer,
        ConnectionId {
            currently_handshaking: (handshaking_of(m, peer) + 1) as u64,
            active_connection: active_of(m, peer),
        },
    )
}

/// The table after one handshake for `peer` has ended: the counter drops by one
/// (it never goes below zero) and an entry left with nothing to say is removed.
pub open spec fn after_end<C>(m: Map<Seq<u8>, ConnectionId<C>>, peer: Seq<u8>) -> Map<
    Seq<u8>,
    ConnectionId<C>,
> {
    if !m.contains_key(peer) {
        m
    } else {
        let e = ConnectionId {
            currently_handshaking: if m[peer].currently_handshaking > 0 {
                (m[peer].currently_handshaking - 1) as u64
            } else {
                0
            },
            active_connection: m[peer].active_connection,
        };
        if is_live(e) {
            m.insert(peer, e)
        } else {
            m.remove(peer)
        }
    }
}

/// The table after `conn` has been recorded as the winner for `peer`.
pub open spec fn after_set_active<C>(
    m: Map<Seq<u8>, ConnectionId<C>>,
    peer: Seq<u8>,
    conn: C,
) -> Map<Seq<u8>, ConnectionId<C>> {
    m.insert(
        peer,
        ConnectionId {
            currently_handshaking: handshaking_of(m, peer) as u64,
            active_connection: Some(conn),
        },
    )
}

/// Every entry of a well-formed table is live, which is what keeps the table
/// from growing with peers that were dialled once.
pub open spec fn all_live<C>(m: Map<Seq<u8>, ConnectionId<C>>) -> bool {
    forall|k: Seq<u8>| #[trigger] m.contains_key(k) ==> is_live(m[k])
}

struct Slot<C> {
    peer: PeerId,
    state: ConnectionId<C>,
}

/// Whatever sequence of handshake starts, ends and recorded winners a table goes
/// through, each step keeps every entry live: a peer has an entry exactly while
/// a handshake for it is in flight or a winner is recorded for it.
pub proof fn lemma_operations_keep_entries_live<C>(m: Map<Seq<u8>, ConnectionId<C>>, peer: Seq<u8>, conn: C)
    requires
        all_live(m),
    ensures
        handshaking_of(m, peer) < u64::MAX ==> all_live(after_begin(m, peer)),
        all_live(after_end(m, peer)),
        all_live(after_set_active(m, peer, conn)),
        forall|k: Seq<u8>|
            m.contains_key(k) <==> (handshaking_of(m, k) > 0 || active_of(m, k).is_some()),
{
}

spec fn slots_agree<C>(slots: Seq<Slot<C>>, table: Map<Seq<u8>, ConnectionId<C>>) -> bool {
    &&& forall|i: int, j: int| 0 <= i < j < slots.len() ==> slots[i].peer@ != slots[j].peer@
    &&& forall|i: int|
        0 <= i < slots.len() ==> table.contains_key(#[trigger] slots[i].peer@) && table[slots[i].peer@]
            == slots[i].state
    &&& forall|k: Seq<u8>| #[trigger]
        table.contains_key(k) ==> exists|i: int| 0 <= i < slots.len() && slots[i].peer@ == k
    &&& all_live(table)
}

/// Replacing the state of one slot, and the table entry with it, keeps them in agreement.
proof fn lemma_agree_update<C>(
    slots: Seq<Slot<C>>,
    table: Map<Seq<u8>, ConnectionId<C>>,
    i: int,
    slot: Slot<C>,
)
    requires
        slots_agree(slots, table),
        0 <= i < slots.len(),
        slot.peer@ == slots[i].peer@,
        is_live(slot.state),
    ensures
        slots_agree(slots.update(i, slot), table.insert(slot.peer@, slot.state)),
{
    let s2 = slots.update(i, slot);
    let t2 = table.insert(slot.peer@, slot.state);
    assert forall|a: int, b: int| 0 <= a < b < s2.len() implies s2[a].peer@ != s2[b].peer@ by {
        assert(slots[a].peer@ != slots[b].peer@);
    }
    assert forall|a: int| 0 <= a < s2.len() implies t2.contains_key(#[trigger] s2[a].peer@)
        && t2[s2[a].peer@] == s2[a].state by {
        if a != i {
            assert(slots[a].peer@ != slots[i].peer@);
        }
    }
    assert forall|k: Seq<u8>| #[trigger] t2.contains_key(k) implies exists|a: int|
        0 <= a < s2.len() && s2[a].peer@ == k by {
        if k == slot.peer@ {
            assert(s2[i].peer@ == k);
        } else {
            let j = choose|a: int| 0 <= a < slots.len() && slots[a].peer@ == k;
            assert(s2[j].peer@ == k);
        }
    }
}

/// Appending a slot for a peer the table does not hold keeps them in agreement.
proof fn lemma_agree_push<C>(slots: Seq<Slot<C>>, table: Map<Seq<u8>, ConnectionId<C>>, slot: Slot<C>)
    requires
        slots_agree(slots, table),
        !table.contains_key(slot.peer@),
        is_live(slot.state),
    ensures
        slots_agree(slots.push(slot), table.insert(slot.peer@, slot.state)),
{
    let s2 = slots.push(slot);
    let t2 = table.insert(slot.peer@, slot.state);
    let n = slots.len() as int;
    assert forall|a: int, b: int| 0 <= a < b < s2.len() implies s2[a].peer@ != s2[b].peer@ by {
        if b == n {
            assert(table.contains_key(slots[a].peer@));
        }
    }
    assert forall|a: int| 0 <= a < s2.len() implies t2.contains_key(#[trigger] s2[a].peer@)
        && t2[s2[a].peer@] == s2[a].state by {
        if a != n {
            assert(table.contains_key(slots[a].peer@));
        }
    }
    assert forall|k: Seq<u8>| #[trigger] t2.contains_key(k) implies exists|a: int|
        0 <= a < s2.len() && s2[a].peer@ == k by {
        if k == slot.peer@ {
            assert(s2[n].peer@ == k);
        } else {
            let j = choose|a: int| 0 <= a < slots.len() && slots[a].peer@ == k;
            assert(s2[j].peer@ == k);
        }
    }
}

/// The table of connection state per peer.
pub struct ConnectionMap<C> {
    slots: Vec<Slot<C>>,
    table: Ghost<Map<Seq<u8>, ConnectionId<C>>>,
}

impl<C> View for ConnectionMap<C> {
    type V = Map<Seq<u8>, ConnectionId<C>>;

    closed spec fn view(&self) -> Map<Seq<u8>, ConnectionId<C>> {
        self.table@
    }
}

impl<C> ConnectionMap<C> {
    /// The slots hold each peer at most once, agree with the table, and every
    /// entry is live.
    pub closed spec fn wf(&self) -> bool {
        slots_agree(self.slots@, self.table@)
    }

    /// In a well-formed table a peer has an entry exactly when a handshake for it
    /// is in flight or a winner is recorded for it. Every operation below keeps the
    /// table well formed, so this holds after each of them.
    pub proof fn lemma_entry_iff_live(&self, peer: Seq<u8>)
        requires
            self.wf(),
        ensures
            self@.contains_key(peer) <==> (handshaking_of(self@, peer) > 0 || active_of(
                self@,
                peer,
            ).is_some()),
    {
    }

    pub fn new() -> (r: ConnectionMap<C>)
        ensures
            r.wf(),
            r@ == Map::<Seq<u8>, ConnectionId<C>>::empty(),
    {
        ConnectionMap { slots: Vec::new(), table: Ghost(Map::empty()) }
    }

    fn find(&self, peer: &PeerId) -> (r: Option<usize>)
        requires
            self.wf(),
        ensures
            match r {
                Some(i) => i < self.slots@.len() && self.slots@[i as int].peer@ == peer@,
                None => !self@.contains_key(peer@),
            },
    {
        let mut i: usize = 0;
        while i < self.slots.len()
            invariant
                self.wf(),
                i <= self.slots@.len(),
                forall|j: int| 0 <= j < i ==> self.slots@[j].peer@ != peer@,
            decreases self.slots@.len() - i,
        {
            if self.slots[i].peer.same_as(peer) {
                return Some(i);
            }
            i = i + 1;
        }
        None
    }

    /// Whether the table holds an entry for `peer`.
    pub fn contains(&self, peer: &PeerId) -> (r: bool)
        requires
            self.wf(),
        ensures
            r == self@.contains_key(peer@),
    {
        match self.find(peer) {
            Some(_) => true,
            None => false,
        }
    }

    /// The number of handshakes in flight for `peer`.
    pub fn handshake_count(&self, peer: &PeerId) -> (r: u64)
        requires
            self.wf(),
        ensures
            r as nat == handshaking_of(self@, peer@),
    {
        match self.find(peer) {
            Some(i) => self.slots[i].state.currently_handshaking,
            None => 0,
        }
    }

    /// Whether a winning connection is already recorded for `peer`.
    pub fn has_active(&self, peer: &PeerId) -> (r: bool)
        requires
            self.wf(),
        ensures
            r == active_of(self@, peer@).is_some(),
    {
        match self.find(peer) {
            Some(i) => self.slots[i].state.active_connection.is_some(),
            None => false,
        }
    }

    /// The winning connection recorded for `peer`, if any.
    pub fn active(&self, peer: &PeerId) -> (r: Option<&C>)
        requires
            self.wf(),
        ensures
            match r {
                Some(c) => active_of(self@, peer@) == Some(*c),
                None => active_of(self@, peer@).is_none(),
            },
    {
        match self.find(peer) {
            Some(i) => self.slots[i].state.active_connection.as_ref(),
            None => None,
        }
    }

    /// Replaces the slot at `i`, handing back what it held.
    fn swap_slot(&mut self, i: usize, slot: Slot<C>) -> (r: Slot<C>)
        requires
            i < old(self).slots@.len(),
        ensures
            final(self).slots@ == old(self).slots@.update(i as int, slot),
            final(self).table == old(self).table,
            r == old(self).slots@[i as int],
    {
        let r = self.slots.remove(i);
        self.slots.insert(i, slot);
        assert(self.slots@ =~= old(self).slots@.update(i as int, slot));
        r
    }

    /// Counts one more handshake racing for `peer`, creating its entry if needed.
    pub fn begin_handshake(&mut self, peer: PeerId)
        requires
            old(self).wf(),
            handshaking_of(old(self)@, peer@) < u64::MAX,
        ensures
            final(self).wf(),
            final(self)@ == after_begin(old(self)@, peer@),
    {
        match self.find(&peer) {
            Some(i) => {
                let placeholder = Slot {
                    peer,
                    state: ConnectionId { currently_handshaking: 0, active_connection: None },
                };
                let old_slot = self.swap_slot(i, placeholder);
                let Slot { peer: p, state: ConnectionId { currently_handshaking, active_connection } } =
                    old_slot;
                let slot = Slot {
                    peer: p,
                    state: ConnectionId {
                        currently_handshaking: currently_handshaking + 1,
                        active_connection,
                    },
                };
                self.swap_slot(i, slot);
                self.table = Ghost(after_begin(self.table@, peer@));
                proof {
                    lemma_agree_update(old(self).slots@, old(self).table@, i as int, self.slots@[i as int]);
                    assert(self.slots@ =~= old(self).slots@.update(i as int, self.slots@[i as int]));
                }
            },
            None => {
                self.slots.push(
                    Slot {
                        peer,
                        state: ConnectionId { currently_handshaking: 1, active_connection: None },
                    },
                );
                self.table = Ghost(after_begin(self.table@, peer@));
                proof {
                    lemma_agree_push(old(self).slots@, old(self).table@, self.slots@.last());
                    assert(self.slots@ =~= old(self).slots@.push(self.slots@.last()));
                }
            },
        }
    }

    /// Records `conn` as the winning connection for `peer`. The handshake
    /// counter is left as it is: the candidate that won accounts for its own exit.
    pub fn set_active(&mut self, peer: PeerId, conn: C)
        requires
            old(self).wf(),
        ensures
            final(self).wf(),
            final(self)@ == after_set_active(old(self)@, peer@, conn),
    {
        match self.find(&peer) {
            Some(i) => {
                let n = self.slots[i].state.currently_handshaking;
                let slot = Slot {
                    peer,
                    state: ConnectionId { currently_handshaking: n, active_connection: Some(conn) },
                };
                self.swap_slot(i, slot);
                self.table = Ghost(after_set_active(self.table@, peer@, conn));
                proof {
                    lemma_agree_update(old(self).slots@, old(self).table@, i as int, self.slots@[i as int]);
                    assert(self.slots@ =~= old(self).slots@.update(i as int, self.slots@[i as int]));
                }
            },
            None => {
                self.slots.push(
                    Slot {
                        peer,
                        state: ConnectionId { currently_handshaking: 0, active_connection: Some(conn) },
                    },
                );
                self.table = Ghost(after_set_active(self.table@, peer@, conn));
                proof {
                    lemma_agree_push(old(self).slots@, old(self).table@, self.slots@.last());
                    assert(self.slots@ =~= old(self).slots@.push(self.slots@.last()));
                }
            },
        }
    }

    /// Counts one handshake for `peer` as over. When no handshake is left and no
    /// winner is recorded, the entry goes away.
    pub fn end_handshake(&mut self, peer: &PeerId)
        requires
            old(self).wf(),
        ensures
            final(self).wf(),
            final(self)@ == after_end(old(self)@, peer@),
    {
        match self.find(peer) {
            Some(i) => {
                let n = self.slots[i].state.currently_handshaking;
                let live = n > 1 || self.slots[i].state.active_connection.is_some();
                if live {
                    let placeholder = Slot {
                        peer: *peer,
                        state: ConnectionId { currently_handshaking: 0, active_connection: None },
                    };
                    let old_slot = self.swap_slot(i, placeholder);
                    let Slot { peer: p, state: ConnectionId { currently_handshaking, active_connection } } =
                        old_slot;
                    let slot = Slot {
                        peer: p,
                        state: ConnectionId {
                            currently_handshaking: if currently_handshaking > 0 {
                                currently_handshaking - 1
                            } else {
                                0
                            },
                            active_connection,
                        },
                    };
                    self.swap_slot(i, slot);
                    self.table = Ghost(after_end(self.table@, peer@));
                    proof {
                        lemma_agree_update(old(self).slots@, old(self).table@, i as int, self.slots@[i as int]);
                        assert(self.slots@ =~= old(self).slots@.update(i as int, self.slots@[i as int]));
                    }
                } else {
                    self.slots.remove(i);
                    self.table = Ghost(after_end(self.table@, peer@));
                    proof {
                        let os = old(self).slots@;
                        assert forall|a: int, b: int|
                            0 <= a < b < self.slots@.len() implies self.slots@[a].peer@
                            != self.slots@[b].peer@ by {
                            let oa = if a < i { a } else { a + 1 };
                            let ob = if b < i { b } else { b + 1 };
                            assert(self.slots@[a] == os[oa]);
                            assert(self.slots@[b] == os[ob]);
                        }
                        assert forall|a: int| 0 <= a < self.slots@.len() implies self.table@.contains_key(
                            #[trigger] self.slots@[a].peer@,
                        ) && self.table@[self.slots@[a].peer@] == self.slots@[a].state by {
                            let oa = if a < i { a } else { a + 1 };
                            assert(self.slots@[a] == os[oa]);
                            assert(os[oa].peer@ != os[i as int].peer@);
                        }
                        assert forall|k: Seq<u8>| #[trigger]
                            self.table@.contains_key(k) implies exists|a: int|
                                0 <= a < self.slots@.len() && self.slots@[a].peer@ == k by {
                            assert(old(self).table@.contains_key(k));
                            let j = choose|a: int| 0 <= a < os.len() && os[a].peer@ == k;
                            assert(j != i);
                            if j < i {
                                assert(self.slots@[j].peer@ == k);
                            } else {
                                assert(self.slots@[j - 1].peer@ == k);
                            }
                        }
                    }
                }
            },
            None => {},
        }
    }
}

} // verus!
