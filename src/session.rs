use vstd::prelude::*;

verus! {

/// A UDP endpoint address as plain values. An IPv4 address is held in the
/// low 32 bits of `ip`, with `v6` false and `flowinfo`, `scope_id` zero.
#[derive(Clone, Copy, Debug, PartialEq, Eq, Structural)]
pub struct PeerAddr {
    pub v6: bool,
    pub ip: u128,
    pub port: u16,
    pub flowinfo: u32,
    pub scope_id: u32,
}

impl PeerAddr {
    /// The IPv4 address `a.b.c.d` with a port.
    pub fn v4(a: u8, b: u8, c: u8, d: u8, port: u16) -> (r: PeerAddr)
        ensures
            !r.v6,
            r.ip == a as int * 0x1000000 + b as int * 0x10000 + c as int * 0x100 + d as int,
            r.port == port,
            r.flowinfo == 0,
            r.scope_id == 0,
    {
        let ip: u128 = (a as u128) * 0x1000000 + (b as u128) * 0x10000 + (c as u128) * 0x100 + (d as u128);
        PeerAddr { v6: false, ip, port, flowinfo: 0, scope_id: 0 }
    }
}

/// What a session records of its peer: its identifier and the address of the
/// downstream peer that opened it. The session's upstream-facing socket is
/// kept beside it by whoever owns the sockets.
#[derive(Clone, Copy, Debug, PartialEq, Eq, Structural)]
pub struct UpstreamInfo {
    pub id: u64,
    pub downstream_addr: PeerAddr,
}

/// How a peer address was resolved to a session.
#[derive(Clone, Copy, Debug, PartialEq, Eq, Structural)]
pub enum Resolved {
    /// The peer already had the session with this identifier.
    Existing(u64),
    /// A session with this identifier was opened for the peer.
    Created(u64),
    /// The peer had no session and every identifier has been handed out.
    Exhausted,
}

/// Sessions as a map from identifier to peer address.
pub type Sessions = Map<u64, PeerAddr>;

/// No two sessions belong to one peer.
pub open spec fn one_per_peer(m: Sessions) -> bool {
    forall|a: u64, b: u64|
        m.contains_key(a) && m.contains_key(b) && #[trigger] m[a] == #[trigger] m[b] ==> a == b
}

/// A consistent set of sessions: one per peer, every identifier below the
/// next one to be handed out.
pub open spec fn sessions_ok(m: Sessions, next_id: u64) -> bool {
    &&& m.dom().finite()
    &&& one_per_peer(m)
    &&& forall|id: u64| m.contains_key(id) ==> id < next_id
}

pub open spec fn has_peer(m: Sessions, addr: PeerAddr) -> bool {
    exists|id: u64| m.contains_key(id) && m[id] == addr
}

/// The session of a peer that has one.
pub open spec fn session_of(m: Sessions, addr: PeerAddr) -> u64
    recommends
        has_peer(m, addr),
{
    choose|id: u64| m.contains_key(id) && m[id] == addr
}

/// Resolving a peer: its session if it has one, else a new session under the
/// next identifier. Gives the sessions after, the next identifier after, and
/// the outcome.
pub open spec fn resolve(m: Sessions, next_id: u64, addr: PeerAddr) -> (Sessions, u64, Resolved) {
    if has_peer(m, addr) {
        (m, next_id, Resolved::Existing(session_of(m, addr)))
    } else if next_id == u64::MAX {
        (m, next_id, Resolved::Exhausted)
    } else {
        (m.insert(next_id, addr), (next_id + 1) as u64, Resolved::Created(next_id))
    }
}

impl Resolved {
    /// The session that a peer was resolved to, if any.
    pub open spec fn session(self) -> Option<u64> {
        match self {
            Resolved::Existing(id) => Some(id),
            Resolved::Created(id) => Some(id),
            Resolved::Exhausted => None,
        }
    }
}

/// Resolving a peer keeps the sessions consistent, and records the peer
/// under the identifier it was resolved to.
pub proof fn lemma_resolve_ok(m: Sessions, next_id: u64, addr: PeerAddr)
    requires
        sessions_ok(m, next_id),
    ensures
        ({
            let (m1, n1, r) = resolve(m, next_id, addr);
            &&& sessions_ok(m1, n1)
            &&& n1 >= next_id
            &&& m1.dom().subset_of(m.dom().insert(next_id))
            &&& forall|id: u64| #[trigger] m.contains_key(id) ==> m1.contains_key(id) && m1[id] == m[id]
            &&& r.session() matches Some(id) ==> m1.contains_key(id) && m1[id] == addr
        }),
{
    if has_peer(m, addr) {
        let id = session_of(m, addr);
        assert(m.contains_key(id) && m[id] == addr);
    } else if next_id < u64::MAX {
        let m1 = m.insert(next_id, addr);
        assert forall|a: u64, b: u64|
            m1.contains_key(a) && m1.contains_key(b) && #[trigger] m1[a] == #[trigger] m1[b] implies a == b by {
            if a != next_id && b != next_id {
                assert(m[a] == m[b]);
            } else if a == next_id && b != next_id {
                assert(m[b] == addr);
            } else if a != next_id && b == next_id {
                assert(m[a] == addr);
            }
        }
    }
}

/// Ending a session keeps the sessions consistent.
pub proof fn lemma_remove_ok(m: Sessions, next_id: u64, id: u64)
    requires
        sessions_ok(m, next_id),
    ensures
        sessions_ok(m.remove(id), next_id),
{
}

/// However many datagrams a peer sends, the session that resolving it once
/// gave is the one it keeps: resolving it again changes nothing, and no other
/// session belongs to it.
pub proof fn lemma_repeated_contact_one_session(m: Sessions, next_id: u64, addr: PeerAddr)
    requires
        sessions_ok(m, next_id),
    ensures
        ({
            let (m1, n1, r) = resolve(m, next_id, addr);
            r.session() matches Some(id) ==> {
                &&& resolve(m1, n1, addr) == (m1, n1, Resolved::Existing(id))
                &&& forall|other: u64| #[trigger] m1.contains_key(other) && m1[other] == addr ==> other == id
            }
        }),
{
    lemma_resolve_ok(m, next_id, addr);
    let (m1, n1, r) = resolve(m, next_id, addr);
    if let Some(id) = r.session() {
        assert(m1.contains_key(id) && m1[id] == addr);
        assert(has_peer(m1, addr));
        let again = session_of(m1, addr);
        assert(m1.contains_key(again) && m1[again] == addr);
        assert(again == id);
    }
}

/// Once a peer's session has ended, the peer's next datagram opens a new
/// session under an identifier that no session has had before.
pub proof fn lemma_fresh_session_after_end(m: Sessions, next_id: u64, id: u64, addr: PeerAddr)
    requires
        sessions_ok(m, next_id),
        m.contains_key(id),
        m[id] == addr,
        next_id < u64::MAX,
    ensures
        resolve(m.remove(id), next_id, addr) == (
            m.remove(id).insert(next_id, addr),
            (next_id + 1) as u64,
            Resolved::Created(next_id),
        ),
        next_id != id,
        !m.contains_key(next_id),
{
    let m1 = m.remove(id);
    if has_peer(m1, addr) {
        let other = choose|o: u64| m1.contains_key(o) && m1[o] == addr;
        assert(m.contains_key(other) && m[other] == m[id]);
    }
}

/// Two different peers are resolved to two different sessions, each recorded
/// with its own peer's address and no other.
pub proof fn lemma_peers_isolated(m: Sessions, next_id: u64, a: PeerAddr, b: PeerAddr)
    requires
        sessions_ok(m, next_id),
        a != b,
    ensures
        ({
            let (m1, n1, ra) = resolve(m, next_id, a);
            let (m2, n2, rb) = resolve(m1, n1, b);
            ra.session() is Some && rb.session() is Some ==> {
                &&& ra.session()->0 != rb.session()->0
                &&& m2[ra.session()->0] == a
                &&& m2[rb.session()->0] == b
            }
        }),
{
    lemma_resolve_ok(m, next_id, a);
    let (m1, n1, ra) = resolve(m, next_id, a);
    lemma_resolve_ok(m1, n1, b);
    let (m2, n2, rb) = resolve(m1, n1, b);
    if let Some(ia) = ra.session() {
        assert(m1.contains_key(ia));
        assert(m2[ia] == a);
        if let Some(ib) = rb.session() {
            assert(m2[ib] == b);
            assert(ia != ib);
        }
    }
}

/// The registry of live sessions, keyed by downstream peer address.
pub struct SessionTable {
    infos: Vec<UpstreamInfo>,
    next_id: u64,
    model: Ghost<Sessions>,
}

impl View for SessionTable {
    type V = Sessions;

    closed spec fn view(&self) -> Sessions {
        self.model@
    }
}

impl SessionTable {
    /// The identifier that the next new session gets.
    pub closed spec fn next_id(&self) -> u64 {
        self.next_id
    }

    pub closed spec fn wf(&self) -> bool {
        &&& sessions_ok(self.model@, self.next_id)
        &&& self.infos@.len() == self.model@.dom().len()
        &&& forall|i: int|
            0 <= i < self.infos@.len() ==> {
                &&& self.model@.contains_key(#[trigger] self.infos@[i].id)
                &&& self.model@[self.infos@[i].id] == self.infos@[i].downstream_addr
            }
        &&& forall|id: u64|
            #[trigger] self.model@.contains_key(id) ==> exists|i: int|
                0 <= i < self.infos@.len() && #[trigger] self.infos@[i].id == id
        &&& forall|i: int, j: int|
            0 <= i < self.infos@.len() && 0 <= j < self.infos@.len() && i != j
                ==> #[trigger] self.infos@[i].id != #[trigger] self.infos@[j].id
    }

    /// A well-formed table holds consistent sessions.
    pub proof fn lemma_sessions_ok(&self)
        requires
            self.wf(),
        ensures
            sessions_ok(self@, self.next_id()),
    {
    }

    /// An empty table.
    pub fn new() -> (r: SessionTable)
        ensures
            r.wf(),
            r@ == Sessions::empty(),
            r.next_id() == 0,
    {
        SessionTable { infos: Vec::new(), next_id: 0, model: Ghost(Map::empty()) }
    }

    /// The number of live sessions.
    pub fn len(&self) -> (r: usize)
        requires
            self.wf(),
        ensures
            r == self@.dom().len(),
    {
        self.infos.len()
    }

    /// The position in the list of the session of `addr`, if it has one.
    fn position_of(&self, addr: PeerAddr) -> (r: Option<usize>)
        requires
            self.wf(),
        ensures
            match r {
                Some(i) => i < self.infos@.len() && self.infos@[i as int].downstream_addr == addr,
                None => !has_peer(self@, addr),
            },
    {
        let mut i: usize = 0;
        while i < self.infos.len()
            invariant
                self.wf(),
                i <= self.infos@.len(),
                forall|k: int| 0 <= k < i ==> #[trigger] self.infos@[k].downstream_addr != addr,
            decreases self.infos@.len() - i,
        {
            if self.infos[i].downstream_addr == addr {
                return Some(i);
            }
            i += 1;
        }
        proof {
            if has_peer(self@, addr) {
                let id = session_of(self@, addr);
                let k = choose|k: int| 0 <= k < self.infos@.len() && #[trigger] self.infos@[k].id == id;
                assert(self.infos@[k].downstream_addr == addr);
            }
        }
        None
    }

    /// The session of the peer `addr`, if it has one.
    pub fn find(&self, addr: PeerAddr) -> (r: Option<UpstreamInfo>)
        requires
            self.wf(),
        ensures
            match r {
                Some(info) => {
                    &&& self@.contains_key(info.id)
                    &&& self@[info.id] == addr
                    &&& info.downstream_addr == addr
                },
                None => !has_peer(self@, addr),
            },
    {
        match self.position_of(addr) {
            Some(i) => Some(self.infos[i]),
            None => None,
        }
    }

    /// The session of the peer `addr`, opened under the next identifier if the
    /// peer has none.
    pub fn insert_if_absent(&mut self, addr: PeerAddr) -> (r: Resolved)
        requires
            old(self).wf(),
        ensures
            final(self).wf(),
            (final(self)@, final(self).next_id(), r) == resolve(old(self)@, old(self).next_id(), addr),
    {
        match self.position_of(addr) {
            Some(i) => {
                let id = self.infos[i].id;
                proof {
                    let m = self@;
                    let other = session_of(m, addr);
                    assert(m.contains_key(id) && m[id] == addr);
                    assert(other == id);
                }
                Resolved::Existing(id)
            },
            None => {
                if self.next_id == u64::MAX {
                    return Resolved::Exhausted;
                }
                let id = self.next_id;
                let ghost old_infos = self.infos@;
                let ghost old_model = self.model@;
                self.infos.push(UpstreamInfo { id, downstream_addr: addr });
                self.next_id = id + 1;
                self.model = Ghost(old_model.insert(id, addr));
                proof {
                    assert(!old_model.contains_key(id));
                    assert(self.model@.dom() =~= old_model.dom().insert(id));
                    assert forall|k: u64| #[trigger] self.model@.contains_key(k) implies exists|i: int|
                        0 <= i < self.infos@.len() && #[trigger] self.infos@[i].id == k by {
                        if k == id {
                            assert(self.infos@[old_infos.len() as int].id == k);
                        } else {
                            let i = choose|i: int| 0 <= i < old_infos.len() && #[trigger] old_infos[i].id == k;
                            assert(self.infos@[i].id == k);
                        }
                    }
                    assert forall|a: u64, b: u64|
                        self.model@.contains_key(a) && self.model@.contains_key(b)
                            && #[trigger] self.model@[a] == #[trigger] self.model@[b] implies a == b by {
                        if a != id && b != id {
                            assert(old_model[a] == old_model[b]);
                        } else if a == id && b != id {
                            assert(old_model[b] == addr);
                        } else if a != id && b == id {
                            assert(old_model[a] == addr);
                        }
                    }
                }
                Resolved::Created(id)
            },
        }
    }

    /// Ends the session `id`. Gives whether it was live; ending a session that
    /// has already ended changes nothing.
    pub fn remove(&mut self, id: u64) -> (r: bool)
        requires
            old(self).wf(),
        ensures
            final(self).wf(),
            r == old(self)@.contains_key(id),
            final(self)@ == old(self)@.remove(id),
            final(self).next_id() == old(self).next_id(),
    {
        let mut i: usize = 0;
        while i < self.infos.len()
            invariant
                self.wf(),
                i <= self.infos@.len(),
                forall|k: int| 0 <= k < i ==> #[trigger] self.infos@[k].id != id,
                *self == *old(self),
            decreases self.infos@.len() - i,
        {
            if self.infos[i].id == id {
                let ghost old_infos = self.infos@;
                let ghost old_model = self.model@;
                self.infos.remove(i);
                self.model = Ghost(old_model.remove(id));
                proof {
                    assert(self.model@.dom() =~= old_model.dom().remove(id));
                    assert forall|j: int| 0 <= j < self.infos@.len() implies {
                        &&& self.model@.contains_key(#[trigger] self.infos@[j].id)
                        &&& self.model@[self.infos@[j].id] == self.infos@[j].downstream_addr
                    } by {
                        let oj = if j < i { j } else { j + 1 };
                        assert(self.infos@[j] == old_infos[oj]);
                        assert(old_infos[oj].id != id);
                    }
                    assert forall|k: u64| #[trigger] self.model@.contains_key(k) implies exists|j: int|
                        0 <= j < self.infos@.len() && #[trigger] self.infos@[j].id == k by {
                        let oj = choose|oj: int| 0 <= oj < old_infos.len() && #[trigger] old_infos[oj].id == k;
                        if oj < i {
                            assert(self.infos@[oj].id == k);
                        } else {
                            assert(oj != i as int);
                            assert(self.infos@[oj - 1].id == k);
                        }
                    }
                    assert forall|a: int, b: int|
                        0 <= a < self.infos@.len() && 0 <= b < self.infos@.len() && a != b
                            implies #[trigger] self.infos@[a].id != #[trigger] self.infos@[b].id by {
                        let oa = if a < i { a } else { a + 1 };
                        let ob = if b < i { b } else { b + 1 };
                        assert(self.infos@[a] == old_infos[oa]);
                        assert(self.infos@[b] == old_infos[ob]);
                    }
                }
                return true;
            }
            i += 1;
        }
        proof {
            if self@.contains_key(id) {
                let k = choose|k: int| 0 <= k < self.infos@.len() && #[trigger] self.infos@[k].id == id;
                assert(self.infos@[k].id == id);
            }
            assert(self@.remove(id) =~= self@);
        }
        false
    }
}

} // verus!
