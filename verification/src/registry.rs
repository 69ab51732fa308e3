//! The route server's endpoint registry.
//!
//! The registry maps each protocol to the endpoints serving it, each with the
//! shard set it claims and the time of its last heartbeat.  Its invariant:
//! within one protocol no shard is claimed by two endpoints, and endpoint
//! identities are unique.  Every mutation preserves the invariant, so any
//! sequence of registration, heartbeat and disconnect events does too.

use vstd::prelude::*;
use vstd::slice::slice_to_vec;
use crate::error::{ErrCode, NetError};
use crate::message::{bytes_eq, Protocol};
use crate::SHARD_COUNT;

verus! {

/// Identifier of one partition of the routing key space.
pub type ShardId = u32;

/// Milliseconds between heartbeats an endpoint is expected to send.
pub const DEFAULT_HEARTBEAT_MS: u64 = 30_000;

/// One registered endpoint: its transport identity, the protocol it serves,
/// the shards it claims, and when it was last heard from.
#[derive(Clone, Debug)]
pub struct Endpoint {
    pub endpoint_id: Vec<u8>,
    pub protocol: Protocol,
    pub shards: Vec<ShardId>,
    pub last_heartbeat: u64,
}

impl Endpoint {
    /// Whether this endpoint serves shard `s` of protocol `p`.
    pub open spec fn claims(self, p: Protocol, s: ShardId) -> bool {
        self.protocol == p && self.shards@.contains(s)
    }

    /// An endpoint is live while its last heartbeat is at most two heartbeat
    /// windows old.
    pub open spec fn live(self, now: u64, heartbeat_ms: u64) -> bool {
        now <= self.last_heartbeat + 2 * heartbeat_ms
    }
}

/// Matches an endpoint record against its defining fields.
pub open spec fn ep_matches(
    e: Endpoint,
    p: Protocol,
    id: Seq<u8>,
    shards: Seq<ShardId>,
    hb: u64,
) -> bool {
    &&& e.protocol == p
    &&& e.endpoint_id@ == id
    &&& e.shards@ == shards
    &&& e.last_heartbeat == hb
}

/// The registry of every known endpoint, owned by the route server.
#[derive(Debug)]
pub struct ServerMap {
    pub entries: Vec<Endpoint>,
    /// The heartbeat interval liveness is judged against.
    pub heartbeat_ms: u64,
}

/// Registry invariant over an entry list: endpoint identities are unique,
/// and within one protocol every shard has at most one claimant.
pub open spec fn entries_wf(s: Seq<Endpoint>) -> bool {
    &&& forall|i: int, j: int|
        0 <= i < j < s.len() ==> (#[trigger] s[i]).endpoint_id@ != (#[trigger] s[j]).endpoint_id@
    &&& forall|i: int, j: int, sh: ShardId|
        0 <= i < j < s.len() && s[i].protocol == s[j].protocol ==> !((#[trigger] s[
        i
        ].shards@.contains(sh)) && (#[trigger] s[j].shards@.contains(sh)))
}

impl ServerMap {
    /// Registry invariant: endpoint identities are unique, and within one
    /// protocol every shard has at most one claimant.
    pub open spec fn wf(self) -> bool {
        entries_wf(self.entries@)
    }

    /// Position of the endpoint with the given identity, if registered.
    pub open spec fn spec_find(s: Seq<Endpoint>, id: Seq<u8>) -> Option<int>
        decreases s.len(),
    {
        if s.len() == 0 {
            None
        } else if s[0].endpoint_id@ == id {
            Some(0int)
        } else {
            match Self::spec_find(s.drop_first(), id) {
                None => None,
                Some(i) => Some(i + 1),
            }
        }
    }

    /// Whether registering `(p, id, shards)` collides with another endpoint:
    /// some other endpoint of the same protocol already claims one of the
    /// shards.
    pub open spec fn spec_conflict(self, p: Protocol, id: Seq<u8>, shards: Seq<ShardId>) -> bool {
        exists|j: int, s: ShardId|
            0 <= j < self.entries@.len() && self.entries@[j].protocol == p
                && self.entries@[j].endpoint_id@ != id && (#[trigger] self.entries@[
                j
            ].shards@.contains(s)) && shards.contains(s)
    }

    /// An empty registry judging liveness against the given heartbeat
    /// interval.
    pub fn new(heartbeat_ms: u64) -> (m: ServerMap)
        ensures
            m.wf(),
            m.entries@.len() == 0,
            m.heartbeat_ms == heartbeat_ms,
    {
        ServerMap { entries: Vec::new(), heartbeat_ms }
    }

    /// Index of the endpoint with identity `id`, faithful to [`Self::spec_find`].
    fn find_index(&self, id: &Vec<u8>) -> (r: Option<usize>)
        ensures
            match r {
                Some(i) => Self::spec_find(self.entries@, id@) == Some(i as int) && i
                    < self.entries@.len() && self.entries@[i as int].endpoint_id@ == id@,
                None => Self::spec_find(self.entries@, id@) is None,
            },
    {
        let mut i: usize = 0;
        while i < self.entries.len()
            invariant
                i <= self.entries@.len(),
                forall|j: int| 0 <= j < i ==> (#[trigger] self.entries@[j]).endpoint_id@ != id@,
            decreases self.entries@.len() - i,
        {
            if bytes_eq(&self.entries[i].endpoint_id, id) {
                proof {
                    Self::lemma_find_at(self.entries@, id@, i as int);
                }
                return Some(i);
            }
            i = i + 1;
        }
        proof {
            Self::lemma_find_none(self.entries@, id@);
        }
        None
    }

    /// `spec_find` lands on the first matching index.
    proof fn lemma_find_at(s: Seq<Endpoint>, id: Seq<u8>, i: int)
        requires
            0 <= i < s.len(),
            s[i].endpoint_id@ == id,
            forall|j: int| 0 <= j < i ==> (#[trigger] s[j]).endpoint_id@ != id,
        ensures
            Self::spec_find(s, id) == Some(i),
        decreases i,
    {
        if i > 0 {
            Self::lemma_find_at(s.drop_first(), id, i - 1);
        }
    }

    /// `spec_find` misses when no entry matches.
    proof fn lemma_find_none(s: Seq<Endpoint>, id: Seq<u8>)
        requires
            forall|j: int| 0 <= j < s.len() ==> (#[trigger] s[j]).endpoint_id@ != id,
        ensures
            Self::spec_find(s, id) is None,
        decreases s.len(),
    {
        if s.len() > 0 {
            Self::lemma_find_none(s.drop_first(), id);
        }
    }

    /// Whether any shard in `a` is also in `b`.
    fn shards_intersect(a: &Vec<ShardId>, b: &Vec<ShardId>) -> (r: bool)
        ensures
            r == exists|s: ShardId| a@.contains(s) && b@.contains(s),
    {
        let mut i: usize = 0;
        while i < a.len()
            invariant
                i <= a@.len(),
                forall|j: int| 0 <= j < i ==> !b@.contains(#[trigger] a@[j]),
            decreases a@.len() - i,
        {
            let s = a[i];
            let mut k: usize = 0;
            while k < b.len()
                invariant
                    k <= b@.len(),
                    s == a@[i as int],
                    i < a@.len(),
                    forall|j: int| 0 <= j < k ==> b@[j] != s,
                decreases b@.len() - k,
            {
                if b[k] == s {
                    assert(a@.contains(s) && b@.contains(s));
                    return true;
                }
                k = k + 1;
            }
            assert(!b@.contains(s)) by {
                assert(forall|j: int| 0 <= j < b@.len() ==> b@[j] != s);
            }
            i = i + 1;
        }
        proof {
            if exists|s: ShardId| a@.contains(s) && b@.contains(s) {
                let s = choose|s: ShardId| a@.contains(s) && b@.contains(s);
                let j = choose|j: int| 0 <= j < a@.len() && a@[j] == s;
                assert(!b@.contains(a@[j]));
            }
        }
        false
    }

    /// Admits or rejects a registration.  Succeeds exactly when no other
    /// endpoint of the same protocol claims one of the shards; on success the
    /// endpoint's record is inserted, or replaced in place when the identity
    /// was already registered.  On rejection the registry is unchanged.
    pub fn add(
        &mut self,
        protocol: Protocol,
        endpoint_id: Vec<u8>,
        shards: Vec<ShardId>,
        now: u64,
    ) -> (ok: bool)
        requires
            old(self).wf(),
        ensures
            final(self).wf(),
            final(self).heartbeat_ms == old(self).heartbeat_ms,
            ok == !old(self).spec_conflict(protocol, endpoint_id@, shards@),
            !ok ==> final(self).entries@ == old(self).entries@,
            ok ==> match Self::spec_find(old(self).entries@, endpoint_id@) {
                Some(i) => {
                    &&& final(self).entries@.len() == old(self).entries@.len()
                    &&& ep_matches(
                        final(self).entries@[i],
                        protocol,
                        endpoint_id@,
                        shards@,
                        now,
                    )
                    &&& forall|j: int|
                        0 <= j < old(self).entries@.len() && j != i ==> final(self).entries@[j]
                            == old(self).entries@[j]
                },
                None => {
                    &&& final(self).entries@.len() == old(self).entries@.len() + 1
                    &&& ep_matches(
                        final(self).entries@[old(self).entries@.len() as int],
                        protocol,
                        endpoint_id@,
                        shards@,
                        now,
                    )
                    &&& forall|j: int|
                        0 <= j < old(self).entries@.len() ==> final(self).entries@[j] == old(
                            self,
                        ).entries@[j]
                },
            },
    {
        let mut j: usize = 0;
        while j < self.entries.len()
            invariant
                self == old(self),
                old(self).wf(),
                j <= self.entries@.len(),
                forall|t: int, s: ShardId|
                    0 <= t < j && self.entries@[t].protocol == protocol
                        && self.entries@[t].endpoint_id@ != endpoint_id@ ==> !((
                    #[trigger] self.entries@[t].shards@.contains(s)) && shards@.contains(s)),
            decreases self.entries@.len() - j,
        {
            let e = &self.entries[j];
            if protocol_eq(e.protocol, protocol) && !bytes_eq(&e.endpoint_id, &endpoint_id) {
                if Self::shards_intersect(&e.shards, &shards) {
                    proof {
                        let s = choose|s: ShardId|
                            e.shards@.contains(s) && shards@.contains(s);
                        assert(self.spec_conflict(protocol, endpoint_id@, shards@)) by {
                            assert(self.entries@[j as int].protocol == protocol
                                && self.entries@[j as int].endpoint_id@ != endpoint_id@
                                && self.entries@[j as int].shards@.contains(s)
                                && shards@.contains(s));
                        }
                    }
                    return false;
                }
            }
            j = j + 1;
        }
        proof {
            if self.spec_conflict(protocol, endpoint_id@, shards@) {
                let (t, s) = choose|t: int, s: ShardId|
                    0 <= t < self.entries@.len() && self.entries@[t].protocol == protocol
                        && self.entries@[t].endpoint_id@ != endpoint_id@ && (
                    #[trigger] self.entries@[t].shards@.contains(s)) && shards@.contains(s);
                assert(false);
            }
        }
        let ep = Endpoint { endpoint_id, protocol, shards, last_heartbeat: now };
        let ghost epg = ep;
        match self.find_index(&ep.endpoint_id) {
            Some(i) => {
                self.entries.set(i, ep);
                proof {
                    Self::lemma_find_some(old(self).entries@, epg.endpoint_id@);
                    assert forall|j: int|
                        0 <= j < self.entries@.len() && j != i implies self.entries@[
                        j
                    ].endpoint_id@ != epg.endpoint_id@ by {
                        assert(self.entries@[j] == old(self).entries@[j]);
                        assert(old(self).entries@[i as int].endpoint_id@ == epg.endpoint_id@);
                    }
                    self.lemma_wf_after_insert(*old(self), i as int);
                }
            },
            None => {
                let ghost gi = self.entries@.len() as int;
                self.entries.push(ep);
                proof {
                    Self::lemma_find_is_none(old(self).entries@, epg.endpoint_id@);
                    self.lemma_wf_after_insert(*old(self), gi);
                }
            },
        }
        true
    }

    /// Helper for [`Self::add`]: inserting or replacing a conflict-free record
    /// keeps the registry well formed.
    proof fn lemma_wf_after_insert(self, prev: ServerMap, i: int)
        requires
            prev.wf(),
            0 <= i < self.entries@.len(),
            !prev.spec_conflict(
                self.entries@[i].protocol,
                self.entries@[i].endpoint_id@,
                self.entries@[i].shards@,
            ),
            forall|j: int|
                0 <= j < self.entries@.len() && j != i ==> 0 <= j < prev.entries@.len() && (
                #[trigger] self.entries@[j]) == prev.entries@[j],
            forall|j: int|
                0 <= j < self.entries@.len() && j != i ==> (#[trigger] self.entries@[
                    j
                ]).endpoint_id@ != self.entries@[i].endpoint_id@,
        ensures
            self.wf(),
    {
        let id = self.entries@[i].endpoint_id@;
        let protocol = self.entries@[i].protocol;
        assert forall|a: int, b: int|
            0 <= a < b < self.entries@.len() implies (#[trigger] self.entries@[a]).endpoint_id@
            != (#[trigger] self.entries@[b]).endpoint_id@ by {
            if a != i && b != i {
                assert(self.entries@[a] == prev.entries@[a]);
                assert(self.entries@[b] == prev.entries@[b]);
            }
        }
        assert forall|a: int, b: int, s: ShardId|
            0 <= a < b < self.entries@.len() && self.entries@[a].protocol
                == self.entries@[b].protocol && (#[trigger] self.entries@[a].shards@.contains(s))
            implies !(#[trigger] self.entries@[b].shards@.contains(s)) by {
            if a != i && b != i {
                assert(self.entries@[a] == prev.entries@[a]);
                assert(self.entries@[b] == prev.entries@[b]);
            } else {
                let o = if a == i {
                    b
                } else {
                    a
                };
                assert(self.entries@[o] == prev.entries@[o]);
                if self.entries@[b].shards@.contains(s) && self.entries@[a].shards@.contains(s) {
                    assert(prev.entries@[o].protocol == protocol
                        && prev.entries@[o].endpoint_id@ != id && prev.entries@[o].shards@.contains(
                        s,
                    ) && self.entries@[i].shards@.contains(s));
                    assert(prev.spec_conflict(protocol, id, self.entries@[i].shards@));
                }
            }
        }
    }

    /// A successful `spec_find` lands on a matching index.
    proof fn lemma_find_some(s: Seq<Endpoint>, id: Seq<u8>)
        requires
            Self::spec_find(s, id) is Some,
        ensures
            ({
                let i = Self::spec_find(s, id)->0;
                &&& 0 <= i < s.len()
                &&& s[i].endpoint_id@ == id
            }),
        decreases s.len(),
    {
        if s.len() > 0 && s[0].endpoint_id@ != id {
            Self::lemma_find_some(s.drop_first(), id);
        }
    }

    /// A failed `spec_find` means no entry matches.
    proof fn lemma_find_is_none(s: Seq<Endpoint>, id: Seq<u8>)
        requires
            Self::spec_find(s, id) is None,
        ensures
            forall|j: int| 0 <= j < s.len() ==> (#[trigger] s[j]).endpoint_id@ != id,
        decreases s.len(),
    {
        if s.len() > 0 {
            Self::lemma_find_is_none(s.drop_first(), id);
            assert forall|j: int| 0 <= j < s.len() implies (#[trigger] s[j]).endpoint_id@
                != id by {
                if j > 0 {
                    assert(s.drop_first()[j - 1] == s[j]);
                }
            }
        }
    }
}

impl ServerMap {
    /// Refreshes the heartbeat of a known endpoint; heartbeats from unknown
    /// senders are dropped.
    pub fn renew(&mut self, endpoint_id: &Vec<u8>, now: u64) -> (known: bool)
        requires
            old(self).wf(),
        ensures
            final(self).wf(),
            final(self).heartbeat_ms == old(self).heartbeat_ms,
            known == (Self::spec_find(old(self).entries@, endpoint_id@) is Some),
            !known ==> final(self).entries@ == old(self).entries@,
            known ==> ({
                let i = Self::spec_find(old(self).entries@, endpoint_id@)->0;
                &&& final(self).entries@.len() == old(self).entries@.len()
                &&& ep_matches(
                    final(self).entries@[i],
                    old(self).entries@[i].protocol,
                    old(self).entries@[i].endpoint_id@,
                    old(self).entries@[i].shards@,
                    now,
                )
                &&& forall|j: int|
                    0 <= j < old(self).entries@.len() && j != i ==> final(self).entries@[j]
                        == old(self).entries@[j]
            }),
    {
        match self.find_index(endpoint_id) {
            Some(i) => {
                let e = &self.entries[i];
                let renewed = Endpoint {
                    endpoint_id: slice_to_vec(e.endpoint_id.as_slice()),
                    protocol: e.protocol,
                    shards: slice_to_vec(e.shards.as_slice()),
                    last_heartbeat: now,
                };
                let ghost gi = i as int;
                self.entries.set(i, renewed);
                proof {
                    assert(!old(self).spec_conflict(
                        self.entries@[gi].protocol,
                        self.entries@[gi].endpoint_id@,
                        self.entries@[gi].shards@,
                    )) by {
                        if old(self).spec_conflict(
                            self.entries@[gi].protocol,
                            self.entries@[gi].endpoint_id@,
                            self.entries@[gi].shards@,
                        ) {
                            let (t, s) = choose|t: int, s: ShardId|
                                0 <= t < old(self).entries@.len() && old(self).entries@[t].protocol
                                    == self.entries@[gi].protocol && old(
                                    self,
                                ).entries@[t].endpoint_id@ != self.entries@[gi].endpoint_id@ && (
                                #[trigger] old(self).entries@[t].shards@.contains(s))
                                    && self.entries@[gi].shards@.contains(s);
                            assert(t != gi);
                            assert(false);
                        }
                    }
                    self.lemma_wf_after_insert(*old(self), gi);
                }
                true
            },
            None => false,
        }
    }

    /// Removes the endpoint with the given identity from a protocol's list.
    /// Nothing changes when the identity is unknown or serves another
    /// protocol.
    pub fn drop(&mut self, protocol: Protocol, endpoint_id: &Vec<u8>)
        requires
            old(self).wf(),
        ensures
            final(self).wf(),
            final(self).heartbeat_ms == old(self).heartbeat_ms,
            match Self::spec_find(old(self).entries@, endpoint_id@) {
                Some(i) => if old(self).entries@[i].protocol == protocol {
                    final(self).entries@ == old(self).entries@.remove(i)
                } else {
                    final(self).entries@ == old(self).entries@
                },
                None => final(self).entries@ == old(self).entries@,
            },
    {
        match self.find_index(endpoint_id) {
            Some(i) => {
                if protocol_eq(self.entries[i].protocol, protocol) {
                    let ghost gi = i as int;
                    self.entries.remove(i);
                    proof {
                        self.lemma_wf_after_remove(old(self).entries@, gi);
                    }
                }
            },
            None => {},
        }
    }

    /// Removing one entry keeps the registry well formed.
    proof fn lemma_wf_after_remove(self, prev: Seq<Endpoint>, i: int)
        requires
            entries_wf(prev),
            0 <= i < prev.len(),
            self.entries@ == prev.remove(i),
        ensures
            self.wf(),
    {
        let s = self.entries@;
        let p = prev;
        assert forall|a: int, b: int|
            0 <= a < b < s.len() implies (#[trigger] s[a]).endpoint_id@ != (
        #[trigger] s[b]).endpoint_id@ by {
            let oa = if a < i {
                a
            } else {
                a + 1
            };
            let ob = if b < i {
                b
            } else {
                b + 1
            };
            assert(s[a] == p[oa] && s[b] == p[ob]);
        }
        assert forall|a: int, b: int, sh: ShardId|
            0 <= a < b < s.len() && s[a].protocol == s[b].protocol && (
            #[trigger] s[a].shards@.contains(sh)) implies !(#[trigger] s[b].shards@.contains(
            sh,
        )) by {
            let oa = if a < i {
                a
            } else {
                a + 1
            };
            let ob = if b < i {
                b
            } else {
                b + 1
            };
            assert(s[a] == p[oa] && s[b] == p[ob]);
        }
    }
}

impl ServerMap {
    /// First endpoint claiming shard `shard` of protocol `p`.  By the
    /// invariant it is the only one.
    pub open spec fn spec_claimant(s: Seq<Endpoint>, p: Protocol, shard: ShardId) -> Option<int>
        decreases s.len(),
    {
        if s.len() == 0 {
            None
        } else if s[0].claims(p, shard) {
            Some(0int)
        } else {
            match Self::spec_claimant(s.drop_first(), p, shard) {
                None => None,
                Some(i) => Some(i + 1),
            }
        }
    }

    /// First live endpoint of protocol `p`.
    pub open spec fn spec_first_live(
        s: Seq<Endpoint>,
        p: Protocol,
        now: u64,
        heartbeat_ms: u64,
    ) -> Option<int>
        decreases s.len(),
    {
        if s.len() == 0 {
            None
        } else if s[0].protocol == p && s[0].live(now, heartbeat_ms) {
            Some(0int)
        } else {
            match Self::spec_first_live(s.drop_first(), p, now, heartbeat_ms) {
                None => None,
                Some(i) => Some(i + 1),
            }
        }
    }

    /// Whether some endpoint serves protocol `p`.
    pub open spec fn spec_has_protocol(s: Seq<Endpoint>, p: Protocol) -> bool {
        exists|i: int| 0 <= i < s.len() && (#[trigger] s[i]).protocol == p
    }

    /// Which endpoint a request is dispatched to.  A request with a routing
    /// hash goes to the claimant of `hash % SHARD_COUNT`; one without goes to
    /// the first live endpoint of the protocol.  A missing claimant is
    /// `NoShard`; a claimant past its heartbeat window is
    /// `RemoteUnavailable`.
    pub open spec fn spec_select(self, p: Protocol, hash: Option<u64>, now: u64) -> Result<
        Seq<u8>,
        ErrCode,
    > {
        match hash {
            Some(h) => {
                let shard = (h % SHARD_COUNT) as ShardId;
                match Self::spec_claimant(self.entries@, p, shard) {
                    None => Err(ErrCode::NoShard),
                    Some(i) => if self.entries@[i].live(now, self.heartbeat_ms) {
                        Ok(self.entries@[i].endpoint_id@)
                    } else {
                        Err(ErrCode::RemoteUnavailable)
                    },
                }
            },
            None => {
                match Self::spec_first_live(self.entries@, p, now, self.heartbeat_ms) {
                    Some(i) => Ok(self.entries@[i].endpoint_id@),
                    None => if Self::spec_has_protocol(self.entries@, p) {
                        Err(ErrCode::RemoteUnavailable)
                    } else {
                        Err(ErrCode::NoShard)
                    },
                }
            },
        }
    }

    /// `spec_claimant` lands on the first claimant.
    proof fn lemma_claimant_at(s: Seq<Endpoint>, p: Protocol, shard: ShardId, i: int)
        requires
            0 <= i < s.len(),
            s[i].claims(p, shard),
            forall|j: int| 0 <= j < i ==> !(#[trigger] s[j]).claims(p, shard),
        ensures
            Self::spec_claimant(s, p, shard) == Some(i),
        decreases i,
    {
        if i > 0 {
            Self::lemma_claimant_at(s.drop_first(), p, shard, i - 1);
        }
    }

    /// `spec_claimant` misses when nothing claims the shard.
    proof fn lemma_claimant_none(s: Seq<Endpoint>, p: Protocol, shard: ShardId)
        requires
            forall|j: int| 0 <= j < s.len() ==> !(#[trigger] s[j]).claims(p, shard),
        ensures
            Self::spec_claimant(s, p, shard) is None,
        decreases s.len(),
    {
        if s.len() > 0 {
            Self::lemma_claimant_none(s.drop_first(), p, shard);
        }
    }

    /// A found claimant is in range, claims the shard, and is the first to.
    proof fn lemma_claimant_some(s: Seq<Endpoint>, p: Protocol, shard: ShardId)
        requires
            Self::spec_claimant(s, p, shard) is Some,
        ensures
            ({
                let i = Self::spec_claimant(s, p, shard)->0;
                0 <= i < s.len() && s[i].claims(p, shard)
            }),
        decreases s.len(),
    {
        if s.len() > 0 && !s[0].claims(p, shard) {
            Self::lemma_claimant_some(s.drop_first(), p, shard);
        }
    }

    /// `spec_first_live` lands on the first live endpoint of the protocol.
    proof fn lemma_first_live_at(s: Seq<Endpoint>, p: Protocol, now: u64, hb: u64, i: int)
        requires
            0 <= i < s.len(),
            s[i].protocol == p && s[i].live(now, hb),
            forall|j: int|
                0 <= j < i ==> !((#[trigger] s[j]).protocol == p && s[j].live(now, hb)),
        ensures
            Self::spec_first_live(s, p, now, hb) == Some(i),
        decreases i,
    {
        if i > 0 {
            Self::lemma_first_live_at(s.drop_first(), p, now, hb, i - 1);
        }
    }

    /// `spec_first_live` misses when no endpoint of the protocol is live.
    proof fn lemma_first_live_none(s: Seq<Endpoint>, p: Protocol, now: u64, hb: u64)
        requires
            forall|j: int|
                0 <= j < s.len() ==> !((#[trigger] s[j]).protocol == p && s[j].live(now, hb)),
        ensures
            Self::spec_first_live(s, p, now, hb) is None,
        decreases s.len(),
    {
        if s.len() > 0 {
            Self::lemma_first_live_none(s.drop_first(), p, now, hb);
        }
    }

    /// A found first-live endpoint is in range, of the protocol, and live.
    proof fn lemma_first_live_some(s: Seq<Endpoint>, p: Protocol, now: u64, hb: u64)
        requires
            Self::spec_first_live(s, p, now, hb) is Some,
        ensures
            ({
                let i = Self::spec_first_live(s, p, now, hb)->0;
                0 <= i < s.len() && s[i].protocol == p && s[i].live(now, hb)
            }),
        decreases s.len(),
    {
        if s.len() > 0 && !(s[0].protocol == p && s[0].live(now, hb)) {
            Self::lemma_first_live_some(s.drop_first(), p, now, hb);
        }
    }

    /// Picks the endpoint a request is dispatched to, faithful to
    /// [`Self::spec_select`].
    pub fn select(&self, p: Protocol, hash: Option<u64>, now: u64) -> (r: Result<Vec<u8>, ErrCode>)
        ensures
            match r {
                Ok(id) => self.spec_select(p, hash, now) == Ok::<Seq<u8>, ErrCode>(id@),
                Err(e) => self.spec_select(p, hash, now) == Err::<Seq<u8>, ErrCode>(e),
            },
    {
        match hash {
            Some(h) => {
                let shard: ShardId = crate::shard_of(h) as ShardId;
                let mut i: usize = 0;
                while i < self.entries.len()
                    invariant
                        hash == Some(h),
                        shard == (h % SHARD_COUNT) as ShardId,
                        i <= self.entries@.len(),
                        forall|j: int|
                            0 <= j < i ==> !(#[trigger] self.entries@[j]).claims(p, shard),
                    decreases self.entries@.len() - i,
                {
                    let e = &self.entries[i];
                    if protocol_eq(e.protocol, p) && contains_shard(&e.shards, shard) {
                        proof {
                            Self::lemma_claimant_at(self.entries@, p, shard, i as int);
                        }
                        if is_live(e, now, self.heartbeat_ms) {
                            return Ok(slice_to_vec(e.endpoint_id.as_slice()));
                        } else {
                            return Err(ErrCode::RemoteUnavailable);
                        }
                    }
                    i = i + 1;
                }
                proof {
                    Self::lemma_claimant_none(self.entries@, p, shard);
                }
                Err(ErrCode::NoShard)
            },
            None => {
                let mut i: usize = 0;
                let mut saw_protocol = false;
                while i < self.entries.len()
                    invariant
                        hash is None,
                        i <= self.entries@.len(),
                        forall|j: int|
                            0 <= j < i ==> !((#[trigger] self.entries@[j]).protocol == p
                                && self.entries@[j].live(now, self.heartbeat_ms)),
                        saw_protocol == exists|j: int|
                            0 <= j < i && (#[trigger] self.entries@[j]).protocol == p,
                    decreases self.entries@.len() - i,
                {
                    let e = &self.entries[i];
                    if protocol_eq(e.protocol, p) {
                        if is_live(e, now, self.heartbeat_ms) {
                            proof {
                                Self::lemma_first_live_at(
                                    self.entries@,
                                    p,
                                    now,
                                    self.heartbeat_ms,
                                    i as int,
                                );
                            }
                            return Ok(slice_to_vec(e.endpoint_id.as_slice()));
                        }
                        saw_protocol = true;
                        proof {
                            assert(0 <= i < self.entries@.len() && self.entries@[i as int].protocol
                                == p);
                        }
                    }
                    i = i + 1;
                }
                proof {
                    Self::lemma_first_live_none(self.entries@, p, now, self.heartbeat_ms);
                }
                if saw_protocol {
                    Err(ErrCode::RemoteUnavailable)
                } else {
                    Err(ErrCode::NoShard)
                }
            },
        }
    }

    /// A selected endpoint is live: an endpoint whose last heartbeat is
    /// older than two heartbeat windows is never the one dispatched to.
    pub proof fn lemma_stale_not_selected(
        self,
        p: Protocol,
        hash: Option<u64>,
        now: u64,
        i: int,
    )
        requires
            self.wf(),
            0 <= i < self.entries@.len(),
            !self.entries@[i].live(now, self.heartbeat_ms),
        ensures
            self.spec_select(p, hash, now) != Ok::<Seq<u8>, ErrCode>(
                self.entries@[i].endpoint_id@,
            ),
    {
        if self.spec_select(p, hash, now) is Ok {
            match hash {
                Some(h) => {
                    let shard = (h % SHARD_COUNT) as ShardId;
                    Self::lemma_claimant_some(self.entries@, p, shard);
                    let k = Self::spec_claimant(self.entries@, p, shard)->0;
                    assert(self.entries@[k].live(now, self.heartbeat_ms));
                    assert(k != i);
                },
                None => {
                    Self::lemma_first_live_some(self.entries@, p, now, self.heartbeat_ms);
                    let k = Self::spec_first_live(self.entries@, p, now, self.heartbeat_ms)->0;
                    assert(k != i);
                },
            }
        }
    }

    /// Within one protocol every shard has at most one claimant: the shard
    /// sets of two endpoints registered under the same protocol are disjoint.
    pub proof fn lemma_shards_disjoint(self, i: int, j: int, s: ShardId)
        requires
            self.wf(),
            0 <= i < self.entries@.len(),
            0 <= j < self.entries@.len(),
            i != j,
            self.entries@[i].protocol == self.entries@[j].protocol,
        ensures
            !(self.entries@[i].shards@.contains(s) && self.entries@[j].shards@.contains(s)),
    {
    }
}

impl ServerMap {
    /// The identities of every known endpoint, in registry order: the
    /// targets the route server pushes its own heartbeats to, so endpoints
    /// can detect a dead route server.
    pub fn endpoint_ids(&self) -> (ids: Vec<Vec<u8>>)
        ensures
            ids@.len() == self.entries@.len(),
            forall|i: int|
                0 <= i < ids@.len() ==> (#[trigger] ids@[i])@ == self.entries@[i].endpoint_id@,
    {
        let mut ids: Vec<Vec<u8>> = Vec::new();
        let mut i: usize = 0;
        while i < self.entries.len()
            invariant
                i <= self.entries@.len(),
                ids@.len() == i,
                forall|j: int|
                    0 <= j < i ==> (#[trigger] ids@[j])@ == self.entries@[j].endpoint_id@,
            decreases self.entries@.len() - i,
        {
            ids.push(slice_to_vec(self.entries[i].endpoint_id.as_slice()));
            i = i + 1;
        }
        ids
    }

    /// Sweeps the registry: every endpoint past its heartbeat window is
    /// removed, the live ones stay in order.
    pub fn expire(&mut self, now: u64)
        requires
            old(self).wf(),
        ensures
            final(self).wf(),
            final(self).heartbeat_ms == old(self).heartbeat_ms,
            final(self).entries@ == old(self).entries@.filter(
                |e: Endpoint| e.live(now, old(self).heartbeat_ms),
            ),
    {
        let ghost pred = |e: Endpoint| e.live(now, old(self).heartbeat_ms);
        let ghost orig = old(self).entries@;
        let mut i: usize = 0;
        let ghost mut k: int = 0;
        while i < self.entries.len()
            invariant
                self.wf(),
                self.heartbeat_ms == old(self).heartbeat_ms,
                0 <= k <= orig.len(),
                i == orig.take(k).filter(pred).len(),
                pred == (|e: Endpoint| e.live(now, old(self).heartbeat_ms)),
                self.entries@ == orig.take(k).filter(pred) + orig.skip(k),
                i <= self.entries@.len(),
            decreases self.entries@.len() - i,
        {
            proof {
                assert(k < orig.len()) by {
                    assert(orig.skip(k).len() == self.entries@.len() - i);
                }
                assert(self.entries@[i as int] == orig.skip(k)[0]);
                assert(orig.skip(k)[0] == orig[k]);
                reveal(Seq::filter);
                assert(orig.take(k + 1).drop_last() =~= orig.take(k));
                assert(orig.take(k + 1).last() == orig[k]);
            }
            if is_live(&self.entries[i], now, self.heartbeat_ms) {
                proof {
                    assert(orig.take(k + 1).filter(pred) == orig.take(k).filter(pred).push(
                        orig[k],
                    ));
                    assert(orig.take(k).filter(pred).push(orig[k]) + orig.skip(k + 1)
                        =~= self.entries@);
                    k = k + 1;
                }
                i = i + 1;
            } else {
                let ghost before = self.entries@;
                let ghost gi = i as int;
                self.entries.remove(i);
                proof {
                    self.lemma_wf_after_remove(before, gi);
                }
                proof {
                    assert(orig.take(k + 1).filter(pred) == orig.take(k).filter(pred));
                    assert(before.remove(gi) =~= orig.take(k).filter(pred) + orig.skip(k + 1));
                    k = k + 1;
                }
            }
        }
        proof {
            assert(k == orig.len()) by {
                assert(orig.skip(k).len() == 0);
            }
            assert(orig.take(k) =~= orig);
            assert(orig.skip(k).len() == 0);
            assert(self.entries@ =~= orig.filter(pred));
        }
    }
}

/// Whether the endpoint's last heartbeat is within two heartbeat windows.
pub fn is_live(e: &Endpoint, now: u64, heartbeat_ms: u64) -> (r: bool)
    ensures
        r == e.live(now, heartbeat_ms),
{
    (now as u128) <= (e.last_heartbeat as u128) + 2u128 * (heartbeat_ms as u128)
}

/// Whether the shard list contains the given shard.
pub fn contains_shard(v: &Vec<ShardId>, s: ShardId) -> (r: bool)
    ensures
        r == v@.contains(s),
{
    let mut k: usize = 0;
    while k < v.len()
        invariant
            k <= v@.len(),
            forall|j: int| 0 <= j < k ==> v@[j] != s,
        decreases v@.len() - k,
    {
        if v[k] == s {
            return true;
        }
        k = k + 1;
    }
    proof {
        if v@.contains(s) {
            let j = choose|j: int| 0 <= j < v@.len() && v@[j] == s;
        }
    }
    false
}

/// Structural equality of protocol tags.
pub fn protocol_eq(a: Protocol, b: Protocol) -> (r: bool)
    ensures
        r == (a == b),
{
    a == b
}

/// Handles a `Registration` control message.  The registration is admitted
/// exactly when no other endpoint of the protocol claims one of the shards;
/// a successful registration draws no reply, a conflicting one is answered
/// with `RegConflict` and leaves the registry unchanged.
pub fn on_registration(
    servers: &mut ServerMap,
    sender: &Vec<u8>,
    protocol: Protocol,
    shards: Vec<ShardId>,
    now: u64,
) -> (reply: Option<NetError>)
    requires
        old(servers).wf(),
    ensures
        final(servers).wf(),
        final(servers).heartbeat_ms == old(servers).heartbeat_ms,
        (reply is None) == !old(servers).spec_conflict(protocol, sender@, shards@),
        match reply {
            Some(e) => e.code == ErrCode::RegConflict && final(servers).entries@ == old(
                servers,
            ).entries@,
            None => exists|i: int|
                0 <= i < final(servers).entries@.len() && ep_matches(
                    #[trigger] final(servers).entries@[i],
                    protocol,
                    sender@,
                    shards@,
                    now,
                ),
        },
{
    let id = slice_to_vec(sender.as_slice());
    if servers.add(protocol, id, shards, now) {
        proof {
            match ServerMap::spec_find(old(servers).entries@, sender@) {
                Some(i) => {
                    ServerMap::lemma_find_some(old(servers).entries@, sender@);
                    assert(ep_matches(servers.entries@[i], protocol, sender@, shards@, now));
                },
                None => {
                    let i = old(servers).entries@.len() as int;
                    assert(ep_matches(servers.entries@[i], protocol, sender@, shards@, now));
                },
            }
        }
        None
    } else {
        Some(NetError::new(ErrCode::RegConflict, "rt:connect:1"))
    }
}

/// Handles a `Heartbeat` control message: refreshes the sender's record;
/// heartbeats from unknown senders are dropped.
pub fn on_heartbeat(servers: &mut ServerMap, sender: &Vec<u8>, now: u64) -> (known: bool)
    requires
        old(servers).wf(),
    ensures
        final(servers).wf(),
        final(servers).heartbeat_ms == old(servers).heartbeat_ms,
        known == (ServerMap::spec_find(old(servers).entries@, sender@) is Some),
        !known ==> final(servers).entries@ == old(servers).entries@,
        known ==> ({
            let i = ServerMap::spec_find(old(servers).entries@, sender@)->0;
            &&& final(servers).entries@.len() == old(servers).entries@.len()
            &&& final(servers).entries@[i].last_heartbeat == now
            &&& final(servers).entries@[i].endpoint_id@ == old(servers).entries@[i].endpoint_id@
            &&& final(servers).entries@[i].protocol == old(servers).entries@[i].protocol
            &&& final(servers).entries@[i].shards@ == old(servers).entries@[i].shards@
            &&& forall|j: int|
                0 <= j < old(servers).entries@.len() && j != i ==> final(servers).entries@[j]
                    == old(servers).entries@[j]
        }),
{
    servers.renew(sender, now)
}

/// Handles a `Disconnect` control message: removes the sender from the
/// protocol's endpoint list.
pub fn on_disconnect(servers: &mut ServerMap, sender: &Vec<u8>, protocol: Protocol)
    requires
        old(servers).wf(),
    ensures
        final(servers).wf(),
        final(servers).heartbeat_ms == old(servers).heartbeat_ms,
        match ServerMap::spec_find(old(servers).entries@, sender@) {
            Some(i) => if old(servers).entries@[i].protocol == protocol {
                final(servers).entries@ == old(servers).entries@.remove(i)
            } else {
                final(servers).entries@ == old(servers).entries@
            },
            None => final(servers).entries@ == old(servers).entries@,
        },
{
    servers.drop(protocol, sender);
}

/// Decides where a data message goes: the identity of the endpoint claiming
/// its shard, or the error reply the sender gets instead.
pub fn forward_decision(
    servers: &ServerMap,
    protocol: Protocol,
    hash: Option<u64>,
    now: u64,
) -> (r: Result<Vec<u8>, NetError>)
    ensures
        match r {
            Ok(id) => servers.spec_select(protocol, hash, now) == Ok::<Seq<u8>, ErrCode>(id@),
            Err(e) => servers.spec_select(protocol, hash, now) == Err::<Seq<u8>, ErrCode>(e.code)
                && (e.code == ErrCode::NoShard || e.code == ErrCode::RemoteUnavailable),
        },
{
    match servers.select(protocol, hash, now) {
        Ok(id) => Ok(id),
        Err(code) => {
            proof {
                match servers.spec_select(protocol, hash, now) {
                    Ok(_) => { assert(false); },
                    Err(c) => {
                        assert(c == code);
                    },
                }
            }
            if matches!(code, ErrCode::NoShard) {
                Err(NetError::new(ErrCode::NoShard, "rt:route:1"))
            } else {
                Err(NetError::new(ErrCode::RemoteUnavailable, "rt:route:2"))
            }
        },
    }
}

} // verus!
