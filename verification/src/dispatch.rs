//! The backend service's dispatcher: the table mapping message kinds to
//! handlers, the worker-pool bookkeeping with its replacement guarantee, and
//! the decisions of the service's main routing loop.

use vstd::prelude::*;
use crate::bodies::{encode_registration, registration_kind};
use crate::message::{bytes_eq, Message, Protocol};
use crate::registry::ShardId;

verus! {

/// Mutable state a service hands to each worker; every worker gets its own
/// clone of the initial value.
pub trait AppState: Sized + Clone {
    fn is_initialized(&self) -> bool;
}

/// The dispatch table: a finite map from message kinds, fixed at startup, to
/// handler values.
pub struct DispatchTable<H> {
    pub entries: Vec<(Vec<u8>, H)>,
}

impl<H> DispatchTable<H> {
    /// No kind is registered twice.
    pub open spec fn wf(self) -> bool {
        forall|i: int, j: int|
            0 <= i < j < self.entries@.len() ==> (#[trigger] self.entries@[i]).0@ != (
            #[trigger] self.entries@[j]).0@
    }

    /// Whether a handler is registered for the kind.
    pub open spec fn spec_contains(self, kind: Seq<u8>) -> bool {
        exists|i: int| 0 <= i < self.entries@.len() && (#[trigger] self.entries@[i]).0@ == kind
    }

    /// Position of the handler registered for the kind.
    pub open spec fn spec_get(s: Seq<(Vec<u8>, H)>, kind: Seq<u8>) -> Option<int>
        decreases s.len(),
    {
        if s.len() == 0 {
            None
        } else if s[0].0@ == kind {
            Some(0int)
        } else {
            match Self::spec_get(s.drop_first(), kind) {
                None => None,
                Some(i) => Some(i + 1),
            }
        }
    }

    /// An empty table.
    pub fn new() -> (t: DispatchTable<H>)
        ensures
            t.wf(),
            t.entries@.len() == 0,
    {
        DispatchTable { entries: Vec::new() }
    }

    /// The handler registered for a message kind, if any.
    pub fn get(&self, message_id: &Vec<u8>) -> (r: Option<&H>)
        ensures
            match r {
                Some(h) => Self::spec_get(self.entries@, message_id@) matches Some(i) && h == &(
                self.entries@[i].1),
                None => Self::spec_get(self.entries@, message_id@) is None
                    && !self.spec_contains(message_id@),
            },
    {
        let mut i: usize = 0;
        while i < self.entries.len()
            invariant
                i <= self.entries@.len(),
                forall|j: int| 0 <= j < i ==> (#[trigger] self.entries@[j]).0@ != message_id@,
            decreases self.entries@.len() - i,
        {
            if bytes_eq(&self.entries[i].0, message_id) {
                proof {
                    Self::lemma_get_at(self.entries@, message_id@, i as int);
                }
                return Some(&self.entries[i].1);
            }
            i = i + 1;
        }
        proof {
            Self::lemma_get_none(self.entries@, message_id@);
        }
        None
    }

    /// Registers the handler for a message kind.  Registering a kind twice
    /// is a program-defining error, so a fresh kind is required.
    pub fn register(&mut self, kind: Vec<u8>, handler: H)
        requires
            old(self).wf(),
            !old(self).spec_contains(kind@),
        ensures
            final(self).wf(),
            final(self).entries@.len() == old(self).entries@.len() + 1,
            final(self).entries@[old(self).entries@.len() as int].0@ == kind@,
            final(self).entries@[old(self).entries@.len() as int].1 == handler,
            forall|j: int|
                0 <= j < old(self).entries@.len() ==> final(self).entries@[j] == old(
                    self,
                ).entries@[j],
            final(self).spec_contains(kind@),
    {
        let ghost gk = kind@;
        self.entries.push((kind, handler));
        proof {
            let n = old(self).entries@.len() as int;
            assert(self.entries@[n].0@ == gk);
            assert forall|i: int, j: int| 0 <= i < j < self.entries@.len() implies (
            #[trigger] self.entries@[i]).0@ != (#[trigger] self.entries@[j]).0@ by {
                if j < n {
                    assert(self.entries@[i] == old(self).entries@[i]);
                    assert(self.entries@[j] == old(self).entries@[j]);
                } else {
                    assert(self.entries@[i] == old(self).entries@[i]);
                    if self.entries@[i].0@ == gk {
                        assert(old(self).spec_contains(gk));
                    }
                }
            }
        }
    }

    /// `spec_get` lands on the first matching kind.
    proof fn lemma_get_at(s: Seq<(Vec<u8>, H)>, kind: Seq<u8>, i: int)
        requires
            0 <= i < s.len(),
            s[i].0@ == kind,
            forall|j: int| 0 <= j < i ==> (#[trigger] s[j]).0@ != kind,
        ensures
            Self::spec_get(s, kind) == Some(i),
        decreases i,
    {
        if i > 0 {
            Self::lemma_get_at(s.drop_first(), kind, i - 1);
        }
    }

    /// A successful `spec_get` lands on a matching index.
    proof fn lemma_get_some(s: Seq<(Vec<u8>, H)>, kind: Seq<u8>)
        requires
            Self::spec_get(s, kind) is Some,
        ensures
            ({
                let i = Self::spec_get(s, kind)->0;
                0 <= i < s.len() && s[i].0@ == kind
            }),
        decreases s.len(),
    {
        if s.len() > 0 && s[0].0@ != kind {
            Self::lemma_get_some(s.drop_first(), kind);
        }
    }

    /// `spec_get` misses when no kind matches.
    proof fn lemma_get_none(s: Seq<(Vec<u8>, H)>, kind: Seq<u8>)
        requires
            forall|j: int| 0 <= j < s.len() ==> (#[trigger] s[j]).0@ != kind,
        ensures
            Self::spec_get(s, kind) is None,
        decreases s.len(),
    {
        if s.len() > 0 {
            Self::lemma_get_none(s.drop_first(), kind);
        }
    }
}

/// Resolves the handler for an inbound message.  A message without routing
/// metadata, or whose kind has no handler, yields `None`: it is logged and
/// dropped, never answered.
pub fn dispatch<'a, H>(table: &'a DispatchTable<H>, msg: &Message) -> (r: Option<&'a H>)
    ensures
        match r {
            Some(h) => msg.route_info matches Some(ri) && table.spec_contains(ri.message_kind@),
            None => match msg.route_info {
                Some(ri) => !table.spec_contains(ri.message_kind@),
                None => true,
            },
        },
{
    match &msg.route_info {
        Some(ri) => {
            let r = table.get(&ri.message_kind);
            proof {
                if r is Some {
                    DispatchTable::<H>::lemma_get_some(table.entries@, ri.message_kind@);
                    let i = DispatchTable::<H>::spec_get(table.entries@, ri.message_kind@)->0;
                    assert(table.spec_contains(ri.message_kind@)) by {
                        assert(0 <= i < table.entries@.len() && table.entries@[i].0@
                            == ri.message_kind@);
                    }
                }
            }
            r
        },
        None => None,
    }
}

/// Number of live workers.
pub open spec fn spec_live_count(s: Seq<bool>) -> int
    decreases s.len(),
{
    if s.len() == 0 {
        0
    } else {
        (if s[0] {
            1int
        } else {
            0int
        }) + spec_live_count(s.drop_first())
    }
}

/// Bookkeeping of the fixed pool of worker threads: which of the
/// `worker_count` slots currently runs a live worker.
pub struct DispatcherPool {
    pub worker_count: usize,
    pub live: Vec<bool>,
}

impl DispatcherPool {
    /// One slot per worker.
    pub open spec fn wf(self) -> bool {
        self.live@.len() == self.worker_count
    }

    /// A pool of `worker_count` slots, none started yet.
    pub fn new(worker_count: usize) -> (p: DispatcherPool)
        ensures
            p.wf(),
            p.worker_count == worker_count,
            forall|i: int| 0 <= i < worker_count ==> !(#[trigger] p.live@[i]),
    {
        let mut live: Vec<bool> = Vec::new();
        let mut i: usize = 0;
        while i < worker_count
            invariant
                i <= worker_count,
                live@.len() == i,
                forall|j: int| 0 <= j < i ==> !(#[trigger] live@[j]),
            decreases worker_count - i,
        {
            live.push(false);
            i = i + 1;
        }
        DispatcherPool { worker_count, live }
    }

    /// A worker exited unexpectedly: its slot is empty until the supervisor
    /// respawns it.
    pub fn worker_exited(&mut self, id: usize)
        requires
            old(self).wf(),
            id < old(self).worker_count,
        ensures
            final(self).wf(),
            final(self).worker_count == old(self).worker_count,
            final(self).live@ == old(self).live@.update(id as int, false),
    {
        self.live.set(id, false);
    }

    /// One supervisor sweep: every empty slot is restarted.  The returned
    /// ids are exactly the slots to spawn a worker for, in increasing order;
    /// afterwards every slot is live, so the pool runs at its configured
    /// concurrency again.
    pub fn supervise(&mut self) -> (respawn: Vec<usize>)
        requires
            old(self).wf(),
        ensures
            final(self).wf(),
            final(self).worker_count == old(self).worker_count,
            forall|i: int| 0 <= i < final(self).worker_count ==> #[trigger] final(self).live@[i],
            spec_live_count(final(self).live@) == final(self).worker_count,
            forall|j: int|
                0 <= j < respawn@.len() ==> (#[trigger] respawn@[j]) < old(self).worker_count
                    && !old(self).live@[respawn@[j] as int],
            forall|i: int|
                0 <= i < old(self).worker_count && !old(self).live@[i] ==> respawn@.contains(
                    i as usize,
                ),
            forall|a: int, b: int| 0 <= a < b < respawn@.len() ==> respawn@[a] < respawn@[b],
    {
        let mut respawn: Vec<usize> = Vec::new();
        let mut i: usize = 0;
        while i < self.live.len()
            invariant
                self.wf(),
                self.worker_count == old(self).worker_count,
                i <= self.live@.len(),
                forall|j: int| 0 <= j < i ==> #[trigger] self.live@[j],
                forall|j: int| i <= j < self.live@.len() ==> self.live@[j] == old(self).live@[j],
                forall|j: int|
                    0 <= j < respawn@.len() ==> (#[trigger] respawn@[j]) < i && !old(
                        self,
                    ).live@[respawn@[j] as int],
                forall|t: int|
                    0 <= t < i && !old(self).live@[t] ==> respawn@.contains(t as usize),
                forall|a: int, b: int| 0 <= a < b < respawn@.len() ==> respawn@[a] < respawn@[b],
            decreases self.live@.len() - i,
        {
            if !self.live[i] {
                let ghost pre = respawn@;
                respawn.push(i);
                self.live.set(i, true);
                proof {
                    assert(respawn@ == pre.push(i as usize));
                    assert(respawn@[pre.len() as int] == i as usize);
                    assert forall|t: int|
                        0 <= t < i + 1 && !old(self).live@[t] implies respawn@.contains(
                        t as usize,
                    ) by {
                        if t < i {
                            assert(pre.contains(t as usize));
                            let j = choose|j: int| 0 <= j < pre.len() && pre[j] == t as usize;
                            assert(respawn@[j] == t as usize);
                        }
                    }
                    assert forall|a: int, b: int|
                        0 <= a < b < respawn@.len() implies respawn@[a] < respawn@[b] by {
                        if b < pre.len() {
                            assert(respawn@[a] == pre[a] && respawn@[b] == pre[b]);
                        } else {
                            assert(respawn@[a] == pre[a]);
                            assert(pre[a] < i as usize);
                            assert(respawn@[b] == i as usize);
                        }
                    }
                }
            } else {
                proof {
                    assert forall|t: int|
                        0 <= t < i + 1 && !old(self).live@[t] implies respawn@.contains(
                        t as usize,
                    ) by {
                        if t < i {
                        } else {
                            assert(old(self).live@[t]);
                        }
                    }
                }
            }
            i = i + 1;
        }
        proof {
            Self::lemma_all_live_count(self.live@);
        }
        respawn
    }

    /// A pool whose every slot is live runs exactly `len` workers.
    proof fn lemma_all_live_count(s: Seq<bool>)
        requires
            forall|i: int| 0 <= i < s.len() ==> #[trigger] s[i],
        ensures
            spec_live_count(s) == s.len(),
        decreases s.len(),
    {
        if s.len() > 0 {
            Self::lemma_all_live_count(s.drop_first());
        }
    }
}

/// The decimal digit character of `d`.
pub open spec fn spec_digit(d: int) -> char {
    if d == 0 {
        '0'
    } else if d == 1 {
        '1'
    } else if d == 2 {
        '2'
    } else if d == 3 {
        '3'
    } else if d == 4 {
        '4'
    } else if d == 5 {
        '5'
    } else if d == 6 {
        '6'
    } else if d == 7 {
        '7'
    } else if d == 8 {
        '8'
    } else {
        '9'
    }
}

/// The decimal rendering of `n`, most significant digit first.
pub open spec fn spec_decimal(n: int) -> Seq<char>
    decreases n,
{
    if n < 10 {
        seq![spec_digit(n)]
    } else {
        spec_decimal(n / 10) + seq![spec_digit(n % 10)]
    }
}

/// One decimal digit as a string slice.
fn digit_str(d: u64) -> (r: &'static str)
    requires
        d < 10,
    ensures
        r@ == seq![spec_digit(d as int)],
{
    proof {
        reveal_strlit("0");
        reveal_strlit("1");
        reveal_strlit("2");
        reveal_strlit("3");
        reveal_strlit("4");
        reveal_strlit("5");
        reveal_strlit("6");
        reveal_strlit("7");
        reveal_strlit("8");
        reveal_strlit("9");
    }
    let r = if d == 0 {
        "0"
    } else if d == 1 {
        "1"
    } else if d == 2 {
        "2"
    } else if d == 3 {
        "3"
    } else if d == 4 {
        "4"
    } else if d == 5 {
        "5"
    } else if d == 6 {
        "6"
    } else if d == 7 {
        "7"
    } else if d == 8 {
        "8"
    } else {
        "9"
    };
    proof {
        assert(r@ =~= seq![spec_digit(d as int)]);
    }
    r
}

/// Appends the decimal rendering of `n`.
fn push_decimal(n: u64, out: &mut String)
    ensures
        final(out)@ == old(out)@ + spec_decimal(n as int),
    decreases n,
{
    if n < 10 {
        out.append(digit_str(n));
    } else {
        push_decimal(n / 10, out);
        out.append(digit_str(n % 10));
        proof {
            assert(out@ =~= old(out)@ + spec_decimal(n as int));
        }
    }
}

/// The transport identity a process announces: its id, `@`, its hostname.
/// Reading the process id and the hostname is the embedding program's work;
/// the rendering is exact.
pub fn net_ident(pid: u64, hostname: &str) -> (r: String)
    ensures
        r@ == spec_decimal(pid as int) + seq!['@'] + hostname@,
{
    let mut r = String::new();
    push_decimal(pid, &mut r);
    proof {
        reveal_strlit("@");
    }
    r.append("@");
    r.append(hostname);
    proof {
        assert(r@ =~= spec_decimal(pid as int) + seq!['@'] + hostname@);
    }
    r
}

/// The service side of the main routing loop: the registration announcement
/// it replays to every route server that appears, and the set of route
/// servers it heartbeats.
pub struct Application {
    /// Identities of the route servers seen so far, each once.
    pub routers: Vec<Vec<u8>>,
    /// The registration message announced to each route server.
    pub registration: Message,
}

impl Application {
    /// No route server is tracked twice.
    pub open spec fn wf(self) -> bool {
        forall|i: int, j: int|
            0 <= i < j < self.routers@.len() ==> (#[trigger] self.routers@[i])@ != (
            #[trigger] self.routers@[j])@
    }

    /// Whether a route server with this identity is tracked.
    pub open spec fn spec_knows(self, id: Seq<u8>) -> bool {
        exists|i: int| 0 <= i < self.routers@.len() && (#[trigger] self.routers@[i])@ == id
    }

    /// A service announcing `protocol` and `shards`, connected to no route
    /// server yet.
    pub fn new(protocol: Protocol, shards: &Vec<ShardId>) -> (a: Application)
        ensures
            a.wf(),
            a.routers@.len() == 0,
            a.registration.wf(),
            a.registration.route_info matches Some(ri) && ri.protocol == protocol
                && ri.message_kind@ == crate::bodies::spec_registration_kind() && ri.hash
                is None,
            a.registration.body@ == crate::bodies::spec_registration_bytes(protocol, shards@),
            a.registration.txn is None,
    {
        let body = encode_registration(protocol, shards);
        let registration = Message::build_request(protocol, registration_kind(), None, body);
        Application { routers: Vec::new(), registration }
    }

    /// The identities this service heartbeats on its idle tick: every route
    /// server seen so far, in order.
    pub fn heartbeat_targets(&self) -> (ids: Vec<Vec<u8>>)
        ensures
            ids@.len() == self.routers@.len(),
            forall|i: int|
                0 <= i < ids@.len() ==> (#[trigger] ids@[i])@ == self.routers@[i]@,
    {
        let mut ids: Vec<Vec<u8>> = Vec::new();
        let mut i: usize = 0;
        while i < self.routers.len()
            invariant
                i <= self.routers@.len(),
                ids@.len() == i,
                forall|j: int| 0 <= j < i ==> (#[trigger] ids@[j])@ == self.routers@[j]@,
            decreases self.routers@.len() - i,
        {
            ids.push(vstd::slice::slice_to_vec((&self.routers[i]).as_slice()));
            i = i + 1;
        }
        ids
    }

    /// A route server connected (or reconnected): remember it and replay the
    /// registration so a restarted route server re-learns this endpoint.
    /// Returns whether the identity is new to the set.
    pub fn on_router_connect(&mut self, peer: &Vec<u8>) -> (fresh: bool)
        requires
            old(self).wf(),
        ensures
            final(self).wf(),
            final(self).registration == old(self).registration,
            fresh == !old(self).spec_knows(peer@),
            final(self).spec_knows(peer@),
            fresh ==> final(self).routers@.len() == old(self).routers@.len() + 1
                && final(self).routers@[old(self).routers@.len() as int]@ == peer@ && (forall|
                j: int,
            |
                0 <= j < old(self).routers@.len() ==> final(self).routers@[j] == old(
                    self,
                ).routers@[j]),
            !fresh ==> final(self).routers@ == old(self).routers@,
    {
        let mut i: usize = 0;
        while i < self.routers.len()
            invariant
                self == old(self),
                old(self).wf(),
                i <= self.routers@.len(),
                forall|j: int| 0 <= j < i ==> (#[trigger] self.routers@[j])@ != peer@,
            decreases self.routers@.len() - i,
        {
            if bytes_eq(&self.routers[i], peer) {
                proof {
                    assert(self.spec_knows(peer@)) by {
                        assert((self.routers@[i as int])@ == peer@);
                    }
                }
                return false;
            }
            i = i + 1;
        }
        proof {
            if old(self).spec_knows(peer@) {
                let j = choose|j: int|
                    0 <= j < self.routers@.len() && (#[trigger] self.routers@[j])@ == peer@;
            }
        }
        let ghost n = self.routers@.len() as int;
        self.routers.push(vstd::slice::slice_to_vec(peer.as_slice()));
        proof {
            assert((self.routers@[n])@ == peer@);
            assert forall|a: int, b: int| 0 <= a < b < self.routers@.len() implies (
            #[trigger] self.routers@[a])@ != (#[trigger] self.routers@[b])@ by {
                if b < n {
                    assert(self.routers@[a] == old(self).routers@[a]);
                    assert(self.routers@[b] == old(self).routers@[b]);
                } else {
                    assert(self.routers@[a] == old(self).routers@[a]);
                }
            }
        }
        true
    }
}

} // verus!
