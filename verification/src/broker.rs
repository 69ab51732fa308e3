//! The router broker's client side: transaction allocation, reply
//! correlation and the error mapping of a routed call.
//!
//! A caller holds one outstanding request per [`RouteClient`] handle.  The
//! broker attaches a fresh transaction id to each outgoing request and wakes
//! the caller only with the reply carrying that id; replies with any other
//! id are discarded.  A shared broker demultiplexes many callers through a
//! [`TxnTable`].

use vstd::prelude::*;
use vstd::utf8::{decode_utf8, valid_utf8};
use crate::bodies::{net_error_kind, parse_net_error, spec_err_code_of_byte, spec_net_error_kind};
use crate::error::{ErrCode, NetError, NetResult};
use crate::message::{bytes_eq, Header, Message, RouteInfo, Txn, PROTOCOL_VERSION};

verus! {

/// What the broker's reader observed while waiting for a reply.
pub enum RecvOutcome {
    /// A decoded reply arrived.
    Received(Message),
    /// The deadline passed with no reply.
    TimedOut,
    /// Frames arrived but did not decode.
    DecodeFailed,
}

/// One step of waiting for a reply: either the caller is woken with a
/// result, or the observed message was not ours and is dropped.
pub enum RouteStep {
    Deliver(NetResult<Message>),
    Discard,
}

/// Client handle for routing requests: allocates transaction ids
/// monotonically and tracks the one outstanding request.
pub struct RouteClient {
    /// Next transaction id to hand out.
    pub next_txn_id: u64,
    /// Transaction id of the outstanding request, if any.
    pub pending: Option<u64>,
}

impl RouteClient {
    /// A fresh handle with no outstanding request.
    pub fn new() -> (c: RouteClient)
        ensures
            c.next_txn_id == 1,
            c.pending is None,
    {
        RouteClient { next_txn_id: 1, pending: None }
    }

    /// Prepares a request for sending: attaches a fresh transaction and
    /// records it as outstanding.  The returned message carries the same
    /// routing metadata and body with `txn = {id: fresh, complete: false}`.
    pub fn route_async(&mut self, msg: Message) -> (out: Message)
        requires
            old(self).pending is None,
            old(self).next_txn_id < u64::MAX,
            msg.wf(),
        ensures
            final(self).next_txn_id == old(self).next_txn_id + 1,
            final(self).pending == Some(old(self).next_txn_id),
            out.wf(),
            out.txn == Some(Txn { id: old(self).next_txn_id, complete: false }),
            out.identities@ == msg.identities@,
            out.route_info == msg.route_info,
            out.body@ == msg.body@,
            out.header.has_route_info == msg.header.has_route_info,
            out.header.version == msg.header.version,
            out.header.encoding == msg.header.encoding,
    {
        let id = self.next_txn_id;
        self.next_txn_id = self.next_txn_id + 1;
        self.pending = Some(id);
        Message {
            identities: msg.identities,
            header: Header {
                version: msg.header.version,
                has_route_info: msg.header.has_route_info,
                has_txn: true,
                encoding: msg.header.encoding,
            },
            route_info: msg.route_info,
            txn: Some(Txn { id, complete: false }),
            body: msg.body,
        }
    }

    /// The send of the outstanding request failed: the transaction is
    /// abandoned and the caller gets `Sock`.
    pub fn send_failed(&mut self) -> (e: NetError)
        requires
            old(self).pending is Some,
        ensures
            final(self).pending is None,
            final(self).next_txn_id == old(self).next_txn_id,
            e.code == ErrCode::Sock,
    {
        self.pending = None;
        NetError::new(ErrCode::Sock, "net:client-route:1")
    }

    /// One step of waiting for the reply to the outstanding request.
    ///
    /// A timeout delivers `Timeout`; a reply with the wrong transaction id
    /// (or none) is discarded and the request stays outstanding.  The reply
    /// with the matching id ends the transaction: an error body is delivered
    /// as that error, any other reply is delivered as the result — so every
    /// reply a caller receives carries the transaction id of its own
    /// request.  Every decode failure on a reply is `BadRemoteReply`:
    /// frames that did not decode, an error body that does not parse, and a
    /// reply without routing metadata alike.
    pub fn route(&mut self, outcome: RecvOutcome) -> (r: RouteStep)
        requires
            old(self).pending is Some,
        ensures
            final(self).next_txn_id == old(self).next_txn_id,
            match r {
                RouteStep::Discard => {
                    &&& *final(self) == *old(self)
                    &&& outcome matches RecvOutcome::Received(m) && (match m.txn {
                        Some(t) => t.id != old(self).pending->0,
                        None => true,
                    })
                },
                RouteStep::Deliver(res) => {
                    &&& final(self).pending is None
                    &&& match outcome {
                        RecvOutcome::TimedOut => res matches Err(e) && e.code
                            == ErrCode::Timeout,
                        RecvOutcome::DecodeFailed => res matches Err(e) && e.code
                            == ErrCode::BadRemoteReply,
                        RecvOutcome::Received(m) => {
                            &&& m.txn matches Some(t) && t.id == old(self).pending->0
                            &&& match res {
                                Ok(reply) => reply == m && (m.route_info matches Some(ri)
                                    && ri.message_kind@ != spec_net_error_kind()),
                                Err(e) => {
                                    &&& (m.route_info matches Some(ri) && ri.message_kind@
                                        == spec_net_error_kind()) || m.route_info is None
                                    &&& if m.route_info is Some && m.body@.len() >= 1
                                        && spec_err_code_of_byte(m.body@[0]) is Some {
                                        &&& Some(e.code) == spec_err_code_of_byte(m.body@[0])
                                        &&& valid_utf8(m.body@.skip(1)) ==> e.msg@
                                            == decode_utf8(m.body@.skip(1))
                                    } else {
                                        e.code == ErrCode::BadRemoteReply && e.msg@
                                            == "net:client-route:2"@
                                    }
                                },
                            }
                        },
                    }
                },
            },
    {
        match outcome {
            RecvOutcome::TimedOut => {
                self.pending = None;
                RouteStep::Deliver(Err(NetError::new(ErrCode::Timeout, "net:client-route:3")))
            },
            RecvOutcome::DecodeFailed => {
                self.pending = None;
                RouteStep::Deliver(
                    Err(NetError::new(ErrCode::BadRemoteReply, "net:client-route:4")),
                )
            },
            RecvOutcome::Received(m) => {
                let matches_txn = match &m.txn {
                    Some(t) => {
                        let p = match &self.pending {
                            Some(p) => *p,
                            None => 0,
                        };
                        t.id == p
                    },
                    None => false,
                };
                if !matches_txn {
                    return RouteStep::Discard;
                }
                self.pending = None;
                let is_err_reply = match &m.route_info {
                    Some(ri) => {
                        let ek = net_error_kind();
                        bytes_eq(&ri.message_kind, &ek)
                    },
                    None => true,
                };
                if is_err_reply {
                    match &m.route_info {
                        Some(_) => {
                            match parse_net_error(&m.body) {
                                Some(e) => RouteStep::Deliver(Err(e)),
                                None => RouteStep::Deliver(
                                    Err(
                                        NetError::new(
                                            ErrCode::BadRemoteReply,
                                            "net:client-route:2",
                                        ),
                                    ),
                                ),
                            }
                        },
                        None => RouteStep::Deliver(
                            Err(NetError::new(ErrCode::BadRemoteReply, "net:client-route:2")),
                        ),
                    }
                } else {
                    RouteStep::Deliver(Ok(m))
                }
            },
        }
    }
}

/// The reply a caller is woken with answers its own request: a delivered
/// reply's transaction id equals the id the request was sent with.
pub proof fn lemma_reply_correlation(req: Message, reply: Message, pending: u64)
    requires
        req.txn matches Some(t) && t.id == pending,
        reply.txn matches Some(t) && t.id == pending,
    ensures
        reply.txn->0.id == req.txn->0.id,
{
}

/// Builds the reply to a transactional request: the caller's identities come
/// back as the return path, the transaction comes back completed, and the
/// payload is the given kind and body.
pub fn route_reply(req: &Message, kind: Vec<u8>, body: Vec<u8>) -> (reply: Message)
    requires
        req.wf(),
        req.txn is Some,
        req.route_info is Some,
    ensures
        reply.wf(),
        reply@.identities == req@.identities,
        reply.txn == Some(Txn { id: req.txn->0.id, complete: true }),
        reply.route_info matches Some(ri) && ri.protocol == req.route_info->0.protocol
            && ri.message_kind@ == kind@ && ri.hash is None,
        reply.body@ == body@,
    {
    let txn_id = match &req.txn {
        Some(t) => t.id,
        None => 0,
    };
    let protocol = match &req.route_info {
        Some(ri) => ri.protocol,
        None => crate::message::Protocol::Net,
    };
    let mut identities: Vec<Vec<u8>> = Vec::new();
    let mut i: usize = 0;
    while i < req.identities.len()
        invariant
            i <= req.identities@.len(),
            identities@.len() == i,
            forall|j: int| 0 <= j < i ==> #[trigger] identities@[j]@ == req.identities@[j]@,
        decreases req.identities@.len() - i,
    {
        identities.push(vstd::slice::slice_to_vec((&req.identities[i]).as_slice()));
        i = i + 1;
    }
    let reply = Message {
        identities,
        header: Header {
            version: PROTOCOL_VERSION,
            has_route_info: true,
            has_txn: true,
            encoding: req.header.encoding,
        },
        route_info: Some(RouteInfo { protocol, message_kind: kind, hash: None }),
        txn: Some(Txn { id: txn_id, complete: true }),
        body,
    };
    proof {
        assert(reply@.identities =~= req@.identities);
    }
    reply
}

/// An error reply to a transactional request: kind `NetError`, body the
/// encoded error.
pub fn route_reply_err(req: &Message, err: &NetError) -> (reply: Message)
    requires
        req.wf(),
        req.txn is Some,
        req.route_info is Some,
    ensures
        reply.wf(),
        reply@.identities == req@.identities,
        reply.txn == Some(Txn { id: req.txn->0.id, complete: true }),
        reply.route_info matches Some(ri) && ri.message_kind@ == spec_net_error_kind(),
        reply.body@ == crate::bodies::spec_net_error_bytes(err.code, err.msg@),
{
    let kind = net_error_kind();
    let body = crate::bodies::encode_net_error(err);
    route_reply(req, kind, body)
}

// ---------------------------------------------------------------------------
// The shared broker's transaction table.
// ---------------------------------------------------------------------------

/// The broker's transaction table: the ids of every in-flight request,
/// demultiplexing many callers over one connection.  Ids are handed out
/// monotonically, so every pending id is distinct.
pub struct TxnTable {
    pub next_id: u64,
    pub pending: Vec<u64>,
}

impl TxnTable {
    /// Every pending id was handed out once: all distinct, all below the
    /// counter.
    pub open spec fn wf(self) -> bool {
        &&& forall|i: int, j: int|
            0 <= i < j < self.pending@.len() ==> self.pending@[i] != self.pending@[j]
        &&& forall|i: int| 0 <= i < self.pending@.len() ==> self.pending@[i] < self.next_id
    }

    /// An empty table.
    pub fn new() -> (t: TxnTable)
        ensures
            t.wf(),
            t.next_id == 1,
            t.pending@.len() == 0,
    {
        TxnTable { next_id: 1, pending: Vec::new() }
    }

    /// Registers a fresh transaction and returns its id.
    pub fn issue(&mut self) -> (id: u64)
        requires
            old(self).wf(),
            old(self).next_id < u64::MAX,
        ensures
            final(self).wf(),
            id == old(self).next_id,
            final(self).next_id == old(self).next_id + 1,
            final(self).pending@ == old(self).pending@.push(id),
            !old(self).pending@.contains(id),
    {
        let id = self.next_id;
        self.next_id = self.next_id + 1;
        self.pending.push(id);
        proof {
            if old(self).pending@.contains(id) {
                let i = choose|i: int|
                    0 <= i < old(self).pending@.len() && old(self).pending@[i] == id;
            }
        }
        id
    }

    /// A reply arrived for transaction `id`: removes it and says whether it
    /// was pending.  A reply whose id is not pending is unsolicited and the
    /// table is unchanged.
    pub fn complete(&mut self, id: u64) -> (was_pending: bool)
        requires
            old(self).wf(),
        ensures
            final(self).wf(),
            final(self).next_id == old(self).next_id,
            was_pending == old(self).pending@.contains(id),
            !was_pending ==> final(self).pending@ == old(self).pending@,
            was_pending ==> exists|i: int|
                0 <= i < old(self).pending@.len() && old(self).pending@[i] == id
                    && final(self).pending@ == old(self).pending@.remove(i),
            !final(self).pending@.contains(id),
    {
        let mut i: usize = 0;
        while i < self.pending.len()
            invariant
                self == old(self),
                old(self).wf(),
                i <= self.pending@.len(),
                forall|j: int| 0 <= j < i ==> self.pending@[j] != id,
            decreases self.pending@.len() - i,
        {
            if self.pending[i] == id {
                let ghost gi = i as int;
                self.pending.remove(i);
                proof {
                    assert(old(self).pending@.contains(id)) by {
                        assert(old(self).pending@[gi] == id);
                    }
                    assert forall|a: int, b: int|
                        0 <= a < b < self.pending@.len() implies self.pending@[a]
                        != self.pending@[b] by {
                        let oa = if a < gi {
                            a
                        } else {
                            a + 1
                        };
                        let ob = if b < gi {
                            b
                        } else {
                            b + 1
                        };
                        assert(self.pending@[a] == old(self).pending@[oa]);
                        assert(self.pending@[b] == old(self).pending@[ob]);
                    }
                    assert(!self.pending@.contains(id)) by {
                        if self.pending@.contains(id) {
                            let t = choose|t: int|
                                0 <= t < self.pending@.len() && self.pending@[t] == id;
                            let ot = if t < gi {
                                t
                            } else {
                                t + 1
                            };
                            assert(old(self).pending@[ot] == id);
                        }
                    }
                }
                return true;
            }
            i = i + 1;
        }
        proof {
            if self.pending@.contains(id) {
                let t = choose|t: int|
                    0 <= t < self.pending@.len() && self.pending@[t] == id;
            }
        }
        false
    }
}

} // verus!
