//! The routed message: identity frames, header, optional route-info and
//! transaction sections, and an opaque body.
//!
//! A message is the unit of communication between every node of the fabric.
//! The header's bitset says which optional sections follow it on the wire;
//! well-formedness ties those bits to the presence of the sections.

use vstd::prelude::*;

verus! {

/// Version tag written into every header frame.
pub const PROTOCOL_VERSION: u8 = 1;

/// Byte-string equality, used to compare identities and message kinds.
pub fn bytes_eq(a: &Vec<u8>, b: &Vec<u8>) -> (r: bool)
    ensures
        r == (a@ == b@),
{
    if a.len() != b.len() {
        return false;
    }
    let mut i: usize = 0;
    while i < a.len()
        invariant
            a@.len() == b@.len(),
            i <= a@.len(),
            forall|j: int| 0 <= j < i ==> a@[j] == b@[j],
        decreases a@.len() - i,
    {
        if a[i] != b[i] {
            return false;
        }
        i = i + 1;
    }
    proof {
        assert(a@ =~= b@);
    }
    true
}

/// Named family of message kinds served by one backend service.
#[derive(Clone, Copy, Debug, PartialEq, Eq, Structural)]
pub enum Protocol {
    Net,
    RouteSrv,
    SessionSrv,
    OriginSrv,
    JobSrv,
    Scheduler,
}

/// Fixed-size metadata leading every message.
#[derive(Clone, Copy, Debug, PartialEq, Eq, Structural)]
pub struct Header {
    /// Protocol version the sender speaks.
    pub version: u8,
    /// Whether a route-info frame follows the header frame.
    pub has_route_info: bool,
    /// Whether a transaction frame follows.
    pub has_txn: bool,
    /// Tag naming the body's encoding.
    pub encoding: u8,
}

/// Routing metadata: which protocol serves the message, the kind of the
/// payload, and the shard-selection key.  An absent hash means "any shard".
#[derive(Clone, Debug)]
pub struct RouteInfo {
    pub protocol: Protocol,
    /// Byte string naming the payload's message kind.
    pub message_kind: Vec<u8>,
    pub hash: Option<u64>,
}

/// Request/reply correlation: `id` ties a reply to its request and
/// `complete` marks the terminal reply.
#[derive(Clone, Copy, Debug, PartialEq, Eq, Structural)]
pub struct Txn {
    pub id: u64,
    pub complete: bool,
}

/// A full routed message.
#[derive(Clone, Debug)]
pub struct Message {
    /// Hop-by-hop return path accumulated by the transport; opaque here.
    pub identities: Vec<Vec<u8>>,
    pub header: Header,
    pub route_info: Option<RouteInfo>,
    pub txn: Option<Txn>,
    /// Serialized payload of the kind named by `route_info.message_kind`.
    pub body: Vec<u8>,
}

/// Mathematical model of [`RouteInfo`].
#[verifier::ext_equal]
pub ghost struct RouteInfoV {
    pub protocol: Protocol,
    pub message_kind: Seq<u8>,
    pub hash: Option<u64>,
}

/// Mathematical model of [`Message`]: the same shape over sequences.
#[verifier::ext_equal]
pub ghost struct MessageV {
    pub identities: Seq<Seq<u8>>,
    pub header: Header,
    pub route_info: Option<RouteInfoV>,
    pub txn: Option<Txn>,
    pub body: Seq<u8>,
}

impl View for RouteInfo {
    type V = RouteInfoV;

    open spec fn view(&self) -> RouteInfoV {
        RouteInfoV {
            protocol: self.protocol,
            message_kind: self.message_kind@,
            hash: self.hash,
        }
    }
}

impl View for Message {
    type V = MessageV;

    open spec fn view(&self) -> MessageV {
        MessageV {
            identities: self.identities.deep_view(),
            header: self.header,
            route_info: match self.route_info {
                Some(ri) => Some(ri@),
                None => None,
            },
            txn: self.txn,
            body: self.body@,
        }
    }
}

impl MessageV {
    /// The header's bitset agrees with which optional sections are present.
    pub open spec fn wf(self) -> bool {
        &&& self.header.has_route_info <==> self.route_info is Some
        &&& self.header.has_txn <==> self.txn is Some
    }

    /// Every identity frame is non-empty, so none is mistaken for the
    /// delimiter that ends the identity run on the wire.
    pub open spec fn identities_ok(self) -> bool {
        forall|i: int| 0 <= i < self.identities.len() ==> self.identities[i].len() > 0
    }
}

impl Message {
    /// The header's bitset agrees with which optional sections are present.
    pub open spec fn wf(self) -> bool {
        self@.wf()
    }

    /// Every identity frame is non-empty, so none is mistaken for the
    /// delimiter that ends the identity run on the wire.
    pub open spec fn identities_wf(self) -> bool {
        self@.identities_ok()
    }

    /// An empty non-routable, non-transactional message.
    pub fn new() -> (m: Message)
        ensures
            m.wf(),
            m.identities@.len() == 0,
            m.route_info is None,
            m.txn is None,
            m.body@.len() == 0,
            m.header == (Header {
                version: PROTOCOL_VERSION,
                has_route_info: false,
                has_txn: false,
                encoding: 0u8,
            }),
    {
        Message {
            identities: Vec::new(),
            header: Header {
                version: PROTOCOL_VERSION,
                has_route_info: false,
                has_txn: false,
                encoding: 0,
            },
            route_info: None,
            txn: None,
            body: Vec::new(),
        }
    }

    /// Builds a routable request carrying the given routing metadata and body.
    pub fn build_request(
        protocol: Protocol,
        message_kind: Vec<u8>,
        hash: Option<u64>,
        body: Vec<u8>,
    ) -> (m: Message)
        ensures
            m.wf(),
            m.identities@.len() == 0,
            m.route_info matches Some(ri) && ri.protocol == protocol
                && ri.message_kind@ == message_kind@ && ri.hash == hash,
            m.txn is None,
            m.body@ == body@,
            m.header.version == PROTOCOL_VERSION,
            m.header.encoding == 0,
    {
        Message {
            identities: Vec::new(),
            header: Header {
                version: PROTOCOL_VERSION,
                has_route_info: true,
                has_txn: false,
                encoding: 0,
            },
            route_info: Some(RouteInfo { protocol, message_kind, hash }),
            txn: None,
            body,
        }
    }

    /// The identity of the immediate sender: the first identity frame.
    pub fn sender(&self) -> (s: Option<&Vec<u8>>)
        ensures
            match s {
                Some(id) => self.identities@.len() > 0 && id@ == self.identities@[0]@,
                None => self.identities@.len() == 0,
            },
    {
        if self.identities.len() > 0 {
            Some(&self.identities[0])
        } else {
            None
        }
    }

    /// The kind of the payload, when routing metadata is present.
    pub fn message_kind(&self) -> (k: Option<&Vec<u8>>)
        ensures
            match k {
                Some(kind) => self.route_info matches Some(ri) && kind@ == ri.message_kind@,
                None => self.route_info is None,
            },
    {
        match &self.route_info {
            Some(ri) => Some(&ri.message_kind),
            None => None,
        }
    }
}

} // verus!
