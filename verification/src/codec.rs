//! Wire framing for routed messages.
//!
//! A message on the wire is the concatenation, in order, of: zero or more
//! identity frames, one empty delimiter frame, one header frame, an optional
//! route-info frame, an optional transaction frame (each present exactly when
//! the header's bitset says so) and one body frame.  The codec is pure:
//! encoding yields the frame sequence, decoding consumes one, and the two are
//! proved inverse to each other.

use vstd::prelude::*;
use vstd::bytes::{
    lemma_auto_spec_u64_to_from_le_bytes, spec_u64_from_le_bytes, spec_u64_to_le_bytes,
    u64_from_le_bytes, u64_to_le_bytes,
};
use vstd::slice::{slice_index_get, slice_subrange, slice_to_vec};
use crate::message::{Header, Message, MessageV, Protocol, RouteInfo, RouteInfoV, Txn,
    PROTOCOL_VERSION};

verus! {

/// Events a listener observes when it decodes an inbound frame sequence.
#[derive(Clone, Copy, Debug, PartialEq, Eq, Structural)]
pub enum ConnEvent {
    /// Occurs when a new connection was made to the listener: the peer's
    /// identity frames arrive with nothing after the delimiter.
    OnConnect,
    /// Occurs when the listener receives a new, well formed, message.
    OnMessage,
}

/// Each way a frame sequence can fail to decode, one per framing rule.
#[derive(Clone, Copy, Debug, PartialEq, Eq, Structural)]
pub enum DecodeErr {
    /// The stream is empty or opens with the delimiter frame.
    NoIdentity,
    /// The stream ends before a header frame is found.
    NoHeader,
    /// The header frame does not parse.
    BadHeader,
    /// The header announces route-info but no frame follows.
    NoRouteInfo,
    /// The route-info frame does not parse.
    BadRouteInfo,
    /// The header announces a transaction but no frame follows.
    NoTxn,
    /// The transaction frame does not parse.
    BadTxn,
    /// No body frame follows the declared sections.
    NoBody,
}

/// Header carried by messages that open a connection: no optional sections.
pub open spec fn spec_connect_header() -> Header {
    Header { version: PROTOCOL_VERSION, has_route_info: false, has_txn: false, encoding: 0u8 }
}

// ---------------------------------------------------------------------------
// Section encodings: header, route-info, transaction.
// ---------------------------------------------------------------------------

/// The header's bitset as one byte: bit 0 route-info, bit 1 transaction.
pub open spec fn spec_flag_byte(h: Header) -> u8 {
    if h.has_route_info {
        if h.has_txn {
            3u8
        } else {
            1u8
        }
    } else {
        if h.has_txn {
            2u8
        } else {
            0u8
        }
    }
}

/// Byte image of a header frame: version, bitset, body-encoding tag.
pub open spec fn spec_header_bytes(h: Header) -> Seq<u8> {
    seq![h.version, spec_flag_byte(h), h.encoding]
}

/// Parses a header frame; `None` on any malformed image.
pub open spec fn spec_parse_header(b: Seq<u8>) -> Option<Header> {
    if b.len() == 3 && b[1] < 4 {
        Some(
            Header {
                version: b[0],
                has_route_info: b[1] == 1 || b[1] == 3,
                has_txn: b[1] == 2 || b[1] == 3,
                encoding: b[2],
            },
        )
    } else {
        None
    }
}

/// Wire tag of each protocol.
pub open spec fn spec_protocol_byte(p: Protocol) -> u8 {
    match p {
        Protocol::Net => 0u8,
        Protocol::RouteSrv => 1u8,
        Protocol::SessionSrv => 2u8,
        Protocol::OriginSrv => 3u8,
        Protocol::JobSrv => 4u8,
        Protocol::Scheduler => 5u8,
    }
}

/// Protocol named by a wire tag, if any.
pub open spec fn spec_protocol_of_byte(b: u8) -> Option<Protocol> {
    if b == 0 {
        Some(Protocol::Net)
    } else if b == 1 {
        Some(Protocol::RouteSrv)
    } else if b == 2 {
        Some(Protocol::SessionSrv)
    } else if b == 3 {
        Some(Protocol::OriginSrv)
    } else if b == 4 {
        Some(Protocol::JobSrv)
    } else if b == 5 {
        Some(Protocol::Scheduler)
    } else {
        None
    }
}

/// Byte image of a route-info frame: protocol tag, hash presence tag with the
/// eight hash bytes when present, then the message-kind bytes.
pub open spec fn spec_route_info_bytes(ri: RouteInfoV) -> Seq<u8> {
    seq![spec_protocol_byte(ri.protocol)] + (match ri.hash {
        Some(h) => seq![1u8] + spec_u64_to_le_bytes(h),
        None => seq![0u8],
    }) + ri.message_kind
}

/// Parses a route-info frame; `None` on any malformed image.
pub open spec fn spec_parse_route_info(b: Seq<u8>) -> Option<RouteInfoV> {
    if b.len() < 2 {
        None
    } else {
        match spec_protocol_of_byte(b[0]) {
            None => None,
            Some(p) => if b[1] == 0 {
                Some(RouteInfoV { protocol: p, message_kind: b.skip(2), hash: None })
            } else if b[1] == 1 {
                if b.len() < 10 {
                    None
                } else {
                    Some(
                        RouteInfoV {
                            protocol: p,
                            message_kind: b.skip(10),
                            hash: Some(spec_u64_from_le_bytes(b.subrange(2, 10))),
                        },
                    )
                }
            } else {
                None
            },
        }
    }
}

/// Byte image of a transaction frame: the id's eight bytes then the
/// completion flag.
pub open spec fn spec_txn_bytes(t: Txn) -> Seq<u8> {
    spec_u64_to_le_bytes(t.id) + seq![if t.complete { 1u8 } else { 0u8 }]
}

/// Parses a transaction frame; `None` on any malformed image.
pub open spec fn spec_parse_txn(b: Seq<u8>) -> Option<Txn> {
    if b.len() == 9 && b[8] < 2 {
        Some(Txn { id: spec_u64_from_le_bytes(b.subrange(0, 8)), complete: b[8] == 1 })
    } else {
        None
    }
}

// ---------------------------------------------------------------------------
// Round trips of the section encodings.
// ---------------------------------------------------------------------------

/// Every header survives the trip through its byte image.
pub proof fn lemma_header_round_trip(h: Header)
    ensures
        spec_parse_header(spec_header_bytes(h)) == Some(h),
{
}

/// A parsed header frame re-encodes to the same bytes.
pub proof fn lemma_header_bytes_inverse(b: Seq<u8>, h: Header)
    requires
        spec_parse_header(b) == Some(h),
    ensures
        spec_header_bytes(h) == b,
{
    assert(spec_header_bytes(h) =~= b);
}

/// Every protocol tag survives the trip through its byte.
pub proof fn lemma_protocol_round_trip(p: Protocol)
    ensures
        spec_protocol_of_byte(spec_protocol_byte(p)) == Some(p),
{
}

/// Every route-info record survives the trip through its byte image.
pub proof fn lemma_route_info_round_trip(ri: RouteInfoV)
    ensures
        spec_parse_route_info(spec_route_info_bytes(ri)) == Some(ri),
{
    lemma_auto_spec_u64_to_from_le_bytes();
    lemma_protocol_round_trip(ri.protocol);
    let b = spec_route_info_bytes(ri);
    match ri.hash {
        Some(h) => {
            assert(spec_u64_to_le_bytes(h).len() == 8);
            assert(b.len() >= 10);
            assert(b.subrange(2, 10) =~= spec_u64_to_le_bytes(h));
            assert(b.skip(10) =~= ri.message_kind);
            assert(spec_parse_route_info(b) =~= Some(ri)) by {
                assert(spec_parse_route_info(b)->0 =~= ri);
            }
        },
        None => {
            assert(b.skip(2) =~= ri.message_kind);
            assert(spec_parse_route_info(b)->0 =~= ri);
        },
    }
}

/// A parsed route-info frame re-encodes to the same bytes.
pub proof fn lemma_route_info_bytes_inverse(b: Seq<u8>, ri: RouteInfoV)
    requires
        spec_parse_route_info(b) == Some(ri),
    ensures
        spec_route_info_bytes(ri) == b,
{
    lemma_auto_spec_u64_to_from_le_bytes();
    if b[1] == 1 {
        assert(spec_u64_to_le_bytes(spec_u64_from_le_bytes(b.subrange(2, 10))) == b.subrange(
            2,
            10,
        ));
        assert(spec_route_info_bytes(ri) =~= b);
    } else {
        assert(spec_route_info_bytes(ri) =~= b);
    }
}

/// Every transaction record survives the trip through its byte image.
pub proof fn lemma_txn_round_trip(t: Txn)
    ensures
        spec_parse_txn(spec_txn_bytes(t)) == Some(t),
{
    lemma_auto_spec_u64_to_from_le_bytes();
    let b = spec_txn_bytes(t);
    assert(b.subrange(0, 8) =~= spec_u64_to_le_bytes(t.id));
}

/// A parsed transaction frame re-encodes to the same bytes.
pub proof fn lemma_txn_bytes_inverse(b: Seq<u8>, t: Txn)
    requires
        spec_parse_txn(b) == Some(t),
    ensures
        spec_txn_bytes(t) == b,
{
    lemma_auto_spec_u64_to_from_le_bytes();
    assert(spec_u64_to_le_bytes(spec_u64_from_le_bytes(b.subrange(0, 8))) == b.subrange(0, 8));
    assert(spec_txn_bytes(t) =~= b);
}

// ---------------------------------------------------------------------------
// Executable section codecs.
// ---------------------------------------------------------------------------

/// Appends every byte of `src` to `dst`.
fn push_bytes(dst: &mut Vec<u8>, src: &[u8])
    ensures
        final(dst)@ == old(dst)@ + src@,
{
    let mut i: usize = 0;
    while i < src.len()
        invariant
            i <= src@.len(),
            dst@ == old(dst)@ + src@.take(i as int),
        decreases src@.len() - i,
    {
        let b = *slice_index_get(src, i);
        dst.push(b);
        i = i + 1;
        assert(dst@ =~= old(dst)@ + src@.take(i as int));
    }
    assert(dst@ =~= old(dst)@ + src@);
}

/// Encodes a header section.
pub fn encode_header(h: &Header) -> (b: Vec<u8>)
    ensures
        b@ == spec_header_bytes(*h),
{
    let mut b: Vec<u8> = Vec::new();
    b.push(h.version);
    let flags: u8 = if h.has_route_info {
        if h.has_txn {
            3
        } else {
            1
        }
    } else {
        if h.has_txn {
            2
        } else {
            0
        }
    };
    b.push(flags);
    b.push(h.encoding);
    assert(b@ =~= spec_header_bytes(*h));
    b
}

/// Parses a header section.
pub fn parse_header(b: &Vec<u8>) -> (r: Option<Header>)
    ensures
        r == spec_parse_header(b@),
{
    if b.len() == 3 && b[1] < 4 {
        Some(
            Header {
                version: b[0],
                has_route_info: b[1] == 1 || b[1] == 3,
                has_txn: b[1] == 2 || b[1] == 3,
                encoding: b[2],
            },
        )
    } else {
        None
    }
}

/// Encodes a protocol tag.
pub fn protocol_byte(p: Protocol) -> (b: u8)
    ensures
        b == spec_protocol_byte(p),
{
    match p {
        Protocol::Net => 0,
        Protocol::RouteSrv => 1,
        Protocol::SessionSrv => 2,
        Protocol::OriginSrv => 3,
        Protocol::JobSrv => 4,
        Protocol::Scheduler => 5,
    }
}

/// Decodes a protocol tag.
pub fn protocol_of_byte(b: u8) -> (p: Option<Protocol>)
    ensures
        p == spec_protocol_of_byte(b),
{
    if b == 0 {
        Some(Protocol::Net)
    } else if b == 1 {
        Some(Protocol::RouteSrv)
    } else if b == 2 {
        Some(Protocol::SessionSrv)
    } else if b == 3 {
        Some(Protocol::OriginSrv)
    } else if b == 4 {
        Some(Protocol::JobSrv)
    } else if b == 5 {
        Some(Protocol::Scheduler)
    } else {
        None
    }
}

/// Encodes a route-info section.
pub fn encode_route_info(ri: &RouteInfo) -> (b: Vec<u8>)
    ensures
        b@ == spec_route_info_bytes(ri@),
{
    let mut b: Vec<u8> = Vec::new();
    b.push(protocol_byte(ri.protocol));
    match &ri.hash {
        Some(h) => {
            b.push(1);
            let hb = u64_to_le_bytes(*h);
            push_bytes(&mut b, hb.as_slice());
        },
        None => {
            b.push(0);
        },
    }
    push_bytes(&mut b, ri.message_kind.as_slice());
    assert(b@ =~= spec_route_info_bytes(ri@));
    b
}

/// Parses a route-info section.
pub fn parse_route_info(b: &Vec<u8>) -> (r: Option<RouteInfo>)
    ensures
        match r {
            Some(ri) => spec_parse_route_info(b@) == Some(ri@),
            None => spec_parse_route_info(b@) is None,
        },
{
    if b.len() < 2 {
        return None;
    }
    let p = match protocol_of_byte(b[0]) {
        Some(p) => p,
        None => { return None; },
    };
    if b[1] == 0 {
        let kind = slice_to_vec(slice_subrange(b.as_slice(), 2, b.len()));
        let ri = RouteInfo { protocol: p, message_kind: kind, hash: None };
        proof {
            assert(ri@.message_kind =~= b@.skip(2));
        }
        Some(ri)
    } else if b[1] == 1 {
        if b.len() < 10 {
            return None;
        }
        let h = u64_from_le_bytes(slice_subrange(b.as_slice(), 2, 10));
        let kind = slice_to_vec(slice_subrange(b.as_slice(), 10, b.len()));
        let ri = RouteInfo { protocol: p, message_kind: kind, hash: Some(h) };
        proof {
            assert(ri@.message_kind =~= b@.skip(10));
        }
        Some(ri)
    } else {
        None
    }
}

/// Encodes a transaction section.
pub fn encode_txn(t: &Txn) -> (b: Vec<u8>)
    ensures
        b@ == spec_txn_bytes(*t),
{
    let mut b = u64_to_le_bytes(t.id);
    b.push(if t.complete { 1 } else { 0 });
    assert(b@ =~= spec_txn_bytes(*t));
    b
}

/// Parses a transaction section.
pub fn parse_txn(b: &Vec<u8>) -> (r: Option<Txn>)
    ensures
        r == spec_parse_txn(b@),
{
    if b.len() == 9 && b[8] < 2 {
        let id = u64_from_le_bytes(slice_subrange(b.as_slice(), 0, 8));
        Some(Txn { id, complete: b[8] == 1 })
    } else {
        None
    }
}

// ---------------------------------------------------------------------------
// Frame sequences.
// ---------------------------------------------------------------------------

/// The non-identity frames of a message: header, declared optional sections,
/// body.
pub open spec fn spec_section_frames(mv: MessageV) -> Seq<Seq<u8>> {
    seq![spec_header_bytes(mv.header)] + (match mv.route_info {
        Some(ri) => seq![spec_route_info_bytes(ri)],
        None => Seq::<Seq<u8>>::empty(),
    }) + (match mv.txn {
        Some(t) => seq![spec_txn_bytes(t)],
        None => Seq::<Seq<u8>>::empty(),
    }) + seq![mv.body]
}

/// The full frame sequence of a message: its identity frames, the empty
/// delimiter frame, then the sections.
pub open spec fn spec_frames(mv: MessageV) -> Seq<Seq<u8>> {
    mv.identities + seq![Seq::<u8>::empty()] + spec_section_frames(mv)
}

/// Splits a frame sequence at its first empty frame: the frames before it
/// (the identities) and the frames after it.  `None` when no frame is empty.
pub open spec fn spec_split_identities(fs: Seq<Seq<u8>>) -> Option<(Seq<Seq<u8>>, Seq<Seq<u8>>)>
    decreases fs.len(),
{
    if fs.len() == 0 {
        None
    } else if fs[0].len() == 0 {
        Some((Seq::<Seq<u8>>::empty(), fs.drop_first()))
    } else {
        match spec_split_identities(fs.drop_first()) {
            None => None,
            Some((ids, rest)) => Some((seq![fs[0]] + ids, rest)),
        }
    }
}

/// Drops leading empty frames.
pub open spec fn spec_skip_empties(fs: Seq<Seq<u8>>) -> Seq<Seq<u8>>
    decreases fs.len(),
{
    if fs.len() == 0 {
        fs
    } else if fs[0].len() == 0 {
        spec_skip_empties(fs.drop_first())
    } else {
        fs
    }
}

/// Decoding a frame sequence: either the identities of a freshly connected
/// peer, or a full message, or the framing rule it breaks.
pub open spec fn spec_decode(fs: Seq<Seq<u8>>) -> Result<(ConnEvent, MessageV), DecodeErr> {
    if fs.len() == 0 || fs[0].len() == 0 {
        Err(DecodeErr::NoIdentity)
    } else {
        match spec_split_identities(fs) {
            None => Err(DecodeErr::NoHeader),
            Some((ids, rest)) => {
                if rest.len() == 0 {
                    Ok(
                        (
                            ConnEvent::OnConnect,
                            MessageV {
                                identities: ids,
                                header: spec_connect_header(),
                                route_info: None,
                                txn: None,
                                body: Seq::<u8>::empty(),
                            },
                        ),
                    )
                } else {
                    let rest2 = spec_skip_empties(rest);
                    if rest2.len() == 0 {
                        Err(DecodeErr::NoHeader)
                    } else {
                        match spec_parse_header(rest2[0]) {
                            None => Err(DecodeErr::BadHeader),
                            Some(h) => spec_decode_sections(ids, h, rest2.drop_first()),
                        }
                    }
                }
            },
        }
    }
}

/// Decoding after the header: the route-info section, when declared.
pub open spec fn spec_decode_sections(ids: Seq<Seq<u8>>, h: Header, tail: Seq<Seq<u8>>) -> Result<
    (ConnEvent, MessageV),
    DecodeErr,
> {
    if h.has_route_info {
        if tail.len() == 0 {
            Err(DecodeErr::NoRouteInfo)
        } else {
            match spec_parse_route_info(tail[0]) {
                None => Err(DecodeErr::BadRouteInfo),
                Some(ri) => spec_decode_txn(ids, h, Some(ri), tail.drop_first()),
            }
        }
    } else {
        spec_decode_txn(ids, h, None, tail)
    }
}

/// Decoding after route-info: the transaction section, when declared.
pub open spec fn spec_decode_txn(
    ids: Seq<Seq<u8>>,
    h: Header,
    ri: Option<RouteInfoV>,
    tail: Seq<Seq<u8>>,
) -> Result<(ConnEvent, MessageV), DecodeErr> {
    if h.has_txn {
        if tail.len() == 0 {
            Err(DecodeErr::NoTxn)
        } else {
            match spec_parse_txn(tail[0]) {
                None => Err(DecodeErr::BadTxn),
                Some(t) => spec_decode_body(ids, h, ri, Some(t), tail.drop_first()),
            }
        }
    } else {
        spec_decode_body(ids, h, ri, None, tail)
    }
}

/// Decoding after the declared sections: the body frame.  Frames beyond the
/// body are drained and discarded.
pub open spec fn spec_decode_body(
    ids: Seq<Seq<u8>>,
    h: Header,
    ri: Option<RouteInfoV>,
    txn: Option<Txn>,
    tail: Seq<Seq<u8>>,
) -> Result<(ConnEvent, MessageV), DecodeErr> {
    if tail.len() == 0 {
        Err(DecodeErr::NoBody)
    } else {
        Ok(
            (
                ConnEvent::OnMessage,
                MessageV { identities: ids, header: h, route_info: ri, txn, body: tail[0] },
            ),
        )
    }
}

/// A frame sequence in the exact shape the encoder produces: the header frame
/// directly follows the delimiter and nothing follows the body frame.
pub open spec fn spec_canonical(fs: Seq<Seq<u8>>) -> bool {
    match spec_split_identities(fs) {
        None => true,
        Some((ids, rest)) => rest.len() > 0 ==> {
            &&& rest[0].len() > 0
            &&& match spec_parse_header(rest[0]) {
                Some(h) => rest.len() == 2 + (if h.has_route_info {
                    1int
                } else {
                    0int
                }) + (if h.has_txn {
                    1int
                } else {
                    0int
                }),
                None => true,
            }
        },
    }
}

// ---------------------------------------------------------------------------
// Executable framing.
// ---------------------------------------------------------------------------

/// Element view of a frame list: its deep view indexes to each frame's bytes.
proof fn lemma_frames_view(v: &Vec<Vec<u8>>)
    ensures
        v.deep_view().len() == v@.len(),
        forall|i: int| 0 <= i < v@.len() ==> #[trigger] v.deep_view()[i] == v@[i]@,
{
}

/// Encodes a message into its frame sequence: identities, delimiter, header,
/// declared sections, body.
pub fn encode_message(m: &Message) -> (frames: Vec<Vec<u8>>)
    requires
        m.wf(),
    ensures
        frames.deep_view() == spec_frames(m@),
{
    let mut frames: Vec<Vec<u8>> = Vec::new();
    let mut i: usize = 0;
    while i < m.identities.len()
        invariant
            i <= m.identities@.len(),
            frames@.len() == i,
            forall|j: int| 0 <= j < i ==> #[trigger] frames@[j]@ == m.identities@[j]@,
        decreases m.identities@.len() - i,
    {
        frames.push(slice_to_vec((&m.identities[i]).as_slice()));
        i = i + 1;
    }
    frames.push(Vec::new());
    frames.push(encode_header(&m.header));
    match &m.route_info {
        Some(ri) => { frames.push(encode_route_info(ri)); },
        None => {},
    }
    match &m.txn {
        Some(t) => { frames.push(encode_txn(t)); },
        None => {},
    }
    frames.push(slice_to_vec(m.body.as_slice()));
    proof {
        lemma_frames_view(&frames);
        lemma_frames_view(&m.identities);
        assert(frames.deep_view() =~= spec_frames(m@));
    }
    frames
}

/// Decodes a frame sequence into either a connection event with its
/// identities or a full message, faithfully to [`spec_decode`].
pub fn decode_frames(frames: &Vec<Vec<u8>>) -> (r: Result<(ConnEvent, Message), DecodeErr>)
    ensures
        match r {
            Ok((ev, m)) => {
                &&& spec_decode(frames.deep_view()) == Ok::<_, DecodeErr>((ev, m@))
                &&& m.wf()
                &&& m.identities_wf()
            },
            Err(e) => spec_decode(frames.deep_view()) == Err::<(ConnEvent, MessageV), _>(e),
        },
{
    let ghost gfs = frames.deep_view();
    proof {
        lemma_frames_view(frames);
    }
    let n = frames.len();
    if n == 0 || frames[0].len() == 0 {
        return Err(DecodeErr::NoIdentity);
    }
    let mut d: usize = 0;
    let mut ids: Vec<Vec<u8>> = Vec::new();
    while d < n && frames[d].len() > 0
        invariant
            n == frames@.len(),
            gfs == frames.deep_view(),
            gfs.len() == n,
            forall|i: int| 0 <= i < n ==> #[trigger] gfs[i] == frames@[i]@,
            d <= n,
            forall|j: int| 0 <= j < d ==> #[trigger] gfs[j].len() > 0,
            ids@.len() == d,
            forall|j: int| 0 <= j < d ==> #[trigger] ids@[j]@ == gfs[j],
        decreases n - d,
    {
        ids.push(slice_to_vec((&frames[d]).as_slice()));
        d = d + 1;
    }
    if d == n {
        proof {
            lemma_split_none(gfs);
        }
        return Err(DecodeErr::NoHeader);
    }
    proof {
        lemma_split_at(gfs, d as int);
    }
    let ghost s_ids = gfs.take(d as int);
    let ghost rest = gfs.skip(d as int + 1);
    proof {
        lemma_frames_view(&ids);
        assert(ids.deep_view() =~= s_ids);
    }
    if d + 1 == n {
        let m = Message {
            identities: ids,
            header: Header {
                version: PROTOCOL_VERSION,
                has_route_info: false,
                has_txn: false,
                encoding: 0,
            },
            route_info: None,
            txn: None,
            body: Vec::new(),
        };
        proof {
            assert(rest.len() == 0);
            assert(spec_decode(gfs)->Ok_0.1 =~~= m@);
        }
        return Ok((ConnEvent::OnConnect, m));
    }
    let mut j: usize = d + 1;
    while j < n && frames[j].len() == 0
        invariant
            n == frames@.len(),
            gfs.len() == n,
            forall|i: int| 0 <= i < n ==> #[trigger] gfs[i] == frames@[i]@,
            d + 1 <= j <= n,
            forall|k: int| d + 1 <= k < j ==> #[trigger] gfs[k].len() == 0,
        decreases n - j,
    {
        j = j + 1;
    }
    proof {
        assert(forall|t: int| 0 <= t < j - (d + 1) ==> #[trigger] rest[t].len() == 0);
        lemma_skip_empties_at(rest, j - (d + 1) as int);
        assert(rest.skip(j - (d + 1) as int) =~= gfs.skip(j as int));
    }
    if j == n {
        return Err(DecodeErr::NoHeader);
    }
    let ghost rest2 = gfs.skip(j as int);
    let h = match parse_header(&frames[j]) {
        Some(h) => h,
        None => { return Err(DecodeErr::BadHeader); },
    };
    let mut k: usize = j + 1;
    proof {
        assert(rest2.drop_first() =~= gfs.skip(j + 1 as int));
    }
    let ri: Option<RouteInfo> = if h.has_route_info {
        if k == n {
            proof {
                assert(gfs.skip(k as int).len() == 0);
            }
            return Err(DecodeErr::NoRouteInfo);
        }
        match parse_route_info(&frames[k]) {
            Some(ri) => {
                k = k + 1;
                Some(ri)
            },
            None => { return Err(DecodeErr::BadRouteInfo); },
        }
    } else {
        None
    };
    let ghost riv = match &ri {
        Some(r_) => Some(r_@),
        None => None,
    };
    proof {
        if h.has_route_info {
            assert(gfs.skip(j + 1 as int)[0] == gfs[j + 1]);
            assert(gfs.skip(j + 1 as int).drop_first() =~= gfs.skip(k as int));
            assert(spec_decode_sections(s_ids, h, gfs.skip(j + 1 as int)) == spec_decode_txn(
                s_ids,
                h,
                riv,
                gfs.skip(k as int),
            ));
        } else {
            assert(spec_decode_sections(s_ids, h, gfs.skip(j + 1 as int)) == spec_decode_txn(
                s_ids,
                h,
                riv,
                gfs.skip(k as int),
            ));
        }
    }
    let ghost tail_txn = gfs.skip(k as int);
    let txn: Option<Txn> = if h.has_txn {
        if k == n {
            proof {
                assert(tail_txn.len() == 0);
            }
            return Err(DecodeErr::NoTxn);
        }
        match parse_txn(&frames[k]) {
            Some(t) => {
                k = k + 1;
                Some(t)
            },
            None => { return Err(DecodeErr::BadTxn); },
        }
    } else {
        None
    };
    proof {
        if h.has_txn {
            assert(tail_txn[0] == gfs[k - 1]);
            assert(tail_txn.drop_first() =~= gfs.skip(k as int));
            assert(spec_decode_txn(s_ids, h, riv, tail_txn) == spec_decode_body(
                s_ids,
                h,
                riv,
                txn,
                gfs.skip(k as int),
            ));
        } else {
            assert(spec_decode_txn(s_ids, h, riv, tail_txn) == spec_decode_body(
                s_ids,
                h,
                riv,
                txn,
                gfs.skip(k as int),
            ));
        }
    }
    if k == n {
        proof {
            assert(gfs.skip(k as int).len() == 0);
        }
        return Err(DecodeErr::NoBody);
    }
    let body = slice_to_vec((&frames[k]).as_slice());
    let m = Message { identities: ids, header: h, route_info: ri, txn, body };
    proof {
        assert(gfs.skip(k as int)[0] == gfs[k as int]);
        assert(spec_decode_body(s_ids, h, riv, txn, gfs.skip(k as int))->Ok_0.1 =~~= m@);
    }
    Ok((ConnEvent::OnMessage, m))
}

/// Encodes a message addressed to one destination identity, the shape a
/// router-style sender emits: the destination frame, the delimiter, then the
/// sections.
pub fn encode_addressed(dest: &Vec<u8>, m: &Message) -> (frames: Vec<Vec<u8>>)
    requires
        m.wf(),
    ensures
        frames.deep_view() == seq![dest@, Seq::<u8>::empty()] + spec_section_frames(m@),
{
    let mut frames: Vec<Vec<u8>> = Vec::new();
    frames.push(slice_to_vec(dest.as_slice()));
    frames.push(Vec::new());
    frames.push(encode_header(&m.header));
    match &m.route_info {
        Some(ri) => { frames.push(encode_route_info(ri)); },
        None => {},
    }
    match &m.txn {
        Some(t) => { frames.push(encode_txn(t)); },
        None => {},
    }
    frames.push(slice_to_vec(m.body.as_slice()));
    proof {
        lemma_frames_view(&frames);
        assert(frames.deep_view() =~= seq![dest@, Seq::<u8>::empty()] + spec_section_frames(
            m@,
        ));
    }
    frames
}

/// Encodes a reply as sent on an already-addressed connection: the delimiter
/// frame, then the sections; the transport supplies the return path.
pub fn encode_reply_frames(m: &Message) -> (frames: Vec<Vec<u8>>)
    requires
        m.wf(),
    ensures
        frames.deep_view() == seq![Seq::<u8>::empty()] + spec_section_frames(m@),
{
    let mut frames: Vec<Vec<u8>> = Vec::new();
    frames.push(Vec::new());
    frames.push(encode_header(&m.header));
    match &m.route_info {
        Some(ri) => { frames.push(encode_route_info(ri)); },
        None => {},
    }
    match &m.txn {
        Some(t) => { frames.push(encode_txn(t)); },
        None => {},
    }
    frames.push(slice_to_vec(m.body.as_slice()));
    proof {
        lemma_frames_view(&frames);
        assert(frames.deep_view() =~= seq![Seq::<u8>::empty()] + spec_section_frames(m@));
    }
    frames
}

// ---------------------------------------------------------------------------
// How the split and skip helpers act on concrete shapes.
// ---------------------------------------------------------------------------

/// A sequence whose first empty frame stands at `d` splits into the `d`
/// frames before it and everything after it.
pub proof fn lemma_split_at(fs: Seq<Seq<u8>>, d: int)
    requires
        0 <= d < fs.len(),
        fs[d].len() == 0,
        forall|j: int| 0 <= j < d ==> fs[j].len() > 0,
    ensures
        spec_split_identities(fs) == Some((fs.take(d), fs.skip(d + 1))),
    decreases d,
{
    if d == 0 {
        assert(fs.take(0) =~= Seq::<Seq<u8>>::empty());
        assert(fs.skip(1) =~= fs.drop_first());
    } else {
        let tl = fs.drop_first();
        assert(forall|j: int| 0 <= j < d - 1 ==> tl[j].len() > 0);
        lemma_split_at(tl, d - 1);
        assert(seq![fs[0]] + tl.take(d - 1) =~= fs.take(d));
        assert(tl.skip(d) =~= fs.skip(d + 1));
    }
}

/// A sequence with no empty frame never splits.
pub proof fn lemma_split_none(fs: Seq<Seq<u8>>)
    requires
        forall|j: int| 0 <= j < fs.len() ==> fs[j].len() > 0,
    ensures
        spec_split_identities(fs) is None,
    decreases fs.len(),
{
    if fs.len() > 0 {
        lemma_split_none(fs.drop_first());
    }
}

/// A successful split reassembles into the original sequence, and every
/// identity frame it yields is non-empty.
pub proof fn lemma_split_inverse(fs: Seq<Seq<u8>>)
    requires
        spec_split_identities(fs) is Some,
    ensures
        ({
            let (ids, rest) = spec_split_identities(fs)->0;
            &&& fs == ids + seq![Seq::<u8>::empty()] + rest
            &&& forall|i: int| 0 <= i < ids.len() ==> ids[i].len() > 0
        }),
    decreases fs.len(),
{
    let (ids, rest) = spec_split_identities(fs)->0;
    if fs[0].len() == 0 {
        assert(fs[0] =~= Seq::<u8>::empty());
        assert(fs =~~= ids + seq![Seq::<u8>::empty()] + rest);
    } else {
        let tl = fs.drop_first();
        lemma_split_inverse(tl);
        let (ids2, rest2) = spec_split_identities(tl)->0;
        assert(ids == seq![fs[0]] + ids2 && rest == rest2);
        assert(tl == ids2 + seq![Seq::<u8>::empty()] + rest2);
        let whole = ids + seq![Seq::<u8>::empty()] + rest;
        assert forall|i: int| 0 <= i < fs.len() implies fs[i] == whole[i] by {
            if i == 0 {
                assert(whole[0] == ids[0]);
                assert(ids[0] == fs[0]);
            } else {
                assert(fs[i] == tl[i - 1]);
                assert(tl[i - 1] == (ids2 + seq![Seq::<u8>::empty()] + rest2)[i - 1]);
                if i < ids.len() {
                    assert(whole[i] == ids[i]);
                    assert(ids[i] == ids2[i - 1]);
                    assert((ids2 + seq![Seq::<u8>::empty()] + rest2)[i - 1] == ids2[i - 1]);
                } else if i == ids.len() {
                    assert(whole[i] == Seq::<u8>::empty());
                    assert((ids2 + seq![Seq::<u8>::empty()] + rest2)[i - 1]
                        == Seq::<u8>::empty());
                } else {
                    assert(whole[i] == rest[i - ids.len() - 1]);
                    assert((ids2 + seq![Seq::<u8>::empty()] + rest2)[i - 1] == rest2[i - 1
                        - ids2.len() - 1]);
                }
            }
        }
        assert(fs =~= whole);
        assert(forall|i: int| 0 <= i < ids.len() ==> ids[i].len() > 0) by {
            assert(forall|i: int| 1 <= i < ids.len() ==> ids[i] == ids2[i - 1]);
        }
    }
}

/// Skipping empties from a sequence whose first `t` frames are empty lands on
/// index `t`.
pub proof fn lemma_skip_empties_at(fs: Seq<Seq<u8>>, t: int)
    requires
        0 <= t <= fs.len(),
        forall|j: int| 0 <= j < t ==> fs[j].len() == 0,
        t < fs.len() ==> fs[t].len() > 0,
    ensures
        spec_skip_empties(fs) == fs.skip(t),
    decreases t,
{
    if t == 0 {
        assert(fs.skip(0) =~= fs);
    } else {
        let tl = fs.drop_first();
        lemma_skip_empties_at(tl, t - 1);
        assert(tl.skip(t - 1) =~= fs.skip(t));
    }
}

// ---------------------------------------------------------------------------
// The codec round trips.
// ---------------------------------------------------------------------------

/// Encoding then decoding returns the message unchanged, and the encoder only
/// produces canonical frame sequences.  Holds for every well-formed message
/// with a non-empty return path.
pub proof fn lemma_encode_decode(mv: MessageV)
    requires
        mv.wf(),
        mv.identities_ok(),
        mv.identities.len() >= 1,
    ensures
        spec_decode(spec_frames(mv)) == Ok::<_, DecodeErr>((ConnEvent::OnMessage, mv)),
        spec_canonical(spec_frames(mv)),
{
    let fs = spec_frames(mv);
    let ids = mv.identities;
    let rest = spec_section_frames(mv);
    let d = ids.len() as int;
    assert(fs[0] == ids[0]);
    assert(fs[d].len() == 0);
    assert(forall|j: int| 0 <= j < d ==> fs[j] == ids[j] && fs[j].len() > 0);
    lemma_split_at(fs, d);
    assert(fs.take(d) =~= ids);
    assert(fs.skip(d + 1) =~= rest);
    let hb = spec_header_bytes(mv.header);
    assert(rest[0] == hb);
    assert(hb.len() == 3);
    assert(spec_skip_empties(rest) == rest);
    lemma_header_round_trip(mv.header);
    let tail = rest.drop_first();
    match mv.route_info {
        Some(ri) => {
            assert(tail[0] == spec_route_info_bytes(ri));
            lemma_route_info_round_trip(ri);
            let tail1 = tail.drop_first();
            match mv.txn {
                Some(t) => {
                    assert(tail1[0] == spec_txn_bytes(t));
                    lemma_txn_round_trip(t);
                    let tail2 = tail1.drop_first();
                    assert(tail2[0] == mv.body);
                    assert(spec_decode(fs)->Ok_0.1 =~= mv);
                },
                None => {
                    assert(tail1[0] == mv.body);
                    assert(spec_decode(fs)->Ok_0.1 =~= mv);
                },
            }
        },
        None => {
            match mv.txn {
                Some(t) => {
                    assert(tail[0] == spec_txn_bytes(t));
                    lemma_txn_round_trip(t);
                    let tail1 = tail.drop_first();
                    assert(tail1[0] == mv.body);
                    assert(spec_decode(fs)->Ok_0.1 =~= mv);
                },
                None => {
                    assert(tail[0] == mv.body);
                    assert(spec_decode(fs)->Ok_0.1 =~= mv);
                },
            }
        },
    }
}

/// A message decoded from a canonical frame sequence re-encodes to exactly
/// that sequence.  Identity frames take part too: the codec carries them
/// through unchanged, though on the wire they are owned by the transport.
pub proof fn lemma_decode_encode(fs: Seq<Seq<u8>>, mv: MessageV)
    requires
        spec_decode(fs) == Ok::<_, DecodeErr>((ConnEvent::OnMessage, mv)),
        spec_canonical(fs),
    ensures
        spec_frames(mv) == fs,
{
    let (ids, rest) = spec_split_identities(fs)->0;
    lemma_split_inverse(fs);
    assert(rest.len() > 0);
    assert(rest[0].len() > 0);
    assert(spec_skip_empties(rest) == rest);
    let h = spec_parse_header(rest[0])->0;
    lemma_header_bytes_inverse(rest[0], h);
    assert(mv.header == h);
    assert(mv.identities == ids);
    let tail = rest.drop_first();
    let sections = spec_section_frames(mv);
    if h.has_route_info {
        let ri = spec_parse_route_info(tail[0])->0;
        lemma_route_info_bytes_inverse(tail[0], ri);
        let tail1 = tail.drop_first();
        if h.has_txn {
            let t = spec_parse_txn(tail1[0])->0;
            lemma_txn_bytes_inverse(tail1[0], t);
            let tail2 = tail1.drop_first();
            assert(rest.len() == 4);
            assert(sections =~= rest);
        } else {
            assert(rest.len() == 3);
            assert(sections =~= rest);
        }
    } else {
        if h.has_txn {
            let t = spec_parse_txn(tail[0])->0;
            lemma_txn_bytes_inverse(tail[0], t);
            let tail1 = tail.drop_first();
            assert(rest.len() == 3);
            assert(sections =~= rest);
        } else {
            assert(rest.len() == 2);
            assert(sections =~= rest);
        }
    }
    assert(spec_frames(mv) =~= fs);
}

} // verus!
