//! End-to-end exercise of the routing core: a service registers, a client
//! routes a request through the registry, the service answers through the
//! dispatch table, and the reply correlates back to the caller.

use routecore::bodies::parse_registration;
use routecore::broker::route_reply_err;
use routecore::registry::forward_decision;
use routecore::broker::{route_reply, RecvOutcome, RouteClient, RouteStep};
use routecore::codec::{decode_frames, encode_message, ConnEvent};
use routecore::dispatch::{dispatch, DispatchTable};
use routecore::error::ErrCode;
use routecore::message::{Header, Message, Protocol, RouteInfo, PROTOCOL_VERSION};
use routecore::registry::{on_registration, ServerMap};
use routecore::shard_of;

#[test]
fn request_travels_registry_dispatch_and_back() {
    // The session service announces protocol SessionSrv over every shard.
    let mut servers = ServerMap::new(30_000);
    let announced: Vec<u32> = (0..=127).collect();
    let body = routecore::bodies::encode_registration(Protocol::SessionSrv, &announced);
    let (proto, shards) = parse_registration(&body).expect("registration body parses");
    assert!(on_registration(&mut servers, &b"svc@host".to_vec(), proto, shards, 0).is_none());

    // A client prepares SessionGet with a routing key hashing to shard 90.
    let mut client = RouteClient::new();
    let request = client.route_async(Message {
        identities: Vec::new(),
        header: Header {
            version: PROTOCOL_VERSION,
            has_route_info: true,
            has_txn: false,
            encoding: 0,
        },
        route_info: Some(RouteInfo {
            protocol: Protocol::SessionSrv,
            message_kind: b"SessionGet".to_vec(),
            hash: Some(986),
        }),
        txn: None,
        body: b"T".to_vec(),
    });
    assert_eq!(shard_of(986), 90);

    // On the wire and through the route server: the transport prepends the
    // caller's identity; the registry names the endpoint to forward to.
    let mut on_wire = request.clone();
    on_wire.identities = vec![b"gw@host".to_vec()];
    let frames = encode_message(&on_wire);
    let (ev, arrived) = decode_frames(&frames).expect("framed request decodes");
    assert!(matches!(ev, ConnEvent::OnMessage));
    let ri = arrived.route_info.as_ref().unwrap();
    let dest = servers.select(ri.protocol, ri.hash, 0).expect("shard 90 is served");
    assert_eq!(dest, b"svc@host".to_vec());

    // At the service a dispatch table resolves the handler by kind.
    let mut table: DispatchTable<u32> = DispatchTable::new();
    table.register(b"SessionGet".to_vec(), 1);
    assert_eq!(dispatch(&table, &arrived), Some(&1));

    // The handler replies; the reply walks back over the identity frames
    // and correlates by transaction id.
    let reply = route_reply(&arrived, b"Session".to_vec(), vec![42]);
    assert_eq!(reply.identities, vec![b"gw@host".to_vec()]);
    let reply_frames = encode_message(&reply);
    let (_, reply_arrived) = decode_frames(&reply_frames).expect("framed reply decodes");
    match client.route(RecvOutcome::Received(reply_arrived)) {
        RouteStep::Deliver(Ok(m)) => {
            assert_eq!(m.txn.unwrap().id, request.txn.unwrap().id);
            assert!(m.txn.unwrap().complete);
            assert_eq!(m.body, vec![42]);
        }
        _ => panic!("the reply must reach its caller"),
    }
}

#[test]
fn uncovered_shard_surfaces_no_shard_to_the_caller() {
    // Only shards 0..=63 are served; a request for shard 100 is answered
    // with NoShard by the route server itself.
    let mut servers = ServerMap::new(30_000);
    assert!(on_registration(
        &mut servers,
        &b"svc@host".to_vec(),
        Protocol::SessionSrv,
        (0..=63).collect(),
        0
    )
    .is_none());

    let mut client = RouteClient::new();
    let request = client.route_async(Message {
        identities: Vec::new(),
        header: Header {
            version: PROTOCOL_VERSION,
            has_route_info: true,
            has_txn: false,
            encoding: 0,
        },
        route_info: Some(RouteInfo {
            protocol: Protocol::SessionSrv,
            message_kind: b"SessionGet".to_vec(),
            hash: Some(100),
        }),
        txn: None,
        body: b"T".to_vec(),
    });
    let mut on_wire = request.clone();
    on_wire.identities = vec![b"gw@host".to_vec()];

    let ri = on_wire.route_info.as_ref().unwrap();
    let err = forward_decision(&servers, ri.protocol, ri.hash, 0).unwrap_err();
    assert_eq!(err.code(), ErrCode::NoShard);
    let reply = route_reply_err(&on_wire, &err);
    match client.route(RecvOutcome::Received(reply)) {
        RouteStep::Deliver(Err(e)) => assert_eq!(e.code(), ErrCode::NoShard),
        _ => panic!("the NoShard error must reach the caller"),
    }
}
