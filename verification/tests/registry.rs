use routecore::error::ErrCode;
use routecore::message::Protocol;
use routecore::registry::{
    forward_decision, on_disconnect, on_heartbeat, on_registration, ServerMap,
    DEFAULT_HEARTBEAT_MS,
};
use routecore::shard_of;

fn shards(range: std::ops::RangeInclusive<u32>) -> Vec<u32> {
    range.collect()
}

#[test]
fn shard_of_is_hash_mod_128() {
    assert_eq!(shard_of(0), 0);
    assert_eq!(shard_of(127), 127);
    assert_eq!(shard_of(128), 0);
    assert_eq!(shard_of(986), 90);
    assert_eq!(shard_of(u64::MAX), u64::MAX % 128);
}

#[test]
fn registration_conflict_rejects_b_and_keeps_a() {
    // Endpoint A holds shards 0..=63; B asks for 60..=70 and must be refused.
    let mut servers = ServerMap::new(DEFAULT_HEARTBEAT_MS);
    assert!(on_registration(&mut servers, &b"a@host".to_vec(), Protocol::SessionSrv, shards(0..=63), 0).is_none());
    let reply = on_registration(&mut servers, &b"b@host".to_vec(), Protocol::SessionSrv, shards(60..=70), 0);
    let err = reply.expect("conflicting registration is answered");
    assert_eq!(err.code(), ErrCode::RegConflict);
    // A remains selectable for its shards.
    let hash = 63u64; // 63 % 128 == 63
    assert_eq!(servers.select(Protocol::SessionSrv, Some(hash), 0).unwrap(), b"a@host".to_vec());
    // B was not admitted anywhere.
    assert!(servers.select(Protocol::SessionSrv, Some(70), 0).is_err());
}

#[test]
fn disjoint_registrations_coexist() {
    let mut servers = ServerMap::new(DEFAULT_HEARTBEAT_MS);
    assert!(on_registration(&mut servers, &b"a@host".to_vec(), Protocol::SessionSrv, shards(0..=63), 0).is_none());
    assert!(on_registration(&mut servers, &b"b@host".to_vec(), Protocol::SessionSrv, shards(64..=127), 0).is_none());
    assert_eq!(servers.select(Protocol::SessionSrv, Some(10), 0).unwrap(), b"a@host".to_vec());
    assert_eq!(servers.select(Protocol::SessionSrv, Some(100), 0).unwrap(), b"b@host".to_vec());
}

#[test]
fn same_protocol_different_service_is_independent() {
    let mut servers = ServerMap::new(DEFAULT_HEARTBEAT_MS);
    assert!(on_registration(&mut servers, &b"s@host".to_vec(), Protocol::SessionSrv, shards(0..=127), 0).is_none());
    // The same shards under another protocol conflict with nothing.
    assert!(on_registration(&mut servers, &b"o@host".to_vec(), Protocol::OriginSrv, shards(0..=127), 0).is_none());
    assert_eq!(servers.select(Protocol::OriginSrv, Some(5), 0).unwrap(), b"o@host".to_vec());
}

#[test]
fn re_registration_replaces_own_shards() {
    let mut servers = ServerMap::new(DEFAULT_HEARTBEAT_MS);
    assert!(on_registration(&mut servers, &b"a@host".to_vec(), Protocol::SessionSrv, shards(0..=63), 0).is_none());
    assert!(on_registration(&mut servers, &b"a@host".to_vec(), Protocol::SessionSrv, shards(0..=127), 5).is_none());
    assert_eq!(servers.select(Protocol::SessionSrv, Some(100), 5).unwrap(), b"a@host".to_vec());
    assert_eq!(servers.entries.len(), 1);
}

#[test]
fn unserved_shard_is_no_shard() {
    // Shards 0..=63 are covered; a key hashing to shard 100 has no claimant.
    let mut servers = ServerMap::new(DEFAULT_HEARTBEAT_MS);
    assert!(on_registration(&mut servers, &b"s@host".to_vec(), Protocol::SessionSrv, shards(0..=63), 0).is_none());
    let err = servers.select(Protocol::SessionSrv, Some(100), 0).unwrap_err();
    assert_eq!(err, ErrCode::NoShard);
    let net_err = forward_decision(&servers, Protocol::SessionSrv, Some(100), 0).unwrap_err();
    assert_eq!(net_err.code(), ErrCode::NoShard);
}

#[test]
fn stale_endpoint_is_remote_unavailable_then_swept() {
    // The endpoint registers and then goes silent.  Two heartbeat windows
    // later it is stale; once swept, its shards have no claimant at all.
    let mut servers = ServerMap::new(30_000);
    assert!(on_registration(&mut servers, &b"s@host".to_vec(), Protocol::SessionSrv, shards(0..=127), 0).is_none());
    // Exactly at the edge of the window it still serves.
    assert!(servers.select(Protocol::SessionSrv, Some(1), 60_000).is_ok());
    // Past the window it is stale.
    let err = servers.select(Protocol::SessionSrv, Some(1), 60_001).unwrap_err();
    assert_eq!(err, ErrCode::RemoteUnavailable);
    let net_err = forward_decision(&servers, Protocol::SessionSrv, Some(1), 60_001).unwrap_err();
    assert_eq!(net_err.code(), ErrCode::RemoteUnavailable);
    servers.expire(60_001);
    assert_eq!(servers.entries.len(), 0);
    assert_eq!(servers.select(Protocol::SessionSrv, Some(1), 60_001).unwrap_err(), ErrCode::NoShard);
}

#[test]
fn heartbeat_keeps_an_endpoint_live() {
    let mut servers = ServerMap::new(30_000);
    assert!(on_registration(&mut servers, &b"s@host".to_vec(), Protocol::SessionSrv, shards(0..=127), 0).is_none());
    assert!(on_heartbeat(&mut servers, &b"s@host".to_vec(), 50_000));
    assert!(servers.select(Protocol::SessionSrv, Some(1), 110_000).is_ok());
    servers.expire(110_000);
    assert_eq!(servers.entries.len(), 1);
}

#[test]
fn heartbeat_from_unknown_sender_is_dropped() {
    let mut servers = ServerMap::new(30_000);
    assert!(!on_heartbeat(&mut servers, &b"ghost@host".to_vec(), 1));
    assert_eq!(servers.entries.len(), 0);
}

#[test]
fn disconnect_removes_the_endpoint() {
    let mut servers = ServerMap::new(30_000);
    assert!(on_registration(&mut servers, &b"s@host".to_vec(), Protocol::SessionSrv, shards(0..=127), 0).is_none());
    on_disconnect(&mut servers, &b"s@host".to_vec(), Protocol::SessionSrv);
    assert_eq!(servers.entries.len(), 0);
    assert_eq!(servers.select(Protocol::SessionSrv, Some(1), 0).unwrap_err(), ErrCode::NoShard);
}

#[test]
fn disconnect_for_another_protocol_changes_nothing() {
    let mut servers = ServerMap::new(30_000);
    assert!(on_registration(&mut servers, &b"s@host".to_vec(), Protocol::SessionSrv, shards(0..=127), 0).is_none());
    on_disconnect(&mut servers, &b"s@host".to_vec(), Protocol::OriginSrv);
    assert_eq!(servers.entries.len(), 1);
}

#[test]
fn route_server_heartbeats_every_known_endpoint() {
    let mut servers = ServerMap::new(DEFAULT_HEARTBEAT_MS);
    assert!(on_registration(&mut servers, &b"a@host".to_vec(), Protocol::SessionSrv, shards(0..=63), 0).is_none());
    assert!(on_registration(&mut servers, &b"b@host".to_vec(), Protocol::OriginSrv, shards(0..=127), 0).is_none());
    assert_eq!(servers.endpoint_ids(), vec![b"a@host".to_vec(), b"b@host".to_vec()]);
}

fn assert_shards_disjoint(servers: &ServerMap) {
    for i in 0..servers.entries.len() {
        for j in (i + 1)..servers.entries.len() {
            let a = &servers.entries[i];
            let b = &servers.entries[j];
            if a.protocol == b.protocol {
                for s in &a.shards {
                    assert!(!b.shards.contains(s), "shard {} claimed twice", s);
                }
            }
        }
    }
}

#[test]
fn any_event_sequence_keeps_shards_disjoint() {
    // A mixed run of registrations, heartbeats and disconnects; after every
    // event no shard of a protocol has two claimants.
    let mut servers = ServerMap::new(DEFAULT_HEARTBEAT_MS);
    let events: Vec<(&[u8], std::ops::RangeInclusive<u32>)> = vec![
        (b"a", 0..=63),
        (b"b", 64..=127),
        (b"c", 32..=96),   // refused: overlaps both a and b
        (b"a", 0..=31),    // a shrinks its claim
        (b"c", 32..=96),   // still refused: b holds 64..=127
        (b"c", 32..=63),   // admitted: exactly the gap a released
    ];
    for (id, range) in events {
        on_registration(&mut servers, &id.to_vec(), Protocol::SessionSrv, shards(range), 0);
        assert_shards_disjoint(&servers);
    }
    on_heartbeat(&mut servers, &b"a".to_vec(), 10);
    assert_shards_disjoint(&servers);
    on_disconnect(&mut servers, &b"b".to_vec(), Protocol::SessionSrv);
    assert_shards_disjoint(&servers);
    on_registration(&mut servers, &b"d".to_vec(), Protocol::SessionSrv, shards(64..=127), 20);
    assert_shards_disjoint(&servers);
    servers.expire(20);
    assert_shards_disjoint(&servers);
}

#[test]
fn hashless_request_goes_to_a_live_endpoint() {
    let mut servers = ServerMap::new(30_000);
    assert!(on_registration(&mut servers, &b"old@host".to_vec(), Protocol::Scheduler, shards(0..=63), 0).is_none());
    assert!(on_registration(&mut servers, &b"new@host".to_vec(), Protocol::Scheduler, shards(64..=127), 90_000).is_none());
    // The first endpoint is stale by now; the hashless request lands on the
    // live one.
    assert_eq!(servers.select(Protocol::Scheduler, None, 90_000).unwrap(), b"new@host".to_vec());
    // With every endpoint stale the protocol is unavailable.
    assert_eq!(servers.select(Protocol::Scheduler, None, 200_000).unwrap_err(), ErrCode::RemoteUnavailable);
    // A protocol nobody registered has no shard at all.
    assert_eq!(servers.select(Protocol::JobSrv, None, 0).unwrap_err(), ErrCode::NoShard);
}
