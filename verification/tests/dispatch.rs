use routecore::bodies::{encode_registration, parse_registration, registration_kind};
use routecore::error::ErrCode;
use routecore::hostname;
use routecore::dispatch::{dispatch, net_ident, Application, DispatchTable, DispatcherPool};
use routecore::message::{Header, Message, Protocol, RouteInfo, PROTOCOL_VERSION};

fn message_of_kind(kind: &[u8]) -> Message {
    Message {
        identities: vec![b"caller".to_vec()],
        header: Header {
            version: PROTOCOL_VERSION,
            has_route_info: true,
            has_txn: false,
            encoding: 0,
        },
        route_info: Some(RouteInfo {
            protocol: Protocol::SessionSrv,
            message_kind: kind.to_vec(),
            hash: None,
        }),
        txn: None,
        body: Vec::new(),
    }
}

#[test]
fn table_maps_each_kind_to_its_handler() {
    let mut table: DispatchTable<u32> = DispatchTable::new();
    table.register(b"SessionGet".to_vec(), 10);
    table.register(b"SessionCreate".to_vec(), 20);
    assert_eq!(table.get(&b"SessionGet".to_vec()), Some(&10));
    assert_eq!(table.get(&b"SessionCreate".to_vec()), Some(&20));
    assert_eq!(table.get(&b"AccountGet".to_vec()), None);
}

#[test]
fn dispatch_resolves_by_message_kind() {
    let mut table: DispatchTable<u32> = DispatchTable::new();
    table.register(b"SessionGet".to_vec(), 10);
    assert_eq!(dispatch(&table, &message_of_kind(b"SessionGet")), Some(&10));
    // An unknown kind is dropped: no handler, no reply.
    assert_eq!(dispatch(&table, &message_of_kind(b"Bogus")), None);
    // A message with no routing metadata cannot be dispatched.
    let mut plain = message_of_kind(b"SessionGet");
    plain.route_info = None;
    plain.header.has_route_info = false;
    assert_eq!(dispatch(&table, &plain), None);
}

#[test]
fn pool_starts_every_worker_once() {
    let mut pool = DispatcherPool::new(3);
    let spawn = pool.supervise();
    assert_eq!(spawn, vec![0, 1, 2]);
    // The pool is already at full strength: nothing more to spawn.
    assert_eq!(pool.supervise(), Vec::<usize>::new());
}

#[test]
fn crashed_worker_is_respawned_to_steady_state() {
    // One worker of three crashes; after one supervisor sweep the pool runs
    // `worker_count` workers again.
    let mut pool = DispatcherPool::new(3);
    pool.supervise();
    pool.worker_exited(1);
    let respawn = pool.supervise();
    assert_eq!(respawn, vec![1]);
    assert_eq!(pool.live.iter().filter(|l| **l).count(), 3);
    // Two crashes are both replaced in one sweep.
    pool.worker_exited(0);
    pool.worker_exited(2);
    assert_eq!(pool.supervise(), vec![0, 2]);
    assert_eq!(pool.live.iter().filter(|l| **l).count(), 3);
}

#[test]
fn application_replays_registration_to_each_new_router() {
    let shards: Vec<u32> = (0..=127).collect();
    let mut app = Application::new(Protocol::SessionSrv, &shards);
    let ri = app.registration.route_info.as_ref().unwrap();
    assert_eq!(ri.message_kind, registration_kind());
    assert_eq!(ri.protocol, Protocol::SessionSrv);
    assert_eq!(app.registration.body, encode_registration(Protocol::SessionSrv, &shards));

    assert!(app.on_router_connect(&b"router-1".to_vec()));
    assert!(app.on_router_connect(&b"router-2".to_vec()));
    // A reconnecting route server is re-registered but not tracked twice.
    assert!(!app.on_router_connect(&b"router-1".to_vec()));
    assert_eq!(app.routers.len(), 2);
}

#[test]
fn hostname_is_decided_from_the_command_outcome() {
    // The command could not run at all.
    let e = hostname(None).unwrap_err();
    assert_eq!(e.code(), ErrCode::Sys);
    assert_eq!(e.msg, "net:hostname:0".to_string());
    // The command ran and failed.
    let e = hostname(Some((false, b"oops".to_vec()))).unwrap_err();
    assert_eq!(e.code(), ErrCode::Sys);
    assert_eq!(e.msg, "net:hostname:2".to_string());
    // The command succeeded: its output is the hostname.
    assert_eq!(hostname(Some((true, b"web-1".to_vec()))).unwrap(), "web-1".to_string());
    // Output that is not UTF-8 cannot name a host.
    let e = hostname(Some((true, vec![0xFF, 0xFE]))).unwrap_err();
    assert_eq!(e.code(), ErrCode::Sys);
    assert_eq!(e.msg, "net::hostname:1".to_string());
}

#[test]
fn idle_tick_heartbeats_every_known_route_server() {
    let shards: Vec<u32> = (0..=127).collect();
    let mut app = Application::new(Protocol::SessionSrv, &shards);
    assert!(app.heartbeat_targets().is_empty());
    app.on_router_connect(&b"router-1".to_vec());
    app.on_router_connect(&b"router-2".to_vec());
    app.on_router_connect(&b"router-1".to_vec());
    assert_eq!(app.heartbeat_targets(), vec![b"router-1".to_vec(), b"router-2".to_vec()]);
}

#[test]
fn net_ident_renders_pid_at_hostname() {
    assert_eq!(net_ident(0, "host"), "0@host".to_string());
    assert_eq!(net_ident(7, "web-3.example"), "7@web-3.example".to_string());
    assert_eq!(net_ident(12840, "host"), "12840@host".to_string());
    assert_eq!(net_ident(u64::MAX, "h"), "18446744073709551615@h".to_string());
}

#[test]
fn registration_body_round_trips() {
    let shards: Vec<u32> = vec![0, 5, 127, 4000];
    let body = encode_registration(Protocol::JobSrv, &shards);
    let (p, back) = parse_registration(&body).expect("well-formed registration parses");
    assert_eq!(p, Protocol::JobSrv);
    assert_eq!(back, shards);
    // An empty shard list means "any shard".
    let any = encode_registration(Protocol::Scheduler, &Vec::new());
    let (p2, none) = parse_registration(&any).expect("parses");
    assert_eq!(p2, Protocol::Scheduler);
    assert!(none.is_empty());
    // Shard bytes that do not divide into fours are refused.
    assert!(parse_registration(&vec![0u8, 1, 2]).is_none());
    assert!(parse_registration(&Vec::new()).is_none());
}
