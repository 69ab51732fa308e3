use routecore::codec::{
    decode_frames, encode_addressed, encode_header, encode_message, encode_reply_frames,
    encode_route_info, encode_txn, parse_header, parse_route_info, parse_txn, ConnEvent,
    DecodeErr,
};
use routecore::message::{bytes_eq, Header, Message, Protocol, RouteInfo, Txn, PROTOCOL_VERSION};

fn sample_message() -> Message {
    Message {
        identities: vec![b"123@host".to_vec()],
        header: Header {
            version: PROTOCOL_VERSION,
            has_route_info: true,
            has_txn: true,
            encoding: 0,
        },
        route_info: Some(RouteInfo {
            protocol: Protocol::SessionSrv,
            message_kind: b"SessionGet".to_vec(),
            hash: Some(986),
        }),
        txn: Some(Txn { id: 1, complete: false }),
        body: vec![1, 2, 3],
    }
}

fn assert_same_message(a: &Message, b: &Message) {
    assert_eq!(a.identities, b.identities);
    assert_eq!(a.header, b.header);
    match (&a.route_info, &b.route_info) {
        (Some(x), Some(y)) => {
            assert_eq!(x.protocol, y.protocol);
            assert_eq!(x.message_kind, y.message_kind);
            assert_eq!(x.hash, y.hash);
        }
        (None, None) => {}
        _ => panic!("route_info presence differs"),
    }
    assert_eq!(a.txn, b.txn);
    assert_eq!(a.body, b.body);
}

#[test]
fn encode_decode_round_trip() {
    let m = sample_message();
    let frames = encode_message(&m);
    // identities, delimiter, header, route info, txn, body
    assert_eq!(frames.len(), 6);
    assert_eq!(frames[0], b"123@host".to_vec());
    assert!(frames[1].is_empty());
    let (ev, m2) = decode_frames(&frames).expect("canonical frames decode");
    assert!(matches!(ev, ConnEvent::OnMessage));
    assert_same_message(&m, &m2);
}

#[test]
fn decode_encode_reproduces_frames() {
    let m = sample_message();
    let frames = encode_message(&m);
    let (_, m2) = decode_frames(&frames).expect("decodes");
    let frames2 = encode_message(&m2);
    assert_eq!(frames, frames2);
}

#[test]
fn round_trip_without_optional_sections() {
    let m = Message {
        identities: vec![b"a".to_vec(), b"b".to_vec()],
        header: Header {
            version: PROTOCOL_VERSION,
            has_route_info: false,
            has_txn: false,
            encoding: 7,
        },
        route_info: None,
        txn: None,
        body: vec![9, 9],
    };
    let frames = encode_message(&m);
    assert_eq!(frames.len(), 5);
    let (ev, m2) = decode_frames(&frames).expect("decodes");
    assert!(matches!(ev, ConnEvent::OnMessage));
    assert_same_message(&m, &m2);
}

#[test]
fn empty_stream_is_no_identity() {
    let frames: Vec<Vec<u8>> = Vec::new();
    assert_eq!(decode_frames(&frames).unwrap_err(), DecodeErr::NoIdentity);
}

#[test]
fn leading_delimiter_is_no_identity() {
    let frames = vec![Vec::new(), vec![1u8]];
    assert_eq!(decode_frames(&frames).unwrap_err(), DecodeErr::NoIdentity);
}

#[test]
fn missing_delimiter_is_no_header() {
    let frames = vec![b"id".to_vec(), vec![1u8, 2]];
    assert_eq!(decode_frames(&frames).unwrap_err(), DecodeErr::NoHeader);
}

#[test]
fn identities_alone_signal_a_connect() {
    let frames = vec![b"peer".to_vec(), Vec::new()];
    let (ev, m) = decode_frames(&frames).expect("connect event decodes");
    assert!(matches!(ev, ConnEvent::OnConnect));
    assert_eq!(m.identities, vec![b"peer".to_vec()]);
    assert!(m.route_info.is_none() && m.txn.is_none());
}

#[test]
fn only_empty_frames_after_delimiter_is_no_header() {
    let frames = vec![b"peer".to_vec(), Vec::new(), Vec::new()];
    assert_eq!(decode_frames(&frames).unwrap_err(), DecodeErr::NoHeader);
}

#[test]
fn extra_empty_frames_before_header_are_skipped() {
    let m = sample_message();
    let mut frames = encode_message(&m);
    frames.insert(2, Vec::new());
    let (ev, m2) = decode_frames(&frames).expect("decodes despite padding");
    assert!(matches!(ev, ConnEvent::OnMessage));
    assert_same_message(&m, &m2);
}

#[test]
fn malformed_header_is_bad_header() {
    let frames = vec![b"id".to_vec(), Vec::new(), vec![1u8, 2]];
    assert_eq!(decode_frames(&frames).unwrap_err(), DecodeErr::BadHeader);
}

#[test]
fn announced_route_info_must_follow() {
    let header = encode_header(&Header {
        version: PROTOCOL_VERSION,
        has_route_info: true,
        has_txn: false,
        encoding: 0,
    });
    let frames = vec![b"id".to_vec(), Vec::new(), header];
    assert_eq!(decode_frames(&frames).unwrap_err(), DecodeErr::NoRouteInfo);
}

#[test]
fn malformed_route_info_is_bad_route_info() {
    let header = encode_header(&Header {
        version: PROTOCOL_VERSION,
        has_route_info: true,
        has_txn: false,
        encoding: 0,
    });
    let frames = vec![b"id".to_vec(), Vec::new(), header, vec![9u8]];
    assert_eq!(decode_frames(&frames).unwrap_err(), DecodeErr::BadRouteInfo);
}

#[test]
fn announced_txn_must_follow() {
    let header = encode_header(&Header {
        version: PROTOCOL_VERSION,
        has_route_info: false,
        has_txn: true,
        encoding: 0,
    });
    let frames = vec![b"id".to_vec(), Vec::new(), header];
    assert_eq!(decode_frames(&frames).unwrap_err(), DecodeErr::NoTxn);
}

#[test]
fn malformed_txn_is_bad_txn() {
    let header = encode_header(&Header {
        version: PROTOCOL_VERSION,
        has_route_info: false,
        has_txn: true,
        encoding: 0,
    });
    let frames = vec![b"id".to_vec(), Vec::new(), header, vec![1u8, 2, 3]];
    assert_eq!(decode_frames(&frames).unwrap_err(), DecodeErr::BadTxn);
}

#[test]
fn missing_body_is_no_body() {
    let header = encode_header(&Header {
        version: PROTOCOL_VERSION,
        has_route_info: false,
        has_txn: false,
        encoding: 0,
    });
    let frames = vec![b"id".to_vec(), Vec::new(), header];
    assert_eq!(decode_frames(&frames).unwrap_err(), DecodeErr::NoBody);
}

#[test]
fn trailing_frames_are_discarded() {
    let m = sample_message();
    let mut frames = encode_message(&m);
    frames.push(vec![0xAA, 0xBB]);
    let (ev, m2) = decode_frames(&frames).expect("decodes with trailing junk");
    assert!(matches!(ev, ConnEvent::OnMessage));
    assert_same_message(&m, &m2);
}

#[test]
fn header_frame_bytes_are_version_flags_encoding() {
    let h = Header { version: 1, has_route_info: true, has_txn: true, encoding: 5 };
    let b = encode_header(&h);
    assert_eq!(b, vec![1u8, 3, 5]);
    assert_eq!(parse_header(&b), Some(h));
    let h2 = Header { version: 1, has_route_info: false, has_txn: true, encoding: 0 };
    assert_eq!(encode_header(&h2), vec![1u8, 2, 0]);
    assert_eq!(parse_header(&vec![1u8, 4, 0]), None);
}

#[test]
fn route_info_frame_round_trips() {
    let ri = RouteInfo {
        protocol: Protocol::OriginSrv,
        message_kind: b"OriginGet".to_vec(),
        hash: Some(0x0102030405060708),
    };
    let b = encode_route_info(&ri);
    assert_eq!(b[0], 3); // the origin service's protocol tag
    assert_eq!(b[1], 1); // hash present
    assert_eq!(&b[2..10], &[8u8, 7, 6, 5, 4, 3, 2, 1]); // little endian
    let ri2 = parse_route_info(&b).expect("parses");
    assert_eq!(ri2.protocol, Protocol::OriginSrv);
    assert_eq!(ri2.message_kind, b"OriginGet".to_vec());
    assert_eq!(ri2.hash, Some(0x0102030405060708));

    let no_hash = RouteInfo {
        protocol: Protocol::RouteSrv,
        message_kind: b"Heartbeat".to_vec(),
        hash: None,
    };
    let nb = encode_route_info(&no_hash);
    assert_eq!(nb[1], 0);
    let back = parse_route_info(&nb).expect("parses");
    assert_eq!(back.hash, None);
}

#[test]
fn txn_frame_round_trips() {
    let t = Txn { id: 7, complete: true };
    let b = encode_txn(&t);
    assert_eq!(b.len(), 9);
    assert_eq!(b[0], 7);
    assert_eq!(b[8], 1);
    assert_eq!(parse_txn(&b), Some(t));
    assert_eq!(parse_txn(&vec![0u8; 8]), None);
}

#[test]
fn addressed_and_reply_encodings_share_the_sections() {
    let mut m = sample_message();
    m.identities = Vec::new();
    let sections = encode_message(&Message { identities: Vec::new(), ..m.clone() });
    let addressed = encode_addressed(&b"dest".to_vec(), &m);
    assert_eq!(addressed[0], b"dest".to_vec());
    assert!(addressed[1].is_empty());
    assert_eq!(&addressed[2..], &sections[1..]);
    let reply = encode_reply_frames(&m);
    assert!(reply[0].is_empty());
    assert_eq!(&reply[1..], &sections[1..]);
}

#[test]
fn round_trip_over_generated_messages() {
    // A deterministic generator walks a spread of well-formed messages;
    // every one survives the frame round trip.
    let mut seed: u64 = 0x2545F4914F6CDD1D;
    let mut next = || {
        seed ^= seed << 13;
        seed ^= seed >> 7;
        seed ^= seed << 17;
        seed
    };
    for _ in 0..200 {
        let id_count = 1 + (next() % 3) as usize;
        let identities: Vec<Vec<u8>> = (0..id_count)
            .map(|_| {
                let len = 1 + (next() % 6) as usize;
                (0..len).map(|_| next() as u8).collect()
            })
            .collect();
        let with_route_info = next() % 2 == 0;
        let with_txn = next() % 2 == 0;
        let m = Message {
            identities,
            header: Header {
                version: PROTOCOL_VERSION,
                has_route_info: with_route_info,
                has_txn: with_txn,
                encoding: (next() % 4) as u8,
            },
            route_info: if with_route_info {
                Some(RouteInfo {
                    protocol: match next() % 6 {
                        0 => Protocol::Net,
                        1 => Protocol::RouteSrv,
                        2 => Protocol::SessionSrv,
                        3 => Protocol::OriginSrv,
                        4 => Protocol::JobSrv,
                        _ => Protocol::Scheduler,
                    },
                    message_kind: (0..(next() % 12) as usize).map(|_| next() as u8).collect(),
                    hash: if next() % 2 == 0 { Some(next()) } else { None },
                })
            } else {
                None
            },
            txn: if with_txn {
                Some(Txn { id: next(), complete: next() % 2 == 0 })
            } else {
                None
            },
            body: (0..(next() % 20) as usize).map(|_| next() as u8).collect(),
        };
        let frames = encode_message(&m);
        let (ev, m2) = decode_frames(&frames).expect("generated message decodes");
        assert!(matches!(ev, ConnEvent::OnMessage));
        assert_same_message(&m, &m2);
        assert_eq!(encode_message(&m2), frames);
    }
}

#[test]
fn bytes_eq_compares_contents() {
    assert!(bytes_eq(&b"abc".to_vec(), &b"abc".to_vec()));
    assert!(!bytes_eq(&b"abc".to_vec(), &b"abd".to_vec()));
    assert!(!bytes_eq(&b"abc".to_vec(), &b"ab".to_vec()));
}

#[test]
fn sender_is_the_first_identity() {
    let m = sample_message();
    assert_eq!(m.sender(), Some(&b"123@host".to_vec()));
    assert_eq!(m.message_kind(), Some(&b"SessionGet".to_vec()));
    let bare = Message::new();
    assert_eq!(bare.sender(), None);
    assert_eq!(bare.message_kind(), None);
}

#[test]
fn built_requests_are_well_formed_on_the_wire() {
    let mut m = Message::build_request(
        Protocol::Scheduler,
        b"GroupGet".to_vec(),
        Some(77),
        vec![1],
    );
    assert!(m.header.has_route_info && !m.header.has_txn);
    m.identities = vec![b"gw".to_vec()];
    let frames = encode_message(&m);
    let (_, back) = decode_frames(&frames).expect("built request decodes");
    let ri = back.route_info.unwrap();
    assert_eq!(ri.protocol, Protocol::Scheduler);
    assert_eq!(ri.hash, Some(77));
}
