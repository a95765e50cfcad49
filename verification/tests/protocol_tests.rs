use hyperswarm::protocol::{
    decode_krpc, encode_krpc, KrpcArgs, KrpcMessage, KrpcMessageType, KrpcQueryKind, KrpcResponse,
    ProtocolError,
};

fn ping_message() -> KrpcMessage {
    KrpcMessage {
        t: vec![1, 2],
        y: KrpcMessageType::Query,
        q: Some(KrpcQueryKind::Ping),
        a: Some(KrpcArgs {
            id: Some(vec![0; 20]),
            target: None,
            info_hash: None,
            port: None,
            token: None,
        }),
        r: None,
        e: None,
    }
}

#[test]
fn test_krpc_ping_encode_decode() {
    let msg = ping_message();

    let encoded = encode_krpc(&msg).expect("Failed to encode");
    assert!(!encoded.is_empty());

    let decoded = decode_krpc(&encoded).expect("Failed to decode");
    assert_eq!(decoded.t, msg.t);
    match decoded.y {
        KrpcMessageType::Query => {}
        _ => panic!("Expected Query type"),
    }
    assert!(decoded.q.is_some());
}

#[test]
fn test_krpc_response_encode_decode() {
    let msg = KrpcMessage {
        t: vec![3, 4],
        y: KrpcMessageType::Response,
        q: None,
        a: None,
        r: Some(KrpcResponse {
            id: Some(vec![1; 20]),
            nodes: None,
            values: None,
            token: None,
        }),
        e: None,
    };

    let encoded = encode_krpc(&msg).expect("Failed to encode");

    let decoded = decode_krpc(&encoded).expect("Failed to decode");
    assert_eq!(decoded.t, msg.t);
    match decoded.y {
        KrpcMessageType::Response => {}
        _ => panic!("Expected Response type"),
    }
    assert!(decoded.r.is_some());
}

#[test]
fn test_krpc_ping_golden_bytes() {
    let msg = ping_message();
    let encoded = encode_krpc(&msg).expect("Failed to encode");
    let mut expected: Vec<u8> = Vec::new();
    expected.extend_from_slice(b"d1:ad2:id20:");
    expected.extend_from_slice(&[0u8; 20]);
    expected.extend_from_slice(b"e1:q4:ping1:t2:");
    expected.extend_from_slice(&[1, 2]);
    expected.extend_from_slice(b"1:y1:qe");
    assert_eq!(encoded, expected);
}

#[test]
fn test_krpc_error_round_trip() {
    let msg = KrpcMessage {
        t: vec![9],
        y: KrpcMessageType::Error,
        q: None,
        a: None,
        r: None,
        e: Some((-201, b"Generic Error".to_vec())),
    };
    let encoded = encode_krpc(&msg).expect("Failed to encode");
    let decoded = decode_krpc(&encoded).expect("Failed to decode");
    assert_eq!(decoded.t, vec![9]);
    let (code, text) = decoded.e.expect("error tuple should survive");
    assert_eq!(code, -201);
    assert_eq!(text, b"Generic Error".to_vec());
}

#[test]
fn test_krpc_full_query_round_trip() {
    let msg = KrpcMessage {
        t: vec![0xab, 0xcd],
        y: KrpcMessageType::Query,
        q: Some(KrpcQueryKind::AnnouncePeer),
        a: Some(KrpcArgs {
            id: Some(vec![7; 20]),
            target: None,
            info_hash: Some(vec![9; 32]),
            port: Some(6881),
            token: Some(vec![1, 2, 3, 4]),
        }),
        r: None,
        e: None,
    };
    let encoded = encode_krpc(&msg).expect("Failed to encode");
    let decoded = decode_krpc(&encoded).expect("Failed to decode");
    let args = decoded.a.expect("args should survive");
    assert_eq!(args.id, Some(vec![7; 20]));
    assert_eq!(args.info_hash, Some(vec![9; 32]));
    assert_eq!(args.port, Some(6881));
    assert_eq!(args.token, Some(vec![1, 2, 3, 4]));
    assert!(args.target.is_none());
}

#[test]
fn test_krpc_values_round_trip() {
    let msg = KrpcMessage {
        t: vec![5, 6],
        y: KrpcMessageType::Response,
        q: None,
        a: None,
        r: Some(KrpcResponse {
            id: Some(vec![2; 20]),
            nodes: Some(vec![0x11; 26]),
            values: Some(vec![vec![127, 0, 0, 1, 0x1f, 0x90], vec![10, 0, 0, 2, 0, 80]]),
            token: Some(vec![0xaa, 0xbb]),
        }),
        e: None,
    };
    let encoded = encode_krpc(&msg).expect("Failed to encode");
    let decoded = decode_krpc(&encoded).expect("Failed to decode");
    let body = decoded.r.expect("response body should survive");
    assert_eq!(body.id, Some(vec![2; 20]));
    assert_eq!(body.nodes, Some(vec![0x11; 26]));
    assert_eq!(
        body.values,
        Some(vec![vec![127, 0, 0, 1, 0x1f, 0x90], vec![10, 0, 0, 2, 0, 80]])
    );
    assert_eq!(body.token, Some(vec![0xaa, 0xbb]));
}

#[test]
fn test_krpc_decode_rejects_malformed() {
    assert!(decode_krpc(b"").is_err());
    assert!(decode_krpc(b"d").is_err());
    assert!(decode_krpc(b"le").is_err());
    assert!(decode_krpc(b"d1:t2:abe").is_err());
    assert!(decode_krpc(b"d1:y1:qe").is_err());
    // A query without its arguments is missing required fields.
    assert!(decode_krpc(b"d1:q4:ping1:t2:ab1:y1:qe").is_err());
    // A length with a leading zero is not canonical bencode.
    assert!(decode_krpc(b"d1:t02:ab1:y1:qe").is_err());
    // Dictionary keys must arrive in sorted order.
    assert!(decode_krpc(b"d1:y1:r1:t2:abe").is_err());
    // Trailing bytes after the envelope are rejected.
    assert!(decode_krpc(b"d1:rd2:id20:aaaaaaaaaaaaaaaaaaaae1:t2:ab1:y1:ree!").is_err());
}

#[test]
fn test_krpc_decode_error_is_bencode_decode() {
    // Every decode failure reports the bencode-decode class, which the DHT
    // client wraps as its protocol error.
    for bad in [&b"x"[..], &b"d1:y1:qe"[..], &b"d1:t2:ab1:y1:qe!"[..]] {
        match decode_krpc(bad) {
            Err(ProtocolError::BencodeDecode(_)) => {}
            other => panic!("expected a bencode-decode error, got {:?}", other),
        }
    }
}

#[test]
fn test_krpc_decode_skips_unknown_keys() {
    // A response carrying extra entries a peer may add: an observed-address
    // value before `r`, a version tag between `t` and `y`.
    let mut data: Vec<u8> = Vec::new();
    data.extend_from_slice(b"d2:ip6:");
    data.extend_from_slice(&[127, 0, 0, 1, 0x1f, 0x90]);
    data.extend_from_slice(b"1:rd2:id20:");
    data.extend_from_slice(&[7u8; 20]);
    data.extend_from_slice(b"e1:t2:");
    data.extend_from_slice(&[1, 2]);
    data.extend_from_slice(b"1:v4:ABCD1:y1:re");
    let decoded = decode_krpc(&data).expect("extra keys should be skipped");
    assert!(matches!(decoded.y, KrpcMessageType::Response));
    assert_eq!(decoded.t, vec![1, 2]);
    assert_eq!(decoded.r.expect("response body").id, Some(vec![7u8; 20]));

    // An unknown entry holding a nested container is skipped whole, and
    // unknown entries inside the `a` dictionary are skipped too.
    let data = b"d1:ad2:id20:aaaaaaaaaaaaaaaaaaaa5:magicli-7e3:abcee1:q4:ping1:t2:ab3:xyzd1:kli1ei2eee1:y1:qe";
    let decoded = decode_krpc(data).expect("nested unknown values should be skipped");
    assert!(matches!(decoded.q, Some(KrpcQueryKind::Ping)));
    assert_eq!(decoded.a.expect("args").id, Some(b"aaaaaaaaaaaaaaaaaaaa".to_vec()));

    // An unknown entry with a malformed value still fails.
    assert!(decode_krpc(b"d3:xyzl1:a1:t2:ab1:y1:qe").is_err());
}

#[test]
fn test_krpc_decode_rejects_unknown_query() {
    let data = b"d1:q7:unknown1:t2:ab1:y1:qe";
    assert!(decode_krpc(data).is_err());
}
