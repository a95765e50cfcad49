use hyperswarm::dht::{
    build_announce_peer, build_get_peers, build_ping, default_bootstrap_nodes, parse_compact_nodes,
    parse_compact_peer, parse_get_peers_response, transaction_matches, DhtConfig, DhtState,
    Endpoint, RoutingTable,
};
use hyperswarm::protocol::{KrpcMessage, KrpcMessageType, KrpcQueryKind, KrpcResponse};

fn local_endpoint(port: u16) -> Endpoint {
    Endpoint {
        ip: vec![127, 0, 0, 1],
        port,
    }
}

#[test]
fn test_routing_table() {
    let mut rt = RoutingTable::new();

    let node_id = vec![1u8; 20];
    rt.add_node(node_id, local_endpoint(8080));

    assert_eq!(rt.len(), 1);
}

#[test]
fn test_routing_table_fifo_bound() {
    let mut rt = RoutingTable::new();
    for i in 0..105u16 {
        let mut id = vec![0u8; 20];
        id[0] = (i / 256) as u8;
        id[1] = (i % 256) as u8;
        rt.add_node(id, local_endpoint(8000 + i));
    }
    // The bound holds, and the survivors are the last 100 inserted, in order.
    assert_eq!(rt.len(), 100);
    let nodes = rt.get_nodes(100);
    assert_eq!(nodes.len(), 100);
    assert_eq!(nodes[0].addr.port, 8005);
    assert_eq!(nodes[99].addr.port, 8104);
    // Reads return a prefix of at most the requested count.
    let few = rt.get_nodes(10);
    assert_eq!(few.len(), 10);
    assert_eq!(few[0].addr.port, 8005);
    assert_eq!(few[9].addr.port, 8014);
}

#[test]
fn test_transaction_id_generation() {
    let config = DhtConfig {
        bootstrap: vec![],
        bind_port: 0,
    };
    let mut state = DhtState::new(config);

    let tx1 = state.get_transaction_id();
    let tx2 = state.get_transaction_id();

    assert_ne!(tx1, tx2);
    assert_eq!(tx1, vec![0, 0]);
    assert_eq!(tx2, vec![0, 1]);
}

#[test]
fn test_transaction_id_wraps() {
    let config = DhtConfig {
        bootstrap: vec![],
        bind_port: 0,
    };
    let mut state = DhtState::new(config);
    state.next_transaction_id = 0xffff;
    let tx1 = state.get_transaction_id();
    let tx2 = state.get_transaction_id();
    assert_eq!(tx1, vec![0xff, 0xff]);
    assert_eq!(tx2, vec![0, 0]);
}

#[test]
fn test_node_id_is_twenty_bytes() {
    let config = DhtConfig {
        bootstrap: vec![],
        bind_port: 0,
    };
    let state = DhtState::new(config);
    assert_eq!(state.node_id().len(), 20);
}

#[test]
fn test_compact_peer_parsing_ipv4() {
    let ipv4_peer = vec![127, 0, 0, 1, 0x1f, 0x90]; // 127.0.0.1:8080
    let peer = parse_compact_peer(&ipv4_peer).expect("6-byte value should parse");
    assert_eq!(peer.addr.ip, vec![127, 0, 0, 1]);
    assert_eq!(peer.addr.port, 8080);
    assert!(peer.node_id.is_none());
}

#[test]
fn test_compact_peer_parsing_ipv6() {
    let ipv6_peer = vec![
        0x20, 0x01, 0x0d, 0xb8, 0x00, 0x00, 0x00, 0x00, 0x00, 0x00, 0x00, 0x00, 0x00, 0x00, 0x00,
        0x01, 0x1f, 0x90, // port 8080
    ];
    let peer = parse_compact_peer(&ipv6_peer).expect("18-byte value should parse");
    assert_eq!(peer.addr.ip.len(), 16);
    assert_eq!(peer.addr.ip[0], 0x20);
    assert_eq!(peer.addr.ip[15], 0x01);
    assert_eq!(peer.addr.port, 8080);
}

#[test]
fn test_compact_peer_rejects_bad_lengths() {
    assert!(parse_compact_peer(&vec![127, 0, 0, 1, 0x1f, 0x90, 0]).is_none());
    assert!(parse_compact_peer(&vec![0u8; 19]).is_none());
    assert!(parse_compact_peer(&vec![]).is_none());
}

#[test]
fn test_compact_nodes_chunking() {
    let mut data: Vec<u8> = Vec::new();
    // Two full 26-byte entries and a 5-byte tail that must be discarded.
    for b in 0..26u8 {
        data.push(b);
    }
    data.extend_from_slice(&[9u8; 20]);
    data.extend_from_slice(&[10, 0, 0, 7]);
    data.extend_from_slice(&[0x23, 0x28]); // port 9000
    data.extend_from_slice(&[1, 2, 3, 4, 5]);

    let nodes = parse_compact_nodes(&data);
    assert_eq!(nodes.len(), 2);
    assert_eq!(nodes[0].node_id, (0..20u8).collect::<Vec<u8>>());
    assert_eq!(nodes[0].addr.ip, vec![20, 21, 22, 23]);
    assert_eq!(nodes[0].addr.port, 24 * 256 + 25);
    assert_eq!(nodes[1].node_id, vec![9u8; 20]);
    assert_eq!(nodes[1].addr.ip, vec![10, 0, 0, 7]);
    assert_eq!(nodes[1].addr.port, 9000);
}

#[test]
fn test_build_ping_fields() {
    let node_id = vec![3u8; 20];
    let msg = build_ping(&node_id, vec![0, 7]);
    assert_eq!(msg.t, vec![0, 7]);
    assert!(matches!(msg.y, KrpcMessageType::Query));
    assert!(matches!(msg.q, Some(KrpcQueryKind::Ping)));
    let args = msg.a.expect("ping carries args");
    assert_eq!(args.id, Some(vec![3u8; 20]));
    assert!(msg.r.is_none() && msg.e.is_none());
}

#[test]
fn test_build_announce_peer_fields() {
    let node_id = vec![3u8; 20];
    let info_hash = vec![8u8; 32];
    let msg = build_announce_peer(&node_id, vec![0, 9], &info_hash, 6881, vec![0xde, 0xad]);
    let args = msg.a.expect("announce_peer carries args");
    assert_eq!(args.info_hash, Some(vec![8u8; 32]));
    assert_eq!(args.port, Some(6881));
    assert_eq!(args.token, Some(vec![0xde, 0xad]));
    assert!(matches!(msg.q, Some(KrpcQueryKind::AnnouncePeer)));
}

#[test]
fn test_transaction_matching() {
    let node_id = vec![3u8; 20];
    let info_hash = vec![8u8; 32];
    let msg = build_get_peers(&node_id, vec![1, 2], &info_hash);
    assert!(transaction_matches(&msg, &vec![1, 2]));
    assert!(!transaction_matches(&msg, &vec![1, 3]));
    assert!(!transaction_matches(&msg, &vec![1]));
}

#[test]
fn test_parse_get_peers_response() {
    let msg = KrpcMessage {
        t: vec![1, 2],
        y: KrpcMessageType::Response,
        q: None,
        a: None,
        r: Some(KrpcResponse {
            id: Some(vec![1; 20]),
            nodes: None,
            values: Some(vec![
                vec![127, 0, 0, 1, 0x1f, 0x90],
                vec![1, 2, 3],             // malformed: dropped
                vec![10, 0, 0, 9, 0, 80],
            ]),
            token: Some(vec![0x55]),
        }),
        e: None,
    };
    let (peers, token) = parse_get_peers_response(&msg);
    assert_eq!(peers.len(), 2);
    assert_eq!(peers[0].addr.ip, vec![127, 0, 0, 1]);
    assert_eq!(peers[0].addr.port, 8080);
    assert_eq!(peers[1].addr.port, 80);
    assert_eq!(token, Some(vec![0x55]));
}

#[test]
fn test_observe_ping_response_inserts_node() {
    let config = DhtConfig {
        bootstrap: vec![],
        bind_port: 0,
    };
    let mut state = DhtState::new(config);
    let good = KrpcMessage {
        t: vec![0, 0],
        y: KrpcMessageType::Response,
        q: None,
        a: None,
        r: Some(KrpcResponse {
            id: Some(vec![4u8; 20]),
            nodes: None,
            values: None,
            token: None,
        }),
        e: None,
    };
    state.observe_ping_response(&good, local_endpoint(7000));
    assert_eq!(state.routing_table.len(), 1);

    // A response whose id is not exactly 20 bytes is ignored.
    let bad = KrpcMessage {
        t: vec![0, 1],
        y: KrpcMessageType::Response,
        q: None,
        a: None,
        r: Some(KrpcResponse {
            id: Some(vec![4u8; 19]),
            nodes: None,
            values: None,
            token: None,
        }),
        e: None,
    };
    state.observe_ping_response(&bad, local_endpoint(7001));
    assert_eq!(state.routing_table.len(), 1);
}

#[test]
fn test_default_bootstrap_nodes() {
    let nodes = default_bootstrap_nodes();
    assert_eq!(nodes.len(), 3);
    assert_eq!(nodes[0], "router.bittorrent.com:6881");
    assert_eq!(nodes[1], "dht.transmissionbt.com:6881");
    assert_eq!(nodes[2], "router.utorrent.com:6881");
}
