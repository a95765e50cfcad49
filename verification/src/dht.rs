//! DHT client state: node identity, routing table, transaction ids, KRPC
//! query construction and response interpretation.
//!
//! The UDP socket itself lives with the caller; everything here is the
//! decision logic between datagrams.

use vstd::prelude::*;

use crate::bytesutil::{be16, be16_bytes, bytes_eq, u16_of_be, u16_from_be};
use crate::protocol::{
    KrpcArgs, KrpcArgsView, KrpcMessage, KrpcMessageType, KrpcMessageView, KrpcQueryKind,
    ProtocolError,
};

verus! {

/// Configuration for the DHT client: bootstrap nodes in `host:port` form and
/// the local UDP port to bind (0 means OS-assigned).
pub struct DhtConfig {
    pub bootstrap: Vec<String>,
    pub bind_port: u16,
}

#[derive(Debug)]
pub enum DhtError {
    Io(String),
    Protocol(ProtocolError),
    Timeout,
    Unimplemented,
}

/// A UDP endpoint as plain bytes: a 4-byte IPv4 or 16-byte IPv6 address and a
/// port.
pub struct Endpoint {
    pub ip: Vec<u8>,
    pub port: u16,
}

/// Mathematical model of `Endpoint`.
#[verifier::ext_equal]
pub struct EndpointView {
    pub ip: Seq<u8>,
    pub port: u16,
}

impl View for Endpoint {
    type V = EndpointView;

    open spec fn view(&self) -> EndpointView {
        EndpointView { ip: self.ip@, port: self.port }
    }
}

impl EndpointView {
    /// An endpoint holds either an IPv4 or an IPv6 address.
    pub open spec fn wf(self) -> bool {
        self.ip.len() == 4 || self.ip.len() == 16
    }
}

/// A peer found by a lookup: its address and, when known, its node id.
pub struct PeerAddress {
    pub addr: Endpoint,
    pub node_id: Option<Vec<u8>>,
}

/// Mathematical model of `PeerAddress`.
#[verifier::ext_equal]
pub struct PeerAddressView {
    pub addr: EndpointView,
    pub node_id: Option<Seq<u8>>,
}

impl View for PeerAddress {
    type V = PeerAddressView;

    open spec fn view(&self) -> PeerAddressView {
        PeerAddressView {
            addr: self.addr@,
            node_id: match self.node_id {
                Some(v) => Some(v@),
                None => None,
            },
        }
    }
}

/// A routing-table entry: a 20-byte node id and its address.
pub struct NodeInfo {
    pub node_id: Vec<u8>,
    pub addr: Endpoint,
}

/// Mathematical model of `NodeInfo`.
#[verifier::ext_equal]
pub struct NodeInfoView {
    pub node_id: Seq<u8>,
    pub addr: EndpointView,
}

impl View for NodeInfo {
    type V = NodeInfoView;

    open spec fn view(&self) -> NodeInfoView {
        NodeInfoView { node_id: self.node_id@, addr: self.addr@ }
    }
}

/// The views of a sequence of entries.
pub open spec fn nodes_view(ns: Seq<NodeInfo>) -> Seq<NodeInfoView> {
    Seq::new(ns.len(), |i: int| ns[i]@)
}

/// Capacity bound of the routing table.
pub open spec fn routing_table_bound() -> int {
    100
}

/// One FIFO insertion: append at the tail; evict the head when over capacity.
pub open spec fn rt_insert(s: Seq<NodeInfoView>, n: NodeInfoView) -> Seq<NodeInfoView> {
    if s.len() >= routing_table_bound() {
        s.push(n).drop_first()
    } else {
        s.push(n)
    }
}

/// Folding `rt_insert` over a sequence of entries.
pub open spec fn rt_insert_all(s: Seq<NodeInfoView>, ns: Seq<NodeInfoView>) -> Seq<NodeInfoView>
    decreases ns.len(),
{
    if ns.len() == 0 {
        s
    } else {
        rt_insert_all(rt_insert(s, ns[0]), ns.drop_first())
    }
}

/// A bounded FIFO table of known nodes.
pub struct RoutingTable {
    nodes: Vec<NodeInfo>,
}

impl View for RoutingTable {
    type V = Seq<NodeInfoView>;

    closed spec fn view(&self) -> Seq<NodeInfoView> {
        nodes_view(self.nodes@)
    }
}

impl RoutingTable {
    /// The table never holds more than its capacity bound.
    pub open spec fn wf(self) -> bool {
        self@.len() <= routing_table_bound()
    }

    pub fn new() -> (r: RoutingTable)
        ensures
            r@ =~= Seq::<NodeInfoView>::empty(),
            r.wf(),
    {
        RoutingTable { nodes: Vec::new() }
    }

    pub fn len(&self) -> (r: usize)
        ensures
            r == self@.len(),
    {
        self.nodes.len()
    }

    /// Append an entry at the tail, evicting the oldest when full.
    pub fn add_node(&mut self, node_id: Vec<u8>, addr: Endpoint)
        requires
            old(self).wf(),
        ensures
            final(self)@ == rt_insert(old(self)@, NodeInfoView { node_id: node_id@, addr: addr@ }),
            final(self).wf(),
    {
        let ghost s0 = self@;
        let ghost nv = NodeInfoView { node_id: node_id@, addr: addr@ };
        let n = NodeInfo { node_id, addr };
        self.nodes.push(n);
        proof {
            assert(nodes_view(self.nodes@) =~= s0.push(nv));
        }
        if self.nodes.len() > 100 {
            self.nodes.remove(0);
            proof {
                assert(nodes_view(self.nodes@) =~= s0.push(nv).drop_first());
            }
        }
    }

    /// The first `count` entries (oldest first), or all of them.
    pub fn get_nodes(&self, count: usize) -> (r: Vec<NodeInfo>)
        ensures
            nodes_view(r@) =~= self@.take(if count <= self@.len() {
                count as int
            } else {
                self@.len() as int
            }),
    {
        let n = self.nodes.len();
        let take_n = if count <= n {
            count
        } else {
            n
        };
        let mut r: Vec<NodeInfo> = Vec::new();
        let mut i: usize = 0;
        while i < take_n
            invariant
                take_n <= n == self.nodes@.len(),
                i <= take_n,
                nodes_view(r@) =~~= nodes_view(self.nodes@).take(i as int),
            decreases take_n - i,
        {
            let ghost r0 = r@;
            proof {
                assert(nodes_view(r0).len() == r0.len());
                assert(nodes_view(self.nodes@).len() == self.nodes@.len());
                assert(nodes_view(self.nodes@).take(i as int).len() == i);
                assert(r0.len() == i);
            }
            let e = &self.nodes[i];
            let node_id = copy_bytes(&e.node_id);
            let ip = copy_bytes(&e.addr.ip);
            r.push(NodeInfo { node_id, addr: Endpoint { ip, port: e.addr.port } });
            proof {
                let lhs = nodes_view(r@);
                let rhs = nodes_view(self.nodes@).take(i + 1);
                assert(r@ == r0.push(r@[i as int]));
                assert(r@[i as int]@ =~~= self.nodes@[i as int]@);
                assert forall|j: int| 0 <= j < i + 1 implies lhs[j] == rhs[j] by {
                    if j < i {
                        assert(lhs[j] == nodes_view(r0)[j]);
                        assert(nodes_view(r0)[j] == nodes_view(self.nodes@).take(i as int)[j]);
                    } else {
                        assert(lhs[j] == r@[i as int]@);
                    }
                }
                assert(lhs =~~= rhs);
            }
            i += 1;
        }
        r
    }
}

/// Byte-for-byte copy of a vector.
pub fn copy_bytes(v: &Vec<u8>) -> (r: Vec<u8>)
    ensures
        r@ == v@,
{
    let mut r: Vec<u8> = Vec::new();
    let n = v.len();
    let mut i: usize = 0;
    while i < n
        invariant
            n == v@.len(),
            i <= n,
            r@ == v@.take(i as int),
        decreases n - i,
    {
        r.push(v[i]);
        assert(r@ =~= v@.take(i + 1));
        i += 1;
    }
    assert(r@ =~= v@);
    r
}

/// FIFO law of the routing table: inserting into a table that holds at most
/// the bound keeps exactly the newest entries, in insertion order.
proof fn lemma_rt_insert_all_general(s: Seq<NodeInfoView>, ns: Seq<NodeInfoView>)
    requires
        s.len() <= routing_table_bound(),
    ensures
        rt_insert_all(s, ns) =~= (s + ns).skip(
            if s.len() + ns.len() <= routing_table_bound() {
                0
            } else {
                s.len() + ns.len() - routing_table_bound()
            },
        ),
        rt_insert_all(s, ns).len() <= routing_table_bound(),
    decreases ns.len(),
{
    if ns.len() == 0 {
        assert(s + ns =~= s);
    } else {
        let n0 = ns[0];
        let s2 = rt_insert(s, n0);
        if s.len() >= routing_table_bound() {
            assert(s2 =~= s.push(n0).drop_first());
        }
        lemma_rt_insert_all_general(s2, ns.drop_first());
        assert(s2 + ns.drop_first() =~= (s + ns).skip(
            if s.len() >= routing_table_bound() {
                1
            } else {
                0
            },
        ));
    }
}

/// After `n` insertions into an empty table, the table holds the last
/// `min(n, 100)` entries inserted, in insertion order.
pub proof fn lemma_routing_table_fifo(ns: Seq<NodeInfoView>)
    ensures
        rt_insert_all(Seq::empty(), ns).len() == if ns.len() <= routing_table_bound() {
            ns.len() as int
        } else {
            routing_table_bound()
        },
        rt_insert_all(Seq::empty(), ns) =~= ns.skip(
            if ns.len() <= routing_table_bound() {
                0
            } else {
                ns.len() - routing_table_bound()
            },
        ),
{
    lemma_rt_insert_all_general(Seq::empty(), ns);
    assert(Seq::<NodeInfoView>::empty() + ns =~= ns);
}


/// The next transaction counter value, wrapping at 16 bits.
pub open spec fn next_tx(c: u16) -> u16 {
    if c == 0xffff {
        0
    } else {
        (c + 1) as u16
    }
}

/// Consecutive transaction ids are distinct byte sequences.
pub proof fn lemma_consecutive_transaction_ids_differ(c: u16)
    ensures
        be16(c) != be16(next_tx(c)),
{
    crate::bytesutil::lemma_be16_injective(c, next_tx(c));
}

/// The client state between datagrams: identity, routing table, transaction
/// counter and the configured bootstrap nodes.
pub struct DhtState {
    pub node_id: Vec<u8>,
    pub routing_table: RoutingTable,
    pub next_transaction_id: u16,
    pub bootstrap_nodes: Vec<String>,
}

impl DhtState {
    /// A 20-byte node id and a routing table within its bound.
    pub open spec fn wf(self) -> bool {
        self.node_id@.len() == 20 && self.routing_table.wf()
    }

    /// Fresh state: a random 20-byte node id, an empty table, counter zero.
    pub fn new(config: DhtConfig) -> (r: DhtState)
        ensures
            r.wf(),
            r.routing_table@ =~= Seq::<NodeInfoView>::empty(),
            r.next_transaction_id == 0,
            r.bootstrap_nodes@ == config.bootstrap@,
    {
        let node_id = random_node_id();
        DhtState {
            node_id,
            routing_table: RoutingTable::new(),
            next_transaction_id: 0,
            bootstrap_nodes: config.bootstrap,
        }
    }

    /// A copy of this node's id.
    pub fn node_id(&self) -> (r: Vec<u8>)
        ensures
            r@ == self.node_id@,
    {
        copy_bytes(&self.node_id)
    }

    /// Whether the built-in bootstrap set must be used.
    pub fn bootstrap_is_empty(&self) -> (r: bool)
        ensures
            r <==> self.bootstrap_nodes@.len() == 0,
    {
        self.bootstrap_nodes.len() == 0
    }

    /// The next transaction id, big-endian, advancing the wrapping counter.
    pub fn get_transaction_id(&mut self) -> (r: Vec<u8>)
        ensures
            r@ == be16(old(self).next_transaction_id),
            r@.len() == 2,
            final(self).next_transaction_id == next_tx(old(self).next_transaction_id),
            final(self).node_id == old(self).node_id,
            final(self).routing_table == old(self).routing_table,
            final(self).bootstrap_nodes == old(self).bootstrap_nodes,
    {
        let id = self.next_transaction_id;
        self.next_transaction_id = if self.next_transaction_id == 0xffff {
            0
        } else {
            self.next_transaction_id + 1
        };
        be16_bytes(id)
    }

    /// Record a node in the routing table.
    pub fn add_node_to_routing_table(&mut self, node_id: Vec<u8>, addr: Endpoint)
        requires
            old(self).wf(),
        ensures
            final(self).wf(),
            final(self).routing_table@ == rt_insert(
                old(self).routing_table@,
                NodeInfoView { node_id: node_id@, addr: addr@ },
            ),
            final(self).node_id == old(self).node_id,
            final(self).next_transaction_id == old(self).next_transaction_id,
            final(self).bootstrap_nodes == old(self).bootstrap_nodes,
    {
        self.routing_table.add_node(node_id, addr);
    }

    /// Record the sender of a ping response whose `r.id` is exactly 20 bytes;
    /// any other response leaves the table unchanged.
    pub fn observe_ping_response(&mut self, msg: &KrpcMessage, from: Endpoint)
        requires
            old(self).wf(),
        ensures
            final(self).wf(),
            final(self).routing_table@ == (match msg@.r {
                Some(rv) => match rv.id {
                    Some(id) => if id.len() == 20 {
                        rt_insert(
                            old(self).routing_table@,
                            NodeInfoView { node_id: id, addr: from@ },
                        )
                    } else {
                        old(self).routing_table@
                    },
                    None => old(self).routing_table@,
                },
                None => old(self).routing_table@,
            }),
            final(self).node_id == old(self).node_id,
            final(self).next_transaction_id == old(self).next_transaction_id,
            final(self).bootstrap_nodes == old(self).bootstrap_nodes,
    {
        match &msg.r {
            Some(rv) => {
                match &rv.id {
                    Some(id) => {
                        if id.len() == 20 {
                            let id_copy = copy_bytes(id);
                            self.routing_table.add_node(id_copy, from);
                        }
                    },
                    None => {},
                }
            },
            None => {},
        }
    }
}

/// Relies on rand::thread_rng / rand::Rng::fill: 20 random bytes.
#[verifier::external_body]
fn random_node_id() -> (r: Vec<u8>)
    ensures
        r@.len() == 20,
{
    let mut node_id = [0u8; 20];
    rand::Rng::fill(&mut rand::thread_rng(), &mut node_id[..]);
    node_id.to_vec()
}

/// Empty query arguments.
pub open spec fn empty_args() -> KrpcArgsView {
    KrpcArgsView { id: None, target: None, info_hash: None, port: None, token: None }
}

/// A ping query with the given transaction id and sender id.
pub fn build_ping(node_id: &Vec<u8>, t: Vec<u8>) -> (m: KrpcMessage)
    ensures
        m@.t == t@,
        m@.y == KrpcMessageType::Query,
        m@.q == Some(KrpcQueryKind::Ping),
        m@.a == Some(KrpcArgsView { id: Some(node_id@), ..empty_args() }),
        m@.r is None && m@.e is None,
{
    let id = copy_bytes(node_id);
    KrpcMessage {
        t,
        y: KrpcMessageType::Query,
        q: Some(KrpcQueryKind::Ping),
        a: Some(KrpcArgs { id: Some(id), target: None, info_hash: None, port: None, token: None }),
        r: None,
        e: None,
    }
}

/// A find_node query for the given target id.
pub fn build_find_node(node_id: &Vec<u8>, t: Vec<u8>, target: &Vec<u8>) -> (m: KrpcMessage)
    ensures
        m@.t == t@,
        m@.y == KrpcMessageType::Query,
        m@.q == Some(KrpcQueryKind::FindNode),
        m@.a == Some(KrpcArgsView { id: Some(node_id@), target: Some(target@), ..empty_args() }),
        m@.r is None && m@.e is None,
{
    let id = copy_bytes(node_id);
    let tgt = copy_bytes(target);
    KrpcMessage {
        t,
        y: KrpcMessageType::Query,
        q: Some(KrpcQueryKind::FindNode),
        a: Some(
            KrpcArgs { id: Some(id), target: Some(tgt), info_hash: None, port: None, token: None },
        ),
        r: None,
        e: None,
    }
}

/// A get_peers query for the given info-hash (here: the topic bytes).
pub fn build_get_peers(node_id: &Vec<u8>, t: Vec<u8>, info_hash: &Vec<u8>) -> (m: KrpcMessage)
    ensures
        m@.t == t@,
        m@.y == KrpcMessageType::Query,
        m@.q == Some(KrpcQueryKind::GetPeers),
        m@.a == Some(
            KrpcArgsView { id: Some(node_id@), info_hash: Some(info_hash@), ..empty_args() },
        ),
        m@.r is None && m@.e is None,
{
    let id = copy_bytes(node_id);
    let ih = copy_bytes(info_hash);
    KrpcMessage {
        t,
        y: KrpcMessageType::Query,
        q: Some(KrpcQueryKind::GetPeers),
        a: Some(
            KrpcArgs { id: Some(id), target: None, info_hash: Some(ih), port: None, token: None },
        ),
        r: None,
        e: None,
    }
}

/// An announce_peer query carrying the write token from get_peers.
pub fn build_announce_peer(
    node_id: &Vec<u8>,
    t: Vec<u8>,
    info_hash: &Vec<u8>,
    port: u16,
    token: Vec<u8>,
) -> (m: KrpcMessage)
    ensures
        m@.t == t@,
        m@.y == KrpcMessageType::Query,
        m@.q == Some(KrpcQueryKind::AnnouncePeer),
        m@.a == Some(
            KrpcArgsView {
                id: Some(node_id@),
                info_hash: Some(info_hash@),
                port: Some(port),
                token: Some(token@),
                ..empty_args()
            },
        ),
        m@.r is None && m@.e is None,
{
    let id = copy_bytes(node_id);
    let ih = copy_bytes(info_hash);
    KrpcMessage {
        t,
        y: KrpcMessageType::Query,
        q: Some(KrpcQueryKind::AnnouncePeer),
        a: Some(
            KrpcArgs {
                id: Some(id),
                target: None,
                info_hash: Some(ih),
                port: Some(port),
                token: Some(token),
            },
        ),
        r: None,
        e: None,
    }
}

/// Whether a datagram answers the query with the given transaction id.
pub fn transaction_matches(msg: &KrpcMessage, tx_id: &Vec<u8>) -> (r: bool)
    ensures
        r <==> msg@.t == tx_id@,
{
    bytes_eq(&msg.t, tx_id)
}

/// The mainline bootstrap nodes used when none are configured.
pub fn default_bootstrap_nodes() -> (r: Vec<String>)
    ensures
        r@.len() == 3,
        r@[0]@ == "router.bittorrent.com:6881"@,
        r@[1]@ == "dht.transmissionbt.com:6881"@,
        r@[2]@ == "router.utorrent.com:6881"@,
{
    let mut r: Vec<String> = Vec::new();
    r.push("router.bittorrent.com:6881".to_string());
    r.push("dht.transmissionbt.com:6881".to_string());
    r.push("router.utorrent.com:6881".to_string());
    r
}

// ---- compact peer and node encodings (BEP 5) --------------------------------

/// The peer denoted by one compact value: 6 bytes for IPv4, 18 for IPv6.
pub open spec fn compact_peer(v: Seq<u8>) -> Option<PeerAddressView> {
    if v.len() == 6 {
        Some(
            PeerAddressView {
                addr: EndpointView { ip: v.take(4), port: u16_of_be(v[4], v[5]) },
                node_id: None,
            },
        )
    } else if v.len() == 18 {
        Some(
            PeerAddressView {
                addr: EndpointView { ip: v.take(16), port: u16_of_be(v[16], v[17]) },
                node_id: None,
            },
        )
    } else {
        None
    }
}

/// The peers denoted by a list of compact values; malformed values are dropped.
pub open spec fn peers_of(vs: Seq<Seq<u8>>) -> Seq<PeerAddressView>
    decreases vs.len(),
{
    if vs.len() == 0 {
        Seq::empty()
    } else {
        match compact_peer(vs[0]) {
            Some(p) => seq![p] + peers_of(vs.drop_first()),
            None => peers_of(vs.drop_first()),
        }
    }
}

/// The views of a sequence of peers.
pub open spec fn peers_view(ps: Seq<PeerAddress>) -> Seq<PeerAddressView> {
    Seq::new(ps.len(), |i: int| ps[i]@)
}

/// Copy of `v[a..b]`.
pub fn copy_range(v: &Vec<u8>, a: usize, b: usize) -> (r: Vec<u8>)
    requires
        a <= b <= v@.len(),
    ensures
        r@ == v@.subrange(a as int, b as int),
{
    let mut r: Vec<u8> = Vec::new();
    let mut i: usize = a;
    while i < b
        invariant
            a <= i <= b <= v@.len(),
            r@ == v@.subrange(a as int, i as int),
        decreases b - i,
    {
        r.push(v[i]);
        assert(r@ =~= v@.subrange(a as int, i + 1));
        i += 1;
    }
    r
}

/// Parse one compact peer value; values of any other length are rejected.
pub fn parse_compact_peer(value: &Vec<u8>) -> (r: Option<PeerAddress>)
    ensures
        match r {
            Some(p) => compact_peer(value@) == Some(p@),
            None => compact_peer(value@) is None,
        },
{
    if value.len() == 6 {
        let ip = copy_range(value, 0, 4);
        let port = u16_from_be(value[4], value[5]);
        proof {
            assert(value@.subrange(0, 4) =~= value@.take(4));
        }
        Some(PeerAddress { addr: Endpoint { ip, port }, node_id: None })
    } else if value.len() == 18 {
        let ip = copy_range(value, 0, 16);
        let port = u16_from_be(value[16], value[17]);
        proof {
            assert(value@.subrange(0, 16) =~= value@.take(16));
        }
        Some(PeerAddress { addr: Endpoint { ip, port }, node_id: None })
    } else {
        None
    }
}

/// Unfolding step for `peers_of` over a growing prefix.
proof fn lemma_peers_of_take(vs: Seq<Seq<u8>>, i: int)
    requires
        0 <= i < vs.len(),
    ensures
        peers_of(vs.take(i + 1)) == peers_of(vs.take(i)) + (match compact_peer(vs[i]) {
            Some(p) => seq![p],
            None => Seq::<PeerAddressView>::empty(),
        }),
    decreases i,
{
    let a = vs.take(i + 1);
    if i == 0 {
        assert(a.drop_first() =~= vs.take(0));
        assert(peers_of(vs.take(0)) =~= Seq::<PeerAddressView>::empty());
        match compact_peer(vs[0]) {
            Some(p) => {
                assert(peers_of(a) =~= peers_of(vs.take(0)) + seq![p]);
            },
            None => {
                assert(peers_of(a) =~= peers_of(vs.take(0)));
            },
        }
    } else {
        lemma_peers_of_take(vs.drop_first(), i - 1);
        assert(a.drop_first() =~= vs.drop_first().take(i));
        assert(vs.take(i).drop_first() =~= vs.drop_first().take(i - 1));
        assert(vs.drop_first()[i - 1] == vs[i]);
        match compact_peer(vs[0]) {
            Some(p0) => {
                assert(peers_of(a) == seq![p0] + peers_of(vs.drop_first().take(i)));
                assert(peers_of(vs.take(i)) == seq![p0] + peers_of(vs.drop_first().take(i - 1)));
                assert(peers_of(a) =~= peers_of(vs.take(i)) + (match compact_peer(vs[i]) {
                    Some(p) => seq![p],
                    None => Seq::<PeerAddressView>::empty(),
                }));
            },
            None => {
                assert(peers_of(a) == peers_of(vs.drop_first().take(i)));
                assert(peers_of(vs.take(i)) == peers_of(vs.drop_first().take(i - 1)));
                assert(peers_of(a) =~= peers_of(vs.take(i)) + (match compact_peer(vs[i]) {
                    Some(p) => seq![p],
                    None => Seq::<PeerAddressView>::empty(),
                }));
            },
        }
    }
}

/// Parse a list of compact peer values, dropping malformed entries.
pub fn parse_peer_values(values: &Vec<Vec<u8>>) -> (r: Vec<PeerAddress>)
    ensures
        peers_view(r@) == peers_of(values.deep_view()),
{
    let mut r: Vec<PeerAddress> = Vec::new();
    let n = values.len();
    let mut i: usize = 0;
    proof {
        assert(values.deep_view().take(0) =~= Seq::<Seq<u8>>::empty());
        assert(peers_view(r@) =~~= peers_of(values.deep_view().take(0)));
    }
    while i < n
        invariant
            n == values@.len(),
            i <= n,
            values.deep_view().len() == n,
            peers_view(r@) =~~= peers_of(values.deep_view().take(i as int)),
        decreases n - i,
    {
        let ghost r0 = r@;
        proof {
            assert(values.deep_view()[i as int] == values@[i as int].deep_view());
            assert(values@[i as int].deep_view() =~= values@[i as int]@);
        }
        match parse_compact_peer(&values[i]) {
            Some(p) => {
                r.push(p);
            },
            None => {},
        }
        proof {
            lemma_peers_of_take(values.deep_view(), i as int);
            assert(peers_view(r@) =~~= peers_of(values.deep_view().take(i + 1)));
        }
        i += 1;
    }
    proof {
        assert(values.deep_view().take(n as int) =~= values.deep_view());
    }
    r
}

/// The entry denoted by 26 bytes of compact node info at offset `o`.
pub open spec fn node_at(s: Seq<u8>, o: int) -> NodeInfoView {
    NodeInfoView {
        node_id: s.subrange(o, o + 20),
        addr: EndpointView {
            ip: s.subrange(o + 20, o + 24),
            port: u16_of_be(s[o + 24], s[o + 25]),
        },
    }
}

/// The entries of a compact node info concatenation; a short tail is dropped.
pub open spec fn compact_nodes(s: Seq<u8>) -> Seq<NodeInfoView> {
    Seq::new((s.len() as int / 26) as nat, |i: int| node_at(s, 26 * i))
}

/// Parse a compact node info concatenation in 26-byte chunks.
pub fn parse_compact_nodes(data: &Vec<u8>) -> (r: Vec<NodeInfo>)
    ensures
        nodes_view(r@) == compact_nodes(data@),
{
    let mut r: Vec<NodeInfo> = Vec::new();
    let n = data.len() / 26;
    proof {
        vstd::arithmetic::div_mod::lemma_fundamental_div_mod(data@.len() as int, 26);
        vstd::arithmetic::div_mod::lemma_mod_bound(data@.len() as int, 26);
        assert(n * 26 <= data@.len());
        assert(nodes_view(r@) =~~= compact_nodes(data@).take(0));
    }
    let mut i: usize = 0;
    while i < n
        invariant
            data@.len() <= usize::MAX,
            n == data@.len() as int / 26,
            n * 26 <= data@.len(),
            i <= n,
            nodes_view(r@) =~~= compact_nodes(data@).take(i as int),
        decreases n - i,
    {
        proof {
            assert(i * 26 + 26 <= n * 26) by (nonlinear_arith)
                requires
                    i + 1 <= n,
            ;
            assert(nodes_view(r@).len() == r@.len());
            assert(r@.len() == i);
        }
        let o = i * 26;
        let ghost r0 = r@;
        let node_id = copy_range(data, o, o + 20);
        let ip = copy_range(data, o + 20, o + 24);
        let port = u16_from_be(data[o + 24], data[o + 25]);
        r.push(NodeInfo { node_id, addr: Endpoint { ip, port } });
        proof {
            let lhs = nodes_view(r@);
            let rhs = compact_nodes(data@).take(i + 1);
            assert(o == 26 * i);
            assert(r@[i as int]@ =~~= node_at(data@, 26 * i));
            assert forall|j: int| 0 <= j < i + 1 implies lhs[j] == rhs[j] by {
                if j < i {
                    assert(lhs[j] == nodes_view(r0)[j]);
                    assert(nodes_view(r0)[j] == compact_nodes(data@).take(i as int)[j]);
                } else {
                    assert(lhs[j] == r@[i as int]@);
                    assert(rhs[j] == node_at(data@, 26 * i));
                }
            }
            assert(lhs =~~= rhs);
        }
        i += 1;
    }
    proof {
        assert(compact_nodes(data@).take(n as int) =~= compact_nodes(data@));
    }
    r
}

/// The peers listed in a get_peers response, and its write token.
pub open spec fn response_peers(m: KrpcMessageView) -> Seq<PeerAddressView> {
    match m.r {
        Some(rv) => match rv.values {
            Some(vs) => peers_of(vs),
            None => Seq::empty(),
        },
        None => Seq::empty(),
    }
}

/// The write token carried by a response, if any.
pub open spec fn response_token(m: KrpcMessageView) -> Option<Seq<u8>> {
    match m.r {
        Some(rv) => rv.token,
        None => None,
    }
}

/// The nodes listed in a find_node response.
pub open spec fn response_nodes(m: KrpcMessageView) -> Seq<NodeInfoView> {
    match m.r {
        Some(rv) => match rv.nodes {
            Some(ns) => compact_nodes(ns),
            None => Seq::empty(),
        },
        None => Seq::empty(),
    }
}

/// Extract the peers and token of a get_peers response.
pub fn parse_get_peers_response(msg: &KrpcMessage) -> (r: (Vec<PeerAddress>, Option<Vec<u8>>))
    ensures
        peers_view(r.0@) == response_peers(msg@),
        (match r.1 {
            Some(v) => Some(v@),
            None => None,
        }) == response_token(msg@),
{
    match &msg.r {
        Some(rv) => {
            let peers = match &rv.values {
                Some(vs) => parse_peer_values(vs),
                None => Vec::new(),
            };
            let token = match &rv.token {
                Some(tk) => Some(copy_bytes(tk)),
                None => None,
            };
            proof {
                assert(peers_view(Seq::<PeerAddress>::empty()) =~~= Seq::<
                    PeerAddressView,
                >::empty());
            }
            (peers, token)
        },
        None => {
            proof {
                assert(peers_view(Seq::<PeerAddress>::empty()) =~~= Seq::<
                    PeerAddressView,
                >::empty());
            }
            (Vec::new(), None)
        },
    }
}

/// Extract the nodes of a find_node response.
pub fn parse_find_node_response(msg: &KrpcMessage) -> (r: Vec<NodeInfo>)
    ensures
        nodes_view(r@) == response_nodes(msg@),
{
    match &msg.r {
        Some(rv) => {
            match &rv.nodes {
                Some(ns) => parse_compact_nodes(ns),
                None => {
                    proof {
                        assert(nodes_view(Seq::<NodeInfo>::empty()) =~~= Seq::<
                            NodeInfoView,
                        >::empty());
                    }
                    Vec::new()
                },
            }
        },
        None => {
            proof {
                assert(nodes_view(Seq::<NodeInfo>::empty()) =~~= Seq::<NodeInfoView>::empty());
            }
            Vec::new()
        },
    }
}

} // verus!
