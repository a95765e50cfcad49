//! KRPC message envelope and its bencode wire format.
//!
//! The envelope is a bencode dictionary with keys `t`, `y`, and exactly one of
//! `q`+`a` (query), `r` (response) or `e` (error).  Dictionary keys are emitted
//! in sorted order; the decoder accepts the canonical form it emits, skipping
//! dictionary entries it does not know (deployed peers add extras such as an
//! observed-address entry).

use vstd::prelude::*;

use crate::bytesutil::bytes_eq;

verus! {

/// The `y` field: whether the envelope carries a query, a response or an error.
#[derive(Clone, Copy, Debug, PartialEq, Eq, Structural)]
pub enum KrpcMessageType {
    Query,
    Response,
    Error,
}

/// Query kinds: ping, find_node, get_peers, announce_peer.
#[derive(Clone, Copy, Debug, PartialEq, Eq, Structural)]
pub enum KrpcQueryKind {
    Ping,
    FindNode,
    GetPeers,
    AnnouncePeer,
}

/// Query arguments (the `a` dictionary).
#[derive(Clone, Debug)]
pub struct KrpcArgs {
    /// Node id.
    pub id: Option<Vec<u8>>,
    /// Target node id (find_node).
    pub target: Option<Vec<u8>>,
    /// Info-hash / topic (get_peers/announce_peer).
    pub info_hash: Option<Vec<u8>>,
    /// Announced port.
    pub port: Option<u16>,
    /// Token from get_peers.
    pub token: Option<Vec<u8>>,
}

/// Response body (the `r` dictionary).
#[derive(Clone, Debug)]
pub struct KrpcResponse {
    pub id: Option<Vec<u8>>,
    /// Compact node info.
    pub nodes: Option<Vec<u8>>,
    /// Peer values.
    pub values: Option<Vec<Vec<u8>>>,
    /// Token for announce_peer.
    pub token: Option<Vec<u8>>,
}

/// KRPC message envelope.
#[derive(Clone, Debug)]
pub struct KrpcMessage {
    /// Transaction id.
    pub t: Vec<u8>,
    pub y: KrpcMessageType,
    pub q: Option<KrpcQueryKind>,
    pub a: Option<KrpcArgs>,
    pub r: Option<KrpcResponse>,
    /// Error tuple: code and message bytes.
    pub e: Option<(i64, Vec<u8>)>,
}

#[derive(Debug)]
pub enum ProtocolError {
    Unimplemented,
    BencodeEncode(String),
    BencodeDecode(String),
}

/// Mathematical model of `KrpcArgs`.
#[verifier::ext_equal]
pub struct KrpcArgsView {
    pub id: Option<Seq<u8>>,
    pub target: Option<Seq<u8>>,
    pub info_hash: Option<Seq<u8>>,
    pub port: Option<u16>,
    pub token: Option<Seq<u8>>,
}

/// Mathematical model of `KrpcResponse`.
#[verifier::ext_equal]
pub struct KrpcResponseView {
    pub id: Option<Seq<u8>>,
    pub nodes: Option<Seq<u8>>,
    pub values: Option<Seq<Seq<u8>>>,
    pub token: Option<Seq<u8>>,
}

/// Mathematical model of `KrpcMessage`.
#[verifier::ext_equal]
pub struct KrpcMessageView {
    pub t: Seq<u8>,
    pub y: KrpcMessageType,
    pub q: Option<KrpcQueryKind>,
    pub a: Option<KrpcArgsView>,
    pub r: Option<KrpcResponseView>,
    pub e: Option<(int, Seq<u8>)>,
}

pub open spec fn opt_view(o: Option<Vec<u8>>) -> Option<Seq<u8>> {
    match o {
        Some(v) => Some(v@),
        None => None,
    }
}

pub open spec fn opt_deep_view(o: Option<Vec<Vec<u8>>>) -> Option<Seq<Seq<u8>>> {
    match o {
        Some(v) => Some(v.deep_view()),
        None => None,
    }
}

impl View for KrpcArgs {
    type V = KrpcArgsView;

    open spec fn view(&self) -> KrpcArgsView {
        KrpcArgsView {
            id: opt_view(self.id),
            target: opt_view(self.target),
            info_hash: opt_view(self.info_hash),
            port: self.port,
            token: opt_view(self.token),
        }
    }
}

impl View for KrpcResponse {
    type V = KrpcResponseView;

    open spec fn view(&self) -> KrpcResponseView {
        KrpcResponseView {
            id: opt_view(self.id),
            nodes: opt_view(self.nodes),
            values: opt_deep_view(self.values),
            token: opt_view(self.token),
        }
    }
}

impl View for KrpcMessage {
    type V = KrpcMessageView;

    open spec fn view(&self) -> KrpcMessageView {
        KrpcMessageView {
            t: self.t@,
            y: self.y,
            q: self.q,
            a: match self.a {
                Some(a) => Some(a@),
                None => None,
            },
            r: match self.r {
                Some(r) => Some(r@),
                None => None,
            },
            e: match self.e {
                Some((c, m)) => Some((c as int, m@)),
                None => None,
            },
        }
    }
}

/// A message is well formed when the payload present agrees with its `y` tag.
pub open spec fn wf_msg(m: KrpcMessageView) -> bool {
    match m.y {
        KrpcMessageType::Query => m.q is Some && m.a is Some && m.r is None && m.e is None,
        KrpcMessageType::Response => m.q is None && m.a is None && m.r is Some && m.e is None,
        KrpcMessageType::Error => m.q is None && m.a is None && m.r is None && m.e is Some,
    }
}

// ---- spec-level encoding ----------------------------------------------------

pub open spec fn is_digit(b: u8) -> bool {
    48 <= b <= 57
}

/// Decimal digit string of a natural number, most significant digit first.
pub open spec fn dec_rep(n: nat) -> Seq<u8>
    decreases n,
{
    if n < 10 {
        seq![(48 + n) as u8]
    } else {
        dec_rep(n / 10).push((48 + n % 10) as u8)
    }
}

/// Bencode byte string: `<len>:<bytes>`.
pub open spec fn enc_bytes(s: Seq<u8>) -> Seq<u8> {
    dec_rep(s.len()) + seq![58u8] + s
}

/// Bencode integer: `i<dec>e`.
pub open spec fn enc_int(i: int) -> Seq<u8> {
    seq![105u8] + (if i < 0 {
        seq![45u8] + dec_rep((-i) as nat)
    } else {
        dec_rep(i as nat)
    }) + seq![101u8]
}

pub open spec fn key_id() -> Seq<u8> {
    seq![105u8, 100u8]
}

pub open spec fn key_info_hash() -> Seq<u8> {
    seq![105u8, 110u8, 102u8, 111u8, 95u8, 104u8, 97u8, 115u8, 104u8]
}

pub open spec fn key_port() -> Seq<u8> {
    seq![112u8, 111u8, 114u8, 116u8]
}

pub open spec fn key_target() -> Seq<u8> {
    seq![116u8, 97u8, 114u8, 103u8, 101u8, 116u8]
}

pub open spec fn key_token() -> Seq<u8> {
    seq![116u8, 111u8, 107u8, 101u8, 110u8]
}

pub open spec fn key_nodes() -> Seq<u8> {
    seq![110u8, 111u8, 100u8, 101u8, 115u8]
}

pub open spec fn key_values() -> Seq<u8> {
    seq![118u8, 97u8, 108u8, 117u8, 101u8, 115u8]
}

/// The wire bytes naming a query kind.
pub open spec fn qkind_bytes(k: KrpcQueryKind) -> Seq<u8> {
    match k {
        KrpcQueryKind::Ping => seq![112u8, 105u8, 110u8, 103u8],
        KrpcQueryKind::FindNode => seq![
            102u8, 105u8, 110u8, 100u8, 95u8, 110u8, 111u8, 100u8, 101u8,
        ],
        KrpcQueryKind::GetPeers => seq![
            103u8, 101u8, 116u8, 95u8, 112u8, 101u8, 101u8, 114u8, 115u8,
        ],
        KrpcQueryKind::AnnouncePeer => seq![
            97u8, 110u8, 110u8, 111u8, 117u8, 110u8, 99u8, 101u8, 95u8, 112u8, 101u8, 101u8,
            114u8,
        ],
    }
}

/// The wire byte naming a message type.
pub open spec fn ytype_bytes(y: KrpcMessageType) -> Seq<u8> {
    match y {
        KrpcMessageType::Query => seq![113u8],
        KrpcMessageType::Response => seq![114u8],
        KrpcMessageType::Error => seq![101u8],
    }
}

/// An optional dictionary entry holding a byte string.
pub open spec fn enc_field_bytes(name: Seq<u8>, v: Option<Seq<u8>>) -> Seq<u8> {
    match v {
        Some(s) => enc_bytes(name) + enc_bytes(s),
        None => Seq::empty(),
    }
}

/// An optional dictionary entry holding an integer.
pub open spec fn enc_field_port(v: Option<u16>) -> Seq<u8> {
    match v {
        Some(p) => enc_bytes(key_port()) + enc_int(p as int),
        None => Seq::empty(),
    }
}

/// Concatenation of byte-string list items (without the `l`/`e` delimiters).
pub open spec fn enc_values_items(vs: Seq<Seq<u8>>) -> Seq<u8>
    decreases vs.len(),
{
    if vs.len() == 0 {
        Seq::empty()
    } else {
        enc_bytes(vs[0]) + enc_values_items(vs.drop_first())
    }
}

/// An optional dictionary entry holding a list of byte strings.
pub open spec fn enc_field_values(v: Option<Seq<Seq<u8>>>) -> Seq<u8> {
    match v {
        Some(vs) => enc_bytes(key_values()) + seq![108u8] + enc_values_items(vs) + seq![101u8],
        None => Seq::empty(),
    }
}

/// Canonical encoding of the `a` dictionary (keys sorted).
pub open spec fn spec_enc_args(a: KrpcArgsView) -> Seq<u8> {
    seq![100u8] + enc_field_bytes(key_id(), a.id) + enc_field_bytes(key_info_hash(), a.info_hash)
        + enc_field_port(a.port) + enc_field_bytes(key_target(), a.target) + enc_field_bytes(
        key_token(),
        a.token,
    ) + seq![101u8]
}

/// Canonical encoding of the `r` dictionary (keys sorted).
pub open spec fn spec_enc_resp(r: KrpcResponseView) -> Seq<u8> {
    seq![100u8] + enc_field_bytes(key_id(), r.id) + enc_field_bytes(key_nodes(), r.nodes)
        + enc_field_bytes(key_token(), r.token) + enc_field_values(r.values) + seq![101u8]
}

/// The error payload: a two-element list of code and message.
pub open spec fn enc_error(c: int, msg: Seq<u8>) -> Seq<u8> {
    seq![108u8] + enc_int(c) + enc_bytes(msg) + seq![101u8]
}

/// The `a` entry of the envelope, if present.
pub open spec fn enc_msg_a(a: Option<KrpcArgsView>) -> Seq<u8> {
    match a {
        Some(x) => enc_bytes(seq![97u8]) + spec_enc_args(x),
        None => Seq::empty(),
    }
}

/// The `e` entry of the envelope, if present.
pub open spec fn enc_msg_e(e: Option<(int, Seq<u8>)>) -> Seq<u8> {
    match e {
        Some((c, msg)) => enc_bytes(seq![101u8]) + enc_error(c, msg),
        None => Seq::empty(),
    }
}

/// The `q` entry of the envelope, if present.
pub open spec fn enc_msg_q(q: Option<KrpcQueryKind>) -> Seq<u8> {
    match q {
        Some(k) => enc_bytes(seq![113u8]) + enc_bytes(qkind_bytes(k)),
        None => Seq::empty(),
    }
}

/// The `r` entry of the envelope, if present.
pub open spec fn enc_msg_r(r: Option<KrpcResponseView>) -> Seq<u8> {
    match r {
        Some(x) => enc_bytes(seq![114u8]) + spec_enc_resp(x),
        None => Seq::empty(),
    }
}

/// Canonical encoding of a whole envelope (keys sorted: a, e, q, r, t, y).
pub open spec fn spec_enc_msg(m: KrpcMessageView) -> Seq<u8> {
    seq![100u8] + enc_msg_a(m.a) + enc_msg_e(m.e) + enc_msg_q(m.q) + enc_msg_r(m.r) + enc_bytes(
        seq![116u8],
    ) + enc_bytes(m.t) + enc_bytes(seq![121u8]) + enc_bytes(ytype_bytes(m.y)) + seq![101u8]
}

// ---- executable encoder -----------------------------------------------------

/// Append the decimal digits of `n`.
fn push_dec(out: &mut Vec<u8>, n: u64)
    ensures
        final(out)@ == old(out)@ + dec_rep(n as nat),
    decreases n,
{
    if n < 10 {
        out.push(48 + n as u8);
        assert(out@ =~= old(out)@ + dec_rep(n as nat));
    } else {
        push_dec(out, n / 10);
        out.push(48 + (n % 10) as u8);
        assert(out@ =~= old(out)@ + dec_rep(n as nat));
    }
}

/// Append all bytes of `s`.
fn push_all(out: &mut Vec<u8>, s: &Vec<u8>)
    ensures
        final(out)@ == old(out)@ + s@,
{
    let n = s.len();
    let mut i: usize = 0;
    while i < n
        invariant
            n == s@.len(),
            i <= n,
            out@ == old(out)@ + s@.take(i as int),
        decreases n - i,
    {
        out.push(s[i]);
        assert(out@ =~= old(out)@ + s@.take(i + 1));
        i += 1;
    }
    assert(out@ =~= old(out)@ + s@);
}

/// Append the bencode encoding of a byte string.
fn push_bytes_enc(out: &mut Vec<u8>, s: &Vec<u8>)
    ensures
        final(out)@ == old(out)@ + enc_bytes(s@),
{
    push_dec(out, s.len() as u64);
    out.push(58);
    push_all(out, s);
    assert(out@ =~= old(out)@ + enc_bytes(s@));
}

/// Append the bencode encoding of an integer.
fn push_int_enc(out: &mut Vec<u8>, i: i64)
    ensures
        final(out)@ == old(out)@ + enc_int(i as int),
{
    out.push(105);
    if i < 0 {
        out.push(45);
        let mag: u64 = if i == i64::MIN {
            0x8000_0000_0000_0000u64
        } else {
            (-i) as u64
        };
        push_dec(out, mag);
    } else {
        push_dec(out, i as u64);
    }
    out.push(101);
    assert(out@ =~= old(out)@ + enc_int(i as int));
}

/// Append a literal single byte.
fn push_byte(out: &mut Vec<u8>, b: u8)
    ensures
        final(out)@ == old(out)@ + seq![b],
{
    out.push(b);
    assert(out@ =~= old(out)@ + seq![b]);
}

/// Append a one-character bencode key such as `1:t`.
fn push_key1(out: &mut Vec<u8>, b: u8)
    ensures
        final(out)@ == old(out)@ + enc_bytes(seq![b]),
{
    out.push(49);
    out.push(58);
    out.push(b);
    assert(out@ =~= old(out)@ + enc_bytes(seq![b]));
}

/// Append an optional byte-string field with the given key name.
fn push_field_bytes(out: &mut Vec<u8>, name: &Vec<u8>, v: &Option<Vec<u8>>)
    ensures
        final(out)@ == old(out)@ + enc_field_bytes(name@, opt_view(*v)),
{
    match v {
        Some(s) => {
            push_bytes_enc(out, name);
            push_bytes_enc(out, s);
            assert(out@ =~= old(out)@ + enc_field_bytes(name@, opt_view(*v)));
        },
        None => {
            assert(out@ =~= old(out)@ + enc_field_bytes(name@, opt_view(*v)));
        },
    }
}

/// The exec bytes of a dictionary key name.
fn key_bytes_id() -> (r: Vec<u8>)
    ensures
        r@ == key_id(),
{
    let mut v: Vec<u8> = Vec::new();
    v.push(105);
    v.push(100);
    assert(v@ =~= key_id());
    v
}

fn key_bytes_info_hash() -> (r: Vec<u8>)
    ensures
        r@ == key_info_hash(),
{
    let mut v: Vec<u8> = Vec::new();
    v.push(105);
    v.push(110);
    v.push(102);
    v.push(111);
    v.push(95);
    v.push(104);
    v.push(97);
    v.push(115);
    v.push(104);
    assert(v@ =~= key_info_hash());
    v
}

fn key_bytes_port() -> (r: Vec<u8>)
    ensures
        r@ == key_port(),
{
    let mut v: Vec<u8> = Vec::new();
    v.push(112);
    v.push(111);
    v.push(114);
    v.push(116);
    assert(v@ =~= key_port());
    v
}

fn key_bytes_target() -> (r: Vec<u8>)
    ensures
        r@ == key_target(),
{
    let mut v: Vec<u8> = Vec::new();
    v.push(116);
    v.push(97);
    v.push(114);
    v.push(103);
    v.push(101);
    v.push(116);
    assert(v@ =~= key_target());
    v
}

fn key_bytes_token() -> (r: Vec<u8>)
    ensures
        r@ == key_token(),
{
    let mut v: Vec<u8> = Vec::new();
    v.push(116);
    v.push(111);
    v.push(107);
    v.push(101);
    v.push(110);
    assert(v@ =~= key_token());
    v
}

fn key_bytes_nodes() -> (r: Vec<u8>)
    ensures
        r@ == key_nodes(),
{
    let mut v: Vec<u8> = Vec::new();
    v.push(110);
    v.push(111);
    v.push(100);
    v.push(101);
    v.push(115);
    assert(v@ =~= key_nodes());
    v
}

fn key_bytes_values() -> (r: Vec<u8>)
    ensures
        r@ == key_values(),
{
    let mut v: Vec<u8> = Vec::new();
    v.push(118);
    v.push(97);
    v.push(108);
    v.push(117);
    v.push(101);
    v.push(115);
    assert(v@ =~= key_values());
    v
}

/// The exec bytes naming a query kind.
pub fn qkind_name(k: KrpcQueryKind) -> (r: Vec<u8>)
    ensures
        r@ == qkind_bytes(k),
{
    let mut v: Vec<u8> = Vec::new();
    match k {
        KrpcQueryKind::Ping => {
            v.push(112);
            v.push(105);
            v.push(110);
            v.push(103);
        },
        KrpcQueryKind::FindNode => {
            v.push(102);
            v.push(105);
            v.push(110);
            v.push(100);
            v.push(95);
            v.push(110);
            v.push(111);
            v.push(100);
            v.push(101);
        },
        KrpcQueryKind::GetPeers => {
            v.push(103);
            v.push(101);
            v.push(116);
            v.push(95);
            v.push(112);
            v.push(101);
            v.push(101);
            v.push(114);
            v.push(115);
        },
        KrpcQueryKind::AnnouncePeer => {
            v.push(97);
            v.push(110);
            v.push(110);
            v.push(111);
            v.push(117);
            v.push(110);
            v.push(99);
            v.push(101);
            v.push(95);
            v.push(112);
            v.push(101);
            v.push(101);
            v.push(114);
        },
    }
    assert(v@ =~= qkind_bytes(k));
    v
}

/// Append the `a` dictionary.
#[verifier::rlimit(60)]
fn push_args(out: &mut Vec<u8>, a: &KrpcArgs)
    ensures
        final(out)@ == old(out)@ + spec_enc_args(a@),
{
    push_byte(out, 100);
    let k = key_bytes_id();
    push_field_bytes(out, &k, &a.id);
    let k = key_bytes_info_hash();
    push_field_bytes(out, &k, &a.info_hash);
    let ghost g1 = out@;
    match &a.port {
        Some(p) => {
            let k = key_bytes_port();
            push_bytes_enc(out, &k);
            push_int_enc(out, *p as i64);
            assert(out@ =~= g1 + enc_field_port(a@.port));
        },
        None => {
            assert(out@ =~= g1 + enc_field_port(a@.port));
        },
    }
    let k = key_bytes_target();
    push_field_bytes(out, &k, &a.target);
    let k = key_bytes_token();
    push_field_bytes(out, &k, &a.token);
    push_byte(out, 101);
    assert(out@ =~= old(out)@ + spec_enc_args(a@));
}

/// Append the `r` dictionary.
#[verifier::rlimit(60)]
fn push_resp(out: &mut Vec<u8>, r: &KrpcResponse)
    ensures
        final(out)@ == old(out)@ + spec_enc_resp(r@),
{
    push_byte(out, 100);
    let k = key_bytes_id();
    push_field_bytes(out, &k, &r.id);
    let k = key_bytes_nodes();
    push_field_bytes(out, &k, &r.nodes);
    let k = key_bytes_token();
    push_field_bytes(out, &k, &r.token);
    match &r.values {
        Some(vs) => {
            let k = key_bytes_values();
            push_bytes_enc(out, &k);
            push_byte(out, 108);
            let n = vs.len();
            let mut i: usize = 0;
            while i < n
                invariant
                    n == vs@.len(),
                    i <= n,
                    out@ == old(out)@ + spec_enc_resp(KrpcResponseView {
                        values: None,
                        ..r@
                    }).drop_last() + enc_bytes(key_values()) + seq![108u8] + enc_values_items(
                        vs.deep_view().take(i as int),
                    ),
                decreases n - i,
            {
                push_bytes_enc(out, &vs[i]);
                proof {
                    lemma_enc_values_items_take(vs.deep_view(), i as int);
                }
                assert(out@ =~= old(out)@ + spec_enc_resp(KrpcResponseView {
                    values: None,
                    ..r@
                }).drop_last() + enc_bytes(key_values()) + seq![108u8] + enc_values_items(
                    vs.deep_view().take(i + 1),
                ));
                i += 1;
            }
            push_byte(out, 101);
            push_byte(out, 101);
            assert(vs.deep_view().take(n as int) =~= vs.deep_view());
            assert(out@ =~= old(out)@ + spec_enc_resp(r@));
        },
        None => {
            push_byte(out, 101);
            assert(out@ =~= old(out)@ + spec_enc_resp(r@));
        },
    }
}

/// Unfolding step for `enc_values_items` over a growing prefix.
proof fn lemma_enc_values_items_take(vs: Seq<Seq<u8>>, i: int)
    requires
        0 <= i < vs.len(),
    ensures
        enc_values_items(vs.take(i + 1)) == enc_values_items(vs.take(i)) + enc_bytes(vs[i]),
    decreases i,
{
    let a = vs.take(i + 1);
    if i == 0 {
        assert(a.drop_first() =~= vs.take(0));
        assert(enc_values_items(vs.take(0)) =~= Seq::<u8>::empty());
        assert(enc_values_items(a) =~= enc_bytes(vs[0]) + enc_values_items(vs.take(0)));
        assert(enc_values_items(a) =~= enc_values_items(vs.take(0)) + enc_bytes(vs[0]));
    } else {
        lemma_enc_values_items_take(vs.drop_first(), i - 1);
        assert(a.drop_first() =~= vs.drop_first().take(i));
        assert(vs.take(i).drop_first() =~= vs.drop_first().take(i - 1));
        assert(vs.drop_first()[i - 1] == vs[i]);
        assert(enc_values_items(a) == enc_bytes(vs[0]) + enc_values_items(vs.drop_first().take(i)));
        assert(enc_values_items(vs.take(i)) == enc_bytes(vs[0]) + enc_values_items(
            vs.drop_first().take(i - 1),
        ));
        assert(enc_values_items(a) =~= enc_values_items(vs.take(i)) + enc_bytes(vs[i]));
    }
}

/// Serialize a KRPC envelope to its canonical bencode bytes.
///
/// Encoding is total: every envelope value has a canonical wire form.
#[verifier::rlimit(60)]
fn push_payload(out: &mut Vec<u8>, msg: &KrpcMessage)
    ensures
        final(out)@ == old(out)@ + enc_msg_a(msg@.a) + enc_msg_e(msg@.e) + enc_msg_q(msg@.q)
            + enc_msg_r(msg@.r),
{
    let ghost o0 = out@;
    match &msg.a {
        Some(a) => {
            push_key1(out, 97);
            push_args(out, a);
            assert(out@ =~= o0 + enc_msg_a(msg@.a));
        },
        None => {
            assert(out@ =~= o0 + enc_msg_a(msg@.a));
        },
    }
    let ghost o1 = out@;
    match &msg.e {
        Some((c, m)) => {
            push_key1(out, 101);
            push_byte(out, 108);
            push_int_enc(out, *c);
            push_bytes_enc(out, m);
            push_byte(out, 101);
            assert(out@ =~= o1 + enc_msg_e(msg@.e));
        },
        None => {
            assert(out@ =~= o1 + enc_msg_e(msg@.e));
        },
    }
    let ghost o2 = out@;
    match &msg.q {
        Some(k) => {
            push_key1(out, 113);
            let name = qkind_name(*k);
            push_bytes_enc(out, &name);
            assert(out@ =~= o2 + enc_msg_q(msg@.q));
        },
        None => {
            assert(out@ =~= o2 + enc_msg_q(msg@.q));
        },
    }
    let ghost o3 = out@;
    match &msg.r {
        Some(rb) => {
            push_key1(out, 114);
            push_resp(out, rb);
            assert(out@ =~= o3 + enc_msg_r(msg@.r));
        },
        None => {
            assert(out@ =~= o3 + enc_msg_r(msg@.r));
        },
    }
}

/// Serialize a KRPC envelope to its canonical bencode bytes.
///
/// Encoding is total: every envelope value has a canonical wire form.
#[verifier::rlimit(60)]
pub fn encode_krpc(msg: &KrpcMessage) -> (r: Result<Vec<u8>, ProtocolError>)
    ensures
        r is Ok,
        r->Ok_0@ == spec_enc_msg(msg@),
{
    let mut out: Vec<u8> = Vec::new();
    push_byte(&mut out, 100);
    push_payload(&mut out, msg);
    let ghost o4 = out@;
    push_key1(&mut out, 116);
    push_bytes_enc(&mut out, &msg.t);
    push_key1(&mut out, 121);
    let mut yb: Vec<u8> = Vec::new();
    match msg.y {
        KrpcMessageType::Query => yb.push(113),
        KrpcMessageType::Response => yb.push(114),
        KrpcMessageType::Error => yb.push(101),
    }
    assert(yb@ =~= ytype_bytes(msg.y));
    push_bytes_enc(&mut out, &yb);
    push_byte(&mut out, 101);
    assert(out@ =~= o4 + enc_bytes(seq![116u8]) + enc_bytes(msg@.t) + enc_bytes(seq![121u8])
        + enc_bytes(ytype_bytes(msg@.y)) + seq![101u8]);
    assert(out@ =~= spec_enc_msg(msg@));
    Ok(out)
}


// ---- spec-level decoding ----------------------------------------------------

/// Length of the run of decimal digits at the head of `s`.
pub open spec fn sp_digit_run(s: Seq<u8>) -> nat
    decreases s.len(),
{
    if s.len() > 0 && is_digit(s[0]) {
        (1 + sp_digit_run(s.drop_first())) as nat
    } else {
        0
    }
}

/// The number denoted by a digit string, most significant digit first.
pub open spec fn digits_val(ds: Seq<u8>) -> nat
    decreases ds.len(),
{
    if ds.len() == 0 {
        0
    } else {
        (digits_val(ds.drop_last()) * 10 + (ds.last() - 48)) as nat
    }
}

/// Parse a canonical decimal number (no leading zeros) at the head of `s`.
pub open spec fn sp_number(s: Seq<u8>) -> Option<(nat, Seq<u8>)> {
    let k = sp_digit_run(s);
    if k >= 1 && (k == 1 || s[0] != 48) {
        Some((digits_val(s.take(k as int)), s.skip(k as int)))
    } else {
        None
    }
}

/// Parse a bencode byte string `<len>:<bytes>`.
pub open spec fn sp_bytes(s: Seq<u8>) -> Option<(Seq<u8>, Seq<u8>)> {
    match sp_number(s) {
        Some((n, rest)) => {
            if rest.len() >= 1 && rest[0] == 58 && n + 1 <= rest.len() {
                Some((rest.subrange(1, n as int + 1), rest.skip(n as int + 1)))
            } else {
                None
            }
        },
        None => None,
    }
}

/// Parse a bencode integer `i<dec>e` within the range of 64-bit integers.
pub open spec fn sp_int(s: Seq<u8>) -> Option<(int, Seq<u8>)> {
    if s.len() >= 2 && s[0] == 105 && s[1] == 45 {
        match sp_number(s.skip(2)) {
            Some((n, rest)) => {
                if 1 <= n <= 0x8000_0000_0000_0000 && rest.len() >= 1 && rest[0] == 101 {
                    Some((-(n as int), rest.drop_first()))
                } else {
                    None
                }
            },
            None => None,
        }
    } else if s.len() >= 1 && s[0] == 105 {
        match sp_number(s.drop_first()) {
            Some((n, rest)) => {
                if n <= 0x7fff_ffff_ffff_ffff && rest.len() >= 1 && rest[0] == 101 {
                    Some((n as int, rest.drop_first()))
                } else {
                    None
                }
            },
            None => None,
        }
    } else {
        None
    }
}

/// Parse byte-string list items up to the closing `e`.
pub open spec fn sp_values(s: Seq<u8>, acc: Seq<Seq<u8>>) -> Option<(Seq<Seq<u8>>, Seq<u8>)>
    decreases s.len(),
{
    if s.len() == 0 {
        None
    } else if s[0] == 101 {
        Some((acc, s.drop_first()))
    } else {
        match sp_bytes(s) {
            Some((v, rest)) => {
                if rest.len() < s.len() {
                    sp_values(rest, acc.push(v))
                } else {
                    None
                }
            },
            None => None,
        }
    }
}

/// Position of an `a`-dictionary key in canonical (sorted) order.
pub open spec fn args_key_index(k: Seq<u8>) -> int {
    if k == key_id() {
        0
    } else if k == key_info_hash() {
        1
    } else if k == key_port() {
        2
    } else if k == key_target() {
        3
    } else if k == key_token() {
        4
    } else {
        -1
    }
}

pub open spec fn empty_args_view() -> KrpcArgsView {
    KrpcArgsView { id: None, target: None, info_hash: None, port: None, token: None }
}

pub open spec fn args_set_field(a: KrpcArgsView, idx: int, bv: Seq<u8>, pv: u16) -> KrpcArgsView {
    if idx == 0 {
        KrpcArgsView { id: Some(bv), ..a }
    } else if idx == 1 {
        KrpcArgsView { info_hash: Some(bv), ..a }
    } else if idx == 2 {
        KrpcArgsView { port: Some(pv), ..a }
    } else if idx == 3 {
        KrpcArgsView { target: Some(bv), ..a }
    } else {
        KrpcArgsView { token: Some(bv), ..a }
    }
}

/// Parse the entries of the `a` dictionary: known keys strictly in sorted
/// order, unknown entries skipped.
pub open spec fn sp_args_fields(s: Seq<u8>, min_idx: int, acc: KrpcArgsView) -> Option<
    (KrpcArgsView, Seq<u8>),
>
    decreases s.len(),
{
    if s.len() == 0 {
        None
    } else if s[0] == 101 {
        Some((acc, s.drop_first()))
    } else {
        match sp_bytes(s) {
            Some((key, rest)) => {
                let idx = args_key_index(key);
                if idx == -1 && rest.len() < s.len() {
                    match sp_skip_value(rest) {
                        Some(rest2) => {
                            if rest2.len() < rest.len() {
                                sp_args_fields(rest2, min_idx, acc)
                            } else {
                                None
                            }
                        },
                        None => None,
                    }
                } else if idx >= min_idx && idx >= 0 && rest.len() < s.len() {
                    if idx == 2 {
                        match sp_int(rest) {
                            Some((v, rest2)) => {
                                if 0 <= v <= 65535 && rest2.len() < rest.len() {
                                    sp_args_fields(
                                        rest2,
                                        idx + 1,
                                        args_set_field(acc, idx, Seq::empty(), v as u16),
                                    )
                                } else {
                                    None
                                }
                            },
                            None => None,
                        }
                    } else {
                        match sp_bytes(rest) {
                            Some((v, rest2)) => {
                                if rest2.len() < rest.len() {
                                    sp_args_fields(
                                        rest2,
                                        idx + 1,
                                        args_set_field(acc, idx, v, 0),
                                    )
                                } else {
                                    None
                                }
                            },
                            None => None,
                        }
                    }
                } else {
                    None
                }
            },
            None => None,
        }
    }
}

/// Parse the `a` dictionary.
pub open spec fn sp_args(s: Seq<u8>) -> Option<(KrpcArgsView, Seq<u8>)> {
    if s.len() >= 1 && s[0] == 100 {
        sp_args_fields(s.drop_first(), 0, empty_args_view())
    } else {
        None
    }
}

/// Position of an `r`-dictionary key in canonical (sorted) order.
pub open spec fn resp_key_index(k: Seq<u8>) -> int {
    if k == key_id() {
        0
    } else if k == key_nodes() {
        1
    } else if k == key_token() {
        2
    } else if k == key_values() {
        3
    } else {
        -1
    }
}

pub open spec fn empty_resp_view() -> KrpcResponseView {
    KrpcResponseView { id: None, nodes: None, values: None, token: None }
}

pub open spec fn resp_set_field(r: KrpcResponseView, idx: int, bv: Seq<u8>, vv: Seq<Seq<u8>>)
    -> KrpcResponseView {
    if idx == 0 {
        KrpcResponseView { id: Some(bv), ..r }
    } else if idx == 1 {
        KrpcResponseView { nodes: Some(bv), ..r }
    } else if idx == 2 {
        KrpcResponseView { token: Some(bv), ..r }
    } else {
        KrpcResponseView { values: Some(vv), ..r }
    }
}

/// Parse the entries of the `r` dictionary: known keys strictly in sorted
/// order, unknown entries skipped.
pub open spec fn sp_resp_fields(s: Seq<u8>, min_idx: int, acc: KrpcResponseView) -> Option<
    (KrpcResponseView, Seq<u8>),
>
    decreases s.len(),
{
    if s.len() == 0 {
        None
    } else if s[0] == 101 {
        Some((acc, s.drop_first()))
    } else {
        match sp_bytes(s) {
            Some((key, rest)) => {
                let idx = resp_key_index(key);
                if idx == -1 && rest.len() < s.len() {
                    match sp_skip_value(rest) {
                        Some(rest2) => {
                            if rest2.len() < rest.len() {
                                sp_resp_fields(rest2, min_idx, acc)
                            } else {
                                None
                            }
                        },
                        None => None,
                    }
                } else if idx >= min_idx && idx >= 0 && rest.len() < s.len() {
                    if idx == 3 {
                        if rest.len() >= 1 && rest[0] == 108 {
                            match sp_values(rest.drop_first(), Seq::empty()) {
                                Some((vs, rest2)) => {
                                    if rest2.len() < rest.len() {
                                        sp_resp_fields(
                                            rest2,
                                            idx + 1,
                                            resp_set_field(acc, idx, Seq::empty(), vs),
                                        )
                                    } else {
                                        None
                                    }
                                },
                                None => None,
                            }
                        } else {
                            None
                        }
                    } else {
                        match sp_bytes(rest) {
                            Some((v, rest2)) => {
                                if rest2.len() < rest.len() {
                                    sp_resp_fields(
                                        rest2,
                                        idx + 1,
                                        resp_set_field(acc, idx, v, Seq::empty()),
                                    )
                                } else {
                                    None
                                }
                            },
                            None => None,
                        }
                    }
                } else {
                    None
                }
            },
            None => None,
        }
    }
}

/// Parse the `r` dictionary.
pub open spec fn sp_resp(s: Seq<u8>) -> Option<(KrpcResponseView, Seq<u8>)> {
    if s.len() >= 1 && s[0] == 100 {
        sp_resp_fields(s.drop_first(), 0, empty_resp_view())
    } else {
        None
    }
}

/// The query kind named by the given wire bytes.
pub open spec fn qkind_of_bytes(b: Seq<u8>) -> Option<KrpcQueryKind> {
    if b == qkind_bytes(KrpcQueryKind::Ping) {
        Some(KrpcQueryKind::Ping)
    } else if b == qkind_bytes(KrpcQueryKind::FindNode) {
        Some(KrpcQueryKind::FindNode)
    } else if b == qkind_bytes(KrpcQueryKind::GetPeers) {
        Some(KrpcQueryKind::GetPeers)
    } else if b == qkind_bytes(KrpcQueryKind::AnnouncePeer) {
        Some(KrpcQueryKind::AnnouncePeer)
    } else {
        None
    }
}

/// The message type named by the given wire bytes.
pub open spec fn ytype_of_bytes(b: Seq<u8>) -> Option<KrpcMessageType> {
    if b == ytype_bytes(KrpcMessageType::Query) {
        Some(KrpcMessageType::Query)
    } else if b == ytype_bytes(KrpcMessageType::Response) {
        Some(KrpcMessageType::Response)
    } else if b == ytype_bytes(KrpcMessageType::Error) {
        Some(KrpcMessageType::Error)
    } else {
        None
    }
}

/// Fields gathered while walking the envelope dictionary.
#[verifier::ext_equal]
pub struct KrpcPartial {
    pub t: Option<Seq<u8>>,
    pub y: Option<KrpcMessageType>,
    pub q: Option<KrpcQueryKind>,
    pub a: Option<KrpcArgsView>,
    pub r: Option<KrpcResponseView>,
    pub e: Option<(int, Seq<u8>)>,
}

pub open spec fn empty_partial() -> KrpcPartial {
    KrpcPartial { t: None, y: None, q: None, a: None, r: None, e: None }
}

/// Position of an envelope key in canonical (sorted) order.
pub open spec fn msg_key_index(k: Seq<u8>) -> int {
    if k == seq![97u8] {
        0
    } else if k == seq![101u8] {
        1
    } else if k == seq![113u8] {
        2
    } else if k == seq![114u8] {
        3
    } else if k == seq![116u8] {
        4
    } else if k == seq![121u8] {
        5
    } else {
        -1
    }
}

/// Parse the entries of the envelope dictionary: known keys strictly in
/// sorted order, unknown entries skipped.
pub open spec fn sp_msg_fields(s: Seq<u8>, min_idx: int, acc: KrpcPartial) -> Option<
    (KrpcPartial, Seq<u8>),
>
    decreases s.len(),
{
    if s.len() == 0 {
        None
    } else if s[0] == 101 {
        Some((acc, s.drop_first()))
    } else {
        match sp_bytes(s) {
            Some((key, rest)) => {
                let idx = msg_key_index(key);
                if idx == -1 && rest.len() < s.len() {
                    match sp_skip_value(rest) {
                        Some(rest2) => {
                            if rest2.len() < rest.len() {
                                sp_msg_fields(rest2, min_idx, acc)
                            } else {
                                None
                            }
                        },
                        None => None,
                    }
                } else if idx >= min_idx && idx >= 0 && rest.len() < s.len() {
                    if idx == 0 {
                        match sp_args(rest) {
                            Some((a, rest2)) => {
                                if rest2.len() < rest.len() {
                                    sp_msg_fields(rest2, 1, KrpcPartial { a: Some(a), ..acc })
                                } else {
                                    None
                                }
                            },
                            None => None,
                        }
                    } else if idx == 1 {
                        if rest.len() >= 1 && rest[0] == 108 {
                            match sp_int(rest.drop_first()) {
                                Some((c, r1)) => match sp_bytes(r1) {
                                    Some((m, r2)) => {
                                        if r2.len() >= 1 && r2[0] == 101 && r2.len() <= rest.len() {
                                            sp_msg_fields(
                                                r2.drop_first(),
                                                2,
                                                KrpcPartial { e: Some((c, m)), ..acc },
                                            )
                                        } else {
                                            None
                                        }
                                    },
                                    None => None,
                                },
                                None => None,
                            }
                        } else {
                            None
                        }
                    } else if idx == 2 {
                        match sp_bytes(rest) {
                            Some((qb, rest2)) => match qkind_of_bytes(qb) {
                                Some(k2) => {
                                    if rest2.len() < rest.len() {
                                        sp_msg_fields(
                                            rest2,
                                            3,
                                            KrpcPartial { q: Some(k2), ..acc },
                                        )
                                    } else {
                                        None
                                    }
                                },
                                None => None,
                            },
                            None => None,
                        }
                    } else if idx == 3 {
                        match sp_resp(rest) {
                            Some((rv, rest2)) => {
                                if rest2.len() < rest.len() {
                                    sp_msg_fields(rest2, 4, KrpcPartial { r: Some(rv), ..acc })
                                } else {
                                    None
                                }
                            },
                            None => None,
                        }
                    } else if idx == 4 {
                        match sp_bytes(rest) {
                            Some((tv, rest2)) => {
                                if rest2.len() < rest.len() {
                                    sp_msg_fields(rest2, 5, KrpcPartial { t: Some(tv), ..acc })
                                } else {
                                    None
                                }
                            },
                            None => None,
                        }
                    } else {
                        match sp_bytes(rest) {
                            Some((yb, rest2)) => match ytype_of_bytes(yb) {
                                Some(yv) => {
                                    if rest2.len() < rest.len() {
                                        sp_msg_fields(
                                            rest2,
                                            6,
                                            KrpcPartial { y: Some(yv), ..acc },
                                        )
                                    } else {
                                        None
                                    }
                                },
                                None => None,
                            },
                            None => None,
                        }
                    }
                } else {
                    None
                }
            },
            None => None,
        }
    }
}

/// The message denoted by canonical envelope bytes, if they are well formed.
pub open spec fn sp_decode(s: Seq<u8>) -> Option<KrpcMessageView> {
    if s.len() >= 1 && s[0] == 100 {
        match sp_msg_fields(s.drop_first(), 0, empty_partial()) {
            Some((p, rest)) => {
                if rest.len() == 0 && p.t is Some && p.y is Some {
                    let m = KrpcMessageView {
                        t: p.t->0,
                        y: p.y->0,
                        q: p.q,
                        a: p.a,
                        r: p.r,
                        e: p.e,
                    };
                    if wf_msg(m) {
                        Some(m)
                    } else {
                        None
                    }
                } else {
                    None
                }
            },
            None => None,
        }
    } else {
        None
    }
}


// ---- executable decoder: numbers and byte strings ---------------------------

/// A digit run of length `k` at the head of `s` is what `sp_digit_run` counts.
proof fn lemma_digit_run_chars(s: Seq<u8>, k: int)
    requires
        0 <= k <= s.len(),
        forall|j: int| 0 <= j < k ==> is_digit(s[j]),
        k == s.len() || !is_digit(s[k]),
    ensures
        sp_digit_run(s) == k,
    decreases k,
{
    if k == 0 {
    } else {
        assert(is_digit(s[0]));
        assert(forall|j: int| 0 <= j < k - 1 ==> is_digit(s.drop_first()[j]));
        lemma_digit_run_chars(s.drop_first(), k - 1);
    }
}

/// Appending one digit multiplies the value by ten and adds the digit.
proof fn lemma_digits_val_step(s: Seq<u8>, j: int)
    requires
        0 <= j < s.len(),
        is_digit(s[j]),
    ensures
        digits_val(s.take(j + 1)) == digits_val(s.take(j)) * 10 + (s[j] - 48),
{
    assert(s.take(j + 1).drop_last() =~= s.take(j));
    assert(s.take(j + 1).last() == s[j]);
}

/// The value of a digit string dominates the value of any of its prefixes.
proof fn lemma_digits_val_prefix_le(s: Seq<u8>, j: int)
    requires
        0 <= j <= s.len(),
        forall|i: int| 0 <= i < s.len() ==> is_digit(s[i]),
    ensures
        digits_val(s) >= digits_val(s.take(j)),
    decreases s.len() - j,
{
    if j < s.len() {
        lemma_digits_val_step(s, j);
        lemma_digits_val_prefix_le(s, j + 1);
    } else {
        assert(s.take(j) =~= s);
    }
}

/// Parse a canonical decimal number, giving up when it exceeds `cap`.
fn p_number(data: &Vec<u8>, pos: usize, cap: u128) -> (r: Option<(u128, usize)>)
    requires
        pos <= data@.len(),
        cap <= 0xffff_ffff_ffff_ffffu128,
    ensures
        match r {
            Some(v) => pos < v.1 <= data@.len() && v.0 <= cap && sp_number(
                data@.skip(pos as int),
            ) == Some((v.0 as nat, data@.skip(v.1 as int))),
            None => match sp_number(data@.skip(pos as int)) {
                Some(nr) => nr.0 > cap,
                None => true,
            },
        },
{
    let ghost s = data@.skip(pos as int);
    let len = data.len();
    let mut i: usize = pos;
    while i < len && 48 <= data[i] && data[i] <= 57
        invariant
            pos <= i <= len,
            len == data@.len(),
            forall|j: int| pos <= j < i ==> is_digit(data@[j]),
        decreases len - i,
    {
        i += 1;
    }
    proof {
        assert(forall|j: int| 0 <= j < i - pos ==> is_digit(s[j]));
        if i - pos < s.len() {
            assert(s[i - pos] == data@[i as int]);
            assert(!is_digit(s[i - pos]));
        }
        lemma_digit_run_chars(s, i - pos);
    }
    let ghost run = i - pos;
    if i == pos {
        return None;
    }
    if data[pos] == 48 && i > pos + 1 {
        assert(s[0] == 48);
        return None;
    }
    let mut acc: u128 = 0;
    let mut j: usize = pos;
    while j < i
        invariant
            pos <= j <= i <= len,
            len == data@.len(),
            s == data@.skip(pos as int),
            run == i - pos,
            1 <= run <= s.len(),
            sp_digit_run(s) == run,
            run == 1 || s[0] != 48,
            forall|jj: int| pos <= jj < i ==> is_digit(data@[jj]),
            cap <= 0xffff_ffff_ffff_ffffu128,
            acc <= cap,
            acc == digits_val(s.take(j - pos)),
        decreases i - j,
    {
        proof {
            assert(s[j - pos] == data@[j as int]);
            lemma_digits_val_step(s, j - pos);
        }
        let d = data[j] - 48;
        let next: u128 = acc * 10 + d as u128;
        if next > cap {
            proof {
                let full = s.take(run as int);
                assert(forall|jj: int| 0 <= jj < full.len() ==> is_digit(full[jj]));
                assert(full.take(j + 1 - pos) =~= s.take(j + 1 - pos));
                lemma_digits_val_prefix_le(full, j + 1 - pos);
                assert(digits_val(full) >= next);
            }
            return None;
        }
        acc = next;
        j += 1;
    }
    proof {
        assert(s.take(run as int) == s.take(j - pos));
    }
    Some((acc, i))
}


/// The digit run never extends past the end of the input.
proof fn lemma_digit_run_le(s: Seq<u8>)
    ensures
        sp_digit_run(s) <= s.len(),
    decreases s.len(),
{
    if s.len() > 0 && is_digit(s[0]) {
        lemma_digit_run_le(s.drop_first());
    }
}

/// Parse a bencode byte string at `pos`.
fn p_bytes(data: &Vec<u8>, pos: usize) -> (r: Option<(Vec<u8>, usize)>)
    requires
        pos <= data@.len(),
    ensures
        match r {
            Some(v) => pos < v.1 <= data@.len() && sp_bytes(data@.skip(pos as int)) == Some(
                (v.0@, data@.skip(v.1 as int)),
            ),
            None => sp_bytes(data@.skip(pos as int)) is None,
        },
{
    let ghost s = data@.skip(pos as int);
    let len = data.len();
    match p_number(data, pos, len as u128) {
        Some((nv, i)) => {
            let n = nv as usize;
            if i >= len {
                return None;
            }
            if data[i] != 58 {
                proof {
                    assert(data@.skip(i as int)[0] == data@[i as int]);
                }
                return None;
            }
            if n > len - (i + 1) {
                return None;
            }
            let start = i + 1;
            let mut v: Vec<u8> = Vec::new();
            let mut m: usize = 0;
            while m < n
                invariant
                    start + n <= len,
                    len == data@.len(),
                    m <= n,
                    v@ == data@.subrange(start as int, start + m),
                decreases n - m,
            {
                v.push(data[start + m]);
                assert(v@ =~= data@.subrange(start as int, start + m + 1));
                m += 1;
            }
            proof {
                let rest = data@.skip(i as int);
                assert(rest[0] == data@[i as int]);
                assert(rest.subrange(1, n as int + 1) =~= data@.subrange(
                    start as int,
                    start + n as int,
                ));
                assert(rest.skip(n as int + 1) =~= data@.skip(start + n as int));
            }
            Some((v, start + n))
        },
        None => {
            proof {
                if sp_number(s) is Some {
                    let k = sp_digit_run(s);
                    lemma_digit_run_le(s);
                    let nr = sp_number(s)->0;
                    assert(nr.1 == s.skip(k as int));
                    assert(nr.1.len() <= s.len());
                }
            }
            None
        },
    }
}

/// Parse a bencode integer at `pos` into a 64-bit value.
fn p_int_i64(data: &Vec<u8>, pos: usize) -> (r: Option<(i64, usize)>)
    requires
        pos <= data@.len(),
    ensures
        match r {
            Some(v) => pos < v.1 <= data@.len() && sp_int(data@.skip(pos as int)) == Some(
                (v.0 as int, data@.skip(v.1 as int)),
            ),
            None => sp_int(data@.skip(pos as int)) is None,
        },
{
    let ghost s = data@.skip(pos as int);
    let len = data.len();
    if pos >= len || data[pos] != 105 {
        return None;
    }
    let neg = pos + 1 < len && data[pos + 1] == 45;
    proof {
        assert(s[0] == data@[pos as int]);
        if pos + 1 < len {
            assert(s[1] == data@[pos as int + 1]);
        }
    }
    let dstart = if neg {
        pos + 2
    } else {
        pos + 1
    };
    let cap: u128 = if neg {
        0x8000_0000_0000_0000u128
    } else {
        0x7fff_ffff_ffff_ffffu128
    };
    proof {
        if neg {
            assert(s.skip(2) =~= data@.skip(pos + 2 as int));
        } else {
            assert(s.drop_first() =~= data@.skip(pos + 1 as int));
        }
    }
    match p_number(data, dstart, cap) {
        Some((nv, i)) => {
            if neg && nv == 0 {
                return None;
            }
            if i >= len {
                return None;
            }
            if data[i] != 101 {
                proof {
                    assert(data@.skip(i as int)[0] == data@[i as int]);
                }
                return None;
            }
            proof {
                assert(data@.skip(i as int)[0] == data@[i as int]);
                assert(data@.skip(i as int).drop_first() =~= data@.skip(i + 1 as int));
            }
            let val: i64 = if neg {
                if nv == 0x8000_0000_0000_0000u128 {
                    i64::MIN
                } else {
                    -((nv as u64) as i64)
                }
            } else {
                nv as i64
            };
            Some((val, i + 1))
        },
        None => None,
    }
}


/// Parse list items (byte strings) up to the closing `e`.
fn p_values(data: &Vec<u8>, pos: usize) -> (r: Option<(Vec<Vec<u8>>, usize)>)
    requires
        pos <= data@.len(),
    ensures
        match r {
            Some(v) => pos < v.1 <= data@.len() && sp_values(data@.skip(pos as int), Seq::empty())
                == Some((v.0.deep_view(), data@.skip(v.1 as int))),
            None => sp_values(data@.skip(pos as int), Seq::empty()) is None,
        },
{
    let ghost s0 = data@.skip(pos as int);
    let mut acc: Vec<Vec<u8>> = Vec::new();
    let mut cur: usize = pos;
    proof {
        assert(acc.deep_view() =~~= Seq::<Seq<u8>>::empty());
    }
    loop
        invariant
            pos <= cur <= data@.len(),
            s0 == data@.skip(pos as int),
            sp_values(s0, Seq::empty()) == sp_values(data@.skip(cur as int), acc.deep_view()),
        decreases data@.len() - cur,
    {
        if cur >= data.len() {
            proof {
                assert(data@.skip(cur as int).len() == 0);
            }
            return None;
        }
        proof {
            assert(data@.skip(cur as int)[0] == data@[cur as int]);
        }
        if data[cur] == 101 {
            proof {
                assert(data@.skip(cur as int).drop_first() =~= data@.skip(cur + 1 as int));
            }
            return Some((acc, cur + 1));
        }
        match p_bytes(data, cur) {
            Some((v, np)) => {
                let ghost a0 = acc.deep_view();
                acc.push(v);
                proof {
                    assert(acc.deep_view() =~~= a0.push(v@));
                }
                cur = np;
            },
            None => {
                return None;
            },
        }
    }
}

/// Canonical-order index of an `a`-dictionary key.
fn args_key_idx(k: &Vec<u8>) -> (i: i32)
    ensures
        i as int == args_key_index(k@),
{
    let kb = key_bytes_id();
    if bytes_eq(k, &kb) {
        return 0;
    }
    let kb = key_bytes_info_hash();
    if bytes_eq(k, &kb) {
        return 1;
    }
    let kb = key_bytes_port();
    if bytes_eq(k, &kb) {
        return 2;
    }
    let kb = key_bytes_target();
    if bytes_eq(k, &kb) {
        return 3;
    }
    let kb = key_bytes_token();
    if bytes_eq(k, &kb) {
        return 4;
    }
    -1
}

/// Canonical-order index of an `r`-dictionary key.
fn resp_key_idx(k: &Vec<u8>) -> (i: i32)
    ensures
        i as int == resp_key_index(k@),
{
    let kb = key_bytes_id();
    if bytes_eq(k, &kb) {
        return 0;
    }
    let kb = key_bytes_nodes();
    if bytes_eq(k, &kb) {
        return 1;
    }
    let kb = key_bytes_token();
    if bytes_eq(k, &kb) {
        return 2;
    }
    let kb = key_bytes_values();
    if bytes_eq(k, &kb) {
        return 3;
    }
    -1
}

/// Canonical-order index of an envelope key.
fn msg_key_idx(k: &Vec<u8>) -> (i: i32)
    ensures
        i as int == msg_key_index(k@),
{
    if k.len() != 1 {
        proof {
            assert(k@ != seq![97u8] && k@ != seq![101u8] && k@ != seq![113u8] && k@ != seq![114u8]
                && k@ != seq![116u8] && k@ != seq![121u8]);
        }
        return -1;
    }
    let b = k[0];
    proof {
        assert(k@ =~= seq![k@[0]]);
    }
    if b == 97 {
        0
    } else if b == 101 {
        1
    } else if b == 113 {
        2
    } else if b == 114 {
        3
    } else if b == 116 {
        4
    } else if b == 121 {
        5
    } else {
        proof {
            assert(k@ != seq![97u8] && k@ != seq![101u8] && k@ != seq![113u8] && k@ != seq![114u8]
                && k@ != seq![116u8] && k@ != seq![121u8]);
        }
        -1
    }
}

/// The query kind named by wire bytes, if any.
fn qkind_from_bytes(k: &Vec<u8>) -> (r: Option<KrpcQueryKind>)
    ensures
        r == qkind_of_bytes(k@),
{
    let n = qkind_name(KrpcQueryKind::Ping);
    if bytes_eq(k, &n) {
        return Some(KrpcQueryKind::Ping);
    }
    let n = qkind_name(KrpcQueryKind::FindNode);
    if bytes_eq(k, &n) {
        return Some(KrpcQueryKind::FindNode);
    }
    let n = qkind_name(KrpcQueryKind::GetPeers);
    if bytes_eq(k, &n) {
        return Some(KrpcQueryKind::GetPeers);
    }
    let n = qkind_name(KrpcQueryKind::AnnouncePeer);
    if bytes_eq(k, &n) {
        return Some(KrpcQueryKind::AnnouncePeer);
    }
    None
}

/// The message type named by wire bytes, if any.
fn ytype_from_bytes(k: &Vec<u8>) -> (r: Option<KrpcMessageType>)
    ensures
        r == ytype_of_bytes(k@),
{
    if k.len() != 1 {
        proof {
            assert(k@ != seq![113u8] && k@ != seq![114u8] && k@ != seq![101u8]);
        }
        return None;
    }
    proof {
        assert(k@ =~= seq![k@[0]]);
    }
    let b = k[0];
    if b == 113 {
        Some(KrpcMessageType::Query)
    } else if b == 114 {
        Some(KrpcMessageType::Response)
    } else if b == 101 {
        Some(KrpcMessageType::Error)
    } else {
        None
    }
}


/// Parse the `a` dictionary at `pos`.
fn p_args_dict(data: &Vec<u8>, pos: usize) -> (r: Option<(KrpcArgs, usize)>)
    requires
        pos <= data@.len(),
    ensures
        match r {
            Some(v) => pos < v.1 <= data@.len() && sp_args(data@.skip(pos as int)) == Some(
                (v.0@, data@.skip(v.1 as int)),
            ),
            None => sp_args(data@.skip(pos as int)) is None,
        },
{
    let len = data.len();
    if pos >= len {
        return None;
    }
    proof {
        assert(data@.skip(pos as int)[0] == data@[pos as int]);
    }
    if data[pos] != 100 {
        return None;
    }
    let mut a = KrpcArgs { id: None, target: None, info_hash: None, port: None, token: None };
    let mut min_idx: i32 = 0;
    let mut cur: usize = pos + 1;
    proof {
        assert(data@.skip(pos as int).drop_first() =~= data@.skip(pos + 1 as int));
        assert(a@ == empty_args_view());
    }
    loop
        invariant
            pos + 1 <= cur <= len,
            len == data@.len(),
            0 <= min_idx <= 5,
            sp_args(data@.skip(pos as int)) == sp_args_fields(
                data@.skip(cur as int),
                min_idx as int,
                a@,
            ),
        decreases len - cur,
    {
        if cur >= len {
            proof {
                assert(data@.skip(cur as int).len() == 0);
            }
            return None;
        }
        proof {
            assert(data@.skip(cur as int)[0] == data@[cur as int]);
        }
        if data[cur] == 101 {
            proof {
                assert(data@.skip(cur as int).drop_first() =~= data@.skip(cur + 1 as int));
            }
            return Some((a, cur + 1));
        }
        match p_bytes(data, cur) {
            Some((key, kp)) => {
                let idx = args_key_idx(&key);
                if idx < 0 {
                    // An entry this module does not know: skip its value.
                    match p_skip_value(data, kp) {
                        Some(np) => {
                            cur = np;
                            continue ;
                        },
                        None => {
                            return None;
                        },
                    }
                }
                if idx < min_idx {
                    return None;
                }
                if idx == 2 {
                    match p_int_i64(data, kp) {
                        Some((v, vp)) => {
                            if v < 0 || v > 65535 {
                                return None;
                            }
                            let ghost a_old = a@;
                            a.port = Some(v as u16);
                            proof {
                                assert(a@ == args_set_field(a_old, 2, Seq::empty(), v as u16));
                            }
                            min_idx = 3;
                            cur = vp;
                        },
                        None => {
                            return None;
                        },
                    }
                } else {
                    match p_bytes(data, kp) {
                        Some((v, vp)) => {
                            let ghost a_old = a@;
                            let ghost vv = v@;
                            if idx == 0 {
                                a.id = Some(v);
                            } else if idx == 1 {
                                a.info_hash = Some(v);
                            } else if idx == 3 {
                                a.target = Some(v);
                            } else {
                                a.token = Some(v);
                            }
                            proof {
                                assert(a@ == args_set_field(a_old, idx as int, vv, 0));
                            }
                            min_idx = idx + 1;
                            cur = vp;
                        },
                        None => {
                            return None;
                        },
                    }
                }
            },
            None => {
                return None;
            },
        }
    }
}

/// Parse the `r` dictionary at `pos`.
fn p_resp_dict(data: &Vec<u8>, pos: usize) -> (r: Option<(KrpcResponse, usize)>)
    requires
        pos <= data@.len(),
    ensures
        match r {
            Some(v) => pos < v.1 <= data@.len() && sp_resp(data@.skip(pos as int)) == Some(
                (v.0@, data@.skip(v.1 as int)),
            ),
            None => sp_resp(data@.skip(pos as int)) is None,
        },
{
    let len = data.len();
    if pos >= len {
        return None;
    }
    proof {
        assert(data@.skip(pos as int)[0] == data@[pos as int]);
    }
    if data[pos] != 100 {
        return None;
    }
    let mut rb = KrpcResponse { id: None, nodes: None, values: None, token: None };
    let mut min_idx: i32 = 0;
    let mut cur: usize = pos + 1;
    proof {
        assert(data@.skip(pos as int).drop_first() =~= data@.skip(pos + 1 as int));
        assert(rb@ == empty_resp_view());
    }
    loop
        invariant
            pos + 1 <= cur <= len,
            len == data@.len(),
            0 <= min_idx <= 4,
            sp_resp(data@.skip(pos as int)) == sp_resp_fields(
                data@.skip(cur as int),
                min_idx as int,
                rb@,
            ),
        decreases len - cur,
    {
        if cur >= len {
            proof {
                assert(data@.skip(cur as int).len() == 0);
            }
            return None;
        }
        proof {
            assert(data@.skip(cur as int)[0] == data@[cur as int]);
        }
        if data[cur] == 101 {
            proof {
                assert(data@.skip(cur as int).drop_first() =~= data@.skip(cur + 1 as int));
            }
            return Some((rb, cur + 1));
        }
        match p_bytes(data, cur) {
            Some((key, kp)) => {
                let idx = resp_key_idx(&key);
                if idx < 0 {
                    // An entry this module does not know: skip its value.
                    match p_skip_value(data, kp) {
                        Some(np) => {
                            cur = np;
                            continue ;
                        },
                        None => {
                            return None;
                        },
                    }
                }
                if idx < min_idx {
                    return None;
                }
                if idx == 3 {
                    if kp >= len {
                        return None;
                    }
                    proof {
                        assert(data@.skip(kp as int)[0] == data@[kp as int]);
                    }
                    if data[kp] != 108 {
                        return None;
                    }
                    proof {
                        assert(data@.skip(kp as int).drop_first() =~= data@.skip(kp + 1 as int));
                    }
                    match p_values(data, kp + 1) {
                        Some((vs, vp)) => {
                            let ghost r_old = rb@;
                            let ghost vv = vs.deep_view();
                            rb.values = Some(vs);
                            proof {
                                assert(rb@ == resp_set_field(r_old, 3, Seq::empty(), vv));
                            }
                            min_idx = 4;
                            cur = vp;
                        },
                        None => {
                            return None;
                        },
                    }
                } else {
                    match p_bytes(data, kp) {
                        Some((v, vp)) => {
                            let ghost r_old = rb@;
                            let ghost vv = v@;
                            if idx == 0 {
                                rb.id = Some(v);
                            } else if idx == 1 {
                                rb.nodes = Some(v);
                            } else {
                                rb.token = Some(v);
                            }
                            proof {
                                assert(rb@ == resp_set_field(r_old, idx as int, vv, Seq::empty()));
                            }
                            min_idx = idx + 1;
                            cur = vp;
                        },
                        None => {
                            return None;
                        },
                    }
                }
            },
            None => {
                return None;
            },
        }
    }
}


/// The partial envelope denoted by the exec accumulator fields.
pub open spec fn partial_of(
    t: Option<Vec<u8>>,
    y: Option<KrpcMessageType>,
    q: Option<KrpcQueryKind>,
    a: Option<KrpcArgs>,
    r: Option<KrpcResponse>,
    e: Option<(i64, Vec<u8>)>,
) -> KrpcPartial {
    KrpcPartial {
        t: opt_view(t),
        y,
        q,
        a: match a {
            Some(x) => Some(x@),
            None => None,
        },
        r: match r {
            Some(x) => Some(x@),
            None => None,
        },
        e: match e {
            Some((c, m)) => Some((c as int, m@)),
            None => None,
        },
    }
}

fn decode_error() -> (r: ProtocolError)
    ensures
        r is BencodeDecode,
{
    ProtocolError::BencodeDecode("malformed or non-canonical KRPC envelope".to_string())
}

/// Decode a KRPC envelope from its canonical bencode bytes.
///
/// Dictionary entries the protocol does not know are skipped, so envelopes
/// from peers that add extras (an observed-address entry, a version tag)
/// still decode.  Everything else is strict: decoding fails, always with the
/// bencode-decode error, on malformed input, non-canonical lengths, known
/// keys out of sorted order, unknown query kinds, trailing bytes, and
/// envelopes whose payload does not agree with their `y` tag.
#[verifier::rlimit(100)]
pub fn decode_krpc(data: &[u8]) -> (res: Result<KrpcMessage, ProtocolError>)
    ensures
        res is Ok ==> sp_decode(data@) == Some(res->Ok_0@) && wf_msg(res->Ok_0@),
        res is Err ==> sp_decode(data@) is None,
        res matches Err(e) ==> e is BencodeDecode,
{
    let dv: Vec<u8> = vstd::slice::slice_to_vec(data);
    let len = dv.len();
    if len == 0 {
        return Err(decode_error());
    }
    proof {
        assert(dv@.skip(0) =~= dv@);
    }
    if dv[0] != 100 {
        return Err(decode_error());
    }
    let mut t_o: Option<Vec<u8>> = None;
    let mut y_o: Option<KrpcMessageType> = None;
    let mut q_o: Option<KrpcQueryKind> = None;
    let mut a_o: Option<KrpcArgs> = None;
    let mut r_o: Option<KrpcResponse> = None;
    let mut e_o: Option<(i64, Vec<u8>)> = None;
    let mut min_idx: i32 = 0;
    let mut cur: usize = 1;
    proof {
        assert(partial_of(t_o, y_o, q_o, a_o, r_o, e_o) == empty_partial());
    }
    loop
        invariant
            1 <= cur <= len,
            len == dv@.len(),
            dv@ == data@,
            data@[0] == 100,
            0 <= min_idx <= 6,
            sp_msg_fields(dv@.skip(1), 0, empty_partial()) == sp_msg_fields(
                dv@.skip(cur as int),
                min_idx as int,
                partial_of(t_o, y_o, q_o, a_o, r_o, e_o),
            ),
        decreases len - cur,
    {
        if cur >= len {
            proof {
                assert(dv@.skip(cur as int).len() == 0);
            }
            return Err(decode_error());
        }
        proof {
            assert(dv@.skip(cur as int)[0] == dv@[cur as int]);
        }
        if dv[cur] == 101 {
            proof {
                assert(dv@.skip(cur as int).drop_first() =~= dv@.skip(cur + 1 as int));
            }
            if cur + 1 != len {
                proof {
                    assert(dv@.skip(cur + 1 as int).len() > 0);
                }
                return Err(decode_error());
            }
            let t_v = match t_o {
                Some(t) => t,
                None => {
                    return Err(decode_error());
                },
            };
            let y_v = match y_o {
                Some(y) => y,
                None => {
                    return Err(decode_error());
                },
            };
            let wf_ok = match y_v {
                KrpcMessageType::Query => q_o.is_some() && a_o.is_some() && r_o.is_none()
                    && e_o.is_none(),
                KrpcMessageType::Response => q_o.is_none() && a_o.is_none() && r_o.is_some()
                    && e_o.is_none(),
                KrpcMessageType::Error => q_o.is_none() && a_o.is_none() && r_o.is_none()
                    && e_o.is_some(),
            };
            if !wf_ok {
                return Err(decode_error());
            }
            let msg = KrpcMessage { t: t_v, y: y_v, q: q_o, a: a_o, r: r_o, e: e_o };
            return Ok(msg);
        }
        match p_bytes(&dv, cur) {
            Some((key, kp)) => {
                let idx = msg_key_idx(&key);
                if idx < 0 {
                    // An entry this module does not know (deployed peers add
                    // extras such as an observed-address entry): skip it.
                    match p_skip_value(&dv, kp) {
                        Some(np) => {
                            cur = np;
                            continue ;
                        },
                        None => {
                            return Err(decode_error());
                        },
                    }
                }
                if idx < min_idx {
                    return Err(decode_error());
                }
                if idx == 0 {
                    match p_args_dict(&dv, kp) {
                        Some((a, vp)) => {
                            a_o = Some(a);
                            min_idx = 1;
                            cur = vp;
                        },
                        None => {
                            return Err(decode_error());
                        },
                    }
                } else if idx == 1 {
                    if kp >= len {
                        return Err(decode_error());
                    }
                    proof {
                        assert(dv@.skip(kp as int)[0] == dv@[kp as int]);
                    }
                    if dv[kp] != 108 {
                        return Err(decode_error());
                    }
                    proof {
                        assert(dv@.skip(kp as int).drop_first() =~= dv@.skip(kp + 1 as int));
                    }
                    match p_int_i64(&dv, kp + 1) {
                        Some((c, p1)) => {
                            match p_bytes(&dv, p1) {
                                Some((m, p2)) => {
                                    if p2 >= len {
                                        return Err(decode_error());
                                    }
                                    proof {
                                        assert(dv@.skip(p2 as int)[0] == dv@[p2 as int]);
                                    }
                                    if dv[p2] != 101 {
                                        return Err(decode_error());
                                    }
                                    proof {
                                        assert(dv@.skip(p2 as int).drop_first() =~= dv@.skip(
                                            p2 + 1 as int,
                                        ));
                                    }
                                    e_o = Some((c, m));
                                    min_idx = 2;
                                    cur = p2 + 1;
                                },
                                None => {
                                    return Err(decode_error());
                                },
                            }
                        },
                        None => {
                            return Err(decode_error());
                        },
                    }
                } else if idx == 2 {
                    match p_bytes(&dv, kp) {
                        Some((qb, vp)) => {
                            match qkind_from_bytes(&qb) {
                                Some(k) => {
                                    q_o = Some(k);
                                    min_idx = 3;
                                    cur = vp;
                                },
                                None => {
                                    return Err(decode_error());
                                },
                            }
                        },
                        None => {
                            return Err(decode_error());
                        },
                    }
                } else if idx == 3 {
                    match p_resp_dict(&dv, kp) {
                        Some((rv, vp)) => {
                            r_o = Some(rv);
                            min_idx = 4;
                            cur = vp;
                        },
                        None => {
                            return Err(decode_error());
                        },
                    }
                } else if idx == 4 {
                    match p_bytes(&dv, kp) {
                        Some((tv, vp)) => {
                            t_o = Some(tv);
                            min_idx = 5;
                            cur = vp;
                        },
                        None => {
                            return Err(decode_error());
                        },
                    }
                } else {
                    match p_bytes(&dv, kp) {
                        Some((yb, vp)) => {
                            match ytype_from_bytes(&yb) {
                                Some(yv) => {
                                    y_o = Some(yv);
                                    min_idx = 6;
                                    cur = vp;
                                },
                                None => {
                                    return Err(decode_error());
                                },
                            }
                        },
                        None => {
                            return Err(decode_error());
                        },
                    }
                }
            },
            None => {
                return Err(decode_error());
            },
        }
    }
}


// ---- round trip: the decoder inverts the encoder ----------------------------

/// Shape of a decimal representation: digits only, no leading zero.
proof fn lemma_dec_rep_digits(n: nat)
    ensures
        dec_rep(n).len() >= 1,
        forall|i: int| 0 <= i < dec_rep(n).len() ==> is_digit(#[trigger] dec_rep(n)[i]),
        n == 0 ==> dec_rep(n) == seq![48u8],
        n > 0 ==> dec_rep(n)[0] != 48,
    decreases n,
{
    if n < 10 {
        assert(dec_rep(n) == seq![(48 + n) as u8]);
    } else {
        lemma_dec_rep_digits(n / 10);
        assert(dec_rep(n) == dec_rep(n / 10).push((48 + n % 10) as u8));
        assert(dec_rep(n)[0] == dec_rep(n / 10)[0]);
    }
}

/// The decimal representation denotes the number it was built from.
proof fn lemma_digits_val_dec_rep(n: nat)
    ensures
        digits_val(dec_rep(n)) == n,
    decreases n,
{
    if n < 10 {
        assert(dec_rep(n) == seq![(48 + n) as u8]);
        assert(dec_rep(n).drop_last() =~= Seq::<u8>::empty());
        assert(digits_val(Seq::<u8>::empty()) == 0);
        assert(dec_rep(n).last() == (48 + n) as u8);
    } else {
        lemma_digits_val_dec_rep(n / 10);
        let d = dec_rep(n / 10);
        assert(dec_rep(n) == d.push((48 + n % 10) as u8));
        assert(dec_rep(n).drop_last() =~= d);
        assert(dec_rep(n).last() == (48 + n % 10) as u8);
        assert(digits_val(dec_rep(n)) == (n / 10) * 10 + n % 10);
        assert(n == (n / 10) * 10 + n % 10) by (nonlinear_arith);
    }
}

/// The digit run of an all-digit string followed by a non-digit is the string.
proof fn lemma_digit_run_all(ds: Seq<u8>, rest: Seq<u8>)
    requires
        forall|i: int| 0 <= i < ds.len() ==> is_digit(#[trigger] ds[i]),
        rest.len() > 0,
        !is_digit(rest[0]),
    ensures
        sp_digit_run(ds + rest) == ds.len(),
    decreases ds.len(),
{
    if ds.len() == 0 {
        assert(ds + rest =~= rest);
    } else {
        assert((ds + rest)[0] == ds[0]);
        assert((ds + rest).drop_first() =~= ds.drop_first() + rest);
        lemma_digit_run_all(ds.drop_first(), rest);
    }
}

/// Parsing the decimal representation of `n` yields `n`.
proof fn lemma_sp_number_inverts(n: nat, rest: Seq<u8>)
    requires
        rest.len() > 0,
        !is_digit(rest[0]),
    ensures
        sp_number(dec_rep(n) + rest) == Some((n, rest)),
{
    let s = dec_rep(n) + rest;
    let d = dec_rep(n);
    lemma_dec_rep_digits(n);
    lemma_digit_run_all(d, rest);
    assert(sp_digit_run(s) == d.len());
    assert(s[0] == d[0]);
    lemma_digits_val_dec_rep(n);
    assert(s.take(d.len() as int) =~= d);
    assert(s.skip(d.len() as int) =~= rest);
}

/// Parsing the encoding of a byte string yields the byte string.
proof fn lemma_sp_bytes_inverts(b: Seq<u8>, rest: Seq<u8>)
    ensures
        sp_bytes(enc_bytes(b) + rest) == Some((b, rest)),
        enc_bytes(b).len() >= 2,
        enc_bytes(b)[0] != 101 && enc_bytes(b)[0] != 100 && enc_bytes(b)[0] != 108,
{
    let s = enc_bytes(b) + rest;
    let tail = seq![58u8] + b + rest;
    lemma_dec_rep_digits(b.len());
    assert(s =~= dec_rep(b.len()) + tail);
    lemma_sp_number_inverts(b.len(), tail);
    assert(tail[0] == 58);
    assert(tail.subrange(1, b.len() as int + 1) =~= b);
    assert(tail.skip(b.len() as int + 1) =~= rest);
    assert(s[0] == dec_rep(b.len())[0]);
    assert(is_digit(s[0]));
}

/// Parsing the encoding of a 64-bit-range integer yields the integer.
proof fn lemma_sp_int_inverts(i: int, rest: Seq<u8>)
    requires
        -0x8000_0000_0000_0000 <= i <= 0x7fff_ffff_ffff_ffff,
    ensures
        sp_int(enc_int(i) + rest) == Some((i, rest)),
        enc_int(i).len() >= 3,
        enc_int(i)[0] == 105,
{
    let s = enc_int(i) + rest;
    if i < 0 {
        let n = (-i) as nat;
        lemma_dec_rep_digits(n);
        let tail = seq![101u8] + rest;
        assert(s =~= seq![105u8, 45u8] + dec_rep(n) + tail);
        assert(s[0] == 105 && s[1] == 45);
        assert(s.skip(2) =~= dec_rep(n) + tail);
        lemma_sp_number_inverts(n, tail);
        assert((dec_rep(n) + tail).skip(dec_rep(n).len() as int) =~= tail);
        assert(tail[0] == 101);
        assert(tail.drop_first() =~= rest);
    } else {
        let n = i as nat;
        lemma_dec_rep_digits(n);
        let tail = seq![101u8] + rest;
        assert(s =~= seq![105u8] + dec_rep(n) + tail);
        assert(s[0] == 105);
        assert(s.len() >= 2 && s[1] == dec_rep(n)[0]);
        assert(s[1] != 45);
        assert(s.drop_first() =~= dec_rep(n) + tail);
        lemma_sp_number_inverts(n, tail);
        assert(tail[0] == 101);
        assert(tail.drop_first() =~= rest);
    }
}

/// Parsing an encoded list of byte strings appends the items to the accumulator.
proof fn lemma_sp_values_inverts(vs: Seq<Seq<u8>>, acc: Seq<Seq<u8>>, rest: Seq<u8>)
    ensures
        sp_values(enc_values_items(vs) + seq![101u8] + rest, acc) == Some((acc + vs, rest)),
    decreases vs.len(),
{
    let s = enc_values_items(vs) + seq![101u8] + rest;
    if vs.len() == 0 {
        assert(s =~= seq![101u8] + rest);
        assert(s[0] == 101);
        assert(s.drop_first() =~= rest);
        assert(acc + vs =~= acc);
    } else {
        let tail = enc_values_items(vs.drop_first()) + seq![101u8] + rest;
        assert(s =~= enc_bytes(vs[0]) + tail);
        lemma_sp_bytes_inverts(vs[0], tail);
        assert(s[0] == enc_bytes(vs[0])[0]);
        assert(s[0] != 101);
        assert(s.len() > 0);
        assert(tail.len() < s.len());
        lemma_sp_values_inverts(vs.drop_first(), acc.push(vs[0]), rest);
        assert(acc.push(vs[0]) + vs.drop_first() =~= acc + vs);
    }
}


/// Encoding of the `a`-dictionary entries from field `from` onward.
pub open spec fn args_fields_from(a: KrpcArgsView, from: int) -> Seq<u8>
    decreases 5 - from,
{
    if from >= 5 || from < 0 {
        Seq::empty()
    } else {
        (if from == 0 {
            enc_field_bytes(key_id(), a.id)
        } else if from == 1 {
            enc_field_bytes(key_info_hash(), a.info_hash)
        } else if from == 2 {
            enc_field_port(a.port)
        } else if from == 3 {
            enc_field_bytes(key_target(), a.target)
        } else {
            enc_field_bytes(key_token(), a.token)
        }) + args_fields_from(a, from + 1)
    }
}

/// Overlay the fields of `a` from `from` onward onto `acc`.
pub open spec fn args_merge_from(acc: KrpcArgsView, a: KrpcArgsView, from: int) -> KrpcArgsView
    decreases 5 - from,
{
    if from >= 5 || from < 0 {
        acc
    } else {
        let acc2 = if from == 0 {
            match a.id {
                Some(v) => KrpcArgsView { id: Some(v), ..acc },
                None => acc,
            }
        } else if from == 1 {
            match a.info_hash {
                Some(v) => KrpcArgsView { info_hash: Some(v), ..acc },
                None => acc,
            }
        } else if from == 2 {
            match a.port {
                Some(v) => KrpcArgsView { port: Some(v), ..acc },
                None => acc,
            }
        } else if from == 3 {
            match a.target {
                Some(v) => KrpcArgsView { target: Some(v), ..acc },
                None => acc,
            }
        } else {
            match a.token {
                Some(v) => KrpcArgsView { token: Some(v), ..acc },
                None => acc,
            }
        };
        args_merge_from(acc2, a, from + 1)
    }
}

/// Overlaying onto an accumulator that is empty from `from` onward gives
/// exactly the fields of `a` there, and keeps the accumulator before it.
proof fn lemma_args_merge_fields(acc: KrpcArgsView, a: KrpcArgsView, from: int)
    requires
        0 <= from <= 5,
    ensures
        ({
            let m = args_merge_from(acc, a, from);
            &&& (if from <= 0 { m.id == a.id || (a.id is None && m.id == acc.id) } else { m.id == acc.id })
            &&& (if from <= 1 { m.info_hash == a.info_hash || (a.info_hash is None && m.info_hash == acc.info_hash) } else { m.info_hash == acc.info_hash })
            &&& (if from <= 2 { m.port == a.port || (a.port is None && m.port == acc.port) } else { m.port == acc.port })
            &&& (if from <= 3 { m.target == a.target || (a.target is None && m.target == acc.target) } else { m.target == acc.target })
            &&& (if from <= 4 { m.token == a.token || (a.token is None && m.token == acc.token) } else { m.token == acc.token })
        }),
    decreases 5 - from,
{
    if from < 5 {
        let acc2 = if from == 0 {
            match a.id {
                Some(v) => KrpcArgsView { id: Some(v), ..acc },
                None => acc,
            }
        } else if from == 1 {
            match a.info_hash {
                Some(v) => KrpcArgsView { info_hash: Some(v), ..acc },
                None => acc,
            }
        } else if from == 2 {
            match a.port {
                Some(v) => KrpcArgsView { port: Some(v), ..acc },
                None => acc,
            }
        } else if from == 3 {
            match a.target {
                Some(v) => KrpcArgsView { target: Some(v), ..acc },
                None => acc,
            }
        } else {
            match a.token {
                Some(v) => KrpcArgsView { token: Some(v), ..acc },
                None => acc,
            }
        };
        lemma_args_merge_fields(acc2, a, from + 1);
    }
}

/// Parsing the encoded fields of `a` from `from` onward overlays them onto
/// the accumulator and stops at the closing `e`.
#[verifier::rlimit(100)]
proof fn lemma_sp_args_fields_from(
    a: KrpcArgsView,
    from: int,
    min_idx: int,
    acc: KrpcArgsView,
    rest: Seq<u8>,
)
    requires
        0 <= min_idx <= from <= 5,
    ensures
        sp_args_fields(args_fields_from(a, from) + seq![101u8] + rest, min_idx, acc) == Some(
            (args_merge_from(acc, a, from), rest),
        ),
    decreases 5 - from,
{
    let s = args_fields_from(a, from) + seq![101u8] + rest;
    if from == 5 {
        assert(s =~= seq![101u8] + rest);
        assert(s[0] == 101);
        assert(s.drop_first() =~= rest);
    } else {
        let key = if from == 0 {
            key_id()
        } else if from == 1 {
            key_info_hash()
        } else if from == 2 {
            key_port()
        } else if from == 3 {
            key_target()
        } else {
            key_token()
        };
        let present = if from == 0 {
            a.id is Some
        } else if from == 1 {
            a.info_hash is Some
        } else if from == 2 {
            a.port is Some
        } else if from == 3 {
            a.target is Some
        } else {
            a.token is Some
        };
        if !present {
            assert(args_fields_from(a, from) =~= args_fields_from(a, from + 1));
            assert(s =~= args_fields_from(a, from + 1) + seq![101u8] + rest);
            lemma_sp_args_fields_from(a, from + 1, min_idx, acc, rest);
        } else if from == 2 {
            let pv = a.port->0;
            let tail2 = args_fields_from(a, 3) + seq![101u8] + rest;
            let tail1 = enc_int(pv as int) + tail2;
            assert(s =~= enc_bytes(key_port()) + tail1);
            lemma_sp_bytes_inverts(key_port(), tail1);
            assert(s[0] != 101);
            assert(args_key_index(key_port()) == 2);
            lemma_sp_int_inverts(pv as int, tail2);
            lemma_sp_args_fields_from(a, 3, 3, args_set_field(acc, 2, Seq::empty(), pv), rest);
        } else {
            let v = if from == 0 {
                a.id->0
            } else if from == 1 {
                a.info_hash->0
            } else if from == 3 {
                a.target->0
            } else {
                a.token->0
            };
            let tail2 = args_fields_from(a, from + 1) + seq![101u8] + rest;
            let tail1 = enc_bytes(v) + tail2;
            assert(s =~= enc_bytes(key) + tail1);
            lemma_sp_bytes_inverts(key, tail1);
            assert(s[0] != 101);
            assert(args_key_index(key) == from);
            lemma_sp_bytes_inverts(v, tail2);
            lemma_sp_args_fields_from(a, from + 1, from + 1, args_set_field(acc, from, v, 0), rest);
        }
    }
}

/// Parsing the encoding of an `a` dictionary yields that dictionary.
#[verifier::rlimit(100)]
proof fn lemma_sp_args_inverts(a: KrpcArgsView, rest: Seq<u8>)
    ensures
        sp_args(spec_enc_args(a) + rest) == Some((a, rest)),
        spec_enc_args(a).len() >= 2,
        spec_enc_args(a)[0] == 100,
{
    let s = spec_enc_args(a) + rest;
    assert(args_fields_from(a, 5) =~= Seq::<u8>::empty());
    assert(args_fields_from(a, 4) =~= enc_field_bytes(key_token(), a.token));
    assert(args_fields_from(a, 3) =~= enc_field_bytes(key_target(), a.target) + args_fields_from(
        a,
        4,
    ));
    assert(args_fields_from(a, 2) =~= enc_field_port(a.port) + args_fields_from(a, 3));
    assert(args_fields_from(a, 1) =~= enc_field_bytes(key_info_hash(), a.info_hash)
        + args_fields_from(a, 2));
    assert(args_fields_from(a, 0) =~= enc_field_bytes(key_id(), a.id) + args_fields_from(a, 1));
    assert(s =~= seq![100u8] + (args_fields_from(a, 0) + seq![101u8] + rest));
    assert(s[0] == 100);
    assert(s.drop_first() =~= args_fields_from(a, 0) + seq![101u8] + rest);
    lemma_sp_args_fields_from(a, 0, 0, empty_args_view(), rest);
    lemma_args_merge_fields(empty_args_view(), a, 0);
    assert(args_merge_from(empty_args_view(), a, 0) =~= a);
}


/// Encoding of the `r`-dictionary entries from field `from` onward.
pub open spec fn resp_fields_from(r: KrpcResponseView, from: int) -> Seq<u8>
    decreases 4 - from,
{
    if from >= 4 || from < 0 {
        Seq::empty()
    } else {
        (if from == 0 {
            enc_field_bytes(key_id(), r.id)
        } else if from == 1 {
            enc_field_bytes(key_nodes(), r.nodes)
        } else if from == 2 {
            enc_field_bytes(key_token(), r.token)
        } else {
            enc_field_values(r.values)
        }) + resp_fields_from(r, from + 1)
    }
}

/// Overlay the fields of `r` from `from` onward onto `acc`.
pub open spec fn resp_merge_from(acc: KrpcResponseView, r: KrpcResponseView, from: int)
    -> KrpcResponseView
    decreases 4 - from,
{
    if from >= 4 || from < 0 {
        acc
    } else {
        let acc2 = if from == 0 {
            match r.id {
                Some(v) => KrpcResponseView { id: Some(v), ..acc },
                None => acc,
            }
        } else if from == 1 {
            match r.nodes {
                Some(v) => KrpcResponseView { nodes: Some(v), ..acc },
                None => acc,
            }
        } else if from == 2 {
            match r.token {
                Some(v) => KrpcResponseView { token: Some(v), ..acc },
                None => acc,
            }
        } else {
            match r.values {
                Some(v) => KrpcResponseView { values: Some(v), ..acc },
                None => acc,
            }
        };
        resp_merge_from(acc2, r, from + 1)
    }
}

/// Field-by-field account of `resp_merge_from`.
proof fn lemma_resp_merge_fields(acc: KrpcResponseView, r: KrpcResponseView, from: int)
    requires
        0 <= from <= 4,
    ensures
        ({
            let m = resp_merge_from(acc, r, from);
            &&& (if from <= 0 { m.id == r.id || (r.id is None && m.id == acc.id) } else { m.id == acc.id })
            &&& (if from <= 1 { m.nodes == r.nodes || (r.nodes is None && m.nodes == acc.nodes) } else { m.nodes == acc.nodes })
            &&& (if from <= 2 { m.token == r.token || (r.token is None && m.token == acc.token) } else { m.token == acc.token })
            &&& (if from <= 3 { m.values == r.values || (r.values is None && m.values == acc.values) } else { m.values == acc.values })
        }),
    decreases 4 - from,
{
    if from < 4 {
        let acc2 = if from == 0 {
            match r.id {
                Some(v) => KrpcResponseView { id: Some(v), ..acc },
                None => acc,
            }
        } else if from == 1 {
            match r.nodes {
                Some(v) => KrpcResponseView { nodes: Some(v), ..acc },
                None => acc,
            }
        } else if from == 2 {
            match r.token {
                Some(v) => KrpcResponseView { token: Some(v), ..acc },
                None => acc,
            }
        } else {
            match r.values {
                Some(v) => KrpcResponseView { values: Some(v), ..acc },
                None => acc,
            }
        };
        lemma_resp_merge_fields(acc2, r, from + 1);
    }
}

/// Parsing the encoded fields of `r` from `from` onward overlays them onto
/// the accumulator and stops at the closing `e`.
#[verifier::rlimit(100)]
proof fn lemma_sp_resp_fields_from(
    r: KrpcResponseView,
    from: int,
    min_idx: int,
    acc: KrpcResponseView,
    rest: Seq<u8>,
)
    requires
        0 <= min_idx <= from <= 4,
    ensures
        sp_resp_fields(resp_fields_from(r, from) + seq![101u8] + rest, min_idx, acc) == Some(
            (resp_merge_from(acc, r, from), rest),
        ),
    decreases 4 - from,
{
    let s = resp_fields_from(r, from) + seq![101u8] + rest;
    if from == 4 {
        assert(s =~= seq![101u8] + rest);
        assert(s[0] == 101);
        assert(s.drop_first() =~= rest);
    } else {
        let present = if from == 0 {
            r.id is Some
        } else if from == 1 {
            r.nodes is Some
        } else if from == 2 {
            r.token is Some
        } else {
            r.values is Some
        };
        if !present {
            assert(resp_fields_from(r, from) =~= resp_fields_from(r, from + 1));
            assert(s =~= resp_fields_from(r, from + 1) + seq![101u8] + rest);
            lemma_sp_resp_fields_from(r, from + 1, min_idx, acc, rest);
        } else if from == 3 {
            let vs = r.values->0;
            let tail2 = resp_fields_from(r, 4) + seq![101u8] + rest;
            let tail1 = seq![108u8] + enc_values_items(vs) + seq![101u8] + tail2;
            assert(s =~= enc_bytes(key_values()) + tail1);
            lemma_sp_bytes_inverts(key_values(), tail1);
            assert(s[0] != 101);
            assert(resp_key_index(key_values()) == 3);
            assert(tail1[0] == 108);
            assert(tail1.drop_first() =~= enc_values_items(vs) + seq![101u8] + tail2);
            lemma_sp_values_inverts(vs, Seq::empty(), tail2);
            assert(Seq::<Seq<u8>>::empty() + vs =~= vs);
            lemma_sp_resp_fields_from(r, 4, 4, resp_set_field(acc, 3, Seq::empty(), vs), rest);
        } else {
            let key = if from == 0 {
                key_id()
            } else if from == 1 {
                key_nodes()
            } else {
                key_token()
            };
            let v = if from == 0 {
                r.id->0
            } else if from == 1 {
                r.nodes->0
            } else {
                r.token->0
            };
            let tail2 = resp_fields_from(r, from + 1) + seq![101u8] + rest;
            let tail1 = enc_bytes(v) + tail2;
            assert(s =~= enc_bytes(key) + tail1);
            lemma_sp_bytes_inverts(key, tail1);
            assert(s[0] != 101);
            assert(resp_key_index(key) == from);
            lemma_sp_bytes_inverts(v, tail2);
            lemma_sp_resp_fields_from(
                r,
                from + 1,
                from + 1,
                resp_set_field(acc, from, v, Seq::empty()),
                rest,
            );
        }
    }
}

/// Parsing the encoding of an `r` dictionary yields that dictionary.
#[verifier::rlimit(100)]
proof fn lemma_sp_resp_inverts(r: KrpcResponseView, rest: Seq<u8>)
    ensures
        sp_resp(spec_enc_resp(r) + rest) == Some((r, rest)),
        spec_enc_resp(r).len() >= 2,
        spec_enc_resp(r)[0] == 100,
{
    let s = spec_enc_resp(r) + rest;
    assert(resp_fields_from(r, 4) =~= Seq::<u8>::empty());
    assert(resp_fields_from(r, 3) =~= enc_field_values(r.values));
    assert(resp_fields_from(r, 2) =~= enc_field_bytes(key_token(), r.token) + resp_fields_from(
        r,
        3,
    ));
    assert(resp_fields_from(r, 1) =~= enc_field_bytes(key_nodes(), r.nodes) + resp_fields_from(
        r,
        2,
    ));
    assert(resp_fields_from(r, 0) =~= enc_field_bytes(key_id(), r.id) + resp_fields_from(r, 1));
    assert(s =~= seq![100u8] + (resp_fields_from(r, 0) + seq![101u8] + rest));
    assert(s[0] == 100);
    assert(s.drop_first() =~= resp_fields_from(r, 0) + seq![101u8] + rest);
    lemma_sp_resp_fields_from(r, 0, 0, empty_resp_view(), rest);
    lemma_resp_merge_fields(empty_resp_view(), r, 0);
    assert(resp_merge_from(empty_resp_view(), r, 0) =~= r);
}


/// The error code of an envelope fits in a 64-bit integer.
pub open spec fn msg_code_bounded(m: KrpcMessageView) -> bool {
    match m.e {
        Some((c, _)) => -0x8000_0000_0000_0000 <= c <= 0x7fff_ffff_ffff_ffff,
        None => true,
    }
}

/// Naming a query kind and reading the name back is the identity.
proof fn lemma_qkind_roundtrip(k: KrpcQueryKind)
    ensures
        qkind_of_bytes(qkind_bytes(k)) == Some(k),
{
    assert(qkind_bytes(KrpcQueryKind::Ping).len() == 4);
    assert(qkind_bytes(KrpcQueryKind::FindNode).len() == 9);
    assert(qkind_bytes(KrpcQueryKind::GetPeers).len() == 9);
    assert(qkind_bytes(KrpcQueryKind::AnnouncePeer).len() == 13);
    assert(qkind_bytes(KrpcQueryKind::FindNode)[0] == 102);
    assert(qkind_bytes(KrpcQueryKind::GetPeers)[0] == 103);
}

/// Naming a message type and reading the name back is the identity.
proof fn lemma_ytype_roundtrip(y: KrpcMessageType)
    ensures
        ytype_of_bytes(ytype_bytes(y)) == Some(y),
{
    assert(seq![113u8][0] == 113);
    assert(seq![114u8][0] == 114);
    assert(seq![101u8][0] == 101);
}

/// The canonical positions of the six envelope keys.
proof fn lemma_msg_key_index_vals()
    ensures
        msg_key_index(seq![97u8]) == 0,
        msg_key_index(seq![101u8]) == 1,
        msg_key_index(seq![113u8]) == 2,
        msg_key_index(seq![114u8]) == 3,
        msg_key_index(seq![116u8]) == 4,
        msg_key_index(seq![121u8]) == 5,
{
    assert(seq![97u8][0] == 97);
    assert(seq![101u8][0] == 101);
    assert(seq![113u8][0] == 113);
    assert(seq![114u8][0] == 114);
    assert(seq![116u8][0] == 116);
    assert(seq![121u8][0] == 121);
}

/// Encoding of the envelope entries from field `from` onward.
pub open spec fn msg_fields_from(m: KrpcMessageView, from: int) -> Seq<u8>
    decreases 6 - from,
{
    if from >= 6 || from < 0 {
        Seq::empty()
    } else {
        (if from == 0 {
            enc_msg_a(m.a)
        } else if from == 1 {
            enc_msg_e(m.e)
        } else if from == 2 {
            enc_msg_q(m.q)
        } else if from == 3 {
            enc_msg_r(m.r)
        } else if from == 4 {
            enc_bytes(seq![116u8]) + enc_bytes(m.t)
        } else {
            enc_bytes(seq![121u8]) + enc_bytes(ytype_bytes(m.y))
        }) + msg_fields_from(m, from + 1)
    }
}

/// Overlay the envelope entries of `m` from `from` onward onto `acc`.
pub open spec fn msg_merge_from(acc: KrpcPartial, m: KrpcMessageView, from: int) -> KrpcPartial
    decreases 6 - from,
{
    if from >= 6 || from < 0 {
        acc
    } else {
        let acc2 = if from == 0 {
            match m.a {
                Some(v) => KrpcPartial { a: Some(v), ..acc },
                None => acc,
            }
        } else if from == 1 {
            match m.e {
                Some(v) => KrpcPartial { e: Some(v), ..acc },
                None => acc,
            }
        } else if from == 2 {
            match m.q {
                Some(v) => KrpcPartial { q: Some(v), ..acc },
                None => acc,
            }
        } else if from == 3 {
            match m.r {
                Some(v) => KrpcPartial { r: Some(v), ..acc },
                None => acc,
            }
        } else if from == 4 {
            KrpcPartial { t: Some(m.t), ..acc }
        } else {
            KrpcPartial { y: Some(m.y), ..acc }
        };
        msg_merge_from(acc2, m, from + 1)
    }
}

/// Field-by-field account of `msg_merge_from`.
proof fn lemma_msg_merge_fields(acc: KrpcPartial, m: KrpcMessageView, from: int)
    requires
        0 <= from <= 6,
    ensures
        ({
            let p = msg_merge_from(acc, m, from);
            &&& (if from <= 0 { p.a == m.a || (m.a is None && p.a == acc.a) } else { p.a == acc.a })
            &&& (if from <= 1 { p.e == m.e || (m.e is None && p.e == acc.e) } else { p.e == acc.e })
            &&& (if from <= 2 { p.q == m.q || (m.q is None && p.q == acc.q) } else { p.q == acc.q })
            &&& (if from <= 3 { p.r == m.r || (m.r is None && p.r == acc.r) } else { p.r == acc.r })
            &&& (if from <= 4 { p.t == Some(m.t) } else { p.t == acc.t })
            &&& (if from <= 5 { p.y == Some(m.y) } else { p.y == acc.y })
        }),
    decreases 6 - from,
{
    if from < 6 {
        let acc2 = if from == 0 {
            match m.a {
                Some(v) => KrpcPartial { a: Some(v), ..acc },
                None => acc,
            }
        } else if from == 1 {
            match m.e {
                Some(v) => KrpcPartial { e: Some(v), ..acc },
                None => acc,
            }
        } else if from == 2 {
            match m.q {
                Some(v) => KrpcPartial { q: Some(v), ..acc },
                None => acc,
            }
        } else if from == 3 {
            match m.r {
                Some(v) => KrpcPartial { r: Some(v), ..acc },
                None => acc,
            }
        } else if from == 4 {
            KrpcPartial { t: Some(m.t), ..acc }
        } else {
            KrpcPartial { y: Some(m.y), ..acc }
        };
        lemma_msg_merge_fields(acc2, m, from + 1);
    }
}

/// Parsing the encoded `t`, `y` and closing entries of the envelope.
#[verifier::rlimit(100)]
proof fn lemma_sp_msg_fields_tail(
    m: KrpcMessageView,
    from: int,
    min_idx: int,
    acc: KrpcPartial,
    rest: Seq<u8>,
)
    requires
        0 <= min_idx <= from,
        4 <= from <= 6,
    ensures
        sp_msg_fields(msg_fields_from(m, from) + seq![101u8] + rest, min_idx, acc) == Some(
            (msg_merge_from(acc, m, from), rest),
        ),
    decreases 6 - from,
{
    let s = msg_fields_from(m, from) + seq![101u8] + rest;
    if from == 6 {
        assert(s =~= seq![101u8] + rest);
        assert(s[0] == 101);
        assert(s.drop_first() =~= rest);
    } else if from == 4 {
        let tail2 = msg_fields_from(m, 5) + seq![101u8] + rest;
        let tail1 = enc_bytes(m.t) + tail2;
        assert(s =~= enc_bytes(seq![116u8]) + tail1);
        lemma_sp_bytes_inverts(seq![116u8], tail1);
        assert(s[0] != 101);
        lemma_msg_key_index_vals();
        lemma_sp_bytes_inverts(m.t, tail2);
        lemma_sp_msg_fields_tail(m, 5, 5, KrpcPartial { t: Some(m.t), ..acc }, rest);
    } else {
        let tail2 = msg_fields_from(m, 6) + seq![101u8] + rest;
        let tail1 = enc_bytes(ytype_bytes(m.y)) + tail2;
        assert(msg_fields_from(m, 6) =~= Seq::<u8>::empty());
        assert(s =~= enc_bytes(seq![121u8]) + tail1);
        lemma_sp_bytes_inverts(seq![121u8], tail1);
        assert(s[0] != 101);
        lemma_msg_key_index_vals();
        lemma_sp_bytes_inverts(ytype_bytes(m.y), tail2);
        lemma_ytype_roundtrip(m.y);
        lemma_sp_msg_fields_tail(m, 6, 6, KrpcPartial { y: Some(m.y), ..acc }, rest);
    }
}

/// One parsing step: the `a` entry reduces to its continuation.
#[verifier::rlimit(100)]
proof fn lemma_msg_step_a(av: KrpcArgsView, acc: KrpcPartial, tail2: Seq<u8>)
    ensures
        sp_msg_fields(enc_bytes(seq![97u8]) + spec_enc_args(av) + tail2, 0, acc)
            == sp_msg_fields(tail2, 1, KrpcPartial { a: Some(av), ..acc }),
{
    let s = enc_bytes(seq![97u8]) + spec_enc_args(av) + tail2;
    let tail1 = spec_enc_args(av) + tail2;
    assert(s =~= enc_bytes(seq![97u8]) + tail1);
    lemma_sp_bytes_inverts(seq![97u8], tail1);
    assert(s[0] != 101);
    lemma_msg_key_index_vals();
    lemma_sp_args_inverts(av, tail2);
}

/// One parsing step: the `e` entry reduces to its continuation.
#[verifier::rlimit(100)]
proof fn lemma_msg_step_e(c: int, msg: Seq<u8>, min_idx: int, acc: KrpcPartial, tail2: Seq<u8>)
    requires
        0 <= min_idx <= 1,
        -0x8000_0000_0000_0000 <= c <= 0x7fff_ffff_ffff_ffff,
    ensures
        sp_msg_fields(
            enc_bytes(seq![101u8]) + (seq![108u8] + enc_int(c) + enc_bytes(msg) + seq![101u8])
                + tail2,
            min_idx,
            acc,
        ) == sp_msg_fields(tail2, 2, KrpcPartial { e: Some((c, msg)), ..acc }),
{
    let s = enc_bytes(seq![101u8]) + (seq![108u8] + enc_int(c) + enc_bytes(msg) + seq![101u8])
        + tail2;
    let tail1 = seq![108u8] + enc_int(c) + enc_bytes(msg) + seq![101u8] + tail2;
    assert(s =~= enc_bytes(seq![101u8]) + tail1);
    lemma_sp_bytes_inverts(seq![101u8], tail1);
    assert(s[0] != 101);
    lemma_msg_key_index_vals();
    assert(tail1[0] == 108);
    let after_l = enc_int(c) + (enc_bytes(msg) + seq![101u8] + tail2);
    assert(tail1.drop_first() =~= after_l);
    lemma_sp_int_inverts(c, enc_bytes(msg) + seq![101u8] + tail2);
    lemma_sp_bytes_inverts(msg, seq![101u8] + tail2);
    assert(enc_bytes(msg) + seq![101u8] + tail2 =~= enc_bytes(msg) + (seq![101u8] + tail2));
    assert((seq![101u8] + tail2)[0] == 101);
    assert((seq![101u8] + tail2).drop_first() =~= tail2);
}

/// One parsing step: the `q` entry reduces to its continuation.
#[verifier::rlimit(100)]
proof fn lemma_msg_step_q(qv: KrpcQueryKind, min_idx: int, acc: KrpcPartial, tail2: Seq<u8>)
    requires
        0 <= min_idx <= 2,
    ensures
        sp_msg_fields(enc_bytes(seq![113u8]) + enc_bytes(qkind_bytes(qv)) + tail2, min_idx, acc)
            == sp_msg_fields(tail2, 3, KrpcPartial { q: Some(qv), ..acc }),
{
    let s = enc_bytes(seq![113u8]) + enc_bytes(qkind_bytes(qv)) + tail2;
    let tail1 = enc_bytes(qkind_bytes(qv)) + tail2;
    assert(s =~= enc_bytes(seq![113u8]) + tail1);
    lemma_sp_bytes_inverts(seq![113u8], tail1);
    assert(s[0] != 101);
    lemma_msg_key_index_vals();
    lemma_sp_bytes_inverts(qkind_bytes(qv), tail2);
    lemma_qkind_roundtrip(qv);
}

/// One parsing step: the `r` entry reduces to its continuation.
#[verifier::rlimit(100)]
proof fn lemma_msg_step_r(rv: KrpcResponseView, min_idx: int, acc: KrpcPartial, tail2: Seq<u8>)
    requires
        0 <= min_idx <= 3,
    ensures
        sp_msg_fields(enc_bytes(seq![114u8]) + spec_enc_resp(rv) + tail2, min_idx, acc)
            == sp_msg_fields(tail2, 4, KrpcPartial { r: Some(rv), ..acc }),
{
    let s = enc_bytes(seq![114u8]) + spec_enc_resp(rv) + tail2;
    let tail1 = spec_enc_resp(rv) + tail2;
    assert(s =~= enc_bytes(seq![114u8]) + tail1);
    lemma_sp_bytes_inverts(seq![114u8], tail1);
    assert(s[0] != 101);
    lemma_msg_key_index_vals();
    lemma_sp_resp_inverts(rv, tail2);
}

/// Parsing the encoded envelope entries from `from` onward overlays them onto
/// the accumulator and stops at the closing `e`.
#[verifier::rlimit(100)]
proof fn lemma_sp_msg_fields_from(
    m: KrpcMessageView,
    from: int,
    min_idx: int,
    acc: KrpcPartial,
    rest: Seq<u8>,
)
    requires
        0 <= min_idx <= from <= 4,
        from == 0 ==> min_idx == 0,
        msg_code_bounded(m),
    ensures
        sp_msg_fields(msg_fields_from(m, from) + seq![101u8] + rest, min_idx, acc) == Some(
            (msg_merge_from(acc, m, from), rest),
        ),
    decreases 4 - from,
{
    let s = msg_fields_from(m, from) + seq![101u8] + rest;
    if from == 4 {
        lemma_sp_msg_fields_tail(m, 4, min_idx, acc, rest);
    } else if from == 0 && m.a is None {
        assert(msg_fields_from(m, 0) =~= msg_fields_from(m, 1));
        assert(s =~= msg_fields_from(m, 1) + seq![101u8] + rest);
        lemma_sp_msg_fields_from(m, 1, min_idx, acc, rest);
    } else if from == 0 {
        let av = m.a->0;
        let tail2 = msg_fields_from(m, 1) + seq![101u8] + rest;
        assert(s =~= enc_bytes(seq![97u8]) + spec_enc_args(av) + tail2);
        lemma_msg_step_a(av, acc, tail2);
        lemma_sp_msg_fields_from(m, 1, 1, KrpcPartial { a: Some(av), ..acc }, rest);
    } else if from == 1 && m.e is None {
        assert(msg_fields_from(m, 1) =~= msg_fields_from(m, 2));
        assert(s =~= msg_fields_from(m, 2) + seq![101u8] + rest);
        lemma_sp_msg_fields_from(m, 2, min_idx, acc, rest);
    } else if from == 1 {
        let ev = m.e->0;
        let tail2 = msg_fields_from(m, 2) + seq![101u8] + rest;
        assert(s =~= enc_bytes(seq![101u8]) + (seq![108u8] + enc_int(ev.0) + enc_bytes(ev.1)
            + seq![101u8]) + tail2);
        lemma_msg_step_e(ev.0, ev.1, min_idx, acc, tail2);
        lemma_sp_msg_fields_from(m, 2, 2, KrpcPartial { e: Some(ev), ..acc }, rest);
    } else if from == 2 && m.q is None {
        assert(msg_fields_from(m, 2) =~= msg_fields_from(m, 3));
        assert(s =~= msg_fields_from(m, 3) + seq![101u8] + rest);
        lemma_sp_msg_fields_from(m, 3, min_idx, acc, rest);
    } else if from == 2 {
        let qv = m.q->0;
        let tail2 = msg_fields_from(m, 3) + seq![101u8] + rest;
        assert(s =~= enc_bytes(seq![113u8]) + enc_bytes(qkind_bytes(qv)) + tail2);
        lemma_msg_step_q(qv, min_idx, acc, tail2);
        lemma_sp_msg_fields_from(m, 3, 3, KrpcPartial { q: Some(qv), ..acc }, rest);
    } else if from == 3 && m.r is None {
        assert(msg_fields_from(m, 3) =~= msg_fields_from(m, 4));
        assert(s =~= msg_fields_from(m, 4) + seq![101u8] + rest);
        lemma_sp_msg_fields_from(m, 4, min_idx, acc, rest);
    } else {
        let rv = m.r->0;
        let tail2 = msg_fields_from(m, 4) + seq![101u8] + rest;
        assert(s =~= enc_bytes(seq![114u8]) + spec_enc_resp(rv) + tail2);
        lemma_msg_step_r(rv, min_idx, acc, tail2);
        lemma_sp_msg_fields_from(m, 4, 4, KrpcPartial { r: Some(rv), ..acc }, rest);
    }
}

/// Decoding the canonical encoding of a well-formed envelope gives it back.
///
/// This is the round-trip law for the KRPC codec: together with the contracts
/// of `encode_krpc` and `decode_krpc` it says that for every well-formed
/// message whose error code fits in 64 bits, `decode_krpc(encode_krpc(m))`
/// returns a message structurally equal to `m`.
#[verifier::rlimit(100)]
pub proof fn lemma_krpc_round_trip(m: KrpcMessageView)
    requires
        wf_msg(m),
        msg_code_bounded(m),
    ensures
        sp_decode(spec_enc_msg(m)) == Some(m),
{
    let s = spec_enc_msg(m);
    assert(msg_fields_from(m, 6) =~= Seq::<u8>::empty());
    assert(msg_fields_from(m, 5) =~= enc_bytes(seq![121u8]) + enc_bytes(ytype_bytes(m.y)));
    assert(msg_fields_from(m, 4) =~= enc_bytes(seq![116u8]) + enc_bytes(m.t) + msg_fields_from(
        m,
        5,
    ));
    assert(msg_fields_from(m, 3) =~= enc_msg_r(m.r) + msg_fields_from(m, 4));
    assert(msg_fields_from(m, 2) =~= enc_msg_q(m.q) + msg_fields_from(m, 3));
    assert(msg_fields_from(m, 1) =~= enc_msg_e(m.e) + msg_fields_from(m, 2));
    assert(msg_fields_from(m, 0) =~= enc_msg_a(m.a) + msg_fields_from(m, 1));
    assert(s =~= seq![100u8] + (msg_fields_from(m, 0) + seq![101u8] + Seq::<u8>::empty()));
    assert(s[0] == 100);
    assert(s.drop_first() =~= msg_fields_from(m, 0) + seq![101u8] + Seq::<u8>::empty());
    lemma_sp_msg_fields_from(m, 0, 0, empty_partial(), Seq::empty());
    lemma_msg_merge_fields(empty_partial(), m, 0);
    let p = msg_merge_from(empty_partial(), m, 0);
    assert(p.t == Some(m.t) && p.y == Some(m.y));
    let m2 = KrpcMessageView { t: p.t->0, y: p.y->0, q: p.q, a: p.a, r: p.r, e: p.e };
    assert(m2 =~= m);
}


// ---- skipping unknown dictionary entries ------------------------------------

/// Skip one byte string: `<len>:<bytes>`, canonical length.
pub open spec fn sp_skip_string(s: Seq<u8>) -> Option<Seq<u8>> {
    match sp_number(s) {
        Some((n, rest)) => {
            if rest.len() >= 1 && rest[0] == 58 && n + 1 <= rest.len() {
                Some(rest.skip(n as int + 1))
            } else {
                None
            }
        },
        None => None,
    }
}

/// Skip one integer: `i<dec>e`, of any magnitude.
pub open spec fn sp_skip_int(s: Seq<u8>) -> Option<Seq<u8>> {
    if s.len() >= 2 && s[0] == 105 && s[1] == 45 {
        match sp_number(s.skip(2)) {
            Some((n, rest)) => {
                if n >= 1 && rest.len() >= 1 && rest[0] == 101 {
                    Some(rest.drop_first())
                } else {
                    None
                }
            },
            None => None,
        }
    } else if s.len() >= 1 && s[0] == 105 {
        match sp_number(s.drop_first()) {
            Some((n, rest)) => {
                if rest.len() >= 1 && rest[0] == 101 {
                    Some(rest.drop_first())
                } else {
                    None
                }
            },
            None => None,
        }
    } else {
        None
    }
}

/// Walk tokens until the `depth` open containers have all been closed.
pub open spec fn sp_skip_tokens(s: Seq<u8>, depth: nat) -> Option<Seq<u8>>
    decreases s.len(),
{
    if depth == 0 {
        Some(s)
    } else if s.len() == 0 {
        None
    } else if s[0] == 101 {
        sp_skip_tokens(s.drop_first(), (depth - 1) as nat)
    } else if s[0] == 108 || s[0] == 100 {
        sp_skip_tokens(s.drop_first(), depth + 1)
    } else if s[0] == 105 {
        match sp_skip_int(s) {
            Some(rest) => {
                if rest.len() < s.len() {
                    sp_skip_tokens(rest, depth)
                } else {
                    None
                }
            },
            None => None,
        }
    } else {
        match sp_skip_string(s) {
            Some(rest) => {
                if rest.len() < s.len() {
                    sp_skip_tokens(rest, depth)
                } else {
                    None
                }
            },
            None => None,
        }
    }
}

/// Skip one bencode value of any kind.
pub open spec fn sp_skip_value(s: Seq<u8>) -> Option<Seq<u8>> {
    if s.len() == 0 {
        None
    } else if s[0] == 108 || s[0] == 100 {
        sp_skip_tokens(s.drop_first(), 1)
    } else if s[0] == 105 {
        sp_skip_int(s)
    } else if s[0] == 101 {
        None
    } else {
        sp_skip_string(s)
    }
}

/// Skip one byte string at `pos`.
fn p_skip_string(data: &Vec<u8>, pos: usize) -> (r: Option<usize>)
    requires
        pos <= data@.len(),
    ensures
        match r {
            Some(np) => pos < np <= data@.len() && sp_skip_string(data@.skip(pos as int)) == Some(
                data@.skip(np as int),
            ),
            None => sp_skip_string(data@.skip(pos as int)) is None,
        },
{
    let ghost s = data@.skip(pos as int);
    let len = data.len();
    match p_number(data, pos, len as u128) {
        Some((nv, i)) => {
            let n = nv as usize;
            if i >= len {
                return None;
            }
            proof {
                assert(data@.skip(i as int)[0] == data@[i as int]);
            }
            if data[i] != 58 {
                return None;
            }
            if n > len - (i + 1) {
                return None;
            }
            proof {
                assert(data@.skip(i as int).skip(n as int + 1) =~= data@.skip(i + 1 + n as int));
            }
            Some(i + 1 + n)
        },
        None => {
            proof {
                if sp_number(s) is Some {
                    let k = sp_digit_run(s);
                    lemma_digit_run_le(s);
                    let nr = sp_number(s)->0;
                    assert(nr.1 == s.skip(k as int));
                    assert(nr.1.len() <= s.len());
                }
            }
            None
        },
    }
}

/// Skip one integer at `pos`.
fn p_skip_int(data: &Vec<u8>, pos: usize) -> (r: Option<usize>)
    requires
        pos <= data@.len(),
    ensures
        match r {
            Some(np) => pos < np <= data@.len() && sp_skip_int(data@.skip(pos as int)) == Some(
                data@.skip(np as int),
            ),
            None => sp_skip_int(data@.skip(pos as int)) is None,
        },
{
    let ghost s = data@.skip(pos as int);
    let len = data.len();
    if pos >= len || data[pos] != 105 {
        if pos < len {
            proof {
                assert(s[0] == data@[pos as int]);
            }
        }
        return None;
    }
    proof {
        assert(s[0] == data@[pos as int]);
        if pos + 1 < len {
            assert(s[1] == data@[pos as int + 1]);
        }
    }
    let neg = pos + 1 < len && data[pos + 1] == 45;
    let dstart = if neg {
        pos + 2
    } else {
        pos + 1
    };
    proof {
        if neg {
            assert(s.skip(2) =~= data@.skip(pos + 2 as int));
        } else {
            assert(s.drop_first() =~= data@.skip(pos + 1 as int));
        }
    }
    // Scan the digit run directly: the value itself is not needed.
    let mut i: usize = dstart;
    while i < len && 48 <= data[i] && data[i] <= 57
        invariant
            dstart <= i <= len,
            len == data@.len(),
            forall|j: int| dstart <= j < i ==> is_digit(data@[j]),
        decreases len - i,
    {
        i += 1;
    }
    let ghost d = data@.skip(dstart as int);
    proof {
        assert(forall|j: int| 0 <= j < i - dstart ==> is_digit(d[j]));
        if i - dstart < d.len() {
            assert(d[i - dstart] == data@[i as int]);
            assert(!is_digit(d[i - dstart]));
        }
        lemma_digit_run_chars(d, i - dstart);
    }
    let ghost run = i - dstart;
    if i == dstart {
        return None;
    }
    if data[dstart] == 48 && i > dstart + 1 {
        assert(d[0] == 48);
        return None;
    }
    if neg && i == dstart + 1 && data[dstart] == 48 {
        // A minus sign followed by the single digit zero denotes no
        // positive magnitude.
        proof {
            assert(d.take(1) =~= seq![48u8]);
            assert(digits_val(Seq::<u8>::empty()) == 0);
            assert(seq![48u8].drop_last() =~= Seq::<u8>::empty());
            assert(seq![48u8].last() == 48);
            assert(digits_val(seq![48u8]) == 0);
        }
        return None;
    }
    proof {
        if neg {
            // The canonical run is not the single digit zero, so its value
            // is at least one.
            if run == 1 {
                assert(d.take(1) =~= seq![d[0]]);
                assert(digits_val(d.take(1)) >= 1);
            } else {
                assert(d[0] != 48 && is_digit(d[0]));
                assert(d.take(1) =~= seq![d[0]]);
                assert(digits_val(d.take(1)) >= 1);
                assert(forall|j: int| 0 <= j < run ==> is_digit(#[trigger] d.take(run as int)[j]));
                assert(d.take(run as int).take(1) =~= d.take(1));
                lemma_digits_val_prefix_le(d.take(run as int), 1);
            }
        }
    }
    if i >= len {
        return None;
    }
    proof {
        assert(d.skip(run as int)[0] == data@[i as int]);
    }
    if data[i] != 101 {
        return None;
    }
    proof {
        assert(d.skip(run as int).drop_first() =~= data@.skip(i + 1 as int));
    }
    Some(i + 1)
}

/// Skip one bencode value at `pos`.
fn p_skip_value(data: &Vec<u8>, pos: usize) -> (r: Option<usize>)
    requires
        pos <= data@.len(),
    ensures
        match r {
            Some(np) => pos < np <= data@.len() && sp_skip_value(data@.skip(pos as int)) == Some(
                data@.skip(np as int),
            ),
            None => sp_skip_value(data@.skip(pos as int)) is None,
        },
{
    let len = data.len();
    if pos >= len {
        return None;
    }
    proof {
        assert(data@.skip(pos as int)[0] == data@[pos as int]);
    }
    let b = data[pos];
    if b == 108 || b == 100 {
        proof {
            assert(data@.skip(pos as int).drop_first() =~= data@.skip(pos + 1 as int));
        }
        let mut cur: usize = pos + 1;
        let mut depth: usize = 1;
        loop
            invariant
                pos + 1 <= cur <= len,
                len == data@.len(),
                1 <= depth <= len,
                sp_skip_value(data@.skip(pos as int)) == sp_skip_tokens(
                    data@.skip(cur as int),
                    depth as nat,
                ),
            decreases len - cur,
        {
            if cur >= len {
                proof {
                    assert(data@.skip(cur as int).len() == 0);
                }
                return None;
            }
            proof {
                assert(data@.skip(cur as int)[0] == data@[cur as int]);
            }
            let t = data[cur];
            if t == 101 {
                proof {
                    assert(data@.skip(cur as int).drop_first() =~= data@.skip(cur + 1 as int));
                }
                if depth == 1 {
                    proof {
                        assert(sp_skip_tokens(data@.skip(cur + 1 as int), 0) == Some(
                            data@.skip(cur + 1 as int),
                        ));
                    }
                    return Some(cur + 1);
                }
                depth -= 1;
                cur += 1;
            } else if t == 108 || t == 100 {
                proof {
                    assert(data@.skip(cur as int).drop_first() =~= data@.skip(cur + 1 as int));
                }
                if depth >= len {
                    // More open containers than bytes cannot close.
                    proof {
                        lemma_sp_skip_tokens_depth_bound(data@.skip(cur + 1 as int), (depth + 1) as nat);
                    }
                    return None;
                }
                depth += 1;
                cur += 1;
            } else if t == 105 {
                match p_skip_int(data, cur) {
                    Some(np) => {
                        cur = np;
                    },
                    None => {
                        return None;
                    },
                }
            } else {
                match p_skip_string(data, cur) {
                    Some(np) => {
                        cur = np;
                    },
                    None => {
                        return None;
                    },
                }
            }
        }
    } else if b == 105 {
        match p_skip_int(data, pos) {
            Some(np) => Some(np),
            None => None,
        }
    } else if b == 101 {
        None
    } else {
        match p_skip_string(data, pos) {
            Some(np) => Some(np),
            None => None,
        }
    }
}

/// More open containers than remaining bytes can never all be closed.
proof fn lemma_sp_skip_tokens_depth_bound(s: Seq<u8>, depth: nat)
    requires
        depth > s.len(),
    ensures
        sp_skip_tokens(s, depth) is None,
    decreases s.len(),
{
    if s.len() == 0 {
    } else if s[0] == 101 {
        lemma_sp_skip_tokens_depth_bound(s.drop_first(), (depth - 1) as nat);
    } else if s[0] == 108 || s[0] == 100 {
        lemma_sp_skip_tokens_depth_bound(s.drop_first(), depth + 1);
    } else if s[0] == 105 {
        if sp_skip_int(s) is Some {
            let rest = sp_skip_int(s)->0;
            if rest.len() < s.len() {
                lemma_sp_skip_tokens_depth_bound(rest, depth);
            }
        }
    } else {
        if sp_skip_string(s) is Some {
            let rest = sp_skip_string(s)->0;
            if rest.len() < s.len() {
                lemma_sp_skip_tokens_depth_bound(rest, depth);
            }
        }
    }
}

} // verus!
