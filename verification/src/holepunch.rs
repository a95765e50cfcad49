//! UDP hole-punch packets and the decisions of the punch exchange.
//!
//! Probe packets are a bare preamble that only creates NAT bindings; punch
//! packets append a Blake2s MAC keyed on a pre-shared 32-byte session key,
//! so that only a peer holding the same key can complete the exchange.

use vstd::prelude::*;

use blake2::digest::{KeyInit, Mac};
use blake2::Blake2sMac256;

verus! {

/// A candidate address for a remote peer.
pub struct Candidate {
    pub addr: crate::dht::Endpoint,
    pub kind: CandidateKind,
}

#[derive(Clone, Copy, Debug, PartialEq, Eq, Structural)]
pub enum CandidateKind {
    /// Private LAN address.
    Lan,
    /// Public address observed by a third party.
    Wan,
    /// Relay / rendezvous.
    Relay,
}

#[derive(Debug)]
pub enum HolepunchError {
    Io(String),
    Timeout,
    NoViableCandidates,
    AuthenticationFailed,
}

/// The probe preamble `HYPERSWARM_PROBE`.
pub open spec fn probe_message() -> Seq<u8> {
    seq![
        72u8, 89u8, 80u8, 69u8, 82u8, 83u8, 87u8, 65u8, 82u8, 77u8, 95u8, 80u8, 82u8, 79u8, 66u8,
        69u8,
    ]
}

/// The punch preamble `HYPERSWARM_PUNCH`.
pub open spec fn punch_message() -> Seq<u8> {
    seq![
        72u8, 89u8, 80u8, 69u8, 82u8, 83u8, 87u8, 65u8, 82u8, 77u8, 95u8, 80u8, 85u8, 78u8, 67u8,
        72u8,
    ]
}

/// The probe packet bytes.
pub fn probe_packet() -> (r: Vec<u8>)
    ensures
        r@ == probe_message(),
        r@.len() == 16,
{
    let mut v: Vec<u8> = Vec::new();
    v.push(72);
    v.push(89);
    v.push(80);
    v.push(69);
    v.push(82);
    v.push(83);
    v.push(87);
    v.push(65);
    v.push(82);
    v.push(77);
    v.push(95);
    v.push(80);
    v.push(82);
    v.push(79);
    v.push(66);
    v.push(69);
    assert(v@ =~= probe_message());
    v
}

/// The punch preamble bytes.
fn punch_prefix() -> (r: Vec<u8>)
    ensures
        r@ == punch_message(),
        r@.len() == 16,
{
    let mut v: Vec<u8> = Vec::new();
    v.push(72);
    v.push(89);
    v.push(80);
    v.push(69);
    v.push(82);
    v.push(83);
    v.push(87);
    v.push(65);
    v.push(82);
    v.push(77);
    v.push(95);
    v.push(80);
    v.push(85);
    v.push(78);
    v.push(67);
    v.push(72);
    assert(v@ =~= punch_message());
    v
}

/// What Blake2s-MAC-256 returns for the given 32-byte key and message.
pub uninterp spec fn blake2s_mac_of(key: Seq<u8>, msg: Seq<u8>) -> Seq<u8>;

/// Relies on blake2::Blake2sMac256 (keyed): the 32-byte tag is a function of
/// the key and message alone.
#[verifier::external_body]
fn blake2s_mac(key: &Vec<u8>, msg: &Vec<u8>) -> (r: Vec<u8>)
    requires
        key@.len() == 32,
    ensures
        r@ == blake2s_mac_of(key@, msg@),
        r@.len() == 32,
{
    let mut mac = <Blake2sMac256 as KeyInit>::new_from_slice(key.as_slice())
        .expect("a 32-byte key is valid for Blake2sMac256");
    Mac::update(&mut mac, msg.as_slice());
    Mac::finalize(mac).into_bytes().to_vec()
}

/// Relies on blake2::Blake2sMac256 and Mac::verify_slice: the check accepts
/// exactly the tag of the key and message, compared in constant time.
#[verifier::external_body]
fn blake2s_mac_verify(key: &Vec<u8>, msg: &Vec<u8>, tag: &Vec<u8>) -> (r: bool)
    requires
        key@.len() == 32,
    ensures
        r == (tag@ == blake2s_mac_of(key@, msg@)),
{
    let mut mac = <Blake2sMac256 as KeyInit>::new_from_slice(key.as_slice())
        .expect("a 32-byte key is valid for Blake2sMac256");
    Mac::update(&mut mac, msg.as_slice());
    Mac::verify_slice(mac, tag.as_slice()).is_ok()
}

/// An authenticated punch packet: preamble then tag.
pub open spec fn punch_packet_of(key: Seq<u8>) -> Seq<u8> {
    punch_message() + blake2s_mac_of(key, punch_message())
}

/// A packet that a holder of `key` accepts as an authenticated punch.
pub open spec fn valid_punch(key: Seq<u8>, data: Seq<u8>) -> bool {
    data.len() == 48 && data.take(16) == punch_message() && data.skip(16) == blake2s_mac_of(
        key,
        punch_message(),
    )
}

/// What a punch attempt concludes from one incoming datagram.
#[derive(Clone, Copy, Debug, PartialEq, Eq, Structural)]
pub enum PunchReply {
    /// An authenticated punch from the expected peer: the path is open.
    Established,
    /// A punch-shaped packet from the expected peer that fails the MAC:
    /// the peer holds a different session key, so retries cannot help.
    WrongKey,
    /// Anything else is ignored and the wait continues.
    Ignored,
}

/// The session state of a hole-punch exchange: the pre-shared MAC key.
/// The bound UDP socket lives with the caller.
pub struct HolepunchSession {
    session_key: Vec<u8>,
}

impl HolepunchSession {
    /// The pre-shared 32-byte session key.
    pub closed spec fn key(self) -> Seq<u8> {
        self.session_key@
    }

    pub open spec fn wf(self) -> bool {
        self.key().len() == 32
    }

    /// A session authenticated by the given pre-shared key.
    pub fn new(session_key: Vec<u8>) -> (r: HolepunchSession)
        requires
            session_key@.len() == 32,
        ensures
            r.key() == session_key@,
            r.wf(),
    {
        HolepunchSession { session_key }
    }

    /// The MAC tag of a punch packet under this session's key.
    pub fn compute_punch_mac(&self) -> (r: Vec<u8>)
        requires
            self.wf(),
        ensures
            r@ == blake2s_mac_of(self.key(), punch_message()),
            r@.len() == 32,
    {
        let msg = punch_prefix();
        blake2s_mac(&self.session_key, &msg)
    }

    /// An authenticated punch packet: `HYPERSWARM_PUNCH` then its MAC tag.
    pub fn build_punch_packet(&self) -> (r: Vec<u8>)
        requires
            self.wf(),
        ensures
            r@ == punch_packet_of(self.key()),
            r@.len() == 48,
    {
        let mut packet = punch_prefix();
        let mac = self.compute_punch_mac();
        let mut i: usize = 0;
        while i < mac.len()
            invariant
                i <= mac@.len(),
                packet@ == punch_message() + mac@.take(i as int),
            decreases mac@.len() - i,
        {
            packet.push(mac[i]);
            assert(packet@ =~= punch_message() + mac@.take(i + 1));
            i += 1;
        }
        assert(packet@ =~= punch_message() + mac@);
        packet
    }

    /// Accept exactly the packets carrying the punch preamble and a MAC tag
    /// valid under this session's key.  The tag comparison is constant-time.
    pub fn verify_punch_packet(&self, data: &Vec<u8>) -> (r: bool)
        requires
            self.wf(),
        ensures
            r == valid_punch(self.key(), data@),
    {
        if data.len() != 48 {
            return false;
        }
        let prefix = punch_prefix();
        let mut i: usize = 0;
        while i < 16
            invariant
                data@.len() == 48,
                prefix@ == punch_message(),
                i <= 16,
                forall|j: int| 0 <= j < i ==> data@[j] == punch_message()[j],
            decreases 16 - i,
        {
            if data[i] != prefix[i] {
                assert(data@.take(16)[i as int] != punch_message()[i as int]);
                return false;
            }
            i += 1;
        }
        assert(data@.take(16) =~= punch_message());
        let tag = crate::dht::copy_range(data, 16, 48);
        proof {
            assert(tag@ =~= data@.skip(16));
        }
        let msg = punch_prefix();
        blake2s_mac_verify(&self.session_key, &msg, &tag)
    }

    /// What a punch attempt directed at one peer concludes from a datagram:
    /// only packets from that peer count; a valid punch opens the path; a
    /// punch-shaped packet with a bad MAC is a key mismatch; the rest is
    /// ignored.
    pub fn classify_punch_datagram(&self, data: &Vec<u8>, from_expected_peer: bool) -> (r:
        PunchReply)
        requires
            self.wf(),
        ensures
            r == PunchReply::Established <==> (from_expected_peer && valid_punch(
                self.key(),
                data@,
            )),
            r == PunchReply::WrongKey <==> (from_expected_peer && !valid_punch(self.key(), data@)
                && data@.len() >= 16 && data@.take(16) == punch_message()),
    {
        if !from_expected_peer {
            return PunchReply::Ignored;
        }
        if self.verify_punch_packet(data) {
            return PunchReply::Established;
        }
        if data.len() < 16 {
            return PunchReply::Ignored;
        }
        let prefix = punch_prefix();
        let mut i: usize = 0;
        while i < 16
            invariant
                data@.len() >= 16,
                prefix@ == punch_message(),
                i <= 16,
                forall|j: int| 0 <= j < i ==> data@[j] == punch_message()[j],
            decreases 16 - i,
        {
            if data[i] != prefix[i] {
                assert(data@.take(16)[i as int] != punch_message()[i as int]);
                return PunchReply::Ignored;
            }
            i += 1;
        }
        assert(data@.take(16) =~= punch_message());
        PunchReply::WrongKey
    }
}

/// What the probe phase concludes once every candidate was tried.
#[derive(Clone, Copy, Debug, PartialEq, Eq, Structural)]
pub enum ProbeOutcome {
    /// At least one probe was sent: the punch phase may start.
    Proceed,
    /// Every send failed: report the last I/O error.
    FailIo,
    /// There was nothing to send to.
    FailNoCandidates,
}

/// The probe phase succeeds iff at least one probe datagram was sent; with no
/// successes it reports the last I/O error, or the absence of candidates.
pub fn probe_verdict(success_count: usize, had_io_error: bool) -> (r: ProbeOutcome)
    ensures
        r == ProbeOutcome::Proceed <==> success_count > 0,
        r == ProbeOutcome::FailIo <==> (success_count == 0 && had_io_error),
        r == ProbeOutcome::FailNoCandidates <==> (success_count == 0 && !had_io_error),
{
    if success_count > 0 {
        ProbeOutcome::Proceed
    } else if had_io_error {
        ProbeOutcome::FailIo
    } else {
        ProbeOutcome::FailNoCandidates
    }
}

} // verus!
