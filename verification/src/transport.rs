//! Encrypted stream: the Noise XX state machine over datagram payloads.
//!
//! One Noise message per datagram, `Noise_XX_25519_ChaChaPoly_BLAKE2s`.
//! The caller owns the UDP socket and the remote-address filter; this module
//! turns received datagram bytes into state transitions and bytes to send.
//! `send`/`recv` refuse to work before the handshake has completed, and the
//! remote static key is known exactly when it has.

use vstd::prelude::*;

use crate::bytesutil::bytes_eq;
use crate::dht::{copy_bytes, copy_range};

verus! {

#[derive(Debug)]
pub enum TransportError {
    Io(String),
    Noise(String),
    HandshakeIncomplete,
    InvalidMessage,
    PeerAuthenticationFailed,
}

#[verifier::external_type_specification]
#[verifier::external_body]
pub struct ExHandshakeState(snow::HandshakeState);

#[verifier::external_type_specification]
#[verifier::external_body]
pub struct ExTransportState(snow::TransportState);

/// Relies on snow::Builder::generate_keypair with
/// `Noise_XX_25519_ChaChaPoly_BLAKE2s`: a fresh 25519 keypair, 32 bytes each.
#[verifier::external_body]
fn noise_keypair() -> (r: Result<(Vec<u8>, Vec<u8>), String>)
    ensures
        r matches Ok(kp) ==> kp.0@.len() == 32 && kp.1@.len() == 32,
{
    let params = "Noise_XX_25519_ChaChaPoly_BLAKE2s".parse().map_err(
        |e| format!("{:?}", e),
    )?;
    let keypair = snow::Builder::new(params).generate_keypair().map_err(|e| format!("{:?}", e))?;
    Ok((keypair.public, keypair.private))
}

/// Relies on snow::Builder::build_initiator with the stored static key.
/// The key must be exactly the 25519 private-key length: the resolver copies
/// it into a 32-byte buffer, so a longer key would abort the process.
#[verifier::external_body]
fn noise_initiator(privkey: &Vec<u8>) -> (r: Result<snow::HandshakeState, String>)
    requires
        privkey@.len() == 32,
{
    let params = "Noise_XX_25519_ChaChaPoly_BLAKE2s".parse().map_err(
        |e| format!("{:?}", e),
    )?;
    snow::Builder::new(params).local_private_key(privkey).build_initiator().map_err(
        |e| format!("{:?}", e),
    )
}

/// Relies on snow::Builder::build_responder with the stored static key.
/// The key must be exactly the 25519 private-key length: the resolver copies
/// it into a 32-byte buffer, so a longer key would abort the process.
#[verifier::external_body]
fn noise_responder(privkey: &Vec<u8>) -> (r: Result<snow::HandshakeState, String>)
    requires
        privkey@.len() == 32,
{
    let params = "Noise_XX_25519_ChaChaPoly_BLAKE2s".parse().map_err(
        |e| format!("{:?}", e),
    )?;
    snow::Builder::new(params).local_private_key(privkey).build_responder().map_err(
        |e| format!("{:?}", e),
    )
}

/// Relies on snow::HandshakeState::write_message: the next handshake message
/// with an empty payload, at most 65535 bytes.
#[verifier::external_body]
fn hs_write(hs: &mut snow::HandshakeState) -> (r: Result<Vec<u8>, String>)
    ensures
        r matches Ok(msg) ==> msg@.len() <= 65535,
{
    let mut buf = vec![0u8; 65535];
    let len = hs.write_message(&[], &mut buf).map_err(|e| format!("{:?}", e))?;
    buf.truncate(len);
    Ok(buf)
}

/// Relies on snow::HandshakeState::read_message: consume one handshake
/// message, discarding its (empty) payload.
#[verifier::external_body]
fn hs_read(hs: &mut snow::HandshakeState, msg: &Vec<u8>) -> (r: Result<(), String>) {
    hs.read_message(msg.as_slice(), &mut []).map_err(|e| format!("{:?}", e))?;
    Ok(())
}

/// Relies on snow::HandshakeState::get_remote_static: the remote static key
/// once the pattern has revealed it.
#[verifier::external_body]
fn noise_remote_static(hs: &snow::HandshakeState) -> (r: Option<Vec<u8>>) {
    hs.get_remote_static().map(|k| k.to_vec())
}

/// Relies on snow::HandshakeState::into_transport_mode.
#[verifier::external_body]
fn noise_into_transport(hs: snow::HandshakeState) -> (r: Result<snow::TransportState, String>) {
    hs.into_transport_mode().map_err(|e| format!("{:?}", e))
}

/// Relies on snow::TransportState::write_message: ChaChaPoly appends a
/// 16-byte tag to the payload.
#[verifier::external_body]
fn transport_encrypt(ts: &mut snow::TransportState, payload: &Vec<u8>) -> (r: Result<
    Vec<u8>,
    String,
>)
    ensures
        r matches Ok(msg) ==> payload@.len() + 16 <= 65535 && msg@.len() == payload@.len() + 16,
{
    if payload.len() > 65535 - 16 {
        return Err("message exceeds the Noise length bound".to_string());
    }
    let mut buf = vec![0u8; payload.len() + 16];
    let len = ts.write_message(payload.as_slice(), &mut buf).map_err(|e| format!("{:?}", e))?;
    buf.truncate(len);
    Ok(buf)
}

/// Relies on snow::TransportState::read_message: strips the 16-byte tag of a
/// ciphertext that authenticates, and fails on any other input.
#[verifier::external_body]
fn transport_decrypt(ts: &mut snow::TransportState, msg: &Vec<u8>) -> (r: Result<Vec<u8>, String>)
    ensures
        r matches Ok(payload) ==> msg@.len() >= 16 && payload@.len() == msg@.len() - 16,
{
    let mut buf = vec![0u8; 65535];
    let len = ts.read_message(msg.as_slice(), &mut buf).map_err(|e| format!("{:?}", e))?;
    buf.truncate(len);
    Ok(buf)
}

/// A revealed static key is usable when it is present with at least the
/// 32 bytes of a 25519 public key.
pub open spec fn revealed_key_ok(revealed: Option<Seq<u8>>) -> bool {
    match revealed {
        Some(k) => k.len() >= 32,
        None => false,
    }
}

/// The 32-byte identity a usable revealed key denotes.
pub open spec fn revealed_key_id(revealed: Option<Seq<u8>>) -> Seq<u8> {
    match revealed {
        Some(k) => k.subrange(0, 32),
        None => Seq::empty(),
    }
}

/// A usable revealed key that differs from the identity the caller pinned.
pub open spec fn pinned_mismatch(revealed: Option<Seq<u8>>, expected: Option<Seq<u8>>) -> bool {
    revealed_key_ok(revealed) && match expected {
        Some(x) => x != revealed_key_id(revealed),
        None => false,
    }
}

/// What the handshake does with the static key the pattern revealed:
/// a missing or short key is `InvalidMessage`; under a pinned key, a
/// revealed identity that differs is `PeerAuthenticationFailed`; otherwise
/// the 32-byte identity is accepted.
pub fn check_revealed_static(revealed: &Option<Vec<u8>>, expected: &Option<Vec<u8>>) -> (r: Result<
    Vec<u8>,
    TransportError,
>)
    ensures
        ({
            let rv = crate::protocol::opt_view(*revealed);
            match r {
                Ok(k) => {
                    &&& revealed_key_ok(rv)
                    &&& k@ == revealed_key_id(rv)
                    &&& k@.len() == 32
                    &&& (expected matches Some(x) ==> k@ == x@)
                },
                Err(e) => {
                    &&& ((e is InvalidMessage) <==> !revealed_key_ok(rv))
                    &&& ((e is PeerAuthenticationFailed) <==> pinned_mismatch(
                        rv,
                        crate::protocol::opt_view(*expected),
                    ))
                    &&& (e is InvalidMessage || e is PeerAuthenticationFailed)
                },
            }
        }),
{
    match revealed {
        Some(k) => {
            if k.len() < 32 {
                return Err(TransportError::InvalidMessage);
            }
            let id = copy_range(k, 0, 32);
            match expected {
                Some(x) => {
                    if bytes_eq(&id, x) {
                        Ok(id)
                    } else {
                        Err(TransportError::PeerAuthenticationFailed)
                    }
                },
                None => Ok(id),
            }
        },
        None => Err(TransportError::InvalidMessage),
    }
}

/// An encrypted stream endpoint: the Noise handshake or transport state and
/// this end's static identity.  The local static keypair is generated once at
/// construction and reused by both roles, so `local_static_pubkey` is a
/// stable identity.
pub struct EncryptedStream {
    handshake: Option<snow::HandshakeState>,
    transport: Option<snow::TransportState>,
    remote_static_pub: Option<Vec<u8>>,
    local_pub: Vec<u8>,
    local_priv: Vec<u8>,
}

impl EncryptedStream {
    /// Whether the handshake has completed and transport keys exist.
    pub closed spec fn is_established(self) -> bool {
        self.transport is Some
    }

    /// This end's static public key.
    pub closed spec fn local_pub_view(self) -> Seq<u8> {
        self.local_pub@
    }

    /// The peer's static public key, when established.
    pub closed spec fn remote_view(self) -> Option<Seq<u8>> {
        match self.remote_static_pub {
            Some(v) => Some(v@),
            None => None,
        }
    }

    /// Length of the stored static private key.
    pub closed spec fn local_priv_len(self) -> nat {
        self.local_priv@.len()
    }

    /// Whether a handshake is in flight, so that a completion step has
    /// something to consume.
    pub closed spec fn in_handshake(self) -> bool {
        self.handshake is Some
    }

    /// The static keypair is 32 bytes on both sides, and the remote static
    /// key is known if and only if the stream is established.
    pub open spec fn wf(self) -> bool {
        &&& self.local_pub_view().len() == 32
        &&& self.local_priv_len() == 32
        &&& (self.remote_view() is Some <==> self.is_established())
        &&& (self.remote_view() matches Some(k) ==> k.len() == 32)
    }

    /// A fresh stream with a newly generated static keypair, ready to start
    /// a handshake in either role; nothing can be sent or received yet, and
    /// no remote identity is known.
    pub fn new() -> (r: Result<EncryptedStream, TransportError>)
        ensures
            r matches Ok(s) ==> s.wf() && !s.is_established() && s.remote_view() is None
                && s.in_handshake(),
    {
        let (public, private) = match noise_keypair() {
            Ok(kp) => kp,
            Err(e) => {
                return Err(TransportError::Noise(e));
            },
        };
        let hs = match noise_initiator(&private) {
            Ok(h) => h,
            Err(e) => {
                return Err(TransportError::Noise(e));
            },
        };
        Ok(
            EncryptedStream {
                handshake: Some(hs),
                transport: None,
                remote_static_pub: None,
                local_pub: public,
                local_priv: private,
            },
        )
    }

    /// This end's stable static public key.
    pub fn local_static_pubkey(&self) -> (r: Vec<u8>)
        ensures
            r@ == self.local_pub_view(),
    {
        copy_bytes(&self.local_pub)
    }

    /// The peer's static public key; present exactly after a successful
    /// handshake.
    pub fn remote_static_key(&self) -> (r: Option<Vec<u8>>)
        ensures
            match r {
                Some(v) => self.remote_view() == Some(v@),
                None => self.remote_view() is None,
            },
            r is Some <==> self.remote_view() is Some,
    {
        match &self.remote_static_pub {
            Some(k) => Some(copy_bytes(k)),
            None => None,
        }
    }

    /// Whether `send`/`recv` are available.
    pub fn established(&self) -> (r: bool)
        ensures
            r == self.is_established(),
    {
        self.transport.is_some()
    }

    /// Begin the XX handshake as initiator: rebuild the handshake state from
    /// the stored static key and produce the first message (`-> e`).
    pub fn start_initiator(&mut self) -> (r: Result<Vec<u8>, TransportError>)
        requires
            old(self).wf(),
        ensures
            final(self).wf(),
            !final(self).is_established(),
            final(self).remote_view() is None,
            final(self).local_pub_view() == old(self).local_pub_view(),
            r matches Ok(msg) ==> msg@.len() <= 65535,
            r is Ok ==> final(self).in_handshake(),
    {
        self.transport = None;
        self.remote_static_pub = None;
        let hs = match noise_initiator(&self.local_priv) {
            Ok(h) => h,
            Err(e) => {
                self.handshake = None;
                return Err(TransportError::Noise(e));
            },
        };
        self.handshake = Some(hs);
        match &mut self.handshake {
            Some(h) => {
                match hs_write(h) {
                    Ok(msg) => Ok(msg),
                    Err(e) => Err(TransportError::Noise(e)),
                }
            },
            None => Err(TransportError::HandshakeIncomplete),
        }
    }

    /// Finish the handshake as initiator: consume the responder's
    /// `<- e, ee, s, es`, check the revealed responder identity against
    /// `expected_remote` when one is pinned, and produce the final
    /// `-> s, se` message.  On success the stream is established and the
    /// remote static key equals the pinned key, if one was given.  It fails
    /// with `HandshakeIncomplete` exactly when no handshake is in flight,
    /// and with `PeerAuthenticationFailed` only under a pinned key; what the
    /// revealed key decides is the contract of `check_revealed_static`.
    pub fn initiator_finish(&mut self, reply: &Vec<u8>, expected_remote: &Option<Vec<u8>>) -> (r:
        Result<Vec<u8>, TransportError>)
        requires
            old(self).wf(),
            !old(self).is_established(),
        ensures
            final(self).wf(),
            final(self).local_pub_view() == old(self).local_pub_view(),
            r matches Ok(msg) ==> final(self).is_established() && msg@.len() <= 65535,
            r matches Ok(msg) ==> (match expected_remote {
                Some(k) => final(self).remote_view() == Some(k@),
                None => true,
            }),
            r is Err ==> !final(self).is_established() && final(self).remote_view() is None,
            ((r matches Err(e) && e is HandshakeIncomplete) <==> !old(self).in_handshake()),
            r matches Err(e) ==> (e is HandshakeIncomplete || e is Noise || e is InvalidMessage
                || e is PeerAuthenticationFailed),
            (r matches Err(e) && e is PeerAuthenticationFailed) ==> expected_remote is Some,
    {
        let mut hs = match self.handshake.take() {
            Some(h) => h,
            None => {
                return Err(TransportError::HandshakeIncomplete);
            },
        };
        match hs_read(&mut hs, reply) {
            Ok(()) => {},
            Err(e) => {
                self.handshake = Some(hs);
                return Err(TransportError::Noise(e));
            },
        }
        // The responder's static key ('s') is now revealed by the pattern.
        let revealed = noise_remote_static(&hs);
        let remote = match check_revealed_static(&revealed, expected_remote) {
            Ok(k) => k,
            Err(e) => {
                self.handshake = Some(hs);
                return Err(e);
            },
        };
        let final_msg = match hs_write(&mut hs) {
            Ok(m) => m,
            Err(e) => {
                self.handshake = Some(hs);
                return Err(TransportError::Noise(e));
            },
        };
        let ts = match noise_into_transport(hs) {
            Ok(t) => t,
            Err(e) => {
                self.handshake = None;
                return Err(TransportError::Noise(e));
            },
        };
        self.transport = Some(ts);
        self.remote_static_pub = Some(remote);
        Ok(final_msg)
    }

    /// Begin the XX handshake as responder: rebuild the handshake state from
    /// the stored static key, consume the initiator's `-> e`, and produce
    /// `<- e, ee, s, es`.  Any previously established transport is dropped.
    pub fn responder_accept(&mut self, first_msg: &Vec<u8>) -> (r: Result<Vec<u8>, TransportError>)
        requires
            old(self).wf(),
        ensures
            final(self).wf(),
            !final(self).is_established(),
            final(self).remote_view() is None,
            final(self).local_pub_view() == old(self).local_pub_view(),
            r matches Ok(msg) ==> msg@.len() <= 65535,
            r is Ok ==> final(self).in_handshake(),
    {
        self.transport = None;
        self.remote_static_pub = None;
        let mut hs = match noise_responder(&self.local_priv) {
            Ok(h) => h,
            Err(e) => {
                self.handshake = None;
                return Err(TransportError::Noise(e));
            },
        };
        match hs_read(&mut hs, first_msg) {
            Ok(()) => {},
            Err(e) => {
                self.handshake = Some(hs);
                return Err(TransportError::Noise(e));
            },
        }
        let reply = match hs_write(&mut hs) {
            Ok(m) => m,
            Err(e) => {
                self.handshake = Some(hs);
                return Err(TransportError::Noise(e));
            },
        };
        self.handshake = Some(hs);
        Ok(reply)
    }

    /// Finish the handshake as responder: consume the initiator's
    /// `-> s, se` and switch to transport mode.  On success the stream is
    /// established and the initiator's static key is stored.  It fails with
    /// `HandshakeIncomplete` exactly when no handshake is in flight; a
    /// missing or short revealed key is `InvalidMessage`, per
    /// `check_revealed_static`.
    pub fn responder_finish(&mut self, final_msg: &Vec<u8>) -> (r: Result<(), TransportError>)
        requires
            old(self).wf(),
            !old(self).is_established(),
        ensures
            final(self).wf(),
            final(self).local_pub_view() == old(self).local_pub_view(),
            r is Ok ==> final(self).is_established() && final(self).remote_view() is Some,
            r is Err ==> !final(self).is_established() && final(self).remote_view() is None,
            ((r matches Err(e) && e is HandshakeIncomplete) <==> !old(self).in_handshake()),
            r matches Err(e) ==> (e is HandshakeIncomplete || e is Noise || e is InvalidMessage),
    {
        let mut hs = match self.handshake.take() {
            Some(h) => h,
            None => {
                return Err(TransportError::HandshakeIncomplete);
            },
        };
        match hs_read(&mut hs, final_msg) {
            Ok(()) => {},
            Err(e) => {
                self.handshake = Some(hs);
                return Err(TransportError::Noise(e));
            },
        }
        // The initiator's static key ('s') is now revealed by the pattern.
        let revealed = noise_remote_static(&hs);
        let no_pin: Option<Vec<u8>> = None;
        let remote = match check_revealed_static(&revealed, &no_pin) {
            Ok(k) => k,
            Err(e) => {
                self.handshake = Some(hs);
                return Err(e);
            },
        };
        let ts = match noise_into_transport(hs) {
            Ok(t) => t,
            Err(e) => {
                self.handshake = None;
                return Err(TransportError::Noise(e));
            },
        };
        self.transport = Some(ts);
        self.remote_static_pub = Some(remote);
        Ok(())
    }

    /// Encrypt one payload for the peer.  Before the handshake has completed
    /// this fails with `HandshakeIncomplete` and changes nothing.
    pub fn send_payload(&mut self, data: &Vec<u8>) -> (r: Result<Vec<u8>, TransportError>)
        requires
            old(self).wf(),
        ensures
            final(self).wf(),
            final(self).local_pub_view() == old(self).local_pub_view(),
            final(self).remote_view() == old(self).remote_view(),
            final(self).is_established() == old(self).is_established(),
            !old(self).is_established() <==> (r matches Err(e) && e is HandshakeIncomplete),
            old(self).is_established() ==> (r is Ok || (r matches Err(e) && e is Noise)),
            r matches Ok(msg) ==> msg@.len() == data@.len() + 16 && msg@.len() <= 65535,
    {
        match &mut self.transport {
            Some(ts) => {
                match transport_encrypt(ts, data) {
                    Ok(msg) => Ok(msg),
                    Err(e) => Err(TransportError::Noise(e)),
                }
            },
            None => Err(TransportError::HandshakeIncomplete),
        }
    }

    /// Decrypt one datagram from the peer.  Before the handshake has
    /// completed this fails with `HandshakeIncomplete` and changes nothing;
    /// a ciphertext that does not authenticate fails with `Noise`.
    pub fn recv_payload(&mut self, data: &Vec<u8>) -> (r: Result<Vec<u8>, TransportError>)
        requires
            old(self).wf(),
        ensures
            final(self).wf(),
            final(self).local_pub_view() == old(self).local_pub_view(),
            final(self).remote_view() == old(self).remote_view(),
            final(self).is_established() == old(self).is_established(),
            !old(self).is_established() <==> (r matches Err(e) && e is HandshakeIncomplete),
            old(self).is_established() ==> (r is Ok || (r matches Err(e) && e is Noise)),
            r matches Ok(payload) ==> data@.len() >= 16 && payload@.len() == data@.len() - 16,
    {
        match &mut self.transport {
            Some(ts) => {
                match transport_decrypt(ts, data) {
                    Ok(payload) => Ok(payload),
                    Err(e) => Err(TransportError::Noise(e)),
                }
            },
            None => Err(TransportError::HandshakeIncomplete),
        }
    }
}

} // verus!
