use hyperswarm::transport::{check_revealed_static, EncryptedStream, TransportError};

/// Drive a full XX handshake between two streams by relaying the three
/// messages directly, as the UDP layer would.
fn handshake_pair() -> (EncryptedStream, EncryptedStream) {
    let mut initiator = EncryptedStream::new().expect("Failed to create stream1");
    let mut responder = EncryptedStream::new().expect("Failed to create stream2");

    let msg1 = initiator.start_initiator().expect("-> e failed");
    let msg2 = responder.responder_accept(&msg1).expect("<- e, ee, s, es failed");
    let msg3 = initiator
        .initiator_finish(&msg2, &None)
        .expect("-> s, se failed");
    responder.responder_finish(&msg3).expect("responder completion failed");
    (initiator, responder)
}

#[test]
fn test_send_recv_without_handshake() {
    let mut stream = EncryptedStream::new().expect("Failed to create stream");

    assert!(!stream.established());
    let send_result = stream.send_payload(&b"test".to_vec());
    assert!(matches!(send_result, Err(TransportError::HandshakeIncomplete)));
    let recv_result = stream.recv_payload(&vec![0u8; 32]);
    assert!(matches!(recv_result, Err(TransportError::HandshakeIncomplete)));
}

#[test]
fn test_remote_static_key_not_set_before_handshake() {
    let stream = EncryptedStream::new().expect("Failed to create stream");
    assert!(
        stream.remote_static_key().is_none(),
        "remote_static_key should be None before handshake"
    );
}

#[test]
fn test_noise_handshake_and_encryption() {
    let (mut initiator, mut responder) = handshake_pair();
    assert!(initiator.established());
    assert!(responder.established());

    // At least five distinct messages in each direction, byte-exact.
    for i in 0..5u8 {
        let plain = format!("Message {} from peer 1", i).into_bytes();
        let wire = initiator.send_payload(&plain).expect("Failed to send");
        assert_eq!(wire.len(), plain.len() + 16);
        let received = responder.recv_payload(&wire).expect("Failed to receive");
        assert_eq!(received, plain, "Message {} mismatch", i);

        let reply = format!("Message {} from peer 2", i).into_bytes();
        let wire = responder.send_payload(&reply).expect("Failed to send");
        let received = initiator.recv_payload(&wire).expect("Failed to receive");
        assert_eq!(received, reply, "Reply {} mismatch", i);
    }
}

#[test]
fn test_tampered_ciphertext_rejected() {
    let (mut initiator, mut responder) = handshake_pair();
    let mut wire = initiator.send_payload(&b"secret".to_vec()).expect("Failed to send");
    let last = wire.len() - 1;
    wire[last] ^= 0xff;
    assert!(matches!(
        responder.recv_payload(&wire),
        Err(TransportError::Noise(_))
    ));
}

#[test]
fn test_peer_auth_correct_key_succeeds() {
    let mut initiator = EncryptedStream::new().expect("Failed to create stream1");
    let mut responder = EncryptedStream::new().expect("Failed to create stream2");

    // The responder's static public key is known before the handshake.
    let expected = responder.local_static_pubkey();

    let msg1 = initiator.start_initiator().expect("-> e failed");
    let msg2 = responder.responder_accept(&msg1).expect("<- e, ee, s, es failed");
    let msg3 = initiator
        .initiator_finish(&msg2, &Some(expected))
        .expect("handshake should succeed when expected key matches");
    responder
        .responder_finish(&msg3)
        .expect("responder handshake should succeed");
    assert!(initiator.established());
}

#[test]
fn test_peer_auth_wrong_key_rejected() {
    let mut initiator = EncryptedStream::new().expect("Failed to create stream1");
    let mut responder = EncryptedStream::new().expect("Failed to create stream2");

    let wrong_key = vec![0xdeu8; 32];

    let msg1 = initiator.start_initiator().expect("-> e failed");
    let msg2 = responder.responder_accept(&msg1).expect("<- e, ee, s, es failed");
    let result = initiator.initiator_finish(&msg2, &Some(wrong_key));
    assert!(
        matches!(result, Err(TransportError::PeerAuthenticationFailed)),
        "expected PeerAuthenticationFailed"
    );
    // The aborted handshake delivers no transport-mode state.
    assert!(!initiator.established());
    assert!(initiator.remote_static_key().is_none());
    assert!(matches!(
        initiator.send_payload(&b"x".to_vec()),
        Err(TransportError::HandshakeIncomplete)
    ));
}

#[test]
fn test_local_static_pubkey_consistent_across_roles() {
    let mut initiator = EncryptedStream::new().expect("Failed to create stream1");
    let mut responder = EncryptedStream::new().expect("Failed to create stream2");

    let initiator_pubkey = initiator.local_static_pubkey();
    let responder_pubkey = responder.local_static_pubkey();
    assert_eq!(initiator_pubkey, initiator.local_static_pubkey());

    let msg1 = initiator.start_initiator().expect("-> e failed");
    let msg2 = responder.responder_accept(&msg1).expect("<- e, ee, s, es failed");
    let msg3 = initiator
        .initiator_finish(&msg2, &None)
        .expect("-> s, se failed");
    responder.responder_finish(&msg3).expect("responder completion failed");

    // The key the initiator sees as the remote key must match the
    // responder's local key, and vice-versa.
    assert_eq!(
        initiator.remote_static_key().unwrap(),
        responder_pubkey,
        "initiator's remote_static_key should match responder's local_static_pubkey"
    );
    assert_eq!(
        responder.remote_static_key().unwrap(),
        initiator_pubkey,
        "responder's remote_static_key should match initiator's local_static_pubkey"
    );
    // The local identity did not change across the handshake.
    assert_eq!(initiator.local_static_pubkey(), initiator_pubkey);
    assert_eq!(responder.local_static_pubkey(), responder_pubkey);
}

#[test]
fn test_check_revealed_static_cases() {
    let identity = vec![0xabu8; 32];
    let mut long_key = identity.clone();
    long_key.push(0xff); // some patterns reveal more bytes than the identity

    // No revealed key, or one too short to hold an identity.
    assert!(matches!(
        check_revealed_static(&None, &None),
        Err(TransportError::InvalidMessage)
    ));
    assert!(matches!(
        check_revealed_static(&Some(vec![1u8; 31]), &None),
        Err(TransportError::InvalidMessage)
    ));

    // Unpinned: the first 32 bytes are the accepted identity.
    assert_eq!(check_revealed_static(&Some(long_key.clone()), &None).unwrap(), identity);

    // Pinned and matching.
    assert_eq!(
        check_revealed_static(&Some(long_key.clone()), &Some(identity.clone())).unwrap(),
        identity
    );

    // Pinned and different: non-retryable authentication failure.
    assert!(matches!(
        check_revealed_static(&Some(long_key), &Some(vec![0xcdu8; 32])),
        Err(TransportError::PeerAuthenticationFailed)
    ));
}

#[test]
fn test_reentrant_handshake_keeps_identity() {
    // The same stream can run the handshake again, as either role, with the
    // same static identity.
    let (mut initiator, _responder) = handshake_pair();
    let id = initiator.local_static_pubkey();

    let mut fresh = EncryptedStream::new().expect("Failed to create stream");
    let msg1 = fresh.start_initiator().expect("-> e failed");
    let msg2 = initiator.responder_accept(&msg1).expect("re-handshake accept failed");
    let msg3 = fresh.initiator_finish(&msg2, &None).expect("-> s, se failed");
    initiator.responder_finish(&msg3).expect("re-handshake completion failed");

    assert_eq!(initiator.local_static_pubkey(), id);
    assert_eq!(fresh.remote_static_key().unwrap(), id);
}
