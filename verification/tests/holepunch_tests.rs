use hyperswarm::holepunch::{probe_packet, probe_verdict, HolepunchSession, ProbeOutcome, PunchReply};

const TEST_SESSION_KEY: [u8; 32] = [0x42u8; 32];

fn session_with(key: [u8; 32]) -> HolepunchSession {
    HolepunchSession::new(key.to_vec())
}

#[test]
fn test_punch_mac_valid() {
    let session = session_with(TEST_SESSION_KEY);
    let packet = session.build_punch_packet();
    assert!(
        session.verify_punch_packet(&packet),
        "valid packet should pass MAC check"
    );
}

#[test]
fn test_punch_mac_wrong_key_rejected() {
    let key_a = [0x01u8; 32];
    let key_b = [0x02u8; 32];

    let session_a = session_with(key_a);
    let session_b = session_with(key_b);

    // A packet built with key_a must be rejected by a session using key_b.
    let packet = session_a.build_punch_packet();
    assert!(
        !session_b.verify_punch_packet(&packet),
        "packet from a different key should fail MAC check"
    );
}

#[test]
fn test_punch_mac_truncated_packet_rejected() {
    let session = session_with(TEST_SESSION_KEY);

    // The punch preamble alone (without the MAC) must be rejected.
    let truncated = b"HYPERSWARM_PUNCH".to_vec();
    assert!(
        !session.verify_punch_packet(&truncated),
        "plain punch preamble without MAC should be rejected"
    );
}

#[test]
fn test_punch_mac_tampered_payload_rejected() {
    let session = session_with(TEST_SESSION_KEY);

    let mut packet = session.build_punch_packet();
    // Flip a bit in the MAC portion.
    packet[16] ^= 0xff;
    assert!(
        !session.verify_punch_packet(&packet),
        "tampered MAC should be rejected"
    );
}

#[test]
fn test_punch_packet_shape() {
    let session = session_with(TEST_SESSION_KEY);
    let packet = session.build_punch_packet();
    assert_eq!(packet.len(), 48);
    assert_eq!(&packet[..16], b"HYPERSWARM_PUNCH");
    assert_eq!(&packet[16..], session.compute_punch_mac().as_slice());
}

#[test]
fn test_probe_packet_bytes() {
    assert_eq!(probe_packet(), b"HYPERSWARM_PROBE".to_vec());
}

#[test]
fn test_classify_punch_datagram() {
    let session = session_with(TEST_SESSION_KEY);
    let other = session_with([0x07u8; 32]);

    let good = session.build_punch_packet();
    assert_eq!(
        session.classify_punch_datagram(&good, true),
        PunchReply::Established
    );
    // Packets from unexpected sources are ignored, even valid ones.
    assert_eq!(
        session.classify_punch_datagram(&good, false),
        PunchReply::Ignored
    );
    // A punch-shaped packet under the wrong key is a non-retryable mismatch.
    let foreign = other.build_punch_packet();
    assert_eq!(
        session.classify_punch_datagram(&foreign, true),
        PunchReply::WrongKey
    );
    // Anything else from the peer (such as a probe) is ignored.
    let probe = probe_packet();
    assert_eq!(
        session.classify_punch_datagram(&probe, true),
        PunchReply::Ignored
    );
    assert_eq!(
        session.classify_punch_datagram(&vec![1, 2, 3], true),
        PunchReply::Ignored
    );
}

#[test]
fn test_probe_verdict() {
    assert_eq!(probe_verdict(3, false), ProbeOutcome::Proceed);
    assert_eq!(probe_verdict(1, true), ProbeOutcome::Proceed);
    assert_eq!(probe_verdict(0, true), ProbeOutcome::FailIo);
    assert_eq!(probe_verdict(0, false), ProbeOutcome::FailNoCandidates);
}
