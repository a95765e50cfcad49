use blake2::digest::Digest;
use blake2::Blake2b512;
use hyperswarm::Topic;

#[test]
fn test_topic_from_key_deterministic() {
    let a = Topic::from_key(b"example-topic-12345");
    let b = Topic::from_key(b"example-topic-12345");
    assert_eq!(a.0, b.0);
    assert!(a == b);
    assert!(a.clone() == a);

    let c = Topic::from_key(b"another-topic");
    assert_ne!(a.0, c.0);
    assert!(a != c);
}

#[test]
fn test_topic_matches_blake2b() {
    let key = b"example-topic-12345";
    let topic = Topic::from_key(key);

    let mut hasher = Blake2b512::new();
    hasher.update(key);
    let digest = hasher.finalize();

    assert_eq!(topic.0.as_slice(), &digest[..32]);
}

#[test]
fn test_topic_length() {
    assert_eq!(Topic::from_key(b"").0.len(), 32);
    assert_eq!(Topic::from_key(&[0u8; 100]).0.len(), 32);
    let bytes = Topic::from_key(b"x").to_bytes();
    assert_eq!(bytes, Topic::from_key(b"x").0);
}
