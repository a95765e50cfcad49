use hyperswarm::discovery::{DiscoveryConfig, DiscoveryManager};
use hyperswarm::{SwarmConfig, Topic};

#[test]
fn test_join_and_leave_topics() {
    let mut manager = DiscoveryManager::new(DiscoveryConfig { max_peers: 64 });
    let a = Topic::from_key(b"topic-a");
    let b = Topic::from_key(b"topic-b");

    assert!(!manager.contains(&a));
    manager.join_topic(&a);
    assert!(manager.contains(&a));
    assert!(!manager.contains(&b));

    // Joining again changes nothing.
    manager.join_topic(&a);
    assert!(manager.contains(&a));

    manager.join_topic(&b);
    manager.leave_topic(&a);
    assert!(!manager.contains(&a));
    assert!(manager.contains(&b));

    // Leaving a topic that was never joined changes nothing.
    manager.leave_topic(&a);
    assert!(manager.contains(&b));
    assert_eq!(manager.max_peers(), 64);
}

#[test]
fn test_swarm_config_default() {
    let config = SwarmConfig::default();
    assert_eq!(config.bootstrap.len(), 3);
    assert_eq!(config.bootstrap[0], "node1.hyperdht.org:49737");
    assert_eq!(config.bootstrap[1], "node2.hyperdht.org:49737");
    assert_eq!(config.bootstrap[2], "node3.hyperdht.org:49737");
    assert_eq!(config.port, 0);
    assert_eq!(config.max_peers, 64);
}
