//! Peer discovery coordination: the set of joined topics.
//!
//! The announce/lookup calls that joining triggers run with the caller, who
//! owns the DHT client's socket; this module keeps the topic membership.

use vstd::prelude::*;

use crate::bytesutil::bytes_eq;
use crate::dht::DhtError;
use crate::topic::Topic;

verus! {

pub struct DiscoveryConfig {
    pub max_peers: usize,
}

#[derive(Debug)]
pub enum DiscoveryError {
    Dht(DhtError),
    Unimplemented,
}

/// The set of topics this swarm has joined.
pub struct DiscoveryManager {
    config: DiscoveryConfig,
    topics: Vec<Topic>,
}

impl DiscoveryManager {
    /// The topics as a mathematical set of byte strings.
    pub closed spec fn topics_set(self) -> Set<Seq<u8>> {
        Set::new(|t: Seq<u8>| exists|i: int| 0 <= i < self.topics@.len() && self.topics@[i]@ == t)
    }

    /// The configured bound on concurrent peers.
    pub closed spec fn max_peers_spec(self) -> usize {
        self.config.max_peers
    }

    /// No topic is stored twice.
    pub closed spec fn wf(self) -> bool {
        forall|i: int, j: int|
            0 <= i < j < self.topics@.len() ==> self.topics@[i]@ != self.topics@[j]@
    }

    pub fn new(config: DiscoveryConfig) -> (r: DiscoveryManager)
        ensures
            r.wf(),
            r.topics_set() =~= Set::<Seq<u8>>::empty(),
            r.max_peers_spec() == config.max_peers,
    {
        let r = DiscoveryManager { config, topics: Vec::new() };
        proof {
            assert forall|t: Seq<u8>| !r.topics_set().contains(t) by {}
        }
        r
    }

    pub fn max_peers(&self) -> (r: usize)
        ensures
            r == self.max_peers_spec(),
    {
        self.config.max_peers
    }

    /// Whether a topic is joined.
    pub fn contains(&self, topic: &Topic) -> (r: bool)
        ensures
            r <==> self.topics_set().contains(topic@),
    {
        let n = self.topics.len();
        let mut i: usize = 0;
        while i < n
            invariant
                n == self.topics@.len(),
                i <= n,
                forall|j: int| 0 <= j < i ==> self.topics@[j]@ != topic@,
            decreases n - i,
    {
            if bytes_eq(&self.topics[i].0, &topic.0) {
                proof {
                    assert(self.topics@[i as int]@ == topic@);
                }
                return true;
            }
            i += 1;
        }
        proof {
            assert forall|k: int| 0 <= k < self.topics@.len() implies self.topics@[k]@ != topic@
                by {}
        }
        false
    }

    /// Join a topic: afterwards the set holds it, along with what it held.
    pub fn join_topic(&mut self, topic: &Topic)
        requires
            old(self).wf(),
        ensures
            final(self).wf(),
            final(self).topics_set() =~= old(self).topics_set().insert(topic@),
            final(self).max_peers_spec() == old(self).max_peers_spec(),
    {
        if !self.contains(topic) {
            let ghost s0 = self.topics@;
            let bytes = topic.to_bytes();
            self.topics.push(Topic(bytes));
            proof {
                assert(self.topics@.len() == s0.len() + 1);
                assert(self.topics@[s0.len() as int]@ == topic@);
                assert(forall|j: int| 0 <= j < s0.len() ==> self.topics@[j] == s0[j]);
                assert forall|t: Seq<u8>|
                    final(self).topics_set().contains(t) == old(self).topics_set().insert(
                        topic@,
                    ).contains(t) by {
                    if final(self).topics_set().contains(t) {
                        let i = choose|i: int|
                            0 <= i < self.topics@.len() && self.topics@[i]@ == t;
                        if i < s0.len() {
                            assert(s0[i]@ == t);
                        }
                    }
                    if old(self).topics_set().insert(topic@).contains(t) {
                        if t == topic@ {
                            assert(self.topics@[s0.len() as int]@ == t);
                        } else {
                            let i = choose|i: int| 0 <= i < s0.len() && s0[i]@ == t;
                            assert(self.topics@[i]@ == t);
                        }
                    }
                }
            }
        } else {
            proof {
                assert(final(self).topics_set() =~= old(self).topics_set().insert(topic@));
            }
        }
    }

    /// Leave a topic: afterwards the set no longer holds it.
    pub fn leave_topic(&mut self, topic: &Topic)
        requires
            old(self).wf(),
        ensures
            final(self).wf(),
            final(self).topics_set() =~= old(self).topics_set().remove(topic@),
            final(self).max_peers_spec() == old(self).max_peers_spec(),
    {
        let n = self.topics.len();
        let mut i: usize = 0;
        while i < n
            invariant
                old(self).wf(),
                self == old(self),
                n == self.topics@.len(),
                i <= n,
                forall|j: int| 0 <= j < i ==> self.topics@[j]@ != topic@,
            decreases n - i,
        {
            if bytes_eq(&self.topics[i].0, &topic.0) {
                let ghost s0 = self.topics@;
                self.topics.remove(i);
                proof {
                    assert(self.topics@ =~= s0.subrange(0, i as int) + s0.subrange(
                        i + 1,
                        s0.len() as int,
                    ));
                    assert forall|t: Seq<u8>|
                        final(self).topics_set().contains(t) == old(self).topics_set().remove(
                            topic@,
                        ).contains(t) by {
                        if final(self).topics_set().contains(t) {
                            let k = choose|k: int|
                                0 <= k < self.topics@.len() && self.topics@[k]@ == t;
                            if k < i {
                                assert(s0[k]@ == t);
                                assert(t != topic@);
                            } else {
                                assert(s0[k + 1]@ == t);
                                assert(t != topic@) by {
                                    assert(s0[i as int]@ == topic@);
                                }
                            }
                        }
                        if old(self).topics_set().remove(topic@).contains(t) {
                            let k = choose|k: int| 0 <= k < s0.len() && s0[k]@ == t;
                            assert(k != i);
                            if k < i {
                                assert(self.topics@[k]@ == t);
                            } else {
                                assert(self.topics@[k - 1]@ == t);
                            }
                        }
                    }
                }
                return ;
            }
            i += 1;
        }
        proof {
            assert forall|t: Seq<u8>|
                final(self).topics_set().contains(t) == old(self).topics_set().remove(
                    topic@,
                ).contains(t) by {
                if old(self).topics_set().contains(t) && t == topic@ {
                    let k = choose|k: int| 0 <= k < self.topics@.len() && self.topics@[k]@ == t;
                    assert(false);
                }
            }
        }
    }
}

} // verus!
