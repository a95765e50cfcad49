//! Topics: 32-byte swarm identifiers derived from arbitrary byte keys.

use vstd::prelude::*;

use blake2::digest::Digest;
use blake2::Blake2b512;

verus! {

/// What BLAKE2b-512 returns for the given input bytes.
pub uninterp spec fn blake2b512_of(data: Seq<u8>) -> Seq<u8>;

/// Relies on blake2::Blake2b512: the 64-byte digest is a function of the
/// input bytes alone.
#[verifier::external_body]
fn blake2b512(data: &[u8]) -> (r: Vec<u8>)
    ensures
        r@ == blake2b512_of(data@),
        r@.len() == 64,
{
    let mut hasher = Blake2b512::new();
    hasher.update(data);
    hasher.finalize().to_vec()
}

/// A topic to announce / lookup on the DHT: exactly 32 bytes, equal iff the
/// bytes are equal.
pub struct Topic(pub Vec<u8>);

impl Clone for Topic {
    fn clone(&self) -> (r: Topic)
        ensures
            r@ == self@,
    {
        Topic(crate::dht::copy_bytes(&self.0))
    }
}

impl PartialEq for Topic {
    /// Two topics are equal iff their bytes are equal.
    fn eq(&self, other: &Topic) -> (r: bool) {
        crate::bytesutil::bytes_eq(&self.0, &other.0)
    }
}

impl vstd::std_specs::cmp::PartialEqSpecImpl for Topic {
    open spec fn obeys_eq_spec() -> bool {
        true
    }

    open spec fn eq_spec(&self, other: &Topic) -> bool {
        self@ == other@
    }
}

impl Eq for Topic {}

impl View for Topic {
    type V = Seq<u8>;

    open spec fn view(&self) -> Seq<u8> {
        self.0@
    }
}

impl Topic {
    /// A topic holds exactly 32 bytes.
    pub open spec fn wf(self) -> bool {
        self@.len() == 32
    }

    /// Derive a topic from a shared secret key: the first 32 bytes of
    /// BLAKE2b-512 of the key.  The result is a function of the key alone,
    /// so the derivation is deterministic.
    pub fn from_key(key: &[u8]) -> (r: Topic)
        ensures
            r@ == blake2b512_of(key@).take(32),
            r.wf(),
    {
        let h = blake2b512(key);
        let mut topic: Vec<u8> = Vec::new();
        let mut i: usize = 0;
        while i < 32
            invariant
                h@.len() == 64,
                i <= 32,
                topic@ == h@.take(i as int),
            decreases 32 - i,
        {
            topic.push(h[i]);
            assert(topic@ =~= h@.take(i + 1));
            i += 1;
        }
        Topic(topic)
    }

    /// A copy of the topic bytes.
    pub fn to_bytes(&self) -> (r: Vec<u8>)
        ensures
            r@ == self@,
    {
        crate::dht::copy_bytes(&self.0)
    }
}

} // verus!
