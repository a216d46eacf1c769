//! The live allocation registry: correlation keys of outstanding allocations,
//! each with the signature of the call site that made it.

use std::collections::HashMap;
use std::collections::hash_map::DefaultHasher;
use std::hash::Hasher;
use vstd::prelude::*;
use vstd::std_specs::hash::DefaultHasherAdditionalSpecFns;
use vstd::utf8::encode_utf8;

verus! {

broadcast use vstd::std_specs::hash::group_hash_axioms;

/// Header value of an allocation that carries no signature.
pub const SENTINEL: u64 = u64::MAX;

/// The standard hasher's digest of a signature's bytes.
pub open spec fn digest_of(sig: Seq<char>) -> u64 {
    DefaultHasher::spec_finish(seq![encode_utf8(sig)])
}

/// The correlation key of a signature: its digest, moved off the sentinel
/// where the two meet, so that the sentinel stays reserved.
pub open spec fn key_of(sig: Seq<char>) -> u64 {
    if digest_of(sig) == SENTINEL {
        (SENTINEL - 1) as u64
    } else {
        digest_of(sig)
    }
}

/// The key written into the header of an allocation that captured `sig`
/// (empty where nothing was captured).
pub open spec fn header_key(sig: Seq<char>) -> u64 {
    if sig.len() > 0 {
        key_of(sig)
    } else {
        SENTINEL
    }
}

/// The registry after an allocation that captured `sig`.
pub open spec fn after_alloc(reg: Map<u64, Seq<char>>, sig: Seq<char>) -> Map<u64, Seq<char>> {
    if sig.len() > 0 {
        reg.insert(key_of(sig), sig)
    } else {
        reg
    }
}

/// The registry after a deallocation whose header holds `key`.
pub open spec fn after_release(reg: Map<u64, Seq<char>>, key: u64) -> Map<u64, Seq<char>> {
    if key == SENTINEL {
        reg
    } else {
        reg.remove(key)
    }
}

/// `sig` is registered under its own key.
pub open spec fn is_live_in(reg: Map<u64, Seq<char>>, sig: Seq<char>) -> bool {
    reg.contains_key(key_of(sig)) && reg[key_of(sig)] == sig
}

/// The registry after one hook event `(is_alloc, sig, key)`: an allocation
/// that captured `sig`, or a deallocation whose header holds `key`.
pub open spec fn apply_event(reg: Map<u64, Seq<char>>, e: (bool, Seq<char>, u64)) -> Map<
    u64,
    Seq<char>,
> {
    if e.0 {
        after_alloc(reg, e.1)
    } else {
        after_release(reg, e.2)
    }
}

/// The registry after a run of hook events, in order.
pub open spec fn apply_events(reg: Map<u64, Seq<char>>, events: Seq<(bool, Seq<char>, u64)>) -> Map<
    u64,
    Seq<char>,
>
    decreases events.len(),
{
    if events.len() == 0 {
        reg
    } else {
        apply_event(apply_events(reg, events.drop_last()), events.last())
    }
}

/// The key that a hook event writes or reads.
pub open spec fn event_key(e: (bool, Seq<char>, u64)) -> u64 {
    if e.0 {
        header_key(e.1)
    } else {
        e.2
    }
}

/// An allocation that captured a signature gets a key other than the
/// sentinel in its header, and is in the registry, under that key and with its signature, for as long as only
/// events with other keys follow, and is gone once its own deallocation runs.
pub proof fn lemma_registered_until_released(
    reg: Map<u64, Seq<char>>,
    sig: Seq<char>,
    between: Seq<(bool, Seq<char>, u64)>,
)
    requires
        sig.len() > 0,
        forall|i: int| 0 <= i < between.len() ==> event_key(#[trigger] between[i]) != header_key(sig),
    ensures
        ({
            let k = header_key(sig);
            let live = apply_events(after_alloc(reg, sig), between);
            &&& k == key_of(sig)
            &&& k != SENTINEL
            &&& live.contains_key(k)
            &&& live[k] == sig
            &&& !after_release(live, k).contains_key(k)
        }),
    decreases between.len(),
{
    if between.len() > 0 {
        let rest = between.drop_last();
        assert forall|i: int| 0 <= i < rest.len() implies event_key(#[trigger] rest[i]) != header_key(sig) by {
            assert(rest[i] == between[i]);
        }
        lemma_registered_until_released(reg, sig, rest);
        assert(event_key(between[between.len() - 1]) != header_key(sig));
    }
}

/// The correlation key of `sig`.
pub fn signature_key(sig: &String) -> (r: u64)
    ensures
        r == key_of(sig@),
        r != SENTINEL,
{
    let mut h = DefaultHasher::new();
    h.write(sig.as_str().as_bytes());
    let d = h.finish();
    assert(h@ =~= seq![encode_utf8(sig@)]);
    if d == SENTINEL {
        SENTINEL - 1
    } else {
        d
    }
}

/// Correlation keys of outstanding allocations and their signatures.
pub struct LiveRegistry {
    map: HashMap<u64, String>,
}

impl View for LiveRegistry {
    type V = Map<u64, Seq<char>>;

    closed spec fn view(&self) -> Map<u64, Seq<char>> {
        Map::new(|k: u64| self.map@.contains_key(k), |k: u64| self.map@[k]@)
    }
}

impl LiveRegistry {
    /// Every signature is held under its own key.
    pub closed spec fn wf(&self) -> bool {
        forall|k: u64| #[trigger] self.map@.contains_key(k) ==> key_of(self.map@[k]@) == k
    }

    /// An empty registry.
    pub fn new() -> (r: LiveRegistry)
        ensures
            r.wf(),
            r@ == Map::<u64, Seq<char>>::empty(),
    {
        let r = LiveRegistry { map: HashMap::new() };
        assert(r@ =~= Map::<u64, Seq<char>>::empty());
        r
    }

    /// Registers an allocation that captured `sig` and returns the key for its
    /// header: the key of `sig`, or the sentinel where `sig` is empty, which
    /// registers nothing.
    pub fn register(&mut self, sig: String) -> (r: u64)
        requires
            old(self).wf(),
        ensures
            final(self).wf(),
            r == header_key(sig@),
            sig@.len() > 0 ==> r != SENTINEL,
            final(self)@ == after_alloc(old(self)@, sig@),
    {
        if sig.as_str().is_empty() {
            return SENTINEL;
        }
        let k = signature_key(&sig);
        let ghost v = sig@;
        self.map.insert(k, sig);
        assert(self@ =~= old(self)@.insert(k, v));
        k
    }

    /// Drops the entry of a deallocated block whose header holds `key`; the
    /// sentinel, or a key that is not there, changes nothing.
    pub fn release(&mut self, key: u64)
        requires
            old(self).wf(),
        ensures
            final(self).wf(),
            final(self)@ == after_release(old(self)@, key),
    {
        if key != SENTINEL {
            self.map.remove(&key);
            assert(self@ =~= old(self)@.remove(key));
        }
    }

    /// Whether an entry is held under `key`.
    pub fn contains_key(&self, key: u64) -> (r: bool)
        ensures
            r == self@.contains_key(key),
    {
        self.map.contains_key(&key)
    }

    /// Number of entries.
    pub fn len(&self) -> (r: usize)
        ensures
            r == self@.dom().len(),
    {
        assert(self@.dom() =~= self.map@.dom());
        self.map.len()
    }

    /// Whether `sig` is registered, that is, some allocation that captured it
    /// is still believed outstanding.
    pub fn is_live(&self, sig: &String) -> (r: bool)
        requires
            self.wf(),
        ensures
            r == is_live_in(self@, sig@),
    {
        let k = signature_key(sig);
        match self.map.get(&k) {
            Some(s) => *s == *sig,
            None => false,
        }
    }
}

} // verus!
