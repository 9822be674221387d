//! Capability system.
//!
//! A capability is a unique handle on a resource which gives the holder
//! access to the resource.  All capabilities are stored in a kernel-level
//! capability registry, and are identified by a random 128-bit key; only the
//! key — a `ResourceHandle` — is ever passed around or handed to user space.
//!
//! Capabilities are a closed set of kinds.  A `CapabilityGroup` aggregates
//! other capabilities so that one handle can stand in for several resources;
//! groups may not contain other groups, which the group's payload type rules
//! out.

use vstd::prelude::*;

use core::marker::PhantomData;

use std::collections::BTreeMap;

use vstd::set_lib::lemma_len_subset;

use crate::memory::paging::VirtualMemoryRegion;

verus! {

/// How many fresh random keys `register` draws before falling back to a
/// sequential probe for a free key.
pub const KEY_RETRIES: usize = 16;

/// One kernel resource, as stored in the registry.
pub enum Capability {
    /// A capability on a region of virtual memory.
    VirtualMemoryRegion(VirtualMemoryRegion),
    /// A capability on a group of capabilities.
    CapabilityGroup(CapabilityGroup),
}

/// Capability on a group of capabilities.  The members are non-group
/// capabilities, so groups never nest.
pub struct CapabilityGroup {
    pub caps: Vec<VirtualMemoryRegion>,
}

impl CapabilityGroup {
    pub fn new(caps: Vec<VirtualMemoryRegion>) -> (g: CapabilityGroup)
        ensures
            g.caps@ == caps@,
    {
        CapabilityGroup { caps }
    }
}

/// All capability kinds implement this trait: it says which registry entry
/// a resource of the kind becomes.
pub trait Enable: Sized {
    /// The registry entry this resource becomes.
    spec fn as_capability(&self) -> Capability;

    /// Box the resource up for the registry.
    fn into_capability(self) -> (c: Capability)
        ensures
            c == self.as_capability(),
    ;
}

impl Enable for VirtualMemoryRegion {
    open spec fn as_capability(&self) -> Capability {
        Capability::VirtualMemoryRegion(*self)
    }

    fn into_capability(self) -> (c: Capability) {
        Capability::VirtualMemoryRegion(self)
    }
}

impl Enable for CapabilityGroup {
    open spec fn as_capability(&self) -> Capability {
        Capability::CapabilityGroup(CapabilityGroup { caps: self.caps })
    }

    fn into_capability(self) -> (c: Capability) {
        Capability::CapabilityGroup(self)
    }
}

/// Relies on `rand::SeedableRng::from_seed` for `StdRng`: builds the
/// generator from the 32-byte seed.  Nothing is assumed of it.
#[verifier::external_body]
fn rng_from_seed(seed: [u8; 32]) -> rand::rngs::StdRng {
    <rand::rngs::StdRng as rand::SeedableRng>::from_seed(seed)
}

/// The random number generator the registry draws keys from.
#[verifier::external_type_specification]
#[verifier::external_body]
pub struct ExStdRng(rand::rngs::StdRng);

/// Relies on `rand::RngExt::random` for `StdRng`: draws the next 128-bit
/// value of the generator.  Nothing is assumed of the value.
#[verifier::external_body]
fn gen_key(rng: &mut rand::rngs::StdRng) -> u128 {
    rand::RngExt::random(rng)
}

/// The registry of capabilities: a process-wide keyed store mapping each
/// 128-bit key to the capability it was issued for.
pub struct CapRegistry {
    map: BTreeMap<u128, Capability>,
    rng: rand::rngs::StdRng,
}

impl CapRegistry {
    /// The store: which key holds which capability.
    pub closed spec fn view(&self) -> Map<u128, Capability> {
        self.map@
    }
}

/// Init the capability system: an empty registry.  The key generator is
/// seeded with a fixed seed; whether it should instead be fed hardware
/// entropy is an open question, since keys only need to be unique, which the
/// registry enforces by retrying on collision.
pub fn init() -> (r: CapRegistry)
    ensures
        r@ == Map::<u128, Capability>::empty(),
{
    CapRegistry { map: BTreeMap::new(), rng: rng_from_seed([0; 32]) }
}

/// The smallest key that is free in `map`.  Among the keys `0 ..= map.len()`
/// at least one is free, because the map holds only `map.len()` keys.
fn first_free_key(map: &BTreeMap<u128, Capability>) -> (k: u128)
    ensures
        !map@.contains_key(k),
{
    let n = map.len();
    proof {
        assert(vstd::laws_cmp::obeys_cmp::<u128>());
        assert(map@.dom().len() == n);
    }
    let mut candidate: u128 = 0;
    while map.contains_key(&candidate)
        invariant
            candidate <= n as u128,
            map@.dom().len() == n,
            forall|j: u128| j < candidate ==> map@.dom().contains(j),
        decreases n as int - candidate as int,
    {
        proof {
            let below = Set::<u128>::range(0, (candidate + 1) as u128);
            assert(below.finite() && below.len() == candidate + 1) by {
                <u128 as vstd::set_lib::FiniteRange>::range_properties(
                    0,
                    (candidate + 1) as u128,
                );
            }
            assert(below <= map@.dom());
            lemma_len_subset(below, map@.dom());
        }
        candidate = candidate + 1;
    }
    candidate
}

/// A handle to a resource in the capability registry: an opaque, copyable
/// 128-bit key, typed by the capability kind it was issued for.  A handle is
/// meaningful only relative to the registry.
pub struct ResourceHandle<R: Enable> {
    /// An index into the capability registry.
    key: u128,
    /// Conceptually, the resource handle owns a reference to the resource.
    _resource: PhantomData<R>,
}

impl<R: Enable> Clone for ResourceHandle<R> {
    fn clone(&self) -> (r: Self)
        ensures
            r == *self,
    {
        ResourceHandle { key: self.key, _resource: PhantomData }
    }
}

impl<R: Enable> Copy for ResourceHandle<R> {

}

impl<R: Enable> ResourceHandle<R> {
    /// The key this handle carries.
    pub closed spec fn spec_key(&self) -> u128 {
        self.key
    }

    /// Look up the capability this handle stands for and hand back a
    /// reference to it.  A handle is valid as long as its key is registered,
    /// and no way to unregister one exists.
    pub fn with<'a>(&self, registry: &'a CapRegistry) -> (c: &'a Capability)
        requires
            registry@.contains_key(self.spec_key()),
        ensures
            *c == registry@[self.spec_key()],
    {
        match registry.map.get(&self.key) {
            Option::Some(c) => c,
            Option::None => vstd::pervasive::unreached(),
        }
    }
}

/// A capability that has not been registered yet.  An unregistered
/// capability can be modified until it is registered.
pub struct UnregisteredResourceHandle<R: Enable> {
    pub resource: R,
}

impl<R: Enable> UnregisteredResourceHandle<R> {
    /// Create a new unregistered resource handle.
    pub fn new(resource: R) -> (h: Self)
        ensures
            h.resource == resource,
    {
        UnregisteredResourceHandle { resource }
    }

    /// Register this unregistered resource handle.  After this is done, the
    /// resource cannot be updated.
    ///
    /// The key is a fresh 128-bit random value; candidates that collide with
    /// a registered key are discarded and redrawn, so the returned handle's
    /// key never equals the key of any handle issued before it.
    pub fn register(self, registry: &mut CapRegistry) -> (h: ResourceHandle<R>)
        ensures
            !old(registry)@.contains_key(h.spec_key()),
            final(registry)@ == old(registry)@.insert(h.spec_key(), self.resource.as_capability()),
    {
        let mut key = gen_key(&mut registry.rng);
        let mut attempts: usize = 0;
        while registry.map.contains_key(&key) && attempts < KEY_RETRIES
            invariant
                registry.map@ == old(registry)@,
            decreases KEY_RETRIES - attempts,
        {
            // A collision is astronomically unlikely; draw again.
            key = gen_key(&mut registry.rng);
            attempts = attempts + 1;
        }
        if registry.map.contains_key(&key) {
            // The generator kept colliding; take a key shown to be free.
            key = first_free_key(&registry.map);
        }
        registry.map.insert(key, self.resource.into_capability());
        ResourceHandle { key, _resource: PhantomData }
    }

    /// Return an immutable reference to the resource.
    pub fn as_ref(&self) -> (r: &R)
        ensures
            *r == self.resource,
    {
        &self.resource
    }

    /// Return a mutable reference to the resource.
    pub fn as_mut_ref(&mut self) -> (r: &mut R)
        ensures
            *r == old(self).resource,
            final(self).resource == *final(r),
    {
        &mut self.resource
    }
}

/// No two simultaneously-live resource handles carry equal keys: each
/// registration's key is absent from the registry it found, every earlier
/// handle's key is present in it, and registration only adds keys.  For two
/// registrations in sequence — the first put `c1` at `k1`, the second found
/// the resulting registry and returned `k2` — the keys differ.
pub proof fn lemma_registered_keys_distinct(
    m0: Map<u128, Capability>,
    c1: Capability,
    k1: u128,
    k2: u128,
)
    requires
        !m0.contains_key(k1),
        !m0.insert(k1, c1).contains_key(k2),
    ensures
        k1 != k2,
{
}

/// `with` on the key of the most recent successful registration returns
/// exactly the registered object: after `register` put `c` at key `k`, the
/// registry maps `k` to `c`, whatever it held before.
pub proof fn lemma_with_after_register(m0: Map<u128, Capability>, c: Capability, k: u128)
    ensures
        m0.insert(k, c).contains_key(k),
        m0.insert(k, c)[k] == c,
{
}

} // verus!
