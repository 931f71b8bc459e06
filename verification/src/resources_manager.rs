use vstd::prelude::*;

verus! {

// A deduplicating cache of shared resources, keyed by configuration
// values. Instances live in an arena of slots; an owner count per slot
// plays the role of the strong references, and a retired slot is the
// tombstone a reconstructed instance leaves behind. Two handles denote
// the identical shared instance exactly when they are equal.

/// Marker for the kinds of values the cache can hold.
pub trait Resource {

}

/// A handle to a cached resource: the arena slot holding the instance.
#[derive(Debug, Clone, Copy, PartialEq, Eq, Structural)]
pub struct ResourceHandle {
    pub slot: usize,
}

/// A configuration key: a description of a resource, from which the cache
/// can build the resource itself, resolving nested configurations through
/// the same cache.
pub trait ResourceConfig: Sized {
    type AssociatedResource;

    /// When two configurations denote the same resource.
    spec fn key_eqv(self, other: Self) -> bool;

    /// `key_eqv` is an equivalence relation.
    proof fn lemma_key_eqv(a: Self, b: Self, c: Self)
        ensures
            Self::key_eqv(a, a),
            Self::key_eqv(a, b) ==> Self::key_eqv(b, a),
            Self::key_eqv(a, b) && Self::key_eqv(b, c) ==> Self::key_eqv(a, c),
    ;

    /// Decide `key_eqv`.
    fn eq_config(&self, other: &Self) -> (r: bool)
        ensures
            r == Self::key_eqv(*self, *other),
    ;

    /// An equal key under which the cache registers the instance.
    fn clone_config(&self) -> (r: Self)
        ensures
            Self::key_eqv(r, *self),
    ;
}

/// One arena slot: the key it was registered under, how many owners hold
/// the instance, whether a newer instance superseded it, and the instance.
pub struct CacheEntry<K: ResourceConfig> {
    pub key: K,
    pub owners: u64,
    pub retired: bool,
    pub resource: K::AssociatedResource,
}

/// Holds one shared instance of each requested resource so that several
/// users read the same one. `K` is the configuration type whose values
/// identify a resource.
pub struct ResourceManager<K: ResourceConfig> {
    pub resources: Vec<CacheEntry<K>>,
}

impl<K: ResourceConfig> ResourceManager<K> {
    pub open spec fn entries(self) -> Seq<CacheEntry<K>> {
        self.resources@
    }

    /// Slot `i` holds the current instance registered under its key.
    pub open spec fn active_at(self, i: int) -> bool {
        0 <= i < self.entries().len() && !self.entries()[i].retired
    }

    /// Slot `i` holds the current instance for `config`.
    pub open spec fn matches_at(self, i: int, config: K) -> bool {
        self.active_at(i) && K::key_eqv(self.entries()[i].key, config)
    }

    /// Some slot holds the current instance for `config`.
    pub open spec fn has_entry(self, config: K) -> bool {
        exists|i: int| self.matches_at(i, config)
    }

    /// The slot holding the current instance for `config`.
    pub open spec fn slot_of(self, config: K) -> int {
        choose|i: int| self.matches_at(i, config)
    }

    /// The current instance for `config` exists and still has an owner.
    /// Only then does a request return the identical shared instance; a
    /// stale instance (no owners left) is reconstructed instead.
    pub open spec fn is_live(self, config: K) -> bool {
        self.has_entry(config) && self.entries()[self.slot_of(config)].owners > 0
    }

    /// At most one slot is active per key.
    pub open spec fn wf(self) -> bool {
        forall|i: int, j: int|
            #![trigger K::key_eqv(self.entries()[i].key, self.entries()[j].key)]
            0 <= i < j < self.entries().len() && !self.entries()[i].retired
                && !self.entries()[j].retired ==> !K::key_eqv(
                self.entries()[i].key,
                self.entries()[j].key,
            )
    }

    /// An active slot whose key is equal to `config` is the slot every
    /// equal-key request resolves to.
    pub proof fn lemma_slot_unique(self, config: K, i: int)
        requires
            self.wf(),
            self.matches_at(i, config),
        ensures
            self.has_entry(config),
            self.slot_of(config) == i,
    {
        assert(self.has_entry(config));
        let j = self.slot_of(config);
        if i != j {
            K::lemma_key_eqv(self.entries()[j].key, config, config);
            K::lemma_key_eqv(self.entries()[i].key, config, self.entries()[j].key);
            if i < j {
                assert(!K::key_eqv(self.entries()[i].key, self.entries()[j].key));
            } else {
                K::lemma_key_eqv(self.entries()[i].key, self.entries()[j].key, config);
                K::lemma_key_eqv(self.entries()[j].key, self.entries()[i].key, config);
                assert(!K::key_eqv(self.entries()[j].key, self.entries()[i].key));
            }
        }
    }

    /// Later operations never change the key or the instance a slot
    /// already holds: slots are only added, retired, or re-counted.
    pub open spec fn preserves_entries(pre: Self, post: Self) -> bool {
        &&& post.entries().len() >= pre.entries().len()
        &&& forall|i: int|
            0 <= i < pre.entries().len() ==> #[trigger] post.entries()[i].key
                == pre.entries()[i].key && post.entries()[i].resource
                == pre.entries()[i].resource
    }

    /// The entry after one more owner takes the instance of `e`.
    pub open spec fn bump_entry(e: CacheEntry<K>) -> CacheEntry<K> {
        CacheEntry {
            owners: if e.owners < u64::MAX {
                (e.owners + 1) as u64
            } else {
                e.owners
            },
            ..e
        }
    }

    /// How a request that finds a live instance changes the cache: the
    /// matching slot gains an owner and nothing else moves.
    pub open spec fn hit_transition(pre: Self, post: Self, config: K, h: ResourceHandle) -> bool {
        &&& pre.is_live(config)
        &&& h.slot == pre.slot_of(config)
        &&& post.entries() == pre.entries().update(
            h.slot as int,
            Self::bump_entry(pre.entries()[h.slot as int]),
        )
    }

    pub fn new() -> (mgr: Self)
        ensures
            mgr.wf(),
            mgr.entries().len() == 0,
    {
        ResourceManager { resources: Vec::new() }
    }

    /// The active slot registered under a key equal to `config`, if any.
    fn find_slot(&self, config: &K) -> (r: Option<usize>)
        requires
            self.wf(),
        ensures
            match r {
                Some(slot) => self.matches_at(slot as int, *config) && self.slot_of(*config)
                    == slot,
                None => !self.has_entry(*config),
            },
    {
        let n = self.resources.len();
        let mut i: usize = 0;
        while i < n
            invariant
                self.wf(),
                n == self.entries().len(),
                i <= n,
                forall|k: int| 0 <= k < i ==> !self.matches_at(k, *config),
            decreases n - i,
        {
            if !self.resources[i].retired && self.resources[i].key.eq_config(config) {
                proof {
                    self.lemma_slot_unique(*config, i as int);
                }
                return Some(i);
            }
            i = i + 1;
        }
        None
    }

    /// Register a newly built instance under a key equal to `config`,
    /// superseding a stale instance left from before.
    pub fn install_resource(&mut self, config: &K, resource: K::AssociatedResource) -> (h:
        ResourceHandle)
        requires
            old(self).wf(),
        ensures
            final(self).wf(),
            final(self).is_live(*config),
            h.slot == final(self).slot_of(*config),
            h.slot >= old(self).entries().len(),
            h.slot + 1 == final(self).entries().len(),
            final(self).entries()[h.slot as int].owners == 1,
            K::key_eqv(final(self).entries()[h.slot as int].key, *config),
            final(self).entries()[h.slot as int].resource == resource,
            Self::preserves_entries(*old(self), *final(self)),
    {
        let ghost pre = *self;
        // a nested resolution may have registered an instance under this
        // key meanwhile; the newly built instance supersedes it
        match self.find_slot(config) {
            Some(slot) => {
                self.resources[slot].retired = true;
                proof {
                    assert forall|i: int| !self.matches_at(i, *config) by {
                        if self.matches_at(i, *config) {
                            assert(pre.matches_at(i, *config));
                            pre.lemma_slot_unique(*config, i);
                        }
                    }
                }
            },
            None => {
                proof {
                    assert forall|i: int| !self.matches_at(i, *config) by {
                        if self.matches_at(i, *config) {
                            assert(pre.matches_at(i, *config));
                        }
                    }
                }
            },
        }
        let ghost mid = *self;
        let h = ResourceHandle { slot: self.resources.len() };
        let key = config.clone_config();
        self.resources.push(
            CacheEntry { key, owners: 1, retired: false, resource },
        );
        proof {
            let n = self.entries().len() - 1;
            assert forall|i: int, j: int|
                0 <= i < j < self.entries().len() && !self.entries()[i].retired
                    && !self.entries()[j].retired implies !K::key_eqv(
                self.entries()[i].key,
                self.entries()[j].key,
            ) by {
                if j == n {
                    if K::key_eqv(self.entries()[i].key, self.entries()[j].key) {
                        K::lemma_key_eqv(self.entries()[i].key, self.entries()[n].key, *config);
                        assert(mid.entries()[i] == self.entries()[i]);
                        assert(mid.matches_at(i, *config));
                    }
                } else {
                    assert(mid.entries()[i] == self.entries()[i]);
                    assert(mid.entries()[j] == self.entries()[j]);
                    assert(!K::key_eqv(mid.entries()[i].key, mid.entries()[j].key));
                }
            }
            self.lemma_slot_unique(*config, n);
        }
        h
    }

    /// Hand out the live instance for `config` once more, if there is one:
    /// the identical slot, the identical resource, one more owner, nothing
    /// else changed.
    pub fn acquire(&mut self, config: &K) -> (r: Option<ResourceHandle>)
        requires
            old(self).wf(),
        ensures
            final(self).wf(),
            old(self).is_live(*config) == r is Some,
            Self::preserves_entries(*old(self), *final(self)),
            match r {
                Some(h) => Self::hit_transition(*old(self), *final(self), *config, h)
                    && final(self).is_live(*config) && h.slot == final(self).slot_of(*config),
                None => *final(self) == *old(self),
            },
    {
        match self.find_slot(config) {
            Some(slot) => {
                let owners = self.resources[slot].owners;
                if owners > 0 {
                    let new_owners = if owners < u64::MAX {
                        owners + 1
                    } else {
                        owners
                    };
                    self.resources[slot].owners = new_owners;
                    let h = ResourceHandle { slot };
                    proof {
                        assert(self.entries() =~= old(self).entries().update(
                            slot as int,
                            Self::bump_entry(old(self).entries()[slot as int]),
                        ));
                        Self::lemma_wf_after_hit(*old(self), *self, *config, h);
                    }
                    Some(h)
                } else {
                    None
                }
            },
            None => None,
        }
    }

    /// Read the instance a handle denotes.
    pub fn read_resource(&self, h: ResourceHandle) -> (r: &K::AssociatedResource)
        requires
            h.slot < self.entries().len(),
        ensures
            *r == self.entries()[h.slot as int].resource,
    {
        &self.resources[h.slot].resource
    }

    /// Give up one ownership of the instance a handle denotes. Once every
    /// owner has done so the instance is stale: a later equal-key request
    /// reconstructs instead of returning it.
    pub fn release_resource(&mut self, h: ResourceHandle)
        requires
            old(self).wf(),
            h.slot < old(self).entries().len(),
            old(self).entries()[h.slot as int].owners >= 1,
        ensures
            final(self).wf(),
            Self::preserves_entries(*old(self), *final(self)),
            final(self).entries() == old(self).entries().update(
                h.slot as int,
                CacheEntry {
                    owners: (old(self).entries()[h.slot as int].owners - 1) as u64,
                    ..old(self).entries()[h.slot as int]
                },
            ),
    {
        let owners = self.resources[h.slot].owners;
        self.resources[h.slot].owners = owners - 1;
        proof {
            assert forall|i: int, j: int|
                0 <= i < j < self.entries().len() && !self.entries()[i].retired
                    && !self.entries()[j].retired implies !K::key_eqv(
                self.entries()[i].key,
                self.entries()[j].key,
            ) by {
                assert(self.entries()[i].key == old(self).entries()[i].key);
                assert(self.entries()[j].key == old(self).entries()[j].key);
                assert(!K::key_eqv(old(self).entries()[i].key, old(self).entries()[j].key));
            }
        }
    }

    /// Whether a request for `config` would return the existing instance.
    pub fn has_live_instance(&self, config: &K) -> (r: bool)
        requires
            self.wf(),
        ensures
            r == self.is_live(*config),
    {
        match self.find_slot(config) {
            Some(slot) => self.resources[slot].owners > 0,
            None => false,
        }
    }
}

/// Requesting a resource twice with an equal key, while the instance the
/// first request returned is still held, hands out the identical shared
/// instance: the second handle equals the first.
pub proof fn lemma_get_twice_same_instance<K: ResourceConfig>(
    m0: ResourceManager<K>,
    m1: ResourceManager<K>,
    m2: ResourceManager<K>,
    c1: K,
    c2: K,
    h1: ResourceHandle,
    h2: ResourceHandle,
)
    requires
        m0.wf(),
        K::key_eqv(c1, c2),
        ResourceManager::hit_transition(m0, m1, c1, h1),
        ResourceManager::hit_transition(m1, m2, c2, h2),
    ensures
        h1 == h2,
{
    let i = m0.slot_of(c1);
    assert(m0.matches_at(i, c1));
    ResourceManager::lemma_wf_after_hit(m0, m1, c1, h1);
    K::lemma_key_eqv(m1.entries()[i].key, c1, c2);
    assert(m1.matches_at(i, c2));
    m1.lemma_slot_unique(c2, i);
}

impl<K: ResourceConfig> ResourceManager<K> {
    /// A request that finds a live instance leaves the cache well-formed
    /// and the instance live, under the same key, in the same slot.
    pub proof fn lemma_wf_after_hit(pre: Self, post: Self, config: K, h: ResourceHandle)
        requires
            pre.wf(),
            Self::hit_transition(pre, post, config, h),
        ensures
            post.wf(),
            post.is_live(config),
            post.slot_of(config) == h.slot,
            post.entries()[h.slot as int].resource == pre.entries()[h.slot as int].resource,
    {
        let i = pre.slot_of(config);
        assert(pre.matches_at(i, config));
        assert(post.matches_at(i, config));
        assert forall|a: int, b: int|
            0 <= a < b < post.entries().len() && !post.entries()[a].retired
                && !post.entries()[b].retired implies !K::key_eqv(
            post.entries()[a].key,
            post.entries()[b].key,
        ) by {
            assert(post.entries()[a].key == pre.entries()[a].key);
            assert(post.entries()[b].key == pre.entries()[b].key);
            assert(!K::key_eqv(pre.entries()[a].key, pre.entries()[b].key));
        }
        post.lemma_slot_unique(config, i);
    }
}

/// A reconstructed instance is distinct from every instance the cache held
/// before: a handle from before denotes an old slot, a reconstructed
/// instance lives in a fresh one.
pub proof fn lemma_reconstructed_instance_is_distinct<K: ResourceConfig>(
    m: ResourceManager<K>,
    h_old: ResourceHandle,
    h_new: ResourceHandle,
)
    requires
        h_old.slot < m.entries().len(),
        h_new.slot >= m.entries().len(),
    ensures
        h_old != h_new,
{
}

} // verus!
