//! World-scoped stores: what a distant teleport throws away.
//!
//! A region crossing, or a teleport to an already-connected region, keeps the
//! whole world and re-bases it. A distant teleport mints a fresh circuit and
//! the session clears its caches without a per-object kill, so every store
//! keyed by the old world has to be purged. A store declares its own scope by
//! registering; the registry names every store registered, each once, so the
//! set can be read back and checked. The reset flag is true for exactly the
//! frame whose events carried a world reset.

use crate::ids::AgentKey;
use std::collections::BTreeMap;
use vstd::prelude::*;
use vstd::std_specs::btree::increasing_seq;
use vstd::std_specs::cmp::OrdSpec;
use vstd::std_specs::iter::IteratorSpec;

verus! {

broadcast use {vstd::std_specs::btree::group_btree_axioms, vstd::laws_cmp::group_laws_cmp};

/// What a purge needs to know about the world being left behind.
#[derive(Debug, Clone, Copy, PartialEq, Eq, Structural)]
pub struct WorldPurge {
    /// The logged-in agent, whose own avatar, skeleton, appearance and worn
    /// attachments cross with it and are kept; `None` before login.
    pub own_agent: Option<AgentKey>,
}

impl Default for WorldPurge {
    /// No agent logged in.
    fn default() -> (p: WorldPurge)
        ensures
            p.own_agent is None,
    {
        WorldPurge { own_agent: None }
    }
}

/// Whether this frame carries a distant teleport's world reset.
#[derive(Debug)]
pub struct WorldResetFrame(bool);

impl WorldResetFrame {
    /// Whether this frame is a world reset.
    pub closed spec fn spec_is_reset(&self) -> bool {
        self.0
    }

    /// No reset.
    pub fn new() -> (f: WorldResetFrame)
        ensures
            !f.spec_is_reset(),
    {
        WorldResetFrame(false)
    }

    /// Whether this frame is a world reset.
    pub fn is_reset(&self) -> (b: bool)
        ensures
            b == self.spec_is_reset(),
    {
        self.0
    }

    /// Fold one frame's region changes into the flag: `world_resets` holds the
    /// world-reset bit of each region change the frame carried. Any one set
    /// makes the frame a reset; a burst is still one reset, and a frame with
    /// none clears it. The flag is only written when it changes; the result
    /// says whether it was.
    pub fn observe(&mut self, world_resets: &[bool]) -> (changed: bool)
        ensures
            final(self).spec_is_reset() == exists|i: int| 0 <= i < world_resets@.len() && #[trigger] world_resets@[i],
            changed == (final(self).spec_is_reset() != old(self).spec_is_reset()),
    {
        let mut reset = false;
        for i in 0..world_resets.len()
            invariant
                reset == exists|j: int| 0 <= j < i && #[trigger] world_resets@[j],
        {
            if world_resets[i] {
                reset = true;
            }
        }
        if self.0 != reset {
            self.0 = reset;
            true
        } else {
            false
        }
    }
}

impl Default for WorldResetFrame {
    /// No reset.
    fn default() -> (f: WorldResetFrame)
        ensures
            !f.spec_is_reset(),
    {
        WorldResetFrame::new()
    }
}

/// Run condition: this frame is a world reset. A missing flag (an app that
/// never installed it) never runs the purge.
pub fn world_was_reset(frame: Option<&WorldResetFrame>) -> (b: bool)
    ensures
        b == match frame {
            Some(f) => f.spec_is_reset(),
            None => false,
        },
{
    match frame {
        Some(f) => f.is_reset(),
        None => false,
    }
}

/// Every registered world-scoped store, by the number of its type, with its
/// type name: each store once, read back in key order.
#[derive(Debug)]
pub struct WorldScopedRegistry {
    /// The registered stores' names, by key.
    stores: BTreeMap<u64, &'static str>,
}

/// Whether `keys` strictly increase.
pub open spec fn strictly_increasing(keys: Seq<u64>) -> bool {
    forall|i: int, j: int| 0 <= i < j < keys.len() ==> keys[i] < keys[j]
}

/// Keys a map walks in increasing order strictly increase as numbers.
proof fn lemma_increasing_keys(s: Seq<&u64>)
    requires
        increasing_seq(s),
    ensures
        strictly_increasing(s.unref()),
{
    assert(vstd::laws_cmp::obeys_cmp::<u64>());
    assert(vstd::laws_cmp::obeys_cmp::<&u64>());
    assert forall|i: int, j: int| 0 <= i < j < s.unref().len() implies s.unref()[i] < s.unref()[j] by {
        assert(OrdSpec::cmp_spec(&s[i], &s[j]) is Less);
        assert(s.unref()[i] == *s[i] && s.unref()[j] == *s[j]);
    }
}

impl WorldScopedRegistry {
    /// The registered stores' names, by key.
    pub closed spec fn stores(&self) -> Map<u64, &'static str> {
        self.stores@
    }

    /// Nothing registered.
    pub fn new() -> (r: WorldScopedRegistry)
        ensures
            r.stores() == Map::<u64, &'static str>::empty(),
    {
        WorldScopedRegistry { stores: BTreeMap::new() }
    }

    /// Register the store of type `key` named `name`. A second registration
    /// of the same type counts once and keeps the first name; the result says
    /// whether this one was new.
    pub fn register(&mut self, key: u64, name: &'static str) -> (added: bool)
        ensures
            added == !old(self).stores().contains_key(key),
            !added ==> final(self).stores() == old(self).stores(),
            added ==> final(self).stores() == old(self).stores().insert(key, name),
    {
        if self.stores.contains_key(&key) {
            false
        } else {
            let _previous = self.stores.insert(key, name);
            true
        }
    }

    /// Whether the store of type `key` is registered.
    pub fn contains(&self, key: u64) -> (b: bool)
        ensures
            b == self.stores().contains_key(key),
    {
        self.stores.contains_key(&key)
    }

    /// The registered stores' type names, in key order: each registered key
    /// once, smallest first, with its name.
    pub fn names(&self) -> (names: Vec<&'static str>)
        ensures
            exists|keys: Seq<u64>|
                {
                    &&& strictly_increasing(keys)
                    &&& #[trigger] keys.to_set() == self.stores().dom()
                    &&& names@ == keys.map_values(|k: u64| self.stores()[k])
                },
    {
        let mut names: Vec<&'static str> = Vec::new();
        let ghost s = vstd::std_specs::btree::spec_keys_iter(&self.stores).remaining();
        proof {
            assert(increasing_seq(s));
        }
        for k in it: self.stores.keys()
            invariant
                it.seq() == s,
                s.unref().to_set() == self.stores@.dom(),
                names@ == s.take(it.index() as int).unref().map_values(|k: u64| self.stores@[k]),
        {
            assert(s[it.index() as int] == k);
            let name = *self.stores.get(k).unwrap();
            names.push(name);
            assert(names@ =~= s.take(it.index() + 1).unref().map_values(|k: u64| self.stores@[k]));
        }
        proof {
            assert(s.take(s.len() as int) =~= s);
            lemma_increasing_keys(s);
            assert(s.unref().to_set() == self.stores@.dom());
        }
        names
    }

    /// How many distinct stores are registered.
    pub fn len(&self) -> (n: usize)
        ensures
            n == self.stores().len(),
    {
        self.stores.len()
    }

    /// Whether no store is registered at all.
    pub fn is_empty(&self) -> (b: bool)
        ensures
            b == (self.stores().len() == 0),
    {
        self.stores.is_empty()
    }
}

impl Default for WorldScopedRegistry {
    /// Nothing registered.
    fn default() -> (r: WorldScopedRegistry)
        ensures
            r.stores() == Map::<u64, &'static str>::empty(),
    {
        WorldScopedRegistry::new()
    }
}

} // verus!
