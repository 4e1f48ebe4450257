//! The region terrain the world layers share: per-region compositing state,
//! the rendered entity of each patch, the raw patches kept for rebuilds and
//! ground reads, and the revisions a derived consumer watches to notice that
//! height or compositing data changed.
//!
//! A patch is keyed by its region and its grid position within that region;
//! every map here holds that key packed into one 128-bit number.

use crate::collections::map_keys;
use crate::ids::{Entity, RegionHandle, TextureKey};
use std::collections::HashMap;
use vstd::prelude::*;

verus! {

broadcast use vstd::std_specs::hash::group_hash_axioms;

/// The number of ground ("detail") textures a region blends between.
pub const DETAIL_COUNT: usize = 4;

/// A patch's key: its region plus grid position within that region.
pub type PatchKey = (RegionHandle, u32, u32);

/// A patch key packed into one map key: the region in the top 64 bits, then
/// the grid column, then the grid row.
pub open spec fn patch_index(k: PatchKey) -> u128 {
    (k.0 as int * 0x1_0000_0000_0000_0000 + k.1 as int * 0x1_0000_0000 + k.2 as int) as u128
}

/// The patch key a packed map key stands for.
pub open spec fn patch_key_of(i: u128) -> PatchKey {
    (
        (i / 0x1_0000_0000_0000_0000) as u64,
        ((i % 0x1_0000_0000_0000_0000) / 0x1_0000_0000) as u32,
        (i % 0x1_0000_0000) as u32,
    )
}

/// Unpacking a packed patch key gives the key back, so two keys share a map
/// key only when they are the same key.
pub proof fn lemma_patch_index_unpacks(k: PatchKey)
    ensures
        patch_key_of(patch_index(k)) == k,
        patch_index(k) / 0x1_0000_0000_0000_0000 == k.0,
{
    let r = k.0 as int;
    let x = k.1 as int;
    let y = k.2 as int;
    let low = x * 0x1_0000_0000 + y;
    assert(0 <= low < 0x1_0000_0000_0000_0000) by (nonlinear_arith)
        requires
            low == x * 0x1_0000_0000 + y,
            0 <= x < 0x1_0000_0000,
            0 <= y < 0x1_0000_0000,
    ;
    let i = r * 0x1_0000_0000_0000_0000 + low;
    assert(0 <= i < 0x1_0000_0000_0000_0000_0000_0000_0000_0000) by (nonlinear_arith)
        requires
            i == r * 0x1_0000_0000_0000_0000 + low,
            0 <= r < 0x1_0000_0000_0000_0000,
            0 <= low < 0x1_0000_0000_0000_0000,
    ;
    assert(i / 0x1_0000_0000_0000_0000 == r) by (nonlinear_arith)
        requires
            i == r * 0x1_0000_0000_0000_0000 + low,
            0 <= low < 0x1_0000_0000_0000_0000,
    ;
    assert(i % 0x1_0000_0000_0000_0000 == low) by (nonlinear_arith)
        requires
            i == r * 0x1_0000_0000_0000_0000 + low,
            0 <= low < 0x1_0000_0000_0000_0000,
    ;
    assert(low / 0x1_0000_0000 == x) by (nonlinear_arith)
        requires
            low == x * 0x1_0000_0000 + y,
            0 <= y < 0x1_0000_0000,
    ;
    assert(i % 0x1_0000_0000 == y) by (nonlinear_arith)
        requires
            i == r * 0x1_0000_0000_0000_0000 + x * 0x1_0000_0000 + y,
            0 <= y < 0x1_0000_0000,
    ;
    assert(patch_index(k) == i);
}

/// A patch key as a map key.
pub fn patch_index_of(k: PatchKey) -> (i: u128)
    ensures
        i == patch_index(k),
{
    proof {
        lemma_patch_index_unpacks(k);
    }
    (k.0 as u128) * 0x1_0000_0000_0000_0000 + (k.1 as u128) * 0x1_0000_0000 + (k.2 as u128)
}

/// The patch key a map key stands for.
pub fn patch_key_from(i: u128) -> (k: PatchKey)
    ensures
        k == patch_key_of(i),
        patch_index(k) == i,
{
    let region = i / 0x1_0000_0000_0000_0000;
    let low = i % 0x1_0000_0000_0000_0000;
    let k: PatchKey = (region as u64, (low / 0x1_0000_0000) as u32, (i % 0x1_0000_0000) as u32);
    proof {
        assert(i == region * 0x1_0000_0000_0000_0000 + low);
        assert(low == (low / 0x1_0000_0000) * 0x1_0000_0000 + low % 0x1_0000_0000);
        assert(low % 0x1_0000_0000 == i % 0x1_0000_0000) by (nonlinear_arith)
            requires
                i == region * 0x1_0000_0000_0000_0000 + low,
                0 <= low < 0x1_0000_0000_0000_0000,
        ;
        assert(region < 0x1_0000_0000_0000_0000) by (nonlinear_arith)
            requires
                region == i / 0x1_0000_0000_0000_0000,
                0 <= i < 0x1_0000_0000_0000_0000_0000_0000_0000_0000,
        ;
        assert(low / 0x1_0000_0000 < 0x1_0000_0000) by (nonlinear_arith)
            requires
                0 <= low < 0x1_0000_0000_0000_0000,
        ;
    }
    k
}
/// Per-region terrain-compositing state: the compositing parameters (of type
/// `C`) once the region's handshake has been seen, the texture requested for
/// each detail slot, and whether they have been requested.
#[derive(Debug)]
pub struct RegionTerrain<C> {
    /// The region's compositing parameters; `None` until the handshake.
    pub composition: Option<C>,
    /// The texture requested for each detail slot (`None` for a nil slot).
    pub detail_keys: [Option<TextureKey>; 4],
    /// Whether this region's detail textures have been requested yet.
    pub requested: bool,
}

impl<C> RegionTerrain<C> {
    /// Nothing learned or requested yet.
    pub fn new() -> (r: RegionTerrain<C>)
        ensures
            r.composition is None,
            forall|i: int| 0 <= i < 4 ==> r.detail_keys@[i] is None,
            !r.requested,
    {
        RegionTerrain { composition: None, detail_keys: [None, None, None, None], requested: false }
    }
}

/// Viewer-side terrain bookkeeping across the home region and its
/// neighbours, with compositing parameters of type `C` and raw patches of
/// type `P`.
#[derive(Debug)]
pub struct TerrainState<C, P> {
    /// The scene origin: the region whose south-west corner is the scene's
    /// `(0, 0)`.
    pub origin: Option<RegionHandle>,
    /// Per-region compositing state, by region handle.
    pub regions: HashMap<RegionHandle, RegionTerrain<C>>,
    /// The rendered entity for each patch, by packed patch key.
    pub patches: HashMap<u128, Entity>,
    /// The most recent raw patch for each packed patch key.
    pub raw_patches: HashMap<u128, P>,
    /// The last known land patch for each packed patch key, kept across a
    /// region teardown so a ground read still has an answer.
    pub land_cache: HashMap<u128, P>,
    /// The global and per-region revisions, moved only by
    /// [`TerrainState::bump_revision`] and [`TerrainState::purge`].
    pub revisions: TerrainRevisions,
}

/// The revisions a derived consumer watches: one bumped whenever height or
/// compositing data changes anywhere, and one per region bumped only when
/// that region's data changes.
#[derive(Debug)]
pub struct TerrainRevisions {
    /// Bumped whenever height or compositing data changes anywhere.
    map_revision: u64,
    /// Each region's own revision, bumped only when its data changes.
    region_revisions: HashMap<RegionHandle, u64>,
}

impl TerrainRevisions {
    /// The global terrain-data revision.
    pub closed spec fn global(&self) -> u64 {
        self.map_revision
    }

    /// Each region's own revision, for the regions that have one.
    pub closed spec fn per_region(&self) -> Map<RegionHandle, u64> {
        self.region_revisions@
    }
}

impl<C, P> TerrainState<C, P> {
    /// The global terrain-data revision.
    pub open spec fn spec_map_revision(&self) -> u64 {
        self.revisions.global()
    }

    /// Each region's own revision, for the regions that have one.
    pub open spec fn spec_region_revisions(&self) -> Map<RegionHandle, u64> {
        self.revisions.per_region()
    }

    /// Region `region`'s own revision: `0` before any of its data arrived.
    pub open spec fn spec_region_revision(&self, region: RegionHandle) -> u64 {
        if self.spec_region_revisions().contains_key(region) {
            self.spec_region_revisions()[region]
        } else {
            0
        }
    }

    /// No terrain yet.
    pub fn new() -> (t: TerrainState<C, P>)
        ensures
            t.origin is None,
            t.regions@ == Map::<RegionHandle, RegionTerrain<C>>::empty(),
            t.patches@ == Map::<u128, Entity>::empty(),
            t.raw_patches@ == Map::<u128, P>::empty(),
            t.land_cache@ == Map::<u128, P>::empty(),
            t.spec_map_revision() == 0,
            t.spec_region_revisions() == Map::<RegionHandle, u64>::empty(),
    {
        TerrainState {
            origin: None,
            regions: HashMap::new(),
            patches: HashMap::new(),
            raw_patches: HashMap::new(),
            land_cache: HashMap::new(),
            revisions: TerrainRevisions { map_revision: 0, region_revisions: HashMap::new() },
        }
    }

    /// The scene origin region, or `None` before the first patch arrives.
    pub fn origin(&self) -> (o: Option<RegionHandle>)
        ensures
            o == self.origin,
    {
        self.origin
    }

    /// The terrain-data revision, bumped on every ingested patch and learned
    /// composition.
    pub fn map_revision(&self) -> (r: u64)
        ensures
            r == self.spec_map_revision(),
    {
        self.revisions.map_revision
    }

    /// This region's own terrain revision; `0` before any of its data.
    pub fn region_revision(&self, region: RegionHandle) -> (r: u64)
        ensures
            r == self.spec_region_revision(region),
    {
        match self.revisions.region_revisions.get(&region) {
            Some(r) => *r,
            None => 0,
        }
    }

    /// Bump the global revision and `region`'s own one (both wrap).
    pub fn bump_revision(&mut self, region: RegionHandle)
        ensures
            final(self).spec_map_revision() == (old(self).spec_map_revision() + 1) % 0x1_0000_0000_0000_0000,
            final(self).spec_region_revisions() == old(self).spec_region_revisions().insert(
                region,
                ((old(self).spec_region_revision(region) + 1) % 0x1_0000_0000_0000_0000) as u64,
            ),
            final(self).origin == old(self).origin,
            final(self).regions@ == old(self).regions@,
            final(self).patches@ == old(self).patches@,
            final(self).raw_patches@ == old(self).raw_patches@,
            final(self).land_cache@ == old(self).land_cache@,
    {
        self.revisions.map_revision = self.revisions.map_revision.wrapping_add(1);
        let current = match self.revisions.region_revisions.get(&region) {
            Some(r) => *r,
            None => 0,
        };
        self.revisions.region_revisions.insert(region, current.wrapping_add(1));
    }

    /// The compositing parameters of `region`, once its handshake was seen.
    pub fn composition_of(&self, region: RegionHandle) -> (c: Option<&C>)
        ensures
            match c {
                Some(c) => self.regions@.contains_key(region) && self.regions@[region].composition == Some(*c),
                None => !self.regions@.contains_key(region) || self.regions@[region].composition is None,
            },
    {
        match self.regions.get(&region) {
            Some(entry) => match &entry.composition {
                Some(c) => Some(c),
                None => None,
            },
            None => None,
        }
    }

    /// Forget everything of the departed world but the retained land cache:
    /// the per-region state, the raw patches, the per-region revisions and
    /// the origin; the global revision moves. Hands back every rendered patch
    /// entity, for the caller to despawn.
    pub fn purge(&mut self) -> (despawn: Vec<Entity>)
        ensures
            despawn@.len() == old(self).patches@.len(),
            forall|e: Entity| #[trigger] despawn@.contains(e) <==> exists|k: u128|
                #[trigger] old(self).patches@.contains_key(k) && old(self).patches@[k] == e,
            final(self).patches@ == Map::<u128, Entity>::empty(),
            final(self).regions@ == Map::<RegionHandle, RegionTerrain<C>>::empty(),
            final(self).raw_patches@ == Map::<u128, P>::empty(),
            final(self).land_cache@ == old(self).land_cache@,
            final(self).spec_map_revision() == (old(self).spec_map_revision() + 1) % 0x1_0000_0000_0000_0000,
            final(self).spec_region_revisions() == Map::<RegionHandle, u64>::empty(),
            final(self).origin is None,
    {
        let keys = map_keys(&self.patches);
        let mut despawn: Vec<Entity> = Vec::new();
        for i in 0..keys.len()
            invariant
                keys@.no_duplicates(),
                forall|k: u128| keys@.contains(k) <==> self.patches@.contains_key(k),
                self.patches@ == old(self).patches@,
                despawn@.len() == i,
                forall|j: int| 0 <= j < i ==> #[trigger] despawn@[j] == self.patches@[keys@[j]],
        {
            let k = keys[i];
            assert(keys@.contains(k));
            let e = *self.patches.get(&k).unwrap();
            despawn.push(e);
        }
        proof {
            let m = old(self).patches@;
            assert(m.dom().finite());
            keys@.unique_seq_to_set();
            assert(keys@.to_set() =~= m.dom());
            assert forall|e: Entity| #[trigger] despawn@.contains(e) <==> exists|k: u128|
                #[trigger] m.contains_key(k) && m[k] == e by {
                if despawn@.contains(e) {
                    let j = choose|j: int| 0 <= j < despawn@.len() && despawn@[j] == e;
                    assert(keys@.contains(keys@[j]));
                    assert(m.contains_key(keys@[j]));
                }
                if exists|k: u128| #[trigger] m.contains_key(k) && m[k] == e {
                    let k = choose|k: u128| #[trigger] m.contains_key(k) && m[k] == e;
                    assert(keys@.contains(k));
                    let j = choose|j: int| 0 <= j < keys@.len() && keys@[j] == k;
                    assert(despawn@[j] == e);
                }
            }
        }
        self.patches = HashMap::new();
        self.regions = HashMap::new();
        self.raw_patches = HashMap::new();
        self.revisions.map_revision = self.revisions.map_revision.wrapping_add(1);
        self.revisions.region_revisions = HashMap::new();
        self.origin = None;
        despawn
    }
}

/// Bumping one region's revision moves that region's and the global
/// revision (each wrapping) and leaves every other region's alone.
pub proof fn law_a_bump_touches_only_its_region<C, P>(
    before: TerrainState<C, P>,
    after: TerrainState<C, P>,
    region: RegionHandle,
    other: RegionHandle,
)
    requires
        after.spec_map_revision() == (before.spec_map_revision() + 1) % 0x1_0000_0000_0000_0000,
        after.spec_region_revisions() == before.spec_region_revisions().insert(
            region,
            ((before.spec_region_revision(region) + 1) % 0x1_0000_0000_0000_0000) as u64,
        ),
        other != region,
    ensures
        after.spec_region_revision(region) == (before.spec_region_revision(region) + 1) % 0x1_0000_0000_0000_0000,
        after.spec_region_revision(other) == before.spec_region_revision(other),
        before.spec_map_revision() < u64::MAX ==> after.spec_map_revision() > before.spec_map_revision(),
{
}

impl<C, P> Default for TerrainState<C, P> {
    /// No terrain yet.
    fn default() -> (t: TerrainState<C, P>)
        ensures
            t.origin is None,
            t.patches@ == Map::<u128, Entity>::empty(),
            t.spec_map_revision() == 0,
            t.spec_region_revisions() == Map::<RegionHandle, u64>::empty(),
    {
        TerrainState::new()
    }
}

} // verus!
