use sl_viewer_world_api::terrain::{PatchKey, TerrainState, patch_index_of};

#[test]
fn per_region_revision_bumps_only_its_region() {
    let mut state: TerrainState<(), f32> = TerrainState::default();
    let a = 256_000u64;
    let b = 256_256u64;
    assert_eq!(state.region_revision(a), 0);
    assert_eq!(state.region_revision(b), 0);

    state.bump_revision(a);
    state.bump_revision(a);
    assert_eq!(state.region_revision(a), 2, "region a bumped twice");
    assert_eq!(state.region_revision(b), 0, "region b left untouched");

    let global_before = state.map_revision();
    state.bump_revision(b);
    assert_eq!(state.region_revision(b), 1);
    assert_eq!(state.region_revision(a), 2, "bumping b leaves a alone");
    assert!(state.map_revision() > global_before, "the global revision advances on any per-region bump");
}

#[test]
fn a_purge_hands_back_every_patch_entity_and_keeps_the_land_cache() {
    let mut state: TerrainState<(), f32> = TerrainState::default();
    let key: PatchKey = (7, 1, 2);
    let other: PatchKey = (7, 2, 2);
    let _ = state.patches.insert(patch_index_of(key), 100);
    let _ = state.patches.insert(patch_index_of(other), 101);
    let _ = state.raw_patches.insert(patch_index_of(key), 1.5);
    let _ = state.land_cache.insert(patch_index_of(key), 1.5);
    state.origin = Some(7);
    state.bump_revision(7);
    let before = state.map_revision();

    let mut despawned = state.purge();
    despawned.sort_unstable();
    assert_eq!(despawned, vec![100, 101]);
    assert!(state.patches.is_empty());
    assert!(state.raw_patches.is_empty());
    assert_eq!(state.land_cache.len(), 1, "the retained land cache survives");
    assert_eq!(state.origin(), None);
    assert_eq!(state.region_revision(7), 0);
    assert_ne!(state.map_revision(), before);
}

#[test]
fn patch_keys_pack_apart() {
    assert_eq!(patch_index_of((0, 0, 0)), 0);
    assert_eq!(patch_index_of((0, 0, 1)), 1);
    assert_eq!(patch_index_of((0, 1, 0)), 1u128 << 32);
    assert_eq!(patch_index_of((1, 0, 0)), 1u128 << 64);
    assert_ne!(patch_index_of((1, 2, 3)), patch_index_of((1, 3, 2)));
}
