use sl_viewer_world_api::ids::ScopedObjectId;
use sl_viewer_world_api::object_graph::{ExtraParams, ObjectState, ShapeFingerprint, TrackedObject};

fn no_extra() -> ExtraParams {
    ExtraParams { raw: Vec::new(), sculpt: None, flexible_softness: None, light: false }
}

fn scoped(id: u32) -> ScopedObjectId {
    ScopedObjectId { circuit: 1, id }
}

/// A prim with entity `entity`, parented under `parent` unless it is a root.
fn prim(entity: u64, key: u128, parent: Option<ScopedObjectId>, me: ScopedObjectId, faces: Vec<u64>) -> TrackedObject {
    TrackedObject {
        entity,
        full_key: key,
        geometry: entity + 1000,
        shape: ShapeFingerprint::of(9, vec![1, 2, 3], &no_extra(), (0, 0)),
        parent: parent.unwrap_or(me),
        is_root: parent.is_none(),
        parented: parent.is_some(),
        attachment_point: None,
        attachment_item: None,
        owner_id: 0x77,
        update_flags: 0,
        material: 3,
        extra: no_extra(),
        texture_animation: None,
        text: String::new(),
        text_color: [0, 0, 0, 0],
        face_entities: faces,
        animated: false,
        texture_entry: Vec::new(),
        media_url: None,
    }
}

#[test]
fn removing_a_root_takes_its_linkset_with_it() {
    let mut state = ObjectState::new();
    let root = scoped(10);
    let child = scoped(11);
    let other = scoped(20);
    state.track(root, prim(100, 0xA, None, root, vec![101]));
    state.track(child, prim(110, 0xB, Some(root), child, vec![111, 112]));
    state.track(other, prim(200, 0xC, None, other, vec![]));

    let removal = state.remove_object(root);
    assert_eq!(removal.dropped, vec![root, child]);
    // The root's entity and face, then the parented child's faces only: the
    // engine takes a parented child's entity along with its parent's.
    assert_eq!(removal.despawn, vec![100, 101, 111, 112]);
    assert_eq!(state.entity_by_scoped(&root), None);
    assert_eq!(state.entity_by_scoped(&child), None);
    assert_eq!(state.entity_by_scoped(&other), Some(200));
}

#[test]
fn removing_an_unknown_object_changes_nothing() {
    let mut state = ObjectState::new();
    let known = scoped(1);
    state.track(known, prim(10, 0x1, None, known, vec![]));
    let removal = state.remove_object(scoped(2));
    assert!(removal.dropped.is_empty());
    assert!(removal.despawn.is_empty());
    assert_eq!(state.entity_by_scoped(&known), Some(10));
}

#[test]
fn a_linkset_lists_its_root_first_then_children_by_local_id() {
    let mut state = ObjectState::new();
    let root = scoped(50);
    state.track(root, prim(500, 0x50, None, root, vec![]));
    for id in [53, 51, 52] {
        let me = scoped(id);
        state.track(me, prim(u64::from(id) * 10, u128::from(id), Some(root), me, vec![]));
    }
    assert_eq!(state.linkset_members(&root), vec![root, scoped(51), scoped(52), scoped(53)]);
    assert_eq!(state.linkset_prim_count(&root), 4);
    assert!(state.linkset_members(&scoped(99)).is_empty());
}

#[test]
fn a_purge_forgets_everything_and_despawns_each_entity() {
    let mut state = ObjectState::new();
    let a = scoped(1);
    let b = scoped(2);
    state.track(a, prim(10, 0x1, None, a, vec![11]));
    state.track(b, prim(20, 0x2, None, b, vec![]));
    let mut despawn = state.purge();
    despawn.sort_unstable();
    assert!(despawn.contains(&10) && despawn.contains(&20));
    assert_eq!(state.entity_by_scoped(&a), None);
    assert_eq!(state.origin(), None);
}

#[test]
fn a_full_key_finds_its_scoped_ids() {
    let mut state = ObjectState::new();
    let a = scoped(7);
    state.track(a, prim(70, 0xFEED, None, a, vec![]));
    assert_eq!(state.scoped_by_full_id(0xFEED), vec![a]);
    assert!(state.scoped_by_full_id(0xBEEF).is_empty());
    assert_eq!(state.full_key(&a), Some(0xFEED));
    assert_eq!(state.entity_of(0xFEED), Some(70));
}

#[test]
fn the_same_shape_is_no_rebuild_and_a_new_one_is() {
    let first = ShapeFingerprint::of(9, vec![1, 2, 3], &no_extra(), (100, 200));
    let same = ShapeFingerprint::of(9, vec![1, 2, 3], &no_extra(), (300, 400));
    let other = ShapeFingerprint::of(9, vec![1, 2, 4], &no_extra(), (100, 200));
    assert!(first.same_shape(&same), "the spread only counts for grass");
    assert!(!first.same_shape(&other));
    assert_eq!(first.pcode(), 9);
}
