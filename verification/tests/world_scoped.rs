use sl_viewer_world_api::world_scoped::{WorldPurge, WorldResetFrame, WorldScopedRegistry, world_was_reset};

#[test]
fn a_distant_teleport_purges_a_registered_store() {
    let mut frame = WorldResetFrame::default();
    let changed = frame.observe(&[true]);
    assert!(changed);
    assert!(world_was_reset(Some(&frame)), "a world-reset region change makes the frame a reset");
}

#[test]
fn a_crossing_purges_nothing() {
    let mut frame = WorldResetFrame::default();
    let changed = frame.observe(&[false]);
    assert!(!changed);
    assert!(!frame.is_reset());
    assert!(!world_was_reset(Some(&frame)));
}

#[test]
fn the_reset_flag_lasts_exactly_one_frame() {
    let mut frame = WorldResetFrame::default();
    frame.observe(&[false, true, true]);
    assert!(frame.is_reset(), "a burst is still one reset");
    frame.observe(&[]);
    assert!(!frame.is_reset(), "a quiet frame clears it");
}

#[test]
fn a_store_inserted_later_is_purged_once_it_exists() {
    // With no reset flag installed the purge never runs.
    assert!(!world_was_reset(None));
    let purge = WorldPurge::default();
    assert_eq!(purge.own_agent, None);
}

#[test]
fn registering_names_the_store_and_installs_the_plugin() {
    let mut registry = WorldScopedRegistry::default();
    assert!(registry.is_empty());
    assert!(registry.register(42, "world_scoped::tests::Store"));
    assert!(registry.contains(42));
    assert_eq!(registry.len(), 1);
    assert!(registry.names().iter().any(|name| name.ends_with("world_scoped::tests::Store")));
}

#[test]
fn a_double_registration_counts_once() {
    let mut registry = WorldScopedRegistry::default();
    assert!(registry.register(7, "Store"));
    assert!(!registry.register(7, "Store"));
    assert_eq!(registry.len(), 1);
}

#[test]
fn the_registry_names_stores_in_key_order() {
    let mut registry = WorldScopedRegistry::default();
    assert!(registry.register(30, "c"));
    assert!(registry.register(10, "a"));
    assert!(registry.register(20, "b"));
    assert!(!registry.register(10, "again"));
    assert_eq!(registry.names(), vec!["a", "b", "c"]);
    assert!(!registry.contains(15));
}
