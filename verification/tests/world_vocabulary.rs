use sl_viewer_world_api::world_vocabulary::{AvatarEntities, AvatarState, PROVISIONAL_ID_CHARS, provisional_label};
use std::collections::HashMap;

#[test]
fn provisional_label_is_a_short_id_fragment() {
    let agent: u128 = 0x1234_5678_9abc;
    let label = provisional_label(agent);
    assert_eq!(label.chars().count(), PROVISIONAL_ID_CHARS);
    assert!(format!("{agent:032x}").starts_with(&label));
}

#[test]
fn the_name_revision_moves_for_names_and_nothing_else() {
    let agent: u128 = 0xa1;
    let mut avatars = AvatarState::default();
    let quiet = avatars.names_revision();

    // An avatar arriving where the viewer can see it is not a name.
    let _previous = avatars.coarse_region.insert(agent, 0x1234);
    assert_eq!(avatars.names_revision(), quiet, "an avatar moving into view is not a name resolving");

    // A name learned from traffic is.
    avatars.note_legacy_name(agent, "Somebody Resident");
    let named = avatars.names_revision();
    assert_ne!(named, quiet);
    assert_eq!(avatars.label_text(agent), "Somebody Resident");

    // So is an alias replacing one, which renames them everywhere at once.
    avatars.set_name_aliases(HashMap::new());
    assert_ne!(avatars.names_revision(), named);
}

#[test]
fn labelled_avatars_list_full_objects_first_and_skip_a_coarse_twin() {
    let mut avatars = AvatarState::default();
    let _ = avatars.objects.insert(1, AvatarEntities { anchor: 10, label: 11 });
    let _ = avatars.coarse.insert(1, AvatarEntities { anchor: 90, label: 91 });
    let _ = avatars.coarse.insert(2, AvatarEntities { anchor: 20, label: 21 });
    let labelled = avatars.labelled_avatars();
    assert_eq!(labelled, vec![(1, 10, 11), (2, 20, 21)]);
}

#[test]
fn attachment_nodes_are_listed_per_point() {
    let mut avatars = AvatarState::default();
    assert!(avatars.attachment_nodes_of(5).is_empty());
    let mut nodes = HashMap::new();
    let _ = nodes.insert(2u8, 200u64);
    let _ = nodes.insert(7u8, 700u64);
    let _ = avatars.attachment_nodes.insert(5, nodes);
    let mut listed = avatars.attachment_nodes_of(5);
    listed.sort_unstable();
    assert_eq!(listed, vec![(2, 200), (7, 700)]);
}

#[test]
fn a_traffic_name_never_overwrites_a_resolved_one() {
    let mut avatars = AvatarState::default();
    avatars.note_legacy_name(7, "First Name");
    avatars.note_legacy_name(7, "Second Name");
    assert_eq!(avatars.name_of(7), Some("First Name"));
    let before = avatars.names_revision();
    avatars.note_legacy_name(7, "");
    assert_eq!(avatars.names_revision(), before, "an empty name is not a name");
}
