use sl_viewer_world_api::edit_selection::{
    EditTool, EditToolState, FIRST_FACE, GridFrame, MatChannel, MatMedia, MatModeState, ObjectProperties, PbrChannel,
    SelectionSet, BUILD_TOOLS,
};
use sl_viewer_world_api::ids::ScopedObjectId;
use std::collections::HashSet;

#[test]
fn the_last_touched_face_follows_every_pick() {
    let entity = 0u64;
    let scoped = ScopedObjectId { circuit: 1, id: 9 };
    let full = 9u128;

    // A whole-object selection anchors on face 0.
    let mut set = SelectionSet::default();
    set.insert(scoped, full, entity);
    assert_eq!(set.primary().map(|node| node.last_face), Some(FIRST_FACE));

    // A plain face click moves it to that face.
    set.select_only_face(scoped, full, entity, 3);
    assert_eq!(set.primary().map(|node| node.last_face), Some(3));

    // So does a shift-click that adds a face...
    set.toggle_face(scoped, full, entity, 5);
    assert_eq!(set.primary().map(|node| node.last_face), Some(5));
    // ... and one that takes it away again.
    set.toggle_face(scoped, full, entity, 5);
    assert_eq!(set.primary().map(|node| node.last_face), Some(5));
    assert_eq!(set.primary_faces().map(HashSet::len), Some(1), "un-picking face 5 leaves only face 3 selected");
}

#[test]
fn removing_by_scoped_id_keeps_the_others_in_order() {
    let mut set = SelectionSet::default();
    let a = ScopedObjectId { circuit: 1, id: 1 };
    let b = ScopedObjectId { circuit: 1, id: 2 };
    let c = ScopedObjectId { circuit: 1, id: 3 };
    set.insert(a, 11, 100);
    set.insert(b, 12, 200);
    set.insert(c, 13, 300);
    assert_eq!(set.len(), 3);
    set.remove(b);
    let left: Vec<ScopedObjectId> = set.nodes().iter().map(|node| node.scoped).collect();
    assert_eq!(left, vec![a, c]);
    assert!(!set.is_selected(b));
    set.remove_by_full_id(13);
    assert_eq!(set.len(), 1);
    assert_eq!(set.primary().map(|node| node.scoped), Some(a));
}

#[test]
fn a_properties_reply_lands_on_its_own_node() {
    let mut set = SelectionSet::default();
    set.insert(ScopedObjectId { circuit: 1, id: 1 }, 11, 100);
    set.insert(ScopedObjectId { circuit: 1, id: 2 }, 12, 200);
    let took = set.apply_properties(ObjectProperties {
        object_id: 11,
        name: "Chair".to_owned(),
        description: "A chair".to_owned(),
    });
    assert!(took);
    assert_eq!(set.nodes()[0].properties.as_ref().map(|p| p.name.as_str()), Some("Chair"));
    assert!(set.nodes()[1].properties.is_none());
    let stray = set.apply_properties(ObjectProperties {
        object_id: 99,
        name: "Gone".to_owned(),
        description: String::new(),
    });
    assert!(!stray, "a reply for an object not selected is dropped");
}

#[test]
fn the_radio_rows_map_index_and_option_both_ways() {
    for (index, tool) in BUILD_TOOLS.iter().enumerate() {
        assert_eq!(tool.radio_index(), index);
    }
    assert_eq!(EditTool::Move.radio_index(), 1);
    assert_eq!(EditTool::Create.radio_index(), 0);
    for mode in [MatMedia::Material, MatMedia::Pbr] {
        assert_eq!(MatMedia::from_radio_index(mode.radio_index()), mode);
    }
    for channel in [MatChannel::Diffuse, MatChannel::Normal, MatChannel::Specular] {
        assert_eq!(MatChannel::from_radio_index(channel.radio_index()), channel);
    }
    for channel in [
        PbrChannel::Material,
        PbrChannel::BaseColor,
        PbrChannel::MetallicRoughness,
        PbrChannel::Emissive,
        PbrChannel::Normal,
    ] {
        assert_eq!(PbrChannel::from_radio_index(channel.radio_index()), channel);
    }
    // An index a row does not carry falls back to the row's default.
    assert_eq!(MatMedia::from_radio_index(7), MatMedia::Material);
    assert_eq!(MatChannel::from_radio_index(3), MatChannel::Diffuse);
    assert_eq!(PbrChannel::from_radio_index(5), PbrChannel::Material);
    assert_eq!(PbrChannel::from_radio_index(4), PbrChannel::Normal);
}

#[test]
fn a_held_modifier_overrides_the_resting_tool() {
    let mut state = EditToolState::default();
    assert_eq!(state.effective_tool(), EditTool::Move);
    assert!(state.snap);
    assert_eq!(state.frame, GridFrame::World);
    state.held_override = Some(EditTool::Rotate);
    assert_eq!(state.effective_tool(), EditTool::Rotate);
    state.held_override = None;
    state.tool = EditTool::Stretch;
    assert_eq!(state.effective_tool(), EditTool::Stretch);
}

#[test]
fn the_material_mode_reads_one_place() {
    let mut mode = MatModeState::default();
    assert!(mode.is_material());
    assert!(!mode.is_pbr());
    mode.matmedia = MatMedia::Pbr;
    assert!(mode.is_pbr());
    assert!(!mode.is_material());
}
