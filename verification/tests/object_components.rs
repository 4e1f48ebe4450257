use sl_viewer_world_api::object_components::{
    DecodedTextures, DiffuseImage, GLTF_OVERRIDE_NULL_UUID, HudState, InputContext, TypingState, budget_from,
    is_absent_texture,
};

#[test]
fn only_the_world_context_owns_the_keyboard() {
    assert!(InputContext::default().is_world());
    assert!(!InputContext::UiWidget.is_world());
    assert!(!InputContext::TextEntry.is_world());
    assert!(!InputContext::Media.is_world());
}

#[test]
fn a_typing_edge_is_taken_once() {
    let mut typing = TypingState::default();
    assert_eq!(typing.take_edge(), None, "nothing to advertise at rest");
    typing.set(true);
    assert!(typing.is_active());
    assert_eq!(typing.take_edge(), Some(true));
    assert_eq!(typing.take_edge(), None, "the edge was taken");
    typing.set(false);
    assert_eq!(typing.take_edge(), Some(false));
    assert_eq!(typing.take_edge(), None);
}

#[test]
fn the_nil_id_and_the_override_sentinel_are_no_texture() {
    assert!(is_absent_texture(0));
    assert!(is_absent_texture(GLTF_OVERRIDE_NULL_UUID));
    assert!(!is_absent_texture(0x1234));
}

#[test]
fn a_diffuse_texture_is_absent_pending_or_ready() {
    let mut store: DecodedTextures<&str> = DecodedTextures::default();
    assert!(store.is_empty());
    assert!(matches!(store.diffuse_image(0, |_: &&str| 1u8), DiffuseImage::Absent));
    assert!(matches!(store.diffuse_image(5, |_: &&str| 1u8), DiffuseImage::Pending));
    assert_eq!(store.insert(5, "pixels"), None);
    assert!(store.contains(5));
    assert!(matches!(store.diffuse_image(5, |decoded: &&str| decoded.len()), DiffuseImage::Ready(6)));
    assert_eq!(store.insert(5, "finer"), Some("pixels"), "a re-decode replaces the coarser image");
    assert_eq!(store.len(), 1);
    assert_eq!(store.get(5), Some(&"finer"));
    assert_eq!(store.remove(5), Some("finer"));
    assert_eq!(store.get(5), None);
}

#[test]
fn a_hud_point_routes_to_its_node() {
    let mut hud = HudState::default();
    assert_eq!(hud.point_entity(33), None);
    let _ = hud.points.insert(33, 900);
    assert_eq!(hud.point_entity(33), Some(900));
    assert_eq!(hud.point_entity(34), None);
}

#[test]
fn a_budget_is_a_positive_number_or_the_default() {
    assert_eq!(budget_from(Some("12"), 5), 12);
    assert_eq!(budget_from(Some("+7"), 5), 7);
    assert_eq!(budget_from(Some("0"), 5), 5, "zero is no budget");
    assert_eq!(budget_from(Some("abc"), 5), 5);
    assert_eq!(budget_from(Some(" 3"), 5), 5);
    assert_eq!(budget_from(Some(""), 5), 5);
    assert_eq!(budget_from(Some("+"), 5), 5, "a sign alone is no number");
    assert_eq!(budget_from(Some("-5"), 5), 5, "an unsigned number takes no minus");
    assert_eq!(budget_from(Some("18446744073709551615"), 5), usize::MAX, "the largest value still fits");
    assert_eq!(budget_from(None, 5), 5);
    assert_eq!(budget_from(Some("99999999999999999999999999"), 5), 5, "an overflow is no number");
}
