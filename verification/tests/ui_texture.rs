use sl_viewer_world_api::ui_texture::{PendingUiTexture, UiTextureImages};

#[test]
fn one_upload_serves_every_node_showing_the_texture() {
    let mut map: UiTextureImages<u32> = UiTextureImages::default();
    let texture = 0xA1u128;
    // The first node finds nothing and uploads.
    assert_eq!(map.reusable(texture, 0), None);
    map.record(texture, 0, 42);
    // The second node showing the same texture is served the same upload.
    assert_eq!(map.reusable(texture, 0), Some(42));
    assert_eq!(map.len(), 1);
}

#[test]
fn a_finer_decode_is_uploaded_again() {
    let mut map: UiTextureImages<u32> = UiTextureImages::default();
    let texture = 0xB2u128;
    map.record(texture, 5, 1);
    assert_eq!(map.reusable(texture, 0), None, "the finer decode was served the coarse upload");
    map.record(texture, 0, 2);
    assert_eq!(map.reusable(texture, 0), Some(2));
    assert_eq!(map.len(), 1);
}

#[test]
fn only_a_placeholder_box_drops_its_children() {
    let labelled = PendingUiTexture::over_placeholder(0xD4);
    let plain = PendingUiTexture::new(0xD4);
    assert!(labelled.holds_placeholder());
    assert!(!plain.holds_placeholder());
    assert_eq!(labelled.key(), plain.key());
}

#[test]
fn a_repointed_box_asks_for_the_new_texture() {
    let first = PendingUiTexture::new(0xF6);
    let second = PendingUiTexture::new(0xF7);
    assert_eq!(first.key(), 0xF6);
    assert_eq!(second.key(), 0xF7);
    assert_ne!(first, second);
}

#[test]
fn an_empty_map_reports_empty() {
    let map: UiTextureImages<u32> = UiTextureImages::default();
    assert!(map.is_empty());
    assert_eq!(map.len(), 0);
}
