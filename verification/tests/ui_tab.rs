use sl_viewer_world_api::ui_tab::{
    ContainerPart, TabCorners, TabPlacement, TabStep, TabStrip, container_order, drag_widens_rightward, handle_active,
    initial_label, is_resizable, tab_corner_radius,
};

const PLACEMENTS: [TabPlacement; 4] =
    [TabPlacement::BlockStart, TabPlacement::BlockEnd, TabPlacement::InlineStart, TabPlacement::InlineEnd];

#[test]
fn a_placement_says_its_axis_and_side() {
    for placement in PLACEMENTS {
        let vertical = matches!(placement, TabPlacement::InlineStart | TabPlacement::InlineEnd);
        assert_eq!(placement.is_vertical(), vertical, "{placement:?}");
    }
    assert!(TabPlacement::BlockStart.strip_first());
    assert!(!TabPlacement::BlockEnd.strip_first());
}

#[test]
fn selecting_a_tab_moves_the_checked_one() {
    let mut strip = TabStrip::new("tabs", 0, 3);
    assert!(strip.is_checked(0));
    assert!(strip.select(2, false));
    assert_eq!(strip.active, 2);
    assert!(strip.is_checked(2));
    assert!(!strip.is_checked(0));
}

#[test]
fn re_selecting_the_active_tab_is_inert() {
    let mut strip = TabStrip::new("tabs", 1, 3);
    assert!(!strip.select(1, false));
    assert_eq!(strip.active, 1);
}

#[test]
fn an_out_of_range_active_is_clamped() {
    let strip = TabStrip::new("tabs", 99, 3);
    let last = 2;
    assert_eq!(strip.active, last);
    assert!(strip.is_checked(last));
    assert_eq!(handle_active(99, 0), 0, "an empty strip stays on 0");
    assert_eq!(handle_active(1, 3), 1);
}

#[test]
fn the_strip_leads_or_trails_by_placement() {
    for (placement, strip_first) in [(TabPlacement::InlineStart, true), (TabPlacement::InlineEnd, false)] {
        let order = container_order(placement, false);
        let strip_index = order.iter().position(|part| *part == ContainerPart::Strip);
        assert_eq!(strip_index, Some(if strip_first { 0 } else { 1 }), "{placement:?}");
    }
    assert_eq!(
        container_order(TabPlacement::InlineEnd, true),
        vec![ContainerPart::Panels, ContainerPart::Divider, ContainerPart::Strip]
    );
    assert_eq!(
        container_order(TabPlacement::InlineStart, true),
        vec![ContainerPart::Strip, ContainerPart::Divider, ContainerPart::Panels]
    );
}

#[test]
fn a_width_on_horizontal_tabs_is_ignored() {
    assert!(!is_resizable(TabPlacement::BlockStart, true));
    assert!(!is_resizable(TabPlacement::BlockEnd, true));
    assert!(is_resizable(TabPlacement::InlineStart, true));
    assert!(!is_resizable(TabPlacement::InlineEnd, false));
}

#[test]
fn one_disabled_tab_leaves_the_others_live() {
    let mut strip = TabStrip::new("tabs", 0, 3);
    assert!(!strip.select(1, true), "a disabled tab refuses the switch to it");
    assert_eq!(strip.active, 0);
    assert!(strip.select(2, false), "its neighbours stay live");
    assert_eq!(strip.active, 2);
}

#[test]
fn a_pick_moves_a_fresh_strip() {
    let mut strip = TabStrip::new("tabs", 0, 3);
    assert!(strip.select(1, false));
    assert_eq!(strip.active, 1);
}

#[test]
fn clicking_the_open_tab_announces_nothing() {
    let mut strip = TabStrip::new("tabs", 2, 3);
    assert!(!strip.select(2, false));
}

#[test]
fn a_divider_drag_widens_by_side_and_direction() {
    // A rightward drag widens a leading strip under LTR, a trailing one under RTL.
    assert!(drag_widens_rightward(TabPlacement::InlineStart, false));
    assert!(!drag_widens_rightward(TabPlacement::InlineStart, true));
    assert!(!drag_widens_rightward(TabPlacement::InlineEnd, false));
    assert!(drag_widens_rightward(TabPlacement::InlineEnd, true));
}

#[test]
fn a_tab_rounds_the_edge_away_from_its_content() {
    let top = TabCorners { top_left: true, top_right: true, bottom_left: false, bottom_right: false };
    let left = TabCorners { top_left: true, top_right: false, bottom_left: true, bottom_right: false };
    let right = TabCorners { top_left: false, top_right: true, bottom_left: false, bottom_right: true };
    assert_eq!(tab_corner_radius(TabPlacement::BlockStart, false), top);
    assert_eq!(tab_corner_radius(TabPlacement::BlockStart, true), top, "the block axis never mirrors");
    assert_eq!(tab_corner_radius(TabPlacement::InlineStart, false), left);
    assert_eq!(tab_corner_radius(TabPlacement::InlineStart, true), right);
    assert_eq!(tab_corner_radius(TabPlacement::InlineEnd, false), right);
    assert_eq!(tab_corner_radius(TabPlacement::InlineEnd, true), left);
}

#[test]
fn a_translated_label_starts_empty() {
    assert_eq!(initial_label(true, "tab-general"), "");
    assert_eq!(initial_label(false, "General"), "General");
}

#[test]
fn only_the_middle_overflow_buttons_step() {
    let steps: Vec<bool> = TabStep::ALL.iter().map(|step| step.is_step()).collect();
    assert_eq!(steps, vec![false, true, true, false]);
    assert_eq!(TabStep::First.name_and_class(), ("first", "sk-tab-scroll-first"));
    assert_eq!(TabStep::Last.name_and_class(), ("last", "sk-tab-scroll-last"));
}
