//! The decisions of the tab widget: a strip of tab buttons that switches which
//! one of a set of panels is shown, with exactly one active.
//!
//! The strip's active index is the single source of truth: a tab is checked,
//! and a panel shown, exactly when its index is the active one. The placement
//! is named logically, so the strip's side is chosen independently of the
//! reading direction; the rounded corners of a tab and the sign of a divider
//! drag fold in both the placement and the direction.

use crate::text::push_str;
use vstd::prelude::*;

verus! {

/// The ellipsis appended to a truncated tab label where the caller has no
/// locale of its own.
pub const DEFAULT_ELLIPSIS: &'static str = "…";

/// The class a skin styles a tab's label by.
pub const TAB_LABEL_CLASS: &'static str = "sk-tab-label";

/// The action a strip reports when its selection really moved.
pub const TAB_SELECTED_ACTION: &'static str = "select-tab";

/// Where a tab strip sits relative to the panel it fronts.
#[derive(Debug, Clone, Copy, PartialEq, Eq, Structural)]
pub enum TabPlacement {
    /// A horizontal strip along the top edge (never mirrored).
    BlockStart,
    /// A horizontal strip along the bottom edge (never mirrored).
    BlockEnd,
    /// A vertical strip on the leading edge: left left-to-right, right
    /// right-to-left.
    InlineStart,
    /// A vertical strip on the trailing edge: right left-to-right, left
    /// right-to-left.
    InlineEnd,
}

/// Whether a strip at `placement` runs vertically.
pub open spec fn vertical(placement: TabPlacement) -> bool {
    placement == TabPlacement::InlineStart || placement == TabPlacement::InlineEnd
}

/// Whether a strip at `placement` comes before its panel in flow order.
pub open spec fn leads(placement: TabPlacement) -> bool {
    placement == TabPlacement::BlockStart || placement == TabPlacement::InlineStart
}

impl TabPlacement {
    /// Whether the strip runs vertically (its buttons stack down the block
    /// axis).
    pub fn is_vertical(self) -> (b: bool)
        ensures
            b == vertical(self),
    {
        match self {
            TabPlacement::InlineStart | TabPlacement::InlineEnd => true,
            _ => false,
        }
    }

    /// Whether the strip comes before the panel in flow order: the leading
    /// and top placements.
    pub fn strip_first(self) -> (b: bool)
        ensures
            b == leads(self),
    {
        match self {
            TabPlacement::BlockStart | TabPlacement::InlineStart => true,
            _ => false,
        }
    }
}

/// Which of a tab's four corners are rounded.
#[derive(Debug, Clone, Copy, PartialEq, Eq, Structural)]
pub struct TabCorners {
    /// The top-left corner.
    pub top_left: bool,
    /// The top-right corner.
    pub top_right: bool,
    /// The bottom-left corner.
    pub bottom_left: bool,
    /// The bottom-right corner.
    pub bottom_right: bool,
}

/// The corners a tab at `placement` rounds under the given direction: the two
/// on the edge away from the content. A horizontal strip's are the top or the
/// bottom pair and never mirror; a vertical strip's are on its leading side
/// (`InlineStart`) or trailing side (`InlineEnd`), and right-to-left flips
/// which physical side that is.
pub open spec fn corners_for(placement: TabPlacement, rtl: bool) -> TabCorners {
    match placement {
        TabPlacement::BlockStart => TabCorners { top_left: true, top_right: true, bottom_left: false, bottom_right: false },
        TabPlacement::BlockEnd => TabCorners { top_left: false, top_right: false, bottom_left: true, bottom_right: true },
        _ => {
            let left = (placement == TabPlacement::InlineStart) != rtl;
            TabCorners { top_left: left, top_right: !left, bottom_left: left, bottom_right: !left }
        },
    }
}

/// The corners a tab rounds: the two on the edge away from its content.
pub fn tab_corner_radius(placement: TabPlacement, rtl: bool) -> (c: TabCorners)
    ensures
        c == corners_for(placement, rtl),
{
    match placement {
        TabPlacement::BlockStart => TabCorners { top_left: true, top_right: true, bottom_left: false, bottom_right: false },
        TabPlacement::BlockEnd => TabCorners { top_left: false, top_right: false, bottom_left: true, bottom_right: true },
        TabPlacement::InlineStart | TabPlacement::InlineEnd => {
            let start = match placement {
                TabPlacement::InlineStart => true,
                _ => false,
            };
            let round_left = start != rtl;
            if round_left {
                TabCorners { top_left: true, top_right: false, bottom_left: true, bottom_right: false }
            } else {
                TabCorners { top_left: false, top_right: true, bottom_left: false, bottom_right: true }
            }
        },
    }
}

/// A tab always rounds exactly two corners, and they share one edge: the
/// top, the bottom, the left or the right. Mirroring the direction moves a
/// vertical strip's pair to the other side and leaves a horizontal strip's
/// where it was.
pub proof fn law_a_tab_rounds_one_edge(placement: TabPlacement, rtl: bool)
    ensures
        ({
            let c = corners_for(placement, rtl);
            (c.top_left && c.top_right && !c.bottom_left && !c.bottom_right) || (!c.top_left && !c.top_right
                && c.bottom_left && c.bottom_right) || (c.top_left && c.bottom_left && !c.top_right
                && !c.bottom_right) || (!c.top_left && !c.bottom_left && c.top_right && c.bottom_right)
        }),
        vertical(placement) ==> corners_for(placement, !rtl).top_left == !corners_for(placement, rtl).top_left,
        !vertical(placement) ==> corners_for(placement, !rtl) == corners_for(placement, rtl),
{
}

/// The active index a strip of `count` tabs resolves `active` to: clamped
/// into range, and `0` for an empty strip, so a strip never has nothing
/// selected.
pub open spec fn clamped_active(active: usize, count: usize) -> usize {
    if count == 0 {
        0
    } else if active < count {
        active
    } else {
        (count - 1) as usize
    }
}

/// The clamped active index a strip or container of `count` tabs starts on.
pub fn handle_active(active: usize, count: usize) -> (a: usize)
    ensures
        a == clamped_active(active, count),
        count > 0 ==> a < count,
{
    let last = count.saturating_sub(1);
    if active < last {
        active
    } else {
        last
    }
}

/// Whether a strip asks for a resizable divider: a fixed width on a vertical
/// strip. A width on a horizontal strip is ignored.
pub fn is_resizable(placement: TabPlacement, has_strip_width: bool) -> (b: bool)
    ensures
        b == (vertical(placement) && has_strip_width),
{
    placement.is_vertical() && has_strip_width
}

/// The text a label node starts with: empty for a translated strip (the key
/// is not display text; the translation fills it once loaded), otherwise the
/// literal label.
pub fn initial_label(translate_labels: bool, label: &str) -> (text: String)
    ensures
        translate_labels ==> text@ == Seq::<char>::empty(),
        !translate_labels ==> text@ == label@,
{
    let mut text = String::new();
    if !translate_labels {
        push_str(&mut text, label);
    }
    text
}

/// A part of a tab container, in flow order.
#[derive(Debug, Clone, Copy, PartialEq, Eq, Structural)]
pub enum ContainerPart {
    /// The tab strip.
    Strip,
    /// The draggable divider of a resizable vertical strip.
    Divider,
    /// The area the panels stack in.
    Panels,
}

/// The flow order of a container's parts: the strip first or last by
/// placement, the divider (when there is one) always between the two.
pub open spec fn part_order(strip_first: bool, has_divider: bool) -> Seq<ContainerPart> {
    if strip_first {
        if has_divider {
            seq![ContainerPart::Strip, ContainerPart::Divider, ContainerPart::Panels]
        } else {
            seq![ContainerPart::Strip, ContainerPart::Panels]
        }
    } else {
        if has_divider {
            seq![ContainerPart::Panels, ContainerPart::Divider, ContainerPart::Strip]
        } else {
            seq![ContainerPart::Panels, ContainerPart::Strip]
        }
    }
}

/// The flow order a container at `placement` lays its parts out in.
pub fn container_order(placement: TabPlacement, has_divider: bool) -> (order: Vec<ContainerPart>)
    ensures
        order@ == part_order(leads(placement), has_divider),
{
    let mut order: Vec<ContainerPart> = Vec::new();
    if placement.strip_first() {
        order.push(ContainerPart::Strip);
        if has_divider {
            order.push(ContainerPart::Divider);
        }
        order.push(ContainerPart::Panels);
    } else {
        order.push(ContainerPart::Panels);
        if has_divider {
            order.push(ContainerPart::Divider);
        }
        order.push(ContainerPart::Strip);
    }
    proof {
        assert(order@ =~= part_order(leads(placement), has_divider));
    }
    order
}

/// Whether a strip at `placement` widens when its divider moves rightward on
/// screen: a leading strip grows with the inline direction and a trailing one
/// against it, and right-to-left flips which way the inline direction points.
pub open spec fn widens_rightward(placement: TabPlacement, rtl: bool) -> bool {
    leads(placement) != rtl
}

/// Whether dragging the divider of a strip at `placement` rightward widens it
/// (else it narrows it): the product of the placement's and the direction's
/// signs.
pub fn drag_widens_rightward(placement: TabPlacement, rtl: bool) -> (b: bool)
    ensures
        b == widens_rightward(placement, rtl),
{
    placement.strip_first() != rtl
}

/// A tab strip's state: which tab is active. Whether a tab is checked and a
/// panel shown are both derived from it.
#[derive(Debug, Clone, Copy, PartialEq, Eq)]
pub struct TabStrip {
    /// The element id the strip reports its actions under.
    pub element: &'static str,
    /// The index of the active tab.
    pub active: usize,
}

impl TabStrip {
    /// A strip of `count` tabs, starting on `active` clamped into range.
    pub fn new(element: &'static str, active: usize, count: usize) -> (s: TabStrip)
        ensures
            s.element == element,
            s.active == clamped_active(active, count),
    {
        TabStrip { element, active: handle_active(active, count) }
    }

    /// Whether the tab at `index` is checked (and its panel shown): exactly
    /// the active one.
    pub fn is_checked(&self, index: usize) -> (b: bool)
        ensures
            b == (index == self.active),
    {
        index == self.active
    }

    /// A tab was picked (a click, an arrow key, or a value change written
    /// straight in). A disabled tab refuses the switch to it, and re-picking
    /// the active tab is no change; otherwise the strip moves to the picked
    /// tab. Returns whether it moved — only then is the selection action
    /// reported.
    pub fn select(&mut self, picked: usize, tab_disabled: bool) -> (moved: bool)
        ensures
            moved == (!tab_disabled && picked != old(self).active),
            final(self).active == (if moved {
                picked
            } else {
                old(self).active
            }),
            final(self).element == old(self).element,
    {
        if tab_disabled {
            return false;
        }
        if self.active == picked {
            return false;
        }
        self.active = picked;
        true
    }
}

/// What one of a horizontal strip's four overflow buttons does.
#[derive(Debug, Clone, Copy, PartialEq, Eq, Structural)]
pub enum TabStep {
    /// Scroll the first tab into the leading edge.
    First,
    /// Scroll one tab back toward the first.
    Prev,
    /// Scroll one tab on toward the last.
    Next,
    /// Scroll the last tab into the trailing edge.
    Last,
}

impl TabStep {
    /// All four, in inline order — the order the buttons are spawned in.
    pub const ALL: [TabStep; 4] = [TabStep::First, TabStep::Prev, TabStep::Next, TabStep::Last];

    /// The name suffix and the skin class that tells the four apart.
    pub fn name_and_class(self) -> (r: (&'static str, &'static str))
        ensures
            r == match self {
                TabStep::First => ("first", "sk-tab-scroll-first"),
                TabStep::Prev => ("prev", "sk-tab-scroll-prev"),
                TabStep::Next => ("next", "sk-tab-scroll-next"),
                TabStep::Last => ("last", "sk-tab-scroll-last"),
            },
    {
        match self {
            TabStep::First => ("first", "sk-tab-scroll-first"),
            TabStep::Prev => ("prev", "sk-tab-scroll-prev"),
            TabStep::Next => ("next", "sk-tab-scroll-next"),
            TabStep::Last => ("last", "sk-tab-scroll-last"),
        }
    }

    /// Whether it steps one tab at a time — the two that repeat while held.
    pub fn is_step(self) -> (b: bool)
        ensures
            b == (self == TabStep::Prev || self == TabStep::Next),
    {
        match self {
            TabStep::Prev | TabStep::Next => true,
            _ => false,
        }
    }
}

} // verus!
