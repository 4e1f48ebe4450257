//! Settings the behaviour reads, not the tab that shows them: the keys, and
//! the values a settings store holds as the behaviour reads them.

use crate::text::str_eq;
use vstd::prelude::*;

verus! {

/// Whether the autorespond mode is on. Account-scoped and persisted.
pub const SETTING_AUTORESPOND_MODE: &'static str = "AutorespondMode";

/// Whether the autorespond-to-non-friends mode is on.
pub const SETTING_AUTORESPOND_NON_FRIENDS_MODE: &'static str = "AutorespondNonFriendsMode";

/// The chat font-size step: `0` small, `1` medium, `2` large.
pub const SETTING_CHAT_FONT_SIZE: &'static str = "ChatFontSize";

/// Seconds a nearby-chat overlay line lives before it has fully faded.
pub const SETTING_NEARBY_TOAST_LIFETIME: &'static str = "NearbyChatToastLifetime";

/// The most lines the nearby-chat overlay shows at once.
pub const SETTING_CHAT_MAX_LINES: &'static str = "ChatOverlayMaxLines";

/// The auto-reply sent to an IM sender while in Do Not Disturb mode.
pub const SETTING_BUSY_RESPONSE: &'static str = "BusyResponse";

/// The auto-reply sent while in autorespond mode.
pub const SETTING_AUTORESPOND_RESPONSE: &'static str = "AutorespondResponse";

/// The auto-reply sent to non-friends while in autorespond-to-non-friends mode.
pub const SETTING_AUTORESPOND_NON_FRIENDS_RESPONSE: &'static str = "AutorespondNonFriendsResponse";

/// Seconds of inactivity before the viewer marks the avatar away; `0` = never.
pub const SETTING_AFK_TIMEOUT: &'static str = "AfkTimeoutSeconds";

/// The key gating the agent-position coordinates in the location read-out.
pub const SHOW_COORDINATES_KEY: &'static str = "statusbar_show_coordinates";

/// The in-world double-click action setting name.
pub const SETTING_DOUBLE_CLICK_ACTION: &'static str = "DoubleClickAction";

/// How many times smaller than the window the world is rendered.
pub const SETTING_RENDER_RESOLUTION_DIVISOR: &'static str = "RenderResolutionDivisor";

/// The inventory item sent along with every autoresponse, as its id in text
/// form; empty for none.
pub const SETTING_AUTORESPONSE_ITEM: &'static str = "AutoresponseItemUUID";

/// Whether the local avatar is sitting on the ground — tracked by the viewer
/// because nothing on the wire says so.
#[derive(Debug, Default, Clone, Copy)]
pub struct SelfGroundSit {
    /// Whether the local avatar is currently sitting on the ground.
    pub sitting: bool,
}

/// A stored setting value, as the behaviour reads it.
#[derive(Debug, Clone)]
pub enum SettingValue {
    /// A switch.
    Bool(bool),
    /// A whole number.
    Int(i64),
    /// A text.
    Text(String),
}

/// The values of a settings store, by name — what the behaviour reads of the
/// viewer's store.
#[derive(Debug, Clone)]
pub struct SettingsStore {
    /// The stored values, by setting name; the first entry of a name holds.
    pub values: Vec<(String, SettingValue)>,
}

/// The value stored under `name` at or after position `i` of `values`: the
/// first entry of that name.
pub open spec fn stored_from(values: Seq<(String, SettingValue)>, name: Seq<char>, i: int) -> Option<
    SettingValue,
>
    decreases values.len() - i,
{
    if i < 0 || i >= values.len() {
        None
    } else if values[i].0@ == name {
        Some(values[i].1)
    } else {
        stored_from(values, name, i + 1)
    }
}

impl SettingsStore {
    /// The value stored under `name`.
    pub open spec fn stored(&self, name: Seq<char>) -> Option<SettingValue> {
        stored_from(self.values@, name, 0)
    }

    /// The switch stored under `name`: `None` when nothing is stored under
    /// it or what is stored is not a switch.
    pub open spec fn spec_get_bool(&self, name: Seq<char>) -> Option<bool> {
        match self.stored(name) {
            Some(SettingValue::Bool(b)) => Some(b),
            _ => None,
        }
    }

    /// The text stored under `name`, if what is stored there is a text.
    pub open spec fn spec_get_text(&self, name: Seq<char>) -> Option<Seq<char>> {
        match self.stored(name) {
            Some(SettingValue::Text(t)) => Some(t@),
            _ => None,
        }
    }

    /// The position of the first entry stored under `name`.
    fn find(&self, name: &str) -> (r: Option<usize>)
        ensures
            r is None ==> self.stored(name@) is None,
            r matches Some(i) ==> i < self.values@.len() && self.stored(name@) == Some(self.values@[i as int].1),
    {
        let mut i: usize = 0;
        while i < self.values.len()
            invariant
                i <= self.values.len(),
                stored_from(self.values@, name@, 0) == stored_from(self.values@, name@, i as int),
            decreases self.values.len() - i,
        {
            if str_eq(self.values[i].0.as_str(), name) {
                return Some(i);
            }
            i = i + 1;
        }
        None
    }

    /// The switch stored under `name`, if one is.
    pub fn get_bool(&self, name: &str) -> (r: Option<bool>)
        ensures
            r == self.spec_get_bool(name@),
    {
        match self.find(name) {
            Some(i) => match &self.values[i].1 {
                SettingValue::Bool(b) => Some(*b),
                _ => None,
            },
            None => None,
        }
    }

    /// The text stored under `name`, if one is.
    pub fn get_text(&self, name: &str) -> (r: Option<&String>)
        ensures
            r matches Some(t) ==> self.spec_get_text(name@) == Some(t@),
            r is None ==> self.spec_get_text(name@) is None,
    {
        match self.find(name) {
            Some(i) => match &self.values[i].1 {
                SettingValue::Text(t) => Some(t),
                _ => None,
            },
            None => None,
        }
    }
}

/// Whether a store holds the switch `name` on.
pub open spec fn switch_on(settings: Option<&SettingsStore>, name: Seq<char>) -> bool {
    match settings {
        Some(s) => s.spec_get_bool(name) == Some(true),
        None => false,
    }
}

/// Whether either autorespond mode is on — the one question the IM
/// auto-reply, the Comm menu and the own name tag all ask.
pub fn shows_autoresponse(settings: Option<&SettingsStore>) -> (b: bool)
    ensures
        b == (switch_on(settings, SETTING_AUTORESPOND_MODE@) || switch_on(
            settings,
            SETTING_AUTORESPOND_NON_FRIENDS_MODE@,
        )),
{
    match settings {
        Some(s) => {
            let a = match s.get_bool(SETTING_AUTORESPOND_MODE) {
                Some(v) => v,
                None => false,
            };
            let b = match s.get_bool(SETTING_AUTORESPOND_NON_FRIENDS_MODE) {
                Some(v) => v,
                None => false,
            };
            a || b
        },
        None => false,
    }
}

} // verus!
