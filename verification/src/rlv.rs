//! The viewer's live RLV / RLVa state and the settings that steer it: the
//! setting roster, the customisable response strings, the console transcript
//! and reply queue every surface shares, the owner-say admission gate, and
//! the library index the `@setenv_*` commands resolve names against.

use crate::ids::{ObjectKey, ScopedObjectId, TextureKey, Uuid};
use crate::ids::lemma_pack_unpack;
use crate::collections::map_keys;
use crate::object_graph::{MAX_PARENT_WALK, ObjectState, TrackedObject, walk_point};
use crate::settings::{SettingValue, SettingsStore, switch_on};
use crate::text::{lowercase, parse_uuid, starts_with_char, str_eq, to_lowercase, uuid_parse};
use crate::world_state::{bump, next_revision};
use std::collections::VecDeque;
use vstd::prelude::*;

verus! {

broadcast use vstd::std_specs::hash::group_hash_axioms;

/// The section every RLV setting is grouped under in the settings file.
pub const RLV_SECTION: [&'static str; 1] = ["rlv"];

/// The section the customisable response strings live under.
pub const RLV_STRINGS_SECTION: [&'static str; 2] = ["rlv", "strings"];

/// The master switch. RLV is off until the user turns it on.
pub const SETTING_MAIN: &'static str = "RestrainedLove";

/// Echo every processed command into the RLVa console.
pub const SETTING_DEBUG: &'static str = "RestrainedLoveDebug";

/// The menu condition key that holds while [`SETTING_DEBUG`] is on.
pub const COND_DEBUG: &'static str = "rlv-debug-on";

/// Let out-of-character chat through a chat restriction.
pub const SETTING_CAN_OOC: &'static str = "RestrainedLoveCanOOC";

/// The menu condition key that holds while [`SETTING_CAN_OOC`] is on.
pub const COND_CAN_OOC: &'static str = "rlv-can-ooc-on";

/// Refuse inventory offers into the shared `#RLV` folder.
pub const SETTING_FORBID_GIVE_TO_RLV: &'static str = "RestrainedLoveForbidGiveToRLV";

/// The menu condition key that holds while [`SETTING_FORBID_GIVE_TO_RLV`] is on.
pub const COND_FORBID_GIVE_TO_RLV: &'static str = "rlv-forbid-give-to-rlv-on";

/// Opt out of script control of the environment entirely.
pub const SETTING_NO_SET_ENV: &'static str = "RestrainedLoveNoSetEnv";

/// The menu condition key that holds while [`SETTING_NO_SET_ENV`] is on.
pub const COND_NO_SET_ENV: &'static str = "rlv-no-set-env-on";

/// Say a blanked line as `"..."` rather than not saying it at all.
pub const SETTING_SHOW_ELLIPSIS: &'static str = "RestrainedLoveShowEllipsis";

/// The menu condition key that holds while [`SETTING_SHOW_ELLIPSIS`] is on.
pub const COND_SHOW_ELLIPSIS: &'static str = "rlv-show-ellipsis-on";

/// The shared-folder name prefix meaning "wear this in addition to".
pub const SETTING_WEAR_ADD_PREFIX: &'static str = "RestrainedLoveStackWhenFolderBeginsWith";

/// The shared-folder name prefix meaning "wear this instead of".
pub const SETTING_WEAR_REPLACE_PREFIX: &'static str = "RestrainedLoveReplaceWhenFolderBeginsWith";

/// Drop the console echo of a command that changed nothing.
pub const SETTING_DEBUG_HIDE_UNSET_DUPLICATE: &'static str = "RLVaDebugHideUnsetDuplicate";

/// The menu condition key that holds while [`SETTING_DEBUG_HIDE_UNSET_DUPLICATE`] is on.
pub const COND_DEBUG_HIDE_UNSET_DUPLICATE: &'static str = "rlv-debug-hide-unset-duplicate-on";

/// Answer `@list` / `@except` asked over IM.
pub const SETTING_ENABLE_IM_QUERY: &'static str = "RLVaEnableIMQuery";

/// The menu condition key that holds while [`SETTING_ENABLE_IM_QUERY`] is on.
pub const COND_ENABLE_IM_QUERY: &'static str = "rlv-enable-im-query-on";

/// Use the legacy naming rules when anonymising a resident's name.
pub const SETTING_ENABLE_LEGACY_NAMING: &'static str = "RLVaEnableLegacyNaming";

/// The menu condition key that holds while [`SETTING_ENABLE_LEGACY_NAMING`] is on.
pub const COND_ENABLE_LEGACY_NAMING: &'static str = "rlv-enable-legacy-naming-on";

/// Allow wearing from the shared `#RLV` folder by hand.
pub const SETTING_ENABLE_SHARED_WEAR: &'static str = "RLVaEnableSharedWear";

/// The menu condition key that holds while [`SETTING_ENABLE_SHARED_WEAR`] is on.
pub const COND_ENABLE_SHARED_WEAR: &'static str = "rlv-enable-shared-wear-on";

/// Let a script attach a temporary attachment while RLV is on.
pub const SETTING_ENABLE_TEMP_ATTACH: &'static str = "RLVaEnableTemporaryAttachments";

/// The menu condition key that holds while [`SETTING_ENABLE_TEMP_ATTACH`] is on.
pub const COND_ENABLE_TEMP_ATTACH: &'static str = "rlv-enable-temporary-attachments-on";

/// Hide a locked clothing layer from the UI rather than greying it out.
pub const SETTING_HIDE_LOCKED_LAYERS: &'static str = "RLVaHideLockedLayers";

/// The menu condition key that holds while [`SETTING_HIDE_LOCKED_LAYERS`] is on.
pub const COND_HIDE_LOCKED_LAYERS: &'static str = "rlv-hide-locked-layers-on";

/// Hide a locked attachment from the UI.
pub const SETTING_HIDE_LOCKED_ATTACHMENTS: &'static str = "RLVaHideLockedAttachments";

/// The menu condition key that holds while [`SETTING_HIDE_LOCKED_ATTACHMENTS`] is on.
pub const COND_HIDE_LOCKED_ATTACHMENTS: &'static str = "rlv-hide-locked-attachments-on";

/// Hide a locked item from the inventory listing.
pub const SETTING_HIDE_LOCKED_INVENTORY: &'static str = "RLVaHideLockedInventory";

/// The menu condition key that holds while [`SETTING_HIDE_LOCKED_INVENTORY`] is on.
pub const COND_HIDE_LOCKED_INVENTORY: &'static str = "rlv-hide-locked-inventory-on";

/// Allow logging in to the last location while RLV is on.
pub const SETTING_LOGIN_LAST_LOCATION: &'static str = "RLVaLoginLastLocation";

/// The menu condition key that holds while [`SETTING_LOGIN_LAST_LOCATION`] is on.
pub const COND_LOGIN_LAST_LOCATION: &'static str = "rlv-login-last-location-on";

/// Rename an item dropped into `#RLV` to carry its attachment point.
pub const SETTING_SHARED_INV_AUTO_RENAME: &'static str = "RLVaSharedInvAutoRename";

/// The menu condition key that holds while [`SETTING_SHARED_INV_AUTO_RENAME`] is on.
pub const COND_SHARED_INV_AUTO_RENAME: &'static str = "rlv-shared-inv-auto-rename-on";

/// Surface an internal RLVa assertion failure instead of only logging it.
pub const SETTING_SHOW_ASSERTION_FAILURES: &'static str = "RLVaShowAssertionFailures";

/// The menu condition key that holds while [`SETTING_SHOW_ASSERTION_FAILURES`] is on.
pub const COND_SHOW_ASSERTION_FAILURES: &'static str = "rlv-show-assertion-failures-on";

/// Keep sending the typing indicator while chat is redirected.
pub const SETTING_SHOW_REDIRECT_CHAT_TYPING: &'static str = "RLVaShowRedirectChatTyping";

/// The menu condition key that holds while [`SETTING_SHOW_REDIRECT_CHAT_TYPING`] is on.
pub const COND_SHOW_REDIRECT_CHAT_TYPING: &'static str = "rlv-show-redirect-chat-typing-on";

/// Split a redirected line too long for one message instead of truncating it.
pub const SETTING_SPLIT_REDIRECT_CHAT: &'static str = "RLVaSplitRedirectChat";

/// The menu condition key that holds while [`SETTING_SPLIT_REDIRECT_CHAT`] is on.
pub const COND_SPLIT_REDIRECT_CHAT: &'static str = "rlv-split-redirect-chat-on";

/// Wearing over a locked layer replaces the unlocked items on it.
pub const SETTING_WEAR_REPLACE_UNLOCKED: &'static str = "RLVaWearReplaceUnlocked";

/// The menu condition key that holds while [`SETTING_WEAR_REPLACE_UNLOCKED`] is on.
pub const COND_WEAR_REPLACE_UNLOCKED: &'static str = "rlv-wear-replace-unlocked-on";

/// The menu condition key that holds while RLV itself is on.
pub const RLV_ENABLED: &'static str = "rlv-enabled";

/// One boolean RLV setting: its name, its declared default, the line the
/// debug-settings editor shows, and the menu condition key its tick is drawn
/// from.
#[derive(Debug, Clone, Copy)]
pub struct RlvFlagDef {
    /// The setting name.
    pub name: &'static str,
    /// The declared default.
    pub default: bool,
    /// What the setting does, one line.
    pub comment: &'static str,
    /// The menu condition key that holds while the flag is on.
    pub condition: &'static str,
}

/// One customisable response string: its key, its default text, the label
/// the Strings floater lists it under, and when it is emitted.
#[derive(Debug, Clone, Copy)]
pub struct RlvStringDef {
    /// The key — the setting name, and the name code asks for.
    pub key: &'static str,
    /// The default text.
    pub default: &'static str,
    /// The label the Strings floater lists this entry under.
    pub label: &'static str,
    /// When this string is emitted.
    pub description: &'static str,
}

/// The string settings that are not response strings: the two shared-folder
/// name prefixes with their defaults and descriptions.
pub open spec fn spec_rlv_prefix_settings() -> Seq<(&'static str, &'static str, &'static str)> {
    seq![
        (SETTING_WEAR_ADD_PREFIX, "+", "Shared-folder name prefix meaning \"wear in addition to\""),
        (SETTING_WEAR_REPLACE_PREFIX, "-", "Shared-folder name prefix meaning \"wear instead of\""),
    ]
}

/// The two shared-folder name prefix settings, with their defaults.
pub fn rlv_prefix_settings() -> (r: Vec<(&'static str, &'static str, &'static str)>)
    ensures
        r@ == spec_rlv_prefix_settings(),
{
    let mut r: Vec<(&'static str, &'static str, &'static str)> = Vec::new();
    r.push((SETTING_WEAR_ADD_PREFIX, "+", "Shared-folder name prefix meaning \"wear in addition to\""));
    r.push((SETTING_WEAR_REPLACE_PREFIX, "-", "Shared-folder name prefix meaning \"wear instead of\""));
    assert(r@ =~= spec_rlv_prefix_settings());
    r
}
/// The boolean settings, in the order RLVa declares them.
pub open spec fn spec_rlv_bool_settings() -> Seq<RlvFlagDef> {
    seq![
        RlvFlagDef { name: SETTING_MAIN, default: false, comment: "Obey RLV / RLVa commands from worn objects", condition: RLV_ENABLED },
        RlvFlagDef { name: SETTING_DEBUG, default: false, comment: "Echo every processed RLV command into the RLVa console", condition: COND_DEBUG },
        RlvFlagDef { name: SETTING_CAN_OOC, default: true, comment: "Let ((out of character)) chat through a chat restriction", condition: COND_CAN_OOC },
        RlvFlagDef { name: SETTING_FORBID_GIVE_TO_RLV, default: false, comment: "Refuse inventory offers into the shared #RLV folder", condition: COND_FORBID_GIVE_TO_RLV },
        RlvFlagDef { name: SETTING_NO_SET_ENV, default: false, comment: "Refuse script control of the environment (@setenv)", condition: COND_NO_SET_ENV },
        RlvFlagDef { name: SETTING_SHOW_ELLIPSIS, default: true, comment: "Say a blanked line as \"...\" rather than saying nothing", condition: COND_SHOW_ELLIPSIS },
        RlvFlagDef { name: SETTING_DEBUG_HIDE_UNSET_DUPLICATE, default: true, comment: "Hide the console echo of a command that changed nothing", condition: COND_DEBUG_HIDE_UNSET_DUPLICATE },
        RlvFlagDef { name: SETTING_ENABLE_IM_QUERY, default: false, comment: "Answer @list and @except asked over instant message", condition: COND_ENABLE_IM_QUERY },
        RlvFlagDef { name: SETTING_ENABLE_LEGACY_NAMING, default: false, comment: "Use the legacy naming rules when anonymising a resident", condition: COND_ENABLE_LEGACY_NAMING },
        RlvFlagDef { name: SETTING_ENABLE_SHARED_WEAR, default: false, comment: "Allow wearing items from the shared #RLV folder by hand", condition: COND_ENABLE_SHARED_WEAR },
        RlvFlagDef { name: SETTING_ENABLE_TEMP_ATTACH, default: true, comment: "Allow scripts to attach temporary attachments", condition: COND_ENABLE_TEMP_ATTACH },
        RlvFlagDef { name: SETTING_HIDE_LOCKED_LAYERS, default: false, comment: "Hide a locked clothing layer instead of greying it out", condition: COND_HIDE_LOCKED_LAYERS },
        RlvFlagDef { name: SETTING_HIDE_LOCKED_ATTACHMENTS, default: false, comment: "Hide a locked attachment instead of greying it out", condition: COND_HIDE_LOCKED_ATTACHMENTS },
        RlvFlagDef { name: SETTING_HIDE_LOCKED_INVENTORY, default: false, comment: "Hide a locked item from the inventory listing", condition: COND_HIDE_LOCKED_INVENTORY },
        RlvFlagDef { name: SETTING_LOGIN_LAST_LOCATION, default: true, comment: "Allow logging in to the last location while RLV is on", condition: COND_LOGIN_LAST_LOCATION },
        RlvFlagDef { name: SETTING_SHARED_INV_AUTO_RENAME, default: true, comment: "Rename an item dropped into #RLV to carry its attachment point", condition: COND_SHARED_INV_AUTO_RENAME },
        RlvFlagDef { name: SETTING_SHOW_ASSERTION_FAILURES, default: false, comment: "Surface an internal RLVa assertion failure, not only log it", condition: COND_SHOW_ASSERTION_FAILURES },
        RlvFlagDef { name: SETTING_SHOW_REDIRECT_CHAT_TYPING, default: false, comment: "Keep sending the typing indicator while chat is redirected", condition: COND_SHOW_REDIRECT_CHAT_TYPING },
        RlvFlagDef { name: SETTING_SPLIT_REDIRECT_CHAT, default: false, comment: "Split a long redirected line instead of truncating it", condition: COND_SPLIT_REDIRECT_CHAT },
        RlvFlagDef { name: SETTING_WEAR_REPLACE_UNLOCKED, default: true, comment: "Wearing over a locked layer replaces the unlocked items on it", condition: COND_WEAR_REPLACE_UNLOCKED },
    ]
}

/// The boolean settings, in the order RLVa declares them — the
/// one list the RLVa menu walks to know which toggles exist.
pub fn rlv_bool_settings() -> (r: Vec<RlvFlagDef>)
    ensures
        r@ == spec_rlv_bool_settings(),
{
    let mut r: Vec<RlvFlagDef> = Vec::new();
    r.push(RlvFlagDef { name: SETTING_MAIN, default: false, comment: "Obey RLV / RLVa commands from worn objects", condition: RLV_ENABLED });
    r.push(RlvFlagDef { name: SETTING_DEBUG, default: false, comment: "Echo every processed RLV command into the RLVa console", condition: COND_DEBUG });
    r.push(RlvFlagDef { name: SETTING_CAN_OOC, default: true, comment: "Let ((out of character)) chat through a chat restriction", condition: COND_CAN_OOC });
    r.push(RlvFlagDef { name: SETTING_FORBID_GIVE_TO_RLV, default: false, comment: "Refuse inventory offers into the shared #RLV folder", condition: COND_FORBID_GIVE_TO_RLV });
    r.push(RlvFlagDef { name: SETTING_NO_SET_ENV, default: false, comment: "Refuse script control of the environment (@setenv)", condition: COND_NO_SET_ENV });
    r.push(RlvFlagDef { name: SETTING_SHOW_ELLIPSIS, default: true, comment: "Say a blanked line as \"...\" rather than saying nothing", condition: COND_SHOW_ELLIPSIS });
    r.push(RlvFlagDef { name: SETTING_DEBUG_HIDE_UNSET_DUPLICATE, default: true, comment: "Hide the console echo of a command that changed nothing", condition: COND_DEBUG_HIDE_UNSET_DUPLICATE });
    r.push(RlvFlagDef { name: SETTING_ENABLE_IM_QUERY, default: false, comment: "Answer @list and @except asked over instant message", condition: COND_ENABLE_IM_QUERY });
    r.push(RlvFlagDef { name: SETTING_ENABLE_LEGACY_NAMING, default: false, comment: "Use the legacy naming rules when anonymising a resident", condition: COND_ENABLE_LEGACY_NAMING });
    r.push(RlvFlagDef { name: SETTING_ENABLE_SHARED_WEAR, default: false, comment: "Allow wearing items from the shared #RLV folder by hand", condition: COND_ENABLE_SHARED_WEAR });
    r.push(RlvFlagDef { name: SETTING_ENABLE_TEMP_ATTACH, default: true, comment: "Allow scripts to attach temporary attachments", condition: COND_ENABLE_TEMP_ATTACH });
    r.push(RlvFlagDef { name: SETTING_HIDE_LOCKED_LAYERS, default: false, comment: "Hide a locked clothing layer instead of greying it out", condition: COND_HIDE_LOCKED_LAYERS });
    r.push(RlvFlagDef { name: SETTING_HIDE_LOCKED_ATTACHMENTS, default: false, comment: "Hide a locked attachment instead of greying it out", condition: COND_HIDE_LOCKED_ATTACHMENTS });
    r.push(RlvFlagDef { name: SETTING_HIDE_LOCKED_INVENTORY, default: false, comment: "Hide a locked item from the inventory listing", condition: COND_HIDE_LOCKED_INVENTORY });
    r.push(RlvFlagDef { name: SETTING_LOGIN_LAST_LOCATION, default: true, comment: "Allow logging in to the last location while RLV is on", condition: COND_LOGIN_LAST_LOCATION });
    r.push(RlvFlagDef { name: SETTING_SHARED_INV_AUTO_RENAME, default: true, comment: "Rename an item dropped into #RLV to carry its attachment point", condition: COND_SHARED_INV_AUTO_RENAME });
    r.push(RlvFlagDef { name: SETTING_SHOW_ASSERTION_FAILURES, default: false, comment: "Surface an internal RLVa assertion failure, not only log it", condition: COND_SHOW_ASSERTION_FAILURES });
    r.push(RlvFlagDef { name: SETTING_SHOW_REDIRECT_CHAT_TYPING, default: false, comment: "Keep sending the typing indicator while chat is redirected", condition: COND_SHOW_REDIRECT_CHAT_TYPING });
    r.push(RlvFlagDef { name: SETTING_SPLIT_REDIRECT_CHAT, default: false, comment: "Split a long redirected line instead of truncating it", condition: COND_SPLIT_REDIRECT_CHAT });
    r.push(RlvFlagDef { name: SETTING_WEAR_REPLACE_UNLOCKED, default: true, comment: "Wearing over a locked layer replaces the unlocked items on it", condition: COND_WEAR_REPLACE_UNLOCKED });
    assert(r@ =~= spec_rlv_bool_settings());
    r
}

/// The customisable response strings, in key order.
pub open spec fn spec_rlv_strings() -> Seq<RlvStringDef> {
    seq![
        RlvStringDef {
            key: "blocked_recvim",
            default: "*** IM blocked by your viewer",
            label: "Blocked incoming IM message (local)",
            description: "Shown in place of the original message when an incoming IM is blocked",
        },
        RlvStringDef {
            key: "blocked_recvim_remote",
            default: "The Resident you messaged is currently prevented from reading your instant messages at the moment, please try again later.",
            label: "Blocked incoming IM message (remote)",
            description: "Sent to the remote party when their IM was blocked",
        },
        RlvStringDef {
            key: "blocked_sendim",
            default: "*** IM blocked by sender's viewer",
            label: "Blocked outgoing IM message (local + remote)",
            description: "Shown (and sent to the remote party) when an outgoing IM is blocked",
        },
        RlvStringDef {
            key: "blocked_tplurerequest_remote",
            default: "The Resident is currently prevented from accepting. Please try again later.",
            label: "Blocked teleport offer/request (remote)",
            description: "Sent to the remote party when their teleport offer or request was blocked",
        },
        RlvStringDef {
            key: "imquery_list_deny",
            default: "*** The other party respectfully requests you mind your own business (bunnies made me do it!)",
            label: "@list and @except command (remote)",
            description: "Sent to the remote party when you deny their request to list your active RLV restrictions",
        },
        RlvStringDef {
            key: "imquery_list_suffix",
            default: "(Use @except to see the list of active exceptions)",
            label: "@list command suffix (remote)",
            description: "Sent to the remote party as a suffix to @list to inform them how to request your exceptions",
        },
        RlvStringDef {
            key: "stopim_endsession_remote",
            default: "*** Session has been ended for the other party",
            label: "@stopim command with an active session (remote)",
            description: "Sent to the remote party when they attempt to forcefully close the IM conversation (and it exists)",
        },
        RlvStringDef {
            key: "stopim_nosession",
            default: "*** The other party is not under a @startim restriction",
            label: "@stopim command with no session (remote)",
            description: "Sent to the remote party when they attempt to forcefully close your IM conversation with them (and no such session exists)",
        },
    ]
}

/// The eight strings RLVa marks customisable — the ones the
/// Strings floater lets the user rewrite — in key order, the order code
/// names them by.
pub fn rlv_strings() -> (r: Vec<RlvStringDef>)
    ensures
        r@ == spec_rlv_strings(),
{
    let mut r: Vec<RlvStringDef> = Vec::new();
    r.push(
        RlvStringDef {
            key: "blocked_recvim",
            default: "*** IM blocked by your viewer",
            label: "Blocked incoming IM message (local)",
            description: "Shown in place of the original message when an incoming IM is blocked",
        },
    );
    r.push(
        RlvStringDef {
            key: "blocked_recvim_remote",
            default: "The Resident you messaged is currently prevented from reading your instant messages at the moment, please try again later.",
            label: "Blocked incoming IM message (remote)",
            description: "Sent to the remote party when their IM was blocked",
        },
    );
    r.push(
        RlvStringDef {
            key: "blocked_sendim",
            default: "*** IM blocked by sender's viewer",
            label: "Blocked outgoing IM message (local + remote)",
            description: "Shown (and sent to the remote party) when an outgoing IM is blocked",
        },
    );
    r.push(
        RlvStringDef {
            key: "blocked_tplurerequest_remote",
            default: "The Resident is currently prevented from accepting. Please try again later.",
            label: "Blocked teleport offer/request (remote)",
            description: "Sent to the remote party when their teleport offer or request was blocked",
        },
    );
    r.push(
        RlvStringDef {
            key: "imquery_list_deny",
            default: "*** The other party respectfully requests you mind your own business (bunnies made me do it!)",
            label: "@list and @except command (remote)",
            description: "Sent to the remote party when you deny their request to list your active RLV restrictions",
        },
    );
    r.push(
        RlvStringDef {
            key: "imquery_list_suffix",
            default: "(Use @except to see the list of active exceptions)",
            label: "@list command suffix (remote)",
            description: "Sent to the remote party as a suffix to @list to inform them how to request your exceptions",
        },
    );
    r.push(
        RlvStringDef {
            key: "stopim_endsession_remote",
            default: "*** Session has been ended for the other party",
            label: "@stopim command with an active session (remote)",
            description: "Sent to the remote party when they attempt to forcefully close the IM conversation (and it exists)",
        },
    );
    r.push(
        RlvStringDef {
            key: "stopim_nosession",
            default: "*** The other party is not under a @startim restriction",
            label: "@stopim command with no session (remote)",
            description: "Sent to the remote party when they attempt to forcefully close your IM conversation with them (and no such session exists)",
        },
    );
    assert(r@ =~= spec_rlv_strings());
    r
}

/// The declared default of the boolean setting `name` in `table`, looking
/// from position `i`: the first entry of that name, `false` for none.
pub open spec fn default_from(table: Seq<RlvFlagDef>, name: Seq<char>, i: int) -> bool
    decreases table.len() - i,
{
    if i < 0 || i >= table.len() {
        false
    } else if table[i].name@ == name {
        table[i].default
    } else {
        default_from(table, name, i + 1)
    }
}

/// The roster's declared default for the boolean setting `name` — `false`
/// for a name the roster does not know.
pub open spec fn roster_default(name: Seq<char>) -> bool {
    default_from(spec_rlv_bool_settings(), name, 0)
}

/// The roster's declared default for the boolean setting `name`.
fn roster_default_of(name: &str) -> (b: bool)
    ensures
        b == roster_default(name@),
{
    let table = rlv_bool_settings();
    let mut i: usize = 0;
    while i < table.len()
        invariant
            table@ == spec_rlv_bool_settings(),
            i <= table.len(),
            roster_default(name@) == default_from(table@, name@, i as int),
        decreases table.len() - i,
    {
        if str_eq(table[i].name, name) {
            return table[i].default;
        }
        i = i + 1;
    }
    false
}

/// Read one RLV boolean setting: the stored switch where the store holds
/// one, the roster's declared default otherwise (and `false` for a name the
/// roster does not know, which can only be a typo).
pub fn rlv_flag(settings: Option<&SettingsStore>, name: &str) -> (b: bool)
    ensures
        b == match settings {
            Some(s) => match s.spec_get_bool(name@) {
                Some(v) => v,
                None => roster_default(name@),
            },
            None => roster_default(name@),
        },
{
    let default = roster_default_of(name);
    match settings {
        Some(s) => match s.get_bool(name) {
            Some(v) => v,
            None => default,
        },
        None => default,
    }
}

/// Whether RLV is on — the master switch, off without a store.
pub fn rlv_is_enabled(settings: Option<&SettingsStore>) -> (b: bool)
    ensures
        b == switch_on(settings, SETTING_MAIN@),
{
    match settings {
        Some(s) => match s.get_bool(SETTING_MAIN) {
            Some(v) => v,
            None => false,
        },
        None => false,
    }
}

/// The response string of `key` in `table`, looking from position `i`.
pub open spec fn string_def_from(table: Seq<RlvStringDef>, key: Seq<char>, i: int) -> Option<RlvStringDef>
    decreases table.len() - i,
{
    if i < 0 || i >= table.len() {
        None
    } else if table[i].key@ == key {
        Some(table[i])
    } else {
        string_def_from(table, key, i + 1)
    }
}

/// Look up a response string's definition by key.
pub fn rlv_string_def(key: &str) -> (r: Option<RlvStringDef>)
    ensures
        r == string_def_from(spec_rlv_strings(), key@, 0),
{
    let table = rlv_strings();
    let mut i: usize = 0;
    while i < table.len()
        invariant
            table@ == spec_rlv_strings(),
            i <= table.len(),
            string_def_from(table@, key@, 0) == string_def_from(table@, key@, i as int),
        decreases table.len() - i,
    {
        if str_eq(table[i].key, key) {
            return Some(table[i]);
        }
        i = i + 1;
    }
    None
}

/// The live text of the response string `key`: the user's override where the
/// store holds one, the default otherwise, and the key itself for a name no
/// table knows (so a typo reads as one).
pub fn rlv_string(settings: Option<&SettingsStore>, key: &str) -> (r: String)
    ensures
        r@ == match (match settings {
            Some(s) => s.spec_get_text(key@),
            None => None,
        }) {
            Some(text) => text,
            None => match string_def_from(spec_rlv_strings(), key@, 0) {
                Some(def) => def.default@,
                None => key@,
            },
        },
{
    if let Some(s) = settings {
        if let Some(text) = s.get_text(key) {
            return text.clone();
        }
    }
    match rlv_string_def(key) {
        Some(def) => def.default.to_owned(),
        None => key.to_owned(),
    }
}

/// Which stream a console line came out of — how it is coloured and prefixed.
#[derive(Debug, Clone, Copy, PartialEq, Eq, Structural)]
pub enum RlvConsoleKind {
    /// A line the user typed, echoed back after the prompt.
    Input,
    /// A command that was accepted.
    Info,
    /// A command that was refused.
    Error,
    /// The answer to a query, as the asking script would have heard it.
    Reply,
}

impl RlvConsoleKind {
    /// The prefix the console writes ahead of this kind of line.
    pub fn prefix(self) -> (p: &'static str)
        ensures
            p@ == match self {
                RlvConsoleKind::Input => "> "@,
                RlvConsoleKind::Info => "INFO: "@,
                RlvConsoleKind::Error => "ERR: "@,
                RlvConsoleKind::Reply => ""@,
            },
    {
        match self {
            RlvConsoleKind::Input => "> ",
            RlvConsoleKind::Info => "INFO: ",
            RlvConsoleKind::Error => "ERR: ",
            RlvConsoleKind::Reply => "",
        }
    }
}

/// One line of the RLVa console transcript.
#[derive(Debug, Clone)]
pub struct RlvConsoleLine {
    /// Which stream it came from.
    pub kind: RlvConsoleKind,
    /// The text, without the prefix.
    pub text: String,
}

/// One line the engine owes the grid: the chat channel to say it on and the
/// message, already truncated and channel-checked by whatever produced it.
#[derive(Debug, Clone)]
pub struct RlvReply {
    /// The chat channel.
    pub channel: i32,
    /// The message.
    pub message: String,
}

/// How many console lines are kept; old lines fall off the front.
pub const RLV_CONSOLE_CAPACITY: usize = 512;

/// How many unsent replies are kept; the oldest is dropped first.
pub const RLV_REPLY_CAPACITY: usize = 256;

/// `s` with `x` appended, dropping the front element first when `s` already
/// holds `cap` elements — one step of a bounded ring.
pub open spec fn ring_push<T>(s: Seq<T>, x: T, cap: nat) -> Seq<T> {
    if s.len() >= cap {
        s.drop_first().push(x)
    } else {
        s.push(x)
    }
}

/// The session's revisions, its console transcript and the lines it owes the
/// grid. The state machine itself is kept beside it.
#[derive(Debug)]
pub struct RlvSession {
    /// Ticks whenever an applied command changed the held set.
    revision: u64,
    /// The console transcript, oldest first, capped at [`RLV_CONSOLE_CAPACITY`].
    console: VecDeque<RlvConsoleLine>,
    /// Ticks whenever a console line is appended or the transcript is cleared.
    console_revision: u64,
    /// The lines waiting to be said back, oldest first.
    replies: VecDeque<RlvReply>,
}

impl RlvSession {
    /// The restriction revision.
    pub closed spec fn spec_revision(&self) -> u64 {
        self.revision
    }

    /// The console revision.
    pub closed spec fn spec_console_revision(&self) -> u64 {
        self.console_revision
    }

    /// The console transcript, oldest first.
    pub closed spec fn spec_console(&self) -> Seq<RlvConsoleLine> {
        self.console@
    }

    /// The queued replies, oldest first.
    pub closed spec fn spec_replies(&self) -> Seq<RlvReply> {
        self.replies@
    }

    /// The session's invariant: both queues within their caps.
    pub open spec fn wf(&self) -> bool {
        &&& self.spec_console().len() <= RLV_CONSOLE_CAPACITY
        &&& self.spec_replies().len() <= RLV_REPLY_CAPACITY
    }

    /// A fresh session: nothing logged, nothing owed, both revisions zero.
    pub fn new() -> (s: RlvSession)
        ensures
            s.wf(),
            s.spec_revision() == 0,
            s.spec_console_revision() == 0,
            s.spec_console().len() == 0,
            s.spec_replies().len() == 0,
    {
        RlvSession { revision: 0, console: VecDeque::new(), console_revision: 0, replies: VecDeque::new() }
    }

    /// The restriction revision.
    pub fn revision(&self) -> (r: u64)
        ensures
            r == self.spec_revision(),
    {
        self.revision
    }

    /// Record that the held set changed.
    pub fn bump(&mut self)
        ensures
            final(self).spec_revision() == next_revision(old(self).spec_revision()),
            final(self).spec_console_revision() == old(self).spec_console_revision(),
            final(self).spec_console() == old(self).spec_console(),
            final(self).spec_replies() == old(self).spec_replies(),
    {
        self.revision = bump(self.revision);
    }

    /// The console transcript, oldest first.
    pub fn console(&self) -> (c: &VecDeque<RlvConsoleLine>)
        ensures
            c@ == self.spec_console(),
    {
        &self.console
    }

    /// The console revision — ticks on every append and on a clear.
    pub fn console_revision(&self) -> (r: u64)
        ensures
            r == self.spec_console_revision(),
    {
        self.console_revision
    }

    /// Append one console line, dropping the oldest when the cap is reached.
    pub fn log(&mut self, kind: RlvConsoleKind, text: String)
        requires
            old(self).wf(),
        ensures
            final(self).wf(),
            final(self).spec_console() == ring_push(
                old(self).spec_console(),
                RlvConsoleLine { kind, text },
                RLV_CONSOLE_CAPACITY as nat,
            ),
            final(self).spec_console_revision() == next_revision(old(self).spec_console_revision()),
            final(self).spec_revision() == old(self).spec_revision(),
            final(self).spec_replies() == old(self).spec_replies(),
    {
        if self.console.len() >= RLV_CONSOLE_CAPACITY {
            let _oldest = self.console.pop_front();
        }
        self.console.push_back(RlvConsoleLine { kind, text });
        self.console_revision = bump(self.console_revision);
    }

    /// Queue one line to be said back to the grid, dropping the oldest when
    /// the cap is reached.
    pub fn push_reply(&mut self, reply: RlvReply)
        requires
            old(self).wf(),
        ensures
            final(self).wf(),
            final(self).spec_replies() == ring_push(old(self).spec_replies(), reply, RLV_REPLY_CAPACITY as nat),
            final(self).spec_console() == old(self).spec_console(),
            final(self).spec_console_revision() == old(self).spec_console_revision(),
            final(self).spec_revision() == old(self).spec_revision(),
    {
        if self.replies.len() >= RLV_REPLY_CAPACITY {
            let _oldest = self.replies.pop_front();
        }
        self.replies.push_back(reply);
    }

    /// Whether anything is waiting to be said back.
    pub fn has_replies(&self) -> (b: bool)
        ensures
            b == (self.spec_replies().len() > 0),
    {
        self.replies.len() > 0
    }

    /// Take every queued reply, oldest first.
    pub fn take_replies(&mut self) -> (r: Vec<RlvReply>)
        requires
            old(self).wf(),
        ensures
            final(self).wf(),
            r@ == old(self).spec_replies(),
            final(self).spec_replies().len() == 0,
            final(self).spec_console() == old(self).spec_console(),
            final(self).spec_console_revision() == old(self).spec_console_revision(),
            final(self).spec_revision() == old(self).spec_revision(),
    {
        let mut out: Vec<RlvReply> = Vec::new();
        let ghost all = self.replies@;
        while self.replies.len() > 0
            invariant
                all == old(self).replies@,
                out@ + self.replies@ == all,
                self.console@ == old(self).console@,
                self.console_revision == old(self).console_revision,
                self.revision == old(self).revision,
            decreases self.replies@.len(),
        {
            let ghost before = self.replies@;
            match self.replies.pop_front() {
                Some(reply) => {
                    out.push(reply);
                    proof {
                        assert(out@ + self.replies@ =~= all);
                    }
                },
                None => {},
            }
        }
        proof {
            assert(out@ =~= all);
        }
        out
    }

    /// The queue half of turning RLV off, once the state machine has been
    /// reset: every reply not yet sent is dropped (it is owed to a conversation
    /// that has ended), and the restriction revision ticks only when the engine
    /// `held` something before the reset — a real release. The transcript is
    /// kept: it is the log of what happened.
    pub fn release_all(&mut self, held: bool)
        requires
            old(self).wf(),
        ensures
            final(self).wf(),
            final(self).spec_replies().len() == 0,
            final(self).spec_revision() == if held {
                next_revision(old(self).spec_revision())
            } else {
                old(self).spec_revision()
            },
            final(self).spec_console() == old(self).spec_console(),
            final(self).spec_console_revision() == old(self).spec_console_revision(),
    {
        self.replies.clear();
        if held {
            self.revision = bump(self.revision);
        }
    }

    /// Empty the transcript; clearing an empty one is not a change.
    pub fn clear_console(&mut self)
        requires
            old(self).wf(),
        ensures
            final(self).wf(),
            final(self).spec_console().len() == 0,
            final(self).spec_console_revision() == if old(self).spec_console().len() == 0 {
                old(self).spec_console_revision()
            } else {
                next_revision(old(self).spec_console_revision())
            },
            final(self).spec_revision() == old(self).spec_revision(),
            final(self).spec_replies() == old(self).spec_replies(),
    {
        if self.console.len() == 0 {
            return;
        }
        self.console.clear();
        self.console_revision = bump(self.console_revision);
    }
}

impl Default for RlvSession {
    /// A fresh session.
    fn default() -> (s: RlvSession)
        ensures
            s.wf(),
            s.spec_revision() == 0,
            s.spec_console_revision() == 0,
            s.spec_console().len() == 0,
            s.spec_replies().len() == 0,
    {
        RlvSession::new()
    }
}

/// A bounded ring never holds more than its cap, and always ends with what
/// was just pushed.
pub proof fn law_ring_push_is_bounded<T>(s: Seq<T>, x: T, cap: nat)
    requires
        0 < cap,
        s.len() <= cap,
    ensures
        ring_push(s, x, cap).len() <= cap,
        ring_push(s, x, cap).last() == x,
        s.len() < cap ==> ring_push(s, x, cap).drop_last() == s,
        s.len() == cap ==> ring_push(s, x, cap).drop_last() == s.drop_first(),
{
    if s.len() >= cap {
        assert(s.drop_first().push(x).drop_last() =~= s.drop_first());
    } else {
        assert(s.push(x).drop_last() =~= s);
    }
}

/// `s` after each of `xs` is pushed onto it in turn, one bounded-ring step
/// each.
pub open spec fn ring_push_all<T>(s: Seq<T>, xs: Seq<T>, cap: nat) -> Seq<T>
    decreases xs.len(),
{
    if xs.len() == 0 {
        s
    } else {
        ring_push(ring_push_all(s, xs.drop_last(), cap), xs.last(), cap)
    }
}

/// The last `cap` elements of `s` (all of it when it is no longer).
pub open spec fn last_n<T>(s: Seq<T>, cap: nat) -> Seq<T> {
    if s.len() > cap {
        s.skip(s.len() - cap)
    } else {
        s
    }
}

/// A run of pushes onto a bounded ring keeps exactly the last `cap` of what
/// it held and what was pushed, in push order: pushing `xs` onto an empty
/// reply queue and draining it gives the last 256 of `xs`, oldest first.
pub proof fn law_ring_keeps_the_last_pushes<T>(s: Seq<T>, xs: Seq<T>, cap: nat)
    requires
        0 < cap,
        s.len() <= cap,
    ensures
        ring_push_all(s, xs, cap) == last_n(s + xs, cap),
        ring_push_all(s, xs, cap).len() <= cap,
    decreases xs.len(),
{
    if xs.len() == 0 {
        assert(s + xs =~= s);
    } else {
        let init = xs.drop_last();
        let x = xs.last();
        law_ring_keeps_the_last_pushes(s, init, cap);
        let t = s + init;
        assert(s + xs =~= t.push(x));
        let r = last_n(t, cap);
        if t.len() >= cap {
            assert(r.drop_first().push(x) =~= t.push(x).skip(t.push(x).len() - cap));
        } else {
            assert(r =~= t);
        }
    }
}

/// The kind of a chat line, as the simulator labels it.
#[derive(Debug, Clone, Copy, PartialEq, Eq, Structural)]
pub enum ChatType {
    /// Said quietly.
    Whisper,
    /// Said aloud.
    Normal,
    /// Shouted.
    Shout,
    /// The speaker started typing.
    StartTyping,
    /// The speaker stopped typing.
    StopTyping,
    /// A script debug message.
    Debug,
    /// Said to the whole region.
    Region,
    /// Said to the object's owner only — delivered by the simulator to that
    /// owner and nobody else.
    Owner,
    /// Said directly to one agent.
    Direct,
}

/// Who said a chat line.
#[derive(Debug, Clone, Copy, PartialEq, Eq, Structural)]
pub enum ChatSource {
    /// The simulator itself.
    System,
    /// An avatar.
    Agent(Uuid),
    /// An object, by its grid-wide key.
    Object(ObjectKey),
}

impl ChatSource {
    /// The speaking object's key, for an object.
    pub open spec fn spec_object_key(self) -> Option<ObjectKey> {
        match self {
            ChatSource::Object(key) => Some(key),
            _ => None,
        }
    }

    /// The speaking object's key, when an object spoke.
    #[verifier::when_used_as_spec(spec_object_key)]
    pub fn object_key(self) -> (k: Option<ObjectKey>)
        ensures
            k == self.spec_object_key(),
    {
        match self {
            ChatSource::Object(key) => Some(key),
            _ => None,
        }
    }
}

/// Whether `line` is an RLV command line the viewer swallows rather than
/// shows: it starts with `@`.
pub fn is_rlv_command_line(line: &str) -> (b: bool)
    ensures
        b == (line@.len() > 0 && line@[0] == '@'),
{
    starts_with_char(line, '@')
}

/// Whether the known object with key `key` is a temporary attachment: one a
/// script attached, whose attach item is its own id.
pub open spec fn spec_is_temp_attachment(objs: Map<u64, TrackedObject>, key: ObjectKey) -> bool {
    exists|k: u64| #[trigger] objs.contains_key(k) && objs[k].full_key == key && objs[k].attachment_point is Some
        && objs[k].attachment_item == Some(key)
}

/// Only an attachment that names its own id as the item it was worn from is
/// temporary: an object every known record of which names another item (or
/// none) — one worn from inventory — is not, nor is one worn nowhere; and a
/// worn record naming its own id makes it temporary.
pub proof fn law_only_a_self_naming_attachment_is_temporary(objs: Map<u64, TrackedObject>, key: ObjectKey)
    ensures
        (forall|k: u64| #[trigger] objs.contains_key(k) && objs[k].full_key == key ==> objs[k].attachment_item
            != Some(key)) ==> !spec_is_temp_attachment(objs, key),
        (forall|k: u64| #[trigger] objs.contains_key(k) && objs[k].full_key == key ==> objs[k].attachment_point
            is None) ==> !spec_is_temp_attachment(objs, key),
        forall|k: u64| #[trigger] objs.contains_key(k) && objs[k].full_key == key && objs[k].attachment_point
            is Some && objs[k].attachment_item == Some(key) ==> spec_is_temp_attachment(objs, key),
        spec_is_temp_attachment(objs, key) ==> exists|k: u64| #[trigger] objs.contains_key(k) && objs[k].full_key
            == key && objs[k].attachment_item == Some(key),
{
}

/// Whether the object with grid-wide key `key` is a temporary attachment —
/// one a script attached rather than one worn from inventory: some known
/// object of that key carries an attachment point and names its own id as
/// the item it was worn from. `false` for an unknown object. The speaking
/// object is asked, not its attachment root.
pub fn is_temp_attachment(objects: &ObjectState, key: ObjectKey) -> (b: bool)
    ensures
        b == spec_is_temp_attachment(objects.table(), key),
        b ==> exists|k: u64| #[trigger] objects.table().contains_key(k) && objects.table()[k].full_key == key
            && objects.table()[k].attachment_item == Some(key),
{
    proof {
        law_only_a_self_naming_attachment_is_temporary(objects.table(), key);
    }
    let keys = map_keys(&objects.objects);
    for i in 0..keys.len()
        invariant
            forall|k: u64| keys@.contains(k) <==> objects.table().contains_key(k),
            forall|j: int| 0 <= j < i ==> {
                let t = #[trigger] objects.table()[keys@[j]];
                !(t.full_key == key && t.attachment_point is Some && t.attachment_item == Some(key))
            },
    {
        let k = keys[i];
        assert(keys@.contains(k));
        let t = objects.objects.get(&k).unwrap();
        let item_is_own = match t.attachment_item {
            Some(item) => item == key,
            None => false,
        };
        if t.full_key == key && t.attachment_point.is_some() && item_is_own {
            return true;
        }
    }
    proof {
        assert forall|k: u64| #[trigger] objects.table().contains_key(k) implies !(objects.table()[k].full_key == key
            && objects.table()[k].attachment_point is Some && objects.table()[k].attachment_item == Some(key)) by {
            assert(keys@.contains(k));
            let j = choose|j: int| 0 <= j < keys.len() && keys@[j] == k;
        }
    }
    false
}

/// Whether an arriving chat line is an object speaking `@`-commands at this
/// viewer, and so is taken by the RLV engine instead of being shown: RLV is
/// on, the line is owner-say, it starts with `@`, and the speaker is not a
/// temporary attachment while temporary attachments are refused. A speaker
/// this viewer has not streamed is admitted.
pub fn swallows_owner_say(
    settings: Option<&SettingsStore>,
    objects: Option<&ObjectState>,
    source: ChatSource,
    chat_type: ChatType,
    message: &str,
) -> (b: bool)
    ensures
        b == (switch_on(settings, SETTING_MAIN@) && chat_type == ChatType::Owner && message@.len() > 0
            && message@[0] == '@' && (match settings {
            Some(s) => match s.spec_get_bool(SETTING_ENABLE_TEMP_ATTACH@) {
                Some(v) => v,
                None => roster_default(SETTING_ENABLE_TEMP_ATTACH@),
            },
            None => roster_default(SETTING_ENABLE_TEMP_ATTACH@),
        } || !(match (source.spec_object_key(), objects) {
            (Some(key), Some(o)) => spec_is_temp_attachment(o.table(), key),
            _ => false,
        }))),
{
    if !rlv_is_enabled(settings) || chat_type != ChatType::Owner || !is_rlv_command_line(message) {
        return false;
    }
    if rlv_flag(settings, SETTING_ENABLE_TEMP_ATTACH) {
        return true;
    }
    match (source.object_key(), objects) {
        (Some(key), Some(o)) => !is_temp_attachment(o, key),
        _ => true,
    }
}

/// What a walk of at most `steps` links from the known object under `k`
/// finds it is worn as: the first object up the chain carrying an attachment
/// point, with its grid-wide key and that point.
pub open spec fn walk_attachment(objs: Map<u64, TrackedObject>, k: u64, steps: nat) -> Option<(ObjectKey, u8)>
    decreases steps,
{
    if steps == 0 || !objs.contains_key(k) {
        None
    } else {
        let t = objs[k];
        match t.attachment_point {
            Some(point) => Some((t.full_key, point)),
            None => if t.is_root {
                None
            } else {
                walk_attachment(objs, t.parent.packed(), (steps - 1) as nat)
            },
        }
    }
}

/// Where the object with grid-wide key `key` sits on the avatar: the key of
/// its attachment root (the first ancestor carrying an attachment point,
/// itself included) and that raw point, or `None` when no known object has
/// that key or it is not part of a worn attachment. The walk is bounded by
/// [`MAX_PARENT_WALK`].
pub fn object_attachment(objects: &ObjectState, key: ObjectKey) -> (r: Option<(ObjectKey, u8)>)
    ensures
        !(exists|k: u64| #[trigger] objects.table().contains_key(k) && objects.table()[k].full_key == key) ==> r is None,
        (exists|k: u64| #[trigger] objects.table().contains_key(k) && objects.table()[k].full_key == key) ==> exists|k: u64|
            #[trigger] objects.table().contains_key(k) && objects.table()[k].full_key == key && r == walk_attachment(
                objects.table(),
                k,
                MAX_PARENT_WALK as nat,
            ),
{
    let ghost objs = objects.table();
    let start = match objects.find_by_key(key) {
        Some(k) => k,
        None => return None,
    };
    let mut current = ScopedObjectId::from_key(start);
    let mut step: usize = 0;
    while step < MAX_PARENT_WALK
        invariant
            objs == objects.table(),
            objs.contains_key(start),
            objs[start].full_key == key,
            step <= MAX_PARENT_WALK,
            walk_attachment(objs, start, MAX_PARENT_WALK as nat) == walk_attachment(
                objs,
                current.packed(),
                (MAX_PARENT_WALK - step) as nat,
            ),
        decreases MAX_PARENT_WALK - step,
    {
        let t = match objects.objects.get(&current.key()) {
            Some(t) => t,
            None => return None,
        };
        if let Some(point) = t.attachment_point {
            return Some((t.full_key, point));
        }
        if t.is_root {
            return None;
        }
        current = t.parent;
        step = step + 1;
    }
    None
}

/// Which kind of environment settings a library item holds.
#[derive(Debug, Clone, Copy, PartialEq, Eq, Structural)]
pub enum SettingsKind {
    /// A sky.
    Sky,
    /// Water.
    Water,
    /// A day cycle.
    DayCycle,
}

/// The library `Environments` folder, indexed the way `@setenv_preset` and
/// `@setenv_daycycle` search it: by settings kind and case-insensitively by
/// name, the first item of a name winning.
#[derive(Debug, Clone)]
pub struct RlvLibraryEnvironments {
    /// Each indexed item: its kind, its lower-cased name and its asset id.
    entries: Vec<(SettingsKind, String, Uuid)>,
}

/// The asset indexed under `kind` and the lower-cased name `name` in
/// `entries`, if any.
pub open spec fn indexed(entries: Seq<(SettingsKind, String, Uuid)>, kind: SettingsKind, name: Seq<char>) -> Option<Uuid> {
    if exists|i: int| 0 <= i < entries.len() && #[trigger] entries[i].0 == kind && entries[i].1@ == name {
        let i = choose|i: int| 0 <= i < entries.len() && #[trigger] entries[i].0 == kind && entries[i].1@ == name;
        Some(entries[i].2)
    } else {
        None
    }
}

impl RlvLibraryEnvironments {
    /// The index: the asset under each kind and lower-cased name.
    pub closed spec fn index(&self) -> Seq<(SettingsKind, String, Uuid)> {
        self.entries@
    }

    /// No kind and name is indexed twice.
    pub open spec fn wf(&self) -> bool {
        forall|i: int, j: int| 0 <= i < j < self.index().len() ==> !(#[trigger] self.index()[i].0 == #[trigger] self.index()[j].0
            && self.index()[i].1@ == self.index()[j].1@)
    }

    /// The asset a name of a kind resolves to, as a spec.
    pub open spec fn spec_resolve(&self, kind: SettingsKind, name: Seq<char>) -> Option<Uuid> {
        indexed(self.index(), kind, lowercase(name))
    }

    /// An empty index.
    pub fn new() -> (l: RlvLibraryEnvironments)
        ensures
            l.wf(),
            l.index().len() == 0,
    {
        RlvLibraryEnvironments { entries: Vec::new() }
    }

    /// The position of the entry under `kind` and the lower-cased `lowered`.
    fn position(&self, kind: SettingsKind, lowered: &String) -> (r: Option<usize>)
        requires
            self.wf(),
        ensures
            r is None ==> indexed(self.index(), kind, lowered@) is None,
            r matches Some(i) ==> i < self.index().len() && indexed(self.index(), kind, lowered@) == Some(
                self.index()[i as int].2,
            ),
    {
        let mut i: usize = 0;
        while i < self.entries.len()
            invariant
                self.wf(),
                i <= self.entries.len(),
                forall|j: int| 0 <= j < i ==> !(#[trigger] self.entries@[j].0 == kind && self.entries@[j].1@ == lowered@),
            decreases self.entries.len() - i,
        {
            if self.entries[i].0 == kind && self.entries[i].1 == *lowered {
                proof {
                    let c = choose|c: int| 0 <= c < self.entries@.len() && #[trigger] self.entries@[c].0 == kind
                        && self.entries@[c].1@ == lowered@;
                    if c != i {
                        if c < i {
                            assert(false);
                        } else {
                            assert(!(self.index()[i as int].0 == self.index()[c].0 && self.index()[i as int].1@
                                == self.index()[c].1@));
                        }
                    }
                }
                return Some(i);
            }
            i = i + 1;
        }
        None
    }

    /// Record one library settings item, keeping the first of a repeated name
    /// (compared case-insensitively): a later duplicate never displaces an
    /// earlier one.
    pub fn insert(&mut self, kind: SettingsKind, name: &str, asset: Uuid)
        requires
            old(self).wf(),
        ensures
            final(self).wf(),
            old(self).spec_resolve(kind, name@) is Some ==> final(self).index() == old(self).index(),
            old(self).spec_resolve(kind, name@) is None ==> final(self).index() == old(self).index().push(
                (kind, final(self).index().last().1, asset),
            ) && final(self).index().last().1@ == lowercase(name@),
    {
        let lowered = to_lowercase(name);
        match self.position(kind, &lowered) {
            Some(_) => {},
            None => {
                let ghost before = self.entries@;
                self.entries.push((kind, lowered, asset));
                proof {
                    assert forall|i: int, j: int| 0 <= i < j < self.index().len() implies !(#[trigger] self.index()[i].0
                        == #[trigger] self.index()[j].0 && self.index()[i].1@ == self.index()[j].1@) by {
                        if j == before.len() {
                            if self.index()[i].0 == kind && self.index()[i].1@ == lowercase(name@) {
                                assert(before[i].0 == kind && before[i].1@ == lowercase(name@));
                            }
                        }
                    }
                }
            },
        }
    }

    /// The asset a name of that kind resolves to (case-insensitively), or
    /// `None` for a name the library does not carry.
    pub fn resolve(&self, kind: SettingsKind, name: &str) -> (r: Option<Uuid>)
        requires
            self.wf(),
        ensures
            r == self.spec_resolve(kind, name@),
    {
        let lowered = to_lowercase(name);
        match self.position(kind, &lowered) {
            Some(i) => Some(self.entries[i].2),
            None => None,
        }
    }

    /// How many named assets are indexed.
    pub fn len(&self) -> (n: usize)
        ensures
            n == self.index().len(),
    {
        self.entries.len()
    }

    /// Whether nothing is indexed.
    pub fn is_empty(&self) -> (b: bool)
        ensures
            b == (self.index().len() == 0),
    {
        self.entries.len() == 0
    }
}

impl Default for RlvLibraryEnvironments {
    /// An empty index.
    fn default() -> (l: RlvLibraryEnvironments)
        ensures
            l.wf(),
            l.index().len() == 0,
    {
        RlvLibraryEnvironments::new()
    }
}

/// A whole-environment change an `@setenv_*` command asks for. `P` is the
/// day-cycle position a `DayTime` request carries, passed through untouched.
#[derive(Debug, Clone, PartialEq)]
pub enum EnvRequest<P> {
    /// Install the settings asset with this id.
    Asset(Uuid),
    /// Install the sky preset named (or identified) by this text.
    Preset(String),
    /// Install the day cycle named (or identified) by this text.
    DayCycle(String),
    /// Pin the day cycle at this position.
    DayTime(P),
    /// Go back to the shared environment.
    Clear,
}

/// The meeting point between the RLV engine and the scene's environment
/// layer: the sky the scene renders, the sky a script has edited, a
/// whole-environment change waiting to be carried out, whether a fixed sky is
/// pinned, and the library index names resolve against. `S` is the scene's
/// sky settings; `P` a day-cycle position.
#[derive(Debug, Clone)]
pub struct RlvEnvironmentSlot<S, P> {
    /// The sky the scene is rendering; `None` before the first environment.
    pub rendered: Option<S>,
    /// The sky a script has edited, waiting to be installed as the local layer.
    pub edited: Option<S>,
    /// A whole-environment change for the scene to carry out and take.
    pub request: Option<EnvRequest<P>>,
    /// Whether the scene has a fixed sky pinned rather than a day cycle.
    pub fixed_sky: bool,
    /// The library `Environments` folder's assets by kind and name.
    pub library_environments: RlvLibraryEnvironments,
}

/// What the text of a `@setenv_preset` / `@setenv_daycycle` resolves to: the
/// id it parses as when that is not the nil id, otherwise the library asset of
/// that name and kind.
pub open spec fn resolves_to(library: RlvLibraryEnvironments, text: Seq<char>, kind: SettingsKind) -> Option<Uuid> {
    match uuid_parse(text) {
        Some(id) if id != 0 => Some(id),
        _ => library.spec_resolve(kind, text),
    }
}

/// The asset request a whole-environment change becomes once names are
/// resolved, or `None` when a name resolves to nothing.
pub open spec fn resolved_request<P>(library: RlvLibraryEnvironments, request: EnvRequest<P>) -> Option<EnvRequest<P>> {
    match request {
        EnvRequest::Asset(id) => Some(EnvRequest::Asset(id)),
        EnvRequest::Preset(text) => match resolves_to(library, text@, SettingsKind::Sky) {
            Some(id) => Some(EnvRequest::Asset(id)),
            None => None,
        },
        EnvRequest::DayCycle(text) => match resolves_to(library, text@, SettingsKind::DayCycle) {
            Some(id) => Some(EnvRequest::Asset(id)),
            None => None,
        },
        EnvRequest::DayTime(position) => Some(EnvRequest::DayTime(position)),
        EnvRequest::Clear => Some(EnvRequest::Clear),
    }
}

impl<S, P> RlvEnvironmentSlot<S, P> {
    /// An empty slot: nothing rendered, edited or requested.
    pub fn new() -> (s: RlvEnvironmentSlot<S, P>)
        ensures
            s.rendered is None,
            s.edited is None,
            s.request is None,
            !s.fixed_sky,
            s.library_environments.wf(),
            s.library_environments.index().len() == 0,
    {
        RlvEnvironmentSlot {
            rendered: None,
            edited: None,
            request: None,
            fixed_sky: false,
            library_environments: RlvLibraryEnvironments::new(),
        }
    }

    /// Resolve the text of a `@setenv_preset` / `@setenv_daycycle` to a
    /// settings asset: as an id when it parses as a non-nil one, otherwise by
    /// name against the library folder for that kind. The literal nil id is
    /// searched for by name, which no library item answers.
    pub fn resolve_settings(&self, text: &str, kind: SettingsKind) -> (r: Option<Uuid>)
        requires
            self.library_environments.wf(),
        ensures
            r == resolves_to(self.library_environments, text@, kind),
    {
        match parse_uuid(text) {
            Some(id) if id != 0 => Some(id),
            _ => self.library_environments.resolve(kind, text),
        }
    }

    /// Queue a whole-environment change for the scene. A preset or day cycle
    /// is resolved to an asset first (by id, then by name in its own kind); a
    /// name that resolves to nothing is refused (`false`) and changes nothing.
    /// Otherwise any per-value edit still waiting is dropped — this replaces
    /// the whole local layer — and the resolved request is queued.
    pub fn apply_environment(&mut self, request: EnvRequest<P>) -> (ok: bool)
        requires
            old(self).library_environments.wf(),
        ensures
            ok == resolved_request(old(self).library_environments, request) is Some,
            ok ==> final(self).edited is None && final(self).request == resolved_request(
                old(self).library_environments,
                request,
            ),
            !ok ==> final(self).edited == old(self).edited && final(self).request == old(self).request,
            final(self).rendered == old(self).rendered,
            final(self).fixed_sky == old(self).fixed_sky,
            final(self).library_environments == old(self).library_environments,
    {
        let resolved = match request {
            EnvRequest::Asset(id) => EnvRequest::Asset(id),
            EnvRequest::Preset(text) => match self.resolve_settings(text.as_str(), SettingsKind::Sky) {
                Some(id) => EnvRequest::Asset(id),
                None => {
                    return false;
                },
            },
            EnvRequest::DayCycle(text) => match self.resolve_settings(text.as_str(), SettingsKind::DayCycle) {
                Some(id) => EnvRequest::Asset(id),
                None => {
                    return false;
                },
            },
            EnvRequest::DayTime(position) => EnvRequest::DayTime(position),
            EnvRequest::Clear => EnvRequest::Clear,
        };
        self.edited = None;
        self.request = Some(resolved);
        true
    }

    /// Whether a fixed sky is pinned, as the scene last published.
    pub fn has_fixed_sky(&self) -> (b: bool)
        ensures
            b == self.fixed_sky,
    {
        self.fixed_sky
    }
}

/// Resolving a name right after indexing it under a fresh kind and name gives
/// back the asset just indexed.
pub proof fn law_resolve_reads_back_insert(
    entries: Seq<(SettingsKind, String, Uuid)>,
    added: (SettingsKind, String, Uuid),
)
    requires
        indexed(entries, added.0, added.1@) is None,
    ensures
        indexed(entries.push(added), added.0, added.1@) == Some(added.2),
{
    let s = entries.push(added);
    assert(s[entries.len() as int] == added);
    let i = choose|i: int| 0 <= i < s.len() && #[trigger] s[i].0 == added.0 && s[i].1@ == added.1@;
    if i < entries.len() {
        assert(entries[i] == s[i]);
        assert(exists|j: int| 0 <= j < entries.len() && #[trigger] entries[j].0 == added.0 && entries[j].1@ == added.1@);
    }
}

/// Which section of the settings store an RLV setting is declared in.
#[derive(Clone, Copy, Debug, PartialEq, Eq, Structural)]
pub enum RlvSettingSection {
    /// The flags and the shared-folder prefixes ([`RLV_SECTION`]).
    Main,
    /// The customisable response strings ([`RLV_STRINGS_SECTION`]).
    Strings,
}

/// One RLV setting to declare: where it lives, its name, its default and its
/// one-line comment.
#[derive(Debug, Clone)]
pub struct RlvSettingDeclaration {
    /// The section it is declared in.
    pub section: RlvSettingSection,
    /// The setting name.
    pub name: &'static str,
    /// The declared default.
    pub default: SettingValue,
    /// What the setting does.
    pub comment: &'static str,
}

/// Whether `d` declares the boolean roster entry `flag` in the main section.
pub open spec fn declares_flag(d: RlvSettingDeclaration, flag: RlvFlagDef) -> bool {
    &&& d.section == RlvSettingSection::Main
    &&& d.name == flag.name
    &&& d.default == SettingValue::Bool(flag.default)
    &&& d.comment == flag.comment
}

/// Whether `d` declares the shared-folder prefix setting `prefix` (name,
/// default, comment) in the main section.
pub open spec fn declares_prefix(d: RlvSettingDeclaration, prefix: (&'static str, &'static str, &'static str)) -> bool {
    &&& d.section == RlvSettingSection::Main
    &&& d.name == prefix.0
    &&& d.default matches SettingValue::Text(t) && t@ == prefix.1@
    &&& d.comment == prefix.2
}

/// Whether `d` declares the response string `entry` in the strings section.
pub open spec fn declares_string(d: RlvSettingDeclaration, entry: RlvStringDef) -> bool {
    &&& d.section == RlvSettingSection::Strings
    &&& d.name == entry.key
    &&& d.default matches SettingValue::Text(t) && t@ == entry.default@
    &&& d.comment == entry.description
}

/// Every RLV setting to declare, in order: the boolean roster, the two
/// shared-folder name prefixes, then the response strings.
pub fn setting_declarations() -> (r: Vec<RlvSettingDeclaration>)
    ensures
        r@.len() == spec_rlv_bool_settings().len() + spec_rlv_prefix_settings().len() + spec_rlv_strings().len(),
        forall|i: int| 0 <= i < spec_rlv_bool_settings().len() ==> declares_flag(#[trigger] r@[i], spec_rlv_bool_settings()[i]),
        forall|i: int| 0 <= i < spec_rlv_prefix_settings().len() ==> declares_prefix(
            #[trigger] r@[spec_rlv_bool_settings().len() + i],
            spec_rlv_prefix_settings()[i],
        ),
        forall|i: int| 0 <= i < spec_rlv_strings().len() ==> declares_string(
            #[trigger] r@[spec_rlv_bool_settings().len() + spec_rlv_prefix_settings().len() + i],
            spec_rlv_strings()[i],
        ),
{
    broadcast use vstd::string::group_string_axioms;

    let flags = rlv_bool_settings();
    let prefixes = rlv_prefix_settings();
    let strings = rlv_strings();
    let mut r: Vec<RlvSettingDeclaration> = Vec::new();
    for i in 0..flags.len()
        invariant
            flags@ == spec_rlv_bool_settings(),
            r@.len() == i,
            forall|j: int| 0 <= j < i ==> declares_flag(#[trigger] r@[j], flags@[j]),
    {
        let flag = flags[i];
        r.push(
            RlvSettingDeclaration {
                section: RlvSettingSection::Main,
                name: flag.name,
                default: SettingValue::Bool(flag.default),
                comment: flag.comment,
            },
        );
    }
    let nb = flags.len();
    for i in 0..prefixes.len()
        invariant
            flags@ == spec_rlv_bool_settings(),
            prefixes@ == spec_rlv_prefix_settings(),
            nb == flags@.len(),
            r@.len() == nb + i,
            forall|j: int| 0 <= j < nb ==> declares_flag(#[trigger] r@[j], flags@[j]),
            forall|j: int| 0 <= j < i ==> declares_prefix(#[trigger] r@[nb + j], prefixes@[j]),
    {
        let (name, default, comment) = prefixes[i];
        let text = default.to_string();
        r.push(
            RlvSettingDeclaration { section: RlvSettingSection::Main, name, default: SettingValue::Text(text), comment },
        );
        assert(r@[nb + i as int] == r@[r@.len() - 1]);
    }
    let np = prefixes.len();
    for i in 0..strings.len()
        invariant
            flags@ == spec_rlv_bool_settings(),
            prefixes@ == spec_rlv_prefix_settings(),
            strings@ == spec_rlv_strings(),
            nb == flags@.len(),
            np == prefixes@.len(),
            r@.len() == nb + np + i,
            forall|j: int| 0 <= j < nb ==> declares_flag(#[trigger] r@[j], flags@[j]),
            forall|j: int| 0 <= j < np ==> declares_prefix(#[trigger] r@[nb + j], prefixes@[j]),
            forall|j: int| 0 <= j < i ==> declares_string(#[trigger] r@[nb + np + j], strings@[j]),
    {
        let entry = strings[i];
        let text = entry.default.to_string();
        r.push(
            RlvSettingDeclaration {
                section: RlvSettingSection::Strings,
                name: entry.key,
                default: SettingValue::Text(text),
                comment: entry.description,
            },
        );
        assert(r@[nb + np + i as int] == r@[r@.len() - 1]);
    }
    r
}

/// A row of the `@getdebug_*` / `@setdebug_*` allowlist.
#[derive(Clone, Copy, Debug, PartialEq, Eq, Structural)]
pub enum RlvDebugSetting {
    /// Whether the worn shape says male.
    AvatarSex,
    /// The 3D view's width divided by its height.
    AspectRatio,
    /// How many times smaller than the window the world is rendered.
    RenderResolutionDivisor,
    /// Refuse inventory offers into the shared folder.
    ForbidGiveToRlv,
    /// Refuse script control of the environment.
    NoSetEnv,
    /// Whether the atmospheric sky is rendered.
    WindLightUseAtmosShaders,
}

/// A debug-setting value as a script reads it: a switch, or a number of the
/// number type `N` the view publishes.
#[derive(Clone, Copy, Debug)]
pub enum RlvDebugValue<N> {
    /// A switch.
    Bool(bool),
    /// A number.
    Float(N),
}

/// The two facts behind the pseudo debug settings, each published by the
/// feature that owns it; `None` while not known yet.
#[derive(Clone, Copy, Debug)]
pub struct RlvExtFacts<N> {
    /// The 3D view's width divided by its height.
    pub aspect_ratio: Option<N>,
    /// Whether the worn shape's `male` param says male.
    pub avatar_is_male: Option<bool>,
}

/// The viewer behind the debug-setting allowlist: the settings store for the
/// rows that are real settings, the published facts for the two that are not.
#[derive(Debug)]
pub struct ViewerRlvExt<'a, N> {
    /// The settings store the readable rows live in, where there is one.
    pub settings: Option<&'a SettingsStore>,
    /// The two computed facts.
    pub facts: RlvExtFacts<N>,
}

impl<'a, N: Copy> ViewerRlvExt<'a, N> {
    /// What each allowlisted row reads as. The resolution divisor answers
    /// nothing (this viewer does not render at a reduced resolution); the two
    /// pseudo settings answer nothing until published; the atmospheric sky is
    /// always on; the two stored flags read through the settings store.
    pub fn debug_value(&self, setting: RlvDebugSetting) -> (v: Option<RlvDebugValue<N>>)
        ensures
            v == match setting {
                RlvDebugSetting::AvatarSex => match self.facts.avatar_is_male {
                    Some(b) => Some(RlvDebugValue::Bool(b)),
                    None => None,
                },
                RlvDebugSetting::AspectRatio => match self.facts.aspect_ratio {
                    Some(x) => Some(RlvDebugValue::Float(x)),
                    None => None,
                },
                RlvDebugSetting::RenderResolutionDivisor => None,
                RlvDebugSetting::ForbidGiveToRlv => Some(
                    RlvDebugValue::Bool(
                        match self.settings {
                            Some(s) => match s.spec_get_bool(SETTING_FORBID_GIVE_TO_RLV@) {
                                Some(b) => b,
                                None => roster_default(SETTING_FORBID_GIVE_TO_RLV@),
                            },
                            None => roster_default(SETTING_FORBID_GIVE_TO_RLV@),
                        },
                    ),
                ),
                RlvDebugSetting::NoSetEnv => Some(
                    RlvDebugValue::Bool(
                        match self.settings {
                            Some(s) => match s.spec_get_bool(SETTING_NO_SET_ENV@) {
                                Some(b) => b,
                                None => roster_default(SETTING_NO_SET_ENV@),
                            },
                            None => roster_default(SETTING_NO_SET_ENV@),
                        },
                    ),
                ),
                RlvDebugSetting::WindLightUseAtmosShaders => Some(RlvDebugValue::Bool(true)),
            },
    {
        match setting {
            RlvDebugSetting::AvatarSex => match self.facts.avatar_is_male {
                Some(b) => Some(RlvDebugValue::Bool(b)),
                None => None,
            },
            RlvDebugSetting::AspectRatio => match self.facts.aspect_ratio {
                Some(x) => Some(RlvDebugValue::Float(x)),
                None => None,
            },
            RlvDebugSetting::RenderResolutionDivisor => None,
            RlvDebugSetting::ForbidGiveToRlv => Some(
                RlvDebugValue::Bool(rlv_flag(self.settings, SETTING_FORBID_GIVE_TO_RLV)),
            ),
            RlvDebugSetting::NoSetEnv => Some(RlvDebugValue::Bool(rlv_flag(self.settings, SETTING_NO_SET_ENV))),
            RlvDebugSetting::WindLightUseAtmosShaders => Some(RlvDebugValue::Bool(true)),
        }
    }

    /// Nothing here is writable: of the two rows a script may write, the sex
    /// is a pseudo setting the command engine keeps and the resolution
    /// divisor is one this viewer does not have.
    pub fn set_debug_value(&mut self, setting: RlvDebugSetting, value: RlvDebugValue<N>) -> (written: bool)
        ensures
            !written,
            final(self).facts.aspect_ratio == old(self).facts.aspect_ratio,
            final(self).facts.avatar_is_male == old(self).facts.avatar_is_male,
            final(self).settings == old(self).settings,
    {
        false
    }
}

/// A field of the sky a script reads and writes through `@getenv_*` /
/// `@setenv_*`.
#[derive(Clone, Copy, Debug, PartialEq, Eq, Structural)]
pub enum RlvSkyField {
    /// The ambient colour.
    Ambient,
    /// The blue density colour.
    BlueDensity,
    /// The blue horizon colour.
    BlueHorizon,
    /// The cloud colour.
    CloudColor,
    /// The first cloud layer's position and density.
    CloudPosDensity1,
    /// The second cloud layer's position and density.
    CloudPosDensity2,
    /// The sunlight colour (its alpha is kept on write).
    SunlightColor,
    /// The sun glow: size, reserved, focus.
    Glow,
    /// The cloud scroll rate.
    CloudScrollRate,
    /// The density multiplier.
    DensityMultiplier,
    /// The distance multiplier.
    DistanceMultiplier,
    /// The droplet radius.
    DropletRadius,
    /// The haze density.
    HazeDensity,
    /// The haze horizon.
    HazeHorizon,
    /// The ice level.
    IceLevel,
    /// The maximum altitude.
    MaxY,
    /// The moisture level.
    MoistureLevel,
    /// The scene gamma.
    Gamma,
    /// The cloud shadow.
    CloudShadow,
    /// The cloud scale.
    CloudScale,
    /// The cloud variance.
    CloudVariance,
    /// The moon brightness.
    MoonBrightness,
    /// The moon scale.
    MoonScale,
    /// The sun scale.
    SunScale,
    /// The star brightness.
    StarBrightness,
    /// The cloud texture.
    CloudTexture,
    /// The moon texture.
    MoonTexture,
    /// The sun texture.
    SunTexture,
}

/// Which arm of a sky value a field reads as and takes on write.
#[derive(Clone, Copy, Debug, PartialEq, Eq, Structural)]
pub enum RlvSkyShape {
    /// Three channels: a colour, a cloud layer's position and density, or the
    /// glow.
    Color,
    /// Two numbers.
    Vec2,
    /// One number.
    Float,
    /// A texture id.
    Texture,
}

/// The arm each sky field reads as and takes.
pub open spec fn sky_field_shape(field: RlvSkyField) -> RlvSkyShape {
    match field {
        RlvSkyField::Ambient | RlvSkyField::BlueDensity | RlvSkyField::BlueHorizon | RlvSkyField::CloudColor
        | RlvSkyField::CloudPosDensity1 | RlvSkyField::CloudPosDensity2 | RlvSkyField::SunlightColor
        | RlvSkyField::Glow => RlvSkyShape::Color,
        RlvSkyField::CloudScrollRate => RlvSkyShape::Vec2,
        RlvSkyField::CloudTexture | RlvSkyField::MoonTexture | RlvSkyField::SunTexture => RlvSkyShape::Texture,
        _ => RlvSkyShape::Float,
    }
}

impl RlvSkyField {
    /// The arm this field reads as and takes on write.
    pub fn shape(self) -> (s: RlvSkyShape)
        ensures
            s == sky_field_shape(self),
    {
        match self {
            RlvSkyField::Ambient | RlvSkyField::BlueDensity | RlvSkyField::BlueHorizon | RlvSkyField::CloudColor
            | RlvSkyField::CloudPosDensity1 | RlvSkyField::CloudPosDensity2 | RlvSkyField::SunlightColor
            | RlvSkyField::Glow => RlvSkyShape::Color,
            RlvSkyField::CloudScrollRate => RlvSkyShape::Vec2,
            RlvSkyField::CloudTexture | RlvSkyField::MoonTexture | RlvSkyField::SunTexture => RlvSkyShape::Texture,
            _ => RlvSkyShape::Float,
        }
    }
}

/// The id a script reads for a sky texture: the nil id for none.
pub open spec fn read_texture_id(texture: Option<TextureKey>) -> Uuid {
    match texture {
        Some(key) => key,
        None => 0,
    }
}

/// The texture a script's id stands for: none for the nil id.
pub open spec fn written_texture(id: Uuid) -> Option<TextureKey> {
    if id == 0 {
        None
    } else {
        Some(id)
    }
}

/// A sky texture id as a script reads it: the nil id for a sky that names
/// none.
pub fn texture_id(texture: Option<TextureKey>) -> (id: Uuid)
    ensures
        id == read_texture_id(texture),
{
    match texture {
        Some(key) => key,
        None => 0,
    }
}

/// A texture id a script wrote, as the sky stores it: the nil id means the
/// viewer's own default, which is no texture.
pub fn texture_key(id: Uuid) -> (key: Option<TextureKey>)
    ensures
        key == written_texture(id),
{
    if id != 0 {
        Some(id)
    } else {
        None
    }
}

/// Reading back a texture id a script wrote gives that id; writing back what
/// a sky texture reads as gives that texture, unless the sky names the nil id
/// itself.
pub proof fn law_texture_ids_round_trip(id: Uuid, texture: Option<TextureKey>)
    requires
        texture != Some(0u128),
    ensures
        read_texture_id(written_texture(id)) == id,
        written_texture(read_texture_id(texture)) == texture,
{
}

/// The sky a read answers from: the edited one while a script holds it,
/// otherwise the one the scene renders.
pub open spec fn readable_sky<S, P>(slot: RlvEnvironmentSlot<S, P>) -> Option<S> {
    match slot.edited {
        Some(e) => Some(e),
        None => slot.rendered,
    }
}

/// Whether `after` differs from `before` in the edited sky alone.
pub open spec fn only_sky_edited<S, P>(before: RlvEnvironmentSlot<S, P>, after: RlvEnvironmentSlot<S, P>) -> bool {
    &&& after.rendered == before.rendered
    &&& after.request == before.request
    &&& after.fixed_sky == before.fixed_sky
    &&& after.library_environments == before.library_environments
}

impl<S: Clone, P> RlvEnvironmentSlot<S, P> {
    /// The sky a read answers from: the edited one while a script holds it,
    /// otherwise what the scene is rendering.
    pub fn readable(&self) -> (r: Option<&S>)
        ensures
            match r {
                Some(s) => readable_sky(*self) == Some(*s),
                None => readable_sky(*self) is None,
            },
    {
        match &self.edited {
            Some(e) => Some(e),
            None => match &self.rendered {
                Some(r) => Some(r),
                None => None,
            },
        }
    }

    /// Make the edited sky writable, cloning the rendered one into the local
    /// layer on the first write. `false` when there is nothing to clone.
    pub fn writable(&mut self) -> (ok: bool)
        ensures
            ok == readable_sky(*old(self)) is Some,
            ok == final(self).edited is Some,
            old(self).edited is Some ==> final(self).edited == old(self).edited,
            old(self).edited is None ==> match old(self).rendered {
                Some(r) => cloned::<S>(r, final(self).edited->0),
                None => final(self).edited is None,
            },
            only_sky_edited(*old(self), *final(self)),
    {
        if self.edited.is_none() {
            self.edited = match &self.rendered {
                Some(r) => Some(r.clone()),
                None => None,
            };
        }
        self.edited.is_some()
    }

    /// Read the sky through `read` (one field of it, or where the sun or moon
    /// sits); `None` before any sky is known.
    pub fn read_sky<V, F: Fn(&S) -> V>(&self, read: F) -> (v: Option<V>)
        requires
            forall|s: S| #[trigger] read.requires((&s,)),
        ensures
            match readable_sky(*self) {
                Some(s) => v matches Some(x) && read.ensures((&s,), x),
                None => v is None,
            },
    {
        match self.readable() {
            Some(sky) => Some(read(sky)),
            None => None,
        }
    }

    /// Write the local sky through `write` (a new sun or moon rotation, say),
    /// cloning the rendered sky in first. `false`, with nothing written, when
    /// there is no sky to write into.
    pub fn write_sky<F: Fn(&S) -> S>(&mut self, write: F) -> (ok: bool)
        requires
            forall|s: S| #[trigger] write.requires((&s,)),
        ensures
            ok == readable_sky(*old(self)) is Some,
            !ok ==> final(self).edited == old(self).edited,
            ok ==> final(self).edited is Some,
            old(self).edited matches Some(e) ==> (ok && write.ensures((&e,), final(self).edited->0)),
            old(self).edited is None && old(self).rendered is Some ==> exists|c: S|
                cloned::<S>(old(self).rendered->0, c) && #[trigger] write.ensures((&c,), final(self).edited->0),
            only_sky_edited(*old(self), *final(self)),
    {
        if !self.writable() {
            return false;
        }
        let ghost cloned_sky = self.edited->0;
        let next = match &self.edited {
            Some(sky) => write(sky),
            None => {
                return false;
            },
        };
        self.edited = Some(next);
        proof {
            assert(write.ensures((&cloned_sky,), self.edited->0));
        }
        true
    }

    /// Write one field of the local sky. A value of the wrong arm for its
    /// field is refused rather than coerced — though the rendered sky is still
    /// cloned into the local layer first, as a write always does — and a write
    /// with no sky to go into is refused too.
    pub fn set_sky_value<F: Fn(&S) -> S>(&mut self, field: RlvSkyField, value: RlvSkyShape, write: F) -> (ok: bool)
        requires
            forall|s: S| #[trigger] write.requires((&s,)),
        ensures
            ok == (readable_sky(*old(self)) is Some && sky_field_shape(field) == value),
            ok ==> final(self).edited is Some,
            readable_sky(*old(self)) is Some ==> final(self).edited is Some,
            readable_sky(*old(self)) is None ==> final(self).edited == old(self).edited,
            old(self).edited matches Some(e) ==> if ok {
                write.ensures((&e,), final(self).edited->0)
            } else {
                final(self).edited == old(self).edited
            },
            old(self).edited is None && old(self).rendered is Some ==> exists|c: S|
                #[trigger] cloned::<S>(old(self).rendered->0, c) && if ok {
                    write.ensures((&c,), final(self).edited->0)
                } else {
                    final(self).edited == Some(c)
                },
            only_sky_edited(*old(self), *final(self)),
    {
        if !self.writable() {
            return false;
        }
        let ghost cloned_sky = self.edited->0;
        if field.shape() != value {
            proof {
                if old(self).edited is None && old(self).rendered is Some {
                    assert(cloned::<S>(old(self).rendered->0, cloned_sky));
                }
            }
            return false;
        }
        let next = match &self.edited {
            Some(sky) => write(sky),
            None => {
                return false;
            },
        };
        self.edited = Some(next);
        proof {
            assert(write.ensures((&cloned_sky,), self.edited->0));
            if old(self).edited is None && old(self).rendered is Some {
                assert(cloned::<S>(old(self).rendered->0, cloned_sky));
            }
        }
        true
    }
}

impl<S, P> Default for RlvEnvironmentSlot<S, P> {
    /// An empty slot: nothing rendered, edited or requested.
    fn default() -> (s: RlvEnvironmentSlot<S, P>)
        ensures
            s.rendered is None,
            s.edited is None,
            s.request is None,
            !s.fixed_sky,
            s.library_environments.wf(),
    {
        RlvEnvironmentSlot::new()
    }
}

} // verus!
