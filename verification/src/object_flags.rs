//! Object flag bits and attachment points.
//!
//! The flag word of an object update says what may be done with an object and
//! how it behaves: whether this agent owns it, may copy, modify or move it,
//! whether it takes physics or is phantom, whether it accepts a dropped
//! inventory item. Every tier tests against these bits.

use vstd::prelude::*;

verus! {

/// The object is simulated by the server's physics engine.
pub const FLAGS_USE_PHYSICS: u32 = 1;

/// The update is for an agent the simulator is steering, so the facing it
/// carries is the simulator's to decide.
pub const FLAGS_SERVER_AUTOPILOT: u32 = 0x0100_0000;

/// This agent may modify the object.
pub const FLAGS_OBJECT_MODIFY: u32 = 4;

/// This agent may copy the object.
pub const FLAGS_OBJECT_COPY: u32 = 8;

/// This agent owns the object.
pub const FLAGS_OBJECT_YOU_OWNER: u32 = 0x20;

/// This agent may move (position / rotate) the object.
pub const FLAGS_OBJECT_MOVE: u32 = 0x100;

/// Anyone may add inventory to the object's contents.
pub const FLAGS_ALLOW_INVENTORY_DROP: u32 = 0x1_0000;

/// The object is non-solid: nothing collides with it.
pub const FLAGS_PHANTOM: u32 = 0x400;

/// The first attachment-point id that names a HUD slot.
pub const FIRST_HUD_POINT: u8 = 31;

/// The last attachment-point id that names a HUD slot.
pub const LAST_HUD_POINT: u8 = 38;

/// Whether a raw attachment-point id names a HUD (screen-space) slot.
pub open spec fn spec_is_hud_point(point_id: u8) -> bool {
    FIRST_HUD_POINT <= point_id <= LAST_HUD_POINT
}

/// Whether a raw attachment-point id names a HUD (screen-space) slot rather than
/// a body joint: the ids `31..=38`.
#[verifier::when_used_as_spec(spec_is_hud_point)]
pub fn is_hud_point(point_id: u8) -> (hud: bool)
    ensures
        hud == spec_is_hud_point(point_id),
{
    FIRST_HUD_POINT <= point_id && point_id <= LAST_HUD_POINT
}

/// Whether the worn-attachment trace is switched on: the environment variable
/// holds exactly `"1"`. The caller reads the variable; `value` is what it held.
pub fn attachment_bind_trace_enabled(value: Option<&str>) -> (on: bool)
    ensures
        on == (value matches Some(v) && v@ == seq!['1']),
{
    match value {
        Some(v) => {
            let chars = v.unicode_len();
            if chars == 1 {
                let c = v.get_char(0);
                proof {
                    if c == '1' {
                        assert(v@ =~= seq!['1']);
                    }
                }
                c == '1'
            } else {
                false
            }
        },
        None => false,
    }
}

} // verus!
