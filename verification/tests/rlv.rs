use sl_viewer_world_api::rlv::{
    ChatSource, ChatType, EnvRequest, RLV_CONSOLE_CAPACITY, RLV_REPLY_CAPACITY, RlvConsoleKind, RlvDebugSetting,
    RlvDebugValue, RlvEnvironmentSlot, RlvExtFacts, RlvLibraryEnvironments, RlvReply, RlvSession, RlvSettingSection,
    RlvSkyField, RlvSkyShape, SETTING_CAN_OOC, SETTING_MAIN, SETTING_NO_SET_ENV, SETTING_SHOW_ELLIPSIS,
    SETTING_SHOW_REDIRECT_CHAT_TYPING, SETTING_SPLIT_REDIRECT_CHAT, SettingsKind, ViewerRlvExt, rlv_bool_settings,
    rlv_flag, rlv_prefix_settings, rlv_string, rlv_string_def, rlv_strings, setting_declarations, swallows_owner_say,
    texture_id, texture_key,
};
use sl_viewer_world_api::settings::{SettingValue, SettingsStore};
use std::collections::HashSet;

/// A value of one sky field, as the test sky stores it.
#[derive(Debug, Clone, Copy, PartialEq)]
enum Value {
    Color([f32; 3]),
    Vec2([f32; 2]),
    Float(f32),
    Texture(Option<u128>),
}

impl Value {
    fn shape(self) -> RlvSkyShape {
        match self {
            Value::Color(_) => RlvSkyShape::Color,
            Value::Vec2(_) => RlvSkyShape::Vec2,
            Value::Float(_) => RlvSkyShape::Float,
            Value::Texture(_) => RlvSkyShape::Texture,
        }
    }
}

/// A sky as a list of field values.
#[derive(Debug, Clone, PartialEq)]
struct Sky {
    fields: Vec<(RlvSkyField, Value)>,
}

impl Sky {
    fn get(&self, field: RlvSkyField) -> Option<Value> {
        self.fields.iter().find(|(f, _)| *f == field).map(|(_, v)| *v)
    }

    fn with(&self, field: RlvSkyField, value: Value) -> Sky {
        let mut fields: Vec<(RlvSkyField, Value)> = self.fields.iter().filter(|(f, _)| *f != field).copied().collect();
        fields.push((field, value));
        Sky { fields }
    }
}

const ALL_FIELDS: [RlvSkyField; 28] = [
    RlvSkyField::Ambient,
    RlvSkyField::BlueDensity,
    RlvSkyField::BlueHorizon,
    RlvSkyField::CloudColor,
    RlvSkyField::CloudPosDensity1,
    RlvSkyField::CloudPosDensity2,
    RlvSkyField::SunlightColor,
    RlvSkyField::Glow,
    RlvSkyField::CloudScrollRate,
    RlvSkyField::DensityMultiplier,
    RlvSkyField::DistanceMultiplier,
    RlvSkyField::DropletRadius,
    RlvSkyField::HazeDensity,
    RlvSkyField::HazeHorizon,
    RlvSkyField::IceLevel,
    RlvSkyField::MaxY,
    RlvSkyField::MoistureLevel,
    RlvSkyField::Gamma,
    RlvSkyField::CloudShadow,
    RlvSkyField::CloudScale,
    RlvSkyField::CloudVariance,
    RlvSkyField::MoonBrightness,
    RlvSkyField::MoonScale,
    RlvSkyField::SunScale,
    RlvSkyField::StarBrightness,
    RlvSkyField::CloudTexture,
    RlvSkyField::MoonTexture,
    RlvSkyField::SunTexture,
];

/// The default sky: gamma 1, and a sun texture.
fn default_sky() -> Sky {
    Sky { fields: vec![(RlvSkyField::Gamma, Value::Float(1.0)), (RlvSkyField::SunTexture, Value::Texture(Some(0x51)))] }
}

/// A slot holding the default sky.
fn slot() -> RlvEnvironmentSlot<Sky, f32> {
    let mut slot: RlvEnvironmentSlot<Sky, f32> = RlvEnvironmentSlot::new();
    slot.rendered = Some(default_sky());
    slot
}

/// Write `value` into `field` of the slot's sky the way a script does.
fn set(slot: &mut RlvEnvironmentSlot<Sky, f32>, field: RlvSkyField, value: Value) -> bool {
    slot.set_sky_value(field, value.shape(), move |sky: &Sky| sky.with(field, value))
}

/// Read `field` of the slot's sky.
fn get(slot: &RlvEnvironmentSlot<Sky, f32>, field: RlvSkyField) -> Option<Option<Value>> {
    slot.read_sky(move |sky: &Sky| sky.get(field))
}

fn all_setting_names() -> Vec<&'static str> {
    let mut names: Vec<&'static str> = rlv_bool_settings().iter().map(|flag| flag.name).collect();
    names.extend(rlv_prefix_settings().iter().map(|(name, _default, _comment)| *name));
    names.extend(rlv_strings().iter().map(|entry| entry.key));
    names
}

#[test]
fn every_setting_name_is_declared_once() {
    let mut names = all_setting_names();
    let total = names.len();
    names.sort_unstable();
    names.dedup();
    assert_eq!(names.len(), total, "an RLV setting name is declared twice");
}

#[test]
fn the_master_switch_is_off_and_the_chat_courtesies_are_on() {
    assert!(!rlv_flag(None, SETTING_MAIN));
    assert!(rlv_flag(None, SETTING_CAN_OOC));
    assert!(rlv_flag(None, SETTING_SHOW_ELLIPSIS));
    assert!(!rlv_flag(None, SETTING_SPLIT_REDIRECT_CHAT));
    assert!(!rlv_flag(None, SETTING_SHOW_REDIRECT_CHAT_TYPING));
}

#[test]
fn every_flag_has_its_own_menu_condition() {
    let flags = rlv_bool_settings();
    let keys: HashSet<&str> = flags.iter().map(|flag| flag.condition).collect();
    assert_eq!(keys.len(), flags.len());
    assert!(flags.iter().all(|flag| !flag.condition.is_empty()));
}

#[test]
fn an_unknown_flag_is_false() {
    assert!(!rlv_flag(None, "RLVaNoSuchSetting"));
}

#[test]
fn strings_fall_back_to_the_reference_text() {
    assert_eq!(rlv_string(None, "blocked_recvim"), "*** IM blocked by your viewer");
    assert_eq!(rlv_string(None, "no_such_string"), "no_such_string");
    assert!(rlv_string_def("blocked_recvim").is_some());
    assert!(rlv_string_def("no_such_string").is_none());
}

#[test]
fn the_string_table_is_in_key_order() {
    let keys: Vec<&str> = rlv_strings().iter().map(|entry| entry.key).collect();
    let mut sorted = keys.clone();
    sorted.sort_unstable();
    assert_eq!(keys, sorted);
}

#[test]
fn the_console_is_a_bounded_ring() {
    let mut session = RlvSession::default();
    for index in 0..RLV_CONSOLE_CAPACITY + 10 {
        session.log(RlvConsoleKind::Info, format!("line {index}"));
    }
    assert_eq!(session.console().len(), RLV_CONSOLE_CAPACITY);
    assert_eq!(
        session.console().front().map(|line| line.text.as_str()),
        Some("line 10"),
        "the oldest lines should have fallen off the front"
    );
    let before = session.console_revision();
    session.clear_console();
    assert!(session.console().is_empty());
    assert_ne!(session.console_revision(), before);
}

#[test]
fn clearing_an_empty_console_is_not_a_change() {
    let mut session = RlvSession::default();
    let before = session.console_revision();
    session.clear_console();
    assert_eq!(session.console_revision(), before);
}

#[test]
fn logging_does_not_bump_the_restriction_revision() {
    let mut session = RlvSession::default();
    let before = session.revision();
    session.log(RlvConsoleKind::Input, "@detach=n".to_owned());
    assert_eq!(session.revision(), before);
    session.bump();
    assert_ne!(session.revision(), before);
}

#[test]
fn nothing_is_swallowed_while_rlv_is_off() {
    assert!(!swallows_owner_say(None, None, ChatSource::Object(1), ChatType::Owner, "@detach=n"));
}

#[test]
fn the_gate_needs_owner_say_and_the_prefix() {
    for (chat_type, message) in [
        (ChatType::Normal, "@detach=n"),
        (ChatType::Shout, "@detach=n"),
        (ChatType::Owner, "the collar is on"),
        (ChatType::Direct, "@detach=n"),
    ] {
        assert!(
            !swallows_owner_say(None, None, ChatSource::Object(1), chat_type, message),
            "{chat_type:?} {message:?} is not an RLV command line"
        );
    }
}

#[test]
fn a_notification_reaches_the_queue_as_a_reply() {
    let mut session = RlvSession::default();
    // What the engine owes a `@notify:2222` subscriber when `@fly=n` lands.
    session.push_reply(RlvReply { channel: 2222, message: "/fly=n".to_owned() });
    assert!(session.has_replies());
    let drained = session.take_replies();
    assert_eq!(drained.first().map(|reply| reply.channel), Some(2222));
    assert_eq!(drained.first().map(|reply| reply.message.as_str()), Some("/fly=n"));
    assert!(!session.has_replies());
}

#[test]
fn the_reply_queue_is_a_bounded_ring() {
    let mut session = RlvSession::default();
    assert!(!session.has_replies());
    for index in 0..RLV_REPLY_CAPACITY + 5 {
        let channel = 2000_i32.saturating_add(i32::try_from(index).unwrap_or(0));
        session.push_reply(RlvReply { channel, message: "RestrainedLove viewer v3.4.3".to_owned() });
    }
    let drained = session.take_replies();
    assert_eq!(drained.len(), RLV_REPLY_CAPACITY);
    assert_eq!(
        drained.first().map(|reply| reply.channel),
        Some(2005),
        "the oldest replies should have fallen off the front"
    );
    assert!(!session.has_replies());
}

#[test]
fn releasing_everything_empties_the_engine() {
    let mut session = RlvSession::default();
    session.bump();
    session.log(RlvConsoleKind::Info, "a collar said something".to_owned());
    session.push_reply(RlvReply { channel: 2222, message: "/fly=n".to_owned() });
    assert!(session.has_replies());
    let before = session.revision();

    session.release_all(true);

    assert!(!session.has_replies(), "a reply owed to a subscription that no longer exists must not go out");
    assert_ne!(session.revision(), before);
    assert_eq!(session.console().len(), 1, "the log is not the state");
}

#[test]
fn releasing_nothing_is_not_a_change() {
    let mut session = RlvSession::default();
    let before = session.revision();
    session.release_all(false);
    assert_eq!(session.revision(), before);
}

#[test]
fn an_empty_slot_answers_nothing() {
    let mut empty: RlvEnvironmentSlot<Sky, f32> = RlvEnvironmentSlot::new();
    assert_eq!(get(&empty, RlvSkyField::Ambient), None);
    assert!(!set(&mut empty, RlvSkyField::Gamma, Value::Float(2.0)));
    assert!(!empty.write_sky(|sky: &Sky| sky.clone()));
    assert!(empty.edited.is_none());
}

#[test]
fn a_write_clones_the_rendered_sky_first() {
    let mut slot = slot();
    assert!(set(&mut slot, RlvSkyField::Gamma, Value::Float(2.5)));
    assert_eq!(get(&slot, RlvSkyField::Gamma), Some(Some(Value::Float(2.5))));
    // The rendered sky, the scene's own, is untouched.
    assert_eq!(slot.rendered.as_ref().and_then(|sky| sky.get(RlvSkyField::Gamma)), Some(Value::Float(1.0)));
    assert!(slot.edited.is_some());
    // The clone kept what the rendered sky had.
    assert_eq!(get(&slot, RlvSkyField::SunTexture), Some(Some(Value::Texture(Some(0x51)))));
}

#[test]
fn every_sky_field_round_trips() {
    let mut slot = slot();
    for field in ALL_FIELDS {
        let written = match field.shape() {
            RlvSkyShape::Float => Value::Float(0.375),
            RlvSkyShape::Color => Value::Color([0.25, 0.5, 0.75]),
            RlvSkyShape::Vec2 => Value::Vec2([0.25, 0.5]),
            RlvSkyShape::Texture => Value::Texture(Some(7)),
        };
        assert!(set(&mut slot, field, written), "{field:?} is not writable");
        assert_eq!(get(&slot, field), Some(Some(written)), "{field:?}");
    }
}

#[test]
fn the_null_texture_is_the_viewer_default() {
    let mut slot = slot();
    let id = 0u128;
    assert!(slot.set_sky_value(RlvSkyField::SunTexture, RlvSkyShape::Texture, move |sky: &Sky| {
        sky.with(RlvSkyField::SunTexture, Value::Texture(texture_key(id)))
    }));
    assert_eq!(
        slot.edited.as_ref().and_then(|sky| sky.get(RlvSkyField::SunTexture)),
        Some(Value::Texture(None)),
        "a null id is stored as no texture at all"
    );
    let read = slot.read_sky(|sky: &Sky| match sky.get(RlvSkyField::SunTexture) {
        Some(Value::Texture(texture)) => texture_id(texture),
        _ => u128::MAX,
    });
    assert_eq!(read, Some(0));
}

#[test]
fn a_preset_is_resolved_by_id_first() {
    let mut slot = slot();
    let id = 0x5eed_u128;
    let text = "00000000-0000-0000-0000-000000005eed".to_owned();
    assert!(slot.apply_environment(EnvRequest::Preset(text)));
    assert!(matches!(slot.request, Some(EnvRequest::Asset(asset)) if asset == id));
    assert!(!slot.apply_environment(EnvRequest::Preset("Sunrise".to_owned())));
    assert!(!slot.apply_environment(EnvRequest::DayCycle("Default".to_owned())));
    assert!(
        !slot.apply_environment(EnvRequest::Preset("00000000-0000-0000-0000-000000000000".to_owned())),
        "a null id names no asset, and no library item is called that either"
    );
}

#[test]
fn a_library_name_resolves_within_its_own_kind() {
    let mut slot = slot();
    let sky = 0xA1_u128;
    let day = 0xA2_u128;
    slot.library_environments.insert(SettingsKind::Sky, "Sunrise", sky);
    slot.library_environments.insert(SettingsKind::DayCycle, "Sunrise", day);

    assert!(slot.apply_environment(EnvRequest::Preset("Sunrise".to_owned())));
    assert!(matches!(slot.request, Some(EnvRequest::Asset(asset)) if asset == sky));
    assert!(slot.apply_environment(EnvRequest::DayCycle("Sunrise".to_owned())));
    assert!(matches!(slot.request, Some(EnvRequest::Asset(asset)) if asset == day));

    // The name match is case-insensitive.
    assert!(slot.apply_environment(EnvRequest::Preset("sUNRISE".to_owned())));
    assert!(matches!(slot.request, Some(EnvRequest::Asset(asset)) if asset == sky));

    // Water is indexed but no command searches it.
    slot.library_environments.insert(SettingsKind::Water, "Deep", 0xA3);
    assert!(!slot.apply_environment(EnvRequest::Preset("Deep".to_owned())));
    assert!(!slot.apply_environment(EnvRequest::DayCycle("Deep".to_owned())));
}

#[test]
fn a_repeated_library_name_keeps_the_first() {
    let mut library = RlvLibraryEnvironments::default();
    assert!(library.is_empty());
    library.insert(SettingsKind::Sky, "Sunrise", 1);
    library.insert(SettingsKind::Sky, "SUNRISE", 2);
    assert_eq!(library.len(), 1);
    assert_eq!(library.resolve(SettingsKind::Sky, "sunrise"), Some(1));
}

#[test]
fn a_whole_environment_change_drops_a_waiting_edit() {
    for request in [EnvRequest::Clear, EnvRequest::DayTime(0.5_f32), EnvRequest::Asset(9)] {
        let mut slot = slot();
        assert!(set(&mut slot, RlvSkyField::Gamma, Value::Float(2.5)));
        assert!(slot.edited.is_some());
        let expected = format!("{request:?}");
        assert!(slot.apply_environment(request));
        assert_eq!(slot.edited, None, "{expected}");
        assert_eq!(format!("{:?}", slot.request), format!("Some({expected})"));
    }
}

#[test]
fn a_value_of_the_wrong_arm_is_refused_but_the_sky_is_still_cloned() {
    let mut slot = slot();
    assert!(!slot.set_sky_value(RlvSkyField::Gamma, RlvSkyShape::Color, |sky: &Sky| {
        sky.with(RlvSkyField::Gamma, Value::Color([1.0, 1.0, 1.0]))
    }));
    assert_eq!(slot.edited, Some(default_sky()));
    assert_eq!(get(&slot, RlvSkyField::Gamma), Some(Some(Value::Float(1.0))));
}

#[test]
fn the_sky_field_shapes_follow_the_value_kinds() {
    assert_eq!(RlvSkyField::Ambient.shape(), RlvSkyShape::Color);
    assert_eq!(RlvSkyField::Glow.shape(), RlvSkyShape::Color);
    assert_eq!(RlvSkyField::CloudScrollRate.shape(), RlvSkyShape::Vec2);
    assert_eq!(RlvSkyField::StarBrightness.shape(), RlvSkyShape::Float);
    assert_eq!(RlvSkyField::MoonTexture.shape(), RlvSkyShape::Texture);
    let colours = ALL_FIELDS.iter().filter(|f| f.shape() == RlvSkyShape::Color).count();
    let floats = ALL_FIELDS.iter().filter(|f| f.shape() == RlvSkyShape::Float).count();
    assert_eq!((colours, floats), (8, 16));
}

#[test]
fn texture_ids_round_trip_through_the_sky() {
    assert_eq!(texture_id(texture_key(0x77)), 0x77);
    assert_eq!(texture_id(texture_key(0)), 0);
    assert_eq!(texture_key(texture_id(None)), None);
    assert_eq!(texture_key(texture_id(Some(5))), Some(5));
}

#[test]
fn the_declarations_cover_every_roster_once_in_order() {
    let decls = setting_declarations();
    let names: Vec<&str> = decls.iter().map(|d| d.name).collect();
    assert_eq!(names, all_setting_names());
    let flags = rlv_bool_settings().len();
    let prefixes = rlv_prefix_settings().len();
    assert!(decls[..flags].iter().all(|d| d.section == RlvSettingSection::Main && matches!(d.default, SettingValue::Bool(_))));
    assert!(matches!(&decls[flags].default, SettingValue::Text(t) if t == "+"));
    assert!(decls[flags + prefixes..].iter().all(|d| d.section == RlvSettingSection::Strings));
    assert!(matches!(&decls[flags + prefixes].default, SettingValue::Text(t) if t == "*** IM blocked by your viewer"));
}

#[test]
fn the_debug_allowlist_answers_each_row() {
    let store = SettingsStore { values: vec![(SETTING_NO_SET_ENV.to_owned(), SettingValue::Bool(true))] };
    let mut ext = ViewerRlvExt {
        settings: Some(&store),
        facts: RlvExtFacts { aspect_ratio: Some(1.5_f32), avatar_is_male: None },
    };
    assert!(matches!(ext.debug_value(RlvDebugSetting::NoSetEnv), Some(RlvDebugValue::Bool(true))));
    assert!(matches!(ext.debug_value(RlvDebugSetting::ForbidGiveToRlv), Some(RlvDebugValue::Bool(false))));
    assert!(matches!(ext.debug_value(RlvDebugSetting::AspectRatio), Some(RlvDebugValue::Float(x)) if x == 1.5));
    assert!(ext.debug_value(RlvDebugSetting::AvatarSex).is_none());
    assert!(ext.debug_value(RlvDebugSetting::RenderResolutionDivisor).is_none());
    assert!(matches!(ext.debug_value(RlvDebugSetting::WindLightUseAtmosShaders), Some(RlvDebugValue::Bool(true))));
    assert!(!ext.set_debug_value(RlvDebugSetting::AvatarSex, RlvDebugValue::Bool(true)));
}
