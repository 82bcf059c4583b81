use keyforge::plugin::{admit_plugin, Admission};
use keyforge::pipeline::{Event, Side};
use keyforge::plugin::{
    apply_result, build_cfg_table, build_event_table, event_fields, lua_file_stem,
    merge_settings, parse_plugin_config, plugin_enabled, LuaField, PluginMeta, SettingDef,
};
use keyforge::settings::Settings;

fn settings(pairs: &[(&str, &str)]) -> Settings {
    let mut s = Settings::new();
    for (k, v) in pairs {
        s.insert(k.to_string(), v.to_string());
    }
    s
}

#[test]
fn event_tables_describe_the_event() {
    let lua = mlua::Lua::new();
    let t = build_event_table(&lua, &Event::Stick { x: 5, y: -6, side: Side::Left }).unwrap();
    assert_eq!(t.get::<String>("kind").unwrap(), "stick");
    assert_eq!(t.get::<i32>("x").unwrap(), 5);
    assert_eq!(t.get::<i32>("y").unwrap(), -6);
    assert_eq!(t.get::<String>("side").unwrap(), "left");
    let t = build_event_table(&lua, &Event::Trigger { value: 7, side: Side::Right }).unwrap();
    assert_eq!(t.get::<String>("kind").unwrap(), "trigger");
    assert_eq!(t.get::<i32>("value").unwrap(), 7);
    assert_eq!(t.get::<String>("side").unwrap(), "right");
    let t = build_event_table(&lua, &Event::Button { code: 304, pressed: true }).unwrap();
    assert_eq!(t.get::<String>("kind").unwrap(), "button");
    assert_eq!(t.get::<u16>("code").unwrap(), 304);
    assert!(t.get::<bool>("pressed").unwrap());
}

#[test]
fn event_field_lists() {
    let f = event_fields(&Event::Button { code: 2, pressed: false });
    let names: Vec<&str> = f.iter().map(|(k, _)| *k).collect();
    assert_eq!(names, vec!["kind", "code", "pressed"]);
    assert!(matches!(&f[0].1, LuaField::Str(s) if s == "button"));
    assert!(matches!(f[1].1, LuaField::Code(2)));
    assert!(matches!(f[2].1, LuaField::Bool(false)));
}

#[test]
fn cfg_tables_hold_the_settings() {
    let lua = mlua::Lua::new();
    let t = build_cfg_table(&lua, &settings(&[("dz_left", "91"), ("mode", "fast")])).unwrap();
    assert_eq!(t.get::<String>("dz_left").unwrap(), "91");
    assert_eq!(t.get::<String>("mode").unwrap(), "fast");
    assert!(t.get::<Option<String>>("other").unwrap().is_none());
}

#[test]
fn plugin_settings_override_global_ones() {
    let global = settings(&[("a", "1"), ("b", "2")]);
    let own = settings(&[("b", "3"), ("c", "4")]);
    let m = merge_settings(&global, &own);
    assert_eq!(m.len(), 3);
    assert_eq!(m.get("a").map(String::as_str), Some("1"));
    assert_eq!(m.get("b").map(String::as_str), Some("3"));
    assert_eq!(m.get("c").map(String::as_str), Some("4"));
}

#[test]
fn answers_update_only_the_fields_of_the_event() {
    let mut s = Event::Stick { x: 1, y: 2, side: Side::Right };
    apply_result(&mut s, Some(10), None, Some(99), Some(true));
    assert_eq!(s, Event::Stick { x: 10, y: 2, side: Side::Right });
    let mut t = Event::Trigger { value: 3, side: Side::Left };
    apply_result(&mut t, Some(10), Some(11), Some(12), None);
    assert_eq!(t, Event::Trigger { value: 12, side: Side::Left });
    let mut b = Event::Button { code: 304, pressed: true };
    apply_result(&mut b, Some(1), Some(1), Some(1), Some(false));
    assert_eq!(b, Event::Button { code: 304, pressed: false });
    apply_result(&mut b, None, None, None, None);
    assert_eq!(b, Event::Button { code: 304, pressed: false });
}

#[test]
fn plugin_config_files() {
    let c = parse_plugin_config(" dz_left = 120 \r\n# note=1\nno equals\nscale=1=2\ndz_left=130\n");
    assert_eq!(c.len(), 3);
    assert_eq!(c.get("dz_left").map(String::as_str), Some("130"));
    assert_eq!(c.get("# note").map(String::as_str), Some("1"));
    assert_eq!(c.get("scale").map(String::as_str), Some("1=2"));
    assert_eq!(parse_plugin_config("").len(), 0);
}

#[test]
fn plugins_are_enabled_unless_switched_off() {
    let cfg = settings(&[("plugin.deadzone", "1"), ("plugin.curve", "0"), ("plugin.x", "true")]);
    assert!(plugin_enabled(&cfg, "deadzone"));
    assert!(!plugin_enabled(&cfg, "curve"));
    assert!(!plugin_enabled(&cfg, "x"));
    assert!(plugin_enabled(&cfg, "other"));
}

#[test]
fn metadata_defaults() {
    let cfg = settings(&[("plugin.deadzone", "0")]);
    let m = PluginMeta::from_fields("deadzone", None, None, None, None, None, &cfg, vec![]);
    assert_eq!(m.id, "deadzone");
    assert_eq!(m.name, "deadzone");
    assert_eq!(m.version, "0.1.0");
    assert_eq!(m.author, "unknown");
    assert!(m.description.is_none());
    assert!(!m.enabled);
    let m = PluginMeta::from_fields(
        "file",
        Some("curve".into()),
        Some("Curve".into()),
        Some("2.0".into()),
        Some("me".into()),
        Some("bends sticks".into()),
        &cfg,
        vec![SettingDef::from_fields(None, None, None, None, Some(0), None)],
    );
    assert_eq!((m.id.as_str(), m.name.as_str(), m.version.as_str(), m.author.as_str()), ("curve", "Curve", "2.0", "me"));
    assert_eq!(m.description.as_deref(), Some("bends sticks"));
    assert!(m.enabled);
    let s = &m.settings[0];
    assert_eq!((s.key.as_str(), s.label.as_str(), s.kind.as_str(), s.default.as_str()), ("", "", "number", "0"));
    assert_eq!((s.min, s.max), (Some(0), None));
    let s = SettingDef::from_fields(Some("k".into()), Some("L".into()), Some("toggle".into()), Some("1".into()), None, Some(5));
    assert_eq!((s.key.as_str(), s.label.as_str(), s.kind.as_str(), s.default.as_str(), s.max), ("k", "L", "toggle", "1", Some(5)));
}

#[test]
fn lua_file_names() {
    assert_eq!(lua_file_stem("deadzone.lua").as_deref(), Some("deadzone"));
    assert_eq!(lua_file_stem("a.b.lua").as_deref(), Some("a.b"));
    assert_eq!(lua_file_stem("deadzone.luac"), None);
    assert_eq!(lua_file_stem("README"), None);
    assert_eq!(lua_file_stem(".lua"), None);
    assert_eq!(lua_file_stem("..lua").as_deref(), Some("."));
    assert_eq!(lua_file_stem("x.LUA"), None);
    assert_eq!(lua_file_stem("lua"), None);
}

#[test]
fn built_tables_have_no_metatable() {
    let lua = mlua::Lua::new();
    let t = build_event_table(&lua, &Event::Trigger { value: 1, side: Side::Left }).unwrap();
    assert!(t.metatable().is_none());
    let t = build_cfg_table(&lua, &settings(&[("a", "1")])).unwrap();
    assert!(t.metatable().is_none());
    assert_eq!(t.get::<String>("a").unwrap(), "1");
}

#[test]
fn plugins_without_process_are_skipped_and_disabled_ones_only_listed() {
    assert_eq!(admit_plugin(false, true), Admission::Skip);
    assert_eq!(admit_plugin(false, false), Admission::Skip);
    assert_eq!(admit_plugin(true, false), Admission::ListOnly);
    assert_eq!(admit_plugin(true, true), Admission::AddAndList);
}
