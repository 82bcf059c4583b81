use keyforge::text::split_lines;
use keyforge::config::{parse_bool, parse_hex16, Config};

fn chars(s: &str) -> Vec<char> {
    s.chars().collect()
}

#[test]
fn parses_device_hiding_without_exposing_it_to_plugins() {
    let config = Config::parse("VID=0x054c\nPID=0x0ce6\nHIDE_DEVICE=on\nplugin.deadzone=1\n");
    assert!(config.hide_device);
    assert_eq!(config.vid, 0x054c);
    assert_eq!(config.pid, 0x0ce6);
    assert_eq!(
        config.values.get("plugin.deadzone").map(String::as_str),
        Some("1")
    );
    assert!(!config.values.contains_key("hide_device"));
}

#[test]
fn missing_or_empty_file_gives_the_defaults() {
    let config = Config::parse("");
    assert_eq!(config.vid, 0x045e);
    assert_eq!(config.pid, 0x028e);
    assert_eq!(config.plugin_dir, "/sdcard/.keyforge/plugins");
    assert!(!config.hide_device);
    assert_eq!(config.values.len(), 0);
    let defaults = Config::defaults();
    assert_eq!(defaults.vid, 0x045e);
    assert_eq!(defaults.plugin_dir, "/sdcard/.keyforge/plugins");
}

#[test]
fn comments_blank_lines_and_lines_without_equals_are_skipped() {
    let text = "# vid=0x1111\n\n   \nnot a setting\n  #pid=0x2222\nplugin_dir = /data/plugins \n";
    let config = Config::parse(text);
    assert_eq!(config.vid, 0x045e);
    assert_eq!(config.pid, 0x028e);
    assert_eq!(config.plugin_dir, "/data/plugins");
    assert_eq!(config.values.len(), 0);
}

#[test]
fn keys_are_trimmed_and_lower_cased_values_trimmed_later_lines_win() {
    let text = "  Sensitivity  =  high \r\nsensitivity= low\nA=b=c\n";
    let config = Config::parse(text);
    assert_eq!(config.values.get("sensitivity").map(String::as_str), Some("low"));
    assert_eq!(config.values.get("a").map(String::as_str), Some("b=c"));
    assert_eq!(config.values.len(), 2);
}

#[test]
fn unicode_keys_are_lower_cased() {
    let config = Config::parse("ÄBC=1\nVID=0X10\n");
    assert_eq!(config.values.get("äbc").map(String::as_str), Some("1"));
    // "0X" is no prefix: the value is not hexadecimal and reads as 0.
    assert_eq!(config.vid, 0);
}

#[test]
fn from_lines_reads_each_line() {
    let lines = vec![
        String::from("vid = 28de"),
        String::from("hide_device = YES"),
        String::from("x=1"),
    ];
    let config = Config::from_lines(&lines);
    assert_eq!(config.vid, 0x28de);
    assert!(config.hide_device);
    assert_eq!(config.values.get("x").map(String::as_str), Some("1"));
}

#[test]
fn hex_fields() {
    assert_eq!(parse_hex16(&chars("0x054c")), 0x054c);
    assert_eq!(parse_hex16(&chars("ffff")), 0xffff);
    assert_eq!(parse_hex16(&chars("FfFf")), 0xffff);
    assert_eq!(parse_hex16(&chars("0x10000")), 0);
    assert_eq!(parse_hex16(&chars("+1f")), 0x1f);
    assert_eq!(parse_hex16(&chars("0x+1f")), 0x1f);
    assert_eq!(parse_hex16(&chars("+")), 0);
    assert_eq!(parse_hex16(&chars("-1")), 0);
    assert_eq!(parse_hex16(&chars("")), 0);
    assert_eq!(parse_hex16(&chars("0x")), 0);
    assert_eq!(parse_hex16(&chars("0g")), 0);
    assert_eq!(parse_hex16(&chars("000000000001")), 1);
    // Without the prefix the untrimmed text is read.
    assert_eq!(parse_hex16(&chars(" 12")), 0);
    assert_eq!(parse_hex16(&chars(" 0x12 ")), 0x12);
}

#[test]
fn boolean_fields() {
    for yes in ["1", "true", "TRUE", " Yes ", "on", "On"] {
        assert!(parse_bool(&chars(yes)), "{yes}");
    }
    for no in ["0", "false", "off", "no", "", "tru", "onn", "ON!"] {
        assert!(!parse_bool(&chars(no)), "{no}");
    }
}

#[test]
fn reload_plan_follows_what_changed() {
    let cfg = Config::parse("vid=1\npid=2\nx=1\n");
    let same = Config::parse("x=1\npid=2\nvid=1\n");
    assert_eq!(cfg.reload_plan(&same), (false, false));
    let other_device = Config::parse("vid=1\npid=3\nx=1\n");
    assert_eq!(cfg.reload_plan(&other_device), (true, true));
    let other_setting = Config::parse("vid=1\npid=2\nx=2\n");
    assert_eq!(cfg.reload_plan(&other_setting), (true, false));
    let more_settings = Config::parse("vid=1\npid=2\nx=1\ny=1\n");
    assert_eq!(cfg.reload_plan(&more_settings), (true, false));
    let other_dir = Config::parse("vid=1\npid=2\nx=1\nplugin_dir=/x\n");
    assert_eq!(cfg.reload_plan(&other_dir), (true, false));
    let hide_only = Config::parse("vid=1\npid=2\nx=1\nhide_device=1\n");
    assert_eq!(cfg.reload_plan(&hide_only), (false, false));
}

#[test]
fn lines_drop_the_carriage_return_before_a_newline() {
    let s: Vec<char> = "a\r\nb\n\r\nc\r".chars().collect();
    let ls: Vec<String> = split_lines(&s).into_iter().map(|l| l.into_iter().collect()).collect();
    assert_eq!(ls, vec!["a", "b", "", "c\r"]);
    let expected: Vec<&str> = "a\r\nb\n\r\nc\r".lines().collect();
    assert_eq!(ls, expected);
}

#[test]
fn entries_set_fields_or_settings() {
    let mut c = keyforge::config::Config::defaults();
    let chars = |s: &str| s.chars().collect::<Vec<char>>();
    c.apply_entry(&chars("vid"), &chars("0x054c"));
    c.apply_entry(&chars("hide_device"), &chars("on"));
    c.apply_entry(&chars("plugin.deadzone"), &chars("1"));
    assert_eq!(c.vid, 0x054c);
    assert!(c.hide_device);
    assert_eq!(c.values.get("plugin.deadzone").map(String::as_str), Some("1"));
}
