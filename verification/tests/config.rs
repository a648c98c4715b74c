//! The configuration file and what its changes call for.

use keyforge::config::{parse_bool, parse_hex16, rewrite_line, Config};
use keyforge::emit::Release;
use keyforge::options::{parse_args, runtime_dir, RuntimeDir};
use keyforge::reload::{check_due, plan_reload, poll_timeout, Controller, Reload, Scripts};

fn load(text: &str) -> Config {
    Config::load(&text.lines().map(str::to_string).collect())
}

#[test]
fn parses_device_hiding_without_exposing_it_to_plugins() {
    let config = load(
        "VID=0x054c\nPID=0x0ce6\nHIDE_DEVICE=on\nplugin.deadzone=1\nPLUGIN_ORDER=square,deadzone\n",
    );
    assert!(config.hide_device);
    assert_eq!(config.vid, 0x054c);
    assert_eq!(config.pid, 0x0ce6);
    assert_eq!(
        config.values.get("plugin.deadzone").map(String::as_str),
        Some("1")
    );
    assert_eq!(config.plugin_order, vec!["square", "deadzone"]);
    assert!(!config.values.contains_key("plugin_order"));
    assert!(!config.values.contains_key("hide_device"));
}

#[test]
fn persist_source_rewrites_ids_preserving_layout() {
    let raw = Config::persist_source(
        "# comment\nVID=0x045e\nPID=0x028e\nPLUGIN_DIR=/x\n",
        0x054c,
        0x0ce6,
    );
    assert!(raw.contains("# comment"));
    assert!(raw.contains("VID=0x054c"));
    assert!(raw.contains("PID=0x0ce6"));
    assert!(raw.contains("PLUGIN_DIR=/x"));
    let config = load(&raw);
    assert_eq!((config.vid, config.pid), (0x054c, 0x0ce6));

    let raw = Config::persist_source("", 0x1234, 0x5678);
    let config = load(&raw);
    assert_eq!((config.vid, config.pid), (0x1234, 0x5678));
}

#[test]
fn an_empty_file_gives_the_defaults() {
    let config = load("");
    assert_eq!((config.vid, config.pid), (0x045e, 0x028e));
    assert_eq!(config.plugin_dir, "/sdcard/.keyforge/plugins");
    assert!(!config.hide_device);
    assert!(config.plugin_order.is_empty());
    assert!(!config.values.contains_key(""));
}

#[test]
fn lines_are_read_one_by_one() {
    let config = load(
        "  # vid=1\n\n vid = 0x0001 \r\nVid=2\nno equals sign\nplugin_dir=/a=b\nPLUGIN_ORDER= a , ,b,\nK\u{c4}SE=\u{3000}1\u{a0}\n=empty\n",
    );
    assert_eq!(config.vid, 2);
    assert_eq!(config.plugin_dir, "/a=b");
    assert_eq!(config.plugin_order, vec!["a", "b"]);
    assert_eq!(config.values.get("k\u{e4}se").map(String::as_str), Some("1"));
    assert_eq!(config.values.get("").map(String::as_str), Some("empty"));
    assert!(!config.values.contains_key("no equals sign"));
}

#[test]
fn keys_are_lowered_beyond_ascii() {
    let config = load("\u{212a}EY=1\n\u{130}=2\n");
    assert_eq!(config.values.get("key").map(String::as_str), Some("1"));
    assert_eq!(config.values.get("i\u{307}").map(String::as_str), Some("2"));
}

#[test]
fn lowered_keys_are_set() {
    let mut config = load("");
    config.set("vid".to_string(), "0x12");
    config.set("VID".to_string(), "0x34");
    config.set("plugin_order".to_string(), "b, a,");
    config.set("hide_device".to_string(), "on");
    config.set("plugin_dir".to_string(), "/d");
    config.set("k\u{e4}se".to_string(), "1");
    assert_eq!((config.vid, config.pid), (0x12, 0x028e));
    assert_eq!(config.plugin_order, vec!["b", "a"]);
    assert!(config.hide_device);
    assert_eq!(config.plugin_dir, "/d");
    assert_eq!(config.values.get("VID").map(String::as_str), Some("0x34"));
    assert_eq!(config.values.get("k\u{e4}se").map(String::as_str), Some("1"));
}

#[test]
fn lines_are_rewritten_by_their_lowered_key() {
    let rewrite = |line: &str, key: &str, lowered: &str| -> String {
        let line: Vec<char> = line.chars().collect();
        let key: Vec<char> = key.chars().collect();
        rewrite_line(&line, &key, lowered, 0xab, 0xcd).into_iter().collect()
    };
    assert_eq!(rewrite(" Vid = 1", "Vid", "vid"), "Vid=0x00ab");
    assert_eq!(rewrite("PID=1", "PID", "pid"), "PID=0x00cd");
    assert_eq!(rewrite(" \u{c4} = 1", "\u{c4}", "\u{e4}"), " \u{c4} = 1");
}

#[test]
fn the_last_value_of_a_key_counts() {
    let config = load("a=1\nA=2\nhide_device=yes\nhide_device=no\n");
    assert_eq!(config.values.get("a").map(String::as_str), Some("2"));
    assert!(!config.hide_device);
}

#[test]
fn numbers_are_read_in_base_sixteen() {
    assert_eq!(parse_hex16("0x045e"), 0x045e);
    assert_eq!(parse_hex16("45E"), 0x45e);
    assert_eq!(parse_hex16(" 0xffff "), 0xffff);
    assert_eq!(parse_hex16("+1f"), 0x1f);
    assert_eq!(parse_hex16("0x+1f"), 0x1f);
    assert_eq!(parse_hex16("0000000012"), 0x12);
    assert_eq!(parse_hex16("0x10000"), 0);
    assert_eq!(parse_hex16("0X12"), 0);
    assert_eq!(parse_hex16(" 12"), 0);
    assert_eq!(parse_hex16("-1"), 0);
    assert_eq!(parse_hex16("0x"), 0);
    assert_eq!(parse_hex16("+"), 0);
    assert_eq!(parse_hex16(""), 0);
    assert_eq!(parse_hex16("12g"), 0);
}

#[test]
fn words_for_yes_are_few() {
    for yes in ["1", "true", "YES", " On "] {
        assert!(parse_bool(yes));
    }
    for no in ["", "0", "2", "false", "y", "o n"] {
        assert!(!parse_bool(no));
    }
}

#[test]
fn persisting_keeps_every_other_line() {
    let raw = "# VID=0x1111\r\n  Vid = 5 \r\nx = 1\n\npid=7\npid=8\nlast";
    assert_eq!(
        Config::persist_source(raw, 0x00ab, 0xcdef),
        "# VID=0x1111\nVid=0x00ab\nx = 1\n\npid=0xcdef\npid=0xcdef\nlast\n"
    );
    assert_eq!(
        Config::persist_source("a=1", 1, 2),
        "a=1\nVID=0x0001\nPID=0x0002\n"
    );
    assert_eq!(Config::persist_source("", 1, 2), "VID=0x0001\nPID=0x0002\n");
    assert_eq!(
        Config::persist_source("pid=3\n", 1, 2),
        "pid=0x0002\nVID=0x0001\n"
    );
}

#[test]
fn persisting_changes_nothing_but_the_ids() {
    let raw = "vid=1\r\r\nplugin_dir=/p\r\nhide_device=1\nplugin_order=b,a\nk=v\n";
    let before = load(raw);
    let after = load(&Config::persist_source(raw, 0x10, 0x20));
    assert_eq!((after.vid, after.pid), (0x10, 0x20));
    assert_eq!(after.plugin_dir, before.plugin_dir);
    assert_eq!(after.hide_device, before.hide_device);
    assert_eq!(after.plugin_order, before.plugin_order);
    assert!(after.values.same(&before.values));
}

#[test]
fn an_unchanged_configuration_changes_nothing() {
    let cfg = load("k=v\nplugin_order=a\n");
    let same = load("K=v\nplugin_order=a\n");
    let keep = Reload {
        scripts: Scripts::Keep,
        controller: Controller::Keep,
        hiding_ignored: false,
    };
    assert_eq!(plan_reload(&cfg, &same, true, true, true), keep);
    assert_eq!(
        plan_reload(&cfg, &same, true, false, true),
        Reload {
            scripts: Scripts::Retry,
            ..keep
        }
    );
}

#[test]
fn changed_settings_reload_the_scripts() {
    let cfg = load("k=v\nplugin_order=a\n");
    for text in [
        "k=w\nplugin_order=a\n",
        "k=v\nl=v\nplugin_order=a\n",
        "plugin_order=a\n",
        "k=v\nplugin_order=b\n",
        "k=v\nplugin_order=a,b\n",
        "k=v\nplugin_order=a\nplugin_dir=/p\n",
    ] {
        let plan = plan_reload(&cfg, &load(text), true, true, false);
        assert_eq!(plan.scripts, Scripts::Reload);
        assert_eq!(plan.controller, Controller::Keep);
    }
}

#[test]
fn a_persisted_source_reconnects() {
    let raw = "vid=1\npid=2\n";
    let cfg = load(raw);
    let fresh = load(&Config::persist_source(raw, 1, 3));
    let plan = plan_reload(&cfg, &fresh, true, true, false);
    assert_eq!(plan.scripts, Scripts::Keep);
    assert_eq!(plan.controller, Controller::Drop);
    let plan = plan_reload(&cfg, &fresh, false, true, false);
    assert_eq!(plan.controller, Controller::Keep);
}

#[test]
fn hiding_needs_leave() {
    let cfg = load("");
    let fresh = load("hide_device=1\n");
    let plan = plan_reload(&cfg, &fresh, true, true, true);
    assert_eq!(plan.controller, Controller::SetHidden(true));
    assert!(!plan.hiding_ignored);
    let plan = plan_reload(&cfg, &fresh, true, true, false);
    assert_eq!(plan.controller, Controller::SetHidden(false));
    assert!(plan.hiding_ignored);
    let plan = plan_reload(&fresh, &cfg, true, true, false);
    assert_eq!(plan.controller, Controller::SetHidden(false));
    assert!(!plan.hiding_ignored);
    let both = load("hide_device=1\nvid=9\n");
    let plan = plan_reload(&cfg, &both, true, true, true);
    assert_eq!(plan.controller, Controller::Drop);
}

#[test]
fn checks_come_twice_a_second() {
    assert!(check_due(true, 0));
    assert!(!check_due(false, 499));
    assert!(check_due(false, 500));
    assert_eq!(poll_timeout(&Vec::new()), 500);
    assert_eq!(poll_timeout(&vec![Release { at: 0, code: 1 }]), 50);
}

fn args(list: &[&str]) -> Vec<String> {
    list.iter().map(|s| s.to_string()).collect()
}

#[test]
fn the_command_line_is_read() {
    let o = parse_args(&args(&[]));
    assert_eq!(o.config, "/sdcard/.keyforge/keyforge.conf");
    assert!(!o.allow_device_hide && !o.foreground);
    assert!(o.hidden_state.is_none() && o.pidfile.is_none() && o.restore_hidden_state.is_none());

    let o = parse_args(&args(&[
        "--foreground",
        "junk",
        "--config",
        "--foreground",
        "--pidfile",
        "/p",
        "--hidden-state",
        "/h",
        "--allow-device-hide",
        "--restore-hidden-state",
    ]));
    assert_eq!(o.config, "--foreground");
    assert!(o.foreground && o.allow_device_hide);
    assert_eq!(o.pidfile.as_deref(), Some("/p"));
    assert_eq!(o.hidden_state.as_deref(), Some("/h"));
    assert!(o.restore_hidden_state.is_none());

    let o = parse_args(&args(&["--restore-hidden-state", "/r", "--config", "a", "--config", "b"]));
    assert_eq!(o.restore_hidden_state.as_deref(), Some("/r"));
    assert_eq!(o.config, "b");
}

#[test]
fn the_first_directory_that_is_set_serves() {
    assert_eq!(runtime_dir(Some(3), Some(4), true), RuntimeDir::Own);
    assert_eq!(runtime_dir(Some(0), Some(4), true), RuntimeDir::Tmp);
    assert_eq!(runtime_dir(None, Some(0), true), RuntimeDir::Android);
    assert_eq!(runtime_dir(None, None, false), RuntimeDir::System);
}
