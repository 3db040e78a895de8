use zsh_tool_exec::config::{expand_tilde, yaml_lookup, Config, EnvOverrides};

fn no_env() -> EnvOverrides {
    EnvOverrides {
        home: None,
        timeout_default: None,
        timeout_max: None,
        db_path: None,
        manopt_enabled: None,
        manopt_timeout_ms: None,
    }
}

#[test]
fn test_default_config_values() {
    let cfg = Config::default();
    assert_eq!(cfg.neverhang_timeout_default, 3600);
    assert_eq!(cfg.neverhang_timeout_max, 600);
    assert_eq!(cfg.yield_after_default_ms, 2000);
    assert_eq!(cfg.alan_decay_half_life_hours, 24);
    assert_eq!(cfg.alan_prune_threshold_micro, 10_000);
    assert_eq!(cfg.alan_max_entries, 10000);
    assert_eq!(cfg.alan_recent_window_minutes, 10);
    assert_eq!(cfg.alan_streak_threshold, 3);
    assert!(cfg.alan_manopt_enabled);
    assert_eq!(cfg.alan_manopt_timeout_ms, 2000);
    assert_eq!(cfg.alan_manopt_fail_trigger, 2);
    assert_eq!(cfg.alan_manopt_fail_present, 3);
    assert_eq!(cfg.truncate_output_at, 30000);
}

#[test]
fn test_config_from_yaml_file() {
    let content = "yield_after: 5.0\n";
    assert_eq!(yaml_lookup(content, "yield_after").as_deref(), Some("5.0"));
    let cfg = Config::from_env(&no_env());
    assert_eq!(cfg.alan_decay_half_life_hours, 24);
}

#[test]
fn test_config_env_overrides() {
    let mut env = no_env();
    env.timeout_default = Some("60".to_string());
    let cfg = Config::from_env(&env);
    assert_eq!(cfg.neverhang_timeout_default, 60);
}

#[test]
fn test_config_missing_yaml_uses_defaults() {
    let cfg = Config::from_env(&no_env());
    assert_eq!(cfg.neverhang_timeout_default, 3600);
}

#[test]
fn test_pipestatus_marker_matches_python() {
    let cfg = Config::default();
    assert_eq!(cfg.pipestatus_marker, "___ZSH_PIPESTATUS_MARKER_f9a8b7c6___");
}

#[test]
fn test_expand_tilde() {
    let expanded = expand_tilde("~/foo/bar", Some("/home/user"));
    assert!(!expanded.starts_with('~'));
    assert!(expanded.ends_with("/foo/bar"));
    assert_eq!(expanded, "/home/user/foo/bar");
}

#[test]
fn test_expand_tilde_no_tilde() {
    assert_eq!(expand_tilde("/absolute/path", Some("/home/user")), "/absolute/path");
}

#[test]
fn tilde_is_expanded_only_at_the_front_of_a_home_path() {
    assert_eq!(expand_tilde("~", Some("/h")), "/h");
    assert_eq!(expand_tilde("~user/x", Some("/h")), "~user/x");
    assert_eq!(expand_tilde("a/~/b", Some("/h")), "a/~/b");
    assert_eq!(expand_tilde("~/x", None), "~/x");
    assert_eq!(expand_tilde("", Some("/h")), "");
}

#[test]
fn env_overrides_are_applied() {
    let mut env = no_env();
    env.home = Some("/home/me".to_string());
    env.timeout_default = Some("sixty".to_string());
    env.timeout_max = Some("+90".to_string());
    env.db_path = Some("~/alan.db".to_string());
    env.manopt_enabled = Some("OFF".to_string());
    env.manopt_timeout_ms = Some(1500);
    let cfg = Config::from_env(&env);
    assert_eq!(cfg.neverhang_timeout_default, 3600);
    assert_eq!(cfg.neverhang_timeout_max, 90);
    assert_eq!(cfg.alan_db_path, "/home/me/alan.db");
    assert!(!cfg.alan_manopt_enabled);
    assert_eq!(cfg.alan_manopt_timeout_ms, 1500);
    for word in ["0", "false", "No", "off"] {
        let mut env = no_env();
        env.manopt_enabled = Some(word.to_string());
        assert!(!Config::from_env(&env).alan_manopt_enabled);
    }
    for word in ["1", "yes", "", " off"] {
        let mut env = no_env();
        env.manopt_enabled = Some(word.to_string());
        assert!(Config::from_env(&env).alan_manopt_enabled);
    }
}

#[test]
fn timeout_is_clamped_to_the_maximum() {
    let cfg = Config::default();
    assert_eq!(cfg.effective_timeout(None), 600);
    assert_eq!(cfg.effective_timeout(Some(30)), 30);
    assert_eq!(cfg.effective_timeout(Some(600)), 600);
    assert_eq!(cfg.effective_timeout(Some(100_000)), 600);
}

#[test]
fn yaml_lookup_reads_the_last_value() {
    let content = "# settings\n\n  yield_after :  1.5  \nother: x\nyield_after: 7\r\nyield_afterx: 9\nbroken line\n";
    assert_eq!(yaml_lookup(content, "yield_after").as_deref(), Some("7"));
    assert_eq!(yaml_lookup(content, "other").as_deref(), Some("x"));
    assert_eq!(yaml_lookup(content, "missing"), None);
    assert_eq!(yaml_lookup("# yield_after: 3\n", "yield_after"), None);
    assert_eq!(yaml_lookup("url: http://x:80", "url").as_deref(), Some("http://x:80"));
    assert_eq!(yaml_lookup("", "a"), None);
}
