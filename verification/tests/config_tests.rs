use projector::command::{activity_days, dir_or, keep_count, orphan_days};
use projector::config::{parse_number, projector_dir, snapshot_dir, Config, ConfigError};

#[test]
fn test_config_default() {
    let config = Config::default();
    assert_eq!(config.scan.default_path, ".");
    assert_eq!(config.report.stale_threshold_days, 90);
    assert_eq!(config.snapshot.keep_count, 30);
    assert_eq!(config.alert.health_threshold, 40);
}

#[test]
fn test_config_set_scan_path() {
    let mut config = Config::default();
    config.set("scan.default_path", "/tmp/projects").unwrap();
    assert_eq!(config.scan.default_path, "/tmp/projects");
}

#[test]
fn test_config_set_stale_threshold() {
    let mut config = Config::default();
    config.set("report.stale_threshold_days", "30").unwrap();
    assert_eq!(config.report.stale_threshold_days, 30);
}

#[test]
fn test_config_set_invalid_key() {
    let mut config = Config::default();
    let result = config.set("foo.bar", "value");
    assert!(result.is_err());
    assert!(result.unwrap_err().message().contains("Unknown config key"));
}

#[test]
fn test_config_set_stale_threshold_non_number() {
    let mut config = Config::default();
    let result = config.set("report.stale_threshold_days", "not_a_number");
    assert!(result.is_err());
    assert_eq!(config.report.stale_threshold_days, 90);
}

#[test]
fn setting_the_new_sections() {
    let mut config = Config::default();
    config.set("snapshot.keep_count", "50").unwrap();
    config.set("alert.health_threshold", "0").unwrap();
    assert_eq!(config.snapshot.keep_count, 50);
    assert_eq!(config.alert.health_threshold, 0);
    match config.set("alert.health_threshold", "-1") {
        Err(e @ ConfigError::NotANumber(_)) => assert_eq!(e.message(), "health_threshold must be a number"),
        other => panic!("unexpected {:?}", other),
    }
    assert_eq!(config.alert.health_threshold, 0);
}

#[test]
fn numbers_read_as_parse_u32_reads_them() {
    assert_eq!(parse_number("30"), Some(30));
    assert_eq!(parse_number("+7"), Some(7));
    assert_eq!(parse_number("4294967295"), Some(u32::MAX));
    assert_eq!(parse_number("4294967296"), None);
    assert_eq!(parse_number(""), None);
    assert_eq!(parse_number(" 1"), None);
}

#[test]
fn test_path_contains_home() {
    let home = "/home/someone";
    let path = Config::path(Some(home));
    assert!(path.contains(home));
    assert!(path.ends_with(".projector/config.toml"));
}

#[test]
fn directories_below_home() {
    assert_eq!(projector_dir(Some("/home/u")), "/home/u/.projector");
    assert_eq!(snapshot_dir(Some("/home/u")), "/home/u/.projector/snapshots");
    assert_eq!(projector_dir(None), "./.projector");
}

#[test]
fn option_defaults() {
    assert_eq!(activity_days(None), 7);
    assert_eq!(activity_days(Some(30)), 30);
    assert_eq!(orphan_days(None), 90);
    assert_eq!(orphan_days(Some(180)), 180);
    let config = Config::default();
    assert_eq!(keep_count(None, &config), 30);
    assert_eq!(keep_count(Some(3), &config), 3);
    assert_eq!(dir_or(None, "."), ".");
    assert_eq!(dir_or(Some("/src"), "."), "/src");
}
