//! The settings and the directories that they name.

use recovery::config::{
    accepts_update_time, recovery_directory, valid_suffix, valid_update_count, valid_update_time,
    ConfigError,
};
use recovery::directories::{
    ancestors, directories, directories_with, prepare_directory, DirectoriesError,
};
use recovery::{Config, NativePath};

fn path(text: &str) -> NativePath {
    NativePath::from_text(text)
}

fn units(paths: &[NativePath]) -> Vec<Vec<u8>> {
    paths.iter().map(|path| path.units.clone()).collect()
}

fn bytes(paths: &[&str]) -> Vec<Vec<u8>> {
    paths.iter().map(|path| path.as_bytes().to_vec()).collect()
}

#[test]
fn config_defaults_and_validation() {
    let state_dir = path("/home/user/.local/state/helix");
    let defaults = Config::default_in(&state_dir);
    assert!(!defaults.enable);
    assert!(!defaults.keep_recovered);
    assert_eq!(
        units(&defaults.directories),
        vec![
            b".".to_vec(),
            recovery_directory(&state_dir).units,
            b"/var/tmp".to_vec(),
            b"/tmp".to_vec(),
        ]
    );
    assert_eq!(
        recovery_directory(&state_dir).units,
        b"/home/user/.local/state/helix/recovery"
    );
    assert_eq!(
        (
            defaults.update_count,
            defaults.update_time,
            defaults.size_threshold
        ),
        (200, 4, 0)
    );
    assert_eq!(defaults.suffix, ".swp");
    assert_eq!(defaults.validate(), Ok(()));
    for suffix in [
        "",
        ".",
        "..",
        "../swap",
        "/swap",
        "\\swap",
        ":swap",
        "\0",
        "with space",
        "trailing.",
    ] {
        assert!(!valid_suffix(suffix), "{suffix:?}");
        let config = Config {
            suffix: suffix.into(),
            ..defaults.clone()
        };
        assert_eq!(config.validate(), Err(ConfigError::UnsafeSuffix));
    }
    assert!(!valid_update_count(0));
    assert!(!valid_update_time(0));
    assert!(!valid_update_time(u64::MAX));
    assert_eq!(
        Config {
            update_time: u64::MAX,
            ..defaults
        }
        .validate(),
        Err(ConfigError::UpdateTime)
    );
}

#[test]
fn suffix_length_and_alphabet() {
    for suffix in [".swp", "a", "Z9._-x", ".recover", "-", "_"] {
        assert!(valid_suffix(suffix), "{suffix:?}");
    }
    assert!(valid_suffix(&"x".repeat(64)));
    assert!(!valid_suffix(&"x".repeat(65)));
    assert!(!valid_suffix("caf\u{e9}"));
    assert!(!valid_suffix("a/b"));
}

#[test]
fn the_first_fault_of_a_configuration_is_reported() {
    let config = Config {
        suffix: "/".into(),
        update_count: 0,
        update_time: 0,
        ..Config::default_in(&path("/state"))
    };
    assert_eq!(config.validate_with(true), Err(ConfigError::UnsafeSuffix));
    let config = Config {
        suffix: ".swp".into(),
        ..config
    };
    assert_eq!(config.validate_with(true), Err(ConfigError::UpdateCount));
    let config = Config {
        update_count: 1,
        ..config
    };
    assert_eq!(config.validate_with(true), Err(ConfigError::UpdateTime));
    let config = Config {
        update_time: 1,
        ..config
    };
    assert_eq!(config.validate_with(false), Err(ConfigError::UpdateTime));
    assert_eq!(config.validate_with(true), Ok(()));
    assert!(accepts_update_time(1, true));
    assert!(!accepts_update_time(1, false));
    assert!(!accepts_update_time(0, true));
    assert!(valid_update_time(4));
}

#[test]
fn directories_are_resolved_and_listed_once() {
    let mut config = Config::default_in(&path("/state"));
    config.directories = vec![
        path("./"),
        path("sub"),
        path("/work//docs/"),
        path("/work/./docs"),
        path("~"),
        path("."),
    ];
    let mut expanded = config.directories.clone();
    expanded[4] = path("/home/user");
    let original = Some(path("docs/file.txt"));
    let found = directories(&config, &expanded, &original, &path("/work")).unwrap();
    assert_eq!(
        units(&found),
        bytes(&["/work/docs", "/work/sub", "/home/user"])
    );
    let found = directories(&config, &expanded, &None, &path("/work")).unwrap();
    assert_eq!(
        units(&found),
        bytes(&["/work", "/work/sub", "/work//docs/", "/home/user"])
    );
    assert_eq!(
        directories(&config, &expanded, &None, &path("work")).unwrap_err(),
        DirectoriesError::RelativeCwd
    );
    assert_eq!(
        directories_with(&config, &expanded, &None, &path("work"), false).unwrap_err(),
        DirectoriesError::Config(ConfigError::UpdateTime)
    );
}

#[test]
fn only_the_state_directory_is_prepared() {
    assert!(prepare_directory(&path("/work"), &path("/state/recovery")).is_none());
    let synced = prepare_directory(&path("/state/./recovery/"), &path("/state/recovery")).unwrap();
    assert_eq!(units(&synced), bytes(&["/state", "/"]));
    assert_eq!(units(&ancestors(&path("/a/b/c"))), bytes(&["/a/b", "/a", "/"]));
    assert_eq!(units(&ancestors(&path("a/b"))), bytes(&["a", ""]));
    assert!(ancestors(&path("/")).is_empty());
}

#[test]
fn a_shorter_interval_is_valid_where_a_longer_one_is() {
    let reaches = |seconds: u64| seconds <= 100;
    for (value, valid) in [(101, false), (100, true), (99, true), (1, true), (0, false)] {
        assert_eq!(accepts_update_time(value, reaches(value)), valid);
    }
    assert!(valid_update_time(3600) && valid_update_time(1));
    assert!(!valid_update_time(0) && !valid_update_time(u64::MAX));
}
