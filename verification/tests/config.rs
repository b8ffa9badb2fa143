use grove::config::{
    config_path_from, optional_nerd_fonts, validate, Config, ConfigError, DefaultSession, Pane,
    Preset, Window,
};
use grove::layout::{layout_choices, LayoutError};
use grove::select_layout;

fn roots(list: &[&str]) -> Config {
    Config { roots: list.iter().map(|r| r.to_string()).collect(), ..Config::default() }
}

fn default_session(name: &str, cwd: &str, windows: Vec<Window>) -> DefaultSession {
    DefaultSession { name: name.into(), cwd: cwd.into(), windows }
}

fn error_of(config: Config, dirs: Vec<bool>) -> ConfigError {
    validate(config, &dirs).unwrap_err()
}

#[test]
fn nerd_fonts_default_on_and_can_be_disabled() {
    let default = roots(&["/x"]);
    let fallback = Config { nerd_fonts: false, ..roots(&["/x"]) };
    assert!(default.nerd_fonts);
    assert!(Config::default().nerd_fonts);
    assert_eq!(Config::default().max_depth, default.max_depth);
    assert_eq!(Config::default().max_depth, 3);
    assert!(!fallback.nerd_fonts);
}

#[test]
fn optional_presentation_config_can_be_missing() {
    assert!(optional_nerd_fonts(None));
    let disabled = Config { nerd_fonts: false, ..Config::default() };
    assert!(!optional_nerd_fonts(Some(&disabled)));
}

#[test]
fn rejects_bad_config() {
    assert_eq!(error_of(roots(&["relative"]), vec![]), ConfigError::RelativeRoot);
    assert_eq!(
        error_of(Config { max_depth: 0, ..roots(&["/x"]) }, vec![]),
        ConfigError::ZeroDepth
    );
    let duplicate = Config {
        presets: vec![
            Preset { name: "x".into(), windows: vec![] },
            Preset { name: "x".into(), windows: vec![] },
        ],
        ..roots(&["/x"])
    };
    assert_eq!(error_of(duplicate, vec![]), ConfigError::DuplicatePreset);
    for name in ["", "a\tb", "a\nb", "a\0b"] {
        let bad = Config {
            presets: vec![Preset { name: name.into(), windows: vec![] }],
            ..roots(&["/x"])
        };
        assert_eq!(error_of(bad, vec![]), ConfigError::BadPresetName);
    }
}

#[test]
fn accepts_documented_defaults_without_roots() {
    let config = Config {
        defaults: vec![default_session(
            "main",
            "/tmp/main",
            vec![
                Window { name: "editor".into(), panes: vec![Pane { command: vec!["nvim".into()] }] },
                Window { name: "shell".into(), panes: vec![] },
            ],
        )],
        ..Config::default()
    };
    let config = validate(config, &vec![true]).unwrap();
    assert_eq!(config.defaults.len(), 1);
    assert_eq!(config.defaults[0].cwd, "/tmp/main");
    assert_eq!(config.defaults[0].windows.len(), 2);
}

#[test]
fn rejects_duplicate_and_unsafe_default_names() {
    let duplicate = Config {
        defaults: vec![
            default_session("main", "/tmp", vec![]),
            default_session("main", "/tmp", vec![]),
        ],
        ..Config::default()
    };
    assert_eq!(error_of(duplicate, vec![true, true]), ConfigError::DuplicateDefault);
    for name in ["", "a.b", "a:b", "a\tb"] {
        let config = Config {
            defaults: vec![default_session(name, "/tmp", vec![])],
            ..Config::default()
        };
        assert_eq!(error_of(config, vec![true]), ConfigError::BadDefaultName, "{name:?}");
    }
}

#[test]
fn rejects_invalid_default_cwds() {
    for (cwd, is_dir) in [("relative", true), ("/tmp/missing", false), ("/tmp/file", false)] {
        let config = Config {
            defaults: vec![default_session("main", cwd, vec![])],
            ..Config::default()
        };
        assert_eq!(error_of(config, vec![is_dir]), ConfigError::BadDefaultCwd, "{cwd:?}");
    }
}

#[test]
fn defaults_are_strict_and_validate_layouts() {
    for (windows, expected) in [
        (vec![Window { name: "".into(), panes: vec![] }], ConfigError::BadWindowName),
        (
            vec![Window { name: "shell".into(), panes: vec![Pane { command: vec!["".into()] }] }],
            ConfigError::EmptyExecutable,
        ),
    ] {
        let config = Config {
            defaults: vec![default_session("main", "/tmp", windows)],
            ..Config::default()
        };
        assert_eq!(error_of(config, vec![true]), expected);
    }
}

#[test]
fn configuration_errors_explain_the_rule() {
    assert_eq!(ConfigError::RelativeRoot.message(), "configuration roots must be absolute paths");
    assert_eq!(ConfigError::ZeroDepth.message(), "max_depth must be at least 1");
    assert_eq!(ConfigError::DuplicatePreset.message(), "preset names must be unique");
    assert_eq!(ConfigError::DuplicateDefault.message(), "default names must be unique");
    assert_eq!(
        ConfigError::BadWindowName.message(),
        "window names must be non-empty and contain no NULs"
    );
    assert_eq!(ConfigError::EmptyExecutable.message(), "pane executable must not be empty");
    let first = Config {
        max_depth: 0,
        presets: vec![Preset { name: "".into(), windows: vec![] }],
        ..roots(&["rel"])
    };
    assert_eq!(error_of(first, vec![]), ConfigError::RelativeRoot);
}

#[test]
fn custom_config_path_overrides_standard_and_empty_value_falls_back() {
    assert_eq!(config_path_from(Some("/c.toml".into()), Some("/x".into()), None), "/c.toml");
    assert_eq!(
        config_path_from(Some("".into()), Some("/x".into()), Some("/h".into())),
        "/x/grove/config.toml"
    );
    assert_eq!(
        config_path_from(None, None, Some("/h".into())),
        "/h/.config/grove/config.toml"
    );
    assert_eq!(config_path_from(None, None, None), "./grove/config.toml");
}

#[test]
fn layouts_are_offered_by_position() {
    let config = Config {
        presets: vec![
            Preset { name: "editor".into(), windows: vec![Window { name: "main".into(), panes: vec![] }] },
            Preset { name: "two".into(), windows: vec![] },
        ],
        ..roots(&["/x"])
    };
    assert_eq!(
        layout_choices(&config),
        [
            ("0".to_string(), "shell (one shell window)".to_string()),
            ("1".to_string(), "editor".to_string()),
            ("2".to_string(), "two".to_string()),
        ]
    );
    assert!(select_layout(&config, None).unwrap().is_none());
    let shell = select_layout(&config, Some("0")).unwrap().unwrap();
    assert_eq!(shell.name, "shell");
    assert_eq!(shell.windows.len(), 1);
    assert_eq!(shell.windows[0].name, "shell");
    assert!(shell.windows[0].panes.is_empty());
    let editor = select_layout(&config, Some("1")).unwrap().unwrap();
    assert_eq!(editor.name, "editor");
    assert_eq!(editor.windows[0].name, "main");
    let unknown = select_layout(&config, Some("3")).unwrap_err();
    assert!(matches!(unknown, LayoutError::Unknown));
    assert_eq!(unknown.message(), "fzf selected an unknown layout");
    let invalid = select_layout(&config, Some("x")).unwrap_err();
    assert_eq!(invalid.message(), "fzf selected an invalid layout");
}
