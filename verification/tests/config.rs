use qeminga::config::{
    AgentConfig, Build, Config, ConfigError, LogLevel, MAX_FSFREEZE_TIMEOUT_SECS,
};

const DESIGN_EXAMPLE: &str = r#"
[agent]
config_version = 1
channel_path = "/dev/virtio-ports/org.qemu.guest_agent.0"
log_level = "info"
state_path = "/run/qeminga/frozen"
fsfreeze_idle_timeout_secs = 30
fsfreeze_max_timeout_secs = 300

[rate_limits]
ping_sync_per_min = 120
get_commands_per_min = 30
fsfreeze_freeze_per_min = 10
fstrim_per_min = 5
shutdown_per_min = 2

[features]
suspend_ram = false
fstrim = true
seccomp = true
"#;

const EVERYTHING: Build = Build {
    seccomp: true,
    suspend_ram: true,
};

const NOTHING: Build = Build {
    seccomp: false,
    suspend_ram: false,
};

fn text(value: &toml::Value, key: &str) -> Result<String, String> {
    match value.as_str() {
        Some(text) => Ok(text.to_owned()),
        None => Err(format!("{key}: expected a string")),
    }
}

fn whole(value: &toml::Value, key: &str) -> Result<u64, String> {
    value
        .as_integer()
        .and_then(|n| u64::try_from(n).ok())
        .ok_or(format!("{key}: expected an unsigned integer"))
}

fn small(value: &toml::Value, key: &str) -> Result<u32, String> {
    u32::try_from(whole(value, key)?).map_err(|_| format!("{key}: too large"))
}

fn switch(value: &toml::Value, key: &str) -> Result<bool, String> {
    value.as_bool().ok_or(format!("{key}: expected a boolean"))
}

fn level(value: &toml::Value) -> Result<LogLevel, String> {
    match value.as_str() {
        Some("trace") => Ok(LogLevel::Trace),
        Some("debug") => Ok(LogLevel::Debug),
        Some("info") => Ok(LogLevel::Info),
        Some("warn") => Ok(LogLevel::Warn),
        Some("error") => Ok(LogLevel::Error),
        _ => Err("log_level: unknown variant".to_owned()),
    }
}

/// A document read into the schema, key by key.
fn read(document: &str) -> Result<Config, String> {
    let table: toml::Table = document.parse().map_err(|err: toml::de::Error| err.to_string())?;
    let mut config = Config::default();
    for (section, keys) in &table {
        let keys = keys.as_table().ok_or(format!("unknown field `{section}`"))?;
        if !["agent", "rate_limits", "features"].contains(&section.as_str()) {
            return Err(format!("unknown field `{section}`"));
        }
        for (key, value) in keys {
            let agent = &mut config.agent;
            let limits = &mut config.rate_limits;
            let features = &mut config.features;
            match (section.as_str(), key.as_str()) {
                ("agent", "config_version") => agent.config_version = small(value, key)?,
                ("agent", "channel_path") => agent.channel_path = text(value, key)?,
                ("agent", "log_level") => agent.log_level = level(value)?,
                ("agent", "state_path") => agent.state_path = text(value, key)?,
                ("agent", "fsfreeze_idle_timeout_secs") => {
                    agent.fsfreeze_idle_timeout_secs = whole(value, key)?
                }
                ("agent", "fsfreeze_max_timeout_secs") => {
                    agent.fsfreeze_max_timeout_secs = whole(value, key)?
                }
                ("agent", "fsfreeze_operation_timeout_secs") => {
                    agent.fsfreeze_operation_timeout_secs = Some(whole(value, key)?)
                }
                ("rate_limits", "ping_sync_per_min") => {
                    limits.ping_sync_per_min = small(value, key)?
                }
                ("rate_limits", "get_commands_per_min") => {
                    limits.get_commands_per_min = small(value, key)?
                }
                ("rate_limits", "fsfreeze_freeze_per_min") => {
                    limits.fsfreeze_freeze_per_min = small(value, key)?
                }
                ("rate_limits", "fstrim_per_min") => limits.fstrim_per_min = small(value, key)?,
                ("rate_limits", "shutdown_per_min") => {
                    limits.shutdown_per_min = small(value, key)?
                }
                ("features", "suspend_ram") => features.suspend_ram = switch(value, key)?,
                ("features", "fstrim") => features.fstrim = switch(value, key)?,
                ("features", "seccomp") => features.seccomp = switch(value, key)?,
                _ => return Err(format!("unknown field `{key}`")),
            }
        }
    }
    Ok(config)
}

fn parse(document: &str) -> Result<Config, ConfigError> {
    Config::parse(read(document))
}

#[test]
fn example_from_design_parses() {
    let config = parse(DESIGN_EXAMPLE).unwrap();
    assert_eq!(config, Config::default(), "the documented block is the default");
    assert!(config.warnings(EVERYTHING).is_empty());
}

#[test]
fn empty_file_yields_documented_defaults() {
    let config = parse("").unwrap();
    assert_eq!(
        config.agent.channel_path,
        "/dev/virtio-ports/org.qemu.guest_agent.0"
    );
    assert_eq!(config.agent.config_version, 1);
    assert_eq!(config.agent.log_level, LogLevel::Info);
    assert_eq!(config.agent.state_path, "/run/qeminga/frozen");
    assert_eq!(config.agent.fsfreeze_idle_timeout_secs, 30);
    assert_eq!(config.agent.fsfreeze_max_timeout_secs, 300);
    assert_eq!(config.agent.fsfreeze_operation_timeout_secs, None);
    assert_eq!(config.agent.fsfreeze_operation_timeout_secs(), 60);
    assert_eq!(config.rate_limits.ping_sync_per_min, 120);
    assert_eq!(config.rate_limits.get_commands_per_min, 30);
    assert_eq!(config.rate_limits.fsfreeze_freeze_per_min, 10);
    assert_eq!(config.rate_limits.fstrim_per_min, 5);
    assert_eq!(config.rate_limits.shutdown_per_min, 2);
    assert!(!config.features.suspend_ram);
    assert!(config.features.fstrim);
    assert!(config.features.seccomp);
    assert_eq!(parse("[agent]\nconfig_version = 1\n").unwrap(), config);
}

#[test]
fn partial_sections_keep_other_defaults() {
    let config = parse("[rate_limits]\nfstrim_per_min = 7\n").unwrap();
    assert_eq!(config.rate_limits.fstrim_per_min, 7);
    assert_eq!(config.rate_limits.ping_sync_per_min, 120);
    assert_eq!(config.agent, AgentConfig::default());
}

#[test]
fn unknown_key_is_an_error() {
    let err = parse("[agent]\nchanel_path = \"/dev/x\"\n").unwrap_err();
    let msg = err.message();
    assert!(matches!(err, ConfigError::Parse { .. }), "{msg}");
    assert!(msg.contains("chanel_path"), "must name the key: {msg}");
    // Unknown sections too.
    let err = parse("[agnet]\nconfig_version = 1\n").unwrap_err();
    assert!(err.message().contains("agnet"), "{err:?}");
}

#[test]
fn unknown_log_level_is_an_error() {
    let err = parse("[agent]\nlog_level = \"loud\"\n").unwrap_err();
    assert!(matches!(err, ConfigError::Parse { .. }), "{err:?}");
    assert!(err.message().contains("log_level"), "{err:?}");
    for (name, level) in [
        ("trace", LogLevel::Trace),
        ("debug", LogLevel::Debug),
        ("info", LogLevel::Info),
        ("warn", LogLevel::Warn),
        ("error", LogLevel::Error),
    ] {
        let config = parse(&format!("[agent]\nlog_level = \"{name}\"\n")).unwrap();
        assert_eq!(config.agent.log_level, level);
        assert_eq!(level.as_str(), name);
    }
    // Case matters: "INFO" is not accepted.
    assert!(parse("[agent]\nlog_level = \"INFO\"\n").is_err());
}

#[test]
fn config_version_other_than_1_is_an_error() {
    let err = parse("[agent]\nconfig_version = 2\n").unwrap_err();
    assert!(
        matches!(
            err,
            ConfigError::Invalid {
                key: "agent.config_version",
                ..
            }
        ),
        "{err:?}"
    );
    assert!(err.message().contains("agent.config_version"), "{err:?}");
    let err = parse("[agent]\nconfig_version = \"1\"\n").unwrap_err();
    assert!(matches!(err, ConfigError::Parse { .. }), "{err:?}");
}

#[test]
fn relative_state_path_is_an_error() {
    let err = parse("[agent]\nstate_path = \"run/frozen\"\n").unwrap_err();
    assert!(
        matches!(
            err,
            ConfigError::Invalid {
                key: "agent.state_path",
                ..
            }
        ),
        "{err:?}"
    );
}

#[test]
fn timeouts_above_the_cap_are_an_error() {
    // The watchdog adds these to an instant; a value near the top of the range
    // would overflow there, at the moment the freeze succeeds.
    let err = parse("[agent]\nfsfreeze_max_timeout_secs = 9223372036854775807\n").unwrap_err();
    assert!(
        matches!(
            err,
            ConfigError::Invalid {
                key: "agent.fsfreeze_max_timeout_secs",
                ..
            }
        ),
        "{err:?}"
    );
    assert!(err.message().contains("86400"), "{err:?}");
    let mut config = Config::default();
    config.agent.fsfreeze_idle_timeout_secs = MAX_FSFREEZE_TIMEOUT_SECS + 1;
    config.agent.fsfreeze_max_timeout_secs = MAX_FSFREEZE_TIMEOUT_SECS + 1;
    let err = config.validate().unwrap_err();
    assert!(
        matches!(
            err,
            ConfigError::Invalid {
                key: "agent.fsfreeze_idle_timeout_secs",
                ..
            }
        ),
        "{err:?}"
    );
    config.agent.fsfreeze_idle_timeout_secs = MAX_FSFREEZE_TIMEOUT_SECS;
    config.agent.fsfreeze_max_timeout_secs = MAX_FSFREEZE_TIMEOUT_SECS;
    config.validate().unwrap();
}

#[test]
fn idle_timeout_zero_is_an_error() {
    let err = parse("[agent]\nfsfreeze_idle_timeout_secs = 0\n").unwrap_err();
    assert!(
        matches!(
            err,
            ConfigError::Invalid {
                key: "agent.fsfreeze_idle_timeout_secs",
                ..
            }
        ),
        "{err:?}"
    );
}

#[test]
fn operation_timeout_is_bounded_by_the_hard_cap_and_positive() {
    // The freeze operation deadline must be positive, at most a day, and at
    // most the hard cap, which keeps the service manager's stop timeout
    // coupled to one figure.
    let err = parse("[agent]\nfsfreeze_operation_timeout_secs = 301\n").unwrap_err();
    assert!(
        matches!(
            &err,
            ConfigError::Invalid { key, .. } if *key == "agent.fsfreeze_operation_timeout_secs"
        ),
        "{err:?}"
    );
    assert!(
        err.message()
            .contains("must be at most fsfreeze_max_timeout_secs (300)"),
        "{err:?}"
    );
    let mut config = Config::default();
    config.agent.fsfreeze_operation_timeout_secs = Some(0);
    let err = config.validate().unwrap_err();
    assert!(err.message().contains("greater than zero"), "{err:?}");
    config.agent.fsfreeze_operation_timeout_secs = Some(MAX_FSFREEZE_TIMEOUT_SECS + 1);
    config.agent.fsfreeze_max_timeout_secs = MAX_FSFREEZE_TIMEOUT_SECS;
    let err = config.validate().unwrap_err();
    assert!(err.message().contains("one day"), "{err:?}");
    // Equal to the hard cap is allowed.
    let config = parse(
        "[agent]\nfsfreeze_idle_timeout_secs = 10\nfsfreeze_max_timeout_secs = 10\nfsfreeze_operation_timeout_secs = 10\n",
    )
    .unwrap();
    assert_eq!(config.agent.fsfreeze_operation_timeout_secs, Some(10));
    assert_eq!(config.agent.fsfreeze_operation_timeout_secs(), 10);
}

#[test]
fn an_omitted_operation_timeout_is_derived_under_the_hard_cap() {
    // A configuration written before the key existed, with a short cap, keeps
    // starting: the effective deadline is min(60, cap).
    let config =
        parse("[agent]\nfsfreeze_idle_timeout_secs = 2\nfsfreeze_max_timeout_secs = 5\n").unwrap();
    assert_eq!(config.agent.fsfreeze_max_timeout_secs, 5);
    assert_eq!(config.agent.fsfreeze_operation_timeout_secs, None);
    assert_eq!(config.agent.fsfreeze_operation_timeout_secs(), 5);
    // A cap above the default leaves the default.
    let config = parse("[agent]\nfsfreeze_max_timeout_secs = 600\n").unwrap();
    assert_eq!(config.agent.fsfreeze_operation_timeout_secs(), 60);
    // An explicit value is never clamped: above the cap is an error.
    let err = parse(
        "[agent]\nfsfreeze_idle_timeout_secs = 2\nfsfreeze_max_timeout_secs = 5\nfsfreeze_operation_timeout_secs = 6\n",
    )
    .unwrap_err();
    assert!(
        err.message()
            .contains("at most fsfreeze_max_timeout_secs (5)"),
        "{err:?}"
    );
    // And a valid explicit value under a short cap is kept as given.
    let config = parse(
        "[agent]\nfsfreeze_idle_timeout_secs = 2\nfsfreeze_max_timeout_secs = 5\nfsfreeze_operation_timeout_secs = 3\n",
    )
    .unwrap();
    assert_eq!(config.agent.fsfreeze_operation_timeout_secs(), 3);
}

#[test]
fn max_timeout_below_idle_is_an_error() {
    let err = parse("[agent]\nfsfreeze_idle_timeout_secs = 60\nfsfreeze_max_timeout_secs = 59\n")
        .unwrap_err();
    assert!(
        matches!(
            err,
            ConfigError::Invalid {
                key: "agent.fsfreeze_max_timeout_secs",
                ..
            }
        ),
        "{err:?}"
    );
    // Equal is allowed.
    let config = parse("[agent]\nfsfreeze_idle_timeout_secs = 60\nfsfreeze_max_timeout_secs = 60\n")
        .unwrap();
    assert_eq!(config.agent.fsfreeze_max_timeout_secs, 60);
}

#[test]
fn zero_quota_is_an_error() {
    let err = parse("[rate_limits]\nfstrim_per_min = 0\n").unwrap_err();
    assert!(
        matches!(
            err,
            ConfigError::Invalid {
                key: "rate_limits.fstrim_per_min",
                ..
            }
        ),
        "{err:?}"
    );
    for key in [
        "ping_sync_per_min",
        "get_commands_per_min",
        "fsfreeze_freeze_per_min",
        "fstrim_per_min",
        "shutdown_per_min",
    ] {
        let err = parse(&format!("[rate_limits]\n{key} = 0\n")).unwrap_err();
        assert!(err.message().contains(key), "{err:?}");
    }
    // Negative quotas are a type error at parse time.
    assert!(parse("[rate_limits]\nfstrim_per_min = -1\n").is_err());
}

#[test]
fn runtime_feature_without_compile_feature_is_a_warning_not_an_error() {
    let config =
        parse("[features]\nseccomp = true\nsuspend_ram = true\nfstrim = true\n").unwrap();
    for seccomp in [false, true] {
        for suspend_ram in [false, true] {
            let warnings = config.warnings(Build {
                seccomp,
                suspend_ram,
            });
            assert_eq!(
                warnings.iter().any(|w| w.contains("seccomp")),
                !seccomp,
                "{warnings:?}"
            );
            assert_eq!(
                warnings.iter().any(|w| w.contains("suspend_ram")),
                !suspend_ram,
                "{warnings:?}"
            );
            assert!(!warnings.iter().any(|w| w.contains("fstrim")));
        }
    }
    // Switches that are off never warn.
    let off = parse("[features]\nseccomp = false\nsuspend_ram = false\n").unwrap();
    assert!(off.warnings(NOTHING).is_empty());
}

#[test]
fn effective_flags_combine_both_layers() {
    let on = parse("[features]\nseccomp = true\nsuspend_ram = true\nfstrim = true\n").unwrap();
    assert!(on.fstrim_enabled());
    assert!(on.suspend_ram_enabled(EVERYTHING));
    assert!(!on.suspend_ram_enabled(NOTHING));
    assert!(on.seccomp_enabled(EVERYTHING));
    assert!(!on.seccomp_enabled(NOTHING));
    let off =
        parse("[features]\nseccomp = false\nsuspend_ram = false\nfstrim = false\n").unwrap();
    assert!(!off.fstrim_enabled());
    assert!(!off.suspend_ram_enabled(EVERYTHING));
    assert!(!off.seccomp_enabled(EVERYTHING));
}

#[test]
fn load_reports_path_in_error() {
    let err = Config::load("/tmp/missing.toml", Err("No such file".to_owned())).unwrap_err();
    assert!(matches!(err, ConfigError::Io { .. }), "{err:?}");
    assert!(err.message().contains("missing.toml"), "{err:?}");

    let err = Config::load(
        "/tmp/bad.toml",
        Ok(read("[agent]\nfsfreeze_idle_timeout_secs = 0\n")),
    )
    .unwrap_err();
    let msg = err.message();
    assert!(msg.contains("bad.toml"), "{msg}");
    assert!(msg.contains("agent.fsfreeze_idle_timeout_secs"), "{msg}");

    let err = Config::load("/tmp/unparsable.toml", Ok(read("[agent\n"))).unwrap_err();
    assert!(
        matches!(err, ConfigError::Parse { path: Some(_), .. }),
        "{err:?}"
    );
    assert!(err.message().contains("unparsable.toml"), "{err:?}");

    assert_eq!(
        Config::load("/tmp/good.toml", Ok(read(DESIGN_EXAMPLE))).unwrap(),
        Config::default()
    );
}

#[test]
fn log_level_maps_to_tracing() {
    let as_tracing = |level: LogLevel| level.as_str().parse::<tracing::Level>().unwrap();
    assert_eq!(as_tracing(LogLevel::Trace), tracing::Level::TRACE);
    assert_eq!(as_tracing(LogLevel::Error), tracing::Level::ERROR);
    assert_eq!(as_tracing(LogLevel::Info), tracing::Level::INFO);
}
