use qeminga::channel::OpenError;
use qeminga::config::{Config, ConfigError, Hardening};
use qeminga::daemon::startup::{Startup, Step};
use qeminga::daemon::{BuildProfile, PrivilegeError, RunError};
use qeminga::marker::MarkerError;
use qeminga::mountinfo::parse_mountinfo;
use qeminga::state::FreezeState;

const ENFORCING: BuildProfile = BuildProfile {
    seccomp_compiled: true,
    seccomp_mode: "enforce",
    fake_kernel_requested: false,
};

const TABLE: &[u8] = b"27 1 8:1 / / rw - ext4 /dev/sda1 rw\n\
    28 27 0:30 / /run rw - tmpfs tmpfs rw\n";

fn development() -> Config {
    let mut config = Config::default();
    config.agent.hardening = Hardening::UnenforcedDevelopmentOnly;
    config
}

/// A startup that has come as far as the mount table.
fn at_mounts(config: Config, marker: bool, dev: (u32, u32)) -> Startup {
    let mut startup = Startup::new();
    assert_eq!(startup.step(), Step::Configure);
    startup.configured(Ok(config), &ENFORCING).unwrap();
    assert_eq!(startup.step(), Step::OpenMarker);
    startup.marker_opened(Ok((marker, dev))).unwrap();
    assert_eq!(startup.step(), Step::StartLogging);
    startup.logging_started(Ok(())).unwrap();
    assert_eq!(startup.step(), Step::ReadMounts);
    startup
}

fn at_channel(config: Config) -> Startup {
    let mut startup = at_mounts(config, false, (0, 30));
    startup.mounts_read(Ok(parse_mountinfo(TABLE))).unwrap();
    assert_eq!(startup.step(), Step::OpenChannel);
    startup
}

fn at_privileges(config: Config) -> Startup {
    let mut startup = at_channel(config);
    startup.channel_tried(Ok(())).unwrap();
    assert_eq!(startup.step(), Step::DropPrivileges);
    startup
}

fn at_filter(config: Config) -> Startup {
    let mut startup = at_privileges(config);
    startup.privileges_dropped(Ok(true)).unwrap();
    assert_eq!(startup.step(), Step::StartWriter);
    startup.writer_started(Ok(())).unwrap();
    assert_eq!(startup.step(), Step::InstallFilter);
    startup
}

#[test]
fn every_step_taken_leads_to_serving() {
    let mut startup = at_filter(Config::default());
    startup.filter_installed(Ok(true)).unwrap();
    assert_eq!(startup.step(), Step::Serve);
    assert!(!startup.recovery());
    assert_eq!(startup.initial_state().current(), FreezeState::Thawed);
}

#[test]
fn a_marker_starts_the_state_frozen() {
    let startup = at_mounts(Config::default(), true, (0, 30));
    assert!(startup.recovery());
    assert_eq!(startup.initial_state().current(), FreezeState::Frozen);
}

#[test]
fn a_configuration_that_cannot_be_enforced_is_refused_before_the_marker() {
    let mut startup = Startup::new();
    let build = BuildProfile {
        seccomp_compiled: false,
        ..ENFORCING
    };
    let err = startup
        .configured(Ok(Config::default()), &build)
        .unwrap_err();
    assert!(matches!(err, RunError::Hardening(_)), "{err:?}");
    assert_eq!(startup.step(), Step::Leave);
    let mut startup = Startup::new();
    let err = startup
        .configured(
            Err(ConfigError::Parse {
                path: None,
                message: "x".to_owned(),
            }),
            &ENFORCING,
        )
        .unwrap_err();
    assert!(matches!(err, RunError::Config(_)), "{err:?}");
    assert_eq!(startup.step(), Step::Leave);
}

#[test]
fn a_marker_on_a_filesystem_the_plan_would_freeze_is_refused() {
    let mut startup = at_mounts(Config::default(), false, (8, 1));
    let err = startup
        .mounts_read(Ok(parse_mountinfo(TABLE)))
        .unwrap_err();
    assert_eq!(
        err,
        RunError::StatePath {
            path: "/run/qeminga/frozen".to_owned(),
            mount: b"/".to_vec(),
            dev: (8, 1),
        }
    );
    assert_eq!(startup.step(), Step::Leave);
    let mut startup = at_mounts(Config::default(), false, (8, 1));
    let err = startup.mounts_read(Err("EACCES".to_owned())).unwrap_err();
    assert_eq!(err, RunError::MountTable("EACCES".to_owned()));
}

#[test]
fn a_step_that_fails_is_left_with_its_error() {
    let mut startup = Startup::new();
    startup.configured(Ok(development()), &ENFORCING).unwrap();
    let err = startup
        .marker_opened(Err(MarkerError::InvalidPath {
            path: b"/".to_vec(),
        }))
        .unwrap_err();
    assert!(matches!(err, RunError::Marker(_)), "{err:?}");
    assert_eq!(startup.step(), Step::Leave);

    let mut startup = Startup::new();
    startup.configured(Ok(development()), &ENFORCING).unwrap();
    startup.marker_opened(Ok((false, (0, 30)))).unwrap();
    let err = startup.logging_started(Err("twice".to_owned())).unwrap_err();
    assert_eq!(err, RunError::Runtime("twice".to_owned()));

    let mut startup = at_privileges(development());
    let err = startup
        .privileges_dropped(Err(PrivilegeError::UnknownUser("qeminga".to_owned())))
        .unwrap_err();
    assert!(matches!(err, RunError::Privileges(_)), "{err:?}");

    let mut startup = at_privileges(development());
    startup.privileges_dropped(Ok(true)).unwrap();
    let err = startup.writer_started(Err("EAGAIN".to_owned())).unwrap_err();
    assert_eq!(
        err,
        RunError::Runtime("cannot start the audit writer: EAGAIN".to_owned())
    );
}

#[test]
fn a_port_held_elsewhere_is_terminal_and_a_missing_one_is_not() {
    let mut startup = at_channel(Config::default());
    let err = startup
        .channel_tried(Err(OpenError::AlreadyOpen {
            path: "/dev/x".to_owned(),
        }))
        .unwrap_err();
    assert!(matches!(err, RunError::Channel(_)), "{err:?}");
    assert_eq!(startup.step(), Step::Leave);
    let mut startup = at_channel(Config::default());
    startup
        .channel_tried(Err(OpenError::NotFound {
            path: "/dev/x".to_owned(),
        }))
        .unwrap();
    assert_eq!(startup.step(), Step::DropPrivileges);
}

#[test]
fn enforced_hardening_serves_only_inside_its_sandbox() {
    let mut startup = at_privileges(Config::default());
    let err = startup.privileges_dropped(Ok(false)).unwrap_err();
    assert!(matches!(err, RunError::Hardening(_)), "{err:?}");
    let mut startup = at_filter(Config::default());
    let err = startup.filter_installed(Ok(false)).unwrap_err();
    assert_eq!(
        err,
        RunError::Hardening("the seccomp filter was not installed".to_owned())
    );
    assert_eq!(startup.step(), Step::Leave);
    let mut startup = at_filter(Config::default());
    let err = startup
        .filter_installed(Err(RunError::Seccomp("EINVAL".to_owned())))
        .unwrap_err();
    assert_eq!(
        err,
        RunError::Hardening("the seccomp filter could not be installed: EINVAL".to_owned())
    );
    // Development hosts go on without it.
    let mut startup = at_privileges(development());
    startup.privileges_dropped(Ok(false)).unwrap();
    startup.writer_started(Ok(())).unwrap();
    startup
        .filter_installed(Err(RunError::Seccomp("EINVAL".to_owned())))
        .unwrap();
    assert_eq!(startup.step(), Step::Serve);
}
