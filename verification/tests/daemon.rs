use qeminga::channel::OpenError;
use qeminga::config::{Config, ConfigError, Hardening};
use qeminga::daemon::{
    check_hardening, parse_args, BuildProfile, Options, PrivilegeError, RunError, EX_CONFIG,
    EX_NOPERM, EX_OSERR, EX_UNAVAILABLE, RUNTIME_SHUTDOWN_GRACE_SECS,
};
use qeminga::marker::MarkerError;

fn args(list: &[&str]) -> Vec<Vec<u8>> {
    list.iter().map(|arg| arg.as_bytes().to_vec()).collect()
}

#[test]
fn parse_args_handles_config_and_version() {
    assert_eq!(parse_args(&args(&[])).unwrap(), Options::default());
    assert!(parse_args(&args(&["--version"])).unwrap().version);
    assert!(parse_args(&args(&["-V"])).unwrap().version);
    assert_eq!(
        parse_args(&args(&["--config", "/x.toml"]))
            .unwrap()
            .config_path,
        b"/x.toml"
    );
    assert_eq!(
        parse_args(&args(&["--config=/y.toml"]))
            .unwrap()
            .config_path,
        b"/y.toml"
    );
    assert!(parse_args(&args(&["--config"])).is_err());
    assert!(parse_args(&args(&["--config="])).is_err());
    assert!(parse_args(&args(&["--bogus"])).is_err());
    assert!(parse_args(&args(&["extra"])).is_err());
    assert!(parse_args(&args(&["--\u{fffd}"])).is_err());
    // A non-UTF-8 path in the `--config=` form (bytes preserved).
    let raw = b"--config=/etc/q\xff.toml".to_vec();
    assert_eq!(
        parse_args(&[raw]).unwrap().config_path,
        b"/etc/q\xff.toml"
    );
    assert_eq!(
        parse_args(&args(&["--bogus"])).unwrap_err().0,
        "unrecognised argument: --bogus"
    );
}

#[test]
fn an_argument_that_is_no_text_is_named_as_well_as_it_can_be() {
    assert_eq!(
        parse_args(&[b"--q\xff".to_vec()]).unwrap_err().0,
        "unrecognised argument: --q\u{fffd}"
    );
}

#[test]
fn run_errors_map_to_sysexits_codes() {
    assert_eq!(
        RunError::Config(ConfigError::Parse {
            path: None,
            message: "x".into()
        })
        .exit_code(),
        EX_CONFIG
    );
    assert_eq!(
        RunError::StatePath {
            path: "/x".into(),
            mount: "/".into(),
            dev: (8, 1)
        }
        .exit_code(),
        EX_CONFIG
    );
    assert_eq!(
        RunError::Channel(OpenError::AlreadyOpen {
            path: "/dev/x".into()
        })
        .exit_code(),
        EX_UNAVAILABLE
    );
    assert_eq!(
        RunError::Privileges(PrivilegeError::UnknownUser("q".into())).exit_code(),
        EX_NOPERM
    );
    assert_eq!(RunError::Seccomp("x".into()).exit_code(), EX_OSERR);
    assert_eq!(RunError::Runtime("x".into()).exit_code(), EX_OSERR);
    assert_eq!(
        RunError::Marker(MarkerError::InvalidPath { path: "/".into() }).exit_code(),
        EX_CONFIG
    );
    assert_eq!(RunError::MountTable("x".into()).exit_code(), EX_CONFIG);
}

#[test]
fn the_runtime_gets_a_second_to_finish() {
    assert!(RUNTIME_SHUTDOWN_GRACE_SECS >= 1);
}

#[test]
fn enforced_hardening_refuses_what_cannot_be_enforced() {
    let good = BuildProfile {
        seccomp_compiled: true,
        seccomp_mode: "enforce",
        fake_kernel_requested: false,
    };
    let mut config = Config::default();
    assert_eq!(check_hardening(&config, &good), Ok(()));
    let refused = |config: &Config, build: &BuildProfile| match check_hardening(config, build) {
        Err(RunError::Hardening(why)) => why,
        other => panic!("{other:?}"),
    };
    assert_eq!(
        refused(
            &config,
            &BuildProfile {
                seccomp_compiled: false,
                ..good
            }
        ),
        "this binary was built without the `seccomp` Cargo feature"
    );
    assert_eq!(
        refused(
            &config,
            &BuildProfile {
                seccomp_mode: "log",
                ..good
            }
        ),
        "this binary's seccomp filter would only log (a `seccomp-log` debug build)"
    );
    assert!(refused(
        &config,
        &BuildProfile {
            fake_kernel_requested: true,
            ..good
        }
    )
    .starts_with("QEMINGA_TEST_FAKE_KERNEL is set"));
    config.features.seccomp = false;
    assert_eq!(
        refused(&config, &good),
        "the seccomp filter is disabled ([features] seccomp = false)"
    );
    // Development hosts go on without it.
    config.agent.hardening = Hardening::UnenforcedDevelopmentOnly;
    assert_eq!(
        check_hardening(
            &config,
            &BuildProfile {
                seccomp_compiled: false,
                ..good
            }
        ),
        Ok(())
    );
}
