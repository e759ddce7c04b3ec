use qeminga::config::{Build, Config};
use qeminga::handlers::info::{agent_info, handle as info_reply};
use qeminga::handlers::shutdown::{
    calls, handle as shutdown_reply, reboot_command, KernelCall, ShutdownArgs, ShutdownMode,
    ShutdownOutcome,
};
use qeminga::handlers::suspend::{
    cannot_read, cannot_write, handle as suspend_reply, may_enter, supports_mem, MEM,
};
use qeminga::handlers::sync::{sync, sync_delimited, SyncArgs};
use qeminga::handlers::{bounded_reply, ping, SUPPORTED_COMMANDS};
use qeminga::json::{string, to_text, Json};
use qeminga::kernel::{KernelError, RebootCommand, EPERM};
use qeminga::proto::{Error, ErrorClass, Response, MAX_RESPONSE_ENVELOPE_BYTES};
use serde_json::Value;

const NOTHING: Build = Build {
    seccomp: false,
    suspend_ram: false,
};

const EVERYTHING: Build = Build {
    seccomp: true,
    suspend_ram: true,
};

fn json(value: &Json) -> Value {
    serde_json::from_str(&to_text(value)).unwrap()
}

fn info(config: &Config, build: Build) -> Value {
    json(&info_reply(&agent_info(config, build)))
}

fn entries(value: &Value) -> &Vec<Value> {
    value["supported_commands"].as_array().unwrap()
}

fn entry<'a>(value: &'a Value, name: &str) -> &'a Value {
    entries(value)
        .iter()
        .find(|e| e["name"] == name)
        .unwrap_or_else(|| panic!("{name} missing"))
}

#[test]
fn the_reply_bound_covers_the_whole_line_envelope_included() {
    // A value that fills the bound with the longest envelope is answered and
    // the line the dispatcher sends is exactly the bound; one byte more of
    // value is refused, naming the size on the wire.
    const BOUND: usize = 1024;
    let value_of = |n: usize| string(&"x".repeat(n - 2));
    let fits = value_of(BOUND - MAX_RESPONSE_ENVELOPE_BYTES);
    let reply = bounded_reply("test", fits, BOUND).unwrap();
    let mut line = Response::Success {
        ret: reply,
        id: Some(i64::MIN),
    }
    .to_json();
    line.push(b'\n');
    assert_eq!(line.len(), BOUND);
    let over = value_of(BOUND - MAX_RESPONSE_ENVELOPE_BYTES + 1);
    let text = bounded_reply("test", over, BOUND).unwrap_err().message();
    assert!(
        text.contains(&format!("{} bytes on the wire", BOUND + 1))
            && text.contains("over the 1024 byte bound")
            && text.contains("not truncated"),
        "{text}"
    );
}

#[test]
fn the_ping_reply_is_an_empty_object() {
    assert_eq!(to_text(&ping::handle()), "{}");
}

#[test]
fn sync_echoes_id_argument() {
    assert_eq!(sync(SyncArgs { id: 123 }), Json::Int(123));
    assert_eq!(sync_delimited(SyncArgs { id: 5 }), Json::Int(5));
}

#[test]
fn sync_id_is_i64_range() {
    for id in [i64::MAX, i64::MIN, -1, 0] {
        assert_eq!(to_text(&sync(SyncArgs { id })), id.to_string());
    }
}

#[test]
fn info_returns_version_and_supported_commands() {
    let value = info(&Config::default(), NOTHING);
    assert_eq!(value["version"], qeminga::VERSION);
    assert!(
        value.get("supported_commands").is_some(),
        "underscore spelling"
    );
    assert!(value.get("supported-commands").is_none());
    assert_eq!(value.as_object().unwrap().len(), 2);
}

#[test]
fn each_listed_command_appears_exactly_once() {
    let value = info(&Config::default(), NOTHING);
    let mut names: Vec<&str> = entries(&value)
        .iter()
        .map(|e| e["name"].as_str().unwrap())
        .collect();
    assert_eq!(names.len(), SUPPORTED_COMMANDS.len());
    names.sort_unstable();
    names.dedup();
    assert_eq!(names.len(), SUPPORTED_COMMANDS.len());
    for name in SUPPORTED_COMMANDS {
        assert!(names.contains(&name), "{name}");
    }
}

#[test]
fn entries_have_name_enabled_success_response() {
    let value = info(&Config::default(), NOTHING);
    for e in entries(&value) {
        let obj = e.as_object().unwrap();
        let mut keys: Vec<&str> = obj.keys().map(String::as_str).collect();
        keys.sort_unstable();
        assert_eq!(keys, ["enabled", "name", "success-response"], "{e}");
        assert!(e["name"].is_string());
        assert!(e["enabled"].is_boolean());
        assert!(e["success-response"].is_boolean());
    }
}

#[test]
fn shutdown_and_suspend_ram_are_the_only_success_response_false() {
    let value = info(&Config::default(), NOTHING);
    let no_reply: Vec<&str> = entries(&value)
        .iter()
        .filter(|e| e["success-response"] == false)
        .map(|e| e["name"].as_str().unwrap())
        .collect();
    assert_eq!(no_reply, ["guest-shutdown", "guest-suspend-ram"]);
}

#[test]
fn suspend_ram_listed_disabled_when_feature_absent_or_runtime_off() {
    // Runtime off (default): listed, disabled, regardless of the build.
    for build in [NOTHING, EVERYTHING] {
        let value = info(&Config::default(), build);
        assert_eq!(entry(&value, "guest-suspend-ram")["enabled"], false);
    }
    // Runtime on: enabled only when compiled in.
    let mut config = Config::default();
    config.features.suspend_ram = true;
    assert_eq!(
        entry(&info(&config, EVERYTHING), "guest-suspend-ram")["enabled"],
        true
    );
    assert_eq!(
        entry(&info(&config, NOTHING), "guest-suspend-ram")["enabled"],
        false
    );
}

#[test]
fn fstrim_listed_disabled_when_runtime_off() {
    let value = info(&Config::default(), NOTHING);
    assert_eq!(entry(&value, "guest-fstrim")["enabled"], true);
    let mut config = Config::default();
    config.features.fstrim = false;
    let value = info(&config, NOTHING);
    let fstrim = entry(&value, "guest-fstrim");
    assert_eq!(fstrim["enabled"], false);
    assert_eq!(fstrim["success-response"], true);
    // Everything else stays enabled.
    for e in entries(&value) {
        if e["name"] != "guest-fstrim" && e["name"] != "guest-suspend-ram" {
            assert_eq!(e["enabled"], true, "{e}");
        }
    }
}

#[test]
fn default_mode_is_powerdown() {
    assert_eq!(
        calls(ShutdownArgs { mode: None }),
        vec![
            KernelCall::Sync,
            KernelCall::Reboot(RebootCommand::PowerOff)
        ]
    );
    for (mode, cmd) in [
        (ShutdownMode::Halt, RebootCommand::Halt),
        (ShutdownMode::Reboot, RebootCommand::Restart),
        (ShutdownMode::Powerdown, RebootCommand::PowerOff),
    ] {
        assert_eq!(
            calls(ShutdownArgs { mode: Some(mode) }),
            vec![KernelCall::Sync, KernelCall::Reboot(cmd)],
            "{mode:?}"
        );
    }
    assert_eq!(reboot_command(ShutdownMode::Halt), RebootCommand::Halt);
}

#[test]
fn reboot_failure_is_reported_as_generic_error() {
    let err = shutdown_reply(ShutdownOutcome::Refused(KernelError::Errno(EPERM))).unwrap_err();
    assert_eq!(err.class(), ErrorClass::GenericError);
    assert!(err.message().contains("EPERM"), "{err:?}");
    let err = shutdown_reply(ShutdownOutcome::Lost("cancelled".to_owned())).unwrap_err();
    assert!(err.message().contains("cancelled"), "{err:?}");
    assert_eq!(
        to_text(&shutdown_reply(ShutdownOutcome::Done).unwrap()),
        "{}"
    );
}

#[test]
fn supports_mem_parses_the_state_list() {
    assert!(supports_mem("freeze mem disk\n"));
    assert!(supports_mem("mem"));
    assert!(!supports_mem("freeze disk\n"));
    assert!(!supports_mem("memory"));
    assert!(!supports_mem(""));
}

#[test]
fn writes_mem_to_sys_power_state_when_supported() {
    assert_eq!(MEM, "mem");
    assert_eq!(may_enter(Ok("freeze mem disk\n".to_owned())), Ok(()));
    assert_eq!(to_text(&suspend_reply(Ok(())).unwrap()), "{}");
}

#[test]
fn unsupported_state_file_is_generic_error() {
    let err = may_enter(Ok("freeze disk\n".to_owned())).unwrap_err();
    assert_eq!(err.class(), ErrorClass::GenericError);
    assert!(err.message().contains("not supported"), "{err:?}");
    // What could not be read or written is passed on.
    let err = may_enter(Err(cannot_read("ENOENT"))).unwrap_err();
    assert_eq!(
        err,
        Error::Internal("cannot read /sys/power/state: ENOENT".to_owned())
    );
    let err = suspend_reply(Err(cannot_write("EBUSY"))).unwrap_err();
    assert_eq!(err.message(), "cannot write /sys/power/state: EBUSY");
}

#[test]
fn denied_commands_are_absent() {
    let value = info(&Config::default(), NOTHING);
    for name in [
        "guest-exec",
        "guest-exec-status",
        "guest-file-open",
        "guest-file-read",
        "guest-file-write",
        "guest-file-close",
        "guest-file-seek",
        "guest-file-flush",
        "guest-set-user-password",
        "guest-ssh-add-authorized-keys",
        "guest-ssh-remove-authorized-keys",
        "guest-ssh-get-authorized-keys",
        "guest-set-time",
        "guest-set-vcpus",
        "guest-set-memory-blocks",
        "guest-suspend-disk",
        "guest-suspend-hybrid",
        "guest-get-users",
        "guest-get-host-name",
        "guest-get-time",
        "guest-get-timezone",
        "guest-get-devices",
        "guest-get-disks",
        "guest-get-diskstats",
        "guest-get-cpustats",
        "guest-get-load",
        "guest-get-vcpus",
        "guest-get-memory-blocks",
        "guest-get-memory-block-info",
        "guest-network-get-route",
    ] {
        assert!(
            !entries(&value).iter().any(|e| e["name"] == name),
            "{name} must not be advertised"
        );
    }
}

#[test]
fn sync_is_called_before_reboot() {
    let args = ShutdownArgs {
        mode: Some(ShutdownMode::Reboot),
    };
    assert_eq!(
        calls(args),
        vec![KernelCall::Sync, KernelCall::Reboot(RebootCommand::Restart)]
    );
}
