use qeminga::audit::{AuditRecord, Disposition, MethodField};
use qeminga::channel::Kind;
use qeminga::config::{Build, Config};
use qeminga::dispatch::ratelimit::CommandClass;
use qeminga::dispatch::{
    classify, finish, is_allowlisted, is_frozen_safe, lane, reason, Action, Command, Context,
    Dispatcher, Frame, ThawScope,
};
use qeminga::handlers::{ping, spec_of, sync, SUPPORTED_COMMANDS};
use qeminga::json::Json;
use qeminga::kernel::Mount;
use qeminga::proto::{Error, Request};
use qeminga::state::{FreezeState, FreezeStateMachine};
use serde_json::Value;

/// Commands that exist elsewhere and are refused here.
const DENIED: &[&str] = &[
    "guest-exec",
    "guest-exec-status",
    "guest-file-open",
    "guest-file-read",
    "guest-file-write",
    "guest-file-close",
    "guest-file-seek",
    "guest-file-flush",
    "guest-set-user-password",
    "guest-ssh-add-authorized-keys",
    "guest-ssh-remove-authorized-keys",
    "guest-ssh-get-authorized-keys",
    "guest-set-time",
    "guest-set-vcpus",
    "guest-set-memory-blocks",
    "guest-suspend-disk",
    "guest-suspend-hybrid",
    "guest-get-users",
    "guest-get-host-name",
    "guest-get-time",
    "guest-get-timezone",
    "guest-get-devices",
    "guest-get-disks",
    "guest-get-diskstats",
    "guest-get-cpustats",
    "guest-get-load",
    "guest-get-vcpus",
    "guest-get-memory-blocks",
    "guest-get-memory-block-info",
    "guest-network-get-route",
];

const NOTHING: Build = Build {
    seccomp: false,
    suspend_ram: false,
};

/// A frame as the parser would hand it over.
fn parsed(frame: &[u8]) -> (Frame, Value) {
    let invalid = |why: String| (Frame::Parsed(Err(Error::InvalidRequest(why))), Value::Null);
    let value: Value = match serde_json::from_slice(frame) {
        Ok(value) => value,
        Err(err) => return invalid(err.to_string()),
    };
    let Some(method) = value["execute"].as_str() else {
        return invalid("missing field `execute`".to_owned());
    };
    let id = match value.get("id") {
        None => None,
        Some(id) => match id.as_i64() {
            Some(id) => Some(id),
            None => return invalid("invalid id".to_owned()),
        },
    };
    let request = Request {
        method: method.to_owned(),
        id,
    };
    (Frame::Parsed(Ok(request)), value["arguments"].clone())
}

struct Harness {
    dispatcher: Dispatcher,
    ctx: Context,
    records: Vec<AuditRecord>,
    handler_calls: usize,
}

impl Harness {
    fn new(state: FreezeState, config: Config) -> Self {
        Harness {
            dispatcher: Dispatcher::new(&config),
            ctx: Context::new(config, NOTHING, FreezeStateMachine::starting_in(state)),
            records: Vec::new(),
            handler_calls: 0,
        }
    }

    fn thawed() -> Self {
        Self::new(FreezeState::Thawed, Config::default())
    }

    fn run(&mut self, command: Command, arguments: &Value) -> Result<Json, Error> {
        self.handler_calls += 1;
        let sync_args = || match arguments["id"].as_i64() {
            Some(id) => Ok(sync::SyncArgs { id }),
            None => Err(Error::InvalidArguments("missing field `id`".to_owned())),
        };
        match command {
            Command::Sync => sync_args().map(sync::sync),
            Command::SyncDelimited => sync_args().map(sync::sync_delimited),
            _ => Ok(ping::handle()),
        }
    }

    fn send(&mut self, frame: &[u8]) -> Option<Vec<u8>> {
        let (frame, arguments) = parsed(frame);
        let handling = self.dispatcher.handle(&frame, &self.ctx);
        self.records.push(handling.record);
        match handling.action {
            Action::Nothing => None,
            Action::Reply(bytes) => Some(bytes),
            Action::Run(command) => {
                let result = self.run(command, &arguments);
                let Frame::Parsed(Ok(request)) = frame else {
                    panic!("only a request runs");
                };
                finish(&request, result)
            }
        }
    }

    fn send_json(&mut self, frame: &[u8]) -> Value {
        let reply = self.send(frame).expect("expected a reply");
        assert_eq!(reply.last(), Some(&b'\n'));
        let body = reply.strip_prefix(&[0xFF]).unwrap_or(&reply);
        serde_json::from_slice(&body[..body.len() - 1]).unwrap()
    }

    fn execute(&mut self, method: &str) -> Value {
        self.send_json(format!(r#"{{"execute":"{method}"}}"#).as_bytes())
    }
}

fn value(text: &str) -> Value {
    serde_json::from_str(text).unwrap()
}

fn error_class(reply: &Value) -> &str {
    reply["error"]["class"].as_str().unwrap()
}

fn error_desc(reply: &Value) -> &str {
    reply["error"]["desc"].as_str().unwrap()
}

fn error_desc_opt(reply: &Value) -> Option<&str> {
    reply.get("error").and_then(|e| e["desc"].as_str())
}

#[test]
fn retiring_an_operation_never_clears_its_successor() {
    let mut ctx = Context::new(Config::default(), NOTHING, FreezeStateMachine::new());
    let (a, b) = (1, 2);
    ctx.set_freeze_op(Some(a));
    assert_eq!(ctx.freeze_op(), Some(a));
    // A's settlement overlaps B's admission: A's retirement is a no-op.
    ctx.set_freeze_op(Some(b));
    ctx.retire_freeze_op(a);
    assert_eq!(ctx.freeze_op(), Some(b));
    // Only B retires B; a repeated retirement is harmless.
    ctx.retire_freeze_op(b);
    assert!(ctx.freeze_op().is_none());
    ctx.retire_freeze_op(b);
    assert!(ctx.freeze_op().is_none());
}

#[test]
fn held_mounts_are_taken_once() {
    let mount = |handle: u64| Mount {
        handle,
        mountpoint: b"/".to_vec(),
        dev: (8, 1),
    };
    let mut ctx = Context::new(Config::default(), NOTHING, FreezeStateMachine::new());
    assert_eq!(ctx.thaw_scope(), ThawScope::Discovery);
    ctx.set_thaw_scope(ThawScope::Held);
    assert_eq!(ctx.thaw_scope(), ThawScope::Held);
    ctx.hold_frozen_mounts(vec![mount(1), mount(2)]);
    assert_eq!(ctx.frozen_mount_count(), 2);
    assert_eq!(ctx.take_frozen_mounts(), vec![mount(1), mount(2)]);
    assert_eq!(ctx.frozen_mount_count(), 0);
    assert_eq!(ctx.take_frozen_mounts(), vec![]);
}

#[test]
fn every_denied_command_in_design_table_returns_command_not_found() {
    let mut h = Harness::thawed();
    for method in DENIED {
        assert!(!is_allowlisted(method), "{method}");
        let reply = h.execute(method);
        assert_eq!(error_class(&reply), "CommandNotFound", "{method}");
        assert_eq!(
            error_desc(&reply),
            format!("The command {method} has not been found")
        );
    }
    assert_eq!(h.handler_calls, 0, "denied commands never reach a handler");
    assert_eq!(h.records.len(), DENIED.len());
    for record in &h.records {
        assert_eq!(record.disposition, Disposition::Denied);
        assert_eq!(record.reason, Some(reason::COMMAND_NOT_FOUND));
    }
}

#[test]
fn unknown_method_returns_command_not_found() {
    let mut h = Harness::thawed();
    for method in ["", "ping", "GUEST-PING", "guest-ping ", "guest-pingx"] {
        let reply = h.execute(method);
        assert_eq!(error_class(&reply), "CommandNotFound", "{method:?}");
    }
    // A method longer than 64 bytes is projected in the audit record.
    let long = "guest-".to_owned() + &"x".repeat(100);
    let reply = h.execute(&long);
    assert_eq!(error_class(&reply), "CommandNotFound");
    match &h.records.last().unwrap().method {
        MethodField::Projected {
            method_len_bytes, ..
        } => assert_eq!(*method_len_bytes, 106),
        other => panic!("{other:?}"),
    }
    assert_eq!(h.handler_calls, 0);
}

#[test]
fn ping_returns_empty_object() {
    let mut h = Harness::thawed();
    let reply = h.send(br#"{"execute":"guest-ping"}"#).unwrap();
    assert_eq!(reply, b"{\"return\":{}}\n");
    let reply = h.send_json(br#"{"execute":"guest-ping","id":9}"#);
    assert_eq!(reply, value(r#"{"return": {}, "id": 9}"#));
    assert_eq!(h.handler_calls, 2);
}

#[test]
fn frozen_gate_rejects_non_safe_commands_with_exact_desc() {
    for state in [
        FreezeState::Frozen,
        FreezeState::Freezing,
        FreezeState::Thawing,
    ] {
        let mut h = Harness::new(state, Config::default());
        for method in [
            "guest-get-osinfo",
            "guest-get-fsinfo",
            "guest-network-get-interfaces",
            "guest-fsfreeze-freeze",
            "guest-fsfreeze-freeze-list",
            "guest-fstrim",
            "guest-shutdown",
            "guest-suspend-ram",
        ] {
            let reply = h.execute(method);
            if method == "guest-suspend-ram" {
                // The runtime gate precedes the freeze gate.
                assert_eq!(error_class(&reply), "CommandNotFound", "{state:?} {method}");
                continue;
            }
            assert_eq!(error_class(&reply), "GenericError", "{state:?} {method}");
            assert_eq!(
                error_desc(&reply),
                "filesystems are frozen; retry after thaw",
                "{state:?} {method}"
            );
        }
        assert_eq!(h.handler_calls, 0, "{state:?}: no handler ran");
        assert!(!h.records.is_empty());
        for record in h
            .records
            .iter()
            .filter(|r| r.reason == Some(reason::FROZEN))
        {
            assert_eq!(record.disposition, Disposition::Denied);
            assert_eq!(record.freeze_state_before, state.as_str());
        }
    }
}

#[test]
fn lanes_follow_the_frozen_safe_set() {
    // The thaw and the two freezes have lanes of their own; the other
    // frozen-safe commands are controls; everything else, unknown methods
    // among them, is serial.
    for name in SUPPORTED_COMMANDS {
        let expected = match name {
            "guest-fsfreeze-thaw" => Kind::Thaw,
            "guest-fsfreeze-freeze" | "guest-fsfreeze-freeze-list" => Kind::Freeze,
            name if is_frozen_safe(name) => Kind::Control,
            _ => Kind::Ordinary,
        };
        assert_eq!(lane(name), expected, "{name}");
    }
    assert_eq!(lane("guest-exec"), Kind::Ordinary);
}

#[test]
fn classification_parses_without_side_effects() {
    let classified = |bytes: &[u8]| classify(&parsed(bytes).0);
    assert_eq!(
        classified(br#"{"execute":"guest-fsfreeze-status"}"#),
        Kind::Control
    );
    assert_eq!(
        classified(br#"{"execute":"guest-fsfreeze-thaw","id":1}"#),
        Kind::Thaw
    );
    assert_eq!(
        classified(br#"{"execute":"guest-fsfreeze-freeze-list"}"#),
        Kind::Freeze
    );
    assert_eq!(classified(br#"{"execute":"guest-fstrim"}"#), Kind::Ordinary);
    assert_eq!(classified(br#"{"execute":"guest-exec"}"#), Kind::Ordinary);
    // Answered without running anything: never in the way of a thaw.
    assert_eq!(classified(b"not json"), Kind::Control);
    assert_eq!(classify(&Frame::Oversized), Kind::Control);
}

#[test]
fn frozen_safe_set_is_exactly_six() {
    let safe: Vec<&str> = SUPPORTED_COMMANDS
        .into_iter()
        .filter(|name| is_frozen_safe(name))
        .collect();
    assert_eq!(
        safe,
        [
            "guest-ping",
            "guest-info",
            "guest-sync",
            "guest-sync-delimited",
            "guest-fsfreeze-status",
            "guest-fsfreeze-thaw",
        ]
    );
    assert!(!is_frozen_safe("guest-exec"));
    let mut h = Harness::new(FreezeState::Frozen, Config::default());
    for method in &safe {
        let reply = h.execute(method);
        assert_ne!(
            error_desc_opt(&reply),
            Some("filesystems are frozen; retry after thaw"),
            "{method} must pass"
        );
    }
    assert_eq!(h.handler_calls, safe.len());
}

#[test]
fn rate_limited_request_returns_generic_error() {
    let mut h = Harness::thawed();
    for _ in 0..120 {
        assert_eq!(h.execute("guest-ping"), value(r#"{"return": {}}"#));
    }
    let reply = h.execute("guest-ping");
    assert_eq!(error_class(&reply), "GenericError");
    assert_eq!(error_desc(&reply), "rate limit exceeded for ping_sync");
    let record = h.records.last().unwrap();
    assert_eq!(record.disposition, Disposition::Denied);
    assert_eq!(record.reason, Some(reason::RATE_LIMITED));
    assert_eq!(h.handler_calls, 120);
    // Half a second later one more passes.
    h.dispatcher.advance(500_000_000);
    assert_eq!(h.execute("guest-ping"), value(r#"{"return": {}}"#));
    assert_eq!(error_class(&h.execute("guest-ping")), "GenericError");
}

#[test]
fn thaw_is_never_rate_limited_even_after_flood() {
    let mut h = Harness::new(FreezeState::Frozen, Config::default());
    for _ in 0..1000 {
        h.execute("guest-ping");
    }
    for _ in 0..1000 {
        let reply = h.execute("guest-fsfreeze-thaw");
        assert_ne!(
            error_desc_opt(&reply),
            Some("rate limit exceeded for unlimited")
        );
        assert_ne!(
            error_desc_opt(&reply),
            Some("filesystems are frozen; retry after thaw")
        );
        let reply = h.execute("guest-fsfreeze-status");
        assert_ne!(
            error_desc_opt(&reply),
            Some("rate limit exceeded for unlimited")
        );
    }
    assert_eq!(h.handler_calls, 120 + 2000);
}

#[test]
fn disabled_fstrim_returns_command_not_found_with_disabled_desc() {
    let mut config = Config::default();
    config.features.fstrim = false;
    let mut h = Harness::new(FreezeState::Thawed, config);
    let reply = h.execute("guest-fstrim");
    assert_eq!(error_class(&reply), "CommandNotFound");
    assert_eq!(error_desc(&reply), "command guest-fstrim has been disabled");
    assert_eq!(h.handler_calls, 0);
    assert_eq!(h.records.last().unwrap().reason, Some(reason::DISABLED));

    // Enabled: reaches the handler.
    let mut h = Harness::thawed();
    let _ = h.execute("guest-fstrim");
    assert_eq!(h.handler_calls, 1);

    // suspend-ram: disabled by default at runtime regardless of build.
    let mut h = Harness::thawed();
    let reply = h.execute("guest-suspend-ram");
    assert_eq!(error_class(&reply), "CommandNotFound");
    assert_eq!(
        error_desc(&reply),
        "command guest-suspend-ram has been disabled"
    );
}

#[test]
fn parse_error_returns_generic_error_and_no_panic() {
    let mut h = Harness::thawed();
    for frame in [
        &b"garbage"[..],
        b"{",
        b"[\"guest-ping\"]",
        b"{\"execute\":\"guest-ping\",\"id\":\"x\"}",
        b"{\"execute\":\"guest-ping\"} trailing",
        b"\xff\xfe",
        b"{\"execute\":\"\xff\"}",
    ] {
        let reply = h.send_json(frame);
        assert_eq!(error_class(&reply), "GenericError", "{frame:?}");
        assert!(reply.get("id").is_none());
    }
    let deep = format!("{}{}", "[".repeat(40), "]".repeat(40));
    let reply = h.send_json(deep.as_bytes());
    assert_eq!(error_class(&reply), "GenericError");

    let none = h.dispatcher.handle(&Frame::Oversized, &h.ctx);
    assert_eq!(none.action, Action::Nothing, "an oversized frame gets no reply");
    assert_eq!(h.handler_calls, 0);
}

#[test]
fn oversized_event_is_audited_as_denied_without_reply() {
    let mut h = Harness::thawed();
    let handling = h.dispatcher.handle(&Frame::Oversized, &h.ctx);
    assert_eq!(handling.action, Action::Nothing);
    assert_eq!(handling.record.disposition, Disposition::Denied);
    assert_eq!(handling.record.reason, Some(reason::OVERSIZED_FRAME));
    assert_eq!(handling.record.freeze_state_before, "thawed");
    assert!(handling.record.is_warning());
}

#[test]
fn every_request_emits_one_audit_record_with_disposition() {
    let mut h = Harness::thawed();
    h.send(br#"{"execute":"guest-ping","id":1}"#);
    h.send(br#"{"execute":"guest-exec","id":2}"#);
    h.send(b"not json");
    let mut config = Config::default();
    config.features.fstrim = false;
    let mut frozen = Harness::new(FreezeState::Frozen, config);
    frozen.send(br#"{"execute":"guest-get-osinfo","id":3}"#);
    frozen.send(br#"{"execute":"guest-fstrim","id":4}"#);
    frozen.send(br#"{"execute":"guest-fsfreeze-thaw","id":5}"#);

    let mut records = h.records;
    records.extend(frozen.records);
    assert_eq!(records.len(), 6);
    let expect = [
        (Some(1), "allowed", None, "thawed"),
        (Some(2), "denied", Some(reason::COMMAND_NOT_FOUND), "thawed"),
        (None, "denied", Some(reason::PARSE_ERROR), "thawed"),
        (Some(3), "denied", Some(reason::FROZEN), "frozen"),
        (Some(4), "denied", Some(reason::DISABLED), "frozen"),
        (Some(5), "allowed", None, "frozen"),
    ];
    for (record, (id, disposition, reason, state)) in records.iter().zip(expect) {
        assert_eq!(record.id, id, "{record:?}");
        assert_eq!(record.disposition.as_str(), disposition, "{record:?}");
        assert_eq!(record.reason, reason, "{record:?}");
        assert_eq!(record.freeze_state_before, state, "{record:?}");
        assert_eq!(record.is_warning(), disposition == "denied");
    }
}

#[test]
fn sync_delimited_reply_starts_with_0xff() {
    let mut h = Harness::thawed();
    let reply = h
        .send(br#"{"execute":"guest-sync-delimited","arguments":{"id":1}}"#)
        .unwrap();
    assert_eq!(reply[0], 0xFF);
    assert_eq!(&reply[1..], b"{\"return\":1}\n");
    let reply = h
        .send(br#"{"execute":"guest-sync-delimited","arguments":{"id":2},"id":7}"#)
        .unwrap();
    assert_eq!(&reply[..2], b"\xff{");
    assert_eq!(&reply[1..], b"{\"return\":2,\"id\":7}\n");
    // Errors for that method carry it too; other methods never do.
    let reply = h
        .send(br#"{"execute":"guest-sync-delimited"}"#)
        .unwrap();
    assert_eq!(reply[0], 0xFF);
    assert!(reply[1..].starts_with(b"{\"error\""));
    let reply = h
        .send(br#"{"execute":"guest-sync","arguments":{"id":1}}"#)
        .unwrap();
    assert_eq!(reply, b"{\"return\":1}\n");
}

#[test]
fn shutdown_success_yields_no_response() {
    let mut h = Harness::thawed();
    assert!(h
        .send(br#"{"execute":"guest-shutdown","id":1}"#)
        .is_none());
    assert_eq!(h.handler_calls, 1);
    assert_eq!(h.records.len(), 1);
    // Errors are still reported (rate limit: 2/min).
    h.send(br#"{"execute":"guest-shutdown"}"#);
    let reply = h.execute("guest-shutdown");
    assert_eq!(error_class(&reply), "GenericError");
    assert_eq!(error_desc(&reply), "rate limit exceeded for shutdown");
    // While frozen the refusal is reported too.
    let mut frozen = Harness::new(FreezeState::Frozen, Config::default());
    let reply = frozen.execute("guest-shutdown");
    assert_eq!(
        error_desc(&reply),
        "filesystems are frozen; retry after thaw"
    );
}

#[test]
fn supported_command_table_and_match_arms_agree() {
    let mut config = Config::default();
    config.features.suspend_ram = true;
    let mut h = Harness::new(FreezeState::Thawed, config);
    let mut names: Vec<&str> = SUPPORTED_COMMANDS.to_vec();
    for name in &names {
        assert!(
            is_allowlisted(name),
            "{name} in table but not in allowlist match"
        );
        assert!(Command::of(name).is_some(), "{name}");
        assert!(
            CommandClass::of(name).is_some(),
            "{name} has no rate-limit class"
        );
        let Some(reply) = h.send(format!(r#"{{"execute":"{name}"}}"#).as_bytes()) else {
            assert_eq!(*name, "guest-shutdown", "only shutdown is silent");
            continue;
        };
        let body = reply.strip_prefix(&[0xFF]).unwrap_or(&reply);
        let reply: Value = serde_json::from_slice(&body[..body.len() - 1]).unwrap();
        let class = reply
            .get("error")
            .map(|e| e["class"].as_str().unwrap().to_owned());
        if *name == "guest-suspend-ram" {
            assert_eq!(class.as_deref(), Some("CommandNotFound"));
        } else {
            assert_ne!(class.as_deref(), Some("CommandNotFound"), "{name}");
        }
    }
    // Each name appears exactly once; `guest-shutdown` and `guest-suspend-ram`
    // are the commands without a success response.
    let no_success: Vec<&str> = names
        .iter()
        .copied()
        .filter(|name| !spec_of(name).unwrap().success_response)
        .collect();
    assert_eq!(no_success, ["guest-shutdown", "guest-suspend-ram"]);
    let count = names.len();
    names.sort_unstable();
    names.dedup();
    assert_eq!(names.len(), count);
    assert_eq!(count, 14);
    for method in DENIED {
        assert!(spec_of(method).is_none());
        assert!(Command::of(method).is_none());
    }
}

const FROZEN: &[u8] = b"{\"error\":{\"class\":\"GenericError\",\"desc\":\"filesystems are frozen; retry after thaw\"}}\n";

const SUSPEND_DISABLED: &[u8] = b"{\"error\":{\"class\":\"CommandNotFound\",\"desc\":\"command guest-suspend-ram has been disabled\"}}\n";

const NOT_THAWED: [FreezeState; 3] = [
    FreezeState::Freezing,
    FreezeState::Frozen,
    FreezeState::Thawing,
];

#[test]
fn success_produces_no_response_and_audit_record_is_emitted_before_reboot() {
    let mut harness = Harness::thawed();
    let frame = br#"{"execute":"guest-shutdown","id":9}"#;
    // The record is there before the command runs.
    let handling = harness.dispatcher.handle(&parsed(frame).0, &harness.ctx);
    assert_eq!(handling.action, Action::Run(Command::Shutdown));
    assert_eq!(
        handling.record.method,
        MethodField::Full("guest-shutdown".to_owned())
    );
    assert_eq!(handling.record.id, Some(9));
    assert_eq!(handling.record.disposition, Disposition::Allowed);
    assert_eq!(harness.send(frame), None, "no success reply");
}

#[test]
fn shutdown_is_rejected_while_frozen() {
    for state in NOT_THAWED {
        let mut harness = Harness::new(state, Config::default());
        let reply = harness.send(br#"{"execute":"guest-shutdown"}"#).unwrap();
        assert_eq!(reply, FROZEN, "{state:?}");
        assert_eq!(harness.handler_calls, 0, "{state:?}: no sync, no reboot");
    }
}

#[test]
fn feature_absent_returns_command_not_found_disabled() {
    let mut config = Config::default();
    config.features.suspend_ram = true;
    let mut harness = Harness::new(FreezeState::Thawed, config);
    let reply = harness.send(br#"{"execute":"guest-suspend-ram"}"#).unwrap();
    assert_eq!(reply, SUSPEND_DISABLED);
    assert_eq!(harness.handler_calls, 0);
}

#[test]
fn runtime_off_returns_command_not_found_disabled() {
    let mut harness = Harness::thawed();
    harness.ctx.build.suspend_ram = true;
    let reply = harness.send(br#"{"execute":"guest-suspend-ram"}"#).unwrap();
    assert_eq!(reply, SUSPEND_DISABLED);
    assert_eq!(harness.handler_calls, 0);
}

#[test]
fn suspend_is_rejected_while_frozen() {
    for state in NOT_THAWED {
        let mut config = Config::default();
        config.features.suspend_ram = true;
        let mut harness = Harness::new(state, config);
        // The switch precedes the state.
        let reply = harness.send(br#"{"execute":"guest-suspend-ram"}"#).unwrap();
        assert_eq!(reply, SUSPEND_DISABLED, "{state:?}");
        harness.ctx.build.suspend_ram = true;
        let reply = harness.send(br#"{"execute":"guest-suspend-ram"}"#).unwrap();
        assert_eq!(reply, FROZEN, "{state:?}");
        assert_eq!(harness.handler_calls, 0);
    }
}
