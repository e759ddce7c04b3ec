use qeminga::config::{Build, Config};
use qeminga::dispatch::{finish, Action, Command, Context, Dispatcher, Frame};
use qeminga::freeze_plan::FreezePlan;
use qeminga::handlers::fstrim::walk::{TrimStep, TrimWalk};
use qeminga::handlers::fstrim::{
    handle, trim_plan, FstrimArgs, TrimOutcome, TrimResponse, Trimmed,
};
use qeminga::json::to_text;
use qeminga::kernel::{KernelError, EOPNOTSUPP};
use qeminga::mountinfo::parse_mountinfo;
use qeminga::proto::Request;
use qeminga::state::{FreezeState, FreezeStateMachine};
use serde_json::Value;

const EIO: i32 = 5;
const ENOENT: i32 = 2;

const NESTED: &str = "27 1 8:1 / / rw - ext4 /dev/sda1 rw\n\
    28 27 0:5 / /proc rw - proc proc rw\n\
    29 27 8:2 / /home rw - ext4 /dev/sda2 rw\n\
    30 29 8:3 / /home/data rw - xfs /dev/sda3 rw\n\
    31 30 8:4 / /home/data/deep rw - ext4 /dev/sda4 rw\n";

const BIND_MOUNTS: &str = "27 1 8:1 / / rw - ext4 /dev/sda1 rw\n\
    28 27 8:2 / /data rw - xfs /dev/sda2 rw\n\
    29 27 8:1 /srv/www /var/www rw - ext4 /dev/sda1 rw\n\
    30 27 8:2 /exports /srv/exports rw - xfs /dev/sda2 rw\n\
    31 27 8:1 / /mnt/rootbind rw - ext4 /dev/sda1 rw\n";

fn plan_from(table: &str) -> FreezePlan {
    FreezePlan::build(&parse_mountinfo(table.as_bytes()))
}

fn done(bytes: u64, minimum: u64) -> TrimOutcome {
    TrimOutcome::Done(Trimmed { bytes, minimum })
}

fn reply(plan: &FreezePlan, outcomes: Vec<TrimOutcome>) -> Value {
    serde_json::from_str(&to_text(&handle(&trim_plan(plan, outcomes)))).unwrap()
}

/// A kernel: where a name leads (by default to the planned device), what is
/// answered to the nth trim, and what was asked.
struct Scripted {
    elsewhere: Vec<(&'static str, fn() -> KernelError)>,
    answers: Vec<Result<Trimmed, KernelError>>,
    opened: Vec<String>,
    trims: Vec<(String, u64)>,
}

impl Scripted {
    fn new(
        elsewhere: Vec<(&'static str, fn() -> KernelError)>,
        mut answers: Vec<Result<Trimmed, KernelError>>,
    ) -> Self {
        answers.reverse();
        Scripted {
            elsewhere,
            answers,
            opened: Vec::new(),
            trims: Vec::new(),
        }
    }

    fn trim(&mut self, plan: FreezePlan, minimum: u64) -> TrimResponse {
        let mut walk = TrimWalk::new(plan, minimum);
        loop {
            match walk.step() {
                TrimStep::Open { path, .. } => {
                    let path = String::from_utf8(path).unwrap();
                    self.opened.push(path.clone());
                    match self.elsewhere.iter().find(|(name, _)| *name == path) {
                        Some((_, err)) => walk.open_failed(&err()),
                        None => walk.opened(self.opened.len() as u64 - 1),
                    }
                }
                TrimStep::Trim { handle, minimum } => {
                    self.trims.push((self.opened[handle as usize].clone(), minimum));
                    walk.trimmed(self.answers.pop().unwrap());
                }
                TrimStep::Done => return walk.finish(),
            }
        }
    }
}

fn trimmed(bytes: u64, minimum: u64) -> Result<Trimmed, KernelError> {
    Ok(Trimmed { bytes, minimum })
}

fn shown(response: &TrimResponse) -> Value {
    serde_json::from_str(&to_text(&handle(response))).unwrap()
}

fn value(text: &str) -> Value {
    serde_json::from_str(text).unwrap()
}

#[test]
fn fstrim_trims_each_plan_target_in_forward_order_with_minimum() {
    let plan = plan_from(NESTED);
    let args = FstrimArgs {
        minimum: Some(1_048_576),
    };
    let minimum = args.minimum();
    assert_eq!(minimum, 1_048_576);
    let mut kernel = Scripted::new(
        vec![],
        vec![
            trimmed(4096, minimum),
            trimmed(8192, minimum),
            trimmed(0, minimum),
            trimmed(0, minimum),
        ],
    );
    let value = shown(&kernel.trim(plan, minimum));
    assert_eq!(
        kernel.trims,
        [
            ("/".to_owned(), 1_048_576),
            ("/home".to_owned(), 1_048_576),
            ("/home/data".to_owned(), 1_048_576),
            ("/home/data/deep".to_owned(), 1_048_576),
        ]
    );
    let paths = value["paths"].as_array().unwrap();
    assert_eq!(paths.len(), 4);
    assert_eq!(
        paths[0],
        self::value(r#"{"path": "/", "trimmed": 4096, "minimum": 1048576}"#)
    );
    assert_eq!(paths[1]["trimmed"], 8192);
    assert_eq!(paths[2]["trimmed"], 0);
    assert!(paths[0].get("error").is_none());
}

#[test]
fn fstrim_reports_the_effective_minimum_not_the_requested_one() {
    // The kernel rounds the requested minimum up to its block size and the
    // device's discard granularity and writes it back; the reply's `minimum`
    // is that effective value, per mount point.
    let plan = plan_from(NESTED);
    let value = reply(
        &plan,
        vec![
            done(4096, 2_097_152),
            done(8192, 1_048_576),
            done(0, 1_048_576),
            done(0, 1_048_576),
        ],
    );
    let paths = value["paths"].as_array().unwrap();
    assert_eq!(
        paths[0],
        self::value(r#"{"path": "/", "trimmed": 4096, "minimum": 2097152}"#),
        "rounded up by the kernel"
    );
    assert_eq!(
        paths[1],
        self::value(r#"{"path": "/home", "trimmed": 8192, "minimum": 1048576}"#),
        "accepted as requested"
    );
}

#[test]
fn fstrim_default_minimum_is_zero() {
    assert_eq!(FstrimArgs { minimum: None }.minimum(), 0);
}

#[test]
fn per_path_error_is_reported_inline_not_as_command_failure() {
    let plan = plan_from(NESTED);
    let value = reply(
        &plan,
        vec![
            done(1, 0),
            TrimOutcome::Failed(KernelError::Errno(EOPNOTSUPP)),
            TrimOutcome::Failed(KernelError::Errno(EIO)),
            done(0, 0),
        ],
    );
    let paths = value["paths"].as_array().unwrap();
    assert_eq!(paths.len(), 4, "every target is reported");
    assert_eq!(paths[0]["trimmed"], 1);
    assert_eq!(paths[1]["path"], "/home");
    assert!(paths[1]["error"].as_str().unwrap().contains("EOPNOTSUPP"));
    assert!(paths[1].get("trimmed").is_none());
    assert!(paths[1].get("minimum").is_none());
    assert!(paths[2]["error"].as_str().unwrap().contains("EIO"));
    assert_eq!(paths[3]["trimmed"], 0);
}

#[test]
fn a_hidden_target_is_trimmed_through_an_alias_and_an_unreachable_one_reports_it() {
    // / (8:1; /var/www, /mnt/rootbind) and /data (8:2; /srv/exports). /data
    // now leads elsewhere, so 8:2 is trimmed through /srv/exports and still
    // reported as /data; no pathname of 8:1 opens on it, which is that entry's
    // error.
    let plan = plan_from(BIND_MOUNTS);
    let mut kernel = Scripted::new(
        vec![
            ("/", || KernelError::Open(ENOENT)),
            ("/var/www", || KernelError::Open(ENOENT)),
            ("/mnt/rootbind", || KernelError::Open(ENOENT)),
            ("/data", || KernelError::WrongFilesystem {
                expected: (8, 2),
                found: (8, 9),
            }),
        ],
        vec![trimmed(77, 0)],
    );
    let value = shown(&kernel.trim(plan, 0));
    assert_eq!(
        kernel.opened,
        ["/", "/var/www", "/mnt/rootbind", "/data", "/srv/exports"]
    );
    assert_eq!(kernel.trims, [("/srv/exports".to_owned(), 0)]);
    let paths = value["paths"].as_array().unwrap();
    assert_eq!(paths.len(), 2);
    assert_eq!(paths[0]["path"], "/");
    let error = paths[0]["error"].as_str().unwrap();
    assert!(
        error.starts_with("no mount point leads to it (/: cannot open mountpoint: ENOENT"),
        "{error}"
    );
    assert!(
        error.contains("/mnt/rootbind: cannot open mountpoint: ENOENT"),
        "{error}"
    );
    assert_eq!(paths[1]["path"], "/data");
    assert_eq!(paths[1]["trimmed"], 77);
}

#[test]
fn empty_plan_yields_empty_paths() {
    let plan = plan_from("1 0 0:1 / / rw - tmpfs tmpfs rw\n");
    assert_eq!(reply(&plan, vec![]), value(r#"{"paths": []}"#));
}

#[test]
fn a_walk_asks_for_one_trim_per_target_and_goes_on_after_a_failure() {
    let plan = plan_from(BIND_MOUNTS);
    let mut walk = TrimWalk::new(plan, 4096);
    assert_eq!(
        walk.step(),
        TrimStep::Open {
            path: b"/".to_vec(),
            dev: (8, 1)
        }
    );
    walk.opened(5);
    assert_eq!(
        walk.step(),
        TrimStep::Trim {
            handle: 5,
            minimum: 4096
        }
    );
    walk.trimmed(Err(KernelError::Errno(EIO)));
    assert_eq!(
        walk.step(),
        TrimStep::Open {
            path: b"/data".to_vec(),
            dev: (8, 2)
        },
        "the next target, not another name of the one that failed"
    );
    walk.open_failed(&KernelError::Open(ENOENT));
    assert_eq!(
        walk.step(),
        TrimStep::Open {
            path: b"/srv/exports".to_vec(),
            dev: (8, 2)
        }
    );
    walk.opened(6);
    walk.trimmed(trimmed(12, 8192));
    assert_eq!(walk.step(), TrimStep::Done);
    let response = walk.finish();
    assert_eq!(response.paths.len(), 2);
    assert_eq!(response.paths[0].path, "/");
    assert_eq!(response.paths[0].trimmed, None);
    assert_eq!(response.paths[0].minimum, None);
    assert!(response.paths[0].error.as_ref().unwrap().contains("EIO"));
    assert_eq!(response.paths[1].path, "/data");
    assert_eq!(response.paths[1].trimmed, Some(12));
    assert_eq!(response.paths[1].minimum, Some(8192));
    assert_eq!(response.paths[1].error, None);
}

#[test]
fn a_walk_over_an_empty_plan_asks_for_nothing() {
    let mut kernel = Scripted::new(vec![], vec![]);
    let response = kernel.trim(plan_from("1 0 0:1 / / rw - tmpfs tmpfs rw\n"), 0);
    assert!(response.paths.is_empty());
    assert!(kernel.opened.is_empty());
}

/// What becomes of a `guest-fstrim` request.
fn dispatched(state: FreezeState, config: Config, id: Option<i64>) -> (Request, Action) {
    let build = Build {
        seccomp: false,
        suspend_ram: false,
    };
    let mut dispatcher = Dispatcher::new(&config);
    let ctx = Context::new(config, build, FreezeStateMachine::starting_in(state));
    let request = || Request {
        method: "guest-fstrim".to_owned(),
        id,
    };
    let handling = dispatcher.handle(&Frame::Parsed(Ok(request())), &ctx);
    (request(), handling.action)
}

#[test]
fn fstrim_disabled_at_runtime_is_command_not_found() {
    let mut config = Config::default();
    config.features.fstrim = false;
    let (_, action) = dispatched(FreezeState::Thawed, config, None);
    assert_eq!(
        action,
        Action::Reply(
            b"{\"error\":{\"class\":\"CommandNotFound\",\"desc\":\"command guest-fstrim has been disabled\"}}\n"
                .to_vec()
        )
    );
    // Enabled (default): the handler runs and trims.
    let (request, action) = dispatched(FreezeState::Thawed, Config::default(), Some(3));
    assert_eq!(action, Action::Run(Command::Fstrim));
    let plan = plan_from(NESTED);
    let outcomes = plan.targets().iter().map(|_| done(0, 0)).collect();
    let reply = finish(&request, Ok(handle(&trim_plan(&plan, outcomes)))).unwrap();
    let value: Value = serde_json::from_slice(&reply[..reply.len() - 1]).unwrap();
    assert_eq!(value["id"], 3);
    assert_eq!(value["return"]["paths"].as_array().unwrap().len(), 4);
}

#[test]
fn fstrim_is_rejected_while_frozen() {
    for state in [
        FreezeState::Freezing,
        FreezeState::Frozen,
        FreezeState::Thawing,
    ] {
        let (_, action) = dispatched(state, Config::default(), None);
        assert_eq!(
            action,
            Action::Reply(
                b"{\"error\":{\"class\":\"GenericError\",\"desc\":\"filesystems are frozen; retry after thaw\"}}\n"
                    .to_vec()
            ),
            "{state:?}"
        );
    }
}
