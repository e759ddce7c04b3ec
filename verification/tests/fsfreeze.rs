//! Freeze and thaw scenarios: the state machines of the library driven against
//! a scripted kernel.

use qeminga::audit::{Item, Mode, Next, Router};
use qeminga::config::{Build, Config};
use qeminga::dispatch::{Context, ThawScope};
use qeminga::freeze_op::driver::{Driver, Stage};
use qeminga::freeze_op::{
    freeze_answer, AbortCause, AbortRequest, Effect, FreezeOp, Phase, TargetOutcome, Transition,
};
use qeminga::freeze_op::preparation::{Preparation, PreparationStep};
use qeminga::freeze_op::worker::{FreezeWorker, WorkerStep};
use qeminga::freeze_plan::Target;
use qeminga::handlers::fsfreeze::drain::{
    Drained, HeldDrain, OpenTarget, RecoveryPass, MAX_THAW_ITERATIONS,
};
use qeminga::handlers::fsfreeze::thaw::{rollback, Rollback, ThawStep, ThawWalk};
use qeminga::handlers::fsfreeze::{
    build_plan, conclude_thaw, freeze, freeze_list, freeze_reply, join_operation, start_recovery,
    status, thaw, FreezeFailure, FreezeListArgs, FreezeStop, ThawStart,
};
use qeminga::json::{to_text, Json};
use qeminga::kernel::{
    KernelError, Mount, EACCES, EBUSY, EINVAL, ENOSYS, ENOTTY, EOPNOTSUPP, EPERM,
};
use qeminga::marker::MarkerError;
use qeminga::mountinfo::parse_mountinfo;
use qeminga::proto::{Error, ErrorClass};
use qeminga::state::{FreezeState, FreezeStateMachine, FreezeToken, ThawToken};
use qeminga::watchdog::Watchdog;
use std::collections::{HashMap, HashSet};

const ENOENT: i32 = 2;
const EIO: i32 = 5;
const EMFILE: i32 = 24;
const ENOSPC: i32 = 28;

const SIMPLE: &str = "27 1 8:1 / / rw,relatime shared:1 - ext4 /dev/sda1 rw\n\
    28 27 0:5 / /proc rw - proc proc rw\n\
    29 27 8:2 / /home rw - xfs /dev/sda2 rw\n";

const NESTED: &str = "27 1 8:1 / / rw - ext4 /dev/sda1 rw\n\
    28 27 0:5 / /proc rw - proc proc rw\n\
    29 27 8:2 / /home rw - ext4 /dev/sda2 rw\n\
    30 29 8:3 / /home/data rw - xfs /dev/sda3 rw\n\
    31 30 8:4 / /home/data/deep rw - ext4 /dev/sda4 rw\n";

const BIND_MOUNTS: &str = "27 1 8:1 / / rw - ext4 /dev/sda1 rw\n\
    28 27 8:2 / /data rw - xfs /dev/sda2 rw\n\
    29 27 8:1 /srv/www /var/www rw - ext4 /dev/sda1 rw\n\
    30 27 8:2 /exports /srv/exports rw - xfs /dev/sda2 rw\n\
    31 27 8:1 / /mnt/rootbind rw - ext4 /dev/sda1 rw\n";

const TIMEOUT_SECS: u64 = 60;
const OPERATION: u64 = 7;

#[derive(Debug, Clone, PartialEq)]
enum Call {
    Open(String),
    Fifreeze(String),
    Fithaw(String),
}

/// A kernel whose answers are scripted: by default every name opens on the
/// device it is asked for, a freeze succeeds, and a thaw succeeds once.
#[derive(Default)]
struct FakeKernel {
    calls: Vec<Call>,
    open_errors: HashMap<String, i32>,
    devices: HashMap<String, (u32, u32)>,
    freeze_errors: HashMap<String, i32>,
    thaw_errors: HashMap<String, i32>,
    thaw_successes: HashMap<String, u32>,
    handles: Vec<String>,
    /// Whether the marker is there, and what each ioctl saw of it.
    marker: bool,
    marker_at_freezes: Vec<bool>,
    marker_at_thaws: Vec<bool>,
}

impl FakeKernel {
    fn open(&mut self, path: &str, dev: (u32, u32)) -> Result<u64, KernelError> {
        self.calls.push(Call::Open(path.to_owned()));
        if let Some(errno) = self.open_errors.get(path) {
            return Err(KernelError::Open(*errno));
        }
        let found = self.devices.get(path).copied().unwrap_or(dev);
        if found != dev {
            return Err(KernelError::WrongFilesystem {
                expected: dev,
                found,
            });
        }
        self.handles.push(path.to_owned());
        Ok(self.handles.len() as u64)
    }

    fn path(&self, handle: u64) -> String {
        self.handles[handle as usize - 1].clone()
    }

    fn fifreeze(&mut self, handle: u64) -> Result<(), KernelError> {
        let path = self.path(handle);
        self.calls.push(Call::Fifreeze(path.clone()));
        self.marker_at_freezes.push(self.marker);
        match self.freeze_errors.get(&path) {
            Some(errno) => Err(KernelError::Errno(*errno)),
            None => Ok(()),
        }
    }

    fn fithaw(&mut self, handle: u64) -> Result<(), KernelError> {
        let path = self.path(handle);
        self.calls.push(Call::Fithaw(path.clone()));
        self.marker_at_thaws.push(self.marker);
        if let Some(errno) = self.thaw_errors.get(&path) {
            return Err(KernelError::Errno(*errno));
        }
        let left = self.thaw_successes.entry(path).or_insert(1);
        if *left == 0 {
            Err(KernelError::Errno(EINVAL))
        } else {
            *left -= 1;
            Ok(())
        }
    }

    fn drain(&mut self, handle: u64) -> Drained {
        let mut drained = Drained::new();
        while drained.wants_more() {
            let answer = self.fithaw(handle);
            drained.answered(answer);
        }
        drained
    }
}

struct Rig {
    ctx: Context,
    kernel: FakeKernel,
    table: Result<String, String>,
    marker: bool,
    marker_stuck: bool,
    marker_refused: bool,
    events: Vec<(&'static str, FreezeState)>,
    driver: Option<Driver>,
    freeze_token: Option<FreezeToken>,
    thaw_token: Option<ThawToken>,
    replies: Vec<Result<u64, FreezeFailure>>,
    /// Names whose `FIFREEZE` does not return.
    gates: HashSet<String>,
    blocked: Option<Target>,
    /// The recovery drain does not return.
    drain_gate: bool,
    draining: Option<Vec<Mount>>,
    now: u64,
    /// The hooks that had run when each drain of a thaw began.
    events_at_drains: Vec<Vec<&'static str>>,
    watchdog: Option<Watchdog>,
    /// The watchdog's clock, in milliseconds.
    clock: u64,
}

fn text(bytes: &[u8]) -> String {
    String::from_utf8(bytes.to_vec()).unwrap()
}

impl Rig {
    fn new(state: FreezeState, table: &str) -> Self {
        let build = Build {
            seccomp: true,
            suspend_ram: false,
        };
        Rig {
            ctx: Context::new(
                Config::default(),
                build,
                FreezeStateMachine::starting_in(state),
            ),
            kernel: FakeKernel::default(),
            table: Ok(table.to_owned()),
            marker: state == FreezeState::Frozen,
            marker_stuck: false,
            marker_refused: false,
            events: Vec::new(),
            driver: None,
            freeze_token: None,
            thaw_token: None,
            replies: Vec::new(),
            gates: HashSet::new(),
            blocked: None,
            drain_gate: false,
            draining: None,
            now: 0,
            events_at_drains: Vec::new(),
            watchdog: None,
            clock: 0,
        }
    }

    fn nested() -> Self {
        Self::new(FreezeState::Thawed, NESTED)
    }

    fn state(&self) -> FreezeState {
        self.ctx.state.current()
    }

    fn events(&self) -> Vec<&'static str> {
        self.events.iter().map(|(event, _)| *event).collect()
    }

    fn states_at(&self, wanted: &str) -> Vec<FreezeState> {
        self.events
            .iter()
            .filter(|(event, _)| *event == wanted)
            .map(|(_, state)| *state)
            .collect()
    }

    fn hook(&mut self, event: &'static str) {
        let state = self.state();
        self.events.push((event, state));
    }

    fn opens(&self) -> Vec<&str> {
        self.kernel
            .calls
            .iter()
            .filter_map(|call| match call {
                Call::Open(path) => Some(path.as_str()),
                _ => None,
            })
            .collect()
    }

    fn fifreezes(&self) -> Vec<&str> {
        self.kernel
            .calls
            .iter()
            .filter_map(|call| match call {
                Call::Fifreeze(path) => Some(path.as_str()),
                _ => None,
            })
            .collect()
    }

    fn fithaws(&self) -> Vec<&str> {
        self.kernel
            .calls
            .iter()
            .filter_map(|call| match call {
                Call::Fithaw(path) => Some(path.as_str()),
                _ => None,
            })
            .collect()
    }

    fn remove_marker(&mut self) -> Result<(), MarkerError> {
        let path = b"/run/qeminga/frozen".to_vec();
        if self.marker_stuck {
            return Err(MarkerError::Io {
                path,
                source: "EISDIR".to_owned(),
            });
        }
        if !self.marker {
            return Err(MarkerError::Absent { path });
        }
        self.marker = false;
        Ok(())
    }

    fn mounts(&self) -> Result<Vec<qeminga::mountinfo::MountEntry>, String> {
        match &self.table {
            Ok(table) => Ok(parse_mountinfo(table.as_bytes())),
            Err(why) => Err(why.clone()),
        }
    }

    /// The preparation of a freeze: the plan, then the marker.
    fn prepare(
        &mut self,
        restrict: &Option<Vec<String>>,
    ) -> Result<qeminga::freeze_plan::FreezePlan, FreezeFailure> {
        let mut preparation = Preparation::new(restrict.clone());
        loop {
            match preparation.step() {
                PreparationStep::ReadMounts => preparation.read(self.mounts()),
                PreparationStep::CreateMarker => {
                    let created = if self.marker_refused {
                        Err(MarkerError::Io {
                            path: b"/run/qeminga/frozen".to_vec(),
                            source: "ENOENT".to_owned(),
                        })
                    } else {
                        self.marker = true;
                        Ok(())
                    };
                    preparation.created(created);
                }
                PreparationStep::Done => return preparation.finish(),
            }
        }
    }

    fn start(&mut self) {
        self.hook("freezing");
        let held = self.ctx.take_frozen_mounts();
        self.driver = Some(Driver::new(self.now + TIMEOUT_SECS, TIMEOUT_SECS, held));
        self.ctx.set_freeze_op(Some(OPERATION));
    }

    fn freeze(&mut self) -> Result<Json, Error> {
        self.freeze_token = Some(freeze(&mut self.ctx.state)?);
        self.start();
        let plan = self.prepare(&None);
        let now = self.now;
        self.driver.as_mut().unwrap().prepared(plan, now);
        self.pump();
        freeze_reply(self.replies.pop())
    }

    fn freeze_list(&mut self, mountpoints: Option<&[&str]>) -> Result<Json, Error> {
        let mountpoints =
            mountpoints.map(|list| list.iter().map(|name| (*name).to_owned()).collect());
        let (token, restrict) =
            freeze_list(&mut self.ctx.state, FreezeListArgs { mountpoints })?;
        self.freeze_token = Some(token);
        self.start();
        let plan = self.prepare(&restrict);
        let now = self.now;
        self.driver.as_mut().unwrap().prepared(plan, now);
        self.pump();
        freeze_reply(self.replies.pop())
    }

    /// Opens a target and issues `FIFREEZE`.
    fn work(&mut self, target: &Target) -> TargetOutcome {
        let mut worker = FreezeWorker::new(target);
        loop {
            match worker.step() {
                WorkerStep::Open { path, dev } => match self.kernel.open(&text(&path), dev) {
                    Ok(handle) => worker.opened(handle),
                    Err(err) => worker.open_failed(&err),
                },
                WorkerStep::Check => {
                    worker.checked(self.driver.as_ref().unwrap().op(), self.now);
                }
                WorkerStep::Freeze { handle } => {
                    self.kernel.marker = self.marker;
                    worker.answered(self.kernel.fifreeze(handle));
                }
                WorkerStep::Done => return worker.finish().0,
            }
        }
    }

    fn drain_held(&mut self, held: Vec<Mount>) -> RecoveryPass {
        let mut drain = HeldDrain::new(held);
        while let Some(mount) = drain.next() {
            let drained = self.kernel.drain(mount.handle);
            drain.drained(&drained);
        }
        drain.finish()
    }

    fn carry_out(&mut self, effect: Effect) {
        match effect {
            Effect::Transition(Transition::AbortFreeze) => {
                let token = self.freeze_token.take().unwrap();
                self.thaw_token = Some(self.ctx.state.abort_freeze(token));
            }
            Effect::Transition(Transition::FreezeSucceeded) => {
                let token = self.freeze_token.take().unwrap();
                self.ctx.state.freeze_succeeded(token);
            }
            Effect::Transition(Transition::FreezeFailed) => {
                let token = self.freeze_token.take().unwrap();
                self.ctx.state.freeze_failed(token);
            }
            Effect::Transition(Transition::ThawSucceeded) => {
                let token = self.thaw_token.take().unwrap();
                self.ctx.state.thaw_succeeded(token);
            }
            Effect::Transition(Transition::ThawFailed) => {
                let token = self.thaw_token.take().unwrap();
                self.ctx.state.thaw_failed(token);
            }
            Effect::FreezingEntered => self.hook("freezing"),
            Effect::ThawClaimed => {
                self.watchdog = None;
                self.hook("thaw_claimed");
            }
            Effect::Thawed => self.hook("thawed"),
            Effect::FrozenEntered => {
                self.watchdog = Some(Watchdog::arm(&self.ctx.config.agent, self.clock));
                self.hook("frozen");
            }
            Effect::Hold(mounts) => self.ctx.hold_frozen_mounts(mounts),
            Effect::Retire => self.ctx.retire_freeze_op(OPERATION),
            Effect::Scope(scope) => self.ctx.set_thaw_scope(scope),
            Effect::Announce => {}
            Effect::Reply(reply) => self.replies.push(reply),
            Effect::Freeze(target) => {
                if self.gates.contains(&text(&target.mountpoint)) {
                    self.blocked = Some(target);
                } else {
                    let outcome = self.work(&target);
                    let now = self.now;
                    self.driver.as_mut().unwrap().worked(outcome, now);
                }
            }
            Effect::Recover(mounts) => {
                if self.drain_gate {
                    self.draining = Some(mounts);
                } else {
                    let pass = self.drain_held(mounts);
                    self.driver.as_mut().unwrap().drained(pass);
                }
            }
            Effect::Rollback {
                held,
                failed,
                cause,
            } => {
                let pass = self.drain_held(held);
                let (keep, end) = rollback(failed, cause, pass);
                let failure = match end {
                    Rollback::Incomplete(failure) => failure,
                    Rollback::RemoveMarker(rest) => rest.finish(self.remove_marker()),
                };
                self.driver.as_mut().unwrap().rolled_back(failure, keep);
            }
            Effect::RemoveMarker => {
                let removed = self.remove_marker();
                self.driver.as_mut().unwrap().removed(removed);
            }
        }
    }

    /// Carries out everything the operation asks for, tasks last.
    fn pump(&mut self) {
        loop {
            let effects = self.driver.as_mut().unwrap().take_effects();
            if effects.is_empty() {
                return;
            }
            let (tasks, at_once): (Vec<Effect>, Vec<Effect>) =
                effects.into_iter().partition(|effect| {
                    matches!(
                        effect,
                        Effect::Freeze(_)
                            | Effect::Recover(_)
                            | Effect::Rollback { .. }
                            | Effect::RemoveMarker
                    )
                });
            for effect in at_once.into_iter().chain(tasks) {
                self.carry_out(effect);
            }
        }
    }

    /// The deadline passes.
    fn expire(&mut self) {
        self.now += TIMEOUT_SECS;
        let driver = self.driver.as_mut().unwrap();
        assert!(driver.is_armed());
        driver.abort_signal(AbortCause::Deadline);
        self.pump();
    }

    /// The blocked `FIFREEZE` returns: it was past its last check.
    fn release(&mut self) {
        let target = self.blocked.take().unwrap();
        let name = text(&target.mountpoint);
        let handle = self.kernel.open(&name, target.dev).unwrap();
        let mount = OpenTarget::for_freeze(&target).opened(handle);
        let answer = self.kernel.fifreeze(handle);
        let outcome = freeze_answer(mount, answer);
        let now = self.now;
        self.driver.as_mut().unwrap().worked(outcome, now);
        self.pump();
    }

    fn release_drain(&mut self) {
        let held = self.draining.take().unwrap();
        let pass = self.drain_held(held);
        self.driver.as_mut().unwrap().drained(pass);
        self.pump();
    }

    fn thaw(&mut self) -> Result<Json, Error> {
        let operation = self.ctx.freeze_op().is_some();
        match thaw(&mut self.ctx.state, operation)? {
            ThawStart::Join => {
                let driver = self.driver.as_mut().unwrap();
                driver.request_abort();
                if driver.is_armed() {
                    driver.abort_signal(AbortCause::ThawRequested);
                }
                self.pump();
                let progress = self.driver.as_ref().unwrap().progress();
                assert!(progress.recovery_pass_done());
                join_operation(&progress)
            }
            ThawStart::Run(token) => self.run_thaw(token),
        }
    }

    /// Thaws everything under a claimed token.
    fn run_thaw(&mut self, token: ThawToken) -> Result<Json, Error> {
        self.carry_out(Effect::ThawClaimed);
        let recovery_drain = token.is_recovery_drain();
        self.thaw_token = Some(token);
        let held = self.ctx.take_frozen_mounts();
        let mut walk = ThawWalk::new(build_plan(self.mounts(), &None), held);
        self.kernel.marker = self.marker;
        let removed = loop {
            match walk.step() {
                ThawStep::Open { path, dev } => match self.kernel.open(&text(&path), dev) {
                    Ok(handle) => walk.opened(handle),
                    Err(err) => walk.open_failed(&err),
                },
                ThawStep::Drain { handle } => {
                    let events = self.events();
                    self.events_at_drains.push(events);
                    let drained = self.kernel.drain(handle);
                    walk.drained(&drained);
                }
                ThawStep::RemoveMarker => break self.remove_marker(),
                ThawStep::Fail => break Ok(()),
            }
        };
        let (outcome, keep) = walk.finish(removed);
        self.ctx.hold_frozen_mounts(keep);
        let end = conclude_thaw(outcome, recovery_drain);
        for effect in end.effects {
            self.carry_out(effect);
        }
        end.reply
    }

    /// `guest-fsfreeze-status`, with its heartbeat.
    fn status(&mut self) -> String {
        let status = status(self.state());
        if status.heartbeat {
            self.hook("heartbeat");
            if let Some(watchdog) = &mut self.watchdog {
                watchdog.refresh(self.clock);
            }
        }
        to_text(&status.reply)
    }

    /// Time passes; a watchdog that expires claims the thaw and runs it.
    fn pass(&mut self, secs: u64) {
        self.clock += secs * 1_000;
        let expired = self
            .watchdog
            .as_ref()
            .is_some_and(|watchdog| watchdog.has_expired(self.clock));
        if expired {
            let token = self.ctx.state.claim_thaw().unwrap();
            let _ = self.run_thaw(token);
        }
    }

    fn lifecycle(idle: u64, max: u64) -> Self {
        let mut rig = Self::new(FreezeState::Thawed, SIMPLE);
        rig.ctx.config.agent.fsfreeze_idle_timeout_secs = idle;
        rig.ctx.config.agent.fsfreeze_max_timeout_secs = max;
        rig
    }

    fn held(&self) -> usize {
        self.ctx.frozen_mount_count()
    }
}

fn message(result: Result<Json, Error>) -> String {
    let err = result.unwrap_err();
    assert_eq!(err.class(), ErrorClass::GenericError);
    err.message()
}

fn drained(successes: u32, first_error: Option<KernelError>, capped: bool) -> Drained {
    Drained {
        successes,
        first_error,
        capped,
    }
}

#[test]
fn a_drain_is_complete_only_when_the_kernel_says_not_frozen_or_unsupported() {
    let e = |errno| Some(KernelError::Errno(errno));
    // The documented ends of a drain: EINVAL (not frozen), after any number of
    // successes, or a filesystem that cannot freeze at all.
    assert_eq!(drained(3, e(EINVAL), false).incomplete(), None);
    assert_eq!(drained(0, e(EINVAL), false).incomplete(), None);
    assert_eq!(drained(0, e(EOPNOTSUPP), false).incomplete(), None);
    assert_eq!(drained(0, e(ENOTTY), false).incomplete(), None);
    // A denied FITHAW leaves the target frozen, whether first...
    let denied = drained(0, e(EPERM), false).incomplete().unwrap();
    assert!(denied.starts_with("first FITHAW denied: EPERM"), "{denied}");
    // ...or after successes: the remaining depth is unknown.
    let denied = drained(2, e(EACCES), false).incomplete().unwrap();
    assert!(denied.contains("denied after 2 successes"), "{denied}");
    // Any other errno is uncertain: Linux keeps a filesystem frozen when its
    // unfreeze fails.
    let failed = drained(0, e(EIO), false).incomplete().unwrap();
    assert!(failed.contains("FITHAW failed: EIO"), "{failed}");
    assert!(drained(1, e(ENOSPC), false).incomplete().is_some());
    // An error from before the ioctl means no FITHAW was issued, so nothing is
    // known about the filesystem: incomplete, whatever the errno, even one
    // that would end a drain as the ioctl's answer.
    let unopened = drained(0, Some(KernelError::Open(EMFILE)), false)
        .incomplete()
        .unwrap();
    assert!(
        unopened.contains("cannot open mountpoint: EMFILE"),
        "{unopened}"
    );
    assert!(unopened.contains("no FITHAW issued"), "{unopened}");
    for errno in [EINVAL, EOPNOTSUPP, ENOTTY, ENOSYS] {
        let reason = drained(0, Some(KernelError::Open(errno)), false)
            .incomplete()
            .unwrap_or_else(|| panic!("Open({errno}) must not complete a drain"));
        assert!(reason.contains("no FITHAW issued"), "{reason}");
        let reason = drained(2, Some(KernelError::Open(errno)), false)
            .incomplete()
            .unwrap_or_else(|| panic!("Open({errno}) after successes must not complete a drain"));
        assert!(reason.contains("no FITHAW issued"), "{reason}");
    }
    let elsewhere = drained(
        0,
        Some(KernelError::WrongFilesystem {
            expected: (8, 2),
            found: (8, 3),
        }),
        false,
    )
    .incomplete()
    .unwrap();
    assert!(elsewhere.contains("not on the planned 8:2"), "{elsewhere}");
    assert!(elsewhere.contains("no FITHAW issued"), "{elsewhere}");
    // A drain that never converged is incomplete whatever else happened.
    let capped = drained(u32::MAX, None, true).incomplete().unwrap();
    assert!(capped.contains("did not converge"), "{capped}");
    assert!(capped.contains("still succeeding"), "{capped}");
}

#[test]
fn lifecycle_hooks_enter_ring_on_freezing_and_flush_on_thawed() {
    let mut router = Router::with_ring_capacity(64);
    assert_eq!(router.mode(), Mode::Normal);
    router.enter_ring();
    assert_eq!(router.mode(), Mode::Ring);
    // Nothing lost: the thaw flushes silently.
    assert_eq!(router.flush_to_normal(), 0);
    assert_eq!(router.mode(), Mode::Normal);
    // Overflow the ring during a second window: the thaw reports the loss.
    router.enter_ring();
    for _ in 0..8 {
        router.write_record(&[b'x'; 30]);
    }
    assert!(router.lost() > 0);
    assert!(router.flush_to_normal() > 0);
    assert_eq!(router.mode(), Mode::Normal);
}

#[test]
fn start_recovery_requires_the_frozen_state() {
    let err = start_recovery(FreezeState::Thawed).unwrap_err();
    assert!(
        err.message().contains("requires the Frozen state"),
        "{err:?}"
    );
    assert_eq!(
        start_recovery(FreezeState::Frozen).unwrap(),
        vec![Effect::FreezingEntered, Effect::FrozenEntered]
    );
}

#[test]
fn rollback_tolerates_a_marker_removed_meanwhile() {
    // A hard error on the second target rolls back the first; if the marker
    // vanished during the freeze, its absence is not an error.
    let mut rig = Rig::nested();
    rig.kernel
        .freeze_errors
        .insert("/home/data".to_owned(), EIO);
    rig.gates.insert("/home/data".to_owned());
    assert!(rig.freeze().is_err(), "nothing was replied yet");
    rig.marker = false;
    rig.release();
    let text = message(freeze_reply(rig.replies.pop()));
    assert!(text.contains("freeze of /home/data failed"), "{text}");
    assert_eq!(rig.state(), FreezeState::Thawed);
    assert!(!rig.marker);
}

#[test]
fn status_reports_thawed_or_frozen() {
    for (state, expected, heartbeat) in [
        (FreezeState::Thawed, "\"thawed\"", false),
        (FreezeState::Freezing, "\"frozen\"", false),
        (FreezeState::Frozen, "\"frozen\"", true),
        (FreezeState::Thawing, "\"frozen\"", false),
    ] {
        let status = status(state);
        assert_eq!(to_text(&status.reply), expected, "{state:?}");
        assert_eq!(status.heartbeat, heartbeat, "heartbeat only while Frozen");
    }
}

#[test]
fn freeze_calls_fifreeze_in_reverse_mount_order_and_counts_successes() {
    let mut rig = Rig::nested();
    assert_eq!(rig.freeze(), Ok(Json::Uint(4)));
    assert_eq!(
        rig.fifreezes(),
        ["/home/data/deep", "/home/data", "/home", "/"]
    );
    assert!(rig.fithaws().is_empty());
    assert_eq!(rig.state(), FreezeState::Frozen);
    assert!(rig.marker);
    assert_eq!(rig.events(), ["freezing", "frozen"]);
    assert_eq!(rig.held(), 4);
    assert_eq!(rig.ctx.thaw_scope(), ThawScope::Held);
}

#[test]
fn freeze_without_marker_performs_no_ioctl() {
    let mut rig = Rig::nested();
    rig.marker_refused = true;
    let text = message(rig.freeze());
    assert!(text.contains("recovery marker"), "{text}");
    assert!(rig.kernel.calls.is_empty(), "no ioctl at all");
    assert_eq!(rig.state(), FreezeState::Thawed);
    assert_eq!(rig.events(), ["freezing", "thawed"]);
}

#[test]
fn eopnotsupp_is_skipped_not_counted_and_not_rolled_back() {
    let mut rig = Rig::nested();
    rig.kernel
        .freeze_errors
        .insert("/home/data".to_owned(), EOPNOTSUPP);
    assert_eq!(
        rig.freeze(),
        Ok(Json::Uint(3)),
        "skipped target is not counted"
    );
    assert_eq!(rig.state(), FreezeState::Frozen);
    assert!(rig.fithaws().is_empty());

    // A later hard error must not thaw the unsupported target.
    let mut rig = Rig::nested();
    rig.kernel
        .freeze_errors
        .insert("/home/data".to_owned(), EOPNOTSUPP);
    rig.kernel.freeze_errors.insert("/".to_owned(), EIO);
    let text = message(rig.freeze());
    assert!(text.contains("rolled back"), "{text}");
    assert_eq!(
        rig.fithaws(),
        ["/home", "/home", "/home/data/deep", "/home/data/deep"],
        "each processed target is drained (success + EINVAL); /home/data is not"
    );
    assert_eq!(rig.state(), FreezeState::Thawed);
    assert!(!rig.marker);
}

#[test]
fn ebusy_is_not_counted_but_is_retained_in_thaw_plan() {
    let mut rig = Rig::nested();
    rig.kernel.freeze_errors.insert("/home".to_owned(), EBUSY);
    assert_eq!(
        rig.freeze(),
        Ok(Json::Uint(3)),
        "EBUSY does not inflate the count"
    );
    assert_eq!(rig.state(), FreezeState::Frozen);

    // On rollback the EBUSY target is drained like the others.
    let mut rig = Rig::nested();
    rig.kernel.freeze_errors.insert("/home".to_owned(), EBUSY);
    rig.kernel.freeze_errors.insert("/".to_owned(), EIO);
    rig.freeze().unwrap_err();
    let mut drained = rig.fithaws();
    drained.dedup();
    assert_eq!(
        drained,
        ["/home", "/home/data", "/home/data/deep"],
        "forward order, the EBUSY target among them"
    );
}

#[test]
fn hard_error_rolls_back_processed_in_forward_order_and_reports_error() {
    let mut rig = Rig::nested();
    // Freeze order: deep, data, home, /. Fail on the second (data).
    rig.kernel
        .freeze_errors
        .insert("/home/data".to_owned(), EIO);
    assert_eq!(
        message(rig.freeze()),
        "freeze of /home/data failed: EIO: I/O error; rolled back"
    );
    assert_eq!(rig.fifreezes(), ["/home/data/deep", "/home/data"]);
    // Only the processed target is drained (once, then EINVAL).
    assert_eq!(rig.fithaws(), ["/home/data/deep", "/home/data/deep"]);
    assert!(!rig.marker);
    assert_eq!(rig.state(), FreezeState::Thawed);
    assert_eq!(rig.events(), ["freezing", "thawed"]);
    assert_eq!(rig.held(), 0);
}

#[test]
fn rollback_of_a_retained_target_already_thawed_by_its_freezer_completes() {
    // `deep` is frozen by another freezer (EBUSY, retained for thaw); the
    // freeze then fails hard on `data`. By the time the rollback drains
    // `deep`, the other freezer has thawed it: its first FITHAW answers EINVAL
    // with no success. That is the ordinary end of a drain, not a denial.
    let mut rig = Rig::nested();
    rig.kernel
        .freeze_errors
        .insert("/home/data/deep".to_owned(), EBUSY);
    rig.kernel
        .freeze_errors
        .insert("/home/data".to_owned(), EIO);
    rig.kernel
        .thaw_successes
        .insert("/home/data/deep".to_owned(), 0);
    assert_eq!(
        message(rig.freeze()),
        "freeze of /home/data failed: EIO: I/O error; rolled back"
    );
    assert_eq!(rig.fithaws(), ["/home/data/deep"]);
    assert!(!rig.marker, "nothing is frozen: the marker goes");
    assert_eq!(rig.state(), FreezeState::Thawed);
    assert_eq!(rig.events(), ["freezing", "thawed"]);
}

#[test]
fn rollback_with_an_uncertain_thaw_error_keeps_the_frozen_state_and_marker() {
    // deep and data were frozen, home fails hard; the rollback's FITHAW on
    // data fails with EIO. That is not the kernel's "not frozen" answer: data
    // may still be frozen, so the marker and the frozen state stay, and deep
    // is still drained.
    let mut rig = Rig::nested();
    rig.kernel.freeze_errors.insert("/home".to_owned(), EIO);
    rig.kernel.thaw_errors.insert("/home/data".to_owned(), EIO);
    let text = message(rig.freeze());
    assert!(
        text.contains("rollback of /home/data incomplete (FITHAW failed: EIO"),
        "{text}"
    );
    assert_eq!(
        rig.fithaws(),
        ["/home/data", "/home/data/deep", "/home/data/deep"]
    );
    assert!(rig.marker, "marker retained");
    assert_eq!(rig.state(), FreezeState::Frozen);
    assert_eq!(rig.events(), ["freezing", "frozen"]);
}

#[test]
fn freeze_while_not_thawed_is_generic_error() {
    for state in [
        FreezeState::Freezing,
        FreezeState::Frozen,
        FreezeState::Thawing,
    ] {
        let mut rig = Rig::new(state, NESTED);
        let text = message(rig.freeze());
        assert!(text.starts_with("cannot freeze: "), "{text}");
        assert!(rig.kernel.calls.is_empty());
        assert_eq!(rig.state(), state);
        assert!(rig.events().is_empty());
    }
}

#[test]
fn freeze_list_restricts_to_requested_mountpoints() {
    let mut rig = Rig::nested();
    let value = rig.freeze_list(Some(&["/home", "/home/data/deep", "/proc", "/nope"]));
    assert_eq!(value, Ok(Json::Uint(2)));
    assert_eq!(rig.fifreezes(), ["/home/data/deep", "/home"]);
    assert_eq!(rig.state(), FreezeState::Frozen);
    // Without `mountpoints` it behaves like a full freeze.
    let mut rig = Rig::nested();
    assert_eq!(rig.freeze_list(None), Ok(Json::Uint(4)));
}

#[test]
fn a_freeze_of_nothing_replies_nought_and_leaves_no_marker() {
    let mut rig = Rig::nested();
    let value = rig.freeze_list(Some(&["/nope", "/proc"]));
    assert_eq!(value, Ok(Json::Uint(0)));
    assert!(rig.fifreezes().is_empty());
    assert_eq!(rig.state(), FreezeState::Thawed);
    assert!(!rig.marker);
    assert_eq!(rig.events(), ["freezing", "thawed"]);
    // With a marker that cannot be removed the conservative state stays.
    let mut rig = Rig::nested();
    rig.marker_stuck = true;
    rig.freeze_list(Some(&["/nope"])).unwrap_err();
    assert_eq!(rig.state(), FreezeState::Frozen);
    assert!(rig.marker);
}

#[test]
fn thaw_drains_each_mountpoint_until_error_and_counts_once() {
    let mut rig = Rig::new(FreezeState::Frozen, SIMPLE);
    rig.kernel.thaw_successes.insert("/".to_owned(), 3);
    rig.kernel.thaw_successes.insert("/home".to_owned(), 1);
    assert_eq!(rig.thaw(), Ok(Json::Uint(2)));
    assert_eq!(
        rig.fithaws(),
        ["/", "/", "/", "/", "/home", "/home"],
        "3 + EINVAL on /, 1 + EINVAL on /home, forward order"
    );
    assert_eq!(rig.state(), FreezeState::Thawed);
    assert!(!rig.marker);
    assert_eq!(rig.events(), ["thaw_claimed", "thawed"]);
    // A target that never succeeds is not counted and does not fail the thaw
    // (EINVAL is the normal end of a drain).
    let mut rig = Rig::new(FreezeState::Frozen, SIMPLE);
    rig.kernel.thaw_successes.insert("/home".to_owned(), 0);
    assert_eq!(rig.thaw(), Ok(Json::Uint(1)));
    assert_eq!(rig.state(), FreezeState::Thawed);
}

#[test]
fn thaw_from_thawed_state_still_drains() {
    let mut rig = Rig::new(FreezeState::Thawed, SIMPLE);
    assert_eq!(rig.thaw(), Ok(Json::Uint(2)));
    assert_eq!(rig.fithaws().len(), 4);
    assert_eq!(rig.state(), FreezeState::Thawed);
    // No marker to remove is fine for a recovery drain.
    assert!(!rig.marker);
    assert_eq!(rig.events(), ["thaw_claimed", "thawed"]);
    // Thaw while a transition is in progress is refused.
    for state in [FreezeState::Freezing, FreezeState::Thawing] {
        let mut rig = Rig::new(state, SIMPLE);
        let text = message(rig.thaw());
        assert!(text.starts_with("cannot thaw: "), "{text}");
        assert!(rig.kernel.calls.is_empty());
        assert_eq!(rig.state(), state);
    }
}

#[test]
fn thaw_keeps_marker_and_returns_frozen_on_unrecoverable_failure() {
    let mut rig = Rig::new(FreezeState::Frozen, SIMPLE);
    rig.kernel.thaw_errors.insert("/home".to_owned(), EPERM);
    let text = message(rig.thaw());
    assert!(text.contains("marker retained"), "{text}");
    assert_eq!(rig.state(), FreezeState::Frozen);
    assert!(rig.marker);
    assert_eq!(
        rig.events(),
        ["thaw_claimed", "frozen"],
        "`frozen` arms the watchdog anew"
    );

    // Any other errno on a FITHAW is uncertain, not a completed drain. The
    // later target is still drained.
    let mut rig = Rig::new(FreezeState::Frozen, SIMPLE);
    rig.kernel.thaw_errors.insert("/".to_owned(), EIO);
    let text = message(rig.thaw());
    assert!(
        text.contains("thaw of / incomplete: FITHAW failed: EIO"),
        "{text}"
    );
    assert!(text.contains("marker retained"), "{text}");
    assert_eq!(rig.fithaws(), ["/", "/home", "/home"]);
    assert_eq!(rig.state(), FreezeState::Frozen);
    assert!(rig.marker);

    // A mountpoint that cannot be opened (EMFILE) never received a FITHAW at
    // all: nothing is known about the filesystem, so it is treated the same
    // way, and the reason says no ioctl ran.
    let mut rig = Rig::new(FreezeState::Frozen, SIMPLE);
    rig.kernel.open_errors.insert("/home".to_owned(), EMFILE);
    let text = message(rig.thaw());
    assert!(
        text.contains("no mount point leads to 8:2 (/home: cannot open mountpoint: EMFILE"),
        "{text}"
    );
    assert!(text.contains("no FITHAW issued"), "{text}");
    assert_eq!(rig.state(), FreezeState::Frozen);
    assert!(rig.marker);

    // The documented end of a drain on a target that was never frozen (EINVAL
    // at once) completes normally, as does a filesystem that does not support
    // freezing.
    let mut rig = Rig::new(FreezeState::Frozen, SIMPLE);
    rig.kernel.thaw_successes.insert("/".to_owned(), 0);
    rig.kernel
        .thaw_errors
        .insert("/home".to_owned(), EOPNOTSUPP);
    assert_eq!(rig.thaw(), Ok(Json::Uint(0)));
    assert_eq!(rig.state(), FreezeState::Thawed);
    assert!(!rig.marker);

    // A marker that cannot be removed is unrecoverable too.
    let mut rig = Rig::new(FreezeState::Frozen, SIMPLE);
    rig.marker_stuck = true;
    let text = message(rig.thaw());
    assert!(text.contains("cannot remove recovery marker"), "{text}");
    assert_eq!(rig.state(), FreezeState::Frozen);
}

#[test]
fn a_denied_thaw_still_drains_the_later_targets() {
    // EPERM on the first target must not skip the drain of the later ones:
    // everything that can be thawed is thawed, then the failure is reported
    // with the marker retained.
    let mut rig = Rig::new(FreezeState::Frozen, NESTED);
    rig.kernel.thaw_errors.insert("/".to_owned(), EPERM);
    let text = message(rig.thaw());
    assert!(
        text.contains("thaw of / incomplete: first FITHAW denied"),
        "{text}"
    );
    assert_eq!(
        rig.fithaws(),
        [
            "/",
            "/home",
            "/home",
            "/home/data",
            "/home/data",
            "/home/data/deep",
            "/home/data/deep",
        ],
        "every later target is drained (success + EINVAL)"
    );
    assert_eq!(rig.state(), FreezeState::Frozen);
    assert!(rig.marker);
    // A drain that never converges on one target does not stop the others
    // either.
    let mut rig = Rig::new(FreezeState::Frozen, NESTED);
    rig.kernel
        .thaw_successes
        .insert("/home".to_owned(), u32::MAX);
    let text = message(rig.thaw());
    assert!(text.contains("did not converge"), "{text}");
    assert!(rig.fithaws().contains(&"/home/data/deep"));
    assert_eq!(rig.state(), FreezeState::Frozen);
}

#[test]
fn recovery_drain_failure_returns_to_thawed() {
    // An unprivileged agent gets EPERM on the first FITHAW of a recovery drain
    // from Thawed: the error is reported but the state must not become Frozen,
    // since nothing was frozen.
    let mut rig = Rig::new(FreezeState::Thawed, SIMPLE);
    rig.kernel.thaw_errors.insert("/".to_owned(), EPERM);
    message(rig.thaw());
    assert_eq!(rig.state(), FreezeState::Thawed);
    assert!(!rig.marker);
    assert_eq!(rig.events(), ["thaw_claimed", "thawed"]);
    // From Frozen the same failure keeps the marker and the state.
    let mut rig = Rig::new(FreezeState::Frozen, SIMPLE);
    rig.kernel.thaw_errors.insert("/".to_owned(), EPERM);
    message(rig.thaw());
    assert_eq!(rig.state(), FreezeState::Frozen);
    assert!(rig.marker);
}

#[test]
fn drain_has_a_defensive_upper_bound_and_a_capped_drain_stays_frozen() {
    // With an unknown nesting depth beyond the bound at least one hold may
    // remain: the thaw fails, the state stays Frozen and the marker is
    // retained.
    let mut rig = Rig::new(FreezeState::Frozen, SIMPLE);
    rig.kernel.thaw_successes.insert("/".to_owned(), u32::MAX);
    let text = message(rig.thaw());
    assert!(
        text.contains("did not converge after 1024 FITHAW calls"),
        "{text}"
    );
    let root_calls = rig.fithaws().iter().filter(|p| **p == "/").count();
    assert_eq!(root_calls, MAX_THAW_ITERATIONS as usize);
    assert_eq!(rig.state(), FreezeState::Frozen);
    assert!(rig.marker);
}

#[test]
fn rollback_drains_every_processed_target_even_after_a_denied_one() {
    // Freeze order: deep, data, home, /. Fail hard on the third (home), so
    // deep and data were frozen; the rollback runs forward (data, then deep)
    // and the first FITHAW on data is denied. deep must still be drained.
    let mut rig = Rig::nested();
    rig.kernel.freeze_errors.insert("/home".to_owned(), EIO);
    rig.kernel
        .thaw_errors
        .insert("/home/data".to_owned(), EPERM);
    let text = message(rig.freeze());
    assert!(
        text.contains("rollback of /home/data incomplete (first FITHAW denied"),
        "{text}"
    );
    assert_eq!(
        rig.fifreezes(),
        ["/home/data/deep", "/home/data", "/home"]
    );
    assert_eq!(
        rig.fithaws(),
        ["/home/data", "/home/data/deep", "/home/data/deep"],
        "data denied at once; deep still drained (success + EINVAL)"
    );
    assert!(rig.marker, "marker retained");
    assert_eq!(rig.state(), FreezeState::Frozen);
    assert_eq!(rig.events(), ["freezing", "frozen"]);
}

#[test]
fn thawed_is_published_only_after_the_finalisation_hook() {
    // The finalisation (the audit flush) runs while the machine is still
    // `Thawing`, so a new freeze cannot be accepted until it has completed;
    // the same for a rollback (`Freezing`).
    let mut rig = Rig::new(FreezeState::Frozen, SIMPLE);
    rig.thaw().unwrap();
    assert_eq!(rig.states_at("thawed"), [FreezeState::Thawing]);
    assert_eq!(rig.state(), FreezeState::Thawed);
    // A recovery drain that fails still finalises before publishing.
    let mut rig = Rig::new(FreezeState::Thawed, SIMPLE);
    rig.kernel.thaw_errors.insert("/".to_owned(), EPERM);
    rig.thaw().unwrap_err();
    assert_eq!(rig.states_at("thawed"), [FreezeState::Thawing]);
    assert_eq!(rig.state(), FreezeState::Thawed);
    // Rollback after a hard freeze error.
    let mut rig = Rig::nested();
    rig.kernel
        .freeze_errors
        .insert("/home/data".to_owned(), EIO);
    rig.freeze().unwrap_err();
    assert_eq!(rig.states_at("thawed"), [FreezeState::Freezing]);
    assert_eq!(rig.state(), FreezeState::Thawed);
    // And the frozen side: `frozen` after `Frozen`, `freezing` in `Freezing`,
    // `thaw_claimed` in `Thawing`.
    let mut rig = Rig::nested();
    rig.freeze().unwrap();
    rig.thaw().unwrap();
    assert_eq!(rig.states_at("freezing"), [FreezeState::Freezing]);
    assert_eq!(rig.states_at("frozen"), [FreezeState::Frozen]);
    assert_eq!(rig.states_at("thaw_claimed"), [FreezeState::Thawing]);
    assert_eq!(rig.states_at("thawed"), [FreezeState::Thawing]);
}

#[test]
fn rollback_denied_thaw_keeps_the_frozen_state_and_marker() {
    // deep freezes, then /home/data fails hard; the rollback's first FITHAW on
    // deep is denied, so deep may still be frozen.
    let mut rig = Rig::nested();
    rig.kernel
        .freeze_errors
        .insert("/home/data".to_owned(), EIO);
    rig.kernel
        .thaw_errors
        .insert("/home/data/deep".to_owned(), EPERM);
    let text = message(rig.freeze());
    assert!(
        text.contains("rollback of /home/data/deep incomplete"),
        "{text}"
    );
    assert_eq!(rig.state(), FreezeState::Frozen);
    assert!(rig.marker, "marker retained");
    assert_eq!(rig.events(), ["freezing", "frozen"]);
    let text = message(rig.thaw());
    assert!(text.contains("denied: EPERM"), "{text}");
    assert_eq!(rig.state(), FreezeState::Frozen);
    assert!(rig.marker);
}

#[test]
fn rollback_that_cannot_remove_the_marker_keeps_the_frozen_state() {
    let mut rig = Rig::nested();
    rig.kernel
        .freeze_errors
        .insert("/home/data".to_owned(), EIO);
    rig.marker_stuck = true;
    let text = message(rig.freeze());
    assert!(
        text.contains("rolled back but cannot remove recovery marker"),
        "{text}"
    );
    assert_eq!(rig.state(), FreezeState::Frozen);
    assert!(rig.marker, "marker retained");
    assert_eq!(rig.events(), ["freezing", "frozen"]);
}

#[test]
fn a_thaw_drains_through_the_handles_its_freeze_opened() {
    // / (8:1, aliases /var/www and /mnt/rootbind) and /data (8:2, alias
    // /srv/exports). After the freeze every pathname of both superblocks leads
    // somewhere else: the thaw still reaches the frozen filesystems, through
    // the handles the freeze opened, without opening anything.
    let mut rig = Rig::new(FreezeState::Thawed, BIND_MOUNTS);
    assert_eq!(rig.freeze(), Ok(Json::Uint(2)));
    assert_eq!(rig.opens(), ["/data", "/"]);
    assert_eq!(rig.held(), 2, "one handle per processed target");
    for path in ["/", "/var/www", "/mnt/rootbind", "/data", "/srv/exports"] {
        rig.kernel.devices.insert(path.to_owned(), (8, 9));
    }
    rig.kernel.calls.clear();
    assert_eq!(rig.thaw(), Ok(Json::Uint(2)));
    assert!(rig.opens().is_empty(), "no pathname was consulted");
    assert_eq!(rig.fithaws(), ["/", "/", "/data", "/data"]);
    assert_eq!(rig.state(), FreezeState::Thawed);
    assert!(!rig.marker);
    assert_eq!(rig.held(), 0, "handles are released once drained");
    assert_eq!(rig.ctx.thaw_scope(), ThawScope::Discovery);
}

#[test]
fn a_recovery_thaw_reaches_a_hidden_superblock_through_an_alias() {
    // Nothing is held after a restart: the drain goes by pathnames, and /data
    // now leads to another filesystem (8:9). It is refused and the alias
    // /srv/exports reaches 8:2 instead.
    let mut rig = Rig::new(FreezeState::Frozen, BIND_MOUNTS);
    rig.kernel.devices.insert("/data".to_owned(), (8, 9));
    assert_eq!(rig.thaw(), Ok(Json::Uint(2)));
    assert_eq!(rig.opens(), ["/", "/data", "/srv/exports"]);
    assert_eq!(rig.fithaws(), ["/", "/", "/srv/exports", "/srv/exports"]);
    assert_eq!(rig.state(), FreezeState::Thawed);
    assert!(!rig.marker);
}

#[test]
fn an_unreachable_planned_superblock_keeps_the_marker_and_the_frozen_state() {
    // Every pathname of 8:2 fails (one leads elsewhere, the other cannot be
    // opened): nothing was asked of that filesystem, so the thaw is
    // incomplete; the other target is still drained, and the reason names
    // every attempt.
    let mut rig = Rig::new(FreezeState::Frozen, BIND_MOUNTS);
    rig.kernel.devices.insert("/data".to_owned(), (8, 9));
    rig.kernel
        .open_errors
        .insert("/srv/exports".to_owned(), ENOENT);
    let text = message(rig.thaw());
    assert!(text.contains("thaw of /data incomplete"), "{text}");
    assert!(
        text.contains(
            "no mount point leads to 8:2 (/data: mountpoint is on 8:9, not on the planned 8:2; /srv/exports: cannot open mountpoint: ENOENT"
        ),
        "{text}"
    );
    assert!(text.contains("); no FITHAW issued"), "{text}");
    assert!(text.contains("marker retained"), "{text}");
    assert_eq!(rig.fithaws(), ["/", "/"], "the other target is drained");
    assert_eq!(rig.state(), FreezeState::Frozen);
    assert!(rig.marker);
    assert_eq!(rig.events(), ["thaw_claimed", "frozen"]);
}

#[test]
fn a_freeze_reaches_a_hidden_superblock_through_an_alias_and_rolls_back_through_handles() {
    // /data leads elsewhere: the freeze opens 8:2 through /srv/exports.
    let mut rig = Rig::new(FreezeState::Thawed, BIND_MOUNTS);
    rig.kernel.devices.insert("/data".to_owned(), (8, 9));
    assert_eq!(rig.freeze(), Ok(Json::Uint(2)));
    assert_eq!(rig.opens(), ["/data", "/srv/exports", "/"]);
    assert_eq!(rig.fifreezes(), ["/srv/exports", "/"]);

    // A target none of whose pathnames opens on its device stops the freeze:
    // hard error, and the rollback drains the processed target through the
    // handle already open rather than reopening it.
    let mut rig = Rig::new(FreezeState::Thawed, BIND_MOUNTS);
    rig.kernel.devices.insert("/data".to_owned(), (8, 9));
    for path in ["/", "/var/www", "/mnt/rootbind"] {
        rig.kernel.open_errors.insert(path.to_owned(), EACCES);
    }
    let text = message(rig.freeze());
    assert!(
        text.starts_with(
            "freeze of / failed: no mount point leads to it (/: cannot open mountpoint: EACCES"
        ),
        "{text}"
    );
    assert!(
        text.contains("; /var/www: cannot open mountpoint: EACCES"),
        "{text}"
    );
    assert!(
        text.contains("; /mnt/rootbind: cannot open mountpoint: EACCES"),
        "{text}"
    );
    assert!(
        text.ends_with("); no FIFREEZE issued; rolled back"),
        "{text}"
    );
    assert_eq!(rig.fifreezes(), ["/srv/exports"]);
    assert_eq!(rig.fithaws(), ["/srv/exports", "/srv/exports"]);
    let reopened = rig
        .opens()
        .iter()
        .filter(|p| **p == "/srv/exports")
        .count();
    assert_eq!(reopened, 1, "the rollback used the freeze's handle");
    assert_eq!(rig.state(), FreezeState::Thawed);
    assert!(!rig.marker);
    assert_eq!(rig.held(), 0);
}

#[test]
fn an_alias_in_use_is_logged_and_a_first_pathname_that_works_is_not() {
    // A pathname that no longer leads to its superblock shows as an alias in
    // use, exactly when an alias was needed.
    let plan = build_plan(Ok(parse_mountinfo(BIND_MOUNTS.as_bytes())), &None).unwrap();
    let data = &plan.targets()[1];
    let mut search = OpenTarget::for_freeze(data);
    assert_eq!(search.path(), Some(&b"/data".to_vec()));
    assert!(!search.is_alias());
    search.failed(&KernelError::WrongFilesystem {
        expected: (8, 2),
        found: (8, 9),
    });
    assert_eq!(search.path(), Some(&b"/srv/exports".to_vec()));
    assert!(search.is_alias());
}

#[test]
fn a_requested_name_is_the_only_one_a_freeze_opens() {
    let plan = build_plan(
        Ok(parse_mountinfo(BIND_MOUNTS.as_bytes())),
        &Some(vec!["/srv/exports".to_owned()]),
    )
    .unwrap();
    let mut search = OpenTarget::for_freeze(&plan.targets()[0]);
    assert_eq!(search.path(), Some(&b"/srv/exports".to_vec()));
    search.failed(&KernelError::Open(ENOENT));
    assert_eq!(search.path(), None);
    // The thaw may use them all.
    let search = OpenTarget::for_thaw(&plan.targets()[0]);
    assert_eq!(search.path(), Some(&b"/data".to_vec()));
}

#[test]
fn an_open_failure_at_freeze_is_a_hard_error_not_a_skip() {
    // EOPNOTSUPP from open(2) is not the filesystem declining to freeze:
    // nothing was asked of it. The target is not skipped; the freeze fails and
    // rolls back like any other hard error.
    let mut rig = Rig::nested();
    rig.kernel
        .open_errors
        .insert("/home/data".to_owned(), EOPNOTSUPP);
    let text = message(rig.freeze());
    assert!(text.contains("freeze of /home/data failed"), "{text}");
    assert!(
        text.contains("cannot open mountpoint: EOPNOTSUPP"),
        "{text}"
    );
    assert!(text.contains("rolled back"), "{text}");
    assert_eq!(rig.fifreezes(), ["/home/data/deep"]);
    assert_eq!(rig.fithaws(), ["/home/data/deep", "/home/data/deep"]);
    assert_eq!(rig.state(), FreezeState::Thawed);
    assert!(!rig.marker);
}

#[test]
fn handles_whose_drain_is_incomplete_are_held_for_the_next_thaw() {
    let mut rig = Rig::nested();
    rig.freeze().unwrap();
    assert_eq!(rig.held(), 4);
    rig.kernel.thaw_errors.insert("/home".to_owned(), EIO);
    let text = message(rig.thaw());
    assert!(text.contains("marker retained"), "{text}");
    assert_eq!(rig.state(), FreezeState::Frozen);
    assert_eq!(rig.held(), 1, "only the undrained target keeps its handle");
    // The next thaw drains /home through that handle (no reopen) and reopens
    // the targets whose drain completed, since a pathname is all that is left
    // for those.
    rig.kernel.calls.clear();
    let _ = rig.thaw();
    let opens = rig.opens();
    assert!(!opens.contains(&"/home"), "{opens:?}");
    assert!(opens.contains(&"/"), "{opens:?}");
    assert!(rig.fithaws().contains(&"/home"));
    assert_eq!(rig.held(), 1);
}

#[test]
fn thaw_drains_held_mounts_when_mountinfo_read_fails() {
    // A thaw whose mount-table read fails still drains every held handle and
    // releases it, and only then reports the read failure: the marker and the
    // frozen state are retained, since targets frozen by an earlier instance
    // could not be discovered.
    let mut rig = Rig::nested();
    assert_eq!(rig.freeze(), Ok(Json::Uint(4)));
    assert_eq!(rig.held(), 4);
    let unread = "cannot read /proc/self/mountinfo: Too many open files (os error 24)";
    let table = std::mem::replace(&mut rig.table, Err(unread.to_owned()));
    rig.kernel.calls.clear();
    let text = message(rig.thaw());
    assert!(
        text.starts_with("cannot build thaw plan: ") && text.contains("Too many open files"),
        "{text}"
    );
    assert!(rig.opens().is_empty(), "no pathname was consulted");
    assert_eq!(
        rig.fithaws(),
        [
            "/",
            "/",
            "/home",
            "/home",
            "/home/data",
            "/home/data",
            "/home/data/deep",
            "/home/data/deep"
        ],
        "every held target is drained, in forward mount order"
    );
    assert_eq!(rig.held(), 0, "drained handles are released");
    assert_eq!(rig.state(), FreezeState::Frozen);
    assert!(rig.marker, "conservative: discovery failed");
    assert_eq!(
        rig.events(),
        ["freezing", "frozen", "thaw_claimed", "frozen"],
        "the watchdog is armed anew"
    );
    // Discovery works again: nothing is held any more, the drain goes by
    // pathnames and finds every target already thawed.
    rig.table = table;
    rig.kernel.calls.clear();
    assert_eq!(rig.thaw(), Ok(Json::Uint(0)));
    assert_eq!(rig.opens().len(), 4);
    assert_eq!(rig.state(), FreezeState::Thawed);
    assert!(!rig.marker);
}

#[test]
fn a_recovery_thaw_that_cannot_read_the_mount_table_stays_frozen() {
    // After a restart nothing is held: a failed read leaves nothing to drain,
    // and the marker and the frozen state are retained.
    let mut rig = Rig::new(FreezeState::Frozen, NESTED);
    rig.table = Err("cannot read /proc/self/mountinfo: EMFILE".to_owned());
    let text = message(rig.thaw());
    assert!(text.starts_with("cannot build thaw plan: "), "{text}");
    assert!(rig.kernel.calls.is_empty());
    assert_eq!(rig.state(), FreezeState::Frozen);
    assert!(rig.marker);
}

#[test]
fn an_incomplete_held_drain_is_reported_before_the_read_failure() {
    // Both retain the marker; the target that may still be frozen is the more
    // specific report, and its handle is kept.
    let mut rig = Rig::nested();
    rig.freeze().unwrap();
    rig.table = Err("cannot read /proc/self/mountinfo: EMFILE".to_owned());
    rig.kernel.thaw_errors.insert("/home".to_owned(), EACCES);
    let text = message(rig.thaw());
    assert!(
        text.starts_with("thaw of /home incomplete: first FITHAW denied: EACCES"),
        "{text}"
    );
    assert_eq!(rig.held(), 1, "only the incomplete handle is kept");
    assert_eq!(rig.state(), FreezeState::Frozen);
    assert!(rig.marker);
}

/// Freezes with `/home/data` blocked, and lets the deadline pass.
fn aborted_at_b() -> (Rig, String) {
    let mut rig = Rig::nested();
    rig.gates.insert("/home/data".to_owned());
    let _ = rig.freeze();
    rig.expire();
    let text = message(freeze_reply(rig.replies.pop()));
    assert_eq!(rig.fithaws(), ["/home/data/deep", "/home/data/deep"]);
    (rig, text)
}

#[test]
fn a_completed_target_is_thawed_while_a_later_fifreeze_is_still_blocked() {
    // Deepest-first: /home/data/deep (A), /home/data (B), /home (C), /. B
    // blocks in the kernel. When the operation deadline expires, A is drained
    // through its handle while B is still blocked, C is never authorised, the
    // request fails, and the marker and the frozen state stay until B settles.
    let (mut rig, text) = aborted_at_b();
    assert!(
        text.contains("deadline") && text.contains("/home/data") && text.contains("marker retained"),
        "{text}"
    );
    assert!(rig.blocked.is_some(), "B is still inside FIFREEZE");
    assert_eq!(rig.fifreezes(), ["/home/data/deep"]);
    assert_eq!(rig.held(), 0, "A's handle was released by its drain");
    assert!(rig.marker, "unresolved: B may still freeze");
    assert_eq!(rig.state(), FreezeState::Thawing);
    assert!(rig.state().is_frozen_for_gate());
    assert_eq!(to_text(&status(rig.state()).reply), "\"frozen\"");
    let progress = rig.driver.as_ref().unwrap().progress();
    assert_eq!(progress.phase, Phase::Recovering);
    assert_eq!(progress.in_flight.as_deref(), Some("/home/data"));
    assert_eq!(progress.recovered, 1);
    // A second freeze is refused; nothing new is authorised.
    let text = message(freeze(&mut rig.ctx.state).map(|_| Json::Null));
    assert!(text.contains("cannot freeze"), "{text}");
    assert_eq!(rig.events(), ["freezing", "thaw_claimed"]);
    // B completes late, successfully: it is accounted to the aborted operation
    // and drained through its own handle, then the marker goes and `Thawed` is
    // published; `frozen` was never entered.
    rig.release();
    assert_eq!(rig.state(), FreezeState::Thawed);
    assert_eq!(
        rig.fithaws(),
        [
            "/home/data/deep",
            "/home/data/deep",
            "/home/data",
            "/home/data"
        ]
    );
    assert_eq!(rig.fifreezes().len(), 2, "C never authorised");
    assert!(!rig.marker);
    assert_eq!(rig.held(), 0);
    assert_eq!(rig.events(), ["freezing", "thaw_claimed", "thawed"]);
    assert!(rig.replies.is_empty(), "one reply only");
    assert!(
        rig.ctx.freeze_op().is_none(),
        "the operation is released"
    );
    assert_eq!(rig.driver.as_ref().unwrap().stage(), &Stage::Settled);
    // And a new freeze is accepted again.
    rig.gates.clear();
    assert_eq!(rig.freeze(), Ok(Json::Uint(4)));
}

#[test]
fn a_late_error_after_the_abort_needs_no_recovery_and_ebusy_is_drained() {
    // B fails after the abort: nothing of B is frozen, so nothing is drained
    // for it, and the operation settles `Thawed`.
    let (mut rig, _) = aborted_at_b();
    rig.kernel
        .freeze_errors
        .insert("/home/data".to_owned(), EIO);
    rig.release();
    assert_eq!(rig.state(), FreezeState::Thawed);
    assert_eq!(rig.fithaws(), ["/home/data/deep", "/home/data/deep"]);
    assert!(!rig.marker);
    assert_eq!(rig.events(), ["freezing", "thaw_claimed", "thawed"]);
    // B answers EBUSY after the abort: retained and drained like any EBUSY
    // target, then `Thawed`.
    let (mut rig, _) = aborted_at_b();
    rig.kernel
        .freeze_errors
        .insert("/home/data".to_owned(), EBUSY);
    rig.release();
    assert_eq!(rig.state(), FreezeState::Thawed);
    assert_eq!(
        rig.fithaws(),
        [
            "/home/data/deep",
            "/home/data/deep",
            "/home/data",
            "/home/data"
        ]
    );
    assert!(!rig.marker);
    assert_eq!(rig.held(), 0);
}

#[test]
fn expiry_during_preparation_freezes_nothing_and_leaves_no_marker() {
    // The deadline expires while the mount table is still being read: the
    // preparation stays owned to its end, no target is ever authorised, the
    // marker it created is removed, and `Thawed` is published after the
    // finalisation.
    let mut rig = Rig::nested();
    rig.freeze_token = Some(freeze(&mut rig.ctx.state).unwrap());
    rig.start();
    rig.expire();
    let text = message(freeze_reply(rig.replies.pop()));
    assert!(text.contains("(preparing)"), "{text}");
    assert_eq!(rig.state(), FreezeState::Thawing);
    assert!(rig.kernel.calls.is_empty());
    let plan = rig.prepare(&None);
    assert!(rig.marker);
    let now = rig.now;
    rig.driver.as_mut().unwrap().prepared(plan, now);
    rig.pump();
    assert_eq!(rig.state(), FreezeState::Thawed);
    assert!(rig.kernel.calls.is_empty(), "no ioctl at all");
    assert!(!rig.marker, "the late marker was removed");
    assert_eq!(rig.events(), ["freezing", "thaw_claimed", "thawed"]);
    assert!(rig.ctx.freeze_op().is_none());
}

#[test]
fn a_blocked_recovery_drain_keeps_status_served_and_spawns_nothing_more() {
    // A's FITHAW blocks during the recovery pass: a freeze is refused, nothing
    // else is started, and once the drain returns the operation waits for B
    // alone.
    let mut rig = Rig::nested();
    rig.gates.insert("/home/data".to_owned());
    rig.drain_gate = true;
    let _ = rig.freeze();
    rig.expire();
    assert!(rig.draining.is_some());
    assert!(!rig.driver.as_ref().unwrap().progress().recovery_pass_done());
    assert_eq!(rig.status(), "\"frozen\"");
    assert_eq!(rig.driver.as_mut().unwrap().request_abort(), AbortRequest::Accepted);
    rig.pump();
    let refused = message(freeze(&mut rig.ctx.state).map(|_| Json::Null));
    assert!(refused.contains("cannot freeze"), "{refused}");
    assert!(rig.fithaws().is_empty(), "one drain, blocked");
    assert_eq!(rig.fifreezes().len(), 1, "no new worker");
    rig.drain_gate = false;
    rig.release_drain();
    let text = message(rig.thaw());
    assert!(
        text.contains("FIFREEZE of /home/data still in flight")
            && text.contains("1 target(s) thawed"),
        "{text}"
    );
    assert_eq!(rig.fithaws(), ["/home/data/deep", "/home/data/deep"]);
    rig.release();
    assert_eq!(rig.state(), FreezeState::Thawed);
    assert!(!rig.marker);
}

#[test]
fn a_thaw_during_the_walk_aborts_it_and_joins_the_recovery() {
    // The host gives up and sends a thaw while B is still inside FIFREEZE. The
    // thaw aborts the walk, A is drained once, C is never authorised, and both
    // requests report the outcome; a second thaw joins without draining
    // anything again.
    let mut rig = Rig::nested();
    rig.gates.insert("/home/data".to_owned());
    let _ = rig.freeze();
    let text = message(rig.thaw());
    assert!(text.contains("still in flight"), "{text}");
    let text = message(freeze_reply(rig.replies.pop()));
    assert!(text.contains("thaw requested"), "{text}");
    assert_eq!(rig.fithaws(), ["/home/data/deep", "/home/data/deep"]);
    let text = message(rig.thaw());
    assert!(text.contains("still in flight"), "{text}");
    assert_eq!(rig.fithaws().len(), 2, "no duplicate drain");
    assert!(rig.marker);
    rig.release();
    assert_eq!(rig.state(), FreezeState::Thawed);
    assert_eq!(rig.fithaws().len(), 4);
    assert!(!rig.marker);
    // Once settled, a thaw is an ordinary recovery drain again.
    rig.thaw().unwrap();
    assert_eq!(rig.state(), FreezeState::Thawed);
}

#[test]
fn an_incomplete_recovery_drain_settles_frozen_with_the_marker_and_the_watchdog() {
    // A's FITHAW is denied: the recovery is incomplete, so when B settles the
    // operation publishes `Frozen`, keeps the marker, and keeps A's handle for
    // the next drain; B itself was thawed.
    let mut rig = Rig::nested();
    rig.gates.insert("/home/data".to_owned());
    rig.kernel
        .thaw_errors
        .insert("/home/data/deep".to_owned(), EACCES);
    let _ = rig.freeze();
    rig.expire();
    rig.replies.clear();
    assert_eq!(rig.fithaws(), ["/home/data/deep"]);
    rig.release();
    assert_eq!(rig.state(), FreezeState::Frozen);
    assert_eq!(
        rig.fithaws(),
        ["/home/data/deep", "/home/data", "/home/data"]
    );
    assert!(rig.marker);
    assert_eq!(rig.held(), 1, "A's handle is kept for the next drain");
    assert_eq!(rig.events(), ["freezing", "thaw_claimed", "frozen"]);
    assert!(rig.ctx.freeze_op().is_none());
    // The next thaw is an ordinary one from `Frozen`: it retries A through the
    // kept handle (still denied here) and reports it.
    let text = message(rig.thaw());
    assert!(text.contains("/home/data/deep"), "{text}");
    assert_eq!(rig.state(), FreezeState::Frozen);
}

#[test]
fn repeated_commands_during_an_unresolved_operation_add_no_work() {
    let (mut rig, _) = aborted_at_b();
    let before = rig.kernel.calls.len();
    for _ in 0..5 {
        freeze(&mut rig.ctx.state).unwrap_err();
        freeze_list(
            &mut rig.ctx.state,
            FreezeListArgs {
                mountpoints: Some(vec!["/".to_owned()]),
            },
        )
        .unwrap_err();
        rig.thaw().unwrap_err();
    }
    assert_eq!(rig.kernel.calls.len(), before, "no ioctl, no open");
    assert!(rig.blocked.is_some(), "still the one worker");
    assert_eq!(rig.events(), ["freezing", "thaw_claimed"]);
    assert!(rig.ctx.freeze_op().is_some());
}

#[test]
fn a_lost_worker_leaves_its_target_uncertain() {
    let mut rig = Rig::nested();
    rig.gates.insert("/home/data".to_owned());
    let _ = rig.freeze();
    rig.blocked = None;
    let now = rig.now;
    rig.driver
        .as_mut()
        .unwrap()
        .worked(TargetOutcome::Lost("panicked".to_owned()), now);
    rig.pump();
    let _ = message(freeze_reply(rig.replies.pop()));
    assert_eq!(rig.state(), FreezeState::Frozen, "B may be frozen");
    assert!(rig.marker);
    assert_eq!(rig.fithaws(), ["/home/data/deep", "/home/data/deep"]);
    assert_eq!(rig.ctx.thaw_scope(), ThawScope::Discovery);
}

#[test]
fn lost_tasks_leave_everything_frozen() {
    // The preparation is lost: the marker it may have created is removed.
    let mut rig = Rig::nested();
    rig.freeze_token = Some(freeze(&mut rig.ctx.state).unwrap());
    rig.start();
    rig.marker = true;
    let now = rig.now;
    rig.driver
        .as_mut()
        .unwrap()
        .preparation_lost("panicked".to_owned(), now);
    rig.pump();
    let text = message(freeze_reply(rig.replies.pop()));
    assert!(text.contains("freeze task failed: panicked"), "{text}");
    assert_eq!(rig.state(), FreezeState::Thawed);
    assert!(!rig.marker);
    // The recovery drain is lost.
    let mut rig = Rig::nested();
    rig.gates.insert("/home/data".to_owned());
    rig.drain_gate = true;
    let _ = rig.freeze();
    rig.expire();
    rig.draining = None;
    rig.driver
        .as_mut()
        .unwrap()
        .drain_lost("panicked".to_owned());
    rig.drain_gate = false;
    rig.release();
    assert_eq!(rig.state(), FreezeState::Frozen);
    assert!(rig.marker);
}

#[test]
fn the_deadline_instant_itself_authorises_nothing() {
    // The worker's last check and the driver's decision agree on the boundary:
    // one tick before the deadline authorises, the deadline instant does not.
    let start = 5_000;
    let op = FreezeOp::new(start + 1_000);
    assert!(op.authorises(start));
    assert_eq!(op.abort_due(start), None);
    assert!(op.authorises(start + 999));
    assert_eq!(op.abort_due(start + 999), None);
    assert!(
        !op.authorises(start + 1_000),
        "the deadline instant is expired"
    );
    assert_eq!(op.abort_due(start + 1_000), Some(AbortCause::Deadline));
}

#[test]
fn abort_and_commit_compete_on_one_transition() {
    // A request accepted first makes the commit fail; a commit first makes the
    // request come back as committed; both are idempotent.
    let mut op = FreezeOp::new(u64::MAX);
    assert_eq!(op.request_abort(), AbortRequest::Accepted);
    assert_eq!(op.request_abort(), AbortRequest::Accepted);
    assert!(!op.try_commit(), "an accepted abort wins");
    assert_eq!(op.abort_due(0), Some(AbortCause::ThawRequested));
    let mut op = FreezeOp::new(u64::MAX);
    assert!(op.try_commit());
    assert!(!op.try_commit(), "committed once");
    assert_eq!(op.request_abort(), AbortRequest::Committed);
    assert_eq!(op.abort_due(0), None, "nothing to abort any more");
    // The driver's own abort is the same transition.
    let mut op = FreezeOp::new(u64::MAX);
    op.mark_aborting();
    assert!(!op.try_commit());
    assert_eq!(op.request_abort(), AbortRequest::Accepted);
}

#[test]
fn a_failure_says_whether_the_frozen_state_stays() {
    let marker = || MarkerError::Io {
        path: b"/run/q".to_vec(),
        source: "EIO".to_owned(),
    };
    let stop = || FreezeStop::Ioctl(KernelError::Errno(EIO));
    let failures = [
        (FreezeFailure::Plan("x".to_owned()), false),
        (FreezeFailure::Marker(marker()), false),
        (
            FreezeFailure::Hard {
                mountpoint: "/".to_owned(),
                cause: stop(),
            },
            false,
        ),
        (
            FreezeFailure::MarkerRetained {
                failed: "/".to_owned(),
                cause: stop(),
                marker: marker(),
            },
            true,
        ),
        (FreezeFailure::NothingFrozenMarkerRetained(marker()), true),
        (FreezeFailure::Task("x".to_owned()), false),
    ];
    for (failure, retains) in failures {
        assert_eq!(failure.retains_frozen_state(), retains, "{failure:?}");
    }
}

#[test]
fn a_settlement_publishes_the_state_before_it_is_announced() {
    let mount = || Mount {
        handle: 1,
        mountpoint: b"/".to_vec(),
        dev: (8, 1),
    };
    let plan = build_plan(Ok(parse_mountinfo(SIMPLE.as_bytes())), &Some(vec!["/".to_owned()]));
    let mut driver = Driver::new(TIMEOUT_SECS, TIMEOUT_SECS, Vec::new());
    driver.prepared(plan.map_err(FreezeFailure::Plan), 0);
    assert!(matches!(driver.take_effects()[..], [Effect::Freeze(_)]));
    driver.worked(TargetOutcome::Frozen(mount()), 0);
    // The handle is handed over once, ahead of the state.
    assert_eq!(
        driver.take_effects(),
        vec![
            Effect::Retire,
            Effect::Scope(ThawScope::Held),
            Effect::Hold(vec![mount()]),
            Effect::Transition(Transition::FreezeSucceeded),
            Effect::FrozenEntered,
            Effect::Announce,
            Effect::Reply(Ok(1)),
        ]
    );
    assert_eq!(driver.op().deadline(), TIMEOUT_SECS);

    // A thawed end is finalised while the state still refuses a new freeze.
    let mut driver = Driver::new(TIMEOUT_SECS, TIMEOUT_SECS, Vec::new());
    driver.prepared(Err(FreezeFailure::Plan("unreadable".to_owned())), 0);
    assert_eq!(
        driver.take_effects(),
        vec![
            Effect::Thawed,
            Effect::Retire,
            Effect::Scope(ThawScope::Discovery),
            Effect::Hold(Vec::new()),
            Effect::Transition(Transition::FreezeFailed),
            Effect::Announce,
            Effect::Reply(Err(FreezeFailure::Plan("unreadable".to_owned()))),
        ]
    );
}

#[test]
fn a_late_success_is_handed_to_a_second_drain() {
    let mount = |handle| Mount {
        handle,
        mountpoint: b"/".to_vec(),
        dev: (8, handle as u32),
    };
    let plan = build_plan(Ok(parse_mountinfo(NESTED.as_bytes())), &None);
    let mut driver = Driver::new(TIMEOUT_SECS, TIMEOUT_SECS, Vec::new());
    driver.prepared(plan.map_err(FreezeFailure::Plan), 0);
    driver.worked(TargetOutcome::Frozen(mount(1)), 0);
    driver.take_effects();
    driver.abort_signal(AbortCause::Deadline);
    assert_eq!(driver.take_effects().pop(), Some(Effect::Recover(vec![mount(1)])));
    // The worker was past its last check; its handle waits for the drain.
    driver.worked(TargetOutcome::Frozen(mount(2)), TIMEOUT_SECS);
    assert_eq!(driver.take_effects(), Vec::new());
    driver.drained(RecoveryPass {
        recovered: 1,
        keep: Vec::new(),
        incomplete: None,
    });
    assert_eq!(driver.take_effects(), vec![Effect::Recover(vec![mount(2)])]);
    driver.drained(RecoveryPass {
        recovered: 1,
        keep: Vec::new(),
        incomplete: None,
    });
    assert_eq!(driver.take_effects(), vec![Effect::RemoveMarker]);
    driver.removed(Ok(()));
    assert_eq!(driver.progress().settled, Some(FreezeState::Thawed));
    assert_eq!(driver.progress().recovered, 2);
}

#[test]
fn freeze_creates_marker_before_first_fifreeze() {
    let mut rig = Rig::nested();
    assert!(!rig.marker);
    rig.freeze().unwrap();
    assert_eq!(rig.kernel.marker_at_freezes, [true, true, true, true]);
}

#[test]
fn thaw_removes_marker_only_after_all_drains() {
    let mut rig = Rig::new(FreezeState::Frozen, NESTED);
    rig.thaw().unwrap();
    let seen = &rig.kernel.marker_at_thaws;
    assert_eq!(seen.len(), 8, "4 targets x (1 success + EINVAL)");
    assert!(seen.iter().all(|present| *present));
    assert!(!rig.marker);
}

#[test]
fn thaw_cancels_watchdog_and_flushes_audit() {
    let mut rig = Rig::new(FreezeState::Frozen, SIMPLE);
    rig.thaw().unwrap();
    assert!(!rig.events_at_drains.is_empty());
    for events in &rig.events_at_drains {
        assert_eq!(
            *events,
            ["thaw_claimed"],
            "drain runs after thaw_claimed and before thawed"
        );
    }
    assert_eq!(rig.events(), ["thaw_claimed", "thawed"]);
    // Full cycle ordering.
    let mut rig = Rig::nested();
    rig.freeze().unwrap();
    rig.status();
    rig.thaw().unwrap();
    assert_eq!(
        rig.events(),
        ["freezing", "frozen", "heartbeat", "thaw_claimed", "thawed"]
    );
}

#[test]
fn lifecycle_hooks_arm_watchdog_and_idle_timeout_drains() {
    let mut rig = Rig::lifecycle(30, 300);
    rig.freeze().unwrap();
    assert!(rig.watchdog.is_some(), "armed on Frozen");
    assert!(rig.marker);
    // Heartbeats keep it frozen.
    for _ in 0..4 {
        rig.pass(20);
        rig.status();
    }
    assert_eq!(rig.state(), FreezeState::Frozen);
    // Silence: the idle timeout drains, removes the marker, thaws.
    rig.pass(30);
    assert_eq!(rig.state(), FreezeState::Thawed);
    assert!(!rig.marker);
    assert_eq!(
        rig.fithaws().len(),
        4,
        "two targets drained (success + EINVAL each)"
    );
}

#[test]
fn lifecycle_hooks_cancel_watchdog_on_manual_thaw() {
    let mut rig = Rig::lifecycle(30, 300);
    rig.freeze().unwrap();
    assert_eq!(rig.thaw().unwrap(), Json::Uint(2));
    assert!(rig.watchdog.is_none(), "handle taken on thaw_claimed");
    let before = rig.kernel.calls.len();
    rig.pass(1_000);
    assert_eq!(
        rig.kernel.calls.len(),
        before,
        "no watchdog drain after a manual thaw"
    );
    assert_eq!(rig.state(), FreezeState::Thawed);
}

#[test]
fn unrecoverable_thaw_failure_rearms_watchdog() {
    // `Thawing` to `Frozen` is an entry into `Frozen` like any other: after a
    // manual thaw fails with the marker retained the watchdog is armed again,
    // and when the watchdog's own drain fails, it is armed yet again.
    let mut rig = Rig::lifecycle(30, 300);
    rig.freeze().unwrap();
    rig.kernel.thaw_errors.insert("/".to_owned(), EPERM);
    let text = message(rig.thaw());
    assert!(text.contains("marker retained"), "{text}");
    assert_eq!(rig.state(), FreezeState::Frozen);
    assert!(rig.watchdog.is_some(), "re-armed after the failed thaw");
    let before = rig.kernel.calls.len();
    rig.pass(31);
    assert!(
        rig.kernel.calls[before..].contains(&Call::Fithaw("/home".to_owned())),
        "the watchdog drain still thaws what it can"
    );
    assert_eq!(rig.state(), FreezeState::Frozen);
    assert!(rig.marker);
    assert!(
        rig.watchdog.is_some(),
        "re-armed after the watchdog's own failed drain"
    );
}

#[test]
fn lifecycle_hooks_hard_cap_wins_over_heartbeats() {
    let mut rig = Rig::lifecycle(30, 60);
    rig.freeze().unwrap();
    for _ in 0..6 {
        rig.pass(10);
        rig.status();
    }
    assert_eq!(rig.state(), FreezeState::Thawed, "thawed at the 60 s cap");
    assert!(!rig.marker);
}

#[test]
fn a_thaw_finalisation_cannot_touch_the_logging_of_a_newer_freeze() {
    // The flush of a completed thaw comes before the state is published as
    // `Thawed`: a freeze that arrives meanwhile is refused.
    let end = conclude_thaw(Ok(2), false);
    let flush = end.effects.iter().position(|e| *e == Effect::Thawed);
    let publish = end
        .effects
        .iter()
        .position(|e| *e == Effect::Transition(Transition::ThawSucceeded));
    assert!(flush.unwrap() < publish.unwrap());
    let mut machine = FreezeStateMachine::starting_in(FreezeState::Thawing);
    let err = freeze(&mut machine).unwrap_err();
    assert!(err.message().contains("cannot freeze"), "{err:?}");
    // Through the router: nothing is delivered between the freeze and the
    // thaw, in either window.
    let mut rig = Rig::new(FreezeState::Thawed, SIMPLE);
    let mut router = Router::new();
    for line in [b"first\n".as_slice(), b"second\n"] {
        rig.freeze().unwrap();
        router.enter_ring();
        router.write_record(line);
        assert_eq!(router.mode(), Mode::Ring);
        assert_eq!(router.next_write(), Next::Wait);
        rig.thaw().unwrap();
        router.flush_to_normal();
        assert_eq!(router.mode(), Mode::Normal);
        assert_eq!(router.next_write(), Next::Write(Item::Line(line.to_vec())));
        router.finish_write(true);
    }
}

fn bind_target(names: Option<&str>) -> Target {
    let restrict = names.map(|name| vec![name.to_owned()]);
    let plan = build_plan(Ok(parse_mountinfo(BIND_MOUNTS.as_bytes())), &restrict).unwrap();
    plan.targets()
        .iter()
        .find(|target| target.mountpoint == b"/data")
        .unwrap()
        .clone()
}

#[test]
fn a_worker_checks_after_opening_and_right_before_the_ioctl() {
    let op = FreezeOp::new(10);
    let mut worker = FreezeWorker::new(&bind_target(None));
    assert_eq!(
        worker.step(),
        WorkerStep::Open {
            path: b"/data".to_vec(),
            dev: (8, 2)
        }
    );
    assert!(!worker.is_alias());
    worker.open_failed(&KernelError::Open(2));
    assert_eq!(
        worker.step(),
        WorkerStep::Open {
            path: b"/srv/exports".to_vec(),
            dev: (8, 2)
        }
    );
    assert!(worker.is_alias());
    worker.opened(7);
    assert_eq!(worker.step(), WorkerStep::Check);
    worker.checked(&op, 9);
    assert_eq!(worker.step(), WorkerStep::Freeze { handle: 7 });
    worker.answered(Ok(()));
    assert_eq!(worker.step(), WorkerStep::Done);
    let (outcome, close) = worker.finish();
    assert_eq!(
        outcome,
        TargetOutcome::Frozen(Mount {
            handle: 7,
            mountpoint: b"/srv/exports".to_vec(),
            dev: (8, 2)
        })
    );
    assert_eq!(close, None, "the handle is held for the drain");
}

#[test]
fn a_worker_that_is_too_late_closes_its_handle_and_issues_nothing() {
    // The deadline passed while the target was being opened.
    let op = FreezeOp::new(10);
    let mut worker = FreezeWorker::new(&bind_target(None));
    worker.opened(7);
    worker.checked(&op, 10);
    assert_eq!(worker.step(), WorkerStep::Done);
    assert_eq!(worker.finish(), (TargetOutcome::NotAuthorized, Some(7)));
    // So it does when the abort committed.
    let mut op = FreezeOp::new(10);
    op.aborted = true;
    let mut worker = FreezeWorker::new(&bind_target(None));
    worker.opened(8);
    worker.checked(&op, 0);
    assert_eq!(worker.finish(), (TargetOutcome::NotAuthorized, Some(8)));
}

#[test]
fn a_worker_without_a_name_that_leads_there_is_unreachable() {
    // A requested target is opened on its requested name and on nothing else.
    let mut worker = FreezeWorker::new(&bind_target(Some("/data")));
    assert_eq!(
        worker.step(),
        WorkerStep::Open {
            path: b"/data".to_vec(),
            dev: (8, 2)
        }
    );
    worker.open_failed(&KernelError::WrongFilesystem {
        expected: (8, 2),
        found: (8, 3),
    });
    assert_eq!(worker.step(), WorkerStep::Done);
    assert_eq!(
        worker.finish(),
        (
            TargetOutcome::Failed(FreezeStop::Unreachable(
                "/data: mountpoint is on 8:3, not on the planned 8:2".to_owned()
            )),
            None
        )
    );
}

#[test]
fn a_worker_closes_a_handle_that_nothing_was_frozen_through() {
    for (answer, closes) in [
        (KernelError::Errno(EOPNOTSUPP), true),
        (KernelError::Errno(EBUSY), false),
        (KernelError::Errno(EPERM), true),
    ] {
        let mut worker = FreezeWorker::new(&bind_target(None));
        worker.opened(3);
        worker.checked(&FreezeOp::new(1), 0);
        worker.answered(Err(answer));
        let (outcome, close) = worker.finish();
        assert_eq!(close, closes.then_some(3), "{outcome:?}");
    }
}

#[test]
fn a_preparation_makes_the_plan_then_the_marker() {
    let mounts = || Ok(parse_mountinfo(BIND_MOUNTS.as_bytes()));
    let mut preparation = Preparation::new(None);
    assert_eq!(preparation.step(), PreparationStep::ReadMounts);
    preparation.read(mounts());
    assert_eq!(preparation.step(), PreparationStep::CreateMarker);
    preparation.created(Ok(()));
    assert_eq!(preparation.step(), PreparationStep::Done);
    assert_eq!(preparation.finish().unwrap().targets().len(), 2);

    let mut preparation = Preparation::new(Some(vec!["/data".to_owned()]));
    preparation.read(mounts());
    preparation.created(Ok(()));
    let plan = preparation.finish().unwrap();
    assert_eq!(plan.targets().len(), 1);
    assert_eq!(plan.targets()[0].requested, Some(b"/data".to_vec()));

    let mut preparation = Preparation::new(None);
    preparation.read(Err("unreadable".to_owned()));
    assert_eq!(preparation.step(), PreparationStep::Done, "no marker");
    assert_eq!(
        preparation.finish().unwrap_err(),
        FreezeFailure::Plan("unreadable".to_owned())
    );

    let mut preparation = Preparation::new(None);
    preparation.read(mounts());
    let refused = || MarkerError::InvalidPath {
        path: b"/run".to_vec(),
    };
    preparation.created(Err(refused()));
    assert_eq!(
        preparation.finish().unwrap_err(),
        FreezeFailure::Marker(refused())
    );
}

#[test]
fn a_recovery_drain_is_out_only_after_an_abort() {
    let mount = |handle| Mount {
        handle,
        mountpoint: b"/".to_vec(),
        dev: (8, 1),
    };
    let mut driver = Driver::new(10, 10, vec![mount(1)]);
    assert!(!driver.is_recovering());
    driver.abort_signal(AbortCause::ThawRequested);
    assert!(driver.is_recovering());
    driver.drained(RecoveryPass {
        recovered: 1,
        keep: Vec::new(),
        incomplete: None,
    });
    assert!(!driver.is_recovering());
}
