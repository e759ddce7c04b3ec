//! The startup sequence as a state machine: it is told what came of each step
//! and says whether the next one is taken or the process leaves.

use vstd::prelude::*;
use vstd::string::*;

use crate::channel::OpenError;
use crate::channel;
use crate::config::{Config, ConfigError, Hardening};
use crate::daemon::{check_hardening, BuildProfile, PrivilegeError, RunError};
use crate::daemon;
use crate::freeze_plan::{clone_path, FreezePlan};
use crate::freeze_plan;
use crate::marker::MarkerError;
use crate::mountinfo::MountEntry;
use crate::state::{FreezeState, FreezeStateMachine};

verus! {

/// The step to be taken next.
#[derive(Debug, Clone, Copy, PartialEq, Eq, Structural)]
pub enum Step {
    /// Load the configuration.
    Configure,
    /// Open the marker's directory and look for the marker.
    OpenMarker,
    /// Start logging.
    StartLogging,
    /// Read the mount table.
    ReadMounts,
    /// Try to open the channel, once.
    OpenChannel,
    /// Drop the capabilities.
    DropPrivileges,
    /// Start the audit writer thread.
    StartWriter,
    /// Install the seccomp filter.
    InstallFilter,
    /// Serve the host.
    Serve,
    /// Leave: a step failed.
    Leave,
}

/// The startup sequence.
#[derive(Debug)]
pub struct Startup {
    step: Step,
    enforced: bool,
    state_path: String,
    recovery: bool,
    marker_dev: (u32, u32),
    channel: bool,
    dropped: bool,
    filtered: bool,
}

/// The startup sequence as a mathematical value.
#[verifier::ext_equal]
pub ghost struct StartupView {
    pub step: Step,
    /// Hardening is enforced.
    pub enforced: bool,
    /// The configured path of the marker.
    pub state_path: Seq<char>,
    /// The marker was found.
    pub recovery: bool,
    /// The device of the marker's directory.
    pub marker_dev: (u32, u32),
    /// The channel is open.
    pub channel: bool,
    /// The capabilities were dropped.
    pub dropped: bool,
    /// The seccomp filter was installed.
    pub filtered: bool,
}

impl View for Startup {
    type V = StartupView;

    closed spec fn view(&self) -> StartupView {
        StartupView {
            step: self.step,
            enforced: self.enforced,
            state_path: self.state_path@,
            recovery: self.recovery,
            marker_dev: self.marker_dev,
            channel: self.channel,
            dropped: self.dropped,
            filtered: self.filtered,
        }
    }
}

impl StartupView {
    /// Leaves.
    pub open spec fn left(self) -> StartupView {
        StartupView { step: Step::Leave, ..self }
    }

    /// Before the first step.
    pub open spec fn start() -> StartupView {
        StartupView {
            step: Step::Configure,
            enforced: false,
            state_path: Seq::empty(),
            recovery: false,
            marker_dev: (0, 0),
            channel: false,
            dropped: false,
            filtered: false,
        }
    }

    /// What a step comes to: the next one, or the end. Under enforced hardening
    /// the drop and the filter are passed only when they are in place.
    pub open spec fn leads_to(self, next: StartupView) -> bool {
        ||| next == self.left()
        ||| match self.step {
            Step::Configure => next == (StartupView {
                step: Step::OpenMarker,
                enforced: next.enforced,
                state_path: next.state_path,
                ..self
            }),
            Step::OpenMarker => next == (StartupView {
                step: Step::StartLogging,
                recovery: next.recovery,
                marker_dev: next.marker_dev,
                ..self
            }),
            Step::StartLogging => next == (StartupView { step: Step::ReadMounts, ..self }),
            Step::ReadMounts => next == (StartupView { step: Step::OpenChannel, ..self }),
            Step::OpenChannel => next == (StartupView {
                step: Step::DropPrivileges,
                channel: next.channel,
                ..self
            }),
            Step::DropPrivileges => next == (StartupView {
                step: Step::StartWriter,
                dropped: next.dropped,
                ..self
            }) && (next.dropped || !self.enforced),
            Step::StartWriter => next == (StartupView { step: Step::InstallFilter, ..self }),
            Step::InstallFilter => next == (StartupView {
                step: Step::Serve,
                filtered: next.filtered,
                ..self
            }) && (next.filtered || !self.enforced),
            Step::Serve | Step::Leave => false,
        }
    }

    /// What holds of every startup: the host is served under enforced
    /// hardening only after the capabilities were dropped and the filter was
    /// installed.
    pub open spec fn valid(self) -> bool {
        &&& self.enforced && (self.step == Step::StartWriter || self.step == Step::InstallFilter
            || self.step == Step::Serve) ==> self.dropped
        &&& self.enforced && self.step == Step::Serve ==> self.filtered
    }
}

/// The first mount on a device.
pub open spec fn mount_on(mounts: Seq<MountEntry>, dev: (u32, u32)) -> Seq<u8>
    decreases mounts.len(),
{
    if mounts.len() == 0 {
        Seq::empty()
    } else if mounts[0].spec_dev() == dev {
        mounts[0].mount_point@
    } else {
        mount_on(mounts.skip(1), dev)
    }
}

fn find_mount(mounts: &Vec<MountEntry>, dev: (u32, u32)) -> (mount: Vec<u8>)
    ensures
        mount@ == mount_on(mounts@, dev),
{
    let mut i: usize = 0;
    proof {
        assert(mounts@.skip(0) =~= mounts@);
    }
    while i < mounts.len()
        invariant
            i <= mounts@.len(),
            mount_on(mounts@, dev) == mount_on(mounts@.skip(i as int), dev),
        decreases mounts.len() - i,
    {
        proof {
            assert(mounts@.skip(i as int).skip(1) =~= mounts@.skip(i + 1));
            assert(mounts@.skip(i as int)[0] == mounts@[i as int]);
        }
        if mounts[i].major == dev.0 && mounts[i].minor == dev.1 {
            return clone_path(&mounts[i].mount_point);
        }
        i = i + 1;
    }
    Vec::new()
}

impl Startup {
    /// Before the first step.
    pub fn new() -> (startup: Startup)
        ensures
            startup@ == StartupView::start(),
            startup@.valid(),
    {
        let startup = Startup {
            step: Step::Configure,
            enforced: false,
            state_path: String::new(),
            recovery: false,
            marker_dev: (0, 0),
            channel: false,
            dropped: false,
            filtered: false,
        };
        proof {
            assert(startup@.state_path =~= Seq::empty());
        }
        startup
    }

    /// The step to be taken next.
    pub fn step(&self) -> (step: Step)
        ensures
            step == self@.step,
    {
        self.step
    }

    /// Whether the marker was found: the state starts `Frozen` and logging in
    /// ring mode.
    pub fn recovery(&self) -> (recovery: bool)
        ensures
            recovery == self@.recovery,
    {
        self.recovery
    }

    /// The state machine to serve with.
    pub fn initial_state(&self) -> (machine: FreezeStateMachine)
        ensures
            machine@ == if self@.recovery {
                FreezeState::Frozen
            } else {
                FreezeState::Thawed
            },
    {
        if self.recovery {
            FreezeStateMachine::starting_in(FreezeState::Frozen)
        } else {
            FreezeStateMachine::new()
        }
    }

    /// The configuration was loaded, or not. What the profile cannot enforce is
    /// refused here, before the marker is even opened: a refusal leaves it as
    /// it was, for the next start to act on.
    pub fn configured(
        &mut self,
        loaded: Result<Config, ConfigError>,
        build: &BuildProfile,
    ) -> (result: Result<Config, RunError>)
        requires
            old(self)@.step == Step::Configure,
        ensures
            final(self)@.valid(),
            old(self)@.leads_to(final(self)@),
            match (loaded, result) {
                (Err(err), Err(said)) => said@ == daemon::RunErrorView::Config(err@)
                    && final(self)@ == old(self)@.left(),
                (Ok(config), Err(said)) => {
                    &&& daemon::hardening_fault(config, *build) matches Some(why) && said@
                        == daemon::RunErrorView::Hardening(why)
                    &&& final(self)@ == old(self)@.left()
                },
                (Ok(config), Ok(same)) => {
                    &&& daemon::hardening_fault(config, *build) is None
                    &&& same == config
                    &&& final(self)@ == (StartupView {
                        step: Step::OpenMarker,
                        enforced: config.agent.hardening == Hardening::Enforced,
                        state_path: config.agent.state_path@,
                        ..old(self)@
                    })
                },
                _ => false,
            },
    {
        self.step = Step::Leave;
        match loaded {
            Err(err) => Err(RunError::Config(err)),
            Ok(config) => match check_hardening(&config, build) {
                Err(err) => Err(err),
                Ok(()) => {
                    self.step = Step::OpenMarker;
                    self.enforced = config.agent.hardening.is_enforced();
                    self.state_path = config.agent.state_path.clone();
                    Ok(config)
                },
            },
        }
    }

    /// The marker's directory was opened: whether the marker is there, and the
    /// directory's device.
    pub fn marker_opened(
        &mut self,
        opened: Result<(bool, (u32, u32)), MarkerError>,
    ) -> (result: Result<(), RunError>)
        requires
            old(self)@.step == Step::OpenMarker,
        ensures
            final(self)@.valid(),
            old(self)@.leads_to(final(self)@),
            match (opened, result) {
                (Err(err), Err(said)) => said@ == daemon::RunErrorView::Marker(err@)
                    && final(self)@ == old(self)@.left(),
                (Ok((found, dev)), Ok(())) => final(self)@ == (StartupView {
                    step: Step::StartLogging,
                    recovery: found,
                    marker_dev: dev,
                    ..old(self)@
                }),
                _ => false,
            },
    {
        match opened {
            Err(err) => {
                self.step = Step::Leave;
                Err(RunError::Marker(err))
            },
            Ok((found, dev)) => {
                self.step = Step::StartLogging;
                self.recovery = found;
                self.marker_dev = dev;
                Ok(())
            },
        }
    }

    /// Logging was started, or not.
    pub fn logging_started(&mut self, started: Result<(), String>) -> (result: Result<(), RunError>)
        requires
            old(self)@.step == Step::StartLogging,
        ensures
            final(self)@.valid(),
            old(self)@.leads_to(final(self)@),
            match (started, result) {
                (Err(why), Err(said)) => said@ == daemon::RunErrorView::Runtime(why@)
                    && final(self)@ == old(self)@.left(),
                (Ok(()), Ok(())) => final(self)@ == (StartupView {
                    step: Step::ReadMounts,
                    ..old(self)@
                }),
                _ => false,
            },
    {
        match started {
            Err(why) => {
                self.step = Step::Leave;
                Err(RunError::Runtime(why))
            },
            Ok(()) => {
                self.step = Step::ReadMounts;
                Ok(())
            },
        }
    }

    /// The mount table was read, or not. A marker on a filesystem that the plan
    /// would freeze is refused: the device of the directory decides, not the
    /// pathname.
    pub fn mounts_read(&mut self, mounts: Result<Vec<MountEntry>, String>) -> (result: Result<
        (),
        RunError,
    >)
        requires
            old(self)@.step == Step::ReadMounts,
        ensures
            final(self)@.valid(),
            old(self)@.leads_to(final(self)@),
            match (mounts, result) {
                (Err(why), Err(said)) => said@ == daemon::RunErrorView::MountTable(why@)
                    && final(self)@ == old(self)@.left(),
                (Ok(mounts), Err(said)) => {
                    &&& freeze_plan::has_dev(
                        freeze_plan::planned(mounts@),
                        old(self)@.marker_dev,
                    )
                    &&& said@ == (daemon::RunErrorView::StatePath {
                        path: old(self)@.state_path,
                        mount: mount_on(mounts@, old(self)@.marker_dev),
                        dev: old(self)@.marker_dev,
                    })
                    &&& final(self)@ == old(self)@.left()
                },
                (Ok(mounts), Ok(())) => {
                    &&& !freeze_plan::has_dev(
                        freeze_plan::planned(mounts@),
                        old(self)@.marker_dev,
                    )
                    &&& final(self)@ == (StartupView { step: Step::OpenChannel, ..old(self)@ })
                },
                _ => false,
            },
    {
        match mounts {
            Err(why) => {
                self.step = Step::Leave;
                Err(RunError::MountTable(why))
            },
            Ok(mounts) => {
                let plan = FreezePlan::build(&mounts);
                if plan.covers_device(self.marker_dev) {
                    self.step = Step::Leave;
                    return Err(
                        RunError::StatePath {
                            path: self.state_path.clone(),
                            mount: find_mount(&mounts, self.marker_dev),
                            dev: self.marker_dev,
                        },
                    );
                }
                self.step = Step::OpenChannel;
                Ok(())
            },
        }
    }

    /// One attempt was made to open the channel. A port held by another process
    /// is terminal; after any other failure the runtime retries once the
    /// privileges are dropped, so a missing device never delays the drop, the
    /// filter or the recovery watchdog.
    pub fn channel_tried(&mut self, opened: Result<(), OpenError>) -> (result: Result<
        (),
        RunError,
    >)
        requires
            old(self)@.step == Step::OpenChannel,
        ensures
            final(self)@.valid(),
            old(self)@.leads_to(final(self)@),
            match (opened, result) {
                (Err(err), Err(said)) => err@ is AlreadyOpen && said@
                    == daemon::RunErrorView::Channel(err@) && final(self)@ == old(self)@.left(),
                (Err(err), Ok(())) => err@ !is AlreadyOpen && final(self)@ == (StartupView {
                    step: Step::DropPrivileges,
                    channel: false,
                    ..old(self)@
                }),
                (Ok(()), Ok(())) => final(self)@ == (StartupView {
                    step: Step::DropPrivileges,
                    channel: true,
                    ..old(self)@
                }),
                _ => false,
            },
    {
        match opened {
            Err(err) => {
                if err.is_terminal() {
                    self.step = Step::Leave;
                    return Err(RunError::Channel(err));
                }
                self.channel = false;
            },
            Ok(()) => {
                self.channel = true;
            },
        }
        self.step = Step::DropPrivileges;
        Ok(())
    }

    /// The capabilities were dropped, or the drop was skipped because the
    /// process is unprivileged, or it failed. Enforced hardening accepts only
    /// the drop.
    pub fn privileges_dropped(&mut self, dropped: Result<bool, PrivilegeError>) -> (result: Result<
        (),
        RunError,
    >)
        requires
            old(self)@.step == Step::DropPrivileges,
        ensures
            final(self)@.valid(),
            old(self)@.leads_to(final(self)@),
            match (dropped, result) {
                (Err(err), Err(said)) => said@ == daemon::RunErrorView::Privileges(err@)
                    && final(self)@ == old(self)@.left(),
                (Ok(did), Err(said)) => !did && old(self)@.enforced && said@
                    == daemon::RunErrorView::Hardening(
                    "not started as root, so the capability drop did not run"@,
                ) && final(self)@ == old(self)@.left(),
                (Ok(did), Ok(())) => (did || !old(self)@.enforced) && final(self)@ == (StartupView {
                    step: Step::StartWriter,
                    dropped: did,
                    ..old(self)@
                }),
                _ => false,
            },
    {
        match dropped {
            Err(err) => {
                self.step = Step::Leave;
                Err(RunError::Privileges(err))
            },
            Ok(did) => {
                if !did && self.enforced {
                    self.step = Step::Leave;
                    return Err(
                        RunError::Hardening(
                            "not started as root, so the capability drop did not run".to_owned(),
                        ),
                    );
                }
                self.dropped = did;
                self.step = Step::StartWriter;
                Ok(())
            },
        }
    }

    /// The audit writer thread was started, or not: only now a second thread,
    /// which inherits the dropped ceiling.
    pub fn writer_started(&mut self, started: Result<(), String>) -> (result: Result<(), RunError>)
        requires
            old(self)@.step == Step::StartWriter,
            old(self)@.valid(),
        ensures
            final(self)@.valid(),
            old(self)@.leads_to(final(self)@),
            match (started, result) {
                (Err(why), Err(said)) => said@ == daemon::RunErrorView::Runtime(
                    "cannot start the audit writer: "@ + why@,
                ) && final(self)@ == old(self)@.left(),
                (Ok(()), Ok(())) => final(self)@ == (StartupView {
                    step: Step::InstallFilter,
                    ..old(self)@
                }),
                _ => false,
            },
    {
        match started {
            Err(why) => {
                self.step = Step::Leave;
                Err(
                    RunError::Runtime(
                        "cannot start the audit writer: ".to_owned().concat(why.as_str()),
                    ),
                )
            },
            Ok(()) => {
                self.step = Step::InstallFilter;
                Ok(())
            },
        }
    }

    /// The seccomp filter was installed, or there is none, or its installation
    /// failed. A failure is a hardening outcome like a filter that is absent:
    /// a refusal under the enforced profile, otherwise the agent runs without
    /// it.
    pub fn filter_installed(&mut self, installed: Result<bool, RunError>) -> (result: Result<
        (),
        RunError,
    >)
        requires
            old(self)@.step == Step::InstallFilter,
            old(self)@.valid(),
        ensures
            final(self)@.valid(),
            old(self)@.leads_to(final(self)@),
            match result {
                Ok(()) => {
                    let there = installed == Ok::<bool, RunError>(true);
                    &&& installed is Ok || installed->Err_0@ is Seccomp
                    &&& there || !old(self)@.enforced
                    &&& final(self)@ == (StartupView {
                        step: Step::Serve,
                        filtered: there,
                        ..old(self)@
                    })
                },
                Err(said) => {
                    &&& final(self)@ == old(self)@.left()
                    &&& match installed {
                        Ok(there) => !there && old(self)@.enforced && said@
                            == daemon::RunErrorView::Hardening(
                            "the seccomp filter was not installed"@,
                        ),
                        Err(err) => match err@ {
                            daemon::RunErrorView::Seccomp(why) => old(self)@.enforced && said@
                                == daemon::RunErrorView::Hardening(
                                "the seccomp filter could not be installed: "@ + why,
                            ),
                            _ => said == err,
                        },
                    }
                },
            },
    {
        let there = match installed {
            Ok(there) => there,
            Err(RunError::Seccomp(why)) => {
                if self.enforced {
                    self.step = Step::Leave;
                    return Err(
                        RunError::Hardening(
                            "the seccomp filter could not be installed: ".to_owned().concat(
                                why.as_str(),
                            ),
                        ),
                    );
                }
                false
            },
            Err(err) => {
                self.step = Step::Leave;
                return Err(err);
            },
        };
        if !there && self.enforced {
            self.step = Step::Leave;
            return Err(RunError::Hardening("the seccomp filter was not installed".to_owned()));
        }
        self.filtered = there;
        self.step = Step::Serve;
        Ok(())
    }
}

/// The steps in their order.
pub open spec fn order() -> Seq<Step> {
    seq![
        Step::Configure,
        Step::OpenMarker,
        Step::StartLogging,
        Step::ReadMounts,
        Step::OpenChannel,
        Step::DropPrivileges,
        Step::StartWriter,
        Step::InstallFilter,
        Step::Serve,
    ]
}

/// The states of a startup, one after the other.
pub open spec fn is_startup(states: Seq<StartupView>) -> bool {
    &&& states.len() > 0
    &&& states[0] == StartupView::start()
    &&& forall|i: int|
        0 <= i < states.len() - 1 ==> (#[trigger] states[i]).step != Step::Leave
            && states[i].leads_to(states[i + 1])
}

/// Every startup takes its steps in their order, each once, until it serves or
/// leaves.
pub proof fn law_the_steps_are_taken_in_order(states: Seq<StartupView>, i: int)
    requires
        is_startup(states),
        0 <= i < states.len(),
        states[i].step != Step::Leave,
    ensures
        i < order().len(),
        states[i].step == order()[i],
    decreases i,
{
    if i > 0 {
        assert(states[i - 1].leads_to(states[i]));
        law_the_steps_are_taken_in_order(states, i - 1);
    }
}

/// What was settled on stays: nothing after the first step changes whether
/// hardening is enforced, nothing after the drop undoes it.
proof fn lemma_settled(states: Seq<StartupView>, i: int, j: int)
    requires
        is_startup(states),
        0 < i <= j < states.len(),
        states[j].step != Step::Leave,
    ensures
        states[i].step != Step::Leave,
        states[j].enforced == states[i].enforced,
        i > 5 ==> states[j].dropped == states[i].dropped,
    decreases j - i,
{
    if i < j {
        assert(states[i].leads_to(states[i + 1]));
        law_the_steps_are_taken_in_order(states, i);
        lemma_settled(states, i + 1, j);
    }
}

/// The host is served only after every step before it, and under enforced
/// hardening only by a process whose capabilities were dropped before a second
/// thread was started, and whose seccomp filter was installed after that.
pub proof fn law_enforced_serving_is_sandboxed(states: Seq<StartupView>)
    requires
        is_startup(states),
        states.last().step == Step::Serve,
    ensures
        states.len() == order().len(),
        states.last().enforced ==> {
            &&& states[5].step == Step::DropPrivileges
            &&& states[6].step == Step::StartWriter && states[6].dropped
            &&& states[7].step == Step::InstallFilter && states[7].dropped
            &&& states[8].step == Step::Serve && states[8].dropped && states[8].filtered
        },
{
    let last = states.len() - 1;
    law_the_steps_are_taken_in_order(states, last);
    lemma_settled(states, 5, last);
    lemma_settled(states, 6, last);
    lemma_settled(states, 7, last);
    law_the_steps_are_taken_in_order(states, 5);
    law_the_steps_are_taken_in_order(states, 6);
    law_the_steps_are_taken_in_order(states, 7);
    assert(states[5].leads_to(states[6]));
    assert(states[7].leads_to(states[8]));
}

/// The mount that is told of a device is the first one on it.
pub proof fn law_the_first_mount_on_a_device(mounts: Seq<MountEntry>, dev: (u32, u32), k: int)
    requires
        0 <= k < mounts.len(),
        mounts[k].major == dev.0,
        mounts[k].minor == dev.1,
        forall|j: int|
            0 <= j < k ==> (#[trigger] mounts[j]).major != dev.0 || mounts[j].minor != dev.1,
    ensures
        mount_on(mounts, dev) == mounts[k].mount_point@,
    decreases k,
{
    if k > 0 {
        assert(mounts[0].major != dev.0 || mounts[0].minor != dev.1);
        let rest = mounts.skip(1);
        assert(rest[k - 1] == mounts[k]);
        assert forall|j: int| 0 <= j < k - 1 implies (#[trigger] rest[j]).major != dev.0
            || rest[j].minor != dev.1 by {
            assert(rest[j] == mounts[j + 1]);
        }
        law_the_first_mount_on_a_device(rest, dev, k - 1);
    }
}

/// A marker is refused if and only if the device of its directory is that of a
/// mount that a freeze would freeze: one of ext4 or xfs with a source under
/// `/dev/`.
pub proof fn law_which_marker_is_refused(mounts: Seq<MountEntry>, dev: (u32, u32))
    ensures
        freeze_plan::has_dev(freeze_plan::planned(mounts), dev) <==> exists|k: int|
            {
                &&& 0 <= k < mounts.len()
                &&& (#[trigger] mounts[k]).major == dev.0
                &&& mounts[k].minor == dev.1
                &&& mounts[k].fs_type@ == "ext4"@ || mounts[k].fs_type@ == "xfs"@
                &&& "/dev/"@.is_prefix_of(mounts[k].source@)
            },
{
    freeze_plan::law_every_local_ext4_and_xfs_is_planned(mounts, dev);
}

/// A process that found the marker starts frozen, any other thawed.
pub proof fn law_the_state_that_serving_starts_in(
    startup: Startup,
    machine: FreezeStateMachine,
)
    requires
        call_ensures(Startup::initial_state, (&startup,), machine),
    ensures
        startup@.recovery ==> machine@ == FreezeState::Frozen,
        !startup@.recovery ==> machine@ == FreezeState::Thawed,
{
}

/// The steps that read something of the system: the marker decides whether the
/// process recovers, and a channel that is held by another process is terminal,
/// while any other failure to open it is left for later.
pub proof fn law_what_the_system_decides(
    marked: &mut Startup,
    opened: Result<(bool, (u32, u32)), MarkerError>,
    found: Result<(), RunError>,
    trying: &mut Startup,
    tried: Result<(), OpenError>,
    result: Result<(), RunError>,
)
    requires
        old(marked)@.step == Step::OpenMarker,
        call_ensures(Startup::marker_opened, (marked, opened), found),
        old(trying)@.step == Step::OpenChannel,
        call_ensures(Startup::channel_tried, (trying, tried), result),
    ensures
        opened is Ok ==> found is Ok && final(marked)@.recovery == opened->Ok_0.0
            && final(marked)@.marker_dev == opened->Ok_0.1 && final(marked)@.step
            == Step::StartLogging,
        opened matches Err(err) ==> found is Err && found->Err_0@ == daemon::RunErrorView::Marker(
            err@,
        ) && final(marked)@.step == Step::Leave,
        tried is Ok ==> result is Ok && final(trying)@.channel && final(trying)@.step
            == Step::DropPrivileges,
        tried matches Err(err) && err is AlreadyOpen ==> result is Err && result->Err_0@
            == daemon::RunErrorView::Channel(tried->Err_0@) && final(trying)@.step == Step::Leave,
        tried matches Err(err) && !(err is AlreadyOpen) ==> result is Ok && !final(trying)@.channel
            && final(trying)@.step == Step::DropPrivileges,
{
}

/// The steps that put the sandbox in force: under enforced hardening a drop that
/// was skipped and a filter that is not there are refused; otherwise the process
/// goes on without. A drop that failed is refused in any case.
pub proof fn law_what_the_sandbox_decides(
    dropping: &mut Startup,
    dropped: Result<bool, PrivilegeError>,
    drop: Result<(), RunError>,
    filtering: &mut Startup,
    installed: Result<bool, RunError>,
    filter: Result<(), RunError>,
)
    requires
        old(dropping)@.step == Step::DropPrivileges,
        call_ensures(Startup::privileges_dropped, (dropping, dropped), drop),
        old(filtering)@.step == Step::InstallFilter,
        old(filtering)@.valid(),
        call_ensures(Startup::filter_installed, (filtering, installed), filter),
    ensures
        dropped is Err ==> drop is Err,
        dropped == Ok::<bool, PrivilegeError>(true) ==> drop is Ok && final(dropping)@.dropped,
        dropped == Ok::<bool, PrivilegeError>(false) ==> (drop is Ok <==> !old(dropping)@.enforced),
        installed == Ok::<bool, RunError>(true) ==> filter is Ok && final(filtering)@.filtered,
        installed == Ok::<bool, RunError>(false) ==> (filter is Ok <==> !old(filtering)@.enforced),
        installed is Err && installed->Err_0 is Seccomp ==> (filter is Ok
            <==> !old(filtering)@.enforced),
        installed is Err && !(installed->Err_0 is Seccomp) ==> filter == Err::<(), RunError>(
            installed->Err_0,
        ),
        filter is Ok && old(filtering)@.enforced ==> final(filtering)@.filtered,
{
}

/// A configuration that was loaded is refused or passed on as it is, and a
/// marker on a device that a freeze would freeze is refused with the first
/// mount on it.
pub proof fn law_what_the_configuration_decides(
    configuring: &mut Startup,
    loaded: Result<Config, ConfigError>,
    build: BuildProfile,
    result: Result<Config, RunError>,
    reading: &mut Startup,
    mounts: Result<Vec<MountEntry>, String>,
    checked: Result<(), RunError>,
)
    requires
        old(configuring)@.step == Step::Configure,
        call_ensures(Startup::configured, (configuring, loaded, &build), result),
        old(reading)@.step == Step::ReadMounts,
        call_ensures(Startup::mounts_read, (reading, mounts), checked),
    ensures
        loaded matches Err(err) ==> result is Err && result->Err_0@
            == daemon::RunErrorView::Config(err@),
        loaded matches Ok(config) ==> (result is Ok <==> config.agent.hardening
            != Hardening::Enforced || (config.features.seccomp && build.seccomp_compiled
            && build.seccomp_mode@ == "enforce"@ && !build.fake_kernel_requested)),
        result matches Ok(config) ==> {
            &&& loaded == Ok::<Config, ConfigError>(config)
            &&& final(configuring)@.enforced == (config.agent.hardening == Hardening::Enforced)
            &&& final(configuring)@.state_path == config.agent.state_path@
            &&& final(configuring)@.step == Step::OpenMarker
        },
        result is Err ==> final(configuring)@.step == Step::Leave,
        mounts matches Err(why) ==> checked is Err && checked->Err_0@
            == daemon::RunErrorView::MountTable(why@),
        mounts matches Ok(table) ==> (checked is Err <==> freeze_plan::has_dev(
            freeze_plan::planned(table@),
            old(reading)@.marker_dev,
        )),
        checked is Ok ==> final(reading)@.step == Step::OpenChannel,
        checked is Err ==> final(reading)@.step == Step::Leave,
{
}

} // verus!
