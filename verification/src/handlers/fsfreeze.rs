//! `guest-fsfreeze-freeze`, `guest-fsfreeze-freeze-list`,
//! `guest-fsfreeze-thaw` and `guest-fsfreeze-status`.
//!
//! # Freeze
//!
//! A freeze claims `Thawed → Freezing` and starts an operation
//! ([`crate::freeze_op`]), which owns the walk independently of the request.
//!
//! # Thaw
//!
//! A thaw claims `Frozen → Thawing` (or `Thawed → Thawing`, a recovery drain;
//! during an unresolved freeze operation it joins that operation instead),
//! rebuilds the plan and drains every target in forward order ([`thaw`]); the
//! marker is removed only after every drain. A target is drained through the
//! handle its freeze opened when there is one, otherwise through the first of
//! its mount points that still opens on its device. The held handles are
//! drained even when the mount table cannot be read. Any drain that does not
//! end on the kernel's "not frozen" answer ([`drain`]), a target that cannot be
//! reached, a mount table that could not be read, or a marker that cannot be
//! removed is unrecoverable: `Thawing → Frozen`, and the marker is kept.

pub mod drain;
pub mod thaw;

use vstd::prelude::*;
use vstd::string::*;

use crate::dispatch::ThawScope;
use crate::freeze_op::{AbortCause, Effect, Progress, Transition};
use crate::freeze_op;
use crate::freeze_plan::FreezePlan;
use crate::freeze_plan;
use crate::json::{string, Json};
use crate::json;
use crate::kernel::KernelError;
use crate::marker::MarkerError;
use crate::marker;
use crate::mountinfo::MountEntry;
use crate::proto::Error;
use crate::proto;
use crate::state::{FreezeState, FreezeStateMachine, FreezeToken, StateError, ThawToken};
use crate::text::decimal_text;
use crate::text;

verus! {

/// What stopped a freeze at a target.
#[derive(Debug, PartialEq, Eq)]
pub enum FreezeStop {
    /// `FIFREEZE` failed with this error.
    Ioctl(KernelError),
    /// None of the target's mount points opens on its planned device (the
    /// attempts, in order); no ioctl was issued.
    Unreachable(String),
}

/// What stopped a freeze, as a mathematical value.
#[verifier::ext_equal]
pub ghost enum FreezeStopView {
    Ioctl(KernelError),
    Unreachable(Seq<char>),
}

impl View for FreezeStop {
    type V = FreezeStopView;

    open spec fn view(&self) -> FreezeStopView {
        match self {
            FreezeStop::Ioctl(err) => FreezeStopView::Ioctl(*err),
            FreezeStop::Unreachable(attempts) => FreezeStopView::Unreachable(attempts@),
        }
    }
}

impl FreezeStopView {
    /// What stopped it, in words.
    pub open spec fn text(self) -> Seq<char> {
        match self {
            FreezeStopView::Ioctl(err) => err.text(),
            FreezeStopView::Unreachable(attempts) => "no mount point leads to it ("@ + attempts
                + "); no FIFREEZE issued"@,
        }
    }
}

impl FreezeStop {
    /// What stopped it, in words.
    pub fn message(&self) -> (message: String)
        ensures
            message@ == self@.text(),
    {
        match self {
            FreezeStop::Ioctl(err) => err.message(),
            FreezeStop::Unreachable(attempts) => "no mount point leads to it (".to_owned().concat(
                attempts.as_str(),
            ).concat("); no FIFREEZE issued"),
        }
    }
}

/// Why a freeze failed.
#[derive(Debug, PartialEq, Eq)]
pub enum FreezeFailure {
    /// The mount table could not be read.
    Plan(String),
    /// The recovery marker could not be created; no ioctl was issued.
    Marker(MarkerError),
    /// A target stopped the freeze with a hard error (or could not be
    /// reached); processed targets were rolled back.
    Hard {
        /// The target that failed.
        mountpoint: String,
        /// What stopped it.
        cause: FreezeStop,
    },
    /// A target stopped the freeze and the rollback could not thaw
    /// `mountpoint`: the filesystem may still be frozen, so the state stays
    /// `Frozen` and the marker is retained.
    RollbackIncomplete {
        /// The target that stopped the freeze.
        failed: String,
        /// What stopped it.
        cause: FreezeStop,
        /// The processed target that could not be thawed.
        mountpoint: String,
        /// Why the drain did not complete.
        reason: String,
    },
    /// The rollback thawed every processed target but the marker could not be
    /// removed: the state stays `Frozen`.
    MarkerRetained {
        /// The target that stopped the freeze.
        failed: String,
        /// What stopped it.
        cause: FreezeStop,
        /// The removal error.
        marker: MarkerError,
    },
    /// Nothing was frozen but the marker could not be removed: the state stays
    /// `Frozen`.
    NothingFrozenMarkerRetained(MarkerError),
    /// A task was lost.
    Task(String),
    /// The operation was aborted. The targets frozen so far are being thawed
    /// by the coordinator; the marker and the frozen gate stay until the call
    /// in flight returns.
    Aborted {
        /// What aborted it.
        cause: AbortCause,
        /// The operation deadline in seconds.
        timeout_secs: u64,
        /// Successful `FIFREEZE` calls before the abort.
        frozen: u64,
        /// The target whose call was in flight, if any.
        in_flight: Option<String>,
    },
}

/// Why a freeze failed, as a mathematical value.
#[verifier::ext_equal]
pub ghost enum FreezeFailureView {
    Plan(Seq<char>),
    Marker(marker::MarkerErrorView),
    Hard { mountpoint: Seq<char>, cause: FreezeStopView },
    RollbackIncomplete {
        failed: Seq<char>,
        cause: FreezeStopView,
        mountpoint: Seq<char>,
        reason: Seq<char>,
    },
    MarkerRetained {
        failed: Seq<char>,
        cause: FreezeStopView,
        marker: marker::MarkerErrorView,
    },
    NothingFrozenMarkerRetained(marker::MarkerErrorView),
    Task(Seq<char>),
    Aborted {
        cause: AbortCause,
        timeout_secs: u64,
        frozen: nat,
        in_flight: Option<Seq<char>>,
    },
}

/// An optional text, taken by its view.
pub open spec fn text_view(text: Option<String>) -> Option<Seq<char>> {
    match text {
        Some(text) => Some(text@),
        None => None,
    }
}

impl View for FreezeFailure {
    type V = FreezeFailureView;

    open spec fn view(&self) -> FreezeFailureView {
        match self {
            FreezeFailure::Plan(why) => FreezeFailureView::Plan(why@),
            FreezeFailure::Marker(err) => FreezeFailureView::Marker(err@),
            FreezeFailure::Hard { mountpoint, cause } => FreezeFailureView::Hard {
                mountpoint: mountpoint@,
                cause: cause@,
            },
            FreezeFailure::RollbackIncomplete { failed, cause, mountpoint, reason } =>
                FreezeFailureView::RollbackIncomplete {
                    failed: failed@,
                    cause: cause@,
                    mountpoint: mountpoint@,
                    reason: reason@,
                },
            FreezeFailure::MarkerRetained { failed, cause, marker } =>
                FreezeFailureView::MarkerRetained {
                    failed: failed@,
                    cause: cause@,
                    marker: marker@,
                },
            FreezeFailure::NothingFrozenMarkerRetained(err) =>
                FreezeFailureView::NothingFrozenMarkerRetained(err@),
            FreezeFailure::Task(why) => FreezeFailureView::Task(why@),
            FreezeFailure::Aborted { cause, timeout_secs, frozen, in_flight } =>
                FreezeFailureView::Aborted {
                    cause: *cause,
                    timeout_secs: *timeout_secs,
                    frozen: *frozen as nat,
                    in_flight: text_view(*in_flight),
                },
        }
    }
}

impl FreezeFailureView {
    /// The failure in words: the description that the host is sent.
    pub open spec fn text(self) -> Seq<char> {
        match self {
            FreezeFailureView::Plan(why) => "cannot build freeze plan: "@ + why,
            FreezeFailureView::Marker(err) => "cannot create recovery marker: "@ + err.text(),
            FreezeFailureView::Hard { mountpoint, cause } => "freeze of "@ + mountpoint
                + " failed: "@ + cause.text() + "; rolled back"@,
            FreezeFailureView::RollbackIncomplete { failed, cause, mountpoint, reason } =>
                "freeze of "@ + failed + " failed: "@ + cause.text() + "; rollback of "@
                    + mountpoint + " incomplete ("@ + reason + "); marker retained"@,
            FreezeFailureView::MarkerRetained { failed, cause, marker } => "freeze of "@ + failed
                + " failed: "@ + cause.text()
                + "; rolled back but cannot remove recovery marker: "@ + marker.text(),
            FreezeFailureView::NothingFrozenMarkerRetained(err) =>
                "nothing frozen but cannot remove recovery marker: "@ + err.text(),
            FreezeFailureView::Task(why) => "freeze task failed: "@ + why,
            FreezeFailureView::Aborted { cause, timeout_secs, frozen, in_flight } =>
                "freeze aborted: "@ + cause.description(timeout_secs) + (match in_flight {
                    Some(name) => " with FIFREEZE of "@ + name + " in flight"@,
                    None => Seq::empty(),
                }) + "; "@ + text::decimal(frozen)
                    + " target(s) frozen so far are being thawed; marker retained"@,
        }
    }

    /// The failure leaves a filesystem possibly frozen or the marker in place,
    /// so the agent must stay `Frozen`.
    pub open spec fn retains(self) -> bool {
        self is RollbackIncomplete || self is MarkerRetained || self is NothingFrozenMarkerRetained
    }
}

impl FreezeFailure {
    /// The failure in words: the description that the host is sent.
    pub fn message(&self) -> (message: String)
        ensures
            message@ == self@.text(),
    {
        match self {
            FreezeFailure::Plan(why) => "cannot build freeze plan: ".to_owned().concat(
                why.as_str(),
            ),
            FreezeFailure::Marker(err) => "cannot create recovery marker: ".to_owned().concat(
                err.message().as_str(),
            ),
            FreezeFailure::Hard { mountpoint, cause } => "freeze of ".to_owned().concat(
                mountpoint.as_str(),
            ).concat(" failed: ").concat(cause.message().as_str()).concat("; rolled back"),
            FreezeFailure::RollbackIncomplete { failed, cause, mountpoint, reason } =>
                "freeze of ".to_owned().concat(failed.as_str()).concat(" failed: ").concat(
                    cause.message().as_str(),
                ).concat("; rollback of ").concat(mountpoint.as_str()).concat(
                    " incomplete (",
                ).concat(reason.as_str()).concat("); marker retained"),
            FreezeFailure::MarkerRetained { failed, cause, marker } =>
                "freeze of ".to_owned().concat(failed.as_str()).concat(" failed: ").concat(
                    cause.message().as_str(),
                ).concat("; rolled back but cannot remove recovery marker: ").concat(
                    marker.message().as_str(),
                ),
            FreezeFailure::NothingFrozenMarkerRetained(err) =>
                "nothing frozen but cannot remove recovery marker: ".to_owned().concat(
                    err.message().as_str(),
                ),
            FreezeFailure::Task(why) => "freeze task failed: ".to_owned().concat(why.as_str()),
            FreezeFailure::Aborted { cause, timeout_secs, frozen, in_flight } => {
                let said = match in_flight {
                    Some(name) => " with FIFREEZE of ".to_owned().concat(name.as_str()).concat(
                        " in flight",
                    ),
                    None => String::new(),
                };
                "freeze aborted: ".to_owned().concat(cause.describe(*timeout_secs).as_str()).concat(
                    said.as_str(),
                ).concat("; ").concat(decimal_text(*frozen).as_str()).concat(
                    " target(s) frozen so far are being thawed; marker retained",
                )
            },
        }
    }

    /// Whether the failure leaves a filesystem possibly frozen or the marker
    /// in place, so the agent must stay `Frozen`.
    pub fn retains_frozen_state(&self) -> (retains: bool)
        ensures
            retains == self@.retains(),
    {
        match self {
            FreezeFailure::RollbackIncomplete { .. } => true,
            FreezeFailure::MarkerRetained { .. } => true,
            FreezeFailure::NothingFrozenMarkerRetained(_) => true,
            _ => false,
        }
    }
}

/// Why a thaw failed unrecoverably.
#[derive(Debug, PartialEq, Eq)]
pub enum ThawFailure {
    /// The mount table could not be read.
    Plan(String),
    /// A target may still be frozen after its drain. The marker and the frozen
    /// gate are retained.
    Incomplete {
        /// The target that may still be frozen.
        mountpoint: String,
        /// Why the drain did not complete.
        reason: String,
    },
    /// The marker could not be removed after the drain.
    Marker(MarkerError),
    /// A task was lost.
    Task(String),
}

/// Why a thaw failed, as a mathematical value.
#[verifier::ext_equal]
pub ghost enum ThawFailureView {
    Plan(Seq<char>),
    Incomplete { mountpoint: Seq<char>, reason: Seq<char> },
    Marker(marker::MarkerErrorView),
    Task(Seq<char>),
}

impl View for ThawFailure {
    type V = ThawFailureView;

    open spec fn view(&self) -> ThawFailureView {
        match self {
            ThawFailure::Plan(why) => ThawFailureView::Plan(why@),
            ThawFailure::Incomplete { mountpoint, reason } => ThawFailureView::Incomplete {
                mountpoint: mountpoint@,
                reason: reason@,
            },
            ThawFailure::Marker(err) => ThawFailureView::Marker(err@),
            ThawFailure::Task(why) => ThawFailureView::Task(why@),
        }
    }
}

impl ThawFailureView {
    /// The failure in words: the description that the host is sent.
    pub open spec fn text(self) -> Seq<char> {
        match self {
            ThawFailureView::Plan(why) => "cannot build thaw plan: "@ + why,
            ThawFailureView::Incomplete { mountpoint, reason } => "thaw of "@ + mountpoint
                + " incomplete: "@ + reason + "; marker retained"@,
            ThawFailureView::Marker(err) =>
                "drain complete but cannot remove recovery marker: "@ + err.text(),
            ThawFailureView::Task(why) => "thaw task failed: "@ + why,
        }
    }
}

impl ThawFailure {
    /// The failure in words: the description that the host is sent.
    pub fn message(&self) -> (message: String)
        ensures
            message@ == self@.text(),
    {
        match self {
            ThawFailure::Plan(why) => "cannot build thaw plan: ".to_owned().concat(why.as_str()),
            ThawFailure::Incomplete { mountpoint, reason } => "thaw of ".to_owned().concat(
                mountpoint.as_str(),
            ).concat(" incomplete: ").concat(reason.as_str()).concat("; marker retained"),
            ThawFailure::Marker(err) =>
                "drain complete but cannot remove recovery marker: ".to_owned().concat(
                    err.message().as_str(),
                ),
            ThawFailure::Task(why) => "thaw task failed: ".to_owned().concat(why.as_str()),
        }
    }
}

// ---------------------------------------------------------------------------
// The commands
// ---------------------------------------------------------------------------

/// Arguments of `guest-fsfreeze-freeze-list`.
#[derive(Debug, PartialEq, Eq)]
pub struct FreezeListArgs {
    /// Mount points to restrict the plan to; absent means the whole plan.
    pub mountpoints: Option<Vec<String>>,
}

/// The targets of a plan over a mount table, restricted to some names.
pub open spec fn plan_of(
    mounts: Seq<MountEntry>,
    restrict: Option<Seq<Seq<u8>>>,
) -> Seq<freeze_plan::TargetView> {
    match restrict {
        Some(names) => freeze_plan::restricted(
            freeze_plan::planned(mounts),
            freeze_plan::rows_of(mounts),
            names,
        ),
        None => freeze_plan::planned(mounts),
    }
}

/// The names that a plan is restricted to, taken by their bytes.
pub open spec fn restriction_view(restrict: Option<Vec<String>>) -> Option<Seq<Seq<u8>>> {
    match restrict {
        Some(names) => Some(freeze_plan::names_view(names@)),
        None => None,
    }
}

/// Builds the plan from the mount table, or says why it could not be read.
pub fn build_plan(
    mounts: Result<Vec<MountEntry>, String>,
    restrict: &Option<Vec<String>>,
) -> (plan: Result<FreezePlan, String>)
    ensures
        match (mounts, plan) {
            (Ok(entries), Ok(plan)) => {
                &&& plan.target_list() == plan_of(entries@, restriction_view(*restrict))
                &&& plan.table() == freeze_plan::rows_of(entries@)
            },
            (Err(why), Err(said)) => said == why,
            _ => false,
        },
{
    match mounts {
        Err(why) => Err(why),
        Ok(entries) => {
            let plan = FreezePlan::build(&entries);
            Ok(
                match restrict {
                    Some(names) => plan.restrict_to(names),
                    None => plan,
                },
            )
        },
    }
}

/// The reply to `guest-fsfreeze-status`, and whether it counts as a heartbeat.
#[derive(Debug, PartialEq, Eq)]
pub struct Status {
    /// The watchdog is refreshed: only while `Frozen`.
    pub heartbeat: bool,
    /// `"frozen"` whenever the state is not `Thawed`.
    pub reply: Json,
}

/// `guest-fsfreeze-status`.
pub fn status(state: FreezeState) -> (status: Status)
    ensures
        status.heartbeat == (state == FreezeState::Frozen),
        status.reply@ == json::JsonView::Text(
            if state == FreezeState::Thawed {
                "thawed"@
            } else {
                "frozen"@
            },
        ),
{
    Status {
        heartbeat: match state {
            FreezeState::Frozen => true,
            _ => false,
        },
        reply: if state.is_frozen_for_gate() {
            string("frozen")
        } else {
            string("thawed")
        },
    }
}

/// `guest-fsfreeze-freeze` and `guest-fsfreeze-freeze-list`: claims
/// `Thawed → Freezing`. The holder of the token starts the operation.
pub fn freeze(machine: &mut FreezeStateMachine) -> (claimed: Result<FreezeToken, Error>)
    ensures
        claimed is Ok <==> old(machine)@ == FreezeState::Thawed,
        claimed is Ok ==> final(machine)@ == FreezeState::Freezing,
        claimed matches Err(err) ==> final(machine)@ == old(machine)@ && err@
            == proto::ErrorView::Internal(
            "cannot freeze: "@ + (StateError { state: old(machine)@ }).text(),
        ),
{
    match machine.begin_freeze() {
        Ok(token) => Ok(token),
        Err(err) => Err(
            Error::Internal("cannot freeze: ".to_owned().concat(err.message().as_str())),
        ),
    }
}

/// `guest-fsfreeze-freeze-list`: claims the state as [`freeze`] does; the plan is
/// restricted to the mount points of the arguments.
pub fn freeze_list(machine: &mut FreezeStateMachine, args: FreezeListArgs) -> (claimed: Result<
    (FreezeToken, Option<Vec<String>>),
    Error,
>)
    ensures
        claimed is Ok <==> old(machine)@ == FreezeState::Thawed,
        claimed matches Ok(start) ==> final(machine)@ == FreezeState::Freezing && start.1
            == args.mountpoints,
        claimed matches Err(err) ==> final(machine)@ == old(machine)@ && err@
            == proto::ErrorView::Internal(
            "cannot freeze: "@ + (StateError { state: old(machine)@ }).text(),
        ),
{
    match freeze(machine) {
        Ok(token) => Ok((token, args.mountpoints)),
        Err(err) => Err(err),
    }
}

/// The reply to a freeze: the operation's one answer, or none if it ended
/// without one.
pub open spec fn freeze_result(answer: Option<Result<nat, FreezeFailureView>>) -> Result<
    json::JsonView,
    proto::ErrorView,
> {
    match answer {
        Some(Ok(frozen)) => Ok(json::JsonView::Int(frozen as int)),
        Some(Err(failure)) => Err(proto::ErrorView::Internal(failure.text())),
        None => Err(proto::ErrorView::Internal("freeze operation ended without a result"@)),
    }
}

/// The reply to a freeze.
pub fn freeze_reply(answer: Option<Result<u64, FreezeFailure>>) -> (reply: Result<Json, Error>)
    ensures
        proto::result_view(reply) == freeze_result(
            match answer {
                Some(result) => Some(freeze_op::freeze_view(result)),
                None => None,
            },
        ),
{
    match answer {
        Some(Ok(frozen)) => Ok(Json::Uint(frozen)),
        Some(Err(failure)) => Err(Error::Internal(failure.message())),
        None => Err(Error::Internal("freeze operation ended without a result".to_owned())),
    }
}

/// How a thaw begins.
#[derive(Debug)]
pub enum ThawStart {
    /// The state was claimed: drain.
    Run(ThawToken),
    /// A freeze operation is unresolved: ask it to abort, and wait for its
    /// recovery. No target is ever drained by two owners.
    Join,
}

/// `guest-fsfreeze-thaw`: claims the state, or joins the unresolved freeze
/// operation if there is one.
pub fn thaw(machine: &mut FreezeStateMachine, operation: bool) -> (start: Result<
    ThawStart,
    Error,
>)
    ensures
        ({
            let state = old(machine)@;
            let claimable = state == FreezeState::Frozen || state == FreezeState::Thawed;
            match start {
                Ok(ThawStart::Run(token)) => claimable && final(machine)@ == FreezeState::Thawing
                    && token.from_thawed() == (state == FreezeState::Thawed),
                Ok(ThawStart::Join) => !claimable && operation && final(machine)@ == state,
                Err(err) => !claimable && !operation && final(machine)@ == state && err@
                    == proto::ErrorView::Internal("cannot thaw: "@ + (StateError { state }).text()),
            }
        }),
{
    match machine.claim_thaw() {
        Ok(token) => Ok(ThawStart::Run(token)),
        Err(err) => {
            if operation {
                Ok(ThawStart::Join)
            } else {
                Err(Error::Internal("cannot thaw: ".to_owned().concat(err.message().as_str())))
            }
        },
    }
}

/// The reply to a thaw that joined a freeze operation.
pub open spec fn join_result(
    recovered: u64,
    settled: Option<FreezeState>,
    unrecoverable: Option<Seq<char>>,
    in_flight: Option<Seq<char>>,
) -> Result<json::JsonView, proto::ErrorView> {
    let thawed = "thaw joined the aborted freeze: "@ + text::decimal(recovered as nat)
        + " target(s) thawed; "@;
    match settled {
        Some(FreezeState::Thawed) => Ok(json::JsonView::Int(recovered as int)),
        Some(state) => Err(
            proto::ErrorView::Internal(
                thawed + (match unrecoverable {
                    Some(why) => why,
                    None => "recovery incomplete"@,
                }) + "; state "@ + state.text() + ", marker retained"@,
            ),
        ),
        None => Err(
            proto::ErrorView::Internal(
                thawed + "FIFREEZE of "@ + (match in_flight {
                    Some(name) => name,
                    None => "a target"@,
                }) + " still in flight; marker retained until it returns"@,
            ),
        ),
    }
}

/// The reply to a thaw that joined a freeze operation, from the snapshot taken
/// once the recovery pass over the completed targets was done or the operation
/// had settled.
pub fn join_operation(progress: &Progress) -> (reply: Result<Json, Error>)
    ensures
        proto::result_view(reply) == join_result(
            progress.recovered,
            progress.settled,
            text_view(progress.unrecoverable),
            text_view(progress.in_flight),
        ),
{
    let thawed = "thaw joined the aborted freeze: ".to_owned().concat(
        decimal_text(progress.recovered).as_str(),
    ).concat(" target(s) thawed; ");
    match progress.settled {
        Some(FreezeState::Thawed) => Ok(Json::Uint(progress.recovered)),
        Some(state) => {
            let why = match &progress.unrecoverable {
                Some(why) => why.clone(),
                None => "recovery incomplete".to_owned(),
            };
            Err(
                Error::Internal(
                    thawed.concat(why.as_str()).concat("; state ").concat(state.as_str()).concat(
                        ", marker retained",
                    ),
                ),
            )
        },
        None => {
            let name = match &progress.in_flight {
                Some(name) => name.clone(),
                None => "a target".to_owned(),
            };
            Err(
                Error::Internal(
                    thawed.concat("FIFREEZE of ").concat(name.as_str()).concat(
                        " still in flight; marker retained until it returns",
                    ),
                ),
            )
        },
    }
}

/// The end of a thaw: what is carried out, in order, and the reply.
#[derive(Debug, PartialEq, Eq)]
pub struct ThawEnd {
    pub effects: Vec<Effect>,
    pub reply: Result<Json, Error>,
}

/// What the end of a thaw carries out. A thaw that succeeded is finalised while
/// the state is still `Thawing` and then published. One that failed returns to
/// `Frozen`, whose watchdog is armed anew; but a recovery drain started from
/// `Thawed`, so there is no frozen state to retain.
pub open spec fn thaw_effects(succeeded: bool, recovery_drain: bool) -> Seq<
    freeze_op::EffectView,
> {
    if succeeded || recovery_drain {
        seq![
            freeze_op::EffectView::Thawed,
            freeze_op::EffectView::Scope(ThawScope::Discovery),
            freeze_op::EffectView::Transition(Transition::ThawSucceeded),
        ]
    } else {
        seq![
            freeze_op::EffectView::Transition(Transition::ThawFailed),
            freeze_op::EffectView::FrozenEntered,
        ]
    }
}

/// Ends a thaw.
pub fn conclude_thaw(outcome: Result<u64, ThawFailure>, recovery_drain: bool) -> (end: ThawEnd)
    ensures
        freeze_op::effects_view(end.effects@) == thaw_effects(outcome is Ok, recovery_drain),
        proto::result_view(end.reply) == match outcome {
            Ok(thawed) => Ok::<json::JsonView, proto::ErrorView>(
                json::JsonView::Int(thawed as int),
            ),
            Err(failure) => Err(proto::ErrorView::Internal(failure@.text())),
        },
{
    let mut effects: Vec<Effect> = Vec::new();
    if outcome.is_ok() || recovery_drain {
        effects.push(Effect::Thawed);
        effects.push(Effect::Scope(ThawScope::Discovery));
        effects.push(Effect::Transition(Transition::ThawSucceeded));
    } else {
        effects.push(Effect::Transition(Transition::ThawFailed));
        effects.push(Effect::FrozenEntered);
    }
    proof {
        assert(freeze_op::effects_view(effects@) =~= thaw_effects(outcome is Ok, recovery_drain));
    }
    let reply = match outcome {
        Ok(thawed) => Ok(Json::Uint(thawed)),
        Err(failure) => Err(Error::Internal(failure.message())),
    };
    ThawEnd { effects, reply }
}

/// Startup with the recovery marker present. The state must be `Frozen`: audit
/// output goes to the ring until a thaw succeeds, and the watchdog is armed so
/// that an abandoned freeze is still bounded after a crash.
pub fn start_recovery(state: FreezeState) -> (effects: Result<Vec<Effect>, Error>)
    ensures
        match effects {
            Ok(list) => state == FreezeState::Frozen && freeze_op::effects_view(list@) == seq![
                freeze_op::EffectView::FreezingEntered,
                freeze_op::EffectView::FrozenEntered,
            ],
            Err(err) => state != FreezeState::Frozen && err@ == proto::ErrorView::Internal(
                "recovery startup requires the Frozen state, found "@ + state.text(),
            ),
        },
{
    match state {
        FreezeState::Frozen => {
            let mut effects: Vec<Effect> = Vec::new();
            effects.push(Effect::FreezingEntered);
            effects.push(Effect::FrozenEntered);
            proof {
                assert(freeze_op::effects_view(effects@) =~= seq![
                    freeze_op::EffectView::FreezingEntered,
                    freeze_op::EffectView::FrozenEntered,
                ]);
            }
            Ok(effects)
        },
        state => Err(
            Error::Internal(
                "recovery startup requires the Frozen state, found ".to_owned().concat(
                    state.as_str(),
                ),
            ),
        ),
    }
}

/// A plan that is restricted to no name in particular is the whole plan.
pub proof fn law_an_unrestricted_plan_is_whole(mounts: Seq<MountEntry>)
    ensures
        plan_of(mounts, None) == freeze_plan::planned(mounts),
{
}

/// The status is `thawed` when the state is, and `frozen` in every other; it
/// counts as a heartbeat in the state `Frozen` alone.
pub proof fn law_what_the_status_says(state: FreezeState, said: Status)
    requires
        call_ensures(status, (state,), said),
    ensures
        state == FreezeState::Thawed ==> said.reply@ == json::JsonView::Text("thawed"@)
            && !said.heartbeat,
        state == FreezeState::Freezing ==> said.reply@ == json::JsonView::Text("frozen"@)
            && !said.heartbeat,
        state == FreezeState::Frozen ==> said.reply@ == json::JsonView::Text("frozen"@)
            && said.heartbeat,
        state == FreezeState::Thawing ==> said.reply@ == json::JsonView::Text("frozen"@)
            && !said.heartbeat,
{
}

/// The host is told how many filesystems a freeze froze, or why it failed.
pub proof fn law_what_a_freeze_replies(frozen: nat, failure: FreezeFailureView)
    ensures
        freeze_result(Some(Ok(frozen))) == Ok::<json::JsonView, proto::ErrorView>(
            json::JsonView::Int(frozen as int),
        ),
        freeze_result(Some(Err(failure))) == Err::<json::JsonView, proto::ErrorView>(
            proto::ErrorView::Internal(failure.text()),
        ),
        freeze_result(None) == Err::<json::JsonView, proto::ErrorView>(
            proto::ErrorView::Internal("freeze operation ended without a result"@),
        ),
{
}

/// A thaw that joined a freeze succeeds if and only if everything is thawed
/// again, with the number of targets that were; otherwise the host is told that
/// number and what stands in the way.
pub proof fn law_what_a_joined_thaw_replies(
    recovered: u64,
    settled: Option<FreezeState>,
    unrecoverable: Option<Seq<char>>,
    in_flight: Option<Seq<char>>,
)
    ensures
        ({
            let reply = join_result(recovered, settled, unrecoverable, in_flight);
            let thawed = "thaw joined the aborted freeze: "@ + text::decimal(recovered as nat)
                + " target(s) thawed; "@;
            &&& settled == Some(FreezeState::Thawed) ==> reply == Ok::<
                json::JsonView,
                proto::ErrorView,
            >(json::JsonView::Int(recovered as int))
            &&& settled != Some(FreezeState::Thawed) ==> reply is Err && reply->Err_0 is Internal
            &&& settled is None && in_flight is Some ==> reply->Err_0->Internal_0 == thawed
                + "FIFREEZE of "@ + in_flight->0
                + " still in flight; marker retained until it returns"@
            &&& settled is None && in_flight is None ==> reply->Err_0->Internal_0 == thawed
                + "FIFREEZE of "@ + "a target"@
                + " still in flight; marker retained until it returns"@
            &&& settled == Some(FreezeState::Frozen) && unrecoverable is Some
                ==> reply->Err_0->Internal_0 == thawed + unrecoverable->0 + "; state "@
                + "frozen"@ + ", marker retained"@
            &&& settled == Some(FreezeState::Frozen) && unrecoverable is None
                ==> reply->Err_0->Internal_0 == thawed + "recovery incomplete"@ + "; state "@
                + "frozen"@ + ", marker retained"@
        }),
{
}

/// A thaw ends thawed if and only if it succeeded or there was nothing frozen
/// to begin with; the audit ring is flushed before the state says so. One that
/// failed stays frozen, with the watchdog armed.
pub proof fn law_how_a_thaw_ends(succeeded: bool, recovery_drain: bool)
    ensures
        ({
            let effects = thaw_effects(succeeded, recovery_drain);
            let ended = freeze_op::EffectView::Transition(Transition::ThawSucceeded);
            let failed = freeze_op::EffectView::Transition(Transition::ThawFailed);
            &&& succeeded || recovery_drain ==> effects.len() == 3 && effects[0]
                == freeze_op::EffectView::Thawed && effects[1] == freeze_op::EffectView::Scope(
                ThawScope::Discovery,
            ) && effects[2] == ended
            &&& !succeeded && !recovery_drain ==> effects.len() == 2 && effects[0] == failed
                && effects[1] == freeze_op::EffectView::FrozenEntered
        }),
{
}

/// The host is told how many filesystems a thaw thawed, or why it failed; a
/// recovery drain that failed is told as a failure too.
pub proof fn law_what_a_thaw_replies(
    outcome: Result<u64, ThawFailure>,
    recovery_drain: bool,
    end: ThawEnd,
)
    requires
        call_ensures(conclude_thaw, (outcome, recovery_drain), end),
    ensures
        outcome matches Ok(thawed) ==> proto::result_view(end.reply) == Ok::<
            json::JsonView,
            proto::ErrorView,
        >(json::JsonView::Int(thawed as int)),
        outcome matches Err(failure) ==> proto::result_view(end.reply) == Err::<
            json::JsonView,
            proto::ErrorView,
        >(proto::ErrorView::Internal(failure@.text())),
{
}

/// The agent stays frozen after a failure that leaves a filesystem possibly
/// frozen or the marker in place, and after no other.
pub proof fn law_which_failures_stay_frozen(failure: FreezeFailure, retains: bool)
    requires
        call_ensures(FreezeFailure::retains_frozen_state, (&failure,), retains),
    ensures
        failure is RollbackIncomplete ==> retains,
        failure is MarkerRetained ==> retains,
        failure is NothingFrozenMarkerRetained ==> retains,
        failure is Plan || failure is Marker || failure is Hard || failure is Task
            || failure is Aborted ==> !retains,
        failure@.retains() == retains,
{
}

/// The words in which a freeze that failed is told.
pub proof fn law_the_words_of_a_failed_freeze(
    a: Seq<char>,
    b: Seq<char>,
    c: Seq<char>,
    stop: FreezeStopView,
    kept: marker::MarkerErrorView,
)
    ensures
        FreezeFailureView::Plan(a).text() == "cannot build freeze plan: "@ + a,
        FreezeFailureView::Marker(kept).text() == "cannot create recovery marker: "@ + kept.text(),
        (FreezeFailureView::Hard { mountpoint: a, cause: stop }).text() == "freeze of "@ + a
            + " failed: "@ + stop.text() + "; rolled back"@,
        (FreezeFailureView::RollbackIncomplete {
            failed: a,
            cause: stop,
            mountpoint: b,
            reason: c,
        }).text() == "freeze of "@ + a + " failed: "@ + stop.text() + "; rollback of "@ + b
            + " incomplete ("@ + c + "); marker retained"@,
        (FreezeFailureView::MarkerRetained { failed: a, cause: stop, marker: kept }).text()
            == "freeze of "@ + a + " failed: "@ + stop.text()
            + "; rolled back but cannot remove recovery marker: "@ + kept.text(),
        FreezeFailureView::NothingFrozenMarkerRetained(kept).text()
            == "nothing frozen but cannot remove recovery marker: "@ + kept.text(),
        FreezeFailureView::Task(a).text() == "freeze task failed: "@ + a,
        FreezeStopView::Unreachable(a).text() == "no mount point leads to it ("@ + a
            + "); no FIFREEZE issued"@,
{
}

/// The words in which a freeze that was aborted is told: the cause, the call in
/// flight if there is one, and how many targets had been frozen.
pub proof fn law_the_words_of_an_aborted_freeze(
    cause: AbortCause,
    timeout_secs: u64,
    frozen: nat,
    name: Seq<char>,
)
    ensures
        (FreezeFailureView::Aborted { cause, timeout_secs, frozen, in_flight: Some(name) }).text()
            == "freeze aborted: "@ + cause.description(timeout_secs) + (" with FIFREEZE of "@ + name
            + " in flight"@) + "; "@ + text::decimal(frozen)
            + " target(s) frozen so far are being thawed; marker retained"@,
        (FreezeFailureView::Aborted { cause, timeout_secs, frozen, in_flight: None }).text()
            == "freeze aborted: "@ + cause.description(timeout_secs) + "; "@ + text::decimal(frozen)
            + " target(s) frozen so far are being thawed; marker retained"@,
{
    let head = "freeze aborted: "@ + cause.description(timeout_secs);
    assert(head + Seq::<char>::empty() =~= head);
}

/// The words in which a thaw that failed is told.
pub proof fn law_the_words_of_a_failed_thaw(
    a: Seq<char>,
    b: Seq<char>,
    kept: marker::MarkerErrorView,
)
    ensures
        ThawFailureView::Plan(a).text() == "cannot build thaw plan: "@ + a,
        (ThawFailureView::Incomplete { mountpoint: a, reason: b }).text() == "thaw of "@ + a
            + " incomplete: "@ + b + "; marker retained"@,
        ThawFailureView::Marker(kept).text()
            == "drain complete but cannot remove recovery marker: "@ + kept.text(),
        ThawFailureView::Task(a).text() == "thaw task failed: "@ + a,
{
}

/// A thaw is begun while frozen or thawed; while a freeze operation is
/// unresolved it joins that one; otherwise it is refused with the state, which
/// stays.
pub proof fn law_how_a_thaw_begins(
    machine: &mut FreezeStateMachine,
    operation: bool,
    start: Result<ThawStart, Error>,
)
    requires
        call_ensures(thaw, (machine, operation), start),
    ensures
        ({
            let state = old(machine)@;
            &&& state == FreezeState::Frozen || state == FreezeState::Thawed ==> start is Ok
                && start->Ok_0 is Run && final(machine)@ == FreezeState::Thawing
            &&& (state == FreezeState::Freezing || state == FreezeState::Thawing) && operation
                ==> start is Ok && start->Ok_0 is Join && final(machine)@ == state
            &&& (state == FreezeState::Freezing || state == FreezeState::Thawing) && !operation
                ==> start is Err && final(machine)@ == state && start->Err_0@
                == proto::ErrorView::Internal(
                "cannot thaw: "@ + ("the state is "@ + state.text()),
            )
        }),
{
}

/// A freeze is begun while thawed, with the mount points it was asked for;
/// otherwise it is refused with the state, which stays.
pub proof fn law_how_a_freeze_begins(
    machine: &mut FreezeStateMachine,
    args: FreezeListArgs,
    claimed: Result<(FreezeToken, Option<Vec<String>>), Error>,
)
    requires
        call_ensures(freeze_list, (machine, args), claimed),
    ensures
        old(machine)@ == FreezeState::Thawed ==> claimed is Ok && claimed->Ok_0.1
            == args.mountpoints && final(machine)@ == FreezeState::Freezing,
        old(machine)@ != FreezeState::Thawed ==> claimed is Err && final(machine)@ == old(machine)@
            && claimed->Err_0@ == proto::ErrorView::Internal(
            "cannot freeze: "@ + ("the state is "@ + old(machine)@.text()),
        ),
{
}

/// A restart with the marker present begins frozen: the records go to the ring,
/// then the watchdog is armed.
pub proof fn law_how_a_recovery_begins(
    state: FreezeState,
    effects: Result<Vec<Effect>, Error>,
)
    requires
        call_ensures(start_recovery, (state,), effects),
    ensures
        state == FreezeState::Frozen ==> effects is Ok && freeze_op::effects_view(effects->Ok_0@)
            == seq![
            freeze_op::EffectView::FreezingEntered,
            freeze_op::EffectView::FrozenEntered,
        ],
        state != FreezeState::Frozen ==> effects is Err && effects->Err_0@
            == proto::ErrorView::Internal(
            "recovery startup requires the Frozen state, found "@ + state.text(),
        ),
{
}

} // verus!
