//! The freeze operation coordinator.
//!
//! A `guest-fsfreeze-freeze` request starts an *operation* that owns the walk
//! independently of the request and of the channel:
//!
//! 1. The mount table and the marker are prepared on a task of their own.
//! 2. Targets are frozen one at a time, each on its own task; the handle of a
//!    completed target is held before the next target is authorised.
//! 3. The operation has an immutable deadline. The abort decision (deadline
//!    passed, or a thaw requested) is taken at every boundary: before each
//!    target is authorised, by the worker right before its ioctl, while a
//!    worker is awaited, and before a successful completion is committed.
//! 4. When the abort commits (exactly once): no further target is authorised,
//!    the state moves from `Freezing` to `Thawing`, the request gets its one
//!    reply (an error), and the targets frozen so far are drained on a task of
//!    their own, independent of the worker still blocked in `FIFREEZE`.
//! 5. Every authorised worker is awaited to its end. A late success is drained
//!    through the handle it opened; a late error needs nothing; a worker that
//!    was lost leaves its target uncertain.
//! 6. The operation settles through one path only when no worker is
//!    outstanding and every handle has been drained: complete and the marker
//!    removed, `Thawed`; a drain incomplete or the marker not removable,
//!    `Frozen` with the marker retained; nothing frozen and nothing held,
//!    `Thawed` with the reply `0`.
//!
//! [`Driver`] is that state machine. It is told what happened and answers with
//! the effects to carry out, in order; it performs nothing itself.

pub mod driver;
pub mod handles;
pub mod laws;
pub mod preparation;
pub mod worker;

use vstd::prelude::*;
use vstd::string::*;

use crate::dispatch::ThawScope;
use crate::freeze_plan::Target;
use crate::freeze_plan;
use crate::handlers::fsfreeze::{FreezeFailure, FreezeStop};
use crate::handlers::fsfreeze;
use crate::kernel::{KernelError, Mount};
use crate::kernel;
use crate::state::FreezeState;
use crate::text::decimal_text;
use crate::text;

verus! {

/// Why an operation was aborted.
#[derive(Debug, Clone, Copy, PartialEq, Eq, Structural)]
pub enum AbortCause {
    /// The operation deadline expired.
    Deadline,
    /// A `guest-fsfreeze-thaw` arrived while the walk was under way.
    ThawRequested,
    /// A freeze worker was lost: its target is uncertain, so the walk stops
    /// and the operation settles `Frozen`.
    WorkerLost,
}

impl AbortCause {
    /// The cause for a reply.
    pub open spec fn description(self, timeout_secs: u64) -> Seq<char> {
        match self {
            AbortCause::Deadline => "operation deadline of "@ + text::decimal(timeout_secs as nat)
                + " s expired"@,
            AbortCause::ThawRequested => "thaw requested"@,
            AbortCause::WorkerLost => "freeze worker lost"@,
        }
    }

    /// The cause for a reply, with the deadline where it applies.
    pub fn describe(self, timeout_secs: u64) -> (text: String)
        ensures
            text@ == self.description(timeout_secs),
    {
        match self {
            AbortCause::Deadline => "operation deadline of ".to_owned().concat(
                decimal_text(timeout_secs).as_str(),
            ).concat(" s expired"),
            AbortCause::ThawRequested => "thaw requested".to_owned(),
            AbortCause::WorkerLost => "freeze worker lost".to_owned(),
        }
    }

    /// The cause's name.
    pub open spec fn text(self) -> Seq<char> {
        match self {
            AbortCause::Deadline => "deadline"@,
            AbortCause::ThawRequested => "thaw_requested"@,
            AbortCause::WorkerLost => "worker_lost"@,
        }
    }

    /// The cause's name, as log records carry it.
    pub fn name(self) -> (name: &'static str)
        ensures
            name@ == self.text(),
    {
        match self {
            AbortCause::Deadline => "deadline",
            AbortCause::ThawRequested => "thaw_requested",
            AbortCause::WorkerLost => "worker_lost",
        }
    }
}

/// The `in_flight` value while the plan and the marker are being prepared.
pub const PREPARING: &'static str = "(preparing)";

// ---------------------------------------------------------------------------
// The outcome that abort and completion compete for
// ---------------------------------------------------------------------------

/// Who has claimed the outcome of an operation.
#[derive(Debug, Clone, Copy, PartialEq, Eq, Structural)]
pub enum Claim {
    /// Nobody yet.
    Open,
    /// An abort was accepted.
    Aborting,
    /// The operation committed its outcome.
    Committed,
}

/// The answer to a request to abort.
#[derive(Debug, Clone, Copy, PartialEq, Eq, Structural)]
pub enum AbortRequest {
    /// The abort is accepted (now or already): the operation will not commit a
    /// successful freeze, and recovery of the targets frozen so far is, or
    /// will be, under way.
    Accepted,
    /// The operation had already committed its outcome: nothing is aborted,
    /// and the thaw belongs to the ordinary path.
    Committed,
}

/// The part of an operation that a thaw request and a worker see.
#[derive(Debug, Clone, Copy, PartialEq, Eq, Structural)]
pub struct FreezeOp {
    /// The operation deadline, in nanoseconds of the operation's clock.
    pub deadline: u64,
    /// Who has claimed the outcome: abort and completion compete for it.
    pub claim: Claim,
    /// The abort committed in the driver.
    pub aborted: bool,
}

impl FreezeOp {
    /// After an abort was claimed.
    pub open spec fn aborting(self) -> FreezeOp {
        FreezeOp {
            claim: if self.claim == Claim::Open {
                Claim::Aborting
            } else {
                self.claim
            },
            ..self
        }
    }

    /// After a commit was claimed.
    pub open spec fn committing(self) -> FreezeOp {
        FreezeOp {
            claim: if self.claim == Claim::Open {
                Claim::Committed
            } else {
                self.claim
            },
            ..self
        }
    }

    /// The abort decision at a boundary: an accepted request, else the
    /// deadline.
    pub open spec fn due(self, now: u64) -> Option<AbortCause> {
        if self.claim == Claim::Aborting {
            Some(AbortCause::ThawRequested)
        } else if now >= self.deadline {
            Some(AbortCause::Deadline)
        } else {
            None
        }
    }

    /// A destructive call may be issued now: not aborted and not past the
    /// deadline.
    pub open spec fn authorised_at(self, now: u64) -> bool {
        !self.aborted && now < self.deadline
    }

    /// An operation with nothing decided.
    pub fn new(deadline: u64) -> (op: FreezeOp)
        ensures
            op == (FreezeOp { deadline, claim: Claim::Open, aborted: false }),
    {
        FreezeOp { deadline, claim: Claim::Open, aborted: false }
    }

    /// The operation deadline.
    pub fn deadline(&self) -> (deadline: u64)
        ensures
            deadline == self.deadline,
    {
        self.deadline
    }

    /// Asks the operation to stop authorising targets and to recover the ones
    /// frozen so far. Idempotent. The answer says whether the abort is
    /// accepted or the operation had already committed its outcome.
    pub fn request_abort(&mut self) -> (answer: AbortRequest)
        ensures
            *final(self) == old(self).aborting(),
            answer == if final(self).claim == Claim::Aborting {
                AbortRequest::Accepted
            } else {
                AbortRequest::Committed
            },
    {
        match self.claim {
            Claim::Open => {
                self.claim = Claim::Aborting;
                AbortRequest::Accepted
            },
            Claim::Aborting => AbortRequest::Accepted,
            Claim::Committed => AbortRequest::Committed,
        }
    }

    /// Claims the outcome for a settlement. `false` when it was claimed
    /// before: after an accepted abort the operation must recover instead.
    pub fn try_commit(&mut self) -> (claimed: bool)
        ensures
            *final(self) == old(self).committing(),
            claimed == (old(self).claim == Claim::Open),
    {
        match self.claim {
            Claim::Open => {
                self.claim = Claim::Committed;
                true
            },
            _ => false,
        }
    }

    /// The driver accepting the abort itself (deadline, lost worker).
    pub fn mark_aborting(&mut self)
        ensures
            *final(self) == old(self).aborting(),
    {
        if let Claim::Open = self.claim {
            self.claim = Claim::Aborting;
        }
    }

    /// The abort decision at a boundary: an accepted request, else the
    /// deadline.
    pub fn abort_due(&self, now: u64) -> (cause: Option<AbortCause>)
        ensures
            cause == self.due(now),
    {
        match self.claim {
            Claim::Aborting => Some(AbortCause::ThawRequested),
            _ => if now >= self.deadline {
                Some(AbortCause::Deadline)
            } else {
                None
            },
        }
    }

    /// A worker's last check before its destructive call: not aborted and not
    /// past the deadline. A worker that passed it is owned regardless.
    pub fn authorises(&self, now: u64) -> (yes: bool)
        ensures
            yes == self.authorised_at(now),
    {
        !self.aborted && now < self.deadline
    }
}

/// Abort and commit exclude each other: once an abort was accepted no commit
/// succeeds, once the outcome was committed no abort is accepted, and either
/// stays so.
pub proof fn law_abort_and_commit_exclude_each_other(op: FreezeOp)
    ensures
        op.aborting().committing().claim == op.aborting().claim,
        op.committing().aborting().claim == op.committing().claim,
        op.claim != Claim::Open ==> op.aborting() == op && op.committing() == op,
        op.aborting().claim != Claim::Open,
        op.committing().claim != Claim::Open,
{
}

/// The worker's last check and the driver's decision agree on the deadline:
/// the deadline instant itself authorises nothing.
pub proof fn law_nothing_is_authorised_from_the_deadline_on(op: FreezeOp, now: u64)
    requires
        op.claim != Claim::Aborting,
        !op.aborted,
    ensures
        op.due(now) is None <==> now < op.deadline,
{
}

// ---------------------------------------------------------------------------
// What the driver asks for
// ---------------------------------------------------------------------------

/// Where an operation stands.
#[derive(Debug, Clone, Copy, PartialEq, Eq, Structural)]
pub enum Phase {
    /// Targets are being authorised and frozen.
    Freezing,
    /// The abort committed: no further target is authorised; completed targets
    /// are being drained while outstanding work settles.
    Recovering,
    /// Everything settled; `settled` names the state that was published.
    Settled,
}

/// A snapshot of an operation.
#[derive(Debug, PartialEq, Eq)]
pub struct Progress {
    /// Where the operation stands.
    pub phase: Phase,
    /// Successful `FIFREEZE` calls so far.
    pub frozen: u64,
    /// The target whose `FIFREEZE` is outstanding ([`PREPARING`] while the
    /// plan and the marker are being prepared).
    pub in_flight: Option<String>,
    /// The abort has committed and every handle so far has been drained: the
    /// targets frozen before the abort are recovered, whatever the call in
    /// flight does later.
    pub recovery_pass_done: bool,
    /// Targets on which a recovery drain succeeded at least once.
    pub recovered: u64,
    /// A drain that did not complete (target and reason).
    pub unrecoverable: Option<String>,
    /// The state published when the operation settled.
    pub settled: Option<FreezeState>,
}

impl Progress {
    /// Whether the completed targets have had their recovery drain or the
    /// operation has settled.
    pub fn recovery_pass_done(&self) -> (done: bool)
        ensures
            done == (self.settled is Some || self.recovery_pass_done),
    {
        self.settled.is_some() || self.recovery_pass_done
    }
}

/// A move of the freeze state machine.
#[derive(Debug, Clone, Copy, PartialEq, Eq, Structural)]
pub enum Transition {
    /// `Freezing → Thawing`.
    AbortFreeze,
    /// `Freezing → Frozen`.
    FreezeSucceeded,
    /// `Freezing → Thawed`.
    FreezeFailed,
    /// `Thawing → Thawed`.
    ThawSucceeded,
    /// `Thawing → Frozen`.
    ThawFailed,
}

/// Something to carry out.
#[derive(Debug, PartialEq, Eq)]
pub enum Effect {
    /// Move the state machine.
    Transition(Transition),
    /// A freeze begins: audit output goes to the ring.
    FreezingEntered,
    /// A thaw was claimed: the watchdog is cancelled.
    ThawClaimed,
    /// Everything is thawed, though the state does not say so yet: the audit
    /// ring is flushed.
    Thawed,
    /// The state is `Frozen`: the watchdog is armed.
    FrozenEntered,
    /// Open the target and issue `FIFREEZE` on a task of its own.
    Freeze(Target),
    /// Drain these handles on a task of their own.
    Recover(Vec<Mount>),
    /// Drain these handles and remove the marker: `failed` stopped the freeze.
    Rollback {
        held: Vec<Mount>,
        failed: String,
        cause: FreezeStop,
    },
    /// Remove the marker.
    RemoveMarker,
    /// Hold these handles for the thaw.
    Hold(Vec<Mount>),
    /// Release the operation's registration.
    Retire,
    /// How the next thaw finds what it must drain.
    Scope(ThawScope),
    /// Announce the settlement.
    Announce,
    /// The request's one reply.
    Reply(Result<u64, FreezeFailure>),
}

/// Something to carry out, as a mathematical value.
#[verifier::ext_equal]
pub ghost enum EffectView {
    Transition(Transition),
    FreezingEntered,
    ThawClaimed,
    Thawed,
    FrozenEntered,
    Freeze(freeze_plan::TargetView),
    Recover(Seq<kernel::MountView>),
    Rollback {
        held: Seq<kernel::MountView>,
        failed: Seq<char>,
        cause: fsfreeze::FreezeStopView,
    },
    RemoveMarker,
    Hold(Seq<kernel::MountView>),
    Retire,
    Scope(ThawScope),
    Announce,
    Reply(Result<nat, fsfreeze::FreezeFailureView>),
}

/// A freeze's result, as a mathematical value.
pub open spec fn freeze_view(result: Result<u64, FreezeFailure>) -> Result<
    nat,
    fsfreeze::FreezeFailureView,
> {
    match result {
        Ok(frozen) => Ok(frozen as nat),
        Err(failure) => Err(failure@),
    }
}

impl View for Effect {
    type V = EffectView;

    open spec fn view(&self) -> EffectView {
        match self {
            Effect::Transition(it) => EffectView::Transition(*it),
            Effect::FreezingEntered => EffectView::FreezingEntered,
            Effect::ThawClaimed => EffectView::ThawClaimed,
            Effect::Thawed => EffectView::Thawed,
            Effect::FrozenEntered => EffectView::FrozenEntered,
            Effect::Freeze(target) => EffectView::Freeze(target@),
            Effect::Recover(held) => EffectView::Recover(kernel::mounts_view(held@)),
            Effect::Rollback { held, failed, cause } => EffectView::Rollback {
                held: kernel::mounts_view(held@),
                failed: failed@,
                cause: cause@,
            },
            Effect::RemoveMarker => EffectView::RemoveMarker,
            Effect::Hold(held) => EffectView::Hold(kernel::mounts_view(held@)),
            Effect::Retire => EffectView::Retire,
            Effect::Scope(scope) => EffectView::Scope(*scope),
            Effect::Announce => EffectView::Announce,
            Effect::Reply(result) => EffectView::Reply(freeze_view(*result)),
        }
    }
}

/// Effects, each taken by its view.
pub open spec fn effects_view(effects: Seq<Effect>) -> Seq<EffectView> {
    Seq::new(effects.len(), |i: int| effects[i]@)
}

/// What one target's worker found.
#[derive(Debug, PartialEq, Eq)]
pub enum TargetOutcome {
    /// `FIFREEZE` succeeded; the handle is to be drained later.
    Frozen(Mount),
    /// Frozen by another freezer; retained for the drain.
    Busy(Mount),
    /// The filesystem cannot be frozen: skipped.
    Skipped,
    /// The abort had committed, or the deadline had passed, before the ioctl:
    /// nothing was issued.
    NotAuthorized,
    /// A hard error, or no mount point leads to the target.
    Failed(FreezeStop),
    /// The worker is gone without an answer; says why.
    Lost(String),
}

/// What a worker found, as a mathematical value.
#[verifier::ext_equal]
pub ghost enum OutcomeView {
    Frozen(kernel::MountView),
    Busy(kernel::MountView),
    Skipped,
    NotAuthorized,
    Failed(fsfreeze::FreezeStopView),
    Lost(Seq<char>),
}

impl View for TargetOutcome {
    type V = OutcomeView;

    open spec fn view(&self) -> OutcomeView {
        match self {
            TargetOutcome::Frozen(mount) => OutcomeView::Frozen(mount@),
            TargetOutcome::Busy(mount) => OutcomeView::Busy(mount@),
            TargetOutcome::Skipped => OutcomeView::Skipped,
            TargetOutcome::NotAuthorized => OutcomeView::NotAuthorized,
            TargetOutcome::Failed(stop) => OutcomeView::Failed(stop@),
            TargetOutcome::Lost(why) => OutcomeView::Lost(why@),
        }
    }
}

/// What an answer to `FIFREEZE` comes to.
pub open spec fn freeze_answered(
    mount: kernel::MountView,
    answer: Result<(), KernelError>,
) -> OutcomeView {
    match answer {
        Ok(()) => OutcomeView::Frozen(mount),
        Err(err) => match err.answer() {
            Some(errno) if KernelError::unsupported(errno) => OutcomeView::Skipped,
            Some(errno) if errno == kernel::EBUSY => OutcomeView::Busy(mount),
            _ => OutcomeView::Failed(fsfreeze::FreezeStopView::Ioctl(err)),
        },
    }
}

/// What a worker answers after `FIFREEZE`.
pub fn freeze_answer(
    mount: Mount,
    answer: Result<(), KernelError>,
) -> (outcome: TargetOutcome)
    ensures
        outcome@ == freeze_answered(mount@, answer),
{
    match answer {
        Ok(()) => TargetOutcome::Frozen(mount),
        Err(err) => {
            if err.is_not_supported() {
                TargetOutcome::Skipped
            } else if err.is_busy() {
                TargetOutcome::Busy(mount)
            } else {
                TargetOutcome::Failed(FreezeStop::Ioctl(err))
            }
        },
    }
}

/// What the answer to `FIFREEZE` comes to: a success, or the answer that the
/// filesystem is frozen already (16), keeps the handle for the drain; a
/// filesystem that cannot be frozen (95, 25 or 38) is passed over; every other
/// error stops the freeze and is told.
pub proof fn law_what_an_answer_to_a_freeze_comes_to(
    mount: Mount,
    answer: Result<(), KernelError>,
    outcome: TargetOutcome,
)
    requires
        call_ensures(freeze_answer, (mount, answer), outcome),
    ensures
        answer is Ok ==> outcome@ == OutcomeView::Frozen(mount@),
        answer matches Err(KernelError::Errno(errno)) && errno == 16 ==> outcome@
            == OutcomeView::Busy(mount@),
        answer matches Err(KernelError::Errno(errno)) && (errno == 95 || errno == 25 || errno == 38)
            ==> outcome@ == OutcomeView::Skipped,
        answer matches Err(KernelError::Errno(errno)) && errno != 16 && errno != 95 && errno != 25
            && errno != 38 ==> outcome@ == OutcomeView::Failed(
            fsfreeze::FreezeStopView::Ioctl(answer->Err_0),
        ),
        answer matches Err(KernelError::Open(errno)) ==> outcome@ == OutcomeView::Failed(
            fsfreeze::FreezeStopView::Ioctl(answer->Err_0),
        ),
        answer matches Err(KernelError::WrongFilesystem { expected, found }) ==> outcome@
            == OutcomeView::Failed(fsfreeze::FreezeStopView::Ioctl(answer->Err_0)),
{
}

/// When an abort is due: at once when a thaw was accepted, otherwise from the
/// deadline on and never before.
pub proof fn law_when_an_abort_is_due(op: FreezeOp, now: u64)
    ensures
        op.claim == Claim::Aborting ==> op.due(now) == Some(AbortCause::ThawRequested),
        op.claim != Claim::Aborting && now < op.deadline ==> op.due(now) is None,
        op.claim != Claim::Aborting && now >= op.deadline ==> op.due(now) == Some(
            AbortCause::Deadline,
        ),
{
}

/// A call is authorised before the deadline, unless the operation was aborted;
/// from the deadline on, none is.
pub proof fn law_when_a_call_is_authorised(op: FreezeOp, now: u64, yes: bool)
    requires
        call_ensures(FreezeOp::authorises, (&op, now), yes),
    ensures
        !op.aborted && now < op.deadline ==> yes,
        op.aborted || now >= op.deadline ==> !yes,
        op.authorised_at(now) == yes,
{
}

/// The first claim wins, whichever it is, and touches nothing but the claim.
pub proof fn law_the_first_claim_wins(op: FreezeOp)
    ensures
        op.claim == Claim::Open ==> op.aborting().claim == Claim::Aborting,
        op.claim == Claim::Open ==> op.committing().claim == Claim::Committed,
        op.claim != Claim::Open ==> op.aborting().claim == op.claim,
        op.claim != Claim::Open ==> op.committing().claim == op.claim,
        op.aborting().deadline == op.deadline,
        op.committing().deadline == op.deadline,
        op.aborting().aborted == op.aborted,
        op.committing().aborted == op.aborted,
{
}

/// The words and the names of the causes of an abort.
pub proof fn law_the_words_of_an_abort(timeout_secs: u64)
    ensures
        AbortCause::Deadline.description(timeout_secs) == "operation deadline of "@
            + text::decimal(timeout_secs as nat) + " s expired"@,
        AbortCause::ThawRequested.description(timeout_secs) == "thaw requested"@,
        AbortCause::WorkerLost.description(timeout_secs) == "freeze worker lost"@,
        AbortCause::Deadline.text() == "deadline"@,
        AbortCause::ThawRequested.text() == "thaw_requested"@,
        AbortCause::WorkerLost.text() == "worker_lost"@,
{
}

/// An abort is accepted unless the outcome was committed before, and a commit
/// succeeds only if nobody claimed the outcome before.
pub proof fn law_what_a_claim_is_answered(
    aborting: &mut FreezeOp,
    answer: AbortRequest,
    committing: &mut FreezeOp,
    claimed: bool,
    progress: Progress,
    done: bool,
)
    requires
        call_ensures(FreezeOp::request_abort, (aborting,), answer),
        call_ensures(FreezeOp::try_commit, (committing,), claimed),
        call_ensures(Progress::recovery_pass_done, (&progress,), done),
    ensures
        old(aborting).claim == Claim::Committed ==> answer == AbortRequest::Committed,
        old(aborting).claim != Claim::Committed ==> answer == AbortRequest::Accepted
            && final(aborting).claim == Claim::Aborting,
        claimed <==> old(committing).claim == Claim::Open,
        claimed ==> final(committing).claim == Claim::Committed,
        !claimed ==> *final(committing) == *old(committing),
        done <==> progress.settled is Some || progress.recovery_pass_done,
{
}

} // verus!
