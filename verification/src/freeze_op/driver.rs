//! The state machine of a freeze operation.

use vstd::prelude::*;
use vstd::string::*;

use crate::dispatch::ThawScope;
use crate::freeze_op::{
    AbortCause, AbortRequest, Claim, Effect, FreezeOp, Phase, Progress, TargetOutcome, Transition,
    PREPARING,
};
use crate::freeze_op;
use crate::freeze_plan::{FreezePlan, Target};
use crate::freeze_plan;
use crate::handlers::fsfreeze::drain::{Incomplete, RecoveryPass};
use crate::handlers::fsfreeze::drain;
use crate::handlers::fsfreeze::{FreezeFailure, FreezeStop};
use crate::handlers::fsfreeze;
use crate::kernel::Mount;
use crate::kernel;
use crate::marker::{marker_gone, MarkerError};
use crate::marker;
use crate::state::FreezeState;
use crate::text::lossy_text;
use crate::text;

verus! {

/// Why the marker is being removed.
#[derive(Debug, PartialEq, Eq)]
pub enum Removal {
    /// Nothing was frozen and nothing is held.
    NothingFrozen,
    /// The preparation was lost; says why.
    Unprepared(String),
    /// The operation was aborted and everything was drained.
    Aborted,
}

/// What an operation waits for.
#[derive(Debug, PartialEq, Eq)]
pub enum Stage {
    /// The plan and the marker.
    Preparing,
    /// The worker of a target.
    Freezing,
    /// The drain of what an aborted operation froze.
    Recovering,
    /// The removal of the marker.
    Removing(Removal),
    /// The rollback after a hard error.
    RollingBack,
    /// Nothing: it has settled.
    Settled,
}

/// Why the marker is being removed, as a mathematical value.
#[verifier::ext_equal]
pub ghost enum RemovalView {
    NothingFrozen,
    Unprepared(Seq<char>),
    Aborted,
}

/// What an operation waits for, as a mathematical value.
#[verifier::ext_equal]
pub ghost enum StageView {
    Preparing,
    Freezing,
    Recovering,
    Removing(RemovalView),
    RollingBack,
    Settled,
}

impl View for Removal {
    type V = RemovalView;

    open spec fn view(&self) -> RemovalView {
        match self {
            Removal::NothingFrozen => RemovalView::NothingFrozen,
            Removal::Unprepared(why) => RemovalView::Unprepared(why@),
            Removal::Aborted => RemovalView::Aborted,
        }
    }
}

impl View for Stage {
    type V = StageView;

    open spec fn view(&self) -> StageView {
        match self {
            Stage::Preparing => StageView::Preparing,
            Stage::Freezing => StageView::Freezing,
            Stage::Recovering => StageView::Recovering,
            Stage::Removing(why) => StageView::Removing(why@),
            Stage::RollingBack => StageView::RollingBack,
            Stage::Settled => StageView::Settled,
        }
    }
}

/// A freeze operation.
#[derive(Debug)]
pub struct Driver {
    op: FreezeOp,
    stage: Stage,
    targets: Vec<Target>,
    in_flight: Option<String>,
    frozen: u64,
    held: Vec<Mount>,
    recovering: bool,
    recovered: u64,
    kept: Vec<Mount>,
    unrecoverable: Option<Incomplete>,
    published: Option<String>,
    uncertain: bool,
    abort: Option<AbortCause>,
    timeout_secs: u64,
    replied: bool,
    settled: Option<FreezeState>,
    effects: Vec<Effect>,
}

/// A freeze operation as a mathematical value.
#[verifier::ext_equal]
pub ghost struct DriverView {
    pub op: FreezeOp,
    pub stage: StageView,
    /// The targets not begun, in mount order: the last is frozen next.
    pub targets: Seq<freeze_plan::TargetView>,
    /// The target whose worker is out.
    pub in_flight: Option<Seq<char>>,
    /// Successful `FIFREEZE` calls.
    pub frozen: nat,
    /// The handles that no drain has taken.
    pub held: Seq<kernel::MountView>,
    /// A recovery drain is out.
    pub recovering: bool,
    /// Targets on which a recovery drain succeeded at least once.
    pub recovered: nat,
    /// Handles whose drain did not complete.
    pub kept: Seq<kernel::MountView>,
    /// The first target that may still be frozen.
    pub unrecoverable: Option<drain::IncompleteView>,
    /// What snapshots say of it.
    pub published: Option<Seq<char>>,
    /// A target's outcome is unknown and no handle shows for it.
    pub uncertain: bool,
    pub abort: Option<AbortCause>,
    pub timeout_secs: u64,
    pub replied: bool,
    pub settled: Option<FreezeState>,
    /// What is to be carried out, in order.
    pub effects: Seq<freeze_op::EffectView>,
}

impl DriverView {
    /// An operation that has just begun. `held` are handles of earlier
    /// operations that are still held.
    pub open spec fn start(
        deadline: u64,
        timeout_secs: u64,
        held: Seq<kernel::MountView>,
    ) -> DriverView {
        DriverView {
            op: FreezeOp { deadline, claim: Claim::Open, aborted: false },
            stage: StageView::Preparing,
            targets: Seq::empty(),
            in_flight: Some(PREPARING@),
            frozen: 0,
            held,
            recovering: false,
            recovered: 0,
            kept: Seq::empty(),
            unrecoverable: None,
            published: None,
            uncertain: false,
            abort: None,
            timeout_secs,
            replied: false,
            settled: None,
            effects: Seq::empty(),
        }
    }

    /// With one more effect.
    pub open spec fn emit(self, effect: freeze_op::EffectView) -> DriverView {
        DriverView { effects: self.effects.push(effect), ..self }
    }

    /// Replies, unless the request was replied to.
    pub open spec fn reply(
        self,
        result: Result<nat, fsfreeze::FreezeFailureView>,
    ) -> DriverView {
        if self.replied {
            self
        } else {
            DriverView { replied: true, ..self.emit(freeze_op::EffectView::Reply(result)) }
        }
    }

    /// Starts a recovery drain over the held handles unless one is out or
    /// there is nothing to drain.
    pub open spec fn recover(self) -> DriverView {
        if self.recovering || self.held.len() == 0 {
            self
        } else {
            DriverView {
                recovering: true,
                held: Seq::empty(),
                ..self.emit(freeze_op::EffectView::Recover(self.held))
            }
        }
    }

    /// The abort commits: the state moves to `Thawing`, the request gets its
    /// one reply, and the completed targets get their drain.
    #[verifier::opaque]
    pub open spec fn commit_abort(self, cause: AbortCause) -> DriverView {
        if self.abort is Some {
            self
        } else {
            DriverView {
                abort: Some(cause),
                op: FreezeOp { aborted: true, ..self.op.aborting() },
                ..self
            }.emit(freeze_op::EffectView::Transition(Transition::AbortFreeze)).emit(
                freeze_op::EffectView::ThawClaimed,
            ).reply(
                Err(
                    fsfreeze::FreezeFailureView::Aborted {
                        cause,
                        timeout_secs: self.timeout_secs,
                        frozen: self.frozen,
                        in_flight: self.in_flight,
                    },
                ),
            ).recover()
        }
    }

    /// Takes the abort decision at a boundary.
    pub open spec fn decide(self, now: u64) -> DriverView {
        match self.op.due(now) {
            Some(cause) => self.commit_abort(cause),
            None => self,
        }
    }

    /// The move that ends the operation in `frozen` or thawed.
    pub open spec fn last_transition(self, frozen: bool) -> Transition {
        match (self.abort, frozen) {
            (None, true) => Transition::FreezeSucceeded,
            (None, false) => Transition::FreezeFailed,
            (Some(_), true) => Transition::ThawFailed,
            (Some(_), false) => Transition::ThawSucceeded,
        }
    }

    /// How a thaw of what the operation leaves finds it.
    pub open spec fn scope(self, frozen: bool) -> ThawScope {
        if frozen && !self.uncertain {
            ThawScope::Held
        } else {
            ThawScope::Discovery
        }
    }

    /// The one settlement path, in this order: finalise while the state still
    /// refuses a new freeze, retire the registration, say how the next thaw
    /// works and hand over the handles, publish the state, announce the
    /// settlement, and reply if no reply went out.
    #[verifier::opaque]
    pub open spec fn conclude(
        self,
        frozen: bool,
        result: Result<nat, fsfreeze::FreezeFailureView>,
    ) -> DriverView {
        let finalised = if frozen {
            self
        } else {
            self.emit(freeze_op::EffectView::Thawed)
        };
        let published = DriverView {
            op: self.op.committing(),
            held: Seq::empty(),
            ..finalised.emit(freeze_op::EffectView::Retire).emit(
                freeze_op::EffectView::Scope(self.scope(frozen)),
            ).emit(freeze_op::EffectView::Hold(self.held)).emit(
                freeze_op::EffectView::Transition(self.last_transition(frozen)),
            )
        };
        let entered = if frozen {
            published.emit(freeze_op::EffectView::FrozenEntered)
        } else {
            published
        };
        DriverView {
            stage: StageView::Settled,
            in_flight: None,
            settled: Some(
                if frozen {
                    FreezeState::Frozen
                } else {
                    FreezeState::Thawed
                },
            ),
            ..entered.emit(freeze_op::EffectView::Announce)
        }.reply(result)
    }

    /// Asks for the marker's removal.
    pub open spec fn remove_marker(self, why: RemovalView) -> DriverView {
        DriverView {
            stage: StageView::Removing(why),
            ..self.emit(freeze_op::EffectView::RemoveMarker)
        }
    }

    /// The abort committed and no worker is out: drains what was held since
    /// the last drain, then finishes.
    #[verifier::opaque]
    pub open spec fn settle_aborted(self) -> DriverView {
        let next = self.recover();
        if next.recovering {
            DriverView { stage: StageView::Recovering, ..next }
        } else if next.unrecoverable is Some {
            DriverView { held: next.held + next.kept, kept: Seq::empty(), ..next }.conclude(
                true,
                Err(fsfreeze::FreezeFailureView::Task("aborted"@)),
            )
        } else {
            next.remove_marker(RemovalView::Aborted)
        }
    }

    /// Every target was dealt with and nothing was aborted: claims the
    /// outcome. Nothing frozen, nothing held and nothing uncertain settles
    /// thawed.
    #[verifier::opaque]
    pub open spec fn commit_freeze(self) -> DriverView {
        let next = DriverView { op: self.op.committing(), ..self };
        if self.op.claim != Claim::Open {
            next.commit_abort(AbortCause::ThawRequested).settle_aborted()
        } else if next.frozen == 0 && next.held.len() == 0 && next.unrecoverable is None {
            next.remove_marker(RemovalView::NothingFrozen)
        } else {
            next.conclude(true, Ok(next.frozen))
        }
    }

    /// The next target, if the operation may go on; otherwise its end.
    #[verifier::opaque]
    pub open spec fn advance(self, now: u64) -> DriverView {
        let next = self.decide(now);
        if next.abort is Some {
            next.settle_aborted()
        } else if next.targets.len() > 0 {
            let target = next.targets.last();
            DriverView {
                targets: next.targets.drop_last(),
                in_flight: Some(text::lossy(target.mountpoint)),
                stage: StageView::Freezing,
                ..next
            }.emit(freeze_op::EffectView::Freeze(target))
        } else {
            next.commit_freeze()
        }
    }

    /// Nothing was frozen: the plan or the marker failed, or the preparation
    /// was lost.
    pub open spec fn unprepared(self, failure: fsfreeze::FreezeFailureView) -> DriverView {
        if self.abort is Some {
            self.settle_aborted()
        } else {
            match failure {
                fsfreeze::FreezeFailureView::Task(why) => self.remove_marker(
                    RemovalView::Unprepared(why),
                ),
                _ => self.conclude(false, Err(failure)),
            }
        }
    }

    /// The preparation ended.
    pub open spec fn prepared(
        self,
        result: Result<Seq<freeze_plan::TargetView>, fsfreeze::FreezeFailureView>,
        now: u64,
    ) -> DriverView {
        match result {
            Ok(targets) => DriverView { targets, in_flight: None, ..self }.advance(now),
            Err(failure) => self.unprepared(failure),
        }
    }

    /// With a reason why a target may still be frozen, unless there is one.
    pub open spec fn blame(self, mountpoint: Seq<char>, reason: Seq<char>) -> DriverView {
        if self.unrecoverable is Some {
            self
        } else {
            DriverView {
                unrecoverable: Some(drain::IncompleteView { mountpoint, reason }),
                ..self
            }
        }
    }

    /// The worker ended.
    pub open spec fn worked(self, outcome: freeze_op::OutcomeView, now: u64) -> DriverView {
        let next = DriverView { in_flight: None, ..self };
        let name = self.in_flight->0;
        match outcome {
            freeze_op::OutcomeView::Frozen(mount) => DriverView {
                frozen: next.frozen + 1,
                held: next.held.push(mount),
                ..next
            }.advance(now),
            freeze_op::OutcomeView::Busy(mount) => DriverView {
                held: next.held.push(mount),
                ..next
            }.advance(now),
            freeze_op::OutcomeView::Skipped => next.advance(now),
            freeze_op::OutcomeView::NotAuthorized => next.advance(now),
            freeze_op::OutcomeView::Failed(cause) => if next.abort is None {
                DriverView {
                    stage: StageView::RollingBack,
                    held: Seq::empty(),
                    ..next.emit(
                        freeze_op::EffectView::Rollback { held: next.held, failed: name, cause },
                    )
                }
            } else {
                next.advance(now)
            },
            freeze_op::OutcomeView::Lost(why) => DriverView {
                uncertain: true,
                ..next.blame(
                    name,
                    "freeze worker lost ("@ + why + "); FIFREEZE outcome unknown"@,
                )
            }.commit_abort(AbortCause::WorkerLost).settle_aborted(),
        }
    }

    /// What snapshots say of the first target that may still be frozen.
    pub open spec fn publish(self) -> DriverView {
        DriverView {
            published: match self.unrecoverable {
                Some(it) => Some(it.mountpoint + ": "@ + it.reason),
                None => None,
            },
            ..self
        }
    }

    /// Goes on after a recovery drain.
    pub open spec fn after_recovery(self) -> DriverView {
        let next = DriverView { recovering: false, ..self }.publish();
        if next.stage is Recovering {
            next.settle_aborted()
        } else {
            next.recover()
        }
    }

    /// The recovery drain ended.
    pub open spec fn drained(self, pass: drain::PassView) -> DriverView {
        DriverView {
            recovered: self.recovered + pass.recovered,
            kept: self.kept + pass.keep,
            unrecoverable: if self.unrecoverable is Some {
                self.unrecoverable
            } else {
                pass.incomplete
            },
            ..self
        }.after_recovery()
    }

    /// The recovery drain is gone, and its handles with it.
    pub open spec fn drain_lost(self, why: Seq<char>) -> DriverView {
        DriverView {
            uncertain: true,
            ..self.blame("(recovery drain)"@, "recovery drain lost ("@ + why + ")"@)
        }.after_recovery()
    }

    /// The removal of the marker ended.
    pub open spec fn removed(self, removed: Result<(), marker::MarkerErrorView>) -> DriverView {
        match self.stage->Removing_0 {
            RemovalView::NothingFrozen => if marker::gone(removed) {
                self.conclude(false, Ok(0))
            } else {
                self.conclude(
                    true,
                    Err(
                        fsfreeze::FreezeFailureView::NothingFrozenMarkerRetained(removed->Err_0),
                    ),
                )
            },
            RemovalView::Unprepared(why) => if marker::gone(removed) {
                self.conclude(false, Err(fsfreeze::FreezeFailureView::Task(why)))
            } else {
                self.conclude(
                    true,
                    Err(
                        fsfreeze::FreezeFailureView::MarkerRetained {
                            failed: "(preparation)"@,
                            cause: fsfreeze::FreezeStopView::Unreachable(
                                fsfreeze::FreezeFailureView::Task(why).text(),
                            ),
                            marker: removed->Err_0,
                        },
                    ),
                )
            },
            RemovalView::Aborted => self.conclude(
                !marker::gone(removed),
                Err(fsfreeze::FreezeFailureView::Task("aborted"@)),
            ),
        }
    }

    /// The removal of the marker is gone without an answer.
    pub open spec fn removal_lost(self, why: Seq<char>) -> DriverView {
        match self.stage->Removing_0 {
            RemovalView::NothingFrozen => self.conclude(
                true,
                Err(fsfreeze::FreezeFailureView::Task("marker removal lost: "@ + why)),
            ),
            RemovalView::Unprepared(lost) => self.conclude(
                false,
                Err(fsfreeze::FreezeFailureView::Task(lost)),
            ),
            RemovalView::Aborted => self.conclude(
                true,
                Err(fsfreeze::FreezeFailureView::Task("aborted"@)),
            ),
        }
    }

    /// The rollback ended.
    pub open spec fn rolled_back(
        self,
        failure: fsfreeze::FreezeFailureView,
        keep: Seq<kernel::MountView>,
    ) -> DriverView {
        DriverView { held: self.held + keep, ..self }.conclude(
            failure.retains() || failure is Task,
            Err(failure),
        )
    }

    /// The rollback is gone, and its handles with it.
    pub open spec fn rollback_lost(self, why: Seq<char>) -> DriverView {
        DriverView { uncertain: true, ..self }.rolled_back(
            fsfreeze::FreezeFailureView::Task("rollback lost: "@ + why),
            Seq::empty(),
        )
    }

    /// An abort may commit while the operation waits.
    pub open spec fn armed(self) -> bool {
        self.abort is None && (self.stage is Preparing || self.stage is Freezing)
    }

    /// What holds of every operation.
    pub open spec fn valid(self) -> bool {
        // A recovery drain is out only after the abort; waiting for one means
        // that one is out.
        &&& self.recovering ==> self.abort is Some
        &&& self.stage is Recovering ==> self.recovering
        &&& self.stage is Removing ==> !self.recovering
        &&& self.stage is RollingBack ==> self.abort is None
        &&& self.stage matches StageView::Removing(why) ==> (self.abort is Some <==> why
            is Aborted)
        &&& self.stage is Removing ==> self.unrecoverable is None && self.kept.len() == 0
        &&& self.stage is Freezing ==> self.in_flight is Some
        &&& self.stage is Preparing ==> self.frozen == 0
        // The first reply of an aborted operation is the abort's.
        &&& self.abort is Some ==> self.replied && self.op.aborted
        &&& self.abort is None && self.settled is None ==> !self.replied
        &&& self.settled is Some <==> self.stage is Settled
        &&& self.settled is Some ==> self.replied && !self.recovering
        &&& self.kept.len() > 0 ==> self.unrecoverable is Some
        &&& self.abort is None ==> self.kept.len() == 0 && self.unrecoverable is None
    }
}

impl View for Driver {
    type V = DriverView;

    closed spec fn view(&self) -> DriverView {
        DriverView {
            op: self.op,
            stage: self.stage@,
            targets: freeze_plan::targets_view(self.targets@),
            in_flight: fsfreeze::text_view(self.in_flight),
            frozen: self.frozen as nat,
            held: kernel::mounts_view(self.held@),
            recovering: self.recovering,
            recovered: self.recovered as nat,
            kept: kernel::mounts_view(self.kept@),
            unrecoverable: drain::incomplete_view(self.unrecoverable),
            published: fsfreeze::text_view(self.published),
            uncertain: self.uncertain,
            abort: self.abort,
            timeout_secs: self.timeout_secs,
            replied: self.replied,
            settled: self.settled,
            effects: freeze_op::effects_view(self.effects@),
        }
    }
}

/// The result of the preparation, as a mathematical value.
pub open spec fn preparation_view(result: Result<FreezePlan, FreezeFailure>) -> Result<
    Seq<freeze_plan::TargetView>,
    fsfreeze::FreezeFailureView,
> {
    match result {
        Ok(plan) => Ok(plan.target_list()),
        Err(failure) => Err(failure@),
    }
}

fn copy_text(text: &Option<String>) -> (copy: Option<String>)
    ensures
        fsfreeze::text_view(copy) == fsfreeze::text_view(*text),
{
    match text {
        Some(text) => Some(text.clone()),
        None => None,
    }
}

impl Driver {
    /// What is counted cannot overflow.
    spec fn countable(&self) -> bool {
        self.frozen + self.targets@.len() <= u64::MAX
    }

    /// What holds of every operation.
    pub closed spec fn wf(&self) -> bool {
        &&& self.countable()
        &&& self.stage is Freezing ==> self.frozen + self.targets@.len() < u64::MAX
        &&& self@.valid()
    }

    /// An operation in order is one that the laws speak of.
    pub proof fn lemma_valid(&self)
        requires
            self.wf(),
        ensures
            self@.valid(),
    {
    }

    /// Begins an operation with the deadline at `deadline`, `timeout_secs`
    /// after its start. `held` are the handles still held from before.
    pub fn new(deadline: u64, timeout_secs: u64, held: Vec<Mount>) -> (driver: Driver)
        ensures
            driver@ == DriverView::start(deadline, timeout_secs, kernel::mounts_view(held@)),
            driver.wf(),
    {
        let driver = Driver {
            op: FreezeOp::new(deadline),
            stage: Stage::Preparing,
            targets: Vec::new(),
            in_flight: Some(PREPARING.to_owned()),
            frozen: 0,
            held,
            recovering: false,
            recovered: 0,
            kept: Vec::new(),
            unrecoverable: None,
            published: None,
            uncertain: false,
            abort: None,
            timeout_secs,
            replied: false,
            settled: None,
            effects: Vec::new(),
        };
        proof {
            assert(driver@ =~= DriverView::start(
                deadline,
                timeout_secs,
                kernel::mounts_view(held@),
            ));
        }
        driver
    }

    /// Whether a recovery drain is out.
    pub fn is_recovering(&self) -> (recovering: bool)
        ensures
            recovering == self@.recovering,
    {
        self.recovering
    }

    /// Takes the effects to carry out, in order.
    pub fn take_effects(&mut self) -> (effects: Vec<Effect>)
        requires
            old(self).wf(),
        ensures
            freeze_op::effects_view(effects@) == old(self)@.effects,
            final(self)@ == (DriverView { effects: Seq::empty(), ..old(self)@ }),
            final(self).wf(),
    {
        let ghost before = self@;
        let mut effects: Vec<Effect> = Vec::new();
        std::mem::swap(&mut effects, &mut self.effects);
        proof {
            assert(self@ =~= DriverView { effects: Seq::empty(), ..before });
        }
        effects
    }

    fn emit(&mut self, effect: Effect)
        requires
            old(self).countable(),
        ensures
            final(self)@ == old(self)@.emit(effect@),
            final(self).countable(),
            *final(self) == (Driver { effects: final(self).effects, ..*old(self) }),
    {
        let ghost before = self@;
        self.effects.push(effect);
        proof {
            assert(self@ =~= before.emit(effect@));
        }
    }

    fn reply(&mut self, result: Result<u64, FreezeFailure>)
        requires
            old(self).countable(),
        ensures
            final(self)@ == old(self)@.reply(freeze_op::freeze_view(result)),
            final(self).countable(),
    {
        if !self.replied {
            self.emit(Effect::Reply(result));
            self.replied = true;
        }
    }

    fn recover(&mut self)
        requires
            old(self).countable(),
        ensures
            final(self)@ == old(self)@.recover(),
            final(self).countable(),
    {
        if !self.recovering && self.held.len() > 0 {
            let ghost before = self@;
            let mut held: Vec<Mount> = Vec::new();
            std::mem::swap(&mut held, &mut self.held);
            self.emit(Effect::Recover(held));
            self.recovering = true;
            proof {
                assert(self@ =~= before.recover());
            }
        }
    }

    fn commit_abort(&mut self, cause: AbortCause)
        requires
            old(self).countable(),
        ensures
            final(self)@ == old(self)@.commit_abort(cause),
            final(self).countable(),
    {
        proof {
            reveal(DriverView::commit_abort);
        }
        if self.abort.is_none() {
            let ghost before = self@;
            self.abort = Some(cause);
            self.op.mark_aborting();
            self.op.aborted = true;
            proof {
                assert(self@ =~= DriverView {
                    abort: Some(cause),
                    op: FreezeOp { aborted: true, ..before.op.aborting() },
                    ..before
                });
            }
            self.emit(Effect::Transition(Transition::AbortFreeze));
            self.emit(Effect::ThawClaimed);
            let in_flight = copy_text(&self.in_flight);
            let failure = FreezeFailure::Aborted {
                cause,
                timeout_secs: self.timeout_secs,
                frozen: self.frozen,
                in_flight,
            };
            self.reply(Err(failure));
            self.recover();
        }
    }

    fn decide(&mut self, now: u64)
        requires
            old(self).countable(),
        ensures
            final(self)@ == old(self)@.decide(now),
            final(self).countable(),
    {
        if let Some(cause) = self.op.abort_due(now) {
            self.commit_abort(cause);
        }
    }

    fn conclude(&mut self, frozen: bool, result: Result<u64, FreezeFailure>)
        requires
            old(self).countable(),
        ensures
            final(self)@ == old(self)@.conclude(frozen, freeze_op::freeze_view(result)),
            final(self).countable(),
    {
        proof {
            reveal(DriverView::conclude);
        }
        let ghost before = self@;
        let _ = self.op.try_commit();
        let transition = if self.abort.is_none() {
            if frozen {
                Transition::FreezeSucceeded
            } else {
                Transition::FreezeFailed
            }
        } else if frozen {
            Transition::ThawFailed
        } else {
            Transition::ThawSucceeded
        };
        let scope = if frozen && !self.uncertain {
            ThawScope::Held
        } else {
            ThawScope::Discovery
        };
        if !frozen {
            self.emit(Effect::Thawed);
        }
        self.emit(Effect::Retire);
        self.emit(Effect::Scope(scope));
        let mut held: Vec<Mount> = Vec::new();
        std::mem::swap(&mut held, &mut self.held);
        self.emit(Effect::Hold(held));
        self.emit(Effect::Transition(transition));
        if frozen {
            self.emit(Effect::FrozenEntered);
        }
        self.stage = Stage::Settled;
        self.in_flight = None;
        self.settled = Some(
            if frozen {
                FreezeState::Frozen
            } else {
                FreezeState::Thawed
            },
        );
        self.emit(Effect::Announce);
        proof {
            assert(self@.held =~= Seq::empty());
            let finalised = if frozen {
                before
            } else {
                before.emit(freeze_op::EffectView::Thawed)
            };
            let published = DriverView {
                op: before.op.committing(),
                held: Seq::empty(),
                ..finalised.emit(freeze_op::EffectView::Retire).emit(
                    freeze_op::EffectView::Scope(before.scope(frozen)),
                ).emit(freeze_op::EffectView::Hold(before.held)).emit(
                    freeze_op::EffectView::Transition(before.last_transition(frozen)),
                )
            };
            let entered = if frozen {
                published.emit(freeze_op::EffectView::FrozenEntered)
            } else {
                published
            };
            assert(self@.effects =~= entered.emit(freeze_op::EffectView::Announce).effects);
        }
        self.reply(result);
    }

    fn remove_marker(&mut self, why: Removal)
        requires
            old(self).countable(),
        ensures
            final(self)@ == old(self)@.remove_marker(why@),
            final(self).countable(),
    {
        self.emit(Effect::RemoveMarker);
        self.stage = Stage::Removing(why);
    }

    fn settle_aborted(&mut self)
        requires
            old(self).countable(),
        ensures
            final(self)@ == old(self)@.settle_aborted(),
            final(self).countable(),
    {
        proof {
            reveal(DriverView::settle_aborted);
        }
        self.recover();
        if self.recovering {
            self.stage = Stage::Recovering;
        } else if self.unrecoverable.is_some() {
            let ghost before = self@;
            let mut kept: Vec<Mount> = Vec::new();
            std::mem::swap(&mut kept, &mut self.kept);
            self.held.append(&mut kept);
            proof {
                assert(self@ =~= DriverView {
                    held: before.held + before.kept,
                    kept: Seq::empty(),
                    ..before
                });
            }
            self.conclude(true, Err(FreezeFailure::Task("aborted".to_owned())));
        } else {
            self.remove_marker(Removal::Aborted);
        }
    }

    fn commit_freeze(&mut self)
        requires
            old(self).countable(),
        ensures
            final(self)@ == old(self)@.commit_freeze(),
            final(self).countable(),
    {
        proof {
            reveal(DriverView::commit_freeze);
        }
        if !self.op.try_commit() {
            self.commit_abort(AbortCause::ThawRequested);
            self.settle_aborted();
        } else if self.frozen == 0 && self.held.len() == 0 && self.unrecoverable.is_none() {
            self.remove_marker(Removal::NothingFrozen);
        } else {
            self.conclude(true, Ok(self.frozen));
        }
    }

    fn advance(&mut self, now: u64)
        requires
            old(self).countable(),
        ensures
            final(self)@ == old(self)@.advance(now),
            final(self).countable(),
            final(self).stage is Freezing ==> final(self).frozen + final(self).targets@.len()
                < u64::MAX,
    {
        proof {
            reveal(DriverView::advance);
        }
        self.decide(now);
        if self.abort.is_some() {
            self.settle_aborted();
            proof {
                lemma_stage_after_settle(old(self)@.decide(now));
            }
            return;
        }
        let ghost before = self@;
        match self.targets.pop() {
            Some(target) => {
                self.in_flight = Some(lossy_text(&target.mountpoint));
                self.stage = Stage::Freezing;
                proof {
                    assert(self@.targets =~= before.targets.drop_last());
                }
                self.emit(Effect::Freeze(target));
            },
            None => {
                self.commit_freeze();
                proof {
                    lemma_stage_after_commit(before);
                }
            },
        }
    }

    fn unprepared(&mut self, failure: FreezeFailure)
        requires
            old(self).countable(),
        ensures
            final(self)@ == old(self)@.unprepared(failure@),
            final(self).countable(),
    {
        if self.abort.is_some() {
            self.settle_aborted();
        } else {
            match failure {
                FreezeFailure::Task(why) => self.remove_marker(Removal::Unprepared(why)),
                failure => self.conclude(false, Err(failure)),
            }
        }
    }

    /// The preparation ended: the plan was built and the marker created, or
    /// not.
    pub fn prepared(&mut self, result: Result<FreezePlan, FreezeFailure>, now: u64)
        requires
            old(self).wf(),
            old(self)@.stage is Preparing,
        ensures
            final(self)@ == old(self)@.prepared(preparation_view(result), now),
            final(self).wf(),
    {
        let ghost before = self@;
        proof {
            lemma_prepared(before, preparation_view(result), now);
        }
        match result {
            Ok(plan) => {
                self.targets = plan.targets;
                self.in_flight = None;
                proof {
                    assert(self.targets.len() <= usize::MAX);
                    assert(self@ =~= DriverView {
                        targets: plan.target_list(),
                        in_flight: None,
                        ..before
                    });
                }
                self.advance(now);
            },
            Err(failure) => {
                self.unprepared(failure);
                proof {
                    lemma_stage_after_settle(before);
                    lemma_stage_after_conclude(before, false, Err(failure@));
                }
            },
        }
    }

    /// The preparation is gone without an answer: whether the marker was
    /// created is unknown.
    pub fn preparation_lost(&mut self, why: String, now: u64)
        requires
            old(self).wf(),
            old(self)@.stage is Preparing,
        ensures
            final(self)@ == old(self)@.prepared(
                Err(fsfreeze::FreezeFailureView::Task(why@)),
                now,
            ),
            final(self).wf(),
    {
        self.prepared(Err(FreezeFailure::Task(why)), now);
    }

    fn blame(&mut self, mountpoint: String, reason: String)
        requires
            old(self).countable(),
        ensures
            final(self)@ == old(self)@.blame(mountpoint@, reason@),
            final(self).countable(),
            final(self).stage == old(self).stage,
    {
        let ghost before = self@;
        if self.unrecoverable.is_none() {
            self.unrecoverable = Some(Incomplete { mountpoint, reason });
        }
        proof {
            assert(self@ =~= before.blame(mountpoint@, reason@));
        }
    }

    /// The worker of the target in flight ended.
    pub fn worked(&mut self, outcome: TargetOutcome, now: u64)
        requires
            old(self).wf(),
            old(self)@.stage is Freezing,
        ensures
            final(self)@ == old(self)@.worked(outcome@, now),
            final(self).wf(),
    {
        let ghost before = self@;
        proof {
            lemma_worked(before, outcome@, now);
        }
        let mut in_flight: Option<String> = None;
        std::mem::swap(&mut in_flight, &mut self.in_flight);
        let name = match in_flight {
            Some(name) => name,
            None => String::new(),
        };
        proof {
            assert(self@ =~= DriverView { in_flight: None, ..before });
        }
        match outcome {
            TargetOutcome::Frozen(mount) => {
                self.frozen = self.frozen + 1;
                self.held.push(mount);
                proof {
                    assert(self@.held =~= before.held.push(mount@));
                }
                self.advance(now);
            },
            TargetOutcome::Busy(mount) => {
                self.held.push(mount);
                proof {
                    assert(self@.held =~= before.held.push(mount@));
                }
                self.advance(now);
            },
            TargetOutcome::Skipped => {
                self.advance(now);
            },
            TargetOutcome::NotAuthorized => {
                self.advance(now);
            },
            TargetOutcome::Failed(cause) => {
                if self.abort.is_none() {
                    let mut held: Vec<Mount> = Vec::new();
                    std::mem::swap(&mut held, &mut self.held);
                    self.emit(Effect::Rollback { held, failed: name, cause });
                    self.stage = Stage::RollingBack;
                    proof {
                        assert(self@ =~= before.worked(outcome@, now));
                    }
                } else {
                    self.advance(now);
                }
            },
            TargetOutcome::Lost(why) => {
                let reason = "freeze worker lost (".to_owned().concat(why.as_str()).concat(
                    "); FIFREEZE outcome unknown",
                );
                self.blame(name, reason);
                self.uncertain = true;
                self.commit_abort(AbortCause::WorkerLost);
                let ghost aborted = self@;
                self.settle_aborted();
                proof {
                    lemma_stage_after_settle(aborted);
                }
            },
        }
    }

    /// The abort commits while the operation waits: a thaw was requested, or
    /// the deadline has passed.
    pub fn abort_signal(&mut self, cause: AbortCause)
        requires
            old(self).wf(),
            old(self)@.armed(),
        ensures
            final(self)@ == old(self)@.commit_abort(cause),
            final(self).wf(),
    {
        proof {
            lemma_commit_abort(self@, cause);
            lemma_signalled(self@, cause);
            assert(self.targets@.len() == self@.targets.len());
        }
        self.commit_abort(cause);
        proof {
            assert(self.targets@.len() == self@.targets.len());
            assert(self.stage is Freezing <==> self@.stage is Freezing);
        }
    }

    fn after_recovery(&mut self)
        requires
            old(self).countable(),
        ensures
            final(self)@ == old(self)@.after_recovery(),
            final(self).countable(),
    {
        let ghost before = self@;
        self.recovering = false;
        self.published = match &self.unrecoverable {
            Some(it) => Some(
                it.mountpoint.clone().concat(": ").concat(it.reason.as_str()),
            ),
            None => None,
        };
        proof {
            assert(self@ =~= DriverView { recovering: false, ..before }.publish());
        }
        if let Stage::Recovering = self.stage {
            self.settle_aborted();
        } else {
            self.recover();
        }
    }

    /// The recovery drain ended.
    pub fn drained(&mut self, pass: RecoveryPass)
        requires
            old(self).wf(),
            old(self)@.recovering,
            pass@.keep.len() > 0 ==> pass@.incomplete is Some,
            old(self)@.recovered + pass.recovered <= u64::MAX,
        ensures
            final(self)@ == old(self)@.drained(pass@),
            final(self).wf(),
    {
        let ghost before = self@;
        proof {
            lemma_drained(before, pass@);
            assert(self.targets@.len() == before.targets.len());
            assert(self.stage is Freezing <==> before.stage is Freezing);
        }
        self.recovered = self.recovered + pass.recovered;
        let mut keep = pass.keep;
        self.kept.append(&mut keep);
        if self.unrecoverable.is_none() {
            self.unrecoverable = pass.incomplete;
        }
        proof {
            assert(self@.kept =~= before.kept + pass@.keep);
        }
        self.after_recovery();
        proof {
            assert(self.targets@.len() == self@.targets.len());
            assert(self.stage is Freezing <==> self@.stage is Freezing);
        }
    }

    /// The recovery drain is gone, and its handles with it: their targets are
    /// uncertain.
    pub fn drain_lost(&mut self, why: String)
        requires
            old(self).wf(),
            old(self)@.recovering,
        ensures
            final(self)@ == old(self)@.drain_lost(why@),
            final(self).wf(),
    {
        proof {
            lemma_drain_lost(self@, why@);
            assert(self.targets@.len() == self@.targets.len());
            assert(self.stage is Freezing <==> self@.stage is Freezing);
        }
        let reason = "recovery drain lost (".to_owned().concat(why.as_str()).concat(")");
        self.blame("(recovery drain)".to_owned(), reason);
        self.uncertain = true;
        self.after_recovery();
        proof {
            assert(self.targets@.len() == self@.targets.len());
            assert(self.stage is Freezing <==> self@.stage is Freezing);
        }
    }

    /// The removal of the marker ended.
    pub fn removed(&mut self, removed: Result<(), MarkerError>)
        requires
            old(self).wf(),
            old(self)@.stage is Removing,
        ensures
            final(self)@ == old(self)@.removed(marker::removal_view(removed)),
            final(self).wf(),
    {
        let ghost before = self@;
        let ghost answer = marker::removal_view(removed);
        proof {
            lemma_removed(before, answer);
        }
        let mut stage = Stage::Preparing;
        std::mem::swap(&mut stage, &mut self.stage);
        proof {
            assert(self@ =~= DriverView { stage: StageView::Preparing, ..before });
            lemma_stage_is_passed(before);
        }
        match stage {
            Stage::Removing(Removal::NothingFrozen) => match marker_gone(removed) {
                Ok(()) => self.conclude(false, Ok(0)),
                Err(err) => self.conclude(
                    true,
                    Err(FreezeFailure::NothingFrozenMarkerRetained(err)),
                ),
            },
            Stage::Removing(Removal::Unprepared(why)) => match marker_gone(removed) {
                Ok(()) => self.conclude(false, Err(FreezeFailure::Task(why))),
                Err(marker) => {
                    let cause = FreezeStop::Unreachable(FreezeFailure::Task(why).message());
                    self.conclude(
                        true,
                        Err(
                            FreezeFailure::MarkerRetained {
                                failed: "(preparation)".to_owned(),
                                cause,
                                marker,
                            },
                        ),
                    );
                },
            },
            _ => {
                let retained = marker_gone(removed).is_err();
                self.conclude(retained, Err(FreezeFailure::Task("aborted".to_owned())));
            },
        }
    }

    /// The removal of the marker is gone without an answer.
    pub fn removal_lost(&mut self, why: String)
        requires
            old(self).wf(),
            old(self)@.stage is Removing,
        ensures
            final(self)@ == old(self)@.removal_lost(why@),
            final(self).wf(),
    {
        let ghost before = self@;
        proof {
            lemma_removal_lost(before, why@);
        }
        let mut stage = Stage::Preparing;
        std::mem::swap(&mut stage, &mut self.stage);
        proof {
            assert(self@ =~= DriverView { stage: StageView::Preparing, ..before });
            lemma_stage_is_passed(before);
        }
        match stage {
            Stage::Removing(Removal::NothingFrozen) => {
                let said = "marker removal lost: ".to_owned().concat(why.as_str());
                self.conclude(true, Err(FreezeFailure::Task(said)));
            },
            Stage::Removing(Removal::Unprepared(lost)) => {
                self.conclude(false, Err(FreezeFailure::Task(lost)));
            },
            _ => {
                self.conclude(true, Err(FreezeFailure::Task("aborted".to_owned())));
            },
        }
    }

    /// The rollback ended: why the freeze failed, and the handles whose drain
    /// did not complete.
    pub fn rolled_back(&mut self, failure: FreezeFailure, keep: Vec<Mount>)
        requires
            old(self).wf(),
            old(self)@.stage is RollingBack,
        ensures
            final(self)@ == old(self)@.rolled_back(failure@, kernel::mounts_view(keep@)),
            final(self).wf(),
    {
        let ghost before = self@;
        let ghost kept = kernel::mounts_view(keep@);
        proof {
            lemma_rolled_back(before, failure@, kept);
        }
        let mut keep = keep;
        self.held.append(&mut keep);
        proof {
            assert(self@ =~= DriverView { held: before.held + kept, ..before });
        }
        let lost = match &failure {
            FreezeFailure::Task(_) => true,
            _ => false,
        };
        let frozen = failure.retains_frozen_state() || lost;
        self.conclude(frozen, Err(failure));
    }

    /// The rollback is gone, and its handles with it.
    pub fn rollback_lost(&mut self, why: String)
        requires
            old(self).wf(),
            old(self)@.stage is RollingBack,
        ensures
            final(self)@ == old(self)@.rollback_lost(why@),
            final(self).wf(),
    {
        self.uncertain = true;
        let said = "rollback lost: ".to_owned().concat(why.as_str());
        let none: Vec<Mount> = Vec::new();
        proof {
            assert(kernel::mounts_view(none@) =~= Seq::empty());
        }
        self.rolled_back(FreezeFailure::Task(said), none);
    }

    /// A thaw asks the operation to stop. The answer says whether the abort is
    /// accepted; if it is and the operation is armed, the abort is to be
    /// signalled.
    pub fn request_abort(&mut self) -> (answer: AbortRequest)
        requires
            old(self).wf(),
        ensures
            final(self)@ == (DriverView { op: old(self)@.op.aborting(), ..old(self)@ }),
            final(self).wf(),
            answer == if final(self)@.op.claim == Claim::Aborting {
                AbortRequest::Accepted
            } else {
                AbortRequest::Committed
            },
    {
        let ghost before = self@;
        let answer = self.op.request_abort();
        proof {
            assert(self@ =~= DriverView { op: before.op.aborting(), ..before });
        }
        answer
    }

    /// The part that a worker sees.
    pub fn op(&self) -> (op: &FreezeOp)
        ensures
            *op == self@.op,
    {
        &self.op
    }

    /// Whether an abort may commit while the operation waits.
    pub fn is_armed(&self) -> (armed: bool)
        ensures
            armed == self@.armed(),
    {
        self.abort.is_none() && match self.stage {
            Stage::Preparing => true,
            Stage::Freezing => true,
            _ => false,
        }
    }

    /// What the operation waits for.
    pub fn stage(&self) -> (stage: &Stage)
        ensures
            stage@ == self@.stage,
    {
        &self.stage
    }

    /// A snapshot for those who wait.
    pub fn progress(&self) -> (progress: Progress)
        ensures
            progress.phase == if self@.settled is Some {
                Phase::Settled
            } else if self@.abort is Some {
                Phase::Recovering
            } else {
                Phase::Freezing
            },
            progress.frozen == self@.frozen,
            fsfreeze::text_view(progress.in_flight) == self@.in_flight,
            progress.recovery_pass_done == (self@.abort is Some && !self@.recovering
                && self@.held.len() == 0),
            progress.recovered == self@.recovered,
            fsfreeze::text_view(progress.unrecoverable) == self@.published,
            progress.settled == self@.settled,
    {
        let phase = if self.settled.is_some() {
            Phase::Settled
        } else if self.abort.is_some() {
            Phase::Recovering
        } else {
            Phase::Freezing
        };
        Progress {
            phase,
            frozen: self.frozen,
            in_flight: copy_text(&self.in_flight),
            recovery_pass_done: self.abort.is_some() && !self.recovering && self.held.len() == 0,
            recovered: self.recovered,
            unrecoverable: copy_text(&self.published),
            settled: self.settled,
        }
    }
}

/// What an operation waited for does not matter to how it concludes.
proof fn lemma_stage_is_passed(d: DriverView)
    ensures
        forall|frozen: bool, result: Result<nat, fsfreeze::FreezeFailureView>| #[trigger]
            d.conclude(frozen, result) == (DriverView {
                stage: StageView::Preparing,
                ..d
            }).conclude(frozen, result),
{
    reveal(DriverView::conclude);
}

proof fn lemma_signalled(d: DriverView, cause: AbortCause)
    requires
        d.valid(),
        d.armed(),
    ensures
        d.commit_abort(cause).valid(),
{
    lemma_commit_abort(d, cause);
}

proof fn lemma_after_recovery(d: DriverView)
    requires
        between_waits(d),
        d.abort is Some,
        d.stage is Recovering || d.stage is Preparing || d.stage is Freezing,
        d.stage is Freezing ==> d.in_flight is Some,
        d.stage is Preparing ==> d.frozen == 0,
    ensures
        d.after_recovery().valid(),
        d.after_recovery().stage is Freezing ==> d.stage is Freezing && d.after_recovery().frozen
            == d.frozen && d.after_recovery().targets == d.targets,
{
    let next = DriverView { recovering: false, ..d }.publish();
    if next.stage is Recovering {
        lemma_settle_aborted(next);
        lemma_stage_after_settle(next);
    }
}

proof fn lemma_drained(d: DriverView, pass: drain::PassView)
    requires
        d.valid(),
        d.recovering,
        pass.keep.len() > 0 ==> pass.incomplete is Some,
    ensures
        d.drained(pass).valid(),
        d.drained(pass).stage is Freezing ==> d.stage is Freezing && d.drained(pass).frozen
            == d.frozen && d.drained(pass).targets == d.targets,
{
    lemma_after_recovery(
        DriverView {
            recovered: d.recovered + pass.recovered,
            kept: d.kept + pass.keep,
            unrecoverable: if d.unrecoverable is Some {
                d.unrecoverable
            } else {
                pass.incomplete
            },
            ..d
        },
    );
}

proof fn lemma_drain_lost(d: DriverView, why: Seq<char>)
    requires
        d.valid(),
        d.recovering,
    ensures
        d.drain_lost(why).valid(),
        d.drain_lost(why).stage is Freezing ==> d.stage is Freezing && d.drain_lost(why).frozen
            == d.frozen && d.drain_lost(why).targets == d.targets,
{
    lemma_after_recovery(
        DriverView {
            uncertain: true,
            ..d.blame("(recovery drain)"@, "recovery drain lost ("@ + why + ")"@)
        },
    );
}

proof fn lemma_removed(d: DriverView, removed: Result<(), marker::MarkerErrorView>)
    requires
        d.valid(),
        d.stage is Removing,
    ensures
        d.removed(removed).valid(),
        d.removed(removed).stage is Settled,
{
    lemma_any_conclusion(d);
}

proof fn lemma_removal_lost(d: DriverView, why: Seq<char>)
    requires
        d.valid(),
        d.stage is Removing,
    ensures
        d.removal_lost(why).valid(),
        d.removal_lost(why).stage is Settled,
{
    lemma_any_conclusion(d);
}

proof fn lemma_any_conclusion(d: DriverView)
    requires
        between_waits(d),
        !d.recovering,
    ensures
        forall|frozen: bool, result: Result<nat, fsfreeze::FreezeFailureView>|
            (#[trigger] d.conclude(frozen, result)).valid() && d.conclude(frozen, result).stage
                is Settled,
{
    assert forall|frozen: bool, result: Result<nat, fsfreeze::FreezeFailureView>|
        (#[trigger] d.conclude(frozen, result)).valid() && d.conclude(frozen, result).stage
            is Settled by {
        lemma_conclude(d, frozen, result);
        lemma_stage_after_conclude(d, frozen, result);
    }
}

proof fn lemma_rolled_back(
    d: DriverView,
    failure: fsfreeze::FreezeFailureView,
    keep: Seq<kernel::MountView>,
)
    requires
        d.valid(),
        d.stage is RollingBack,
    ensures
        d.rolled_back(failure, keep).valid(),
        d.rolled_back(failure, keep).stage is Settled,
{
    lemma_any_conclusion(DriverView { held: d.held + keep, ..d });
}

proof fn lemma_stage_after_conclude(
    d: DriverView,
    frozen: bool,
    result: Result<nat, fsfreeze::FreezeFailureView>,
)
    ensures
        d.conclude(frozen, result).stage is Settled,
{
    reveal(DriverView::conclude);
}

proof fn lemma_stage_after_settle(d: DriverView)
    ensures
        d.settle_aborted().stage !is Freezing,
{
    reveal(DriverView::settle_aborted);
    reveal(DriverView::conclude);
}

proof fn lemma_stage_after_commit(d: DriverView)
    ensures
        d.commit_freeze().stage !is Freezing,
{
    reveal(DriverView::commit_freeze);
    reveal(DriverView::conclude);
    lemma_stage_after_settle(
        DriverView { op: d.op.committing(), ..d }.commit_abort(AbortCause::ThawRequested),
    );
}

/// What holds of an operation between two waits.
spec fn between_waits(d: DriverView) -> bool {
    &&& d.settled is None
    &&& d.recovering ==> d.abort is Some
    &&& d.abort is Some ==> d.replied && d.op.aborted
    &&& d.abort is None ==> !d.replied && d.kept.len() == 0 && d.unrecoverable is None
    &&& d.kept.len() > 0 ==> d.unrecoverable is Some
}

proof fn lemma_commit_abort(d: DriverView, cause: AbortCause)
    requires
        d.settled is None,
        d.abort is None ==> !d.recovering && !d.replied && d.kept.len() == 0,
        d.abort is Some ==> between_waits(d),
    ensures
        between_waits(d.commit_abort(cause)),
        d.commit_abort(cause).abort is Some,
        d.commit_abort(cause).stage == d.stage,
        d.commit_abort(cause).in_flight == d.in_flight,
        d.commit_abort(cause).targets == d.targets,
        d.commit_abort(cause).frozen == d.frozen,
{
    reveal(DriverView::commit_abort);
}

proof fn lemma_conclude(
    d: DriverView,
    frozen: bool,
    result: Result<nat, fsfreeze::FreezeFailureView>,
)
    requires
        between_waits(d),
        !d.recovering,
    ensures
        d.conclude(frozen, result).valid(),
{
    reveal(DriverView::conclude);
}

proof fn lemma_settle_aborted(d: DriverView)
    requires
        between_waits(d),
        d.abort is Some,
    ensures
        d.settle_aborted().valid(),
{
    reveal(DriverView::settle_aborted);
    let next = d.recover();
    if !next.recovering && next.unrecoverable is Some {
        lemma_conclude(
            DriverView { held: next.held + next.kept, kept: Seq::empty(), ..next },
            true,
            Err(fsfreeze::FreezeFailureView::Task("aborted"@)),
        );
    }
}

proof fn lemma_commit_freeze(d: DriverView)
    requires
        between_waits(d),
        d.abort is None,
    ensures
        d.commit_freeze().valid(),
{
    reveal(DriverView::commit_freeze);
    let next = DriverView { op: d.op.committing(), ..d };
    lemma_commit_abort(next, AbortCause::ThawRequested);
    lemma_settle_aborted(next.commit_abort(AbortCause::ThawRequested));
    lemma_conclude(next, true, Ok(next.frozen));
}

proof fn lemma_advance(d: DriverView, now: u64)
    requires
        between_waits(d),
    ensures
        d.advance(now).valid(),
{
    reveal(DriverView::advance);
    let next = d.decide(now);
    if d.op.due(now) is Some {
        lemma_commit_abort(d, d.op.due(now)->0);
    }
    if next.abort is Some {
        lemma_settle_aborted(next);
    } else if next.targets.len() == 0 {
        lemma_commit_freeze(next);
    }
}

pub(crate) proof fn lemma_prepared(
    d: DriverView,
    result: Result<Seq<freeze_plan::TargetView>, fsfreeze::FreezeFailureView>,
    now: u64,
)
    requires
        d.valid(),
        d.stage is Preparing,
    ensures
        d.prepared(result, now).valid(),
{
    match result {
        Ok(targets) => {
            lemma_advance(DriverView { targets, in_flight: None, ..d }, now);
        },
        Err(failure) => {
            if d.abort is Some {
                lemma_settle_aborted(d);
            } else {
                lemma_conclude(d, false, Err(failure));
            }
        },
    }
}

pub(crate) proof fn lemma_worked(d: DriverView, outcome: freeze_op::OutcomeView, now: u64)
    requires
        d.valid(),
        d.stage is Freezing,
    ensures
        d.worked(outcome, now).valid(),
{
    let next = DriverView { in_flight: None, ..d };
    let name = d.in_flight->0;
    match outcome {
        freeze_op::OutcomeView::Frozen(mount) => {
            lemma_advance(
                DriverView { frozen: next.frozen + 1, held: next.held.push(mount), ..next },
                now,
            );
        },
        freeze_op::OutcomeView::Busy(mount) => {
            lemma_advance(DriverView { held: next.held.push(mount), ..next }, now);
        },
        freeze_op::OutcomeView::Skipped => {
            lemma_advance(next, now);
        },
        freeze_op::OutcomeView::NotAuthorized => {
            lemma_advance(next, now);
        },
        freeze_op::OutcomeView::Failed(_) => {
            if next.abort is Some {
                lemma_advance(next, now);
            }
        },
        freeze_op::OutcomeView::Lost(why) => {
            let blamed = DriverView {
                uncertain: true,
                ..next.blame(
                    name,
                    "freeze worker lost ("@ + why + "); FIFREEZE outcome unknown"@,
                )
            };
            lemma_commit_abort(blamed, AbortCause::WorkerLost);
            lemma_settle_aborted(blamed.commit_abort(AbortCause::WorkerLost));
        },
    }
}

/// A snapshot tells the operation as it stands: settled, recovering after an
/// abort, or freezing; the targets frozen and recovered so far, the call in
/// flight, and what may still be frozen. The recovery pass is done once the
/// abort has committed, no drain is out and nothing is held.
pub proof fn law_what_a_snapshot_tells(driver: Driver, progress: Progress)
    requires
        call_ensures(Driver::progress, (&driver,), progress),
    ensures
        driver@.settled is Some ==> progress.phase == Phase::Settled,
        driver@.settled is None && driver@.abort is Some ==> progress.phase == Phase::Recovering,
        driver@.settled is None && driver@.abort is None ==> progress.phase == Phase::Freezing,
        progress.settled == driver@.settled,
        progress.frozen == driver@.frozen,
        progress.recovered == driver@.recovered,
        progress.in_flight is Some <==> driver@.in_flight is Some,
        progress.in_flight is Some ==> progress.in_flight->0@ == driver@.in_flight->0,
        progress.unrecoverable is Some <==> driver@.published is Some,
        progress.unrecoverable is Some ==> progress.unrecoverable->0@ == driver@.published->0,
        progress.recovery_pass_done <==> driver@.abort is Some && !driver@.recovering
            && driver@.held.len() == 0,
{
}

/// An operation begins with nothing decided, nothing frozen and nothing told,
/// its preparation under way and the handles held from before.
pub proof fn law_how_an_operation_begins(
    deadline: u64,
    timeout_secs: u64,
    held: Seq<kernel::MountView>,
)
    ensures
        ({
            let d = DriverView::start(deadline, timeout_secs, held);
            &&& d.op.deadline == deadline
            &&& d.op.claim == Claim::Open
            &&& !d.op.aborted
            &&& d.stage is Preparing
            &&& d.in_flight == Some("(preparing)"@)
            &&& d.held == held
            &&& d.frozen == 0
            &&& d.recovered == 0
            &&& d.timeout_secs == timeout_secs
            &&& d.effects.len() == 0
            &&& d.abort is None
            &&& d.settled is None
            &&& d.unrecoverable is None
            &&& !d.replied
            &&& !d.recovering
            &&& !d.uncertain
        }),
{
}

} // verus!
