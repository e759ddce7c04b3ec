//! What holds of every freeze operation, whatever happens to it.

use vstd::prelude::*;

use crate::dispatch::ThawScope;
use crate::freeze_op::driver;
use crate::freeze_op::{AbortCause, Claim, Transition};
use crate::freeze_op;
use crate::freeze_plan;
use crate::handlers::fsfreeze::drain;
use crate::handlers::fsfreeze;
use crate::kernel;
use crate::marker;
use crate::state::FreezeState;
use crate::text;

verus! {

/// Something that happens to an operation.
pub ghost enum Happening {
    Prepared { result: Result<Seq<freeze_plan::TargetView>, fsfreeze::FreezeFailureView>, now: u64 },
    Worked { outcome: freeze_op::OutcomeView, now: u64 },
    Signal { cause: AbortCause },
    Drained { pass: drain::PassView },
    DrainLost { why: Seq<char> },
    Removed { removed: Result<(), marker::MarkerErrorView> },
    RemovalLost { why: Seq<char> },
    RolledBack { failure: fsfreeze::FreezeFailureView, keep: Seq<kernel::MountView> },
    RollbackLost { why: Seq<char> },
}

/// It can happen now: what ends was begun.
pub open spec fn can_happen(d: driver::DriverView, it: Happening) -> bool {
    match it {
        Happening::Prepared { .. } => d.stage is Preparing,
        Happening::Worked { .. } => d.stage is Freezing,
        Happening::Signal { .. } => d.armed(),
        Happening::Drained { pass } => d.recovering && (pass.keep.len() > 0 ==> pass.incomplete
            is Some),
        Happening::DrainLost { .. } => d.recovering,
        Happening::Removed { .. } => d.stage is Removing,
        Happening::RemovalLost { .. } => d.stage is Removing,
        Happening::RolledBack { .. } => d.stage is RollingBack,
        Happening::RollbackLost { .. } => d.stage is RollingBack,
    }
}

/// The operation after it happened.
pub open spec fn after(d: driver::DriverView, it: Happening) -> driver::DriverView {
    match it {
        Happening::Prepared { result, now } => d.prepared(result, now),
        Happening::Worked { outcome, now } => d.worked(outcome, now),
        Happening::Signal { cause } => d.commit_abort(cause),
        Happening::Drained { pass } => d.drained(pass),
        Happening::DrainLost { why } => d.drain_lost(why),
        Happening::Removed { removed } => d.removed(removed),
        Happening::RemovalLost { why } => d.removal_lost(why),
        Happening::RolledBack { failure, keep } => d.rolled_back(failure, keep),
        Happening::RollbackLost { why } => d.rollback_lost(why),
    }
}

/// How many effects are of a kind.
pub open spec fn count(
    effects: Seq<freeze_op::EffectView>,
    kind: spec_fn(freeze_op::EffectView) -> bool,
) -> nat
    decreases effects.len(),
{
    if effects.len() == 0 {
        0
    } else {
        count(effects.drop_last(), kind) + (if kind(effects.last()) {
            1nat
        } else {
            0
        })
    }
}

broadcast proof fn lemma_count_push(
    effects: Seq<freeze_op::EffectView>,
    effect: freeze_op::EffectView,
    kind: spec_fn(freeze_op::EffectView) -> bool,
)
    ensures
        #[trigger] count(effects.push(effect), kind) == count(effects, kind) + (if kind(effect) {
            1nat
        } else {
            0
        }),
{
    assert(effects.push(effect).drop_last() =~= effects);
}

/// The replies.
pub open spec fn replies() -> spec_fn(freeze_op::EffectView) -> bool {
    |e: freeze_op::EffectView| e is Reply
}

/// The tasks that the operation waits for.
pub open spec fn tasks() -> spec_fn(freeze_op::EffectView) -> bool {
    |e: freeze_op::EffectView| e is Freeze || e is RemoveMarker || e is Rollback
}

/// The recovery drains.
pub open spec fn drains() -> spec_fn(freeze_op::EffectView) -> bool {
    |e: freeze_op::EffectView| e is Recover
}

/// What belongs to a freeze that goes on or succeeds.
pub open spec fn successes() -> spec_fn(freeze_op::EffectView) -> bool {
    |e: freeze_op::EffectView|
        e is Freeze || e == freeze_op::EffectView::Transition(Transition::FreezeSucceeded) || (e matches
            freeze_op::EffectView::Reply(result) && result is Ok)
}

/// One if it holds.
pub open spec fn one_if(b: bool) -> int {
    if b {
        1
    } else {
        0
    }
}

/// The operation waits for a task.
pub open spec fn busy(d: driver::DriverView) -> bool {
    d.stage is Preparing || d.stage is Freezing || d.stage is Removing || d.stage is RollingBack
}

/// What a part of a step does to the counts.
spec fn accounted(d: driver::DriverView, e: driver::DriverView) -> bool {
    &&& count(e.effects, replies()) - count(d.effects, replies()) == one_if(e.replied) - one_if(
        d.replied,
    )
    &&& count(e.effects, drains()) - count(d.effects, drains()) == one_if(
        e.recovering && !d.recovering,
    )
    &&& d.recovering ==> e.recovering
    &&& d.replied ==> e.replied
    &&& d.abort is Some ==> e.abort == d.abort
    &&& e.abort is Some ==> count(e.effects, successes()) == count(d.effects, successes())
}

proof fn lemma_recover(d: driver::DriverView)
    ensures
        accounted(d, d.recover()),
        count(d.recover().effects, tasks()) == count(d.effects, tasks()),
{
    broadcast use lemma_count_push;

}

proof fn lemma_commit_abort(d: driver::DriverView, cause: AbortCause)
    ensures
        accounted(d, d.commit_abort(cause)),
        d.abort is None ==> d.commit_abort(cause).abort == Some(cause) && d.commit_abort(
            cause,
        ).replied,
        count(d.commit_abort(cause).effects, tasks()) == count(d.effects, tasks()),
        d.commit_abort(cause).stage == d.stage,
        d.commit_abort(cause).settled == d.settled,
        d.commit_abort(cause).unrecoverable == d.unrecoverable,
{
    broadcast use lemma_count_push;

    reveal(driver::DriverView::commit_abort);
}

proof fn lemma_conclude(d: driver::DriverView, frozen: bool, result: Result<nat, fsfreeze::FreezeFailureView>)
    requires
        d.abort is Some ==> d.replied,
    ensures
        accounted(d, d.conclude(frozen, result)),
        count(d.conclude(frozen, result).effects, tasks()) == count(d.effects, tasks()),
        d.conclude(frozen, result).replied,
        d.conclude(frozen, result).stage is Settled,
        d.conclude(frozen, result).settled == Some(
            if frozen {
                FreezeState::Frozen
            } else {
                FreezeState::Thawed
            },
        ),
        d.conclude(frozen, result).unrecoverable == d.unrecoverable,
        d.conclude(frozen, result).kept == d.kept,
        d.conclude(frozen, result).abort == d.abort,
        d.conclude(frozen, result).recovering == d.recovering,
{
    broadcast use lemma_count_push;

    reveal(driver::DriverView::conclude);
}

proof fn lemma_remove_marker(d: driver::DriverView, why: driver::RemovalView)
    ensures
        accounted(d, d.remove_marker(why)),
        count(d.remove_marker(why).effects, tasks()) == count(d.effects, tasks()) + 1,
{
    broadcast use lemma_count_push;

}

proof fn lemma_settle_aborted(d: driver::DriverView)
    requires
        d.abort is Some,
        d.replied,
        d.settled is None,
    ensures
        accounted(d, d.settle_aborted()),
        count(d.settle_aborted().effects, tasks()) - count(d.effects, tasks()) == one_if(
            busy(d.settle_aborted()),
        ),
        d.settle_aborted().settled != Some(FreezeState::Thawed),
{
    broadcast use lemma_count_push;

    reveal(driver::DriverView::settle_aborted);
    let next = d.recover();
    lemma_recover(d);
    if !next.recovering {
        if next.unrecoverable is Some {
            let last = driver::DriverView { held: next.held + next.kept, kept: Seq::empty(), ..next };
            lemma_conclude(last, true, Err(fsfreeze::FreezeFailureView::Task("aborted"@)));
        } else {
            lemma_remove_marker(next, driver::RemovalView::Aborted);
        }
    }
}

proof fn lemma_commit_freeze(d: driver::DriverView)
    requires
        d.abort is None,
        d.settled is None,
    ensures
        accounted(d, d.commit_freeze()),
        count(d.commit_freeze().effects, tasks()) - count(d.effects, tasks()) == one_if(
            busy(d.commit_freeze()),
        ),
        d.commit_freeze().settled != Some(FreezeState::Thawed),
{
    reveal(driver::DriverView::commit_freeze);
    let next = driver::DriverView { op: d.op.committing(), ..d };
    let aborted = next.commit_abort(AbortCause::ThawRequested);
    if d.op.claim != Claim::Open {
        lemma_commit_abort(next, AbortCause::ThawRequested);
        lemma_settle_aborted(aborted);
    } else if next.frozen == 0 && next.held.len() == 0 && next.unrecoverable is None {
        lemma_remove_marker(next, driver::RemovalView::NothingFrozen);
    } else {
        lemma_conclude(next, true, Ok(next.frozen));
    }
}

proof fn lemma_advance(d: driver::DriverView, now: u64)
    requires
        d.abort is Some ==> d.replied,
        d.settled is None,
    ensures
        accounted(d, d.advance(now)),
        count(d.advance(now).effects, tasks()) - count(d.effects, tasks()) == one_if(
            busy(d.advance(now)),
        ),
        d.advance(now).settled != Some(FreezeState::Thawed),
{
    broadcast use lemma_count_push;

    reveal(driver::DriverView::advance);
    let next = d.decide(now);
    if d.op.due(now) is Some {
        lemma_commit_abort(d, d.op.due(now)->0);
    }
    if next.abort is Some {
        lemma_settle_aborted(next);
    } else if next.targets.len() == 0 {
        lemma_commit_freeze(next);
    }
}

/// Whether what happens is the end of the task that the operation waits for.
pub open spec fn ends_a_task(it: Happening) -> bool {
    it is Prepared || it is Worked || it is Removed || it is RemovalLost || it is RolledBack || it
        is RollbackLost
}

/// Whether what happens is the end of a recovery drain.
pub open spec fn ends_a_drain(it: Happening) -> bool {
    it is Drained || it is DrainLost
}

proof fn lemma_step(d: driver::DriverView, it: Happening)
    requires
        d.valid(),
        can_happen(d, it),
    ensures
        ({
            let e = after(d, it);
            &&& count(e.effects, replies()) - count(d.effects, replies()) == one_if(e.replied)
                - one_if(d.replied)
            &&& count(e.effects, drains()) - count(d.effects, drains()) == one_if(e.recovering)
                - one_if(d.recovering && !ends_a_drain(it))
            &&& count(e.effects, tasks()) - count(d.effects, tasks()) == one_if(busy(e)) - one_if(
                busy(d) && !ends_a_task(it),
            )
            &&& d.replied ==> e.replied
            &&& d.abort is Some ==> e.abort == d.abort
            &&& e.abort is Some ==> count(e.effects, successes()) == count(
                d.effects,
                successes(),
            )
            &&& e.settled is Some ==> e.replied
        }),
{
    broadcast use lemma_count_push;

    match it {
        Happening::Prepared { result, now } => {
            match result {
                Ok(targets) => {
                    lemma_advance(driver::DriverView { targets, in_flight: None, ..d }, now);
                    lemma_settled(d, it);
                },
                Err(failure) => {
                    if d.abort is Some {
                        lemma_settle_aborted(d);
                    } else {
                        match failure {
                            fsfreeze::FreezeFailureView::Task(why) => {
                                lemma_remove_marker(d, driver::RemovalView::Unprepared(why));
                            },
                            _ => {
                                lemma_conclude(d, false, Err(failure));
                            },
                        }
                    }
                    lemma_settled(d, it);
                },
            }
        },
        Happening::Worked { outcome, now } => {
            lemma_worked(d, outcome, now);
            lemma_settled(d, it);
        },
        Happening::Signal { cause } => {
            lemma_commit_abort(d, cause);
        },
        Happening::Drained { pass } => {
            let next = driver::DriverView {
                recovered: d.recovered + pass.recovered,
                kept: d.kept + pass.keep,
                unrecoverable: if d.unrecoverable is Some {
                    d.unrecoverable
                } else {
                    pass.incomplete
                },
                ..d
            };
            lemma_after_recovery(next);
        },
        Happening::DrainLost { why } => {
            let next = driver::DriverView {
                uncertain: true,
                ..d.blame("(recovery drain)"@, "recovery drain lost ("@ + why + ")"@)
            };
            lemma_after_recovery(next);
        },
        Happening::Removed { removed } => {
            lemma_any_conclusion(d);
        },
        Happening::RemovalLost { why } => {
            lemma_any_conclusion(d);
        },
        Happening::RolledBack { failure, keep } => {
            lemma_any_conclusion(driver::DriverView { held: d.held + keep, ..d });
        },
        Happening::RollbackLost { why } => {
            let next = driver::DriverView { uncertain: true, ..d };
            lemma_any_conclusion(driver::DriverView { held: next.held + Seq::empty(), ..next });
        },
    }
}

proof fn lemma_worked(d: driver::DriverView, outcome: freeze_op::OutcomeView, now: u64)
    requires
        d.valid(),
        d.stage is Freezing,
    ensures
        accounted(d, d.worked(outcome, now)),
        count(d.worked(outcome, now).effects, tasks()) - count(d.effects, tasks()) == one_if(
            busy(d.worked(outcome, now)),
        ),
{
    broadcast use lemma_count_push;

    let next = driver::DriverView { in_flight: None, ..d };
    let name = d.in_flight->0;
    match outcome {
        freeze_op::OutcomeView::Frozen(mount) => {
            lemma_advance(
                driver::DriverView { frozen: next.frozen + 1, held: next.held.push(mount), ..next },
                now,
            );
        },
        freeze_op::OutcomeView::Busy(mount) => {
            lemma_advance(driver::DriverView { held: next.held.push(mount), ..next }, now);
        },
        freeze_op::OutcomeView::Skipped => {
            lemma_advance(next, now);
        },
        freeze_op::OutcomeView::NotAuthorized => {
            lemma_advance(next, now);
        },
        freeze_op::OutcomeView::Failed(_) => {
            if next.abort is Some {
                lemma_advance(next, now);
            }
        },
        freeze_op::OutcomeView::Lost(why) => {
            let blamed = driver::DriverView {
                uncertain: true,
                ..next.blame(
                    name,
                    "freeze worker lost ("@ + why + "); FIFREEZE outcome unknown"@,
                )
            };
            lemma_commit_abort(blamed, AbortCause::WorkerLost);
            lemma_settle_aborted(blamed.commit_abort(AbortCause::WorkerLost));
        },
    }
}

proof fn lemma_after_recovery(d: driver::DriverView)
    requires
        d.recovering,
        d.abort is Some,
        d.replied,
        d.settled is None,
        d.stage is Recovering || d.stage is Preparing || d.stage is Freezing,
    ensures
        ({
            let e = d.after_recovery();
            &&& count(e.effects, replies()) == count(d.effects, replies())
            &&& e.replied
            &&& count(e.effects, drains()) - count(d.effects, drains()) == one_if(e.recovering)
            &&& count(e.effects, tasks()) - count(d.effects, tasks()) == one_if(busy(e)) - one_if(
                busy(d),
            )
            &&& e.abort == d.abort
            &&& count(e.effects, successes()) == count(d.effects, successes())
        }),
{
    let next = driver::DriverView { recovering: false, ..d }.publish();
    if next.stage is Recovering {
        lemma_settle_aborted(next);
    } else {
        lemma_recover(next);
    }
}

proof fn lemma_any_conclusion(d: driver::DriverView)
    requires
        d.abort is Some ==> d.replied,
        !d.recovering,
    ensures
        forall|frozen: bool, result: Result<nat, fsfreeze::FreezeFailureView>|
            {
                let e = #[trigger] d.conclude(frozen, result);
                &&& accounted(d, e)
                &&& count(e.effects, tasks()) == count(d.effects, tasks())
                &&& e.replied
                &&& e.stage is Settled
                &&& !e.recovering
                &&& e.abort == d.abort
                &&& e.unrecoverable == d.unrecoverable
                &&& e.kept == d.kept
                &&& e.settled == Some(
                    if frozen {
                        FreezeState::Frozen
                    } else {
                        FreezeState::Thawed
                    },
                )
            },
{
    assert forall|frozen: bool, result: Result<nat, fsfreeze::FreezeFailureView>|
        {
            let e = #[trigger] d.conclude(frozen, result);
            &&& accounted(d, e)
            &&& count(e.effects, tasks()) == count(d.effects, tasks())
            &&& e.replied
            &&& e.stage is Settled
            &&& !e.recovering
            &&& e.abort == d.abort
            &&& e.unrecoverable == d.unrecoverable
            &&& e.kept == d.kept
            &&& e.settled == Some(
                if frozen {
                    FreezeState::Frozen
                } else {
                    FreezeState::Thawed
                },
            )
        } by {
        lemma_conclude(d, frozen, result);
    }
}

proof fn lemma_settled(d: driver::DriverView, it: Happening)
    requires
        d.valid(),
        can_happen(d, it),
        it is Prepared || it is Worked,
    ensures
        after(d, it).valid(),
{
    match it {
        Happening::Prepared { result, now } => {
            driver::lemma_prepared(d, result, now);
        },
        Happening::Worked { outcome, now } => {
            driver::lemma_worked(d, outcome, now);
        },
        _ => {},
    }
}

/// The request gets exactly one reply: a step replies at most once, never again
/// after that, and an operation that has settled has replied.
pub proof fn law_exactly_one_reply(d: driver::DriverView, it: Happening)
    requires
        d.valid(),
        can_happen(d, it),
    ensures
        count(after(d, it).effects, replies()) - count(d.effects, replies()) == one_if(
            after(d, it).replied,
        ) - one_if(d.replied),
        d.replied ==> after(d, it).replied,
        after(d, it).settled is Some ==> after(d, it).replied,
{
    lemma_step(d, it);
}

/// Once the abort has committed it stays so; no further target is authorised,
/// `Frozen` is never published as a success, and no reply says that the freeze
/// succeeded.
pub proof fn law_nothing_succeeds_after_the_abort(d: driver::DriverView, it: Happening)
    requires
        d.valid(),
        can_happen(d, it),
    ensures
        d.abort is Some ==> after(d, it).abort == d.abort,
        after(d, it).abort is Some ==> count(after(d, it).effects, successes()) == count(
            d.effects,
            successes(),
        ),
{
    lemma_step(d, it);
}

/// Capacity is bounded: an operation waits for at most one task at a time, and
/// at most one recovery drain is out. A step starts a task only when the last
/// one has ended, and a drain only when none is out.
pub proof fn law_one_task_and_one_drain_at_a_time(d: driver::DriverView, it: Happening)
    requires
        d.valid(),
        can_happen(d, it),
    ensures
        count(after(d, it).effects, tasks()) - count(d.effects, tasks()) == one_if(
            busy(after(d, it)),
        ) - one_if(busy(d) && !ends_a_task(it)),
        count(after(d, it).effects, drains()) - count(d.effects, drains()) == one_if(
            after(d, it).recovering,
        ) - one_if(d.recovering && !ends_a_drain(it)),
{
    lemma_step(d, it);
}

/// A thawed settlement leaves nothing behind: no drain is out, none was
/// incomplete, and it comes only from the marker's removal, from a preparation
/// that failed before any ioctl, or from a rollback that retains nothing.
pub proof fn law_thawed_only_when_nothing_is_left(d: driver::DriverView, it: Happening)
    requires
        d.valid(),
        can_happen(d, it),
        after(d, it).settled == Some(FreezeState::Thawed),
    ensures
        !after(d, it).recovering,
        after(d, it).unrecoverable is None,
        after(d, it).kept.len() == 0,
        match it {
            Happening::Prepared { result, .. } => d.abort is None && result is Err,
            Happening::Removed { removed } => marker::gone(removed),
            Happening::RemovalLost { .. } => d.stage matches driver::StageView::Removing(why) && why
                is Unprepared,
            Happening::RolledBack { failure, .. } => !failure.retains() && failure !is Task,
            _ => false,
        },
{
    match it {
        Happening::Prepared { result, now } => {
            match result {
                Ok(targets) => {
                    lemma_advance(driver::DriverView { targets, in_flight: None, ..d }, now);
                },
                Err(failure) => {
                    if d.abort is Some {
                        lemma_settle_aborted(d);
                    } else {
                        lemma_any_conclusion(d);
                    }
                },
            }
        },
        Happening::Worked { outcome, now } => {
            lemma_not_thawed_by_a_worker(d, outcome, now);
        },
        Happening::Signal { cause } => {
            lemma_commit_abort(d, cause);
        },
        Happening::Drained { pass } => {
            lemma_after_recovery_not_thawed(
                driver::DriverView {
                    recovered: d.recovered + pass.recovered,
                    kept: d.kept + pass.keep,
                    unrecoverable: if d.unrecoverable is Some {
                        d.unrecoverable
                    } else {
                        pass.incomplete
                    },
                    ..d
                },
            );
        },
        Happening::DrainLost { why } => {
            lemma_after_recovery_not_thawed(
                driver::DriverView {
                    uncertain: true,
                    ..d.blame("(recovery drain)"@, "recovery drain lost ("@ + why + ")"@)
                },
            );
        },
        Happening::Removed { removed } => {
            lemma_any_conclusion(d);
        },
        Happening::RemovalLost { why } => {
            lemma_any_conclusion(d);
        },
        Happening::RolledBack { failure, keep } => {
            lemma_any_conclusion(driver::DriverView { held: d.held + keep, ..d });
        },
        Happening::RollbackLost { why } => {
            let next = driver::DriverView { uncertain: true, ..d };
            lemma_any_conclusion(driver::DriverView { held: next.held + Seq::empty(), ..next });
        },
    }
}

proof fn lemma_after_recovery_not_thawed(d: driver::DriverView)
    requires
        d.abort is Some,
        d.replied,
        d.settled is None,
    ensures
        d.after_recovery().settled != Some(FreezeState::Thawed),
{
    let next = driver::DriverView { recovering: false, ..d }.publish();
    if next.stage is Recovering {
        lemma_settle_aborted(next);
    }
}

proof fn lemma_not_thawed_by_a_worker(d: driver::DriverView, outcome: freeze_op::OutcomeView, now: u64)
    requires
        d.valid(),
        d.stage is Freezing,
    ensures
        d.worked(outcome, now).settled != Some(FreezeState::Thawed),
{
    let next = driver::DriverView { in_flight: None, ..d };
    let name = d.in_flight->0;
    match outcome {
        freeze_op::OutcomeView::Frozen(mount) => {
            lemma_advance(
                driver::DriverView { frozen: next.frozen + 1, held: next.held.push(mount), ..next },
                now,
            );
        },
        freeze_op::OutcomeView::Busy(mount) => {
            lemma_advance(driver::DriverView { held: next.held.push(mount), ..next }, now);
        },
        freeze_op::OutcomeView::Lost(why) => {
            let blamed = driver::DriverView {
                uncertain: true,
                ..next.blame(
                    name,
                    "freeze worker lost ("@ + why + "); FIFREEZE outcome unknown"@,
                )
            };
            lemma_commit_abort(blamed, AbortCause::WorkerLost);
            lemma_settle_aborted(blamed.commit_abort(AbortCause::WorkerLost));
        },
        _ => {
            lemma_advance(next, now);
        },
    }
}

/// What a reply adds to the effects: itself, unless the request was replied to
/// before.
pub open spec fn reply_once(
    replied: bool,
    result: Result<nat, fsfreeze::FreezeFailureView>,
) -> Seq<freeze_op::EffectView> {
    if replied {
        Seq::empty()
    } else {
        seq![freeze_op::EffectView::Reply(result)]
    }
}

/// How an operation settles, in this order. Frozen: it retires, says how the
/// next thaw finds what is frozen, hands over every handle it has, publishes
/// the state, arms the watchdog, announces the end and replies. Thawed: the
/// audit ring is flushed first, and no watchdog is armed. The handles suffice
/// for the thaw unless some target is uncertain.
pub proof fn law_how_an_operation_settles(
    d: driver::DriverView,
    frozen: bool,
    result: Result<nat, fsfreeze::FreezeFailureView>,
)
    ensures
        ({
            let e = d.conclude(frozen, result);
            &&& frozen ==> e.effects == d.effects + seq![
                freeze_op::EffectView::Retire,
                freeze_op::EffectView::Scope(
                    if d.uncertain {
                        ThawScope::Discovery
                    } else {
                        ThawScope::Held
                    },
                ),
                freeze_op::EffectView::Hold(d.held),
                freeze_op::EffectView::Transition(
                    if d.abort is None {
                        Transition::FreezeSucceeded
                    } else {
                        Transition::ThawFailed
                    },
                ),
                freeze_op::EffectView::FrozenEntered,
                freeze_op::EffectView::Announce,
            ] + reply_once(d.replied, result)
            &&& !frozen ==> e.effects == d.effects + seq![
                freeze_op::EffectView::Thawed,
                freeze_op::EffectView::Retire,
                freeze_op::EffectView::Scope(ThawScope::Discovery),
                freeze_op::EffectView::Hold(d.held),
                freeze_op::EffectView::Transition(
                    if d.abort is None {
                        Transition::FreezeFailed
                    } else {
                        Transition::ThawSucceeded
                    },
                ),
                freeze_op::EffectView::Announce,
            ] + reply_once(d.replied, result)
            &&& frozen ==> e.settled == Some(FreezeState::Frozen)
            &&& !frozen ==> e.settled == Some(FreezeState::Thawed)
            &&& e.stage is Settled
            &&& e.held.len() == 0
            &&& e.in_flight is None
            &&& e.replied
            &&& e.frozen == d.frozen
            &&& e.recovered == d.recovered
            &&& e.published == d.published
        }),
{
    reveal(driver::DriverView::conclude);
    let e = d.conclude(frozen, result);
    if d.replied {
        assert(reply_once(d.replied, result) =~= Seq::<freeze_op::EffectView>::empty());
    }
}

/// What an abort does, in this order: the state moves to `Thawing`, the
/// watchdog is cancelled, the request is told why and how far the freeze had
/// come, and the handles held so far go to a drain, if there are any.
pub proof fn law_what_an_abort_does(d: driver::DriverView, cause: AbortCause)
    requires
        d.abort is None,
        !d.replied,
        !d.recovering,
    ensures
        ({
            let e = d.commit_abort(cause);
            &&& e.effects == d.effects + seq![
                freeze_op::EffectView::Transition(Transition::AbortFreeze),
                freeze_op::EffectView::ThawClaimed,
                freeze_op::EffectView::Reply(
                    Err(
                        fsfreeze::FreezeFailureView::Aborted {
                            cause,
                            timeout_secs: d.timeout_secs,
                            frozen: d.frozen,
                            in_flight: d.in_flight,
                        },
                    ),
                ),
            ] + (if d.held.len() > 0 {
                seq![freeze_op::EffectView::Recover(d.held)]
            } else {
                Seq::empty()
            })
            &&& e.abort == Some(cause)
            &&& e.op.aborted
            &&& e.op.deadline == d.op.deadline
            &&& e.recovering <==> d.held.len() > 0
            &&& e.held.len() == 0
            &&& e.targets == d.targets
            &&& e.frozen == d.frozen
            &&& e.in_flight == d.in_flight
            &&& e.stage == d.stage
        }),
{
    reveal(driver::DriverView::commit_abort);
    if d.held.len() == 0 {
        assert(d.held =~= Seq::<kernel::MountView>::empty());
    }
}

/// While nothing is aborted and the deadline is ahead, what a worker found leads
/// on to the next target, the last in mount order of those left: a target that
/// was frozen is counted and its handle held, the handle of one that another
/// froze is held, and one that was passed over leaves no trace.
pub proof fn law_a_target_leads_to_the_next(
    d: driver::DriverView,
    mount: kernel::MountView,
    now: u64,
)
    requires
        d.abort is None,
        d.op.claim == Claim::Open,
        now < d.op.deadline,
        d.targets.len() > 0,
    ensures
        ({
            let next = d.targets[d.targets.len() - 1];
            let on = driver::DriverView {
                targets: d.targets.take(d.targets.len() - 1),
                in_flight: Some(text::lossy(next.mountpoint)),
                stage: driver::StageView::Freezing,
                effects: d.effects.push(freeze_op::EffectView::Freeze(next)),
                ..d
            };
            &&& d.worked(freeze_op::OutcomeView::Frozen(mount), now) == (driver::DriverView {
                frozen: d.frozen + 1,
                held: d.held.push(mount),
                ..on
            })
            &&& d.worked(freeze_op::OutcomeView::Busy(mount), now) == (driver::DriverView {
                held: d.held.push(mount),
                ..on
            })
            &&& d.worked(freeze_op::OutcomeView::Skipped, now) == on
            &&& d.worked(freeze_op::OutcomeView::NotAuthorized, now) == on
        }),
{
    reveal(driver::DriverView::advance);
    assert(d.targets.drop_last() =~= d.targets.take(d.targets.len() - 1));
}

/// Once every target was dealt with, nothing is aborted and the deadline is
/// ahead, a freeze that has something frozen or held settles frozen, and its
/// reply is the number of the targets that it froze. One that has not removes
/// the marker instead.
pub proof fn law_the_last_target_ends_the_freeze(
    d: driver::DriverView,
    mount: kernel::MountView,
    now: u64,
)
    requires
        d.abort is None,
        d.op.claim == Claim::Open,
        now < d.op.deadline,
        d.targets.len() == 0,
        !d.replied,
    ensures
        ({
            let frozen = d.worked(freeze_op::OutcomeView::Frozen(mount), now);
            let busy = d.worked(freeze_op::OutcomeView::Busy(mount), now);
            let skipped = d.worked(freeze_op::OutcomeView::Skipped, now);
            let nothing = d.frozen == 0 && d.held.len() == 0 && d.unrecoverable is None;
            &&& frozen.settled == Some(FreezeState::Frozen)
            &&& frozen.effects.last() == freeze_op::EffectView::Reply(Ok(d.frozen + 1))
            &&& frozen.effects.contains(freeze_op::EffectView::Hold(d.held.push(mount)))
            &&& busy.settled == Some(FreezeState::Frozen)
            &&& busy.effects.last() == freeze_op::EffectView::Reply(Ok(d.frozen))
            &&& busy.effects.contains(freeze_op::EffectView::Hold(d.held.push(mount)))
            &&& !nothing ==> skipped.settled == Some(FreezeState::Frozen) && skipped.effects.last()
                == freeze_op::EffectView::Reply(Ok(d.frozen))
            &&& nothing ==> skipped.stage == driver::StageView::Removing(
                driver::RemovalView::NothingFrozen,
            ) && skipped.effects == d.effects.push(freeze_op::EffectView::RemoveMarker)
        }),
{
    reveal(driver::DriverView::advance);
    reveal(driver::DriverView::commit_freeze);
    let next = driver::DriverView { in_flight: None, op: d.op.committing(), ..d };
    let one = driver::DriverView { frozen: d.frozen + 1, held: d.held.push(mount), ..next };
    let other = driver::DriverView { held: d.held.push(mount), ..next };
    law_how_an_operation_settles(one, true, Ok(one.frozen));
    law_how_an_operation_settles(other, true, Ok(other.frozen));
    law_how_an_operation_settles(next, true, Ok(next.frozen));
    let n = d.effects.len() as int;
    assert(one.conclude(true, Ok(one.frozen)).effects[n + 2] == freeze_op::EffectView::Hold(
        d.held.push(mount),
    ));
    assert(other.conclude(true, Ok(other.frozen)).effects[n + 2] == freeze_op::EffectView::Hold(
        d.held.push(mount),
    ));
}

/// A hard error stops a freeze that was not aborted: every handle goes to the
/// rollback, with the target that failed and what stopped it, and no further
/// target is begun.
pub proof fn law_a_hard_error_rolls_back(
    d: driver::DriverView,
    cause: fsfreeze::FreezeStopView,
    now: u64,
)
    requires
        d.abort is None,
        d.in_flight is Some,
    ensures
        d.worked(freeze_op::OutcomeView::Failed(cause), now) == (driver::DriverView {
            stage: driver::StageView::RollingBack,
            in_flight: None,
            held: Seq::empty(),
            effects: d.effects.push(
                freeze_op::EffectView::Rollback {
                    held: d.held,
                    failed: d.in_flight->0,
                    cause,
                },
            ),
            ..d
        }),
{
}

/// A worker that was lost aborts the freeze and leaves its target uncertain,
/// which is told unless there was something to tell before.
pub proof fn law_a_lost_worker_leaves_its_target_uncertain(
    d: driver::DriverView,
    why: Seq<char>,
    now: u64,
)
    requires
        d.abort is None,
        !d.replied,
        !d.recovering,
        d.in_flight is Some,
    ensures
        ({
            let e = d.worked(freeze_op::OutcomeView::Lost(why), now);
            &&& e.abort == Some(AbortCause::WorkerLost)
            &&& e.uncertain
            &&& d.unrecoverable is Some ==> e.unrecoverable == d.unrecoverable
            &&& d.unrecoverable is None ==> e.unrecoverable == Some(
                drain::IncompleteView {
                    mountpoint: d.in_flight->0,
                    reason: "freeze worker lost ("@ + why + "); FIFREEZE outcome unknown"@,
                },
            )
            &&& d.held.len() == 0 ==> e.settled == Some(FreezeState::Frozen)
            &&& d.held.len() > 0 ==> e.stage is Recovering && e.effects.last()
                == freeze_op::EffectView::Recover(d.held)
        }),
{
    reveal(driver::DriverView::settle_aborted);
    let blamed = driver::DriverView {
        in_flight: None,
        uncertain: true,
        ..d.blame(
            d.in_flight->0,
            "freeze worker lost ("@ + why + "); FIFREEZE outcome unknown"@,
        )
    };
    law_what_an_abort_does(blamed, AbortCause::WorkerLost);
    reveal(driver::DriverView::commit_abort);
    let aborted = blamed.commit_abort(AbortCause::WorkerLost);
    let next = aborted.recover();
    let last = driver::DriverView { held: next.held + next.kept, kept: Seq::empty(), ..next };
    reveal(driver::DriverView::conclude);
    law_how_an_operation_settles(last, true, Err(fsfreeze::FreezeFailureView::Task("aborted"@)));
}

/// A recovery adds up: what it thawed is counted, what it could not drain is
/// kept, and the first target that may still be frozen is the one that is told.
/// With nothing left to drain, the operation goes on to remove the marker if
/// everything was drained, and otherwise settles frozen with every handle that
/// was kept.
pub proof fn law_what_a_recovery_leaves(d: driver::DriverView, pass: drain::PassView)
    requires
        d.stage is Recovering,
        d.held.len() == 0,
    ensures
        ({
            let e = d.drained(pass);
            let told = if d.unrecoverable is Some {
                d.unrecoverable
            } else {
                pass.incomplete
            };
            &&& e.recovered == d.recovered + pass.recovered
            &&& e.unrecoverable == told
            &&& told is Some ==> e.published == Some(
                told->0.mountpoint + ": "@ + told->0.reason,
            )
            &&& told is None ==> e.published is None
            &&& told is None ==> e.stage == driver::StageView::Removing(
                driver::RemovalView::Aborted,
            ) && e.effects == d.effects.push(freeze_op::EffectView::RemoveMarker)
            &&& told is Some ==> e.settled == Some(FreezeState::Frozen) && e.effects.contains(
                freeze_op::EffectView::Hold(d.kept + pass.keep),
            )
        }),
{
    reveal(driver::DriverView::settle_aborted);
    let next = driver::DriverView {
        recovered: d.recovered + pass.recovered,
        kept: d.kept + pass.keep,
        unrecoverable: if d.unrecoverable is Some {
            d.unrecoverable
        } else {
            pass.incomplete
        },
        recovering: false,
        ..d
    }.publish();
    if next.unrecoverable is Some {
        assert(next.held + next.kept =~= d.kept + pass.keep);
        let last = driver::DriverView { held: next.held + next.kept, kept: Seq::empty(), ..next };
        let result = Err::<nat, fsfreeze::FreezeFailureView>(
            fsfreeze::FreezeFailureView::Task("aborted"@),
        );
        law_how_an_operation_settles(last, true, result);
        reveal(driver::DriverView::conclude);
        let n = d.effects.len() as int;
        assert(last.conclude(true, result).effects[n + 2] == freeze_op::EffectView::Hold(
            d.kept + pass.keep,
        ));
    }
}

/// Which state the removal of the marker leads to: thawed when the marker is
/// gone, frozen when it is not. A removal that was lost counts as one that
/// failed, except where nothing was prepared.
pub proof fn law_what_the_removal_comes_to(
    d: driver::DriverView,
    removed: Result<(), marker::MarkerErrorView>,
    why: Seq<char>,
)
    requires
        d.stage is Removing,
    ensures
        removed is Ok || removed->Err_0 is Absent ==> d.removed(removed).settled == Some(
            FreezeState::Thawed,
        ),
        removed is Err && !(removed->Err_0 is Absent) ==> d.removed(removed).settled == Some(
            FreezeState::Frozen,
        ),
        d.stage->Removing_0 is Unprepared ==> d.removal_lost(why).settled == Some(
            FreezeState::Thawed,
        ),
        !(d.stage->Removing_0 is Unprepared) ==> d.removal_lost(why).settled == Some(
            FreezeState::Frozen,
        ),
{
    reveal(driver::DriverView::conclude);
}

/// What the request is told once the marker was to be removed: that nothing was
/// frozen, the failure of the preparation, or that the marker is still there.
pub proof fn law_what_is_told_after_the_removal(
    d: driver::DriverView,
    removed: Result<(), marker::MarkerErrorView>,
    lost: Seq<char>,
    why: Seq<char>,
)
    requires
        !d.replied,
    ensures
        ({
            let gone = removed is Ok || removed->Err_0 is Absent;
            let e = d.removed(removed).effects.last();
            let l = d.removal_lost(lost).effects.last();
            &&& d.stage == driver::StageView::Removing(driver::RemovalView::NothingFrozen) ==> {
                &&& gone ==> e == freeze_op::EffectView::Reply(Ok(0))
                &&& !gone ==> e == freeze_op::EffectView::Reply(
                    Err(
                        fsfreeze::FreezeFailureView::NothingFrozenMarkerRetained(removed->Err_0),
                    ),
                )
                &&& l == freeze_op::EffectView::Reply(
                    Err(fsfreeze::FreezeFailureView::Task("marker removal lost: "@ + lost)),
                )
            }
            &&& d.stage == driver::StageView::Removing(driver::RemovalView::Unprepared(why)) ==> {
                &&& gone ==> e == freeze_op::EffectView::Reply(
                    Err(fsfreeze::FreezeFailureView::Task(why)),
                )
                &&& !gone ==> e == freeze_op::EffectView::Reply(
                    Err(
                        fsfreeze::FreezeFailureView::MarkerRetained {
                            failed: "(preparation)"@,
                            cause: fsfreeze::FreezeStopView::Unreachable(
                                "freeze task failed: "@ + why,
                            ),
                            marker: removed->Err_0,
                        },
                    ),
                )
                &&& l == freeze_op::EffectView::Reply(
                    Err(fsfreeze::FreezeFailureView::Task(why)),
                )
            }
        }),
{
    reveal(driver::DriverView::conclude);
}

/// A rollback settles the operation: frozen if a filesystem may still be, the
/// marker stayed, or its task was lost, and otherwise thawed. The handles that
/// could not be drained stay held, and the request is told the failure.
pub proof fn law_what_a_rollback_comes_to(
    d: driver::DriverView,
    failure: fsfreeze::FreezeFailureView,
    keep: Seq<kernel::MountView>,
    why: Seq<char>,
)
    requires
        !d.replied,
        d.held.len() == 0,
    ensures
        ({
            let e = d.rolled_back(failure, keep);
            let l = d.rollback_lost(why);
            let stays = failure is RollbackIncomplete || failure is MarkerRetained || failure
                is NothingFrozenMarkerRetained || failure is Task;
            &&& stays ==> e.settled == Some(FreezeState::Frozen)
            &&& !stays ==> e.settled == Some(FreezeState::Thawed)
            &&& e.effects.last() == freeze_op::EffectView::Reply(Err(failure))
            &&& e.effects.contains(freeze_op::EffectView::Hold(keep))
            &&& l.settled == Some(FreezeState::Frozen)
            &&& l.uncertain
            &&& l.effects.last() == freeze_op::EffectView::Reply(
                Err(fsfreeze::FreezeFailureView::Task("rollback lost: "@ + why)),
            )
        }),
{
    let next = driver::DriverView { held: d.held + keep, ..d };
    let frozen = failure.retains() || failure is Task;
    assert(d.held + keep =~= keep);
    law_how_an_operation_settles(next, frozen, Err(failure));
    let n = d.effects.len() as int;
    let e = d.rolled_back(failure, keep);
    if frozen {
        assert(e.effects[n + 2] == freeze_op::EffectView::Hold(keep));
    } else {
        assert(e.effects[n + 3] == freeze_op::EffectView::Hold(keep));
    }
    let lost = driver::DriverView { uncertain: true, ..d };
    let after = driver::DriverView { held: lost.held + Seq::<kernel::MountView>::empty(), ..lost };
    let task = fsfreeze::FreezeFailureView::Task("rollback lost: "@ + why);
    law_how_an_operation_settles(after, true, Err(task));
    reveal(driver::DriverView::conclude);
}

/// A preparation that failed before anything was frozen ends the freeze thawed,
/// with its failure; one whose task was lost has the marker removed first.
pub proof fn law_what_a_failed_preparation_comes_to(
    d: driver::DriverView,
    failure: fsfreeze::FreezeFailureView,
    now: u64,
)
    requires
        d.abort is None,
        !d.replied,
    ensures
        ({
            let e = d.prepared(Err(failure), now);
            &&& failure !is Task ==> e.settled == Some(FreezeState::Thawed) && e.effects.last()
                == freeze_op::EffectView::Reply(Err(failure))
            &&& failure matches fsfreeze::FreezeFailureView::Task(why) ==> e.stage
                == driver::StageView::Removing(driver::RemovalView::Unprepared(why)) && e.effects
                == d.effects.push(freeze_op::EffectView::RemoveMarker)
        }),
{
    law_how_an_operation_settles(d, false, Err(failure));
}

/// A preparation that is done in time leads to the last target of the plan.
pub proof fn law_a_preparation_leads_to_the_last_target(
    d: driver::DriverView,
    targets: Seq<freeze_plan::TargetView>,
    now: u64,
)
    requires
        d.abort is None,
        d.op.claim == Claim::Open,
        now < d.op.deadline,
        targets.len() > 0,
    ensures
        ({
            let next = targets[targets.len() - 1];
            d.prepared(Ok(targets), now) == (driver::DriverView {
                targets: targets.take(targets.len() - 1),
                in_flight: Some(text::lossy(next.mountpoint)),
                stage: driver::StageView::Freezing,
                effects: d.effects.push(freeze_op::EffectView::Freeze(next)),
                ..d
            })
        }),
{
    reveal(driver::DriverView::advance);
    assert(targets.drop_last() =~= targets.take(targets.len() - 1));
}

/// At the deadline, or once a thaw was accepted, no further target is begun: the
/// operation aborts for that reason.
pub proof fn law_a_boundary_that_is_due_aborts(
    d: driver::DriverView,
    outcome: freeze_op::OutcomeView,
    now: u64,
)
    requires
        d.abort is None,
        outcome is Frozen || outcome is Busy || outcome is Skipped || outcome is NotAuthorized,
    ensures
        d.op.claim == Claim::Aborting ==> d.worked(outcome, now).abort == Some(
            AbortCause::ThawRequested,
        ),
        d.op.claim == Claim::Open && now >= d.op.deadline ==> d.worked(outcome, now).abort == Some(
            AbortCause::Deadline,
        ),
{
    reveal(driver::DriverView::advance);
    reveal(driver::DriverView::commit_abort);
    reveal(driver::DriverView::settle_aborted);
    reveal(driver::DriverView::conclude);
}

/// While a worker is out, the end of a drain leads to the drain of what was
/// held since, if anything was; a drain that was lost leaves its targets
/// uncertain, which is told unless there was something to tell before.
pub proof fn law_what_a_drain_beside_a_worker_leaves(
    d: driver::DriverView,
    pass: drain::PassView,
    why: Seq<char>,
)
    requires
        d.stage is Freezing,
    ensures
        ({
            let e = d.drained(pass);
            let l = d.drain_lost(why);
            let more = if d.held.len() > 0 {
                seq![freeze_op::EffectView::Recover(d.held)]
            } else {
                Seq::empty()
            };
            &&& e.recovered == d.recovered + pass.recovered
            &&& e.kept == d.kept + pass.keep
            &&& e.effects == d.effects + more
            &&& e.recovering <==> d.held.len() > 0
            &&& e.stage is Freezing
            &&& e.settled == d.settled
            &&& d.unrecoverable is None ==> e.unrecoverable == pass.incomplete
            &&& d.unrecoverable is Some ==> e.unrecoverable == d.unrecoverable
            &&& l.uncertain
            &&& l.recovered == d.recovered
            &&& l.kept == d.kept
            &&& l.effects == d.effects + more
            &&& d.unrecoverable is Some ==> l.unrecoverable == d.unrecoverable
            &&& d.unrecoverable is None ==> l.unrecoverable == Some(
                drain::IncompleteView {
                    mountpoint: "(recovery drain)"@,
                    reason: "recovery drain lost ("@ + why + ")"@,
                },
            )
        }),
{
}

} // verus!
