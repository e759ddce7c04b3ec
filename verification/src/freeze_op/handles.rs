//! Where the handles of a freeze operation go, and in what order it settles.

use vstd::multiset::Multiset;
use vstd::prelude::*;

use crate::freeze_op;
use crate::freeze_op::driver;
use crate::freeze_op::laws;
use crate::freeze_op::{AbortCause, Claim, Transition};
use crate::handlers::fsfreeze;
use crate::kernel;
use crate::state::FreezeState;

verus! {

/// The handles that an effect hands over: to a drain, to a rollback, or to
/// whoever thaws next.
pub open spec fn handles_of(effect: freeze_op::EffectView) -> Seq<kernel::MountView> {
    match effect {
        freeze_op::EffectView::Recover(mounts) => mounts,
        freeze_op::EffectView::Rollback { held, .. } => held,
        freeze_op::EffectView::Hold(mounts) => mounts,
        _ => Seq::empty(),
    }
}

/// The handles that the effects hand over.
pub open spec fn handed_over(effects: Seq<freeze_op::EffectView>) -> Multiset<kernel::MountView>
    decreases effects.len(),
{
    if effects.len() == 0 {
        Multiset::empty()
    } else {
        handed_over(effects.drop_last()).add(handles_of(effects.last()).to_multiset())
    }
}

/// The handles that the operation holds itself.
pub open spec fn in_hand(d: driver::DriverView) -> Multiset<kernel::MountView> {
    d.held.to_multiset().add(d.kept.to_multiset())
}

/// The handles that come to the operation with what happens: that of a worker
/// whose target is or may be frozen, and those that a drain could not let go.
pub open spec fn arriving(it: laws::Happening) -> Multiset<kernel::MountView> {
    match it {
        laws::Happening::Worked { outcome: freeze_op::OutcomeView::Frozen(mount), .. } =>
            Multiset::singleton(mount),
        laws::Happening::Worked { outcome: freeze_op::OutcomeView::Busy(mount), .. } =>
            Multiset::singleton(mount),
        laws::Happening::Drained { pass } => pass.keep.to_multiset(),
        laws::Happening::RolledBack { keep, .. } => keep.to_multiset(),
        _ => Multiset::empty(),
    }
}

/// The effects from `i` on end the operation: the registration is retired, the
/// next thaw is told how to work and gets the handles, and only then is the
/// state published; the watchdog is armed if it is frozen. The settlement is
/// announced and the reply sent after that. A thawed end is finalised just
/// before, while the state still refuses a new freeze.
pub open spec fn settlement_at(
    effects: Seq<freeze_op::EffectView>,
    i: int,
    state: FreezeState,
) -> bool {
    let frozen = state == FreezeState::Frozen;
    let announced = if frozen {
        i + 5
    } else {
        i + 4
    };
    &&& 0 <= i
    &&& announced < effects.len()
    &&& effects[i] is Retire
    &&& effects[i + 1] is Scope
    &&& effects[i + 2] is Hold
    &&& effects[i + 3] matches freeze_op::EffectView::Transition(last) && (if frozen {
        last == Transition::FreezeSucceeded || last == Transition::ThawFailed
    } else {
        last == Transition::FreezeFailed || last == Transition::ThawSucceeded
    })
    &&& frozen ==> effects[i + 4] is FrozenEntered
    &&& !frozen ==> i > 0 && effects[i - 1] is Thawed
    &&& effects[announced] is Announce
    &&& forall|j: int| announced < j < effects.len() ==> (#[trigger] effects[j]) is Reply
}

/// What a part of a step does to the deadline and to the order of the effects.
spec fn in_order(d: driver::DriverView, e: driver::DriverView) -> bool {
    &&& e.op.deadline == d.op.deadline
    &&& d.effects.len() <= e.effects.len()
    &&& e.settled is Some && d.settled is None ==> exists|i: int|
        d.effects.len() <= i && #[trigger] settlement_at(e.effects, i, e.settled->0)
}

/// All handles that the operation had or has.
spec fn total(d: driver::DriverView) -> Multiset<kernel::MountView> {
    in_hand(d).add(handed_over(d.effects))
}

broadcast proof fn lemma_handed_push(
    effects: Seq<freeze_op::EffectView>,
    effect: freeze_op::EffectView,
)
    ensures
        #[trigger] handed_over(effects.push(effect)) == handed_over(effects).add(
            handles_of(effect).to_multiset(),
        ),
{
    assert(effects.push(effect).drop_last() =~= effects);
}

proof fn lemma_no_handles()
    ensures
        Seq::<kernel::MountView>::empty().to_multiset() == Multiset::<kernel::MountView>::empty(),
{
    Seq::<kernel::MountView>::empty().to_multiset_ensures();
    assert(Seq::<kernel::MountView>::empty().to_multiset()
        =~= Multiset::<kernel::MountView>::empty());
}

proof fn lemma_reply(d: driver::DriverView, result: Result<nat, fsfreeze::FreezeFailureView>)
    ensures
        total(d.reply(result)) == total(d),
{
    broadcast use lemma_handed_push;

    lemma_no_handles();
    assert(total(d.reply(result)) =~= total(d));
}

proof fn lemma_recover(d: driver::DriverView)
    ensures
        total(d.recover()) == total(d),
        d.recover().kept == d.kept,
        in_order(d, d.recover()),
{
    broadcast use lemma_handed_push;

    lemma_no_handles();
    assert(total(d.recover()) =~= total(d));
}

proof fn lemma_commit_abort(d: driver::DriverView, cause: AbortCause)
    ensures
        total(d.commit_abort(cause)) == total(d),
        d.commit_abort(cause).kept == d.kept,
        in_order(d, d.commit_abort(cause)),
{
    broadcast use lemma_handed_push;

    reveal(driver::DriverView::commit_abort);
    lemma_no_handles();
    if d.abort is None {
        let claimed = driver::DriverView {
            abort: Some(cause),
            op: freeze_op::FreezeOp { aborted: true, ..d.op.aborting() },
            ..d
        }.emit(freeze_op::EffectView::Transition(Transition::AbortFreeze)).emit(
            freeze_op::EffectView::ThawClaimed,
        );
        let failure = Err(
            fsfreeze::FreezeFailureView::Aborted {
                cause,
                timeout_secs: d.timeout_secs,
                frozen: d.frozen,
                in_flight: d.in_flight,
            },
        );
        assert(total(claimed) =~= total(d));
        lemma_reply(claimed, failure);
        lemma_recover(claimed.reply(failure));
    }
}

proof fn lemma_conclude(
    d: driver::DriverView,
    frozen: bool,
    result: Result<nat, fsfreeze::FreezeFailureView>,
)
    ensures
        total(d.conclude(frozen, result)) == total(d),
        d.conclude(frozen, result).held == Seq::<kernel::MountView>::empty(),
        d.conclude(frozen, result).kept == d.kept,
        in_order(d, d.conclude(frozen, result)),
{
    broadcast use lemma_handed_push;

    reveal(driver::DriverView::conclude);
    lemma_no_handles();
    let e = d.conclude(frozen, result);
    assert(total(e) =~= total(d));
    let i: nat = if frozen {
        d.effects.len()
    } else {
        d.effects.len() + 1
    };
    assert(settlement_at(e.effects, i as int, e.settled->0));
}

proof fn lemma_remove_marker(d: driver::DriverView, why: driver::RemovalView)
    ensures
        total(d.remove_marker(why)) == total(d),
        in_order(d, d.remove_marker(why)),
{
    broadcast use lemma_handed_push;

    lemma_no_handles();
    assert(total(d.remove_marker(why)) =~= total(d));
}

/// What a part of a step does to the handles.
spec fn conserved(d: driver::DriverView, e: driver::DriverView) -> bool {
    &&& total(e) == total(d)
    &&& in_order(d, e)
    &&& e.settled is Some && d.settled is None ==> in_hand(e) == Multiset::<
        kernel::MountView,
    >::empty()
}

proof fn lemma_settle_aborted(d: driver::DriverView)
    requires
        d.settled is None,
    ensures
        conserved(d, d.settle_aborted()),
{
    reveal(driver::DriverView::settle_aborted);
    reveal(driver::DriverView::conclude);
    lemma_no_handles();
    let next = d.recover();
    lemma_recover(d);
    if !next.recovering {
        if next.unrecoverable is Some {
            let last = driver::DriverView { held: next.held + next.kept, kept: Seq::empty(), ..next };
            vstd::seq_lib::lemma_multiset_commutative(next.held, next.kept);
            assert(total(last) =~= total(next));
            let failure = Err(fsfreeze::FreezeFailureView::Task("aborted"@));
            lemma_conclude(last, true, failure);
            assert(in_hand(last.conclude(true, failure)) =~= Multiset::empty());
        } else {
            lemma_remove_marker(next, driver::RemovalView::Aborted);
        }
    }
}

proof fn lemma_commit_freeze(d: driver::DriverView)
    requires
        d.settled is None,
        d.kept.len() == 0,
    ensures
        conserved(d, d.commit_freeze()),
{
    reveal(driver::DriverView::commit_freeze);
    lemma_no_handles();
    let next = driver::DriverView { op: d.op.committing(), ..d };
    if d.op.claim != Claim::Open {
        lemma_commit_abort(next, AbortCause::ThawRequested);
        lemma_open(next, AbortCause::ThawRequested);
        lemma_settle_aborted(next.commit_abort(AbortCause::ThawRequested));
    } else if next.frozen == 0 && next.held.len() == 0 && next.unrecoverable is None {
        lemma_remove_marker(next, driver::RemovalView::NothingFrozen);
    } else {
        lemma_conclusion(next, true, Ok(next.frozen));
    }
}

proof fn lemma_open(d: driver::DriverView, cause: AbortCause)
    ensures
        d.commit_abort(cause).settled == d.settled,
        d.commit_abort(cause).abort is Some,
{
    reveal(driver::DriverView::commit_abort);
}

proof fn lemma_conclusion(
    d: driver::DriverView,
    frozen: bool,
    result: Result<nat, fsfreeze::FreezeFailureView>,
)
    requires
        d.kept.len() == 0,
    ensures
        conserved(d, d.conclude(frozen, result)),
{
    lemma_no_handles();
    lemma_conclude(d, frozen, result);
    assert(d.kept =~= Seq::empty());
    assert(in_hand(d.conclude(frozen, result)) =~= Multiset::empty());
}

proof fn lemma_advance(d: driver::DriverView, now: u64)
    requires
        d.settled is None,
        d.abort is None ==> d.kept.len() == 0,
    ensures
        conserved(d, d.advance(now)),
{
    broadcast use lemma_handed_push;

    reveal(driver::DriverView::advance);
    lemma_no_handles();
    let next = d.decide(now);
    if d.op.due(now) is Some {
        lemma_commit_abort(d, d.op.due(now)->0);
        lemma_open(d, d.op.due(now)->0);
    }
    if next.abort is Some {
        lemma_settle_aborted(next);
    } else if next.targets.len() > 0 {
        assert(total(d.advance(now)) =~= total(next));
    } else {
        lemma_commit_freeze(next);
    }
}

proof fn lemma_after_recovery(d: driver::DriverView)
    requires
        d.settled is None,
    ensures
        conserved(d, d.after_recovery()),
{
    let next = driver::DriverView { recovering: false, ..d }.publish();
    assert(total(next) == total(d));
    if next.stage is Recovering {
        lemma_settle_aborted(next);
    } else {
        lemma_recover(next);
    }
}

proof fn lemma_worked(d: driver::DriverView, outcome: freeze_op::OutcomeView, now: u64)
    requires
        d.valid(),
        d.stage is Freezing,
    ensures
        total(d.worked(outcome, now)) == total(d).add(
            arriving(laws::Happening::Worked { outcome, now }),
        ),
        d.worked(outcome, now).settled is Some ==> in_hand(d.worked(outcome, now)) == Multiset::<
            kernel::MountView,
        >::empty(),
        in_order(d, d.worked(outcome, now)),
{
    broadcast use lemma_handed_push;

    lemma_no_handles();
    let e = d.worked(outcome, now);
    let arrived = arriving(laws::Happening::Worked { outcome, now });
    let next = driver::DriverView { in_flight: None, ..d };
    let name = d.in_flight->0;
    assert(total(next) == total(d));
    match outcome {
        freeze_op::OutcomeView::Frozen(mount) => {
            let more = driver::DriverView {
                frozen: next.frozen + 1,
                held: next.held.push(mount),
                ..next
            };
            next.held.to_multiset_ensures();
            assert(total(more) =~= total(d).add(arrived));
            lemma_advance(more, now);
        },
        freeze_op::OutcomeView::Busy(mount) => {
            let more = driver::DriverView { held: next.held.push(mount), ..next };
            next.held.to_multiset_ensures();
            assert(total(more) =~= total(d).add(arrived));
            lemma_advance(more, now);
        },
        freeze_op::OutcomeView::Failed(cause) => {
            if next.abort is None {
                assert(total(e) =~= total(d));
            } else {
                lemma_advance(next, now);
            }
        },
        freeze_op::OutcomeView::Lost(why) => {
            let blamed = driver::DriverView {
                uncertain: true,
                ..next.blame(
                    name,
                    "freeze worker lost ("@ + why + "); FIFREEZE outcome unknown"@,
                )
            };
            assert(total(blamed) == total(d));
            lemma_commit_abort(blamed, AbortCause::WorkerLost);
            lemma_open(blamed, AbortCause::WorkerLost);
            lemma_settle_aborted(blamed.commit_abort(AbortCause::WorkerLost));
        },
        _ => {
            lemma_advance(next, now);
        },
    }
    assert(total(e) =~= total(d).add(arrived));
}

proof fn lemma_any_conclusion(d: driver::DriverView)
    requires
        d.kept.len() == 0,
    ensures
        forall|frozen: bool, result: Result<nat, fsfreeze::FreezeFailureView>|
            conserved(d, #[trigger] d.conclude(frozen, result)),
{
    assert forall|frozen: bool, result: Result<nat, fsfreeze::FreezeFailureView>|
        conserved(d, #[trigger] d.conclude(frozen, result)) by {
        lemma_conclusion(d, frozen, result);
    }
}

proof fn lemma_step(d: driver::DriverView, it: laws::Happening)
    requires
        d.valid(),
        d.settled is None,
        laws::can_happen(d, it),
    ensures
        total(laws::after(d, it)) == total(d).add(arriving(it)),
        in_order(d, laws::after(d, it)),
        laws::after(d, it).settled is Some ==> in_hand(laws::after(d, it)) == Multiset::<
            kernel::MountView,
        >::empty(),
{
    broadcast use lemma_handed_push;

    lemma_no_handles();
    let e = laws::after(d, it);
    match it {
        laws::Happening::Prepared { result, now } => {
            match result {
                Ok(targets) => {
                    let next = driver::DriverView { targets, in_flight: None, ..d };
                    assert(total(next) == total(d));
                    lemma_advance(next, now);
                },
                Err(failure) => {
                    if d.abort is Some {
                        lemma_settle_aborted(d);
                    } else {
                        match failure {
                            fsfreeze::FreezeFailureView::Task(why) => {
                                lemma_remove_marker(d, driver::RemovalView::Unprepared(why));
                            },
                            _ => {
                                lemma_conclusion(d, false, Err(failure));
                            },
                        }
                    }
                },
            }
        },
        laws::Happening::Worked { outcome, now } => {
            lemma_worked(d, outcome, now);
        },
        laws::Happening::Signal { cause } => {
            lemma_commit_abort(d, cause);
            lemma_open(d, cause);
        },
        laws::Happening::Drained { pass } => {
            let next = driver::DriverView {
                recovered: d.recovered + pass.recovered,
                kept: d.kept + pass.keep,
                unrecoverable: if d.unrecoverable is Some {
                    d.unrecoverable
                } else {
                    pass.incomplete
                },
                ..d
            };
            vstd::seq_lib::lemma_multiset_commutative(d.kept, pass.keep);
            assert(total(next) =~= total(d).add(arriving(it)));
            lemma_after_recovery(next);
        },
        laws::Happening::DrainLost { why } => {
            let next = driver::DriverView {
                uncertain: true,
                ..d.blame("(recovery drain)"@, "recovery drain lost ("@ + why + ")"@)
            };
            assert(total(next) == total(d));
            lemma_after_recovery(next);
        },
        laws::Happening::Removed { removed } => {
            lemma_any_conclusion(d);
        },
        laws::Happening::RemovalLost { why } => {
            lemma_any_conclusion(d);
        },
        laws::Happening::RolledBack { failure, keep } => {
            let next = driver::DriverView { held: d.held + keep, ..d };
            vstd::seq_lib::lemma_multiset_commutative(d.held, keep);
            assert(total(next) =~= total(d).add(arriving(it)));
            lemma_any_conclusion(next);
        },
        laws::Happening::RollbackLost { why } => {
            let next = driver::DriverView {
                held: d.held + Seq::empty(),
                ..(driver::DriverView { uncertain: true, ..d })
            };
            assert(d.held + Seq::empty() =~= d.held);
            assert(total(next) == total(d));
            lemma_any_conclusion(next);
        },
    }
    assert(total(e) =~= total(d).add(arriving(it)));
}

/// No handle is forgotten: a handle that came to the operation is in its hands,
/// or it was handed over to a drain, to a rollback or to whoever thaws next,
/// each exactly once. An operation that has settled has handed over everything.
pub proof fn law_no_handle_is_forgotten(d: driver::DriverView, it: laws::Happening)
    requires
        d.valid(),
        d.settled is None,
        laws::can_happen(d, it),
    ensures
        in_hand(laws::after(d, it)).add(handed_over(laws::after(d, it).effects)) == in_hand(d).add(
            handed_over(d.effects),
        ).add(arriving(it)),
        laws::after(d, it).settled is Some ==> in_hand(laws::after(d, it)) == Multiset::<
            kernel::MountView,
        >::empty(),
{
    lemma_step(d, it);
}

/// Whoever sees the terminal state finds the registration released and the
/// handles handed over; the settlement is announced, and a reply that is still
/// owed is sent, after that.
pub proof fn law_the_state_is_published_last(d: driver::DriverView, it: laws::Happening)
    requires
        d.valid(),
        d.settled is None,
        laws::can_happen(d, it),
        laws::after(d, it).settled is Some,
    ensures
        exists|i: int|
            d.effects.len() <= i && #[trigger] settlement_at(
                laws::after(d, it).effects,
                i,
                laws::after(d, it).settled->0,
            ),
{
    lemma_step(d, it);
}

/// Nothing extends the deadline of an operation.
pub proof fn law_the_deadline_never_moves(d: driver::DriverView, it: laws::Happening)
    requires
        d.valid(),
        d.settled is None,
        laws::can_happen(d, it),
    ensures
        laws::after(d, it).op.deadline == d.op.deadline,
{
    lemma_step(d, it);
}

} // verus!
