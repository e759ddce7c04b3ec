//! The preparation of a freeze: the plan, then the marker.
//!
//! A restarted agent learns from the marker that filesystems may be frozen, so
//! it is there before the first of them is. Only a plan whose marker was
//! created is handed to the operation, which asks for no freeze without one.

use vstd::prelude::*;

use crate::freeze_op::driver;
use crate::freeze_op::AbortCause;
use crate::freeze_op::laws;
use crate::freeze_op;
use crate::freeze_plan::FreezePlan;
use crate::freeze_plan;
use crate::handlers::fsfreeze::{build_plan, FreezeFailure};
use crate::handlers::fsfreeze;
use crate::kernel;
use crate::marker::MarkerError;
use crate::marker;
use crate::mountinfo::MountEntry;

verus! {

/// What a preparation does next.
#[derive(Debug, Clone, Copy, PartialEq, Eq, Structural)]
pub enum PreparationStep {
    /// Read the mount table.
    ReadMounts,
    /// Create the marker.
    CreateMarker,
    /// Nothing: the result is known.
    Done,
}

#[derive(Debug)]
enum Phase {
    Reading(Option<Vec<String>>),
    Planned(FreezePlan),
    Settled(Result<FreezePlan, FreezeFailure>),
}

/// The preparation of a freeze.
#[derive(Debug)]
pub struct Preparation {
    phase: Phase,
}

/// A preparation as a mathematical value.
#[verifier::ext_equal]
pub ghost enum PreparationView {
    /// The mount table is to be read, for a plan restricted to these names.
    Reading(Option<Seq<Seq<u8>>>),
    /// The plan is there; the marker is to be created.
    Planned(Seq<freeze_plan::TargetView>),
    /// The result is known.
    Settled(Result<Seq<freeze_plan::TargetView>, fsfreeze::FreezeFailureView>),
}

/// What came of reading the mount table, as a mathematical value.
pub open spec fn mounts_view(mounts: Result<Vec<MountEntry>, String>) -> Result<
    Seq<MountEntry>,
    Seq<char>,
> {
    match mounts {
        Ok(entries) => Ok(entries@),
        Err(why) => Err(why@),
    }
}

/// What came of creating the marker, as a mathematical value.
pub open spec fn creation_view(created: Result<(), MarkerError>) -> Result<
    (),
    marker::MarkerErrorView,
> {
    match created {
        Ok(()) => Ok(()),
        Err(err) => Err(err@),
    }
}

impl PreparationView {
    /// The mount table was read, or could not be.
    pub open spec fn read(self, mounts: Result<Seq<MountEntry>, Seq<char>>) -> PreparationView {
        match mounts {
            Ok(entries) => PreparationView::Planned(
                fsfreeze::plan_of(entries, self->Reading_0),
            ),
            Err(why) => PreparationView::Settled(Err(fsfreeze::FreezeFailureView::Plan(why))),
        }
    }

    /// The marker was created, or could not be.
    pub open spec fn created(
        self,
        created: Result<(), marker::MarkerErrorView>,
    ) -> PreparationView {
        PreparationView::Settled(
            match created {
                Ok(()) => Ok(self->Planned_0),
                Err(err) => Err(fsfreeze::FreezeFailureView::Marker(err)),
            },
        )
    }

    /// What is due.
    pub open spec fn step(self) -> PreparationStep {
        match self {
            PreparationView::Reading(_) => PreparationStep::ReadMounts,
            PreparationView::Planned(_) => PreparationStep::CreateMarker,
            PreparationView::Settled(_) => PreparationStep::Done,
        }
    }
}

impl View for Preparation {
    type V = PreparationView;

    closed spec fn view(&self) -> PreparationView {
        match self.phase {
            Phase::Reading(restrict) => PreparationView::Reading(
                fsfreeze::restriction_view(restrict),
            ),
            Phase::Planned(plan) => PreparationView::Planned(plan.target_list()),
            Phase::Settled(result) => PreparationView::Settled(driver::preparation_view(result)),
        }
    }
}

impl Preparation {
    /// Prepares a freeze of everything, or of what the names in `restrict` lead
    /// to.
    pub fn new(restrict: Option<Vec<String>>) -> (preparation: Preparation)
        ensures
            preparation@ == PreparationView::Reading(fsfreeze::restriction_view(restrict)),
    {
        Preparation { phase: Phase::Reading(restrict) }
    }

    /// What is due next.
    pub fn step(&self) -> (step: PreparationStep)
        ensures
            step == self@.step(),
    {
        match &self.phase {
            Phase::Reading(_) => PreparationStep::ReadMounts,
            Phase::Planned(_) => PreparationStep::CreateMarker,
            Phase::Settled(_) => PreparationStep::Done,
        }
    }

    /// The mount table was read, or could not be.
    pub fn read(&mut self, mounts: Result<Vec<MountEntry>, String>)
        requires
            old(self)@ is Reading,
        ensures
            final(self)@ == old(self)@.read(mounts_view(mounts)),
    {
        let plan = match &self.phase {
            Phase::Reading(restrict) => build_plan(mounts, restrict),
            _ => Ok(FreezePlan::default()),
        };
        self.phase =
        match plan {
            Ok(plan) => Phase::Planned(plan),
            Err(why) => Phase::Settled(Err(FreezeFailure::Plan(why))),
        };
    }

    /// The marker was created, or could not be.
    pub fn created(&mut self, created: Result<(), MarkerError>)
        requires
            old(self)@ is Planned,
        ensures
            final(self)@ == old(self)@.created(creation_view(created)),
    {
        let mut phase = Phase::Reading(None);
        std::mem::swap(&mut phase, &mut self.phase);
        if let Phase::Planned(plan) = phase {
            self.phase =
            Phase::Settled(
                match created {
                    Ok(()) => Ok(plan),
                    Err(err) => Err(FreezeFailure::Marker(err)),
                },
            );
        }
    }

    /// The result, once it is known: what [`driver::Driver::prepared`] is told.
    pub fn finish(self) -> (result: Result<FreezePlan, FreezeFailure>)
        requires
            self@ is Settled,
        ensures
            self@ == PreparationView::Settled(driver::preparation_view(result)),
    {
        match self.phase {
            Phase::Settled(result) => result,
            Phase::Planned(plan) => Ok(plan),
            Phase::Reading(_) => Ok(FreezePlan::default()),
        }
    }
}

// ---------------------------------------------------------------------------
// A whole operation with its preparation
// ---------------------------------------------------------------------------

/// An operation and its preparation.
#[verifier::ext_equal]
pub ghost struct Operation {
    pub preparation: PreparationView,
    pub driver: driver::DriverView,
}

/// Something that happens to an operation or to its preparation.
pub ghost enum OperationMove {
    Read { mounts: Result<Seq<MountEntry>, Seq<char>> },
    Created { created: Result<(), marker::MarkerErrorView> },
    Happened { it: laws::Happening },
}

impl Operation {
    /// An operation that has just begun.
    pub open spec fn start(
        restrict: Option<Seq<Seq<u8>>>,
        deadline: u64,
        timeout_secs: u64,
        held: Seq<kernel::MountView>,
    ) -> Operation {
        Operation {
            preparation: PreparationView::Reading(restrict),
            driver: driver::DriverView::start(deadline, timeout_secs, held),
        }
    }

    /// It can happen now. The operation is told what the preparation came to
    /// once that is known, or at any time that the preparation is lost.
    pub open spec fn allows(self, it: OperationMove) -> bool {
        match it {
            OperationMove::Read { .. } => self.preparation is Reading,
            OperationMove::Created { .. } => self.preparation is Planned,
            OperationMove::Happened { it } => {
                &&& laws::can_happen(self.driver, it)
                &&& it matches laws::Happening::Prepared { result, .. } ==> self.preparation
                    == PreparationView::Settled(result) || result matches Err(
                    fsfreeze::FreezeFailureView::Task(_),
                )
            },
        }
    }

    /// The operation once it happened.
    pub open spec fn after(self, it: OperationMove) -> Operation {
        match it {
            OperationMove::Read { mounts } => Operation {
                preparation: self.preparation.read(mounts),
                ..self
            },
            OperationMove::Created { created } => Operation {
                preparation: self.preparation.created(created),
                ..self
            },
            OperationMove::Happened { it } => Operation {
                driver: laws::after(self.driver, it),
                ..self
            },
        }
    }
}

/// An operation after what happens one after the other.
pub open spec fn operation_of(start: Operation, moves: Seq<OperationMove>) -> Operation
    decreases moves.len(),
{
    if moves.len() == 0 {
        start
    } else {
        operation_of(start, moves.drop_last()).after(moves.last())
    }
}

/// It can happen one after the other.
pub open spec fn possible(start: Operation, moves: Seq<OperationMove>) -> bool
    decreases moves.len(),
{
    moves.len() > 0 ==> possible(start, moves.drop_last()) && operation_of(
        start,
        moves.drop_last(),
    ).allows(moves.last())
}

/// The targets whose freeze was asked for, in order.
pub open spec fn asked(effects: Seq<freeze_op::EffectView>) -> Seq<freeze_plan::TargetView>
    decreases effects.len(),
{
    if effects.len() == 0 {
        Seq::empty()
    } else {
        match effects.last() {
            freeze_op::EffectView::Freeze(target) => asked(effects.drop_last()).push(target),
            _ => asked(effects.drop_last()),
        }
    }
}

/// The marker was created.
pub open spec fn marked(moves: Seq<OperationMove>) -> bool {
    exists|i: int|
        0 <= i < moves.len() && ((#[trigger] moves[i]) matches OperationMove::Created {
            created,
        } && created is Ok)
}

broadcast proof fn lemma_asked_push(
    effects: Seq<freeze_op::EffectView>,
    effect: freeze_op::EffectView,
)
    ensures
        #[trigger] asked(effects.push(effect)) == match effect {
            freeze_op::EffectView::Freeze(target) => asked(effects).push(target),
            _ => asked(effects),
        },
{
    assert(effects.push(effect).drop_last() =~= effects);
}

/// No freeze is asked for on the way from `d` to `e`.
spec fn quiet(d: driver::DriverView, e: driver::DriverView) -> bool {
    &&& asked(e.effects) == asked(d.effects)
    &&& e.targets == d.targets
    &&& e.stage is Freezing ==> d.stage is Freezing
    &&& e.stage is Preparing ==> d.stage is Preparing
}

/// On the way from `d` to `e` no freeze is asked for, or that of the last
/// target that was not begun.
spec fn quiet_or_next(d: driver::DriverView, e: driver::DriverView) -> bool {
    ||| asked(e.effects) == asked(d.effects) && e.targets == d.targets
    ||| {
        &&& d.targets.len() > 0
        &&& asked(e.effects) == asked(d.effects).push(d.targets.last())
        &&& e.targets == d.targets.drop_last()
    }
}

proof fn lemma_commit_abort(d: driver::DriverView, cause: AbortCause)
    ensures
        quiet(d, d.commit_abort(cause)),
{
    broadcast use lemma_asked_push;

    reveal(driver::DriverView::commit_abort);
}

proof fn lemma_conclude(
    d: driver::DriverView,
    frozen: bool,
    result: Result<nat, fsfreeze::FreezeFailureView>,
)
    ensures
        quiet(d, d.conclude(frozen, result)),
        !(d.conclude(frozen, result).stage is Preparing),
{
    broadcast use lemma_asked_push;

    reveal(driver::DriverView::conclude);
}

proof fn lemma_settle_aborted(d: driver::DriverView)
    ensures
        quiet(d, d.settle_aborted()),
        !(d.settle_aborted().stage is Preparing),
{
    broadcast use lemma_asked_push;

    reveal(driver::DriverView::settle_aborted);
    let next = d.recover();
    let last = driver::DriverView { held: next.held + next.kept, kept: Seq::empty(), ..next };
    lemma_conclude(last, true, Err(fsfreeze::FreezeFailureView::Task("aborted"@)));
}

proof fn lemma_advance(d: driver::DriverView, now: u64)
    ensures
        quiet_or_next(d, d.advance(now)),
        !(d.advance(now).stage is Preparing),
{
    broadcast use lemma_asked_push;

    reveal(driver::DriverView::advance);
    reveal(driver::DriverView::commit_freeze);
    let next = d.decide(now);
    if d.op.due(now) is Some {
        lemma_commit_abort(d, d.op.due(now)->0);
    }
    lemma_settle_aborted(next);
    let committed = driver::DriverView { op: next.op.committing(), ..next };
    lemma_commit_abort(committed, AbortCause::ThawRequested);
    lemma_settle_aborted(committed.commit_abort(AbortCause::ThawRequested));
    lemma_conclude(committed, true, Ok(committed.frozen));
}

proof fn lemma_worked(d: driver::DriverView, outcome: freeze_op::OutcomeView, now: u64)
    ensures
        quiet_or_next(d, d.worked(outcome, now)),
        !(d.worked(outcome, now).stage is Preparing),
{
    broadcast use lemma_asked_push;

    let next = driver::DriverView { in_flight: None, ..d };
    let name = d.in_flight->0;
    match outcome {
        freeze_op::OutcomeView::Frozen(mount) => {
            lemma_advance(
                driver::DriverView { frozen: next.frozen + 1, held: next.held.push(mount), ..next },
                now,
            );
        },
        freeze_op::OutcomeView::Busy(mount) => {
            lemma_advance(driver::DriverView { held: next.held.push(mount), ..next }, now);
        },
        freeze_op::OutcomeView::Lost(why) => {
            let blamed = driver::DriverView {
                uncertain: true,
                ..next.blame(
                    name,
                    "freeze worker lost ("@ + why + "); FIFREEZE outcome unknown"@,
                )
            };
            lemma_commit_abort(blamed, AbortCause::WorkerLost);
            lemma_settle_aborted(blamed.commit_abort(AbortCause::WorkerLost));
        },
        _ => {
            lemma_advance(next, now);
        },
    }
}

/// Nothing but a prepared plan and the end of a worker brings a freeze.
proof fn lemma_quiet(d: driver::DriverView, it: laws::Happening)
    requires
        laws::can_happen(d, it),
        !(it is Worked),
        it matches laws::Happening::Prepared { result, .. } ==> result is Err,
    ensures
        quiet(d, laws::after(d, it)),
{
    broadcast use lemma_asked_push;

    match it {
        laws::Happening::Prepared { result, now } => {
            lemma_settle_aborted(d);
            lemma_conclude(d, false, Err(result->Err_0));
        },
        laws::Happening::Worked { .. } => {},
        laws::Happening::Signal { cause } => {
            lemma_commit_abort(d, cause);
        },
        laws::Happening::Drained { pass } => {
            let next = driver::DriverView {
                recovered: d.recovered + pass.recovered,
                kept: d.kept + pass.keep,
                unrecoverable: if d.unrecoverable is Some {
                    d.unrecoverable
                } else {
                    pass.incomplete
                },
                ..d
            };
            lemma_settle_aborted(driver::DriverView { recovering: false, ..next }.publish());
        },
        laws::Happening::DrainLost { why } => {
            let next = driver::DriverView {
                uncertain: true,
                ..d.blame("(recovery drain)"@, "recovery drain lost ("@ + why + ")"@)
            };
            lemma_settle_aborted(driver::DriverView { recovering: false, ..next }.publish());
        },
        laws::Happening::Removed { .. } => {
            lemma_any_conclusion(d);
        },
        laws::Happening::RemovalLost { .. } => {
            lemma_any_conclusion(d);
        },
        laws::Happening::RolledBack { failure, keep } => {
            lemma_any_conclusion(driver::DriverView { held: d.held + keep, ..d });
        },
        laws::Happening::RollbackLost { .. } => {
            let next = driver::DriverView { uncertain: true, ..d };
            lemma_any_conclusion(driver::DriverView { held: next.held + Seq::empty(), ..next });
        },
    }
}

proof fn lemma_any_conclusion(d: driver::DriverView)
    ensures
        forall|frozen: bool, result: Result<nat, fsfreeze::FreezeFailureView>|
            quiet(d, #[trigger] d.conclude(frozen, result)),
{
    assert forall|frozen: bool, result: Result<nat, fsfreeze::FreezeFailureView>| quiet(
        d,
        #[trigger] d.conclude(frozen, result),
    ) by {
        lemma_conclude(d, frozen, result);
    }
}

/// The targets whose freeze was asked for are the last of the plan, from the
/// last on; those before are to be begun.
pub open spec fn backwards(
    plan: Seq<freeze_plan::TargetView>,
    done: Seq<freeze_plan::TargetView>,
    rest: Seq<freeze_plan::TargetView>,
) -> bool {
    &&& done.len() <= plan.len()
    &&& rest == plan.take(plan.len() - done.len())
    &&& forall|i: int| 0 <= i < done.len() ==> (#[trigger] done[i]) == plan[plan.len() - 1 - i]
}

/// What holds of every operation with its preparation.
spec fn in_order(o: Operation, moves: Seq<OperationMove>) -> bool {
    let done = asked(o.driver.effects);
    &&& o.preparation matches PreparationView::Settled(Ok(_)) ==> marked(moves)
    &&& o.driver.stage is Preparing ==> done.len() == 0
    &&& o.driver.stage is Freezing || done.len() > 0 ==> {
        &&& o.preparation matches PreparationView::Settled(Ok(plan))
        &&& backwards(plan, done, o.driver.targets)
    }
}

proof fn lemma_in_order(start: Operation, moves: Seq<OperationMove>)
    requires
        start.preparation is Reading,
        start.driver.stage is Preparing,
        start.driver.effects.len() == 0,
        possible(start, moves),
    ensures
        in_order(operation_of(start, moves), moves),
    decreases moves.len(),
{
    if moves.len() > 0 {
        let past = moves.drop_last();
        let o = operation_of(start, past);
        let e = operation_of(start, moves);
        lemma_in_order(start, past);
        if marked(past) {
            let i = choose|i: int|
                0 <= i < past.len() && ((#[trigger] past[i]) matches OperationMove::Created {
                    created,
                } && created is Ok);
            assert(moves[i] == past[i]);
        }
        match moves.last() {
            OperationMove::Created { created } => {
                if created is Ok {
                    assert(moves[moves.len() - 1] == (OperationMove::Created { created }));
                }
            },
            OperationMove::Happened { it } => match it {
                laws::Happening::Prepared { result: Ok(plan), now } => {
                    let ready = driver::DriverView { targets: plan, in_flight: None, ..o.driver };
                    assert(plan.take(plan.len() as int) =~= plan);
                    assert(backwards(plan, asked(o.driver.effects), plan));
                    lemma_advance(ready, now);
                    lemma_one_more(plan, asked(o.driver.effects), ready, e.driver);
                },
                laws::Happening::Worked { outcome, now } => {
                    let plan = o.preparation->Settled_0->Ok_0;
                    lemma_worked(o.driver, outcome, now);
                    lemma_one_more(plan, asked(o.driver.effects), o.driver, e.driver);
                },
                _ => {
                    lemma_quiet(o.driver, it);
                },
            },
            _ => {},
        }
    }
}

proof fn lemma_one_more(
    plan: Seq<freeze_plan::TargetView>,
    done: Seq<freeze_plan::TargetView>,
    d: driver::DriverView,
    e: driver::DriverView,
)
    requires
        done == asked(d.effects),
        backwards(plan, done, d.targets),
        quiet_or_next(d, e),
    ensures
        backwards(plan, asked(e.effects), e.targets),
{
    let more = asked(e.effects);
    if more.len() > done.len() {
        assert(d.targets.drop_last() =~= plan.take(plan.len() - more.len()));
    }
}

/// The marker is there before the first freeze: whatever happens, an operation
/// that asked for the freeze of a target had its plan made and its marker
/// created before. The targets it asked for are those of the plan, against
/// mount order, each once.
pub proof fn law_the_marker_precedes_the_first_freeze(
    restrict: Option<Seq<Seq<u8>>>,
    deadline: u64,
    timeout_secs: u64,
    held: Seq<kernel::MountView>,
    moves: Seq<OperationMove>,
)
    requires
        possible(Operation::start(restrict, deadline, timeout_secs, held), moves),
    ensures
        ({
            let o = operation_of(
                Operation::start(restrict, deadline, timeout_secs, held),
                moves,
            );
            let done = asked(o.driver.effects);
            done.len() > 0 ==> {
                &&& marked(moves)
                &&& o.preparation matches PreparationView::Settled(Ok(plan))
                &&& backwards(plan, done, o.driver.targets)
            }
        }),
{
    lemma_in_order(Operation::start(restrict, deadline, timeout_secs, held), moves);
}

/// The plan comes before the marker: without a plan no marker is created, and a
/// plan or marker that failed is the failure that the operation is told.
pub proof fn law_the_plan_precedes_the_marker(
    restrict: Option<Seq<Seq<u8>>>,
    mounts: Result<Seq<MountEntry>, Seq<char>>,
    created: Result<(), marker::MarkerErrorView>,
)
    ensures
        ({
            let planned = PreparationView::Reading(restrict).read(mounts);
            &&& planned.step() == PreparationStep::CreateMarker <==> mounts is Ok
            &&& mounts matches Err(why) ==> planned == PreparationView::Settled(
                Err(fsfreeze::FreezeFailureView::Plan(why)),
            )
            &&& mounts matches Ok(entries) ==> planned.created(created)
                == PreparationView::Settled(
                match created {
                    Ok(()) => Ok(fsfreeze::plan_of(entries, restrict)),
                    Err(err) => Err(fsfreeze::FreezeFailureView::Marker(err)),
                },
            )
        }),
{
}

} // verus!
