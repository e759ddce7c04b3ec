//! The worker of one target: open it, make the last check, issue `FIFREEZE`.
//!
//! A target is opened on its planned device through the first of its names that
//! still leads there. Opening may take long, so whether the operation still
//! authorises a destructive call is asked after it, right before the ioctl. A
//! worker that no name opens for, or that is no longer authorised, answers
//! without an ioctl.

use vstd::prelude::*;

use crate::freeze_op::{freeze_answer, FreezeOp, TargetOutcome};
use crate::freeze_op;
use crate::freeze_plan::Target;
use crate::freeze_plan;
use crate::handlers::fsfreeze::drain::OpenTarget;
use crate::handlers::fsfreeze::drain;
use crate::handlers::fsfreeze::FreezeStop;
use crate::handlers::fsfreeze;
use crate::kernel::{KernelError, Mount};
use crate::kernel;
use crate::text;

verus! {

/// What a worker does next.
#[derive(Debug, PartialEq, Eq)]
pub enum WorkerStep {
    /// Open this mount point on this device.
    Open {
        /// The mount point.
        path: Vec<u8>,
        /// The planned `(major, minor)`.
        dev: (u32, u32),
    },
    /// Ask whether the operation still authorises a destructive call.
    Check,
    /// Issue `FIFREEZE` on this handle.
    Freeze {
        /// The handle.
        handle: u64,
    },
    /// Nothing: the outcome is known.
    Done,
}

/// What a worker does next, as a mathematical value.
#[verifier::ext_equal]
pub ghost enum WorkerStepView {
    Open { path: Seq<u8>, dev: (u32, u32) },
    Check,
    Freeze { handle: u64 },
    Done,
}

impl View for WorkerStep {
    type V = WorkerStepView;

    open spec fn view(&self) -> WorkerStepView {
        match self {
            WorkerStep::Open { path, dev } => WorkerStepView::Open { path: path@, dev: *dev },
            WorkerStep::Check => WorkerStepView::Check,
            WorkerStep::Freeze { handle } => WorkerStepView::Freeze { handle: *handle },
            WorkerStep::Done => WorkerStepView::Done,
        }
    }
}

#[derive(Debug)]
enum Phase {
    Opening(OpenTarget),
    Opened(Mount),
    Authorised(Mount),
    Settled(TargetOutcome, Option<u64>),
}

/// The worker of one target.
#[derive(Debug)]
pub struct FreezeWorker {
    phase: Phase,
}

/// A worker as a mathematical value.
#[verifier::ext_equal]
pub ghost enum WorkerView {
    /// Looking for a name of the target.
    Opening(drain::OpenView),
    /// A name opened; the last check is due.
    Opened(kernel::MountView),
    /// The last check authorised the ioctl, which is due.
    Authorised(kernel::MountView),
    /// The outcome is known. A handle that nothing was frozen through is to be
    /// closed.
    Settled { outcome: freeze_op::OutcomeView, close: Option<u64> },
}

impl WorkerView {
    /// A worker over names, before it opens the first.
    pub open spec fn over(names: Seq<Seq<u8>>, dev: (u32, u32)) -> WorkerView {
        WorkerView::Opening(drain::OpenView::over(names, dev))
    }

    /// A name opened.
    pub open spec fn opened(self, handle: u64) -> WorkerView {
        WorkerView::Opened(self->Opening_0.mount(handle))
    }

    /// A name did not lead to the target.
    pub open spec fn open_failed(self, err: KernelError) -> WorkerView {
        let search = self->Opening_0.after(err);
        if search.path() is Some {
            WorkerView::Opening(search)
        } else {
            WorkerView::Settled {
                outcome: freeze_op::OutcomeView::Failed(
                    fsfreeze::FreezeStopView::Unreachable(text::joined(search.attempts, "; "@)),
                ),
                close: None,
            }
        }
    }

    /// The last check was made.
    pub open spec fn checked(self, authorised: bool) -> WorkerView {
        if authorised {
            WorkerView::Authorised(self->Opened_0)
        } else {
            WorkerView::Settled {
                outcome: freeze_op::OutcomeView::NotAuthorized,
                close: Some(self->Opened_0.handle),
            }
        }
    }

    /// `FIFREEZE` was answered.
    pub open spec fn answered(self, answer: Result<(), KernelError>) -> WorkerView {
        let mount = self->Authorised_0;
        let outcome = freeze_op::freeze_answered(mount, answer);
        WorkerView::Settled {
            outcome,
            close: if outcome is Frozen || outcome is Busy {
                None
            } else {
                Some(mount.handle)
            },
        }
    }

    /// What is due.
    pub open spec fn step(self) -> WorkerStepView {
        match self {
            WorkerView::Opening(search) => WorkerStepView::Open {
                path: search.path()->0,
                dev: search.dev,
            },
            WorkerView::Opened(_) => WorkerStepView::Check,
            WorkerView::Authorised(mount) => WorkerStepView::Freeze { handle: mount.handle },
            WorkerView::Settled { .. } => WorkerStepView::Done,
        }
    }

    /// What holds of every worker.
    pub open spec fn valid(self) -> bool {
        self matches WorkerView::Opening(search) ==> search.path() is Some
    }
}

impl View for FreezeWorker {
    type V = WorkerView;

    closed spec fn view(&self) -> WorkerView {
        match self.phase {
            Phase::Opening(search) => WorkerView::Opening(search@),
            Phase::Opened(mount) => WorkerView::Opened(mount@),
            Phase::Authorised(mount) => WorkerView::Authorised(mount@),
            Phase::Settled(outcome, close) => WorkerView::Settled { outcome: outcome@, close },
        }
    }
}

impl FreezeWorker {
    /// The worker of `target`.
    pub fn new(target: &Target) -> (worker: FreezeWorker)
        ensures
            worker@ == WorkerView::over(drain::freeze_names(target@), target.dev),
            worker@.valid(),
    {
        FreezeWorker { phase: Phase::Opening(OpenTarget::for_freeze(target)) }
    }

    /// What is due next.
    pub fn step(&self) -> (step: WorkerStep)
        requires
            self@.valid(),
        ensures
            step@ == self@.step(),
    {
        match &self.phase {
            Phase::Opening(search) => match search.path() {
                Some(path) => WorkerStep::Open {
                    path: freeze_plan::clone_path(path),
                    dev: search.dev(),
                },
                None => WorkerStep::Done,
            },
            Phase::Opened(_) => WorkerStep::Check,
            Phase::Authorised(mount) => WorkerStep::Freeze { handle: mount.handle },
            Phase::Settled(_, _) => WorkerStep::Done,
        }
    }

    /// Whether a name was tried in vain: what opens now is an alias.
    pub fn is_alias(&self) -> (alias: bool)
        ensures
            alias == (self@ matches WorkerView::Opening(search) && search.attempts.len() > 0),
    {
        match &self.phase {
            Phase::Opening(search) => search.is_alias(),
            _ => false,
        }
    }

    /// The name opened, as `handle`.
    pub fn opened(&mut self, handle: u64)
        requires
            old(self)@.valid(),
            old(self)@ is Opening,
        ensures
            final(self)@ == old(self)@.opened(handle),
            final(self)@.valid(),
    {
        let mount = match &self.phase {
            Phase::Opening(search) => Some(search.opened(handle)),
            _ => None,
        };
        if let Some(mount) = mount {
            self.phase = Phase::Opened(mount);
        }
    }

    /// The name did not lead to the target.
    pub fn open_failed(&mut self, err: &KernelError)
        requires
            old(self)@.valid(),
            old(self)@ is Opening,
        ensures
            final(self)@ == old(self)@.open_failed(*err),
            final(self)@.valid(),
    {
        let mut phase = Phase::Settled(TargetOutcome::Skipped, None);
        std::mem::swap(&mut phase, &mut self.phase);
        if let Phase::Opening(search) = phase {
            let mut search = search;
            search.failed(err);
            if search.path().is_some() {
                self.phase = Phase::Opening(search);
            } else {
                self.phase =
                Phase::Settled(
                    TargetOutcome::Failed(FreezeStop::Unreachable(search.attempts())),
                    None,
                );
            }
        }
    }

    /// The last check, at `now`: the ioctl is due only if `op` authorises it.
    pub fn checked(&mut self, op: &FreezeOp, now: u64)
        requires
            old(self)@ is Opened,
        ensures
            final(self)@ == old(self)@.checked(op.authorised_at(now)),
            final(self)@.valid(),
    {
        let mut phase = Phase::Settled(TargetOutcome::Skipped, None);
        std::mem::swap(&mut phase, &mut self.phase);
        if let Phase::Opened(mount) = phase {
            if op.authorises(now) {
                self.phase = Phase::Authorised(mount);
            } else {
                self.phase = Phase::Settled(TargetOutcome::NotAuthorized, Some(mount.handle));
            }
        }
    }

    /// `FIFREEZE` was answered.
    pub fn answered(&mut self, answer: Result<(), KernelError>)
        requires
            old(self)@ is Authorised,
        ensures
            final(self)@ == old(self)@.answered(answer),
            final(self)@.valid(),
    {
        let mut phase = Phase::Settled(TargetOutcome::Skipped, None);
        std::mem::swap(&mut phase, &mut self.phase);
        if let Phase::Authorised(mount) = phase {
            let handle: u64 = mount.handle;
            let outcome = freeze_answer(mount, answer);
            let close = match &outcome {
                TargetOutcome::Frozen(_) | TargetOutcome::Busy(_) => None,
                _ => Some(handle),
            };
            self.phase = Phase::Settled(outcome, close);
        }
    }

    /// The outcome, and the handle to close, once nothing is left to do.
    pub fn finish(self) -> (end: (TargetOutcome, Option<u64>))
        requires
            self@ is Settled,
        ensures
            self@ == (WorkerView::Settled { outcome: end.0@, close: end.1 }),
    {
        match self.phase {
            Phase::Settled(outcome, close) => (outcome, close),
            _ => (TargetOutcome::Skipped, None),
        }
    }
}

// ---------------------------------------------------------------------------
// A whole worker
// ---------------------------------------------------------------------------

/// Something that happens to a worker.
pub ghost enum WorkerMove {
    Opened { handle: u64 },
    OpenFailed { err: KernelError },
    Checked { op: FreezeOp, now: u64 },
    Answered { answer: Result<(), KernelError> },
}

impl WorkerView {
    /// It can happen now: it answers what is due.
    pub open spec fn allows(self, it: WorkerMove) -> bool {
        match it {
            WorkerMove::Opened { .. } => self.step() is Open,
            WorkerMove::OpenFailed { .. } => self.step() is Open,
            WorkerMove::Checked { .. } => self.step() is Check,
            WorkerMove::Answered { .. } => self.step() is Freeze,
        }
    }

    /// The worker once it happened.
    pub open spec fn after(self, it: WorkerMove) -> WorkerView {
        match it {
            WorkerMove::Opened { handle } => self.opened(handle),
            WorkerMove::OpenFailed { err } => self.open_failed(err),
            WorkerMove::Checked { op, now } => self.checked(op.authorised_at(now)),
            WorkerMove::Answered { answer } => self.answered(answer),
        }
    }
}

/// The worker of a target after what happens one after the other.
pub open spec fn worker_of(
    target: freeze_plan::TargetView,
    moves: Seq<WorkerMove>,
) -> WorkerView
    decreases moves.len(),
{
    if moves.len() == 0 {
        WorkerView::over(drain::freeze_names(target), target.dev)
    } else {
        worker_of(target, moves.drop_last()).after(moves.last())
    }
}

/// It can happen one after the other.
pub open spec fn possible(target: freeze_plan::TargetView, moves: Seq<WorkerMove>) -> bool
    decreases moves.len(),
{
    moves.len() > 0 ==> possible(target, moves.drop_last()) && worker_of(
        target,
        moves.drop_last(),
    ).allows(moves.last())
}

/// The first `n` names were opened, and none led to the target.
pub open spec fn opened_in_vain(moves: Seq<WorkerMove>, n: int) -> bool {
    &&& 0 <= n <= moves.len()
    &&& forall|j: int| 0 <= j < n ==> (#[trigger] moves[j]) is OpenFailed
}

/// The attempts in words, in order.
pub open spec fn attempts_of(names: Seq<Seq<u8>>, moves: Seq<WorkerMove>) -> Seq<Seq<char>> {
    Seq::new(moves.len(), |j: int| drain::attempt_text(names[j], moves[j]->err))
}

/// The names were opened one after the other, and the first that led to the
/// target is the one of `mount`; it is the move before the last `behind`.
pub open spec fn reached(
    target: freeze_plan::TargetView,
    moves: Seq<WorkerMove>,
    behind: int,
    mount: kernel::MountView,
) -> bool {
    let k = moves.len() - behind - 1;
    let names = drain::freeze_names(target);
    &&& 0 <= k < names.len()
    &&& opened_in_vain(moves, k)
    &&& moves[k] == (WorkerMove::Opened { handle: mount.handle })
    &&& mount.mountpoint == names[k]
    &&& mount.dev == target.dev
}

/// A worker that ended at the last check: it was no longer authorised.
pub open spec fn refused(target: freeze_plan::TargetView, moves: Seq<WorkerMove>) -> bool {
    &&& moves.len() >= 2
    &&& moves.last() matches WorkerMove::Checked { op, now } && !op.authorised_at(now)
    &&& reached(
        target,
        moves,
        1,
        kernel::MountView {
            handle: moves[moves.len() - 2]->handle,
            mountpoint: drain::freeze_names(target)[moves.len() - 2],
            dev: target.dev,
        },
    )
}

/// A worker that issued `FIFREEZE` on the mount: right after a check that
/// authorised it.
pub open spec fn issued(
    target: freeze_plan::TargetView,
    moves: Seq<WorkerMove>,
    mount: kernel::MountView,
) -> bool {
    &&& moves.len() >= 3
    &&& moves.last() is Answered
    &&& moves[moves.len() - 2] matches WorkerMove::Checked { op, now } && op.authorised_at(now)
    &&& reached(target, moves, 2, mount)
}

/// What the moves come to.
pub open spec fn told(
    target: freeze_plan::TargetView,
    moves: Seq<WorkerMove>,
    worker: WorkerView,
) -> bool {
    let names = drain::freeze_names(target);
    let n = moves.len() as int;
    match worker {
        WorkerView::Opening(search) => {
            &&& opened_in_vain(moves, n)
            &&& n < names.len()
            &&& search == (drain::OpenView {
                names,
                dev: target.dev,
                attempts: attempts_of(names, moves),
            })
        },
        WorkerView::Opened(mount) => reached(target, moves, 0, mount),
        WorkerView::Authorised(mount) => {
            &&& reached(target, moves, 1, mount)
            &&& moves.last() matches WorkerMove::Checked { op, now } && op.authorised_at(now)
        },
        WorkerView::Settled { outcome, close } => {
            ||| {
                &&& n == names.len()
                &&& opened_in_vain(moves, n)
                &&& close is None
                &&& outcome == freeze_op::OutcomeView::Failed(
                    fsfreeze::FreezeStopView::Unreachable(
                        text::joined(attempts_of(names, moves), "; "@),
                    ),
                )
            }
            ||| {
                &&& refused(target, moves)
                &&& close == Some(moves[n - 2]->handle)
                &&& outcome == freeze_op::OutcomeView::NotAuthorized
            }
            ||| exists|mount: kernel::MountView|
                {
                    &&& #[trigger] issued(target, moves, mount)
                    &&& outcome == freeze_op::freeze_answered(mount, moves.last()->answer)
                    &&& close == if outcome is Frozen || outcome is Busy {
                        None
                    } else {
                        Some(mount.handle)
                    }
                }
        },
    }
}

/// Every worker opens the names of its target one after the other up to the
/// first that leads there, then makes its last check, then issues `FIFREEZE` if
/// that check authorised it. Its outcome is what the last of these came to.
pub proof fn law_a_worker_opens_then_checks_then_issues(
    target: freeze_plan::TargetView,
    moves: Seq<WorkerMove>,
)
    requires
        possible(target, moves),
    ensures
        told(target, moves, worker_of(target, moves)),
    decreases moves.len(),
{
    let names = drain::freeze_names(target);
    let worker = worker_of(target, moves);
    if moves.len() == 0 {
        assert(attempts_of(names, moves) =~= Seq::<Seq<char>>::empty());
    } else {
        let past = moves.drop_last();
        let before = worker_of(target, past);
        law_a_worker_opens_then_checks_then_issues(target, past);
        assert forall|n: int| opened_in_vain(past, n) implies #[trigger] opened_in_vain(
            moves,
            n,
        ) by {
            assert forall|j: int| 0 <= j < n implies (#[trigger] moves[j]) is OpenFailed by {
                assert(past[j] is OpenFailed);
            }
        }
        match moves.last() {
            WorkerMove::Opened { handle } => {
                assert(opened_in_vain(past, past.len() as int));
                assert(reached(target, moves, 0, worker->Opened_0));
            },
            WorkerMove::OpenFailed { err } => {
                assert(opened_in_vain(past, past.len() as int));
                assert(opened_in_vain(moves, past.len() as int));
                assert(opened_in_vain(moves, moves.len() as int));
                assert(before->Opening_0.after(err).attempts =~= attempts_of(names, moves));
            },
            WorkerMove::Checked { op, now } => {
                let mount = before->Opened_0;
                assert(past[past.len() - 1] == moves[moves.len() - 2]);
                assert(opened_in_vain(past, past.len() - 1));
                assert(reached(target, moves, 1, mount));
                if !op.authorised_at(now) {
                    assert(refused(target, moves));
                }
            },
            WorkerMove::Answered { answer } => {
                let mount = before->Authorised_0;
                assert(past[past.len() - 2] == moves[moves.len() - 3]);
                assert(past[past.len() - 1] == moves[moves.len() - 2]);
                assert(opened_in_vain(past, past.len() - 2));
                assert(issued(target, moves, mount));
            },
        }
    }
}

/// `FIFREEZE` is asked for only on a handle that was opened on the target's
/// device, through the first of its names that led there, and only right after
/// a check at which the operation authorised it.
pub proof fn law_an_ioctl_is_asked_for_only_while_authorised(
    target: freeze_plan::TargetView,
    moves: Seq<WorkerMove>,
)
    requires
        possible(target, moves),
        worker_of(target, moves).step() is Freeze,
    ensures
        ({
            let n = moves.len() as int;
            let handle = worker_of(target, moves).step()->handle;
            &&& 2 <= n <= drain::freeze_names(target).len() + 1
            &&& moves[n - 1] matches WorkerMove::Checked { op, now } && op.authorised_at(now)
            &&& moves[n - 2] == (WorkerMove::Opened { handle })
            &&& worker_of(target, moves) == WorkerView::Authorised(
                kernel::MountView {
                    handle,
                    mountpoint: drain::freeze_names(target)[n - 2],
                    dev: target.dev,
                },
            )
            &&& forall|j: int| 0 <= j < n - 2 ==> (#[trigger] moves[j]) is OpenFailed
        }),
{
    law_a_worker_opens_then_checks_then_issues(target, moves);
}

/// `FIFREEZE` is issued at most once, and last.
pub proof fn law_an_ioctl_is_issued_at_most_once(
    target: freeze_plan::TargetView,
    moves: Seq<WorkerMove>,
    k: int,
)
    requires
        possible(target, moves),
        0 <= k < moves.len(),
        moves[k] is Answered,
    ensures
        k == moves.len() - 1,
        worker_of(target, moves).step() is Done,
    decreases moves.len(),
{
    if k < moves.len() - 1 {
        law_an_ioctl_is_issued_at_most_once(target, moves.drop_last(), k);
    }
}

/// A worker for which no name leads to the target answers that it is
/// unreachable, naming the attempts, and issues nothing; so does one that is no
/// longer authorised at its last check, answering so.
pub proof fn law_nothing_is_issued_without_a_handle_and_leave(
    target: freeze_plan::TargetView,
    moves: Seq<WorkerMove>,
)
    requires
        possible(target, moves),
        worker_of(target, moves).step() is Done,
    ensures
        ({
            let names = drain::freeze_names(target);
            let n = moves.len() as int;
            let end = worker_of(target, moves);
            &&& opened_in_vain(moves, n) ==> {
                &&& n == names.len()
                &&& end->outcome == freeze_op::OutcomeView::Failed(
                    fsfreeze::FreezeStopView::Unreachable(
                        text::joined(attempts_of(names, moves), "; "@),
                    ),
                )
            }
            &&& moves.last() is Checked ==> refused(target, moves) && end->outcome
                == freeze_op::OutcomeView::NotAuthorized
            &&& !opened_in_vain(moves, n) && !(moves.last() is Checked) ==> exists|
                mount: kernel::MountView,
            |
                #[trigger] issued(target, moves, mount) && end->outcome
                    == freeze_op::freeze_answered(mount, moves.last()->answer)
        }),
{
    law_a_worker_opens_then_checks_then_issues(target, moves);
    let n = moves.len() as int;
    if opened_in_vain(moves, n) && n > 0 {
        assert(moves[n - 1] is OpenFailed);
    }
}

/// A worker ends: it opens no more than the names of its target, checks once
/// and issues once.
pub proof fn law_a_worker_ends(target: freeze_plan::TargetView, moves: Seq<WorkerMove>)
    requires
        possible(target, moves),
    ensures
        moves.len() <= drain::freeze_names(target).len() + 2,
{
    law_a_worker_opens_then_checks_then_issues(target, moves);
}

/// What is asked of a worker: the next name of its search, to be opened on the
/// target's device; then the last check; then `FIFREEZE` on the handle that
/// opened; then nothing.
pub proof fn law_what_is_asked_of_a_worker(
    search: drain::OpenView,
    mount: kernel::MountView,
    outcome: freeze_op::OutcomeView,
    close: Option<u64>,
)
    ensures
        search.attempts.len() < search.names.len() ==> WorkerView::Opening(search).step() == (
        WorkerStepView::Open {
            path: search.names[search.attempts.len() as int],
            dev: search.dev,
        }),
        WorkerView::Opened(mount).step() is Check,
        WorkerView::Authorised(mount).step() == (WorkerStepView::Freeze { handle: mount.handle }),
        (WorkerView::Settled { outcome, close }).step() is Done,
{
}

} // verus!
