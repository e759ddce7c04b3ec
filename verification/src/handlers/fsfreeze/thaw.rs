//! The walks that undo a freeze: the rollback of a freeze that was stopped,
//! and the thaw.

use vstd::multiset::Multiset;
use vstd::prelude::*;
use vstd::string::*;

use crate::freeze_plan::{FreezePlan, Target};
use crate::freeze_plan;
use crate::handlers::fsfreeze::drain::{Drained, OpenTarget, RecoveryPass};
use crate::handlers::fsfreeze::drain;
use crate::handlers::fsfreeze::{FreezeFailure, FreezeStop, ThawFailure};
use crate::handlers::fsfreeze;
use crate::kernel::{dev_string, KernelError, Mount};
use crate::kernel;
use crate::marker::{marker_gone, MarkerError};
use crate::marker;
use crate::text::lossy_text;
use crate::text;

verus! {

// ---------------------------------------------------------------------------
// Rollback
// ---------------------------------------------------------------------------

/// The failure to report once the handles are drained: an incomplete drain
/// leaves the marker alone; otherwise the marker was to be removed.
pub open spec fn rollback_failure(
    failed: Seq<char>,
    cause: fsfreeze::FreezeStopView,
    incomplete: Option<drain::IncompleteView>,
    removed: Result<(), marker::MarkerErrorView>,
) -> fsfreeze::FreezeFailureView {
    match incomplete {
        Some(it) => fsfreeze::FreezeFailureView::RollbackIncomplete {
            failed,
            cause,
            mountpoint: it.mountpoint,
            reason: it.reason,
        },
        None => if marker::gone(removed) {
            fsfreeze::FreezeFailureView::Hard { mountpoint: failed, cause }
        } else {
            fsfreeze::FreezeFailureView::MarkerRetained {
                failed,
                cause,
                marker: removed->Err_0,
            }
        },
    }
}

/// The end of a rollback, after the drain of every processed target.
#[derive(Debug)]
pub enum Rollback {
    /// A target may still be frozen: the marker stays, and this is reported.
    Incomplete(FreezeFailure),
    /// Everything was thawed: the marker is to be removed next.
    RemoveMarker(RolledBack),
}

/// A rollback that thawed everything.
#[derive(Debug)]
pub struct RolledBack {
    failed: String,
    cause: FreezeStop,
}

impl RolledBack {
    /// The target that stopped the freeze.
    pub closed spec fn failed(&self) -> Seq<char> {
        self.failed@
    }

    /// What stopped it.
    pub closed spec fn cause(&self) -> fsfreeze::FreezeStopView {
        self.cause@
    }

    /// The failure to report, after the attempt to remove the marker.
    pub fn finish(self, removed: Result<(), MarkerError>) -> (failure: FreezeFailure)
        ensures
            failure@ == rollback_failure(
                self.failed(),
                self.cause(),
                None,
                marker::removal_view(removed),
            ),
    {
        match marker_gone(removed) {
            Ok(()) => FreezeFailure::Hard { mountpoint: self.failed, cause: self.cause },
            Err(marker) => FreezeFailure::MarkerRetained {
                failed: self.failed,
                cause: self.cause,
                marker,
            },
        }
    }
}

/// Ends a rollback whose drains left `pass`: the handles to keep, and what to
/// do next. The marker is removed only when every drain is complete.
pub fn rollback(failed: String, cause: FreezeStop, pass: RecoveryPass) -> (end: (
    Vec<Mount>,
    Rollback,
))
    ensures
        end.0@ == pass.keep@,
        match (end.1, pass@.incomplete) {
            (Rollback::Incomplete(failure), Some(_)) => failure@ == rollback_failure(
                failed@,
                cause@,
                pass@.incomplete,
                Ok(()),
            ),
            (Rollback::RemoveMarker(rest), None) => rest.failed() == failed@ && rest.cause()
                == cause@,
            _ => false,
        },
{
    match pass.incomplete {
        Some(it) => (
            pass.keep,
            Rollback::Incomplete(
                FreezeFailure::RollbackIncomplete {
                    failed,
                    cause,
                    mountpoint: it.mountpoint,
                    reason: it.reason,
                },
            ),
        ),
        None => (pass.keep, Rollback::RemoveMarker(RolledBack { failed, cause })),
    }
}

// ---------------------------------------------------------------------------
// Thaw
// ---------------------------------------------------------------------------

/// What a thaw does next.
#[derive(Debug, PartialEq, Eq)]
pub enum ThawStep {
    /// Open this name, which must lead to this device.
    Open {
        path: Vec<u8>,
        dev: (u32, u32),
    },
    /// Drain the filesystem behind this handle.
    Drain {
        handle: u64,
    },
    /// Remove the marker.
    RemoveMarker,
    /// Nothing: the thaw has failed.
    Fail,
}

/// What a thaw does next, as a mathematical value.
pub ghost enum ThawStepView {
    Open { path: Seq<u8>, dev: (u32, u32) },
    Drain { handle: u64 },
    RemoveMarker,
    Fail,
}

impl View for ThawStep {
    type V = ThawStepView;

    open spec fn view(&self) -> ThawStepView {
        match self {
            ThawStep::Open { path, dev } => ThawStepView::Open { path: path@, dev: *dev },
            ThawStep::Drain { handle } => ThawStepView::Drain { handle: *handle },
            ThawStep::RemoveMarker => ThawStepView::RemoveMarker,
            ThawStep::Fail => ThawStepView::Fail,
        }
    }
}

/// What a thaw is busy with.
#[derive(Debug)]
enum Work {
    /// Looking for a name of a target.
    Opening(Vec<u8>, OpenTarget),
    /// Draining a handle.
    Draining(Mount),
    /// Every target and every handle was dealt with.
    Through,
}

/// What a thaw is busy with, as a mathematical value.
#[verifier::ext_equal]
pub ghost enum WorkView {
    Opening { mountpoint: Seq<u8>, search: drain::OpenView },
    Draining(kernel::MountView),
    Through,
}

/// A thaw: every target of the plan in forward order, then the handles that
/// the plan does not list.
///
/// A target is drained through the handle its freeze opened when there is one
/// for its device, otherwise through the first of its mount points that still
/// opens on its device. A target that cannot be thawed does not stop the
/// others: the first such failure is reported at the end and the marker stays.
/// When the mount table could not be read, every held handle is still drained,
/// and the read failure is then reported.
#[derive(Debug)]
pub struct ThawWalk {
    targets: Vec<Target>,
    at: usize,
    retained: Vec<Mount>,
    work: Work,
    thawed: u64,
    failure: Option<ThawFailure>,
    keep: Vec<Mount>,
    unread: Option<String>,
}

/// A thaw as a mathematical value.
#[verifier::ext_equal]
pub ghost struct WalkView {
    /// The targets of the plan that were not begun, in order.
    pub targets: Seq<freeze_plan::TargetView>,
    /// The handles that were not begun, deepest first.
    pub retained: Seq<kernel::MountView>,
    pub work: WorkView,
    /// Targets on which at least one `FITHAW` succeeded.
    pub thawed: nat,
    /// The first failure.
    pub failure: Option<fsfreeze::ThawFailureView>,
    /// Handles whose drain did not complete.
    pub keep: Seq<kernel::MountView>,
    /// Why the mount table could not be read.
    pub unread: Option<Seq<char>>,
}

/// The first handle on a device, if any.
pub open spec fn handle_on(retained: Seq<kernel::MountView>, dev: (u32, u32)) -> Option<int>
    decreases retained.len(),
{
    if retained.len() == 0 {
        None
    } else {
        match handle_on(retained.drop_last(), dev) {
            Some(i) => Some(i),
            None => if retained.last().dev == dev {
                Some(retained.len() - 1)
            } else {
                None
            },
        }
    }
}

/// Why a target that no name leads to may still be frozen.
pub open spec fn unreachable_text(search: drain::OpenView) -> Seq<char> {
    "no mount point leads to "@ + kernel::dev_text(search.dev) + " ("@ + text::joined(
        search.attempts,
        "; "@,
    ) + "); no FITHAW issued"@
}

impl WalkView {
    /// A thaw about to begin.
    pub open spec fn over(
        targets: Seq<freeze_plan::TargetView>,
        held: Seq<kernel::MountView>,
        unread: Option<Seq<char>>,
    ) -> WalkView {
        WalkView {
            targets,
            retained: held,
            work: WorkView::Through,
            thawed: 0,
            failure: None,
            keep: Seq::empty(),
            unread,
        }
    }

    /// Begins the next target, or the next handle that the plan does not list:
    /// the last held of them, so that they too go in forward order.
    pub open spec fn begin(self) -> WalkView {
        if self.targets.len() > 0 {
            let target = self.targets[0];
            let rest = self.targets.skip(1);
            match handle_on(self.retained, target.dev) {
                Some(i) => WalkView {
                    targets: rest,
                    retained: self.retained.remove(i),
                    work: WorkView::Draining(self.retained[i]),
                    ..self
                },
                None => WalkView {
                    targets: rest,
                    work: WorkView::Opening {
                        mountpoint: target.mountpoint,
                        search: drain::OpenView::over(target.mountpoints(), target.dev),
                    },
                    ..self
                },
            }
        } else if self.retained.len() > 0 {
            WalkView {
                retained: self.retained.drop_last(),
                work: WorkView::Draining(self.retained.last()),
                ..self
            }
        } else {
            WalkView { work: WorkView::Through, ..self }
        }
    }

    /// The walk with a failure: the first one stays.
    pub open spec fn failing(self, mountpoint: Seq<u8>, reason: Seq<char>) -> WalkView {
        if self.failure is Some {
            self
        } else {
            WalkView {
                failure: Some(
                    fsfreeze::ThawFailureView::Incomplete {
                        mountpoint: text::lossy(mountpoint),
                        reason,
                    },
                ),
                ..self
            }
        }
    }

    /// A name opened.
    pub open spec fn opened(self, handle: u64) -> WalkView {
        WalkView { work: WorkView::Draining(self.work->search.mount(handle)), ..self }
    }

    /// A name did not lead to the target.
    pub open spec fn open_failed(self, err: KernelError) -> WalkView {
        let search = self.work->search.after(err);
        if search.path() is Some {
            WalkView {
                work: WorkView::Opening { mountpoint: self.work->mountpoint, search },
                ..self
            }
        } else {
            self.failing(self.work->mountpoint, unreachable_text(search)).begin()
        }
    }

    /// A handle was drained.
    pub open spec fn drained(self, drained: Drained) -> WalkView {
        let mount = self.work->Draining_0;
        let counted = WalkView {
            thawed: if drained.successes > 0 {
                self.thawed + 1
            } else {
                self.thawed
            },
            ..self
        };
        (match drained.reason() {
            Some(reason) => WalkView {
                keep: self.keep.push(mount),
                ..counted.failing(mount.mountpoint, reason)
            },
            None => counted,
        }).begin()
    }

    /// What is due.
    pub open spec fn step(self) -> ThawStepView {
        match self.work {
            WorkView::Opening { mountpoint, search } => ThawStepView::Open {
                path: search.path()->0,
                dev: search.dev,
            },
            WorkView::Draining(mount) => ThawStepView::Drain { handle: mount.handle },
            WorkView::Through => if self.failure is Some || self.unread is Some {
                ThawStepView::Fail
            } else {
                ThawStepView::RemoveMarker
            },
        }
    }

    /// The outcome, once every target and handle was dealt with and the marker
    /// was to be removed.
    pub open spec fn outcome(self, removed: Result<(), marker::MarkerErrorView>) -> Result<
        nat,
        fsfreeze::ThawFailureView,
    > {
        match self.failure {
            Some(failure) => Err(failure),
            None => match self.unread {
                Some(why) => Err(fsfreeze::ThawFailureView::Plan(why)),
                None => if marker::gone(removed) {
                    Ok(self.thawed)
                } else {
                    Err(fsfreeze::ThawFailureView::Marker(removed->Err_0))
                },
            },
        }
    }

    /// What is left to begin, and what is in hand.
    pub open spec fn left(self) -> nat {
        self.targets.len() + self.retained.len() + (if self.work is Through {
            0nat
        } else {
            1
        })
    }

    /// What holds of every walk.
    pub open spec fn valid(self) -> bool {
        &&& self.work matches WorkView::Opening { mountpoint, search } ==> search.path() is Some
        &&& self.work is Through ==> self.targets.len() == 0 && self.retained.len() == 0
        &&& self.keep.len() > 0 ==> self.failure is Some
    }
}

/// A plan, or why there is none: its targets.
pub open spec fn plan_targets(plan: Result<FreezePlan, String>) -> Seq<freeze_plan::TargetView> {
    match plan {
        Ok(plan) => plan.target_list(),
        Err(_) => Seq::empty(),
    }
}

/// A plan, or why there is none: why.
pub open spec fn plan_unread(plan: Result<FreezePlan, String>) -> Option<Seq<char>> {
    match plan {
        Ok(_) => None,
        Err(why) => Some(why@),
    }
}

/// The outcome of a thaw, as a mathematical value.
pub open spec fn outcome_view(outcome: Result<u64, ThawFailure>) -> Result<
    nat,
    fsfreeze::ThawFailureView,
> {
    match outcome {
        Ok(thawed) => Ok(thawed as nat),
        Err(failure) => Err(failure@),
    }
}

impl Work {
    spec fn seen(self) -> WorkView {
        match self {
            Work::Opening(mountpoint, search) => WorkView::Opening {
                mountpoint: mountpoint@,
                search: search@,
            },
            Work::Draining(mount) => WorkView::Draining(mount@),
            Work::Through => WorkView::Through,
        }
    }
}

impl View for ThawWalk {
    type V = WalkView;

    closed spec fn view(&self) -> WalkView {
        WalkView {
            targets: freeze_plan::targets_view(self.targets@).skip(self.at as int),
            retained: kernel::mounts_view(self.retained@),
            work: self.work.seen(),
            thawed: self.thawed as nat,
            failure: match self.failure {
                Some(failure) => Some(failure@),
                None => None,
            },
            keep: kernel::mounts_view(self.keep@),
            unread: fsfreeze::text_view(self.unread),
        }
    }
}

impl ThawWalk {
    /// What holds of every thaw.
    pub closed spec fn wf(&self) -> bool {
        &&& self.at <= self.targets@.len()
        &&& self.thawed + self@.left() <= u64::MAX
        &&& self@.valid()
    }

    /// A thaw in order is one that the laws speak of.
    pub proof fn lemma_valid(&self)
        requires
            self.wf(),
        ensures
            self@.valid(),
    {
    }

    /// Begins a thaw over the plan, or over the held handles alone when the
    /// mount table could not be read.
    pub fn new(plan: Result<FreezePlan, String>, held: Vec<Mount>) -> (walk: ThawWalk)
        requires
            plan_targets(plan).len() + held@.len() < u64::MAX,
        ensures
            walk@ == WalkView::over(
                plan_targets(plan),
                kernel::mounts_view(held@),
                plan_unread(plan),
            ).begin(),
            walk.wf(),
    {
        let ghost targets = plan_targets(plan);
        let ghost unread = plan_unread(plan);
        let mut walk = match plan {
            Ok(plan) => ThawWalk {
                targets: plan.targets,
                at: 0,
                retained: held,
                work: Work::Through,
                thawed: 0,
                failure: None,
                keep: Vec::new(),
                unread: None,
            },
            Err(why) => ThawWalk {
                targets: Vec::new(),
                at: 0,
                retained: held,
                work: Work::Through,
                thawed: 0,
                failure: None,
                keep: Vec::new(),
                unread: Some(why),
            },
        };
        proof {
            assert(walk@ =~= WalkView::over(targets, kernel::mounts_view(held@), unread));
        }
        walk.begin();
        walk
    }

    fn begin(&mut self)
        requires
            old(self).at <= old(self).targets@.len(),
            old(self).thawed + old(self)@.targets.len() + old(self)@.retained.len() <= u64::MAX,
            old(self)@.keep.len() > 0 ==> old(self)@.failure is Some,
        ensures
            final(self)@ == old(self)@.begin(),
            final(self).wf(),
    {
        let ghost before = self@;
        if self.at < self.targets.len() {
            let found = find_handle(&self.retained, self.targets[self.at].dev);
            match found {
                Some(i) => {
                    let mount = self.retained.remove(i);
                    self.work = Work::Draining(mount);
                    proof {
                        assert(self@.retained =~= before.retained.remove(i as int));
                    }
                },
                None => {
                    let target = &self.targets[self.at];
                    let search = OpenTarget::for_thaw(target);
                    let name = freeze_plan::clone_path(&target.mountpoint);
                    self.work = Work::Opening(name, search);
                },
            }
            self.at = self.at + 1;
            proof {
                assert(self@.targets =~= before.targets.skip(1));
                assert(self@ =~= before.begin());
            }
        } else {
            match self.retained.pop() {
                Some(mount) => {
                    self.work = Work::Draining(mount);
                    proof {
                        assert(self@.retained =~= before.retained.drop_last());
                    }
                },
                None => {
                    self.work = Work::Through;
                },
            }
            proof {
                assert(self@ =~= before.begin());
            }
        }
    }

    /// What is due next.
    pub fn step(&self) -> (step: ThawStep)
        requires
            self.wf(),
        ensures
            step@ == self@.step(),
    {
        match &self.work {
            Work::Opening(_, search) => match search.path() {
                Some(path) => ThawStep::Open {
                    path: freeze_plan::clone_path(path),
                    dev: search.dev(),
                },
                None => ThawStep::Fail,
            },
            Work::Draining(mount) => ThawStep::Drain { handle: mount.handle },
            Work::Through => if self.failure.is_some() || self.unread.is_some() {
                ThawStep::Fail
            } else {
                ThawStep::RemoveMarker
            },
        }
    }

    /// The name opened, as `handle`.
    pub fn opened(&mut self, handle: u64)
        requires
            old(self).wf(),
            old(self)@.work is Opening,
        ensures
            final(self)@ == old(self)@.opened(handle),
            final(self).wf(),
    {
        let mount = match &self.work {
            Work::Opening(_, search) => Some(search.opened(handle)),
            _ => None,
        };
        if let Some(mount) = mount {
            self.work = Work::Draining(mount);
        }
    }

    fn fail(&mut self, mountpoint: &[u8], reason: String)
        requires
            old(self).at <= old(self).targets@.len(),
        ensures
            final(self)@ == old(self)@.failing(mountpoint@, reason@),
            final(self).at == old(self).at,
            final(self).targets == old(self).targets,
            final(self).work == old(self).work,
    {
        let ghost before = self@;
        if self.failure.is_none() {
            self.failure = Some(
                ThawFailure::Incomplete { mountpoint: lossy_text(mountpoint), reason },
            );
        }
        proof {
            assert(self@ =~= before.failing(mountpoint@, reason@));
        }
    }

    /// The name did not lead to the target.
    pub fn open_failed(&mut self, err: &KernelError)
        requires
            old(self).wf(),
            old(self)@.work is Opening,
        ensures
            final(self)@ == old(self)@.open_failed(*err),
            final(self).wf(),
    {
        let ghost before = self@;
        let mut work = Work::Through;
        std::mem::swap(&mut work, &mut self.work);
        if let Work::Opening(mountpoint, search) = work {
            let mut search = search;
            search.failed(err);
            if search.path().is_some() {
                self.work = Work::Opening(mountpoint, search);
            } else {
                let reason = "no mount point leads to ".to_owned().concat(
                    dev_string(search.dev()).as_str(),
                ).concat(" (").concat(search.attempts().as_str()).concat(
                    "); no FITHAW issued",
                );
                self.fail(&mountpoint, reason);
                proof {
                    let same = before.failing(mountpoint@, reason@);
                    assert(self@ =~= WalkView { work: WorkView::Through, ..same });
                    assert(self@.begin() == same.begin());
                }
                self.begin();
            }
        }
    }

    /// The handle was drained.
    pub fn drained(&mut self, drained: &Drained)
        requires
            old(self).wf(),
            old(self)@.work is Draining,
        ensures
            final(self)@ == old(self)@.drained(*drained),
            final(self).wf(),
    {
        let ghost before = self@;
        let mut work = Work::Through;
        std::mem::swap(&mut work, &mut self.work);
        if let Work::Draining(mount) = work {
            if drained.successes > 0 {
                self.thawed = self.thawed + 1;
            }
            if let Some(reason) = drained.incomplete() {
                self.fail(&mount.mountpoint, reason);
                self.keep.push(mount);
                proof {
                    assert(self@.keep =~= before.keep.push(mount@));
                }
            }
            proof {
                let counted = WalkView { thawed: self.thawed as nat, ..before };
                let mid = match drained.reason() {
                    Some(reason) => WalkView {
                        keep: before.keep.push(mount@),
                        ..counted.failing(mount@.mountpoint, reason)
                    },
                    None => counted,
                };
                assert(self@ =~= WalkView { work: WorkView::Through, ..mid });
                assert(self@.begin() == mid.begin());
            }
            self.begin();
        }
    }

    /// The outcome, and the handles to keep, once nothing is left to do.
    /// `removed` says what came of removing the marker; it is looked at only
    /// when its removal was due.
    pub fn finish(self, removed: Result<(), MarkerError>) -> (end: (
        Result<u64, ThawFailure>,
        Vec<Mount>,
    ))
        requires
            self.wf(),
            self@.work is Through,
        ensures
            outcome_view(end.0) == self@.outcome(marker::removal_view(removed)),
            kernel::mounts_view(end.1@) == self@.keep,
    {
        let outcome = match self.failure {
            Some(failure) => Err(failure),
            None => match self.unread {
                Some(why) => Err(ThawFailure::Plan(why)),
                None => match marker_gone(removed) {
                    Ok(()) => Ok(self.thawed),
                    Err(err) => Err(ThawFailure::Marker(err)),
                },
            },
        };
        (outcome, self.keep)
    }
}

/// The first handle on a device.
fn find_handle(retained: &Vec<Mount>, dev: (u32, u32)) -> (found: Option<usize>)
    ensures
        match found {
            Some(i) => handle_on(kernel::mounts_view(retained@), dev) == Some(i as int) && i
                < retained@.len(),
            None => handle_on(kernel::mounts_view(retained@), dev) is None,
        },
{
    let ghost all = kernel::mounts_view(retained@);
    for i in 0..retained.len()
        invariant
            all == kernel::mounts_view(retained@),
            handle_on(all.take(i as int), dev) is None,
    {
        proof {
            assert(all.take(i + 1).drop_last() =~= all.take(i as int));
            assert(all.take(i + 1).last() == retained@[i as int]@);
        }
        if retained[i].dev.0 == dev.0 && retained[i].dev.1 == dev.1 {
            proof {
                lemma_handle_on_prefix(all, dev, i + 1);
            }
            return Some(i);
        }
    }
    proof {
        assert(all.take(retained@.len() as int) =~= all);
    }
    None
}

proof fn lemma_handle_on_prefix(retained: Seq<kernel::MountView>, dev: (u32, u32), n: int)
    requires
        0 <= n <= retained.len(),
        handle_on(retained.take(n), dev) is Some,
    ensures
        handle_on(retained, dev) == handle_on(retained.take(n), dev),
    decreases retained.len(),
{
    if n == retained.len() {
        assert(retained.take(n) =~= retained);
    } else {
        assert(retained.drop_last().take(n) =~= retained.take(n));
        lemma_handle_on_prefix(retained.drop_last(), dev, n);
    }
}

// ---------------------------------------------------------------------------
// Laws
// ---------------------------------------------------------------------------

/// Two walks have the same things left to do and in hand.
pub open spec fn same_course(a: WalkView, b: WalkView) -> bool {
    a.targets == b.targets && a.retained == b.retained && a.work == b.work
}

/// A failure never stops a thaw: whatever a drain or a name came to, the walk
/// goes on with the same targets and handles in the same order as if it had
/// gone well.
pub proof fn law_a_failure_does_not_stop_the_thaw(walk: WalkView, one: Drained, other: Drained)
    requires
        walk.work is Draining,
    ensures
        same_course(walk.drained(one), walk.drained(other)),
{
}

/// A target that no name leads to is passed over, and the walk goes on as it
/// does after a drained one.
pub proof fn law_an_unreachable_target_does_not_stop_the_thaw(
    walk: WalkView,
    err: KernelError,
    handle: u64,
    drained: Drained,
)
    requires
        walk.work is Opening,
        walk.work->search.after(err).path() is None,
    ensures
        same_course(walk.open_failed(err), walk.opened(handle).drained(drained)),
        walk.open_failed(err).failure is Some,
{
}

/// A thaw comes to an end: every drain and every target passed over leaves
/// less to do, and every other failed name fewer names.
pub proof fn law_a_thaw_ends(walk: WalkView, drained: Drained, err: KernelError)
    requires
        walk.valid(),
    ensures
        walk.work is Draining ==> walk.drained(drained).left() < walk.left(),
        walk.work is Opening ==> walk.open_failed(err).left() < walk.left() || (walk.open_failed(
            err,
        ).left() == walk.left() && walk.open_failed(err).work is Opening && walk.open_failed(
            err,
        ).work->search.attempts.len() == walk.work->search.attempts.len() + 1
            && walk.open_failed(err).work->search.names == walk.work->search.names),
{
    if walk.work is Draining {
        let mid = walk.drained(drained);
        lemma_begin_left(walk, mid);
    } else if walk.work is Opening {
        let search = walk.work->search.after(err);
        if search.path() is None {
            lemma_begin_left(walk, walk.open_failed(err));
        }
    }
}

proof fn lemma_begin_left(walk: WalkView, after: WalkView)
    requires
        same_course(after, walk.begin()),
    ensures
        after.left() <= walk.targets.len() + walk.retained.len(),
{
    if walk.targets.len() > 0 {
        match handle_on(walk.retained, walk.targets[0].dev) {
            Some(i) => {
                lemma_handle_on(walk.retained, walk.targets[0].dev);
            },
            None => {},
        }
    }
}

proof fn lemma_handle_on(retained: Seq<kernel::MountView>, dev: (u32, u32))
    ensures
        match handle_on(retained, dev) {
            Some(i) => 0 <= i < retained.len() && retained[i].dev == dev,
            None => forall|i: int| 0 <= i < retained.len() ==> (#[trigger] retained[i]).dev != dev,
        },
    decreases retained.len(),
{
    if retained.len() > 0 {
        lemma_handle_on(retained.drop_last(), dev);
        assert forall|i: int|
            0 <= i < retained.len() && handle_on(retained, dev) is None implies (
        #[trigger] retained[i]).dev != dev by {
            if i < retained.len() - 1 {
                assert(retained.drop_last()[i] == retained[i]);
            }
        }
    }
}

/// The handles of a walk: those not begun, the one in hand, and those kept.
pub open spec fn handles(walk: WalkView) -> Multiset<kernel::MountView> {
    walk.retained.to_multiset().add(
        match walk.work {
            WorkView::Draining(mount) => Multiset::singleton(mount),
            _ => Multiset::empty(),
        },
    ).add(walk.keep.to_multiset())
}

/// No handle is lost: a drain takes a handle out of the walk exactly when it is
/// complete, and keeps it otherwise; every other handle stays.
pub proof fn law_a_handle_leaves_only_when_drained(walk: WalkView, drained: Drained)
    requires
        walk.valid(),
        walk.work is Draining,
    ensures
        handles(walk.drained(drained)) == if drained.reason() is Some {
            handles(walk)
        } else {
            handles(walk).remove(walk.work->Draining_0)
        },
{
    let mount = walk.work->Draining_0;
    let after = walk.drained(drained);
    broadcast use vstd::seq_lib::group_to_multiset_ensures;

    lemma_begin_keeps_handles(walk, after);
    assert(after.keep.to_multiset() =~= if drained.reason() is Some {
        walk.keep.to_multiset().insert(mount)
    } else {
        walk.keep.to_multiset()
    });
    assert(handles(after) =~= if drained.reason() is Some {
        handles(walk)
    } else {
        handles(walk).remove(mount)
    });
}

proof fn lemma_begin_keeps_handles(walk: WalkView, after: WalkView)
    requires
        same_course(after, walk.begin()),
    ensures
        after.retained.to_multiset().add(
            match after.work {
                WorkView::Draining(mount) => Multiset::singleton(mount),
                _ => Multiset::empty(),
            },
        ) == walk.retained.to_multiset(),
{
    broadcast use vstd::seq_lib::group_to_multiset_ensures;

    if walk.targets.len() > 0 {
        lemma_handle_on(walk.retained, walk.targets[0].dev);
        match handle_on(walk.retained, walk.targets[0].dev) {
            Some(i) => {
                assert(after.retained == walk.retained.remove(i));
                assert(after.retained.to_multiset().add(Multiset::singleton(walk.retained[i]))
                    =~= walk.retained.to_multiset());
            },
            None => {
                assert(after.retained.to_multiset().add(Multiset::empty())
                    =~= walk.retained.to_multiset());
            },
        }
    } else if walk.retained.len() > 0 {
        assert(walk.retained =~= after.retained.push(walk.retained.last()));
        assert(after.retained.to_multiset().add(Multiset::singleton(walk.retained.last()))
            =~= walk.retained.to_multiset());
    } else {
        assert(after.retained.to_multiset().add(Multiset::empty())
            =~= walk.retained.to_multiset());
    }
}

/// The marker is removed last, and only after a thaw that dealt with every
/// target and every handle without a failure and with the mount table read; a
/// thaw succeeds exactly when the marker is then gone.
pub proof fn law_the_marker_outlives_an_incomplete_thaw(
    walk: WalkView,
    removed: Result<(), marker::MarkerErrorView>,
)
    requires
        walk.valid(),
    ensures
        walk.step() is RemoveMarker ==> walk.left() == 0 && walk.failure is None && walk.unread
            is None && walk.keep.len() == 0,
        walk.work is Through ==> (walk.outcome(removed) is Ok <==> walk.step() is RemoveMarker
            && marker::gone(removed)),
{
}

/// The handle that is used for a device is the first one held on it; there is
/// none if and only if none is held on it.
pub proof fn law_the_first_handle_on_a_device(
    retained: Seq<kernel::MountView>,
    dev: (u32, u32),
)
    ensures
        handle_on(retained, dev) matches Some(i) ==> {
            &&& 0 <= i < retained.len()
            &&& retained[i].dev == dev
            &&& forall|j: int| 0 <= j < i ==> (#[trigger] retained[j]).dev != dev
        },
        handle_on(retained, dev) is None <==> (forall|j: int|
            0 <= j < retained.len() ==> (#[trigger] retained[j]).dev != dev),
    decreases retained.len(),
{
    if retained.len() > 0 {
        let front = retained.drop_last();
        law_the_first_handle_on_a_device(front, dev);
        match handle_on(front, dev) {
            Some(i) => {
                assert(retained[i] == front[i]);
                assert forall|j: int| 0 <= j < i implies (#[trigger] retained[j]).dev != dev by {
                    assert(front[j].dev != dev);
                }
            },
            None => {
                assert forall|j: int| 0 <= j < retained.len() - 1 implies (
                #[trigger] retained[j]).dev != dev by {
                    assert(front[j].dev != dev);
                }
                assert(retained.last() == retained[retained.len() - 1]);
            },
        }
    }
}

/// What a thaw takes up next. The targets go in the order of the plan: each
/// through the first handle held on its device, or else by its mount point and
/// then its aliases. Then the handles that are left go, the last held first.
/// Then the walk is through. Nothing that was counted, kept or told changes.
pub proof fn law_what_a_thaw_takes_up_next(walk: WalkView, i: int)
    ensures
        ({
            let next = walk.begin();
            let target = walk.targets[0];
            &&& next.thawed == walk.thawed
            &&& next.failure == walk.failure
            &&& next.keep == walk.keep
            &&& next.unread == walk.unread
            &&& walk.targets.len() > 0 ==> next.targets == walk.targets.skip(1)
            &&& walk.targets.len() > 0 && 0 <= i < walk.retained.len() && walk.retained[i].dev
                == target.dev && (forall|j: int|
                0 <= j < i ==> (#[trigger] walk.retained[j]).dev != target.dev) ==> next.work
                == WorkView::Draining(walk.retained[i]) && next.retained == walk.retained.remove(i)
            &&& walk.targets.len() > 0 && (forall|j: int|
                0 <= j < walk.retained.len() ==> (#[trigger] walk.retained[j]).dev != target.dev)
                ==> next.retained == walk.retained && next.work == (WorkView::Opening {
                mountpoint: target.mountpoint,
                search: drain::OpenView {
                    names: seq![target.mountpoint] + target.aliases,
                    dev: target.dev,
                    attempts: Seq::empty(),
                },
            })
            &&& walk.targets.len() == 0 && walk.retained.len() > 0 ==> next.work
                == WorkView::Draining(walk.retained[walk.retained.len() - 1]) && next.retained
                == walk.retained.take(walk.retained.len() - 1) && next.targets == walk.targets
            &&& walk.targets.len() == 0 && walk.retained.len() == 0 ==> next.work
                is Through && next.targets == walk.targets && next.retained == walk.retained
        }),
{
    if walk.targets.len() > 0 {
        let dev = walk.targets[0].dev;
        law_the_first_handle_on_a_device(walk.retained, dev);
        if 0 <= i < walk.retained.len() && walk.retained[i].dev == dev && (forall|j: int|
            0 <= j < i ==> (#[trigger] walk.retained[j]).dev != dev) {
            let k = handle_on(walk.retained, dev)->0;
            assert(k <= i);
            assert(i <= k);
        }
    } else if walk.retained.len() > 0 {
        assert(walk.retained.drop_last() =~= walk.retained.take(walk.retained.len() - 1));
    }
}

/// What a drain adds to a thaw: it counts if a call succeeded. Where it did not
/// complete, its handle is kept, and its target and reason are what the thaw
/// tells, unless it has something to tell already.
pub proof fn law_what_a_drain_adds(walk: WalkView, drained: Drained)
    requires
        walk.work is Draining,
    ensures
        ({
            let after = walk.drained(drained);
            let mount = walk.work->Draining_0;
            &&& drained.successes > 0 ==> after.thawed == walk.thawed + 1
            &&& drained.successes == 0 ==> after.thawed == walk.thawed
            &&& drained.reason() is None ==> after.keep == walk.keep && after.failure
                == walk.failure
            &&& drained.reason() is Some ==> after.keep == walk.keep.push(mount)
            &&& drained.reason() is Some && walk.failure is Some ==> after.failure == walk.failure
            &&& drained.reason() is Some && walk.failure is None ==> after.failure == Some(
                fsfreeze::ThawFailureView::Incomplete {
                    mountpoint: text::lossy(mount.mountpoint),
                    reason: drained.reason()->0,
                },
            )
            &&& after.unread == walk.unread
        }),
{
    law_what_a_thaw_takes_up_next(walk, 0);
}

/// What a name that does not lead to its target adds to a thaw: nothing while
/// another is left to try; otherwise the target and what was found at each name
/// are what the thaw tells, unless it has something to tell already.
pub proof fn law_what_a_failed_name_adds(walk: WalkView, err: KernelError)
    requires
        walk.work is Opening,
        walk.work->search.attempts.len() < walk.work->search.names.len(),
    ensures
        ({
            let after = walk.open_failed(err);
            let search = walk.work->search;
            let at = search.attempts.len() as int;
            let said = search.attempts.push(text::lossy(search.names[at]) + ": "@ + err.text());
            &&& after.thawed == walk.thawed
            &&& after.keep == walk.keep
            &&& after.unread == walk.unread
            &&& at + 1 < search.names.len() ==> after.failure == walk.failure && after.targets
                == walk.targets && after.retained == walk.retained && after.work == (
            WorkView::Opening {
                mountpoint: walk.work->mountpoint,
                search: drain::OpenView { attempts: said, ..search },
            })
            &&& at + 1 == search.names.len() && walk.failure is Some ==> after.failure
                == walk.failure
            &&& at + 1 == search.names.len() && walk.failure is None ==> after.failure == Some(
                fsfreeze::ThawFailureView::Incomplete {
                    mountpoint: text::lossy(walk.work->mountpoint),
                    reason: "no mount point leads to "@ + kernel::dev_text(search.dev) + " ("@
                        + text::joined(said, "; "@) + "); no FITHAW issued"@,
                },
            )
        }),
{
}

/// A name that opens is drained: through its handle, under the name and the
/// device that it was opened for.
pub proof fn law_a_name_that_opens_is_drained(walk: WalkView, handle: u64)
    requires
        walk.work is Opening,
        walk.work->search.attempts.len() < walk.work->search.names.len(),
    ensures
        ({
            let search = walk.work->search;
            let name = search.names[search.attempts.len() as int];
            &&& walk.step() == (ThawStepView::Open { path: name, dev: search.dev })
            &&& walk.opened(handle).work == WorkView::Draining(
                kernel::MountView { handle, mountpoint: name, dev: search.dev },
            )
            &&& walk.opened(handle).step() == ThawStepView::Drain { handle }
            &&& walk.opened(handle).targets == walk.targets
            &&& walk.opened(handle).retained == walk.retained
            &&& walk.opened(handle).thawed == walk.thawed
            &&& walk.opened(handle).failure == walk.failure
            &&& walk.opened(handle).keep == walk.keep
            &&& walk.opened(handle).unread == walk.unread
        }),
{
}

/// What a thaw that is through comes to. The first failure is told if there was
/// one; else that the mount table could not be read; else why the marker could
/// not be removed; else how many targets were thawed.
pub proof fn law_what_a_thaw_comes_to(
    walk: WalkView,
    removed: Result<(), marker::MarkerErrorView>,
)
    ensures
        walk.failure is Some ==> walk.outcome(removed) == Err::<nat, fsfreeze::ThawFailureView>(
            walk.failure->0,
        ),
        walk.failure is None && walk.unread is Some ==> walk.outcome(removed) == Err::<
            nat,
            fsfreeze::ThawFailureView,
        >(fsfreeze::ThawFailureView::Plan(walk.unread->0)),
        walk.failure is None && walk.unread is None && removed is Err && !(removed->Err_0
            is Absent) ==> walk.outcome(removed) == Err::<nat, fsfreeze::ThawFailureView>(
            fsfreeze::ThawFailureView::Marker(removed->Err_0),
        ),
        walk.failure is None && walk.unread is None && (removed is Ok || removed->Err_0 is Absent)
            ==> walk.outcome(removed) == Ok::<nat, fsfreeze::ThawFailureView>(walk.thawed),
        walk.work is Through ==> (walk.step() is RemoveMarker <==> walk.failure is None
            && walk.unread is None),
        walk.work is Through && !(walk.step() is RemoveMarker) ==> walk.step() is Fail,
{
}

/// What a freeze that was rolled back is told as: that the rollback is
/// incomplete where a drain is; else that the marker is still there where it
/// is; else that the freeze failed. Each tells the target and what stopped it.
pub proof fn law_what_a_rollback_is_told_as(
    failed: Seq<char>,
    cause: fsfreeze::FreezeStopView,
    incomplete: Option<drain::IncompleteView>,
    removed: Result<(), marker::MarkerErrorView>,
)
    ensures
        ({
            let told = rollback_failure(failed, cause, incomplete, removed);
            &&& incomplete matches Some(it) ==> told == (
            fsfreeze::FreezeFailureView::RollbackIncomplete {
                failed,
                cause,
                mountpoint: it.mountpoint,
                reason: it.reason,
            })
            &&& incomplete is None && removed is Err && !(removed->Err_0 is Absent) ==> told == (
            fsfreeze::FreezeFailureView::MarkerRetained { failed, cause, marker: removed->Err_0 })
            &&& incomplete is None && (removed is Ok || removed->Err_0 is Absent) ==> told == (
            fsfreeze::FreezeFailureView::Hard { mountpoint: failed, cause })
        }),
{
}

/// What a thaw begins with: the targets of the plan and every handle, nothing
/// counted, kept or told; without a plan, the handles alone, and why there is
/// none.
pub proof fn law_what_a_thaw_begins_with(
    plan: Result<FreezePlan, String>,
    held: Seq<kernel::MountView>,
)
    ensures
        ({
            let walk = WalkView::over(plan_targets(plan), held, plan_unread(plan));
            &&& walk.retained == held
            &&& walk.thawed == 0
            &&& walk.failure is None
            &&& walk.keep.len() == 0
            &&& plan matches Ok(plan) ==> walk.targets == plan.target_list() && walk.unread is None
            &&& plan matches Err(why) ==> walk.targets.len() == 0 && walk.unread == Some(why@)
        }),
{
}

} // verus!
