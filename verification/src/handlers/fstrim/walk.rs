//! The walk of `guest-fstrim` over a plan: which mount point is opened next,
//! what `FITRIM` is asked for, and what is reported.
//!
//! A target is opened on its planned device through the first of its mount
//! points that still leads there. `FITRIM` is asked for on that handle, once.
//! A target that none of them opens on is reported without an ioctl. Whatever
//! becomes of a target, the next one has its turn.

use vstd::prelude::*;

use crate::freeze_plan::FreezePlan;
use crate::freeze_plan;
use crate::handlers::fsfreeze::drain::OpenTarget;
use crate::handlers::fsfreeze::drain;
use crate::handlers::fstrim::{trim_plan, TrimOutcome, TrimResponse, Trimmed};
use crate::handlers::fstrim;
use crate::kernel::{KernelError, Mount};
use crate::kernel;
use crate::text;

verus! {

/// What a trim does next.
#[derive(Debug, PartialEq, Eq)]
pub enum TrimStep {
    /// Open this mount point on this device.
    Open {
        /// The mount point.
        path: Vec<u8>,
        /// The planned `(major, minor)`.
        dev: (u32, u32),
    },
    /// Ask `FITRIM` of this handle, with this minimum, and close it.
    Trim {
        /// The handle.
        handle: u64,
        /// The requested minimum extent.
        minimum: u64,
    },
    /// Nothing: every target had its turn.
    Done,
}

/// What a trim does next, as a mathematical value.
#[verifier::ext_equal]
pub ghost enum TrimStepView {
    Open { path: Seq<u8>, dev: (u32, u32) },
    Trim { handle: u64, minimum: u64 },
    Done,
}

impl View for TrimStep {
    type V = TrimStepView;

    open spec fn view(&self) -> TrimStepView {
        match self {
            TrimStep::Open { path, dev } => TrimStepView::Open { path: path@, dev: *dev },
            TrimStep::Trim { handle, minimum } => TrimStepView::Trim {
                handle: *handle,
                minimum: *minimum,
            },
            TrimStep::Done => TrimStepView::Done,
        }
    }
}

#[derive(Debug)]
enum Work {
    Opening(OpenTarget),
    Opened(Mount),
    Through,
}

/// What is in hand.
#[verifier::ext_equal]
pub ghost enum TrimWorkView {
    /// Looking for a name of the target.
    Opening(drain::OpenView),
    /// A name opened.
    Opened(kernel::MountView),
    /// Every target had its turn.
    Through,
}

/// A trim under way.
#[derive(Debug)]
pub struct TrimWalk {
    plan: FreezePlan,
    minimum: u64,
    outcomes: Vec<TrimOutcome>,
    work: Work,
}

/// A trim as a mathematical value: the targets in mount order, and what came of
/// those that had their turn.
#[verifier::ext_equal]
pub ghost struct TrimView {
    pub targets: Seq<freeze_plan::TargetView>,
    pub minimum: u64,
    pub outcomes: Seq<fstrim::TrimOutcomeView>,
    pub work: TrimWorkView,
}

impl TrimView {
    /// A trim of targets, before the first.
    pub open spec fn over(
        targets: Seq<freeze_plan::TargetView>,
        minimum: u64,
    ) -> TrimView {
        TrimView {
            targets,
            minimum,
            outcomes: Seq::empty(),
            work: TrimWorkView::Through,
        }.begin()
    }

    /// The next target has its turn.
    pub open spec fn begin(self) -> TrimView {
        let i = self.outcomes.len() as int;
        TrimView {
            work: if i < self.targets.len() {
                TrimWorkView::Opening(
                    drain::OpenView::over(self.targets[i].mountpoints(), self.targets[i].dev),
                )
            } else {
                TrimWorkView::Through
            },
            ..self
        }
    }

    /// The target had its turn.
    pub open spec fn concluded(self, outcome: fstrim::TrimOutcomeView) -> TrimView {
        TrimView { outcomes: self.outcomes.push(outcome), ..self }.begin()
    }

    /// A name opened.
    pub open spec fn opened(self, handle: u64) -> TrimView {
        TrimView { work: TrimWorkView::Opened(self.work->Opening_0.mount(handle)), ..self }
    }

    /// A name did not lead to the target.
    pub open spec fn open_failed(self, err: KernelError) -> TrimView {
        let search = self.work->Opening_0.after(err);
        if search.path() is Some {
            TrimView { work: TrimWorkView::Opening(search), ..self }
        } else {
            self.concluded(
                fstrim::TrimOutcomeView::Unreachable(text::joined(search.attempts, "; "@)),
            )
        }
    }

    /// `FITRIM` was answered.
    pub open spec fn trimmed(self, answer: Result<Trimmed, KernelError>) -> TrimView {
        self.concluded(fstrim::TrimOutcomeView::answered(answer))
    }

    /// What is due.
    pub open spec fn step(self) -> TrimStepView {
        match self.work {
            TrimWorkView::Opening(search) => TrimStepView::Open {
                path: search.path()->0,
                dev: search.dev,
            },
            TrimWorkView::Opened(mount) => TrimStepView::Trim {
                handle: mount.handle,
                minimum: self.minimum,
            },
            TrimWorkView::Through => TrimStepView::Done,
        }
    }

    /// What holds of every trim.
    pub open spec fn valid(self) -> bool {
        let i = self.outcomes.len() as int;
        &&& i <= self.targets.len()
        &&& self.work is Through <==> i == self.targets.len()
        &&& self.work matches TrimWorkView::Opening(search) ==> {
            &&& search.names == self.targets[i].mountpoints()
            &&& search.dev == self.targets[i].dev
            &&& search.path() is Some
        }
        &&& self.work matches TrimWorkView::Opened(mount) ==> {
            &&& self.targets[i].mountpoints().contains(mount.mountpoint)
            &&& mount.dev == self.targets[i].dev
        }
    }

    /// How many calls the target in hand may still take.
    pub open spec fn ahead(self) -> nat {
        match self.work {
            TrimWorkView::Opening(search) => (search.names.len() - search.attempts.len() + 1) as nat,
            TrimWorkView::Opened(_) => 1,
            TrimWorkView::Through => 0,
        }
    }
}

impl Work {
    spec fn seen(self) -> TrimWorkView {
        match self {
            Work::Opening(search) => TrimWorkView::Opening(search@),
            Work::Opened(mount) => TrimWorkView::Opened(mount@),
            Work::Through => TrimWorkView::Through,
        }
    }
}

impl View for TrimWalk {
    type V = TrimView;

    closed spec fn view(&self) -> TrimView {
        TrimView {
            targets: self.plan.target_list(),
            minimum: self.minimum,
            outcomes: fstrim::outcomes_view(self.outcomes@),
            work: self.work.seen(),
        }
    }
}

impl TrimWalk {
    /// Begins the trim of every target of `plan` with `minimum`.
    pub fn new(plan: FreezePlan, minimum: u64) -> (walk: TrimWalk)
        ensures
            walk@ == TrimView::over(plan.target_list(), minimum),
            walk@.valid(),
    {
        let mut walk = TrimWalk { plan, minimum, outcomes: Vec::new(), work: Work::Through };
        proof {
            assert(walk@.outcomes =~= Seq::<fstrim::TrimOutcomeView>::empty());
        }
        walk.begin();
        walk
    }

    fn begin(&mut self)
        requires
            old(self)@.outcomes.len() <= old(self)@.targets.len(),
        ensures
            final(self)@ == old(self)@.begin(),
            final(self)@.valid(),
    {
        let i: usize = self.outcomes.len();
        if i < self.plan.targets.len() {
            self.work = Work::Opening(OpenTarget::for_thaw(&self.plan.targets[i]));
        } else {
            self.work = Work::Through;
        }
    }

    /// What is due next.
    pub fn step(&self) -> (step: TrimStep)
        requires
            self@.valid(),
        ensures
            step@ == self@.step(),
    {
        match &self.work {
            Work::Opening(search) => match search.path() {
                Some(path) => TrimStep::Open {
                    path: freeze_plan::clone_path(path),
                    dev: search.dev(),
                },
                None => TrimStep::Done,
            },
            Work::Opened(mount) => TrimStep::Trim { handle: mount.handle, minimum: self.minimum },
            Work::Through => TrimStep::Done,
        }
    }

    /// The name opened, as `handle`.
    pub fn opened(&mut self, handle: u64)
        requires
            old(self)@.valid(),
            old(self)@.work is Opening,
        ensures
            final(self)@ == old(self)@.opened(handle),
            final(self)@.valid(),
    {
        let mount = match &self.work {
            Work::Opening(search) => Some(search.opened(handle)),
            _ => None,
        };
        if let Some(mount) = mount {
            self.work = Work::Opened(mount);
        }
    }

    /// The name did not lead to the target.
    pub fn open_failed(&mut self, err: &KernelError)
        requires
            old(self)@.valid(),
            old(self)@.work is Opening,
        ensures
            final(self)@ == old(self)@.open_failed(*err),
            final(self)@.valid(),
    {
        let mut work = Work::Through;
        std::mem::swap(&mut work, &mut self.work);
        if let Work::Opening(search) = work {
            let mut search = search;
            search.failed(err);
            if search.path().is_some() {
                self.work = Work::Opening(search);
            } else {
                self.conclude(TrimOutcome::Unreachable(search.attempts()));
            }
        }
    }

    fn conclude(&mut self, outcome: TrimOutcome)
        requires
            old(self)@.outcomes.len() < old(self)@.targets.len(),
        ensures
            final(self)@ == old(self)@.concluded(outcome@),
            final(self)@.valid(),
    {
        let ghost before = self@;
        self.outcomes.push(outcome);
        proof {
            assert(self@.outcomes =~= before.outcomes.push(outcome@));
        }
        self.begin();
    }

    /// `FITRIM` was answered.
    pub fn trimmed(&mut self, answer: Result<Trimmed, KernelError>)
        requires
            old(self)@.valid(),
            old(self)@.work is Opened,
        ensures
            final(self)@ == old(self)@.trimmed(answer),
            final(self)@.valid(),
    {
        let outcome = match answer {
            Ok(trimmed) => TrimOutcome::Done(trimmed),
            Err(err) => TrimOutcome::Failed(err),
        };
        self.conclude(outcome);
    }

    /// The response, once every target had its turn.
    pub fn finish(self) -> (response: TrimResponse)
        requires
            self@.valid(),
            self@.work is Through,
        ensures
            response.paths@.len() == self@.targets.len(),
            forall|i: int|
                0 <= i < self@.targets.len() ==> fstrim::reports(
                    #[trigger] response.paths@[i],
                    self@.targets[i],
                    self@.outcomes[i],
                ),
    {
        trim_plan(&self.plan, self.outcomes)
    }
}

} // verus!
