//! A whole trim: which mount points were opened for each target, and what was
//! asked of the kernel.

use vstd::prelude::*;

use crate::freeze_plan;
use crate::handlers::fsfreeze::drain;
use crate::handlers::fstrim::walk;
use crate::handlers::fstrim::Trimmed;
use crate::handlers::fstrim;
use crate::kernel::KernelError;
use crate::text;

verus! {

/// Something that happens to a trim.
pub ghost enum TrimMove {
    Opened { handle: u64 },
    OpenFailed { err: KernelError },
    Trimmed { answer: Result<Trimmed, KernelError> },
}

/// A mount point that was opened, and what came of it.
#[verifier::ext_equal]
pub ghost struct Opening {
    pub path: Seq<u8>,
    pub dev: (u32, u32),
    pub result: Result<u64, KernelError>,
}

/// A `FITRIM` that was issued, and its answer.
#[verifier::ext_equal]
pub ghost struct TrimCall {
    pub handle: u64,
    pub minimum: u64,
    pub answer: Result<Trimmed, KernelError>,
}

/// What was done for one target, in order.
#[verifier::ext_equal]
pub ghost struct TargetPast {
    pub openings: Seq<Opening>,
    pub calls: Seq<TrimCall>,
}

/// A trim and its past, one entry per target.
#[verifier::ext_equal]
pub ghost struct TrimPast {
    pub walk: walk::TrimView,
    pub past: Seq<TargetPast>,
}

impl TargetPast {
    /// Nothing was done.
    pub open spec fn none() -> TargetPast {
        TargetPast { openings: Seq::empty(), calls: Seq::empty() }
    }

    /// No mount point opened.
    pub open spec fn all_failed(self) -> bool {
        forall|j: int| 0 <= j < self.openings.len() ==> (#[trigger] self.openings[j]).result is Err
    }

    /// The attempts in words, in order.
    pub open spec fn attempts(self) -> Seq<Seq<char>> {
        Seq::new(
            self.openings.len(),
            |j: int| drain::attempt_text(self.openings[j].path, self.openings[j].result->Err_0),
        )
    }

    /// The mount points of `target` were opened on its device one after the
    /// other, and none beyond the first that led there.
    pub open spec fn searches(self, target: freeze_plan::TargetView) -> bool {
        &&& self.openings.len() <= target.mountpoints().len()
        &&& forall|j: int|
            0 <= j < self.openings.len() ==> (#[trigger] self.openings[j]).path
                == target.mountpoints()[j] && self.openings[j].dev == target.dev
        &&& forall|j: int|
            0 <= j < self.openings.len() - 1 ==> (#[trigger] self.openings[j]).result is Err
    }

    /// The last mount point opened, and its handle was asked for `FITRIM` with
    /// `minimum`, which is all that was asked.
    pub open spec fn asked_once(self, minimum: u64) -> bool {
        &&& self.openings.len() > 0
        &&& self.calls.len() == 1
        &&& self.openings.last().result == Ok::<u64, KernelError>(self.calls[0].handle)
        &&& self.calls[0].minimum == minimum
    }

    /// What is reported of a target that had its turn.
    pub open spec fn accounts_for(
        self,
        target: freeze_plan::TargetView,
        minimum: u64,
        outcome: fstrim::TrimOutcomeView,
    ) -> bool {
        &&& self.searches(target)
        &&& if self.calls.len() == 0 {
            &&& self.openings.len() == target.mountpoints().len()
            &&& self.all_failed()
            &&& outcome == fstrim::TrimOutcomeView::Unreachable(
                text::joined(self.attempts(), "; "@),
            )
        } else {
            &&& self.asked_once(minimum)
            &&& outcome == fstrim::TrimOutcomeView::answered(self.calls[0].answer)
        }
    }

    /// What was done so far for the target in hand.
    pub open spec fn leads_to(
        self,
        target: freeze_plan::TargetView,
        work: walk::TrimWorkView,
    ) -> bool {
        &&& self.searches(target)
        &&& self.calls.len() == 0
        &&& match work {
            walk::TrimWorkView::Opening(search) => self.all_failed() && search.attempts
                == self.attempts(),
            walk::TrimWorkView::Opened(mount) => self.openings.len() > 0
                && self.openings.last().result == Ok::<u64, KernelError>(mount.handle),
            walk::TrimWorkView::Through => false,
        }
    }
}

impl TrimPast {
    /// Before the first mount point is opened.
    pub open spec fn start(targets: Seq<freeze_plan::TargetView>, minimum: u64) -> TrimPast {
        TrimPast {
            walk: walk::TrimView::over(targets, minimum),
            past: Seq::new(targets.len(), |i: int| TargetPast::none()),
        }
    }

    /// It can happen now: it answers what is due.
    pub open spec fn allows(self, it: TrimMove) -> bool {
        match it {
            TrimMove::Opened { .. } => self.walk.step() is Open,
            TrimMove::OpenFailed { .. } => self.walk.step() is Open,
            TrimMove::Trimmed { .. } => self.walk.step() is Trim,
        }
    }

    /// A mount point was opened for the target in hand.
    pub open spec fn opening(self, result: Result<u64, KernelError>) -> Seq<TargetPast> {
        let i = self.walk.outcomes.len() as int;
        let it = Opening { path: self.walk.step()->path, dev: self.walk.step()->dev, result };
        self.past.update(
            i,
            TargetPast { openings: self.past[i].openings.push(it), ..self.past[i] },
        )
    }

    /// The past once it happened.
    pub open spec fn after(self, it: TrimMove) -> TrimPast {
        let i = self.walk.outcomes.len() as int;
        match it {
            TrimMove::Opened { handle } => TrimPast {
                walk: self.walk.opened(handle),
                past: self.opening(Ok(handle)),
            },
            TrimMove::OpenFailed { err } => TrimPast {
                walk: self.walk.open_failed(err),
                past: self.opening(Err(err)),
            },
            TrimMove::Trimmed { answer } => {
                let call = TrimCall {
                    handle: self.walk.step()->handle,
                    minimum: self.walk.step()->minimum,
                    answer,
                };
                TrimPast {
                    walk: self.walk.trimmed(answer),
                    past: self.past.update(
                        i,
                        TargetPast { calls: self.past[i].calls.push(call), ..self.past[i] },
                    ),
                }
            },
        }
    }

    /// What holds of every trim: each target that had its turn is accounted
    /// for, nothing was done yet for those behind the one in hand.
    pub open spec fn kept(self) -> bool {
        let n = self.walk.outcomes.len() as int;
        let targets = self.walk.targets;
        &&& self.walk.valid()
        &&& self.past.len() == targets.len()
        &&& forall|i: int|
            0 <= i < n ==> (#[trigger] self.past[i]).accounts_for(
                targets[i],
                self.walk.minimum,
                self.walk.outcomes[i],
            )
        &&& n < targets.len() ==> self.past[n].leads_to(targets[n], self.walk.work)
        &&& forall|i: int|
            n < i < targets.len() ==> (#[trigger] self.past[i]) == TargetPast::none()
    }
}

/// The past after what happens one after the other.
pub open spec fn past_of(
    targets: Seq<freeze_plan::TargetView>,
    minimum: u64,
    moves: Seq<TrimMove>,
) -> TrimPast
    decreases moves.len(),
{
    if moves.len() == 0 {
        TrimPast::start(targets, minimum)
    } else {
        past_of(targets, minimum, moves.drop_last()).after(moves.last())
    }
}

/// It can happen one after the other.
pub open spec fn possible(
    targets: Seq<freeze_plan::TargetView>,
    minimum: u64,
    moves: Seq<TrimMove>,
) -> bool
    decreases moves.len(),
{
    moves.len() > 0 ==> possible(targets, minimum, moves.drop_last()) && past_of(
        targets,
        minimum,
        moves.drop_last(),
    ).allows(moves.last())
}

/// Every trim keeps its past in order, whatever the kernel answers.
pub proof fn law_trim_past_is_kept(p: TrimPast, it: TrimMove)
    requires
        p.kept(),
        p.allows(it),
    ensures
        p.after(it).kept(),
        p.after(it).walk.targets == p.walk.targets,
        p.after(it).walk.minimum == p.walk.minimum,
{
    let n = p.walk.outcomes.len() as int;
    let e = p.after(it);
    let target = p.walk.targets[n];
    let before = p.past[n];
    let now = e.past[n];
    assert(n < p.walk.targets.len());
    match it {
        TrimMove::Opened { handle } => {
            assert(now.searches(target));
            let search = p.walk.work->Opening_0;
            let k = search.attempts.len() as int;
            assert(target.mountpoints()[k] == search.mount(handle).mountpoint);
        },
        TrimMove::OpenFailed { err } => {
            let search = p.walk.work->Opening_0;
            assert(now.searches(target));
            assert(now.all_failed());
            assert(search.after(err).attempts =~= now.attempts());
            if search.after(err).path() is None {
                assert(now.accounts_for(target, p.walk.minimum, e.walk.outcomes[n]));
            }
        },
        TrimMove::Trimmed { answer } => {
            assert(now.openings == before.openings);
            assert(now.accounts_for(target, p.walk.minimum, e.walk.outcomes[n]));
        },
    }
    assert forall|i: int| 0 <= i < e.walk.outcomes.len() implies (
    #[trigger] e.past[i]).accounts_for(
        e.walk.targets[i],
        e.walk.minimum,
        e.walk.outcomes[i],
    ) by {
        if i < n {
            assert(e.past[i] == p.past[i]);
            assert(e.walk.outcomes[i] == p.walk.outcomes[i]);
        }
    }
    if n + 1 < p.walk.targets.len() {
        assert(p.past[n + 1] == TargetPast::none());
        assert(e.past[n + 1].attempts() =~= Seq::<Seq<char>>::empty());
    }
}

/// Whatever the kernel answers from the first target on, the past is in order.
pub proof fn law_every_trim_is_kept(
    targets: Seq<freeze_plan::TargetView>,
    minimum: u64,
    moves: Seq<TrimMove>,
)
    requires
        possible(targets, minimum, moves),
    ensures
        past_of(targets, minimum, moves).kept(),
        past_of(targets, minimum, moves).walk.targets == targets,
        past_of(targets, minimum, moves).walk.minimum == minimum,
    decreases moves.len(),
{
    if moves.len() == 0 {
        if targets.len() > 0 {
            let p = TrimPast::start(targets, minimum);
            assert(p.past[0].attempts() =~= Seq::<Seq<char>>::empty());
        }
    } else {
        law_every_trim_is_kept(targets, minimum, moves.drop_last());
        law_trim_past_is_kept(past_of(targets, minimum, moves.drop_last()), moves.last());
    }
}

/// `FITRIM` is issued at most once per target, with the requested minimum, on
/// the handle of the first of its mount points that opened on its device.
pub proof fn law_a_target_is_trimmed_at_most_once(
    targets: Seq<freeze_plan::TargetView>,
    minimum: u64,
    moves: Seq<TrimMove>,
    i: int,
)
    requires
        possible(targets, minimum, moves),
        0 <= i < targets.len(),
    ensures
        ({
            let past = past_of(targets, minimum, moves).past[i];
            let k = past.openings.len() - 1;
            &&& past.calls.len() <= 1
            &&& past.calls.len() == 1 ==> {
                &&& past.calls[0].minimum == minimum
                &&& 0 <= k < targets[i].mountpoints().len()
                &&& past.openings[k] == (Opening {
                    path: targets[i].mountpoints()[k],
                    dev: targets[i].dev,
                    result: Ok(past.calls[0].handle),
                })
                &&& forall|j: int|
                    0 <= j < k ==> (#[trigger] past.openings[j]).path == targets[i].mountpoints()[j]
                        && past.openings[j].dev == targets[i].dev && past.openings[j].result is Err
            }
        }),
{
    law_every_trim_is_kept(targets, minimum, moves);
    let p = past_of(targets, minimum, moves);
    let n = p.walk.outcomes.len() as int;
    if i < n {
        assert(p.past[i].accounts_for(targets[i], minimum, p.walk.outcomes[i]));
    } else if i > n {
        assert(p.past[i] == TargetPast::none());
    }
}

/// When a trim is done, every target had its turn, whatever became of the
/// others. Its outcome is the kernel's answer where `FITRIM` was issued.
/// Otherwise every one of its mount points was opened in vain, and the outcome
/// names the attempts.
pub proof fn law_a_failure_stops_no_other_target(
    targets: Seq<freeze_plan::TargetView>,
    minimum: u64,
    moves: Seq<TrimMove>,
)
    requires
        possible(targets, minimum, moves),
        past_of(targets, minimum, moves).walk.step() is Done,
    ensures
        ({
            let p = past_of(targets, minimum, moves);
            &&& p.walk.outcomes.len() == targets.len()
            &&& p.past.len() == targets.len()
            &&& forall|i: int|
                0 <= i < targets.len() ==> (#[trigger] p.past[i]).accounts_for(
                    targets[i],
                    minimum,
                    p.walk.outcomes[i],
                )
        }),
{
    law_every_trim_is_kept(targets, minimum, moves);
}

/// A trim ends: each answer ends the turn of a target, or brings its end
/// nearer.
pub proof fn law_a_trim_ends(p: TrimPast, it: TrimMove)
    requires
        p.kept(),
        p.allows(it),
    ensures
        ({
            let e = p.after(it).walk;
            ||| e.outcomes.len() == p.walk.outcomes.len() + 1
            ||| e.outcomes.len() == p.walk.outcomes.len() && e.ahead() < p.walk.ahead()
        }),
{
}

} // verus!
