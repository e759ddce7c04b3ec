//! Undoing a freeze: how one filesystem is drained, how the handles that a
//! freeze left are drained, and how a filesystem is opened for it.

use vstd::prelude::*;
use vstd::string::*;

use crate::freeze_plan::{clone_path, Target};
use crate::freeze_plan;
use crate::kernel::{KernelError, Mount};
use crate::kernel;
use crate::text::{decimal_text, join, lossy_text};
use crate::text;

verus! {

/// The most `FITHAW` calls on one filesystem in one drain.
pub const MAX_THAW_ITERATIONS: u32 = 1024;

// ---------------------------------------------------------------------------
// One filesystem
// ---------------------------------------------------------------------------

/// A drain of one filesystem: `FITHAW` until the first error or the bound.
#[derive(Debug, PartialEq, Eq)]
pub struct Drained {
    /// Successful `FITHAW` calls.
    pub successes: u32,
    /// The error that ended the drain, if any.
    pub first_error: Option<KernelError>,
    /// The drain hit [`MAX_THAW_ITERATIONS`] without an error.
    pub capped: bool,
}

/// The kernel says that nothing is frozen there: it is not frozen, or cannot
/// be.
pub open spec fn ends_a_drain(err: KernelError) -> bool {
    err.answer() matches Some(errno) && (errno == kernel::EINVAL || KernelError::unsupported(errno))
}

impl Drained {
    /// No call was made yet.
    pub open spec fn start() -> Drained {
        Drained { successes: 0, first_error: None, capped: false }
    }

    /// Another call is due.
    pub open spec fn more(self) -> bool {
        self.first_error is None && !self.capped
    }

    /// What holds of every drain.
    pub open spec fn wf(self) -> bool {
        self.more() ==> self.successes < MAX_THAW_ITERATIONS
    }

    /// The drain after one more call.
    pub open spec fn after(self, answer: Result<(), KernelError>) -> Drained {
        match answer {
            Ok(()) => Drained {
                successes: (self.successes + 1) as u32,
                capped: self.successes + 1 >= MAX_THAW_ITERATIONS,
                ..self
            },
            Err(err) => Drained { first_error: Some(err), ..self },
        }
    }

    /// Why the filesystem may still be frozen, if it may.
    pub open spec fn reason(self) -> Option<Seq<char>> {
        if self.capped {
            Some(
                "drain did not converge after "@ + text::decimal(MAX_THAW_ITERATIONS as nat)
                    + " FITHAW calls (still succeeding)"@,
            )
        } else {
            match self.first_error {
                None => None,
                Some(err) => match err.answer() {
                    None => Some(err.text() + ": no FITHAW issued"@),
                    Some(errno) => if ends_a_drain(err) {
                        None
                    } else if KernelError::denied(errno) && self.successes == 0 {
                        Some("first FITHAW denied: "@ + err.text())
                    } else if KernelError::denied(errno) {
                        Some(
                            "FITHAW denied after "@ + text::decimal(self.successes as nat)
                                + " successes: "@ + err.text(),
                        )
                    } else {
                        Some(
                            "FITHAW failed: "@ + err.text()
                                + "; the filesystem may still be frozen"@,
                        )
                    },
                },
            }
        }
    }

    /// Starts a drain.
    pub fn new() -> (drained: Drained)
        ensures
            drained == Drained::start(),
            drained.wf(),
    {
        Drained { successes: 0, first_error: None, capped: false }
    }

    /// Whether another `FITHAW` is due.
    pub fn wants_more(&self) -> (more: bool)
        ensures
            more == self.more(),
    {
        self.first_error.is_none() && !self.capped
    }

    /// Takes the answer to one `FITHAW`.
    pub fn answered(&mut self, answer: Result<(), KernelError>)
        requires
            old(self).wf(),
            old(self).more(),
        ensures
            *final(self) == old(self).after(answer),
            final(self).wf(),
    {
        match answer {
            Ok(()) => {
                self.successes = self.successes + 1;
                self.capped = self.successes >= MAX_THAW_ITERATIONS;
            },
            Err(err) => {
                self.first_error = Some(err);
            },
        }
    }

    /// Why the filesystem may still be frozen, if it may. A drain is complete
    /// only when the kernel's answer to `FITHAW` is that the filesystem is not
    /// frozen, or that it cannot be. Anything else is uncertain: an error from
    /// before the call (nothing was asked of the filesystem), a denied call,
    /// any other error (a filesystem stays frozen when its unfreeze fails), or
    /// a drain that never converged.
    pub fn incomplete(&self) -> (why: Option<String>)
        ensures
            match why {
                Some(text) => self.reason() == Some(text@),
                None => self.reason() is None,
            },
            why is None <==> !self.capped && (self.first_error matches Some(err) ==> ends_a_drain(
                err,
            )),
    {
        if self.capped {
            return Some(
                "drain did not converge after ".to_owned().concat(
                    decimal_text(MAX_THAW_ITERATIONS as u64).as_str(),
                ).concat(" FITHAW calls (still succeeding)"),
            );
        }
        match &self.first_error {
            None => None,
            Some(err) => {
                if !err.is_ioctl_answer() {
                    return Some(err.message().concat(": no FITHAW issued"));
                }
                if err.is_invalid() || err.is_not_supported() {
                    return None;
                }
                if err.is_permission() && self.successes == 0 {
                    Some("first FITHAW denied: ".to_owned().concat(err.message().as_str()))
                } else if err.is_permission() {
                    Some(
                        "FITHAW denied after ".to_owned().concat(
                            decimal_text(self.successes as u64).as_str(),
                        ).concat(" successes: ").concat(err.message().as_str()),
                    )
                } else {
                    Some(
                        "FITHAW failed: ".to_owned().concat(err.message().as_str()).concat(
                            "; the filesystem may still be frozen",
                        ),
                    )
                }
            },
        }
    }
}

/// A drain through a sequence of answers, as far as calls are due.
pub open spec fn drained_by(start: Drained, answers: Seq<Result<(), KernelError>>) -> Drained
    decreases answers.len(),
{
    if answers.len() == 0 {
        start
    } else {
        let before = drained_by(start, answers.drop_last());
        if before.more() {
            before.after(answers.last())
        } else {
            before
        }
    }
}

/// A drain makes at most [`MAX_THAW_ITERATIONS`] calls, whatever is answered.
pub proof fn law_a_drain_is_bounded(answers: Seq<Result<(), KernelError>>)
    ensures
        drained_by(Drained::start(), answers).wf(),
        drained_by(Drained::start(), answers).successes <= MAX_THAW_ITERATIONS,
        answers.len() >= MAX_THAW_ITERATIONS ==> !drained_by(Drained::start(), answers).more(),
{
    lemma_drain_progress(answers);
}

proof fn lemma_drain_progress(answers: Seq<Result<(), KernelError>>)
    ensures
        ({
            let d = drained_by(Drained::start(), answers);
            &&& d.wf()
            &&& d.successes <= MAX_THAW_ITERATIONS
            &&& d.more() ==> d.successes == answers.len()
        }),
    decreases answers.len(),
{
    if answers.len() > 0 {
        lemma_drain_progress(answers.drop_last());
    }
}

/// A drain counts as complete only on the kernel's own word: of a drain that
/// has ended, nothing is left to say exactly when its last answer was that the
/// filesystem is not, or cannot be, frozen.
pub proof fn law_only_the_kernel_completes_a_drain(answers: Seq<Result<(), KernelError>>)
    requires
        !drained_by(Drained::start(), answers).more(),
    ensures
        drained_by(Drained::start(), answers).reason() is None <==> (drained_by(
            Drained::start(),
            answers,
        ).first_error matches Some(err) && ends_a_drain(err)),
        drained_by(Drained::start(), answers).first_error matches Some(err) ==> answers.contains(
            Err(err),
        ),
    decreases answers.len(),
{
    if answers.len() > 0 {
        let front = answers.drop_last();
        if !drained_by(Drained::start(), front).more() {
            law_only_the_kernel_completes_a_drain(front);
            let d = drained_by(Drained::start(), front);
            if d.first_error is Some {
                let err = d.first_error->0;
                let i = choose|i: int| 0 <= i < front.len() && front[i] == Err::<(), KernelError>(err);
                assert(answers[i] == Err::<(), KernelError>(err));
            }
        } else {
            lemma_no_error_yet(front);
            if answers.last() is Err {
                assert(answers[answers.len() - 1] == answers.last());
            }
        }
    }
}

proof fn lemma_no_error_yet(answers: Seq<Result<(), KernelError>>)
    requires
        drained_by(Drained::start(), answers).more(),
    ensures
        drained_by(Drained::start(), answers).first_error is None,
{
}

// ---------------------------------------------------------------------------
// Opening
// ---------------------------------------------------------------------------

/// An attempt in words.
pub open spec fn attempt_text(path: Seq<u8>, err: KernelError) -> Seq<char> {
    text::lossy(path) + ": "@ + err.text()
}

/// The search for a pathname that still leads to a target's superblock.
#[derive(Debug)]
pub struct OpenTarget {
    names: Vec<Vec<u8>>,
    dev: (u32, u32),
    attempts: Vec<String>,
}

/// The search as a mathematical value: the names, in order, and in words what
/// was found at those tried.
#[verifier::ext_equal]
pub ghost struct OpenView {
    pub names: Seq<Seq<u8>>,
    pub dev: (u32, u32),
    pub attempts: Seq<Seq<char>>,
}

impl OpenView {
    /// A search over names.
    pub open spec fn over(names: Seq<Seq<u8>>, dev: (u32, u32)) -> OpenView {
        OpenView { names, dev, attempts: Seq::empty() }
    }

    /// The name to try next.
    pub open spec fn path(self) -> Option<Seq<u8>> {
        if self.attempts.len() < self.names.len() {
            Some(self.names[self.attempts.len() as int])
        } else {
            None
        }
    }

    /// The search after a name that did not lead there.
    pub open spec fn after(self, err: KernelError) -> OpenView {
        OpenView {
            attempts: self.attempts.push(
                attempt_text(self.names[self.attempts.len() as int], err),
            ),
            ..self
        }
    }

    /// The handle that opening the next name gives.
    pub open spec fn mount(self, handle: u64) -> kernel::MountView {
        kernel::MountView {
            handle,
            mountpoint: self.names[self.attempts.len() as int],
            dev: self.dev,
        }
    }
}

/// The names by which a target is opened for a freeze: the requested one and
/// nothing else, or any of its mount points.
pub open spec fn freeze_names(target: freeze_plan::TargetView) -> Seq<Seq<u8>> {
    match target.requested {
        Some(name) => seq![name],
        None => target.mountpoints(),
    }
}

impl View for OpenTarget {
    type V = OpenView;

    closed spec fn view(&self) -> OpenView {
        OpenView {
            names: freeze_plan::paths_view(self.names@),
            dev: self.dev,
            attempts: text::texts_view(self.attempts@),
        }
    }
}

impl OpenTarget {
    /// Looks for a name of `target`, for a thaw: any of its mount points.
    pub fn for_thaw(target: &Target) -> (search: OpenTarget)
        ensures
            search@ == OpenView::over(target@.mountpoints(), target.dev),
    {
        let mounted = target.mountpoints();
        let mut names: Vec<Vec<u8>> = Vec::new();
        for i in 0..mounted.len()
            invariant
                names@.len() == i,
                forall|j: int| 0 <= j < i ==> #[trigger] names@[j]@ == mounted@[j]@,
        {
            names.push(clone_path(mounted[i]));
        }
        let search = OpenTarget { names, dev: target.dev, attempts: Vec::new() };
        proof {
            let want = target@.mountpoints();
            assert(search@.names =~= Seq::new(mounted@.len(), |i: int| mounted@[i]@));
            assert(search@ =~= OpenView::over(want, target.dev));
        }
        search
    }

    /// Looks for a name of `target`, for a freeze: the requested mount point,
    /// or any of its own.
    pub fn for_freeze(target: &Target) -> (search: OpenTarget)
        ensures
            search@ == OpenView::over(freeze_names(target@), target.dev),
    {
        match &target.requested {
            Some(name) => {
                let mut names: Vec<Vec<u8>> = Vec::new();
                names.push(clone_path(name));
                let search = OpenTarget { names, dev: target.dev, attempts: Vec::new() };
                proof {
                    assert(search@ =~= OpenView::over(freeze_names(target@), target.dev));
                }
                search
            },
            None => OpenTarget::for_thaw(target),
        }
    }

    /// The name to try next; `None` when every name was tried.
    pub fn path(&self) -> (path: Option<&Vec<u8>>)
        ensures
            match path {
                Some(name) => self@.path() == Some(name@),
                None => self@.path() is None,
            },
    {
        if self.attempts.len() < self.names.len() {
            Some(&self.names[self.attempts.len()])
        } else {
            None
        }
    }

    /// The device the name must lead to.
    pub fn dev(&self) -> (dev: (u32, u32))
        ensures
            dev == self@.dev,
    {
        self.dev
    }

    /// Whether a name was tried in vain: what opens now is an alias.
    pub fn is_alias(&self) -> (alias: bool)
        ensures
            alias == (self@.attempts.len() > 0),
    {
        self.attempts.len() > 0
    }

    /// The name tried did not lead there.
    pub fn failed(&mut self, err: &KernelError)
        requires
            old(self)@.path() is Some,
        ensures
            final(self)@ == old(self)@.after(*err),
    {
        let ghost before = self@;
        let said = lossy_text(&self.names[self.attempts.len()]).concat(": ").concat(
            err.message().as_str(),
        );
        self.attempts.push(said);
        proof {
            assert(self@ =~= before.after(*err));
        }
    }

    /// The name opened, as `handle`.
    pub fn opened(&self, handle: u64) -> (mount: Mount)
        requires
            self@.path() is Some,
        ensures
            mount@ == self@.mount(handle),
    {
        Mount { handle, mountpoint: clone_path(&self.names[self.attempts.len()]), dev: self.dev }
    }

    /// The attempts in words, in order.
    pub fn attempts(&self) -> (text: String)
        ensures
            text@ == text::joined(self@.attempts, "; "@),
    {
        join(&self.attempts, "; ")
    }
}

// ---------------------------------------------------------------------------
// The handles of a freeze
// ---------------------------------------------------------------------------

/// A target whose drain did not complete, and why.
#[derive(Debug, PartialEq, Eq)]
pub struct Incomplete {
    pub mountpoint: String,
    pub reason: String,
}

/// An incomplete drain as a mathematical value.
#[verifier::ext_equal]
pub ghost struct IncompleteView {
    pub mountpoint: Seq<char>,
    pub reason: Seq<char>,
}

impl View for Incomplete {
    type V = IncompleteView;

    open spec fn view(&self) -> IncompleteView {
        IncompleteView { mountpoint: self.mountpoint@, reason: self.reason@ }
    }
}

/// An optional incomplete drain, taken by its view.
pub open spec fn incomplete_view(incomplete: Option<Incomplete>) -> Option<IncompleteView> {
    match incomplete {
        Some(it) => Some(it@),
        None => None,
    }
}

/// The result of draining the handles that a freeze left.
#[derive(Debug, PartialEq, Eq)]
pub struct RecoveryPass {
    /// Targets on which at least one `FITHAW` succeeded.
    pub recovered: u64,
    /// Handles whose drain did not complete, kept for a later attempt.
    pub keep: Vec<Mount>,
    /// The first such target.
    pub incomplete: Option<Incomplete>,
}

/// The result as a mathematical value.
#[verifier::ext_equal]
pub ghost struct PassView {
    pub recovered: nat,
    pub keep: Seq<kernel::MountView>,
    pub incomplete: Option<IncompleteView>,
}

impl View for RecoveryPass {
    type V = PassView;

    open spec fn view(&self) -> PassView {
        PassView {
            recovered: self.recovered as nat,
            keep: kernel::mounts_view(self.keep@),
            incomplete: incomplete_view(self.incomplete),
        }
    }
}

impl PassView {
    /// Nothing drained yet.
    pub open spec fn empty() -> PassView {
        PassView { recovered: 0, keep: Seq::empty(), incomplete: None }
    }

    /// The result after one more handle.
    pub open spec fn after(self, mount: kernel::MountView, drained: Drained) -> PassView {
        PassView {
            recovered: if drained.successes > 0 {
                self.recovered + 1
            } else {
                self.recovered
            },
            keep: if drained.reason() is Some {
                self.keep.push(mount)
            } else {
                self.keep
            },
            incomplete: if self.incomplete is None && drained.reason() is Some {
                Some(
                    IncompleteView {
                        mountpoint: text::lossy(mount.mountpoint),
                        reason: drained.reason()->0,
                    },
                )
            } else {
                self.incomplete
            },
        }
    }
}

/// The drain of the handles that a freeze left, in forward mount order (they
/// were added deepest first). Every handle gets its drain: one that cannot be
/// thawed is remembered and does not leave the later ones frozen.
#[derive(Debug)]
pub struct HeldDrain {
    left: Vec<Mount>,
    pass: RecoveryPass,
}

/// The drain as a mathematical value: the handles left, the next one last, and
/// the result so far.
#[verifier::ext_equal]
pub ghost struct HeldView {
    pub left: Seq<kernel::MountView>,
    pub pass: PassView,
}

impl HeldView {
    /// A drain of `held`.
    pub open spec fn over(held: Seq<kernel::MountView>) -> HeldView {
        HeldView { left: held, pass: PassView::empty() }
    }

    /// The drain after the next handle.
    pub open spec fn after(self, drained: Drained) -> HeldView {
        HeldView {
            left: self.left.drop_last(),
            pass: self.pass.after(self.left.last(), drained),
        }
    }
}

impl View for HeldDrain {
    type V = HeldView;

    closed spec fn view(&self) -> HeldView {
        HeldView { left: kernel::mounts_view(self.left@), pass: self.pass@ }
    }
}

impl HeldDrain {
    /// What holds of every drain: it counts no more than the handles there
    /// were.
    pub closed spec fn wf(&self) -> bool {
        self.pass.recovered + self.left@.len() <= u64::MAX
    }

    /// Starts the drain of `held`.
    pub fn new(held: Vec<Mount>) -> (drain: HeldDrain)
        ensures
            drain@ == HeldView::over(kernel::mounts_view(held@)),
            drain.wf(),
    {
        let ghost count = held.len();
        let drain = HeldDrain {
            left: held,
            pass: RecoveryPass { recovered: 0, keep: Vec::new(), incomplete: None },
        };
        proof {
            assert(count <= usize::MAX);
            assert(drain@.pass =~= PassView::empty());
        }
        drain
    }

    /// The handle to drain next.
    pub fn next(&self) -> (mount: Option<&Mount>)
        ensures
            match mount {
                Some(mount) => self@.left.len() > 0 && mount@ == self@.left.last(),
                None => self@.left.len() == 0,
            },
    {
        if self.left.len() > 0 {
            Some(&self.left[self.left.len() - 1])
        } else {
            None
        }
    }

    /// The next handle was drained.
    pub fn drained(&mut self, drained: &Drained)
        requires
            old(self).wf(),
            old(self)@.left.len() > 0,
        ensures
            final(self)@ == old(self)@.after(*drained),
            final(self).wf(),
    {
        let ghost before = self@;
        let ghost kept = self.pass.keep@;
        match self.left.pop() {
            None => {},
            Some(mount) => {
                if drained.successes > 0 {
                    self.pass.recovered = self.pass.recovered + 1;
                }
                if let Some(reason) = drained.incomplete() {
                    if self.pass.incomplete.is_none() {
                        self.pass.incomplete = Some(
                            Incomplete { mountpoint: lossy_text(&mount.mountpoint), reason },
                        );
                    }
                    self.pass.keep.push(mount);
                }
                proof {
                    assert(self@.left =~= before.left.drop_last());
                    assert(self@.pass.keep =~= before.pass.after(before.left.last(), *drained).keep);
                    assert(self@ =~= before.after(*drained));
                }
            },
        }
    }

    /// The result, once no handle is left.
    pub fn finish(self) -> (pass: RecoveryPass)
        requires
            self@.left.len() == 0,
        ensures
            pass@ == self@.pass,
    {
        self.pass
    }
}

/// A drain of handles through the drains of each, the first drained first.
pub open spec fn held_after(drain: HeldView, drains: Seq<Drained>) -> HeldView
    decreases drains.len(),
{
    if drains.len() == 0 {
        drain
    } else {
        held_after(drain, drains.drop_last()).after(drains.last())
    }
}

/// Handles in forward mount order.
pub open spec fn forward(held: Seq<kernel::MountView>) -> Seq<kernel::MountView> {
    held.reverse()
}

/// Handle `i` of `held`, in forward order, was not drained to the end.
pub open spec fn undrained(drains: Seq<Drained>, i: int) -> bool {
    0 <= i < drains.len() && drains[i].reason() is Some
}

/// Every handle gets its drain, in forward mount order, whatever became of the
/// others; a handle is kept exactly when its own drain is incomplete; and the
/// first such handle is the one reported.
pub proof fn law_every_held_handle_is_drained(
    held: Seq<kernel::MountView>,
    drains: Seq<Drained>,
)
    requires
        drains.len() <= held.len(),
    ensures
        ({
            let drain = held_after(HeldView::over(held), drains);
            &&& drain.left == held.take(held.len() - drains.len())
            &&& forall|m: kernel::MountView| #[trigger]
                drain.pass.keep.contains(m) <==> exists|i: int| #[trigger]
                    undrained(drains, i) && forward(held)[i] == m
            &&& drain.pass.incomplete is None <==> forall|i: int| !#[trigger] undrained(drains, i)
            &&& drain.pass.incomplete is None <==> drain.pass.keep.len() == 0
            &&& drain.pass.incomplete matches Some(it) ==> exists|i: int|
                {
                    &&& #[trigger] undrained(drains, i)
                    &&& forall|j: int| j < i ==> !#[trigger] undrained(drains, j)
                    &&& it.mountpoint == text::lossy(forward(held)[i].mountpoint)
                    &&& Some(it.reason) == drains[i].reason()
                }
            &&& drain.pass.recovered <= drains.len()
        }),
    decreases drains.len(),
{
    if drains.len() == 0 {
        assert(held.take(held.len() as int) =~= held);
    } else {
        let front = drains.drop_last();
        let last = drains.len() - 1;
        law_every_held_handle_is_drained(held, front);
        let before = held_after(HeldView::over(held), front);
        let after = before.after(drains.last());
        assert(after.left =~= held.take(held.len() - drains.len()));
        assert(before.left.last() == forward(held)[last]);
        assert forall|i: int| #[trigger] undrained(drains, i) == (undrained(front, i) || (i == last
            && drains.last().reason() is Some)) by {}
        assert forall|m: kernel::MountView| #[trigger]
            after.pass.keep.contains(m) <==> exists|i: int| #[trigger]
                undrained(drains, i) && forward(held)[i] == m by {
            if after.pass.keep.contains(m) {
                let k = choose|k: int| 0 <= k < after.pass.keep.len() && after.pass.keep[k] == m;
                if k < before.pass.keep.len() {
                    assert(before.pass.keep[k] == m);
                    assert(before.pass.keep.contains(m));
                    let i = choose|i: int| #[trigger] undrained(front, i) && forward(held)[i] == m;
                    assert(undrained(drains, i));
                } else {
                    assert(undrained(drains, last));
                }
            }
            if exists|i: int| #[trigger] undrained(drains, i) && forward(held)[i] == m {
                let i = choose|i: int| #[trigger] undrained(drains, i) && forward(held)[i] == m;
                if undrained(front, i) {
                    assert(before.pass.keep.contains(m));
                    let k = choose|k: int|
                        0 <= k < before.pass.keep.len() && before.pass.keep[k] == m;
                    assert(after.pass.keep[k] == m);
                } else {
                    assert(after.pass.keep.last() == m);
                }
            }
        }
        assert((forall|i: int| !#[trigger] undrained(drains, i)) ==> !undrained(drains, last));
        if before.pass.incomplete is Some {
            let it = before.pass.incomplete->0;
            let i = choose|i: int|
                {
                    &&& #[trigger] undrained(front, i)
                    &&& forall|j: int| j < i ==> !#[trigger] undrained(front, j)
                    &&& it.mountpoint == text::lossy(forward(held)[i].mountpoint)
                    &&& Some(it.reason) == front[i].reason()
                };
            assert(undrained(drains, i));
            assert forall|j: int| j < i implies !#[trigger] undrained(drains, j) by {
                assert(!undrained(front, j));
            }
        } else {
            assert(forall|i: int| !#[trigger] undrained(front, i));
            assert forall|j: int| j < last implies !#[trigger] undrained(drains, j) by {
                assert(!undrained(front, j));
            }
        }
    }
}

/// How a drain goes: it counts its successes; the first error ends it and is
/// the one it holds, whatever would have come later; the 1024th success ends it
/// too, and nothing ends it earlier.
pub proof fn law_how_a_drain_goes(answers: Seq<Result<(), KernelError>>, n: int)
    requires
        0 <= n <= answers.len(),
        n <= 1024,
        forall|i: int| 0 <= i < n ==> (#[trigger] answers[i]) is Ok,
    ensures
        n == answers.len() ==> drained_by(Drained::start(), answers) == (Drained {
            successes: n as u32,
            first_error: None,
            capped: n == 1024,
        }),
        n < answers.len() && n < 1024 && answers[n] is Err ==> drained_by(
            Drained::start(),
            answers,
        ) == (Drained {
            successes: n as u32,
            first_error: Some(answers[n]->Err_0),
            capped: false,
        }),
        n < answers.len() && n == 1024 ==> drained_by(Drained::start(), answers) == (Drained {
            successes: 1024,
            first_error: None,
            capped: true,
        }),
    decreases answers.len(),
{
    if answers.len() > 0 {
        let front = answers.drop_last();
        if n == answers.len() {
            assert(answers[n - 1] is Ok);
            law_how_a_drain_goes(front, n - 1);
        } else {
            law_how_a_drain_goes(front, n);
            if n < front.len() {
                assert(front[n] == answers[n]);
            } else {
                assert(answers.last() == answers[n]);
            }
        }
    }
}

/// A filesystem is taken for thawed if and only if the kernel said that it is
/// not frozen (22), or that it cannot be (95, 25 or 38), before the bound was
/// reached. A drain that has not ended has nothing to tell yet.
pub proof fn law_what_completes_a_drain(d: Drained)
    ensures
        d.reason() is None <==> !d.capped && (d.first_error is None || (d.first_error->0 is Errno && {
            let errno = d.first_error->0->Errno_0;
            errno == 22 || errno == 95 || errno == 25 || errno == 38
        })),
{
}

/// The words for a drain that did not complete.
pub proof fn law_the_words_of_an_incomplete_drain(d: Drained)
    ensures
        d.capped ==> d.reason() == Some(
            "drain did not converge after "@ + text::decimal(1024)
                + " FITHAW calls (still succeeding)"@,
        ),
        !d.capped && d.first_error is Some && !(d.first_error->0 is Errno) ==> d.reason() == Some(
            d.first_error->0.text() + ": no FITHAW issued"@,
        ),
        !d.capped && d.first_error is Some && d.first_error->0 is Errno ==> {
            let err = d.first_error->0;
            let denied = err->Errno_0 == 1 || err->Errno_0 == 13;
            let done = err->Errno_0 == 22 || err->Errno_0 == 95 || err->Errno_0 == 25
                || err->Errno_0 == 38;
            &&& denied && d.successes == 0 ==> d.reason() == Some(
                "first FITHAW denied: "@ + err.text(),
            )
            &&& denied && d.successes > 0 ==> d.reason() == Some(
                "FITHAW denied after "@ + text::decimal(d.successes as nat) + " successes: "@
                    + err.text(),
            )
            &&& !denied && !done ==> d.reason() == Some(
                "FITHAW failed: "@ + err.text() + "; the filesystem may still be frozen"@,
            )
        },
{
}

/// By which names a target is opened for a freeze: by the requested one alone
/// where one was requested, otherwise by its mount point and then its aliases.
pub proof fn law_the_names_of_a_freeze(target: freeze_plan::TargetView)
    ensures
        target.requested matches Some(name) ==> freeze_names(target) == seq![name],
        target.requested is None ==> freeze_names(target) == seq![target.mountpoint]
            + target.aliases,
{
}

/// A search tries its names in order, each once, and can tell of each what was
/// found there.
pub proof fn law_a_search_tries_every_name(
    names: Seq<Seq<u8>>,
    dev: (u32, u32),
    search: OpenView,
    err: KernelError,
    handle: u64,
)
    requires
        search.names == names,
        search.dev == dev,
        search.attempts.len() < names.len(),
    ensures
        ({
            let at = search.attempts.len() as int;
            let next = search.after(err);
            &&& OpenView::over(names, dev).path() == Some(names[0])
            &&& OpenView::over(names, dev).attempts.len() == 0
            &&& search.path() == Some(names[at])
            &&& search.mount(handle) == (kernel::MountView { handle, mountpoint: names[at], dev })
            &&& next.names == names
            &&& next.dev == dev
            &&& next.attempts == search.attempts.push(
                text::lossy(names[at]) + ": "@ + err.text(),
            )
            &&& next.path() is None <==> at + 1 == names.len()
            &&& at + 1 < names.len() ==> next.path() == Some(names[at + 1])
        }),
{
}

/// The drains of handles, each with the handle it is of, in forward mount
/// order.
pub open spec fn with_handles(
    held: Seq<kernel::MountView>,
    drains: Seq<Drained>,
) -> Seq<(kernel::MountView, Drained)> {
    Seq::new(drains.len(), |i: int| (held[held.len() - 1 - i], drains[i]))
}

/// What the drain of the handles leaves: those whose drain was incomplete, in
/// forward mount order, each once; and it counts those on which a call
/// succeeded.
pub proof fn law_what_a_drain_of_handles_leaves(
    held: Seq<kernel::MountView>,
    drains: Seq<Drained>,
)
    requires
        drains.len() <= held.len(),
    ensures
        held_after(HeldView::over(held), drains).pass.keep == with_handles(held, drains).filter(
            |it: (kernel::MountView, Drained)| it.1.reason() is Some,
        ).map_values(|it: (kernel::MountView, Drained)| it.0),
        held_after(HeldView::over(held), drains).pass.recovered == drains.filter(
            |d: Drained| d.successes > 0,
        ).len(),
    decreases drains.len(),
{
    reveal(Seq::filter);
    let kept = |it: (kernel::MountView, Drained)| it.1.reason() is Some;
    let handle = |it: (kernel::MountView, Drained)| it.0;
    if drains.len() > 0 {
        let front = drains.drop_last();
        law_what_a_drain_of_handles_leaves(held, front);
        law_every_held_handle_is_drained(held, front);
        let before = held_after(HeldView::over(held), front);
        assert(before.left.last() == held[held.len() - drains.len()]);
        let all = with_handles(held, drains);
        assert(all.drop_last() =~= with_handles(held, front));
        assert(all.last() == (before.left.last(), drains.last()));
        let tail = with_handles(held, front).filter(kept);
        assert(tail.push(all.last()).map_values(handle) =~= tail.map_values(handle).push(
            before.left.last(),
        ));
    } else {
        assert(with_handles(held, drains) =~= Seq::<(kernel::MountView, Drained)>::empty());
        assert(with_handles(held, drains).filter(kept).map_values(handle) =~= Seq::<
            kernel::MountView,
        >::empty());
    }
}

} // verus!
