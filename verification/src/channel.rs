//! The virtio-serial channel: opening it, the session on it, and reopening it.
//!
//! Opening maps `EBUSY` to the terminal [`OpenError::AlreadyOpen`] and retries
//! anything else with a bounded exponential backoff, until cancelled. The same
//! backoff separates sessions: a virtio port whose host side is disconnected
//! opens successfully and reports EOF at once, so reopening immediately would
//! spin. After a session that received nothing the delay doubles up to the
//! bound; a session that carried data resets it.
//!
//! Durations are in nanoseconds.

pub mod history;
pub mod session;

use vstd::prelude::*;
use vstd::string::*;

pub use session::{
    admits, Kind, Outbox, Session, SessionEnd, SessionReport, Started, Step, MAX_CONTROLS,
    MAX_QUEUED,
};

verus! {

/// First delay of the open-retry and reopen backoff.
pub const INITIAL_BACKOFF_NANOS: u64 = 1_000_000_000;

/// Upper bound of the reopen backoff.
pub const MAX_BACKOFF_NANOS: u64 = 30_000_000_000;

/// Read chunk size for the session loop.
pub const READ_CHUNK: usize = 4096;

/// `EBUSY` of Linux.
pub const EBUSY: i32 = 16;

/// `ENOENT` of Linux.
pub const ENOENT: i32 = 2;

/// Why the channel could not be opened.
#[derive(Debug, Clone, PartialEq, Eq)]
pub enum OpenError {
    /// Another process holds the single-open device (`EBUSY`): terminal,
    /// reported as `channel_already_open`.
    AlreadyOpen {
        /// The device path.
        path: String,
    },
    /// The device does not exist yet (`ENOENT`): retried with backoff.
    NotFound {
        /// The device path.
        path: String,
    },
    /// Any other error: retried with backoff.
    Io {
        /// The device path.
        path: String,
        /// The underlying error.
        source: String,
    },
}

/// A failure to open as a mathematical value.
pub ghost enum OpenErrorView {
    AlreadyOpen { path: Seq<char> },
    NotFound { path: Seq<char> },
    Io { path: Seq<char>, source: Seq<char> },
}

impl View for OpenError {
    type V = OpenErrorView;

    open spec fn view(&self) -> OpenErrorView {
        match self {
            OpenError::AlreadyOpen { path } => OpenErrorView::AlreadyOpen { path: path@ },
            OpenError::NotFound { path } => OpenErrorView::NotFound { path: path@ },
            OpenError::Io { path, source } => OpenErrorView::Io { path: path@, source: source@ },
        }
    }
}

/// What an `open(2)` failure with the error number `errno`, if it has one,
/// says of `path`.
pub open spec fn open_error(
    path: Seq<char>,
    errno: Option<i32>,
    source: Seq<char>,
) -> OpenErrorView {
    if errno == Some(EBUSY) {
        OpenErrorView::AlreadyOpen { path }
    } else if errno == Some(ENOENT) {
        OpenErrorView::NotFound { path }
    } else {
        OpenErrorView::Io { path, source }
    }
}

impl OpenErrorView {
    /// The error as a message.
    pub open spec fn text(self) -> Seq<char> {
        match self {
            OpenErrorView::AlreadyOpen { path } => "channel_already_open: "@ + path
                + " is held by another process"@,
            OpenErrorView::NotFound { path } => "channel "@ + path + " not found"@,
            OpenErrorView::Io { path, source } => "cannot open channel "@ + path + ": "@ + source,
        }
    }
}

impl OpenError {
    /// Classifies an `open(2)` failure for `path`: the error number, if it has
    /// one, and its description.
    pub fn from_io(path: &str, errno: Option<i32>, source: &str) -> (error: Self)
        ensures
            error@ == open_error(path@, errno, source@),
    {
        match errno {
            Some(EBUSY) => OpenError::AlreadyOpen { path: path.to_owned() },
            Some(ENOENT) => OpenError::NotFound { path: path.to_owned() },
            _ => OpenError::Io { path: path.to_owned(), source: source.to_owned() },
        }
    }

    /// `true` for [`OpenError::AlreadyOpen`], which must not be retried.
    pub fn is_terminal(&self) -> (terminal: bool)
        ensures
            terminal == (self@ is AlreadyOpen),
    {
        match self {
            OpenError::AlreadyOpen { .. } => true,
            _ => false,
        }
    }

    /// The error as a message.
    pub fn message(&self) -> (out: String)
        ensures
            out@ == self@.text(),
    {
        match self {
            OpenError::AlreadyOpen { path } => "channel_already_open: ".to_owned().concat(
                path.as_str(),
            ).concat(" is held by another process"),
            OpenError::NotFound { path } => "channel ".to_owned().concat(path.as_str()).concat(
                " not found",
            ),
            OpenError::Io { path, source } => "cannot open channel ".to_owned().concat(
                path.as_str(),
            ).concat(": ").concat(source.as_str()),
        }
    }
}

/// Bounds of the pause between sessions.
#[derive(Debug, Clone, Copy, PartialEq, Eq, Structural)]
pub struct Backoff {
    /// The pause after a session that carried data, and the first pause.
    pub initial: u64,
    /// The longest pause after repeated sessions that received nothing.
    pub max: u64,
}

impl Default for Backoff {
    fn default() -> (backoff: Self)
        ensures
            backoff == (Backoff { initial: INITIAL_BACKOFF_NANOS, max: MAX_BACKOFF_NANOS }),
    {
        Backoff { initial: INITIAL_BACKOFF_NANOS, max: MAX_BACKOFF_NANOS }
    }
}

/// `n` brought within `low` and `high`.
pub open spec fn within(n: int, low: int, high: int) -> int {
    if n < low {
        low
    } else if n > high {
        high
    } else {
        n
    }
}

impl Backoff {
    /// Bounds that make sense.
    pub open spec fn valid(self) -> bool {
        self.initial <= self.max
    }

    /// The pause before the next open: the first one after a session that
    /// carried data, otherwise twice the last, within the bounds.
    pub open spec fn after(self, last: u64, received: u64) -> int {
        if received > 0 {
            self.initial as int
        } else {
            within(2 * last, self.initial as int, self.max as int)
        }
    }

    /// The pause before the next open, after a session that began with the
    /// pause `last` and received `received` bytes.
    pub fn next_delay(self, last: u64, received: u64) -> (delay: u64)
        requires
            self.valid(),
        ensures
            delay == self.after(last, received),
            self.initial <= delay <= self.max,
    {
        if received > 0 {
            self.initial
        } else if last > self.max / 2 {
            self.max
        } else {
            let doubled: u64 = last * 2;
            if doubled < self.initial {
                self.initial
            } else {
                doubled
            }
        }
    }
}

/// What the open loop does next.
#[derive(Debug, PartialEq, Eq)]
pub enum Retry {
    /// The device cannot be had: give up with the error.
    Fail(OpenError),
    /// Wait this long (or until the stop changes), then report with
    /// [`OpenLoop::woke`].
    Wait(u64),
}

/// Opening with retry: how long to wait after a failure, and when to give up.
#[derive(Debug)]
pub struct OpenLoop {
    delay: u64,
}

impl OpenLoop {
    /// The wait after the next failure.
    pub closed spec fn delay(&self) -> u64 {
        self.delay
    }

    /// A wait within the bounds.
    pub open spec fn wf(&self) -> bool {
        INITIAL_BACKOFF_NANOS <= self.delay() <= MAX_BACKOFF_NANOS
    }

    /// Before the first attempt.
    pub fn new() -> (attempts: Self)
        ensures
            attempts.wf(),
            attempts.delay() == INITIAL_BACKOFF_NANOS,
    {
        OpenLoop { delay: INITIAL_BACKOFF_NANOS }
    }

    /// An attempt failed: a terminal failure is given up on, any other is
    /// waited out.
    pub fn failed(&self, error: OpenError) -> (retry: Retry)
        requires
            self.wf(),
        ensures
            match retry {
                Retry::Fail(e) => error@ is AlreadyOpen && e == error,
                Retry::Wait(delay) => !(error@ is AlreadyOpen) && delay == self.delay(),
            },
    {
        if error.is_terminal() {
            Retry::Fail(error)
        } else {
            Retry::Wait(self.delay)
        }
    }

    /// The wait is over, or the stop signal changed (`lost` when it never will
    /// again). `true` to try again, with twice the wait up to the bound;
    /// `false` when cancelled.
    pub fn woke(&mut self, cancelled: bool, lost: bool) -> (again: bool)
        requires
            old(self).wf(),
        ensures
            final(self).wf(),
            again == !(cancelled || lost),
            final(self).delay() == if again {
                within(2 * old(self).delay(), 0, MAX_BACKOFF_NANOS as int)
            } else {
                old(self).delay() as int
            },
    {
        if cancelled || lost {
            return false;
        }
        self.delay = if self.delay > MAX_BACKOFF_NANOS / 2 {
            MAX_BACKOFF_NANOS
        } else {
            self.delay * 2
        };
        true
    }
}

/// What happened to the serving loop.
#[derive(Debug, PartialEq, Eq)]
pub enum ServeEvent {
    /// The pause that was asked for is over, or the stop changed during it.
    Paused {
        /// A stop is requested and allowed now.
        stop: bool,
    },
    /// The descriptor that was already open was registered, or could not be.
    Registered(bool),
    /// Opening with retry ended.
    Opened(Opened),
    /// A session ended.
    Session(SessionReport),
}

/// How opening with retry ended.
#[derive(Debug, PartialEq, Eq)]
pub enum Opened {
    /// The channel is open.
    Open,
    /// Cancelled before it was.
    Cancelled {
        /// A stop is allowed now.
        may_stop: bool,
    },
    /// It cannot be had.
    Failed(OpenError),
}

/// What the serving loop does next.
#[derive(Debug, PartialEq, Eq)]
pub enum ServeAction {
    /// Wait this long; a stop that is requested meanwhile cuts the wait short.
    Pause(u64),
    /// Wait this long whatever the stop says.
    Sleep(u64),
    /// Register the descriptor that was already open.
    Register,
    /// Open with retry.
    Open,
    /// Run a session with a fresh decoder.
    Run,
    /// Serving is over.
    Stop,
    /// Serving failed for good.
    Fail(OpenError),
}

/// Where the serving loop stands.
#[derive(Debug, Clone, Copy, PartialEq, Eq, Structural)]
pub enum ServePhase {
    /// At the top of the loop.
    Top,
    /// In the pause before an open.
    Pausing,
    /// Registering the descriptor that was already open.
    Registering,
    /// Opening with retry.
    Opening,
    /// In the sleep after a stop that was requested and not allowed.
    Sleeping,
    /// In a session.
    Running,
    /// Over.
    Over,
}

/// The daemon's channel loop: open, run a session, and on EOF or an I/O error
/// reopen after a pause. Ends when a stop that is allowed is requested between
/// sessions, or with the terminal [`OpenError::AlreadyOpen`].
#[derive(Debug)]
pub struct Serving {
    phase: ServePhase,
    /// A descriptor is open that no session has used yet.
    initial: bool,
    /// The pause before the next open; none before the first.
    delay: u64,
    backoff: Backoff,
}

/// The serving loop as a mathematical value.
pub ghost struct ServingView {
    pub phase: ServePhase,
    pub initial: bool,
    pub delay: u64,
    pub backoff: Backoff,
}

impl View for Serving {
    type V = ServingView;

    closed spec fn view(&self) -> ServingView {
        ServingView {
            phase: self.phase,
            initial: self.initial,
            delay: self.delay,
            backoff: self.backoff,
        }
    }
}

impl ServingView {
    /// Which phase an event belongs to.
    pub open spec fn expects(self, event: ServeEvent) -> bool {
        match event {
            ServeEvent::Paused { .. } => self.phase == ServePhase::Pausing || self.phase
                == ServePhase::Sleeping,
            ServeEvent::Registered(_) => self.phase == ServePhase::Registering,
            ServeEvent::Opened(_) => self.phase == ServePhase::Opening,
            ServeEvent::Session(_) => self.phase == ServePhase::Running,
        }
    }

    /// From the pause on: use the descriptor that is open, or open one.
    pub open spec fn acquire(self) -> (ServingView, ServeAction) {
        if self.initial {
            (
                ServingView { phase: ServePhase::Registering, initial: false, ..self },
                ServeAction::Register,
            )
        } else {
            (ServingView { phase: ServePhase::Opening, ..self }, ServeAction::Open)
        }
    }

    /// A session ended: by a stop, or the loop goes on from its top with the
    /// pause that the session calls for.
    pub open spec fn session_over(self, report: SessionReport) -> (
        ServingView,
        Option<ServeAction>,
    ) {
        if report.end is Cancelled {
            (ServingView { phase: ServePhase::Over, ..self }, Some(ServeAction::Stop))
        } else {
            (
                ServingView {
                    phase: ServePhase::Top,
                    delay: self.backoff.after(self.delay, report.received) as u64,
                    ..self
                },
                None,
            )
        }
    }

    /// From the top of the loop on, where a stop is requested and allowed or
    /// not.
    pub open spec fn top(self, stop: bool) -> (ServingView, ServeAction) {
        if stop {
            (ServingView { phase: ServePhase::Over, ..self }, ServeAction::Stop)
        } else if self.delay > 0 {
            (ServingView { phase: ServePhase::Pausing, ..self }, ServeAction::Pause(self.delay))
        } else {
            self.acquire()
        }
    }
}

impl Serving {
    /// Bounds that make sense.
    pub open spec fn wf(&self) -> bool {
        self@.backoff.valid()
    }

    /// Before the first session; `initial` when a descriptor is already open.
    pub fn new(initial: bool, backoff: Backoff) -> (serving: Self)
        requires
            backoff.valid(),
        ensures
            serving.wf(),
            serving@ == (ServingView { phase: ServePhase::Top, initial, delay: 0, backoff }),
    {
        Serving { phase: ServePhase::Top, initial, delay: 0, backoff }
    }

    /// The top of the loop; `stop` when a stop is requested and allowed now.
    pub fn top(&mut self, stop: bool) -> (action: ServeAction)
        requires
            old(self).wf(),
            old(self)@.phase == ServePhase::Top,
        ensures
            final(self).wf(),
            (final(self)@, action) == old(self)@.top(stop),
    {
        if stop {
            self.phase = ServePhase::Over;
            return ServeAction::Stop;
        }
        if self.delay > 0 {
            self.phase = ServePhase::Pausing;
            return ServeAction::Pause(self.delay);
        }
        self.acquire()
    }

    fn acquire(&mut self) -> (action: ServeAction)
        requires
            old(self).wf(),
        ensures
            final(self).wf(),
            (final(self)@, action) == old(self)@.acquire(),
    {
        if self.initial {
            self.initial = false;
            self.phase = ServePhase::Registering;
            ServeAction::Register
        } else {
            self.phase = ServePhase::Opening;
            ServeAction::Open
        }
    }

    /// Something happened. `None`: go on from the top of the loop
    /// ([`top`](Self::top)).
    pub fn step(&mut self, event: ServeEvent) -> (action: Option<ServeAction>)
        requires
            old(self).wf(),
            old(self)@.expects(event),
        ensures
            final(self).wf(),
            ({
                let s = old(self)@;
                let (after, expected): (ServingView, Option<ServeAction>) = match event {
                    ServeEvent::Paused { stop } => if s.phase == ServePhase::Sleeping {
                        (ServingView { phase: ServePhase::Top, ..s }, None)
                    } else if stop {
                        (ServingView { phase: ServePhase::Over, ..s }, Some(ServeAction::Stop))
                    } else {
                        (s.acquire().0, Some(s.acquire().1))
                    },
                    ServeEvent::Registered(done) => if done {
                        (ServingView { phase: ServePhase::Running, ..s }, Some(ServeAction::Run))
                    } else {
                        (ServingView { phase: ServePhase::Top, ..s }, None)
                    },
                    ServeEvent::Opened(Opened::Open) => (
                        ServingView { phase: ServePhase::Running, ..s },
                        Some(ServeAction::Run),
                    ),
                    ServeEvent::Opened(Opened::Cancelled { may_stop }) => if may_stop {
                        (ServingView { phase: ServePhase::Over, ..s }, Some(ServeAction::Stop))
                    } else {
                        (
                            ServingView { phase: ServePhase::Sleeping, ..s },
                            Some(ServeAction::Sleep(s.backoff.initial)),
                        )
                    },
                    ServeEvent::Opened(Opened::Failed(error)) => (
                        ServingView { phase: ServePhase::Over, ..s },
                        Some(ServeAction::Fail(error)),
                    ),
                    ServeEvent::Session(report) => s.session_over(report),
                };
                final(self)@ == after && action == expected
            }),
    {
        match event {
            ServeEvent::Paused { stop } => {
                if self.phase == ServePhase::Sleeping {
                    self.phase = ServePhase::Top;
                    None
                } else if stop {
                    self.phase = ServePhase::Over;
                    Some(ServeAction::Stop)
                } else {
                    Some(self.acquire())
                }
            },
            ServeEvent::Registered(done) => {
                if done {
                    self.phase = ServePhase::Running;
                    Some(ServeAction::Run)
                } else {
                    self.phase = ServePhase::Top;
                    None
                }
            },
            ServeEvent::Opened(Opened::Open) => {
                self.phase = ServePhase::Running;
                Some(ServeAction::Run)
            },
            ServeEvent::Opened(Opened::Cancelled { may_stop }) => {
                if may_stop {
                    self.phase = ServePhase::Over;
                    Some(ServeAction::Stop)
                } else {
                    self.phase = ServePhase::Sleeping;
                    Some(ServeAction::Sleep(self.backoff.initial))
                }
            },
            ServeEvent::Opened(Opened::Failed(error)) => {
                self.phase = ServePhase::Over;
                Some(ServeAction::Fail(error))
            },
            ServeEvent::Session(report) => {
                if let SessionEnd::Cancelled = report.end {
                    self.phase = ServePhase::Over;
                    return Some(ServeAction::Stop);
                }
                self.delay = self.backoff.next_delay(self.delay, report.received);
                self.phase = ServePhase::Top;
                None
            },
        }
    }
}

/// A port whose host side is disconnected is not reopened in a loop: after the
/// first session every open is preceded by a pause within the bounds, which a
/// session without data never shortens. A pause of nought is no pause.
pub proof fn law_reopening_backs_off(backoff: Backoff, last: u64, received: u64)
    requires
        backoff.valid(),
        last <= backoff.max,
    ensures
        backoff.initial <= backoff.after(last, received) <= backoff.max,
        received == 0 ==> backoff.after(last, received) >= last,
        received == 0 && last >= backoff.initial && 2 * last <= backoff.max ==> backoff.after(
            last,
            received,
        ) == 2 * last,
        received > 0 ==> backoff.after(last, received) == backoff.initial,
{
}

/// The pause before the next open follows from the session that just ended: the
/// first one if it carried data, otherwise twice the pause before that session,
/// within the bounds. Where it is nought the next open follows at once.
pub proof fn law_the_pause_follows_from_the_session(s: ServingView, report: SessionReport)
    requires
        s.backoff.valid(),
        !(report.end is Cancelled),
    ensures
        ({
            let pause = if report.received > 0 {
                s.backoff.initial as int
            } else {
                within(2 * s.delay, s.backoff.initial as int, s.backoff.max as int)
            };
            let next = s.session_over(report).0;
            &&& next.delay == pause
            &&& next.top(false).1 == if pause > 0 {
                ServeAction::Pause(pause as u64)
            } else {
                next.acquire().1
            }
        }),
{
}

/// A device that another process holds, and no other failure, is given up on;
/// one that does not exist and every other failure are waited out. Each error
/// names the device, and one of no known kind says what the system said.
pub proof fn law_what_a_failure_to_open_says(
    path: Seq<char>,
    errno: Option<i32>,
    source: Seq<char>,
)
    ensures
        errno == Some(16i32) ==> open_error(path, errno, source).text() == "channel_already_open: "@
            + path + " is held by another process"@,
        errno == Some(2i32) ==> open_error(path, errno, source).text() == "channel "@ + path
            + " not found"@,
        errno != Some(16i32) && errno != Some(2i32) ==> open_error(path, errno, source).text()
            == "cannot open channel "@ + path + ": "@ + source,
{
}

/// A device is given up on if and only if the system says that it is busy.
pub proof fn law_only_a_busy_device_is_given_up_on(
    path: &str,
    errno: Option<i32>,
    source: &str,
    error: OpenError,
    terminal: bool,
)
    requires
        call_ensures(OpenError::from_io, (path, errno, source), error),
        call_ensures(OpenError::is_terminal, (&error,), terminal),
    ensures
        terminal <==> errno == Some(16i32),
{
}

/// The pauses of a loop that hears nothing: a second, then twice as long each
/// time, never more than half a minute; and a second again once something was
/// heard.
pub proof fn law_the_default_pauses(
    backoff: Backoff,
    last: u64,
    received: u64,
    delay: u64,
)
    requires
        backoff == (Backoff { initial: INITIAL_BACKOFF_NANOS, max: MAX_BACKOFF_NANOS }),
        call_ensures(Backoff::next_delay, (backoff, last, received), delay),
    ensures
        received > 0 ==> delay == 1_000_000_000,
        received == 0 && 2 * last <= 1_000_000_000 ==> delay == 1_000_000_000,
        received == 0 && 1_000_000_000 <= 2 * last <= 30_000_000_000 ==> delay == 2 * last,
        received == 0 && 2 * last >= 30_000_000_000 ==> delay == 30_000_000_000,
{
}

/// The pause that was set is the one that is waited, whatever its length: it
/// is the first one after a session that carried data, otherwise twice the last,
/// no less than the first and no more than the longest.
pub proof fn law_each_pause(backoff: Backoff, last: u64, received: u64, delay: u64)
    requires
        backoff.initial <= backoff.max,
        call_ensures(Backoff::next_delay, (backoff, last, received), delay),
    ensures
        received > 0 ==> delay == backoff.initial,
        received == 0 && 2 * last < backoff.initial ==> delay == backoff.initial,
        received == 0 && backoff.initial <= 2 * last <= backoff.max ==> delay == 2 * last,
        received == 0 && backoff.max < 2 * last ==> delay == backoff.max,
{
}

/// Between sessions: a stop ends the serving; a pause that is owed is waited;
/// otherwise the descriptor that is already open is used, once, and after that
/// the channel is opened. Nothing else about the loop changes.
pub proof fn law_what_comes_between_sessions(s: ServingView)
    ensures
        s.top(true).1 == ServeAction::Stop,
        s.top(true).0.phase == ServePhase::Over,
        s.delay > 0 ==> s.top(false).1 == ServeAction::Pause(s.delay) && s.top(false).0.phase
            == ServePhase::Pausing,
        s.delay == 0 && s.initial ==> s.top(false).1 == ServeAction::Register && s.top(
            false,
        ).0.phase == ServePhase::Registering && !s.top(false).0.initial,
        s.delay == 0 && !s.initial ==> s.top(false).1 == ServeAction::Open && s.top(false).0.phase
            == ServePhase::Opening && !s.top(false).0.initial,
        forall|stop: bool| (#[trigger] s.top(stop)).0.delay == s.delay && s.top(stop).0.backoff
            == s.backoff,
        s.acquire().1 == if s.initial {
            ServeAction::Register
        } else {
            ServeAction::Open
        },
        s.acquire().0.delay == s.delay,
        s.acquire().0.backoff == s.backoff,
        !s.acquire().0.initial,
{
}

/// Only a session that was stopped ends the serving: after any other the loop
/// goes on.
pub proof fn law_only_a_stop_ends_the_serving(s: ServingView, report: SessionReport)
    ensures
        report.end is Cancelled ==> s.session_over(report).1 == Some(ServeAction::Stop) && s.session_over(
            report,
        ).0.phase == ServePhase::Over,
        !(report.end is Cancelled) ==> s.session_over(report).1 is None && s.session_over(
            report,
        ).0.phase == ServePhase::Top,
        s.session_over(report).0.initial == s.initial,
        s.session_over(report).0.backoff == s.backoff,
{
}

/// After a failure to open, the device is given up on if it is held by another
/// process; after any other the wait is a second at first, and then twice as
/// long each time up to half a minute. A stop ends the attempts.
pub proof fn law_how_opening_is_retried(
    fresh: OpenLoop,
    failing: OpenLoop,
    error: OpenError,
    retry: Retry,
    waiting: &mut OpenLoop,
    cancelled: bool,
    lost: bool,
    again: bool,
)
    requires
        call_ensures(OpenLoop::new, (), fresh),
        failing.wf(),
        call_ensures(OpenLoop::failed, (&failing, error), retry),
        old(waiting).wf(),
        call_ensures(OpenLoop::woke, (waiting, cancelled, lost), again),
    ensures
        fresh.delay() == 1_000_000_000,
        error is AlreadyOpen ==> retry == Retry::Fail(error),
        !(error is AlreadyOpen) ==> retry == Retry::Wait(failing.delay()),
        again <==> !cancelled && !lost,
        again && 2 * old(waiting).delay() <= 30_000_000_000 ==> final(waiting).delay() == 2
            * old(waiting).delay(),
        again && 2 * old(waiting).delay() > 30_000_000_000 ==> final(waiting).delay()
            == 30_000_000_000,
        !again ==> final(waiting).delay() == old(waiting).delay(),
{
}

/// What each event of the serving loop leads to.
pub proof fn law_what_each_event_leads_to(
    s: &mut Serving,
    event: ServeEvent,
    action: Option<ServeAction>,
)
    requires
        old(s).wf(),
        old(s)@.expects(event),
        call_ensures(Serving::step, (s, event), action),
    ensures
        old(s)@.phase == ServePhase::Sleeping ==> action is None,
        old(s)@.phase == ServePhase::Pausing && event == (ServeEvent::Paused { stop: true })
            ==> action == Some(ServeAction::Stop),
        old(s)@.phase == ServePhase::Pausing && event == (ServeEvent::Paused { stop: false }) ==> {
            &&& old(s)@.initial ==> action == Some(ServeAction::Register)
            &&& !old(s)@.initial ==> action == Some(ServeAction::Open)
        },
        event == ServeEvent::Registered(true) ==> action == Some(ServeAction::Run),
        event == ServeEvent::Registered(false) ==> action is None && final(s)@.phase
            == ServePhase::Top,
        event == ServeEvent::Opened(Opened::Open) ==> action == Some(ServeAction::Run),
        event == ServeEvent::Opened(Opened::Cancelled { may_stop: true }) ==> action == Some(
            ServeAction::Stop,
        ),
        event == ServeEvent::Opened(Opened::Cancelled { may_stop: false }) ==> action == Some(
            ServeAction::Sleep(old(s)@.backoff.initial),
        ),
        event matches ServeEvent::Opened(Opened::Failed(error)) ==> action == Some(
            ServeAction::Fail(error),
        ),
        event matches ServeEvent::Session(report) ==> {
            &&& report.end is Cancelled ==> action == Some(ServeAction::Stop)
            &&& !(report.end is Cancelled) ==> action is None && final(s)@.phase
                == ServePhase::Top
            &&& !(report.end is Cancelled) && report.received > 0 ==> final(s)@.delay
                == old(s)@.backoff.initial
            &&& !(report.end is Cancelled) && report.received == 0 && old(s)@.backoff.initial <= 2
                * old(s)@.delay <= old(s)@.backoff.max ==> final(s)@.delay == 2 * old(s)@.delay
        },
        final(s)@.backoff == old(s)@.backoff,
{
}

} // verus!
