//! From the first step of serving to the end of the process: recovery comes
//! before any channel, a stop is asked for only while everything is thawed and
//! asked for again until it is honoured, and the process leaves only thawed.
//!
//! No signal is listened for and nothing is served here. Whoever runs the loop
//! carries out the [`ExitAction`] and reports the [`ExitEvent`] with the state
//! as it is then.

use vstd::prelude::*;

use crate::state::FreezeState;

verus! {

/// What happened.
#[derive(Debug, Clone, Copy, PartialEq, Eq, Structural)]
pub enum ExitEvent {
    /// The process is ready to serve.
    Started,
    /// Recovery was set up, or could not be.
    Recovered,
    /// A signal asked for a stop.
    Signalled,
    /// The wait between two looks at the state is over.
    Polled,
    /// Serving is over: a stop was honoured, or the channel is lost for good.
    Served,
}

/// What comes next.
#[derive(Debug, Clone, Copy, PartialEq, Eq, Structural)]
pub enum ExitAction {
    /// Enter recovery: the ring and the watchdog.
    Recover,
    /// Serve the channel until a signal comes or serving is over.
    Serve,
    /// Ask the serving loop to stop, then wait as for
    /// [`Poll`](ExitAction::Poll) with the same interval.
    RequestStop,
    /// Wait this many milliseconds, or until serving is over.
    Poll(u64),
    /// Leave.
    Leave,
}

/// Where the process stands.
#[derive(Debug, Clone, Copy, PartialEq, Eq, Structural)]
pub enum ExitPhase {
    /// Nothing was begun.
    Starting,
    /// Entering recovery.
    Recovering,
    /// Serving, and no signal came.
    Serving,
    /// Serving, and a stop is to be asked for.
    Stopping,
    /// Serving is over; the state may not be thawed yet.
    Leaving,
    /// Left.
    Gone,
}

/// The way of the process to its end.
#[derive(Debug)]
pub struct Exit {
    phase: ExitPhase,
    recovery: bool,
    signalled: bool,
    poll: u64,
}

/// The way of the process to its end as a mathematical value.
pub ghost struct ExitView {
    pub phase: ExitPhase,
    /// A marker was found: the process starts frozen.
    pub recovery: bool,
    /// A signal asked for a stop.
    pub signalled: bool,
    /// Milliseconds between two looks at the state.
    pub poll: u64,
}

impl View for Exit {
    type V = ExitView;

    closed spec fn view(&self) -> ExitView {
        ExitView {
            phase: self.phase,
            recovery: self.recovery,
            signalled: self.signalled,
            poll: self.poll,
        }
    }
}

impl ExitView {
    /// Nothing was begun.
    pub open spec fn at_start(self) -> bool {
        self.phase == ExitPhase::Starting
    }

    /// What can happen now.
    pub open spec fn expects(self, event: ExitEvent) -> bool {
        match event {
            ExitEvent::Started => self.phase == ExitPhase::Starting,
            ExitEvent::Recovered => self.phase == ExitPhase::Recovering,
            ExitEvent::Signalled => self.phase == ExitPhase::Serving,
            ExitEvent::Polled => self.phase == ExitPhase::Stopping || self.phase
                == ExitPhase::Leaving,
            ExitEvent::Served => self.phase == ExitPhase::Serving || self.phase
                == ExitPhase::Stopping,
        }
    }

    /// A stop is to be asked for: now if everything is thawed, otherwise later.
    pub open spec fn stopping(self, state: FreezeState) -> (ExitView, ExitAction) {
        (
            ExitView { phase: ExitPhase::Stopping, signalled: true, ..self },
            if state == FreezeState::Thawed {
                ExitAction::RequestStop
            } else {
                ExitAction::Poll(self.poll)
            },
        )
    }

    /// Serving is over: leaves if everything is thawed, otherwise waits for it.
    pub open spec fn leaving(self, state: FreezeState) -> (ExitView, ExitAction) {
        if state == FreezeState::Thawed {
            (ExitView { phase: ExitPhase::Gone, ..self }, ExitAction::Leave)
        } else {
            (ExitView { phase: ExitPhase::Leaving, ..self }, ExitAction::Poll(self.poll))
        }
    }

    /// What comes next, and where the process stands then.
    pub open spec fn after(self, event: ExitEvent, state: FreezeState) -> (ExitView, ExitAction) {
        match event {
            ExitEvent::Started => if self.recovery {
                (ExitView { phase: ExitPhase::Recovering, ..self }, ExitAction::Recover)
            } else {
                (ExitView { phase: ExitPhase::Serving, ..self }, ExitAction::Serve)
            },
            ExitEvent::Recovered => (
                ExitView { phase: ExitPhase::Serving, ..self },
                ExitAction::Serve,
            ),
            ExitEvent::Signalled => self.stopping(state),
            ExitEvent::Polled => if self.phase == ExitPhase::Stopping {
                self.stopping(state)
            } else {
                self.leaving(state)
            },
            ExitEvent::Served => self.leaving(state),
        }
    }

    /// A stop is asked for only after a signal.
    pub open spec fn valid(self) -> bool {
        self.phase == ExitPhase::Stopping ==> self.signalled
    }
}

impl Exit {
    /// Before anything was begun. `poll`: milliseconds between two looks at the
    /// state.
    pub fn new(recovery: bool, poll: u64) -> (exit: Self)
        ensures
            exit@ == (ExitView { phase: ExitPhase::Starting, recovery, signalled: false, poll }),
            exit@.valid(),
    {
        Exit { phase: ExitPhase::Starting, recovery, signalled: false, poll }
    }

    /// Something happened, while the state is `state`.
    pub fn step(&mut self, event: ExitEvent, state: FreezeState) -> (action: ExitAction)
        requires
            old(self)@.expects(event),
        ensures
            (final(self)@, action) == old(self)@.after(event, state),
            old(self)@.valid() ==> final(self)@.valid(),
    {
        match event {
            ExitEvent::Started => {
                if self.recovery {
                    self.phase = ExitPhase::Recovering;
                    ExitAction::Recover
                } else {
                    self.phase = ExitPhase::Serving;
                    ExitAction::Serve
                }
            },
            ExitEvent::Recovered => {
                self.phase = ExitPhase::Serving;
                ExitAction::Serve
            },
            ExitEvent::Signalled => self.stopping(state),
            ExitEvent::Polled => {
                if self.phase == ExitPhase::Stopping {
                    self.stopping(state)
                } else {
                    self.leaving(state)
                }
            },
            ExitEvent::Served => self.leaving(state),
        }
    }

    fn stopping(&mut self, state: FreezeState) -> (action: ExitAction)
        ensures
            (final(self)@, action) == old(self)@.stopping(state),
    {
        self.phase = ExitPhase::Stopping;
        self.signalled = true;
        if state == FreezeState::Thawed {
            ExitAction::RequestStop
        } else {
            ExitAction::Poll(self.poll)
        }
    }

    fn leaving(&mut self, state: FreezeState) -> (action: ExitAction)
        ensures
            (final(self)@, action) == old(self)@.leaving(state),
    {
        if state == FreezeState::Thawed {
            self.phase = ExitPhase::Gone;
            ExitAction::Leave
        } else {
            self.phase = ExitPhase::Leaving;
            ExitAction::Poll(self.poll)
        }
    }
}

/// Every way out obeys the same rule: the process leaves only thawed. A stop is
/// asked for only after a signal and only while everything is thawed, and a
/// process that starts with the marker present enters recovery first.
pub proof fn law_leaves_only_thawed(e: ExitView, event: ExitEvent, state: FreezeState)
    requires
        e.valid(),
        e.expects(event),
    ensures
        e.after(event, state).1 is Leave ==> state == FreezeState::Thawed,
        e.after(event, state).1 is RequestStop ==> (e.signalled || event is Signalled) && state
            == FreezeState::Thawed,
        e.at_start() && e.recovery ==> e.after(event, state).1 is Recover,
{
}

/// Recovery comes before and independently of any channel: nothing is served
/// before it was set up.
pub proof fn law_recovery_comes_before_serving(e: ExitView, event: ExitEvent, state: FreezeState)
    requires
        e.expects(event),
    ensures
        e.after(event, state).1 is Serve ==> event is Recovered || (e.at_start() && !e.recovery),
        e.at_start() && e.recovery ==> e.after(event, state).0.phase == ExitPhase::Recovering,
        e.after(event, state).0.recovery == e.recovery,
{
}

/// A stop that was asked for is not forgotten: until serving is over, every look
/// at the state asks again, or waits because something is not thawed.
pub proof fn law_a_stop_is_asked_for_until_serving_is_over(e: ExitView, state: FreezeState)
    requires
        e.phase == ExitPhase::Stopping,
    ensures
        e.after(ExitEvent::Polled, state).0.phase == ExitPhase::Stopping,
        e.after(ExitEvent::Polled, state).1 == if state == FreezeState::Thawed {
            ExitAction::RequestStop
        } else {
            ExitAction::Poll(e.poll)
        },
{
}

/// Once serving is over, by a stop or because the channel is lost for good, the
/// process waits for `Thawed` and leaves as soon as it sees it.
pub proof fn law_the_end_waits_for_the_thaw(e: ExitView, event: ExitEvent, state: FreezeState)
    requires
        e.expects(event),
        event is Served || e.phase == ExitPhase::Leaving,
    ensures
        state == FreezeState::Thawed ==> e.after(event, state).1 is Leave,
        state != FreezeState::Thawed ==> e.after(event, state) == (
            ExitView { phase: ExitPhase::Leaving, ..e },
            ExitAction::Poll(e.poll),
        ),
{
}

/// A process without a marker serves at once; one with a marker recovers and
/// then serves. A signal leads to the stop, which is asked for at once if
/// everything is thawed.
pub proof fn law_what_a_process_does(e: ExitView, state: FreezeState)
    ensures
        !e.recovery ==> e.after(ExitEvent::Started, state).1 == ExitAction::Serve && e.after(
            ExitEvent::Started,
            state,
        ).0.phase == ExitPhase::Serving,
        e.recovery ==> e.after(ExitEvent::Started, state).1 == ExitAction::Recover && e.after(
            ExitEvent::Started,
            state,
        ).0.phase == ExitPhase::Recovering,
        e.after(ExitEvent::Recovered, state).1 == ExitAction::Serve,
        e.after(ExitEvent::Recovered, state).0.phase == ExitPhase::Serving,
        e.after(ExitEvent::Signalled, state).0.phase == ExitPhase::Stopping,
        e.after(ExitEvent::Signalled, state).0.signalled,
        state == FreezeState::Thawed ==> e.after(ExitEvent::Signalled, state).1
            == ExitAction::RequestStop,
        state != FreezeState::Thawed ==> e.after(ExitEvent::Signalled, state).1
            == ExitAction::Poll(e.poll),
        state == FreezeState::Thawed ==> e.after(ExitEvent::Served, state).1 == ExitAction::Leave
            && e.after(ExitEvent::Served, state).0.phase == ExitPhase::Gone,
        forall|event: ExitEvent| (#[trigger] e.after(event, state)).0.poll == e.poll && e.after(
            event,
            state,
        ).0.recovery == e.recovery,
{
}

} // verus!
