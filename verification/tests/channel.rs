//! Sessions and the serving loop, driven step by step.

use qeminga::channel::session::{
    Outbox, Session, SessionEnd, SessionReport, Started, Step, Written,
};
use qeminga::channel::{
    Backoff, Kind, OpenError, OpenLoop, Opened, Retry, ServeAction, ServeEvent, Serving,
    MAX_CONTROLS, MAX_QUEUED,
};
use qeminga::framing::DecodeEvent;
use qeminga::state::{FreezeState, FreezeStateMachine};

const EACCES: i32 = 13;
const EBUSY: i32 = 16;
const ENOENT: i32 = 2;

/// A session whose commands are answered by name. A command whose name holds
/// `quick` finishes at once; one whose name holds `big` gets a large reply. The
/// lane is the name's prefix. A finished freeze forbids a stop, a finished thaw
/// allows it again.
struct Host {
    session: Session,
    stop: bool,
    allow_stop: bool,
    started: Vec<String>,
    running: Vec<(u64, String)>,
    peak: usize,
    wire: Vec<u8>,
    /// How much the host accepts, or all of it.
    accepts: Option<usize>,
    can_read: bool,
    end: Option<SessionReport>,
}

fn kind(event: &DecodeEvent) -> Kind {
    let DecodeEvent::Frame { bytes, .. } = event else {
        return Kind::Control;
    };
    if bytes.starts_with(b"ctl-") {
        Kind::Control
    } else if bytes.starts_with(b"thaw-") {
        Kind::Thaw
    } else if bytes.starts_with(b"freeze-") {
        Kind::Freeze
    } else {
        Kind::Ordinary
    }
}

impl Host {
    fn new() -> Self {
        let mut host = Host {
            session: Session::new(),
            stop: false,
            allow_stop: true,
            started: Vec::new(),
            running: Vec::new(),
            peak: 0,
            wire: Vec::new(),
            accepts: None,
            can_read: false,
            end: None,
        };
        host.turn();
        host
    }

    fn finish(&mut self, ticket: u64, name: &str) {
        if name.starts_with("freeze") {
            self.allow_stop = false;
        } else if name.starts_with("thaw") {
            self.allow_stop = true;
        }
        let reply = if name.starts_with("silent") {
            None
        } else if name.contains("big") {
            Some([vec![b'x'; 4096], b"\n".to_vec()].concat())
        } else {
            Some(format!("{name}\n").into_bytes())
        };
        self.session.finished(ticket, reply);
    }

    /// Steps until nothing happens by itself.
    fn turn(&mut self) {
        while self.end.is_none() {
            match self.session.step(self.stop, self.allow_stop, true) {
                Step::End { report, flush } => {
                    if flush && self.accepts.is_none() {
                        self.wire.extend_from_slice(self.session.pending_write());
                    }
                    self.end = Some(report);
                }
                Step::Go {
                    start,
                    running: _,
                    can_write,
                    can_read,
                } => {
                    self.can_read = can_read;
                    let mut again = false;
                    for started in start {
                        let DecodeEvent::Frame { bytes, .. } = started.event else {
                            self.session.finished(started.ticket, None);
                            continue;
                        };
                        let name = String::from_utf8(bytes).unwrap();
                        self.started.push(name.clone());
                        self.peak = self.peak.max(self.running.len() + 1);
                        if name.contains("quick") {
                            self.finish(started.ticket, &name);
                            again = true;
                        } else {
                            self.running.push((started.ticket, name));
                        }
                    }
                    if can_write {
                        let pending = self.session.pending_write().to_vec();
                        let n = self.accepts.map_or(pending.len(), |most| most.min(pending.len()));
                        if n > 0 {
                            self.wire.extend_from_slice(&pending[..n]);
                            if let Some(most) = &mut self.accepts {
                                *most -= n;
                            }
                            self.session.wrote(n);
                            again = true;
                        }
                    }
                    if !again {
                        return;
                    }
                }
            }
        }
    }

    fn send(&mut self, bytes: &[u8]) {
        assert!(self.can_read, "the channel is not read");
        for event in self.session.read(bytes) {
            let kind = kind(&event);
            self.session.enqueue(kind, event);
        }
        self.turn();
    }

    fn close(&mut self) {
        self.session.read(b"");
        self.turn();
    }

    /// Every command that is running now finishes.
    fn release(&mut self) {
        for (ticket, name) in std::mem::take(&mut self.running) {
            self.finish(ticket, &name);
        }
        self.turn();
    }

    fn ask_to_stop(&mut self) {
        self.stop = true;
        self.session.stop_changed(true, self.allow_stop);
        self.turn();
    }

    fn ended(&self) -> &SessionEnd {
        &self.end.as_ref().unwrap().end
    }
}

#[test]
fn session_reads_frames_dispatches_and_writes_replies() {
    let mut host = Host::new();
    host.send(b"quick-one\nquick-two\nquick-thr");
    host.send(b"ee\nquick-four\n");
    assert_eq!(
        host.wire,
        b"quick-one\nquick-two\nquick-three\nquick-four\n"
    );
    host.close();
    assert_eq!(host.ended(), &SessionEnd::Eof);
    assert_eq!(host.started.len(), 4);
    assert_eq!(host.end.unwrap().received, 43);
}

#[test]
fn cancel_finishes_the_in_flight_command_and_waits_for_may_stop() {
    let mut host = Host::new();
    host.send(b"freeze-1\n");
    host.allow_stop = false;
    // The stop arrives while the command is being handled: the command must
    // complete (its reply is written) and, because a stop is not allowed yet,
    // the session must go on.
    host.ask_to_stop();
    assert!(host.end.is_none(), "handler still running");
    host.release();
    assert_eq!(host.wire, b"freeze-1\n", "the in-flight command completed");
    assert!(
        host.end.is_none(),
        "not allowed to stop yet: the session keeps serving"
    );
    // Once it is allowed, the next notification ends the session.
    host.allow_stop = true;
    host.ask_to_stop();
    assert_eq!(host.ended(), &SessionEnd::Cancelled);
    assert_eq!(host.ended().message(), "cancelled");
}

#[test]
fn a_control_runs_while_a_freeze_reply_is_pending_and_replies_keep_request_order() {
    let mut host = Host::new();
    host.send(b"freeze-1\nctl-quick-2\n");
    assert_eq!(host.started, ["freeze-1", "ctl-quick-2"]);
    assert_eq!(host.peak, 2, "both ran at once");
    assert!(host.wire.is_empty());
    host.release();
    assert_eq!(host.wire, b"freeze-1\nctl-quick-2\n");
    host.close();
    assert_eq!(host.ended(), &SessionEnd::Eof);
}

#[test]
fn an_ordinary_command_waits_for_the_one_running_before_it() {
    // The freeze behind an ordinary command waits, and a control behind that
    // freeze waits its turn (admission is in request order).
    let mut host = Host::new();
    host.send(b"slow-1\nfreeze-2\nctl-quick-3\n");
    assert_eq!(host.started, ["slow-1"], "nothing overtakes");
    host.release();
    assert_eq!(host.started, ["slow-1", "freeze-2", "ctl-quick-3"]);
    assert_eq!(host.peak, 2);
    assert_eq!(host.wire, b"slow-1\n");
    host.release();
    assert_eq!(host.wire, b"slow-1\nfreeze-2\nctl-quick-3\n");
}

#[test]
fn a_thaw_runs_beside_a_freeze_but_not_beside_an_ordinary_command() {
    let mut host = Host::new();
    host.send(b"freeze-1\nthaw-quick-2\n");
    assert_eq!(host.started, ["freeze-1", "thaw-quick-2"]);
    host.release();
    assert_eq!(host.wire, b"freeze-1\nthaw-quick-2\n");
    host.send(b"slow-3\nthaw-quick-4\n");
    assert_eq!(host.started.len(), 3, "the thaw waits for the trim");
    host.release();
    assert_eq!(
        host.wire,
        b"freeze-1\nthaw-quick-2\nslow-3\nthaw-quick-4\n"
    );
    assert_eq!(host.peak, 2);
}

#[test]
fn at_most_max_controls_run_beside_the_command_in_progress() {
    let mut host = Host::new();
    let mut frames = b"freeze-0\n".to_vec();
    frames.extend((1..=10).flat_map(|i| format!("ctl-{i}\n").into_bytes()));
    host.send(&frames);
    assert_eq!(host.running.len(), 1 + MAX_CONTROLS);
    while host.wire.len() < frames.len() {
        host.release();
        assert!(host.running.len() <= 1 + MAX_CONTROLS);
    }
    assert_eq!(host.wire, frames, "all replies, in request order");
    assert_eq!(host.peak, 1 + MAX_CONTROLS);
}

#[test]
fn a_thaw_behind_finished_controls_still_reaches_the_pending_freeze() {
    // Finished controls whose replies wait behind the freeze reply hold no
    // lane: the thaw sent after them is read and started.
    let mut host = Host::new();
    host.send(b"freeze-1\n");
    for i in 2..=4 {
        host.send(format!("ctl-quick-{i}\n").as_bytes());
    }
    host.send(b"thaw-quick-5\n");
    assert_eq!(host.started.last().unwrap(), "thaw-quick-5");
    host.release();
    assert_eq!(
        host.wire,
        b"freeze-1\nctl-quick-2\nctl-quick-3\nctl-quick-4\nthaw-quick-5\n"
    );
}

#[test]
fn the_queue_is_bounded_and_a_frame_behind_a_saturated_backlog_waits_for_the_reply() {
    // So many commands unanswered: the channel is not read, so a thaw is
    // started only once the freeze reply is out.
    let mut host = Host::new();
    host.send(b"freeze-1\n");
    let mut expected = b"freeze-1\n".to_vec();
    for i in 2..=MAX_QUEUED {
        host.send(format!("ctl-quick-{i}\n").as_bytes());
        expected.extend(format!("ctl-quick-{i}\n").into_bytes());
    }
    assert!(!host.can_read, "the thaw is not read");
    host.release();
    host.send(b"thaw-quick-9\n");
    expected.extend(b"thaw-quick-9\n");
    assert_eq!(host.wire, expected);
    assert_eq!(host.started.len(), MAX_QUEUED + 1);
}

#[test]
fn a_blocked_reply_does_not_stall_the_commands_behind_it() {
    // The first reply is far larger than what the host accepts: the command
    // behind it still completes, and a stop then ends the session without the
    // host ever reading.
    let mut host = Host::new();
    host.accepts = Some(16);
    host.send(b"ctl-big-quick-1\nslow-2\n");
    assert_eq!(host.started, ["ctl-big-quick-1", "slow-2"]);
    host.release();
    assert!(host.end.is_none());
    host.ask_to_stop();
    assert_eq!(host.ended(), &SessionEnd::Cancelled);
    assert_eq!(host.wire, vec![b'x'; 16]);
}

#[test]
fn a_stop_during_a_blocked_reply_finishes_the_running_command_and_starts_nothing() {
    let mut host = Host::new();
    host.accepts = Some(16);
    host.send(b"ctl-big-quick-1\nslow-2\n");
    host.ask_to_stop();
    assert!(host.end.is_none(), "waits for the running command");
    assert!(!host.can_read, "a frame sent meanwhile is never read");
    host.release();
    assert_eq!(host.ended(), &SessionEnd::Cancelled);
    assert_eq!(host.started, ["ctl-big-quick-1", "slow-2"]);
}

#[test]
fn a_stop_accepted_while_a_freeze_runs_is_withdrawn_once_it_froze() {
    // The stop is accepted while the freeze is still running; the freeze
    // finishes and forbids the stop, so the session serves on and stops on the
    // standing request once thawed.
    let mut host = Host::new();
    host.send(b"freeze-1\n");
    host.ask_to_stop();
    assert!(host.end.is_none());
    host.release();
    assert_eq!(host.wire, b"freeze-1\n");
    assert!(host.end.is_none(), "frozen: the stop is withdrawn");
    host.send(b"thaw-quick-2\n");
    assert_eq!(host.wire, b"freeze-1\nthaw-quick-2\n");
    assert_eq!(host.ended(), &SessionEnd::Cancelled);
}

#[test]
fn eof_finishes_the_commands_received_before_the_session_ends() {
    let mut host = Host::new();
    host.send(b"slow-1\nquick-2\n");
    host.close();
    assert!(host.end.is_none(), "waits for the command in flight");
    host.release();
    assert_eq!(host.ended(), &SessionEnd::Eof);
    assert_eq!(host.started, ["slow-1", "quick-2"]);
}

#[test]
fn session_ends_cleanly_on_eof_and_reports_reason() {
    let mut host = Host::new();
    host.close();
    assert_eq!(host.ended(), &SessionEnd::Eof);
    assert_eq!(host.ended().message(), "eof");
    assert_eq!(host.end.unwrap().received, 0);
    assert!(host.started.is_empty());
}

#[test]
fn session_never_replies_to_a_shutdown_success() {
    let mut host = Host::new();
    host.send(b"silent-quick\nquick-after\n");
    assert_eq!(
        host.wire, b"quick-after\n",
        "nothing was written for the silent frame"
    );
    assert_eq!(host.started.len(), 2);
}

#[test]
fn a_stop_is_honoured_while_the_host_is_not_reading_the_reply() {
    let mut host = Host::new();
    host.accepts = Some(0);
    host.send(b"big-quick\n");
    assert!(host.end.is_none(), "blocked on the unread reply");
    host.ask_to_stop();
    assert_eq!(host.ended(), &SessionEnd::Cancelled);
    assert_eq!(host.end.unwrap().received, 10);
}

#[test]
fn a_blocked_reply_while_frozen_waits_for_the_thaw_then_stops() {
    // Frozen: the stop is not allowed, so the blocked write is kept (not
    // restarted) and the session goes on. Once thawed, the repeated stop
    // request ends the session even though the host still reads nothing.
    let mut host = Host::new();
    host.allow_stop = false;
    host.accepts = Some(16);
    host.send(b"big-quick\n");
    host.ask_to_stop();
    assert!(host.end.is_none(), "not allowed to stop while frozen");
    host.allow_stop = true;
    host.ask_to_stop();
    assert_eq!(host.ended(), &SessionEnd::Cancelled);
    assert_eq!(host.wire, vec![b'x'; 16]);
}

#[test]
fn write_error_ends_session_without_panic() {
    let mut host = Host::new();
    host.accepts = Some(0);
    host.send(b"quick-frame\n");
    host.session.write_failed("EPIPE".to_owned());
    host.turn();
    assert_eq!(host.ended().message(), "write error: EPIPE");
    // A read that fails ends it too.
    let mut host = Host::new();
    host.session.read_failed("EIO".to_owned());
    host.turn();
    assert_eq!(host.ended().message(), "read error: EIO");
}

#[test]
fn an_oversized_frame_is_answered_with_nothing_and_the_next_one_is_served() {
    let mut host = Host::new();
    host.send(&vec![b'x'; 70_000]);
    host.send(b"\nquick-1\n");
    assert_eq!(host.wire, b"quick-1\n");
}

#[test]
fn a_write_resumes_where_it_stopped() {
    let mut outbox = Outbox::new();
    outbox.push(b"one\n");
    outbox.push(b"two\n");
    assert_eq!(outbox.accepted(2), Written::More);
    assert_eq!(outbox.pending(), b"e\ntwo\n");
    assert_eq!(outbox.accepted(0), Written::Zero);
    assert_eq!(outbox.accepted(6), Written::Flush);
    assert!(outbox.is_empty());
    outbox.push(b"three\n");
    outbox.abandon();
    assert!(outbox.is_empty());
}

#[test]
fn open_maps_ebusy_to_channel_already_open_terminal_error() {
    let err = OpenError::from_io("/dev/virtio-ports/x", Some(EBUSY), "Device or resource busy");
    assert!(matches!(err, OpenError::AlreadyOpen { .. }), "{err:?}");
    assert!(err.is_terminal());
    assert!(err.message().starts_with("channel_already_open"));
    // Through the retry loop: immediate, no backoff, no retry.
    match OpenLoop::new().failed(err) {
        Retry::Fail(err) => assert!(err.is_terminal()),
        other => panic!("{other:?}"),
    }
    // The serving loop surfaces it too.
    let mut serving = Serving::new(false, Backoff::default());
    assert_eq!(serving.top(false), ServeAction::Open);
    let err = OpenError::from_io("/dev/x", Some(EBUSY), "busy");
    match serving.step(ServeEvent::Opened(Opened::Failed(err))) {
        Some(ServeAction::Fail(err)) => assert!(err.is_terminal()),
        other => panic!("{other:?}"),
    }
    // Other errors are not terminal.
    let err = OpenError::from_io("/dev/x", Some(EACCES), "Permission denied");
    assert!(matches!(err, OpenError::Io { .. }));
    assert!(!err.is_terminal());
    let err = OpenError::from_io("/dev/x", Some(ENOENT), "No such file");
    assert!(matches!(err, OpenError::NotFound { .. }));
    assert!(!err.is_terminal());
    assert!(matches!(
        OpenError::from_io("/dev/x", None, "odd"),
        OpenError::Io { .. }
    ));
}

#[test]
fn open_retries_enoent_with_bounded_backoff() {
    let mut attempts = OpenLoop::new();
    let mut secs = vec![0];
    for _ in 0..12 {
        let err = OpenError::from_io("/dev/x", Some(ENOENT), "No such file");
        match attempts.failed(err) {
            Retry::Wait(nanos) => secs.push(secs[secs.len() - 1] + nanos / 1_000_000_000),
            other => panic!("{other:?}"),
        }
        assert!(attempts.woke(false, false), "keeps trying");
    }
    assert_eq!(&secs[..7], &[0, 1, 3, 7, 15, 31, 61]);
    assert!(
        secs.windows(2).skip(6).all(|w| w[1] - w[0] == 30),
        "{secs:?}"
    );
    // ... but is cancellable.
    assert!(!attempts.woke(true, false));
    assert!(!attempts.woke(false, true));
}

fn report(received: u64) -> SessionReport {
    SessionReport {
        end: SessionEnd::Eof,
        received,
    }
}

/// A millisecond in nanoseconds.
const MILLI: u64 = 1_000_000;

const TEST_BACKOFF: Backoff = Backoff {
    initial: 50 * MILLI,
    max: 400 * MILLI,
};

/// The pauses before the opens that follow sessions of these lengths.
fn pauses(received: &[u64]) -> Vec<u64> {
    let mut serving = Serving::new(false, TEST_BACKOFF);
    let mut pauses = Vec::new();
    assert_eq!(serving.top(false), ServeAction::Open);
    for n in received {
        assert_eq!(
            serving.step(ServeEvent::Opened(Opened::Open)),
            Some(ServeAction::Run)
        );
        assert_eq!(serving.step(ServeEvent::Session(report(*n))), None);
        match serving.top(false) {
            ServeAction::Pause(nanos) => pauses.push(nanos / MILLI),
            other => panic!("{other:?}"),
        }
        assert_eq!(
            serving.step(ServeEvent::Paused { stop: false }),
            Some(ServeAction::Open)
        );
    }
    pauses
}

#[test]
fn disconnected_port_is_reopened_with_growing_backoff_not_a_busy_loop() {
    assert_eq!(pauses(&[0, 0, 0, 0, 0, 0]), [50, 100, 200, 400, 400, 400]);
}

#[test]
fn a_session_that_carried_data_resets_the_reopen_backoff() {
    assert_eq!(pauses(&[0, 0, 5, 0]), [50, 100, 50, 100]);
}

#[test]
fn serve_reopens_after_eof_until_cancelled() {
    let mut serving = Serving::new(true, TEST_BACKOFF);
    // The descriptor opened at startup is used first.
    assert_eq!(serving.top(false), ServeAction::Register);
    assert_eq!(
        serving.step(ServeEvent::Registered(true)),
        Some(ServeAction::Run)
    );
    assert_eq!(serving.step(ServeEvent::Session(report(5))), None);
    assert_eq!(serving.top(false), ServeAction::Pause(50 * MILLI));
    assert_eq!(
        serving.step(ServeEvent::Paused { stop: false }),
        Some(ServeAction::Open)
    );
    assert_eq!(
        serving.step(ServeEvent::Opened(Opened::Open)),
        Some(ServeAction::Run)
    );
    assert_eq!(serving.step(ServeEvent::Session(report(5))), None);
    assert_eq!(serving.top(true), ServeAction::Stop);
}

#[test]
fn reconnect_resets_decoder_but_not_state() {
    // The first session ends after a partial frame; the second must not see it.
    let machine = FreezeStateMachine::starting_in(FreezeState::Frozen);
    let mut frames = Vec::new();
    let mut ends = Vec::new();
    for input in [b"complete\npartial-without-newline".as_slice(), b"fresh\n"] {
        let mut session = Session::new();
        for event in session.read(input) {
            session.enqueue(Kind::Ordinary, event);
        }
        let Step::Go { start, .. } = session.step(false, false, true) else {
            panic!("there is a frame to start");
        };
        for Started { ticket, event } in start {
            if let DecodeEvent::Frame { bytes, .. } = event {
                frames.push(bytes);
            }
            session.finished(ticket, None);
        }
        assert!(session.read(b"").is_empty());
        match session.step(false, false, true) {
            Step::End { report, .. } => ends.push(report.end.message()),
            Step::Go { .. } => panic!("the input has ended"),
        }
    }
    assert_eq!(frames, [b"complete".to_vec(), b"fresh".to_vec()]);
    assert_eq!(ends, ["eof", "eof"]);
    assert_eq!(
        machine.current(),
        FreezeState::Frozen,
        "reconnection never touches the state"
    );
}

#[test]
fn a_pause_may_be_nought() {
    let none = Backoff { initial: 0, max: 400 };
    let mut serving = Serving::new(false, none);
    assert_eq!(serving.top(false), ServeAction::Open);
    for received in [0, 5, 0] {
        assert_eq!(
            serving.step(ServeEvent::Opened(Opened::Open)),
            Some(ServeAction::Run)
        );
        assert_eq!(serving.step(ServeEvent::Session(report(received))), None);
        // No pause: the next open follows at once.
        assert_eq!(serving.top(false), ServeAction::Open);
    }
    assert_eq!(none.next_delay(0, 0), 0);
    assert_eq!(none.next_delay(150, 0), 300);
    assert_eq!(none.next_delay(300, 0), 400);
    assert_eq!(none.next_delay(300, 1), 0);
}

#[test]
fn no_more_commands_are_held_than_the_bound() {
    // One read delivers a freeze that stays running and controls behind it,
    // each of which finishes at once when started.
    let mut input = b"freeze\n".to_vec();
    for _ in 0..20 {
        input.extend_from_slice(b"control\n");
    }
    let mut session = Session::new();
    for (i, event) in session.read(&input).into_iter().enumerate() {
        let kind = if i == 0 { Kind::Freeze } else { Kind::Control };
        session.enqueue(kind, event);
    }
    let mut begun = 0;
    let mut freeze = None;
    loop {
        let Step::Go { start, can_read, .. } = session.step(false, true, true) else {
            panic!("a command is running");
        };
        assert!(!can_read);
        if start.is_empty() {
            break;
        }
        for Started { ticket, .. } in start {
            begun += 1;
            if freeze.is_none() {
                freeze = Some(ticket);
            } else {
                session.finished(ticket, Some(b"c".to_vec()));
            }
        }
    }
    assert_eq!(begun, MAX_QUEUED, "the freeze and seven controls");
    // Once the freeze has finished the others go on, and the replies leave in
    // request order.
    session.finished(freeze.unwrap(), Some(b"f".to_vec()));
    let Step::Go { start, .. } = session.step(false, true, true) else {
        panic!("frames are waiting");
    };
    assert_eq!(session.pending_write(), b"fccccccc");
    assert_eq!(start.len(), MAX_CONTROLS);
}

#[test]
fn a_session_ended_by_eof_answered_every_frame_it_read_however_it_was_split() {
    let input = b"quick-one\n\nquick-two\nquick-three\nquick-unfinish";
    for split in 1..input.len() {
        let mut host = Host::new();
        host.send(&input[..split]);
        host.send(&input[split..]);
        host.close();
        assert_eq!(host.ended(), &SessionEnd::Eof);
        assert_eq!(host.started, ["quick-one", "quick-two", "quick-three"]);
        assert_eq!(host.wire, b"quick-one\nquick-two\nquick-three\n");
        assert_eq!(host.end.unwrap().received, input.len() as u64);
    }
}
