//! One session on the channel: which frame may start, in what order the
//! replies leave, when the channel is read, and when the session ends.
//!
//! Three concerns are kept apart.
//!
//! * **Admission.** Frames start in request order, each when its lane is free
//!   ([`Kind`], [`admits`]): one command that may change the guest at a time,
//!   the frozen-safe controls (up to [`MAX_CONTROLS`]) and a thaw aimed at a
//!   freeze under way beside it. At most [`MAX_QUEUED`] commands are held; the
//!   channel is not read while that many are.
//! * **Completion.** A command that started is never given up on: the session
//!   does not end before it has finished.
//! * **Delivery.** Replies go out through one [`Outbox`] strictly in request
//!   order, whatever order the commands finish in.
//!
//! A stop that is allowed enters a draining state: nothing more is read or
//! started, the commands running are finished, and the session then ends. If a
//! command that was running froze the guest meanwhile the stop is withdrawn
//! and the session serves on, so the host can thaw.

use std::collections::VecDeque;
use vstd::prelude::*;
use vstd::string::*;

use crate::audit::ring;
use crate::framing;
use crate::framing::{DecodeEvent, FrameDecoder};

verus! {

/// The lane a frame runs in.
#[derive(Debug, Clone, Copy, PartialEq, Eq, Structural)]
pub enum Kind {
    /// A read-only, frozen-safe control or a frame that is answered without
    /// running anything: runs beside any command, up to [`MAX_CONTROLS`] at
    /// once.
    Control,
    /// `guest-fsfreeze-thaw`: runs beside a [`Kind::Freeze`] in progress (to
    /// abort it), otherwise in the serial lane.
    Thaw,
    /// `guest-fsfreeze-freeze` and `-freeze-list`: the serial lane.
    Freeze,
    /// Everything else: the serial lane.
    Ordinary,
}

/// Frozen-safe controls the session handles beside the command in progress.
pub const MAX_CONTROLS: usize = 3;

/// Commands the session holds at once: running, or finished with the reply
/// waiting behind an earlier one. No frame starts, and the channel is not read,
/// while this many are held, so nothing queues without limit; one read's worth
/// of frames may be decoded beyond it.
///
/// This bounds the host's interruption of a freeze: a `guest-fsfreeze-thaw`
/// sent behind a pending freeze reply is read, and aborts the walk, as long as
/// fewer than this many commands are unanswered.
pub const MAX_QUEUED: usize = 8;

/// Why a session ended.
#[derive(Debug, Clone, PartialEq, Eq)]
pub enum SessionEnd {
    /// A requested stop took effect once no command was running.
    Cancelled,
    /// The peer closed the channel.
    Eof,
    /// A read failed.
    ReadError(String),
    /// A write failed.
    WriteError(String),
}

impl SessionEnd {
    /// The reason as it is logged.
    pub open spec fn text(&self) -> Seq<char> {
        match self {
            SessionEnd::Eof => "eof"@,
            SessionEnd::Cancelled => "cancelled"@,
            SessionEnd::ReadError(err) => "read error: "@ + err@,
            SessionEnd::WriteError(err) => "write error: "@ + err@,
        }
    }

    /// The reason as it is logged.
    pub fn message(&self) -> (out: String)
        ensures
            out@ == self.text(),
    {
        match self {
            SessionEnd::Eof => "eof".to_owned(),
            SessionEnd::Cancelled => "cancelled".to_owned(),
            SessionEnd::ReadError(err) => "read error: ".to_owned().concat(err.as_str()),
            SessionEnd::WriteError(err) => "write error: ".to_owned().concat(err.as_str()),
        }
    }
}

/// How a session ended and how much it read.
#[derive(Debug, Clone, PartialEq, Eq)]
pub struct SessionReport {
    /// Why the session ended.
    pub end: SessionEnd,
    /// Bytes read from the channel during the session.
    pub received: u64,
}

/// A command the session holds, in request order.
#[derive(Debug, PartialEq, Eq)]
pub enum Slot {
    /// Running in its lane.
    Running(Kind),
    /// Finished, its reply (if it has one) not yet handed to the outbox.
    Done(Option<Vec<u8>>),
}

/// A held command as a mathematical value.
pub ghost enum SlotView {
    Running(Kind),
    Done(Option<Seq<u8>>),
}

impl View for Slot {
    type V = SlotView;

    open spec fn view(&self) -> SlotView {
        match self {
            Slot::Running(kind) => SlotView::Running(*kind),
            Slot::Done(Some(reply)) => SlotView::Done(Some(reply@)),
            Slot::Done(None) => SlotView::Done(None),
        }
    }
}

/// Held commands, each taken by its view.
pub open spec fn slots_view(slots: Seq<Slot>) -> Seq<SlotView> {
    Seq::new(slots.len(), |i: int| slots[i]@)
}

/// How many commands of a lane are running.
pub open spec fn running_of(slots: Seq<SlotView>, kind: Kind) -> nat
    decreases slots.len(),
{
    if slots.len() == 0 {
        0
    } else {
        running_of(slots.drop_last(), kind) + if slots.last() == SlotView::Running(kind) {
            1nat
        } else {
            0
        }
    }
}

/// Some command is running.
pub open spec fn any_running(slots: Seq<SlotView>) -> bool {
    exists|i: int| 0 <= i < slots.len() && (#[trigger] slots[i]) is Running
}

/// A frame of lane `kind` may start beside the commands that are running.
pub open spec fn may_start(slots: Seq<SlotView>, kind: Kind) -> bool {
    match kind {
        Kind::Control => running_of(slots, Kind::Control) < MAX_CONTROLS,
        Kind::Thaw => running_of(slots, Kind::Thaw) == 0 && running_of(slots, Kind::Ordinary) == 0,
        Kind::Freeze | Kind::Ordinary => running_of(slots, Kind::Thaw) == 0 && running_of(
            slots,
            Kind::Freeze,
        ) == 0 && running_of(slots, Kind::Ordinary) == 0,
    }
}

/// Whether a frame may start now, given the commands running. Admission is in
/// request order: a frame whose lane is busy holds every frame behind it, so
/// side effects happen in the order the host asked for them; only a control or
/// an aborting thaw ever runs beside another command.
pub fn admits(slots: &VecDeque<Slot>, kind: Kind) -> (admitted: bool)
    ensures
        admitted == may_start(slots_view(slots@), kind),
{
    let mut controls: usize = 0;
    let mut thaws: usize = 0;
    let mut freezes: usize = 0;
    let mut ordinary: usize = 0;
    let ghost view = slots_view(slots@);
    proof {
        assert(view.take(0) =~= Seq::<SlotView>::empty());
    }
    for i in 0..slots.len()
        invariant
            view == slots_view(slots@),
            controls <= i,
            thaws <= i,
            freezes <= i,
            ordinary <= i,
            controls == running_of(view.take(i as int), Kind::Control),
            thaws == running_of(view.take(i as int), Kind::Thaw),
            freezes == running_of(view.take(i as int), Kind::Freeze),
            ordinary == running_of(view.take(i as int), Kind::Ordinary),
    {
        proof {
            assert(view.take(i + 1).drop_last() =~= view.take(i as int));
            assert(view.take(i + 1).last() == slots@[i as int]@);
        }
        match &slots[i] {
            Slot::Running(Kind::Control) => {
                controls = controls + 1;
            },
            Slot::Running(Kind::Thaw) => {
                thaws = thaws + 1;
            },
            Slot::Running(Kind::Freeze) => {
                freezes = freezes + 1;
            },
            Slot::Running(Kind::Ordinary) => {
                ordinary = ordinary + 1;
            },
            Slot::Done(_) => {},
        }
    }
    proof {
        assert(view.take(view.len() as int) =~= view);
    }
    match kind {
        Kind::Control => controls < MAX_CONTROLS,
        Kind::Thaw => thaws == 0 && ordinary == 0,
        Kind::Freeze | Kind::Ordinary => thaws == 0 && freezes == 0 && ordinary == 0,
    }
}

/// What the writer does after the host accepted some bytes.
#[derive(Debug, Clone, Copy, PartialEq, Eq, Structural)]
pub enum Written {
    /// There are more bytes to write.
    More,
    /// All bytes are written: flush.
    Flush,
    /// The host accepted nothing: the write failed.
    Zero,
}

/// The one writer's queue: reply bytes in request order and how many of them
/// the host has accepted. A write the host is slow to accept resumes where it
/// stopped; it is never restarted, so no reply is ever appended to a partial
/// frame except the rest of that frame.
#[derive(Debug)]
pub struct Outbox {
    bytes: Vec<u8>,
    written: usize,
}

impl View for Outbox {
    type V = Seq<u8>;

    /// The bytes that the host has not accepted yet.
    closed spec fn view(&self) -> Seq<u8> {
        self.bytes@.skip(self.written as int)
    }
}

impl Outbox {
    /// No more is written than there is.
    pub closed spec fn wf(&self) -> bool {
        self.written <= self.bytes@.len()
    }

    /// An outbox with nothing in it.
    pub fn new() -> (outbox: Self)
        ensures
            outbox.wf(),
            outbox@ == Seq::<u8>::empty(),
    {
        let outbox = Outbox { bytes: Vec::new(), written: 0 };
        proof {
            assert(outbox@ =~= Seq::<u8>::empty());
        }
        outbox
    }

    /// Whether the host has accepted everything.
    pub fn is_empty(&self) -> (empty: bool)
        requires
            self.wf(),
        ensures
            empty == (self@.len() == 0),
    {
        self.written == self.bytes.len()
    }

    /// Appends a reply.
    pub fn push(&mut self, reply: &[u8])
        requires
            old(self).wf(),
        ensures
            final(self).wf(),
            final(self)@ == old(self)@ + reply@,
    {
        if self.is_empty() {
            self.bytes.clear();
            self.written = 0;
        }
        self.bytes.extend_from_slice(reply);
        proof {
            assert(self@ =~= old(self)@ + reply@);
        }
    }

    /// Drops whatever the host has not accepted.
    pub fn abandon(&mut self)
        ensures
            final(self).wf(),
            final(self)@ == Seq::<u8>::empty(),
    {
        self.bytes.clear();
        self.written = 0;
        proof {
            assert(self@ =~= Seq::<u8>::empty());
        }
    }

    /// What to write next.
    pub fn pending(&self) -> (bytes: &[u8])
        requires
            self.wf(),
        ensures
            bytes@ == self@,
    {
        let bytes = vstd::slice::slice_subrange(self.bytes.as_slice(), self.written, self.bytes.len());
        proof {
            assert(bytes@ =~= self@);
        }
        bytes
    }

    /// The host accepted the first `n` bytes of what was pending.
    pub fn accepted(&mut self, n: usize) -> (next: Written)
        requires
            old(self).wf(),
            0 < old(self)@.len(),
            n <= old(self)@.len(),
        ensures
            final(self).wf(),
            final(self)@ == old(self)@.skip(n as int),
            next == if n == 0 {
                Written::Zero
            } else if n == old(self)@.len() {
                Written::Flush
            } else {
                Written::More
            },
    {
        let len: usize = self.bytes.len();
        proof {
            assert(self@.len() == len - self.written);
        }
        self.written = self.written + n;
        proof {
            assert(self@ =~= old(self)@.skip(n as int));
        }
        if n == 0 {
            Written::Zero
        } else if self.written == len {
            Written::Flush
        } else {
            Written::More
        }
    }
}

/// A frame to start: run it and report with [`Session::finished`].
#[derive(Debug, PartialEq, Eq)]
pub struct Started {
    /// What [`Session::finished`] is told.
    pub ticket: u64,
    /// The frame.
    pub event: DecodeEvent,
}

/// A frame to start as a mathematical value.
pub ghost struct StartedView {
    pub ticket: u64,
    pub event: framing::Event,
}

/// What the session does next.
#[derive(Debug, PartialEq, Eq)]
pub enum Step {
    /// The session is over. `flush` when a reply the host accepts right now
    /// still goes out; one it does not accept is abandoned.
    End {
        report: SessionReport,
        flush: bool,
    },
    /// Start these frames and wait for whatever comes first.
    Go {
        /// Frames to start, in request order.
        start: Vec<Started>,
        /// Some command is running.
        running: bool,
        /// Bytes are to be written.
        can_write: bool,
        /// The channel may be read.
        can_read: bool,
    },
}

/// A waiting frame and its lane as a mathematical value.
pub ghost struct WaitingView {
    pub kind: Kind,
    pub event: framing::Event,
}

/// A frame that was decoded and not started yet, with its lane.
#[derive(Debug)]
struct Waiting {
    kind: Kind,
    event: DecodeEvent,
}

/// A session as a mathematical value.
#[verifier::ext_equal]
pub ghost struct SessionView {
    /// How many commands have left, modulo 2 to the 64th.
    pub base: u64,
    /// Commands held, in request order.
    pub slots: Seq<SlotView>,
    /// Frames decoded but not started yet.
    pub waiting: Seq<WaitingView>,
    /// Reply bytes that the host has not accepted yet.
    pub outbox: Seq<u8>,
    /// The input ended: finish what was received, then report why.
    pub input_end: Option<SessionEnd>,
    /// The writer failed: no reply is delivered any more.
    pub write_failed: bool,
    /// A stop was accepted: finish the commands running, start nothing.
    pub draining: bool,
    /// Bytes read.
    pub received: u64,
    /// The frame decoder.
    pub decoder: framing::Decoding,
}

/// The ticket of the command that stands at `i` when `base` have left.
pub open spec fn ticket_at(base: u64, i: int) -> u64 {
    ((base + i) % 0x1_0000_0000_0000_0000) as u64
}

/// Where the command of a ticket stands when `base` have left.
pub open spec fn index_of(base: u64, ticket: u64) -> int {
    (ticket - base) % 0x1_0000_0000_0000_0000
}

impl SessionView {
    /// A session before any byte.
    pub open spec fn start() -> SessionView {
        SessionView {
            base: 0,
            slots: Seq::empty(),
            waiting: Seq::empty(),
            outbox: Seq::empty(),
            input_end: None,
            write_failed: false,
            draining: false,
            received: 0,
            decoder: framing::Decoding::start(),
        }
    }

    /// Replies leave in request order, as soon as the one before them has
    /// finished; none is kept for a peer that is gone.
    pub open spec fn delivered(self) -> SessionView
        decreases self.slots.len(),
    {
        if self.slots.len() > 0 && self.slots[0] is Done {
            let outbox = match self.slots[0] {
                SlotView::Done(Some(reply)) if !self.write_failed => self.outbox + reply,
                _ => self.outbox,
            };
            (SessionView {
                base: ticket_at(self.base, 1),
                slots: self.slots.drop_first(),
                outbox,
                ..self
            }).delivered()
        } else {
            self
        }
    }

    /// The next waiting frame may start: its lane is free and the bound on the
    /// commands held is not reached.
    pub open spec fn may_admit(self) -> bool {
        self.waiting.len() > 0 && self.slots.len() < MAX_QUEUED && may_start(
            self.slots,
            self.waiting[0].kind,
        )
    }

    /// Waiting frames start in request order for as long as the next one may.
    pub open spec fn admitted(self) -> SessionView
        decreases self.waiting.len(),
    {
        if self.may_admit() {
            (SessionView {
                slots: self.slots.push(SlotView::Running(self.waiting[0].kind)),
                waiting: self.waiting.drop_first(),
                ..self
            }).admitted()
        } else {
            self
        }
    }

    /// Whether the channel may be read.
    pub open spec fn can_read(self) -> bool {
        self.input_end is None && !self.draining && self.waiting.len() == 0 && self.slots.len()
            < MAX_QUEUED
    }

    /// Whether bytes are to be written.
    pub open spec fn can_write(self) -> bool {
        self.outbox.len() > 0 && !self.write_failed
    }

    /// The session once replies have left, and whether a stop that is allowed
    /// is in force then.
    pub open spec fn settled(self, stop: bool, may_stop: bool) -> SessionView {
        let d = self.delivered();
        SessionView {
            draining: d.draining || (!any_running(d.slots) && stop && may_stop),
            ..d
        }
    }

    /// The session ends because of a stop.
    pub open spec fn stops(self, stop: bool, may_stop: bool) -> bool {
        let s = self.settled(stop, may_stop);
        s.draining && !any_running(s.slots) && may_stop
    }

    /// The session that goes on: a stop that a freeze overtook is withdrawn,
    /// and unless one is in force frames start.
    pub open spec fn going(self, stop: bool, may_stop: bool) -> SessionView {
        let s = self.settled(stop, may_stop);
        let kept = SessionView { draining: s.draining && any_running(s.slots), ..s };
        if kept.draining {
            kept
        } else {
            kept.admitted()
        }
    }

    /// The session has nothing left to do: its input has ended and everything
    /// received is finished and answered, or nothing will ever come again.
    pub open spec fn exhausted(self, stop_live: bool) -> bool {
        let idle = self.slots.len() == 0 && self.waiting.len() == 0 && !self.can_write();
        (idle && self.input_end is Some) || (!any_running(self.slots) && !self.can_write()
            && !self.can_read() && !stop_live)
    }

    /// Why a session with nothing left to do ended.
    pub open spec fn ended_by(self) -> SessionEnd {
        match self.input_end {
            Some(end) => end,
            None => SessionEnd::Eof,
        }
    }
}

/// A session on the channel.
#[derive(Debug)]
pub struct Session {
    base: u64,
    slots: VecDeque<Slot>,
    waiting: VecDeque<Waiting>,
    outbox: Outbox,
    input_end: Option<SessionEnd>,
    write_failed: bool,
    draining: bool,
    received: u64,
    decoder: FrameDecoder,
}

spec fn waiting_view(waiting: Seq<Waiting>) -> Seq<WaitingView> {
    Seq::new(
        waiting.len(),
        |i: int| WaitingView { kind: waiting[i].kind, event: waiting[i].event@ },
    )
}

/// Frames to start, each taken by its view.
pub open spec fn started_view(start: Seq<Started>) -> Seq<StartedView> {
    Seq::new(
        start.len(),
        |i: int| StartedView { ticket: start[i].ticket, event: start[i].event@ },
    )
}

/// The frames that start when those of `waiting` up to `n` do and the first of
/// them comes to stand at `at`.
pub open spec fn starting(
    waiting: Seq<WaitingView>,
    n: int,
    base: u64,
    at: int,
) -> Seq<StartedView> {
    Seq::new(
        n as nat,
        |i: int| StartedView { ticket: ticket_at(base, at + i), event: waiting[i].event },
    )
}

impl View for Session {
    type V = SessionView;

    closed spec fn view(&self) -> SessionView {
        SessionView {
            base: self.base,
            slots: slots_view(self.slots@),
            waiting: waiting_view(self.waiting@),
            outbox: self.outbox@,
            input_end: self.input_end,
            write_failed: self.write_failed,
            draining: self.draining,
            received: self.received,
            decoder: self.decoder@,
        }
    }
}

impl Session {
    /// The outbox and the decoder are in order.
    pub closed spec fn wf(&self) -> bool {
        self.outbox.wf() && self.decoder@.valid()
    }

    /// The decoder of a session in order is one that the laws speak of.
    pub proof fn lemma_valid(&self)
        requires
            self.wf(),
        ensures
            self@.decoder.valid(),
    {
    }

    /// A session before any byte.
    pub fn new() -> (session: Self)
        ensures
            session.wf(),
            session@ == SessionView::start(),
    {
        let session = Session {
            base: 0,
            slots: VecDeque::new(),
            waiting: VecDeque::new(),
            outbox: Outbox::new(),
            input_end: None,
            write_failed: false,
            draining: false,
            received: 0,
            decoder: FrameDecoder::new(),
        };
        proof {
            assert(session@ =~= SessionView::start());
        }
        session
    }

    /// Bytes were read: the frames they complete, to be classified and handed
    /// back with [`enqueue`](Self::enqueue). No bytes: the peer is gone.
    pub fn read(&mut self, bytes: &[u8]) -> (events: Vec<DecodeEvent>)
        requires
            old(self).wf(),
        ensures
            final(self).wf(),
            framing::events_view(events@) == framing::feed(old(self)@.decoder, bytes@).1,
            final(self)@ == (SessionView {
                decoder: framing::feed(old(self)@.decoder, bytes@).0,
                received: ring::counted(old(self)@.received + bytes@.len()),
                input_end: if bytes@.len() == 0 {
                    Some(SessionEnd::Eof)
                } else {
                    old(self)@.input_end
                },
                ..old(self)@
            }),
    {
        if bytes.len() == 0 {
            self.input_end = Some(SessionEnd::Eof);
        }
        self.received = self.received.saturating_add(bytes.len() as u64);
        self.decoder.push(bytes)
    }

    /// A frame that was read, with its lane.
    pub fn enqueue(&mut self, kind: Kind, event: DecodeEvent)
        requires
            old(self).wf(),
        ensures
            final(self).wf(),
            final(self)@ == (SessionView {
                waiting: old(self)@.waiting.push(WaitingView { kind, event: event@ }),
                ..old(self)@
            }),
    {
        let ghost before = self@.waiting;
        self.waiting.push_back(Waiting { kind, event });
        proof {
            assert(self@.waiting =~= before.push(WaitingView { kind, event: event@ }));
        }
    }

    /// A read failed.
    pub fn read_failed(&mut self, error: String)
        requires
            old(self).wf(),
        ensures
            final(self).wf(),
            final(self)@ == (SessionView {
                input_end: Some(SessionEnd::ReadError(error)),
                ..old(self)@
            }),
    {
        self.input_end = Some(SessionEnd::ReadError(error));
    }

    /// What to write next.
    pub fn pending_write(&self) -> (bytes: &[u8])
        requires
            self.wf(),
        ensures
            bytes@ == self@.outbox,
    {
        self.outbox.pending()
    }

    /// The host accepted the first `n` bytes of what was pending.
    pub fn wrote(&mut self, n: usize) -> (next: Written)
        requires
            old(self).wf(),
            0 < old(self)@.outbox.len(),
            n <= old(self)@.outbox.len(),
        ensures
            final(self).wf(),
            final(self)@ == (SessionView { outbox: old(self)@.outbox.skip(n as int), ..old(self)@ }),
            next == if n == 0 {
                Written::Zero
            } else if n == old(self)@.outbox.len() {
                Written::Flush
            } else {
                Written::More
            },
    {
        self.outbox.accepted(n)
    }

    /// A write failed: the peer is gone. The commands received are finished,
    /// nothing more is read, no reply is delivered, and the write is reported
    /// unless the input had ended before.
    pub fn write_failed(&mut self, error: String)
        requires
            old(self).wf(),
        ensures
            final(self).wf(),
            final(self)@ == (SessionView {
                outbox: Seq::empty(),
                write_failed: true,
                input_end: match old(self)@.input_end {
                    Some(end) => Some(end),
                    None => Some(SessionEnd::WriteError(error)),
                },
                ..old(self)@
            }),
    {
        self.write_failed = true;
        self.outbox.abandon();
        if self.input_end.is_none() {
            self.input_end = Some(SessionEnd::WriteError(error));
        }
    }

    /// The command of `ticket` finished with `reply`.
    pub fn finished(&mut self, ticket: u64, reply: Option<Vec<u8>>)
        requires
            old(self).wf(),
        ensures
            final(self).wf(),
            ({
                let i = index_of(old(self)@.base, ticket);
                final(self)@ == if i < old(self)@.slots.len() && old(self)@.slots[i] is Running {
                    SessionView {
                        slots: old(self)@.slots.update(i, Slot::Done(reply)@),
                        ..old(self)@
                    }
                } else {
                    old(self)@
                }
            }),
    {
        let ghost before = self@.slots;
        let at: u64 = ticket.wrapping_sub(self.base);
        proof {
            lemma_index(self.base, ticket, at);
        }
        if at < self.slots.len() as u64 {
            let i: usize = at as usize;
            let running = match &self.slots[i] {
                Slot::Running(_) => true,
                Slot::Done(_) => false,
            };
            if running {
                let ghost held = self.slots@;
                let _ = self.slots.remove(i);
                self.slots.insert(i, Slot::Done(reply));
                proof {
                    assert(self.slots@ =~= held.update(i as int, Slot::Done(reply)));
                    assert(self@.slots =~= before.update(i as int, Slot::Done(reply)@));
                }
            }
        }
    }

    /// The stop signal changed while commands may be running: a stop that is
    /// allowed is accepted.
    pub fn stop_changed(&mut self, stop: bool, may_stop: bool)
        requires
            old(self).wf(),
        ensures
            final(self).wf(),
            final(self)@ == (SessionView {
                draining: old(self)@.draining || (stop && may_stop),
                ..old(self)@
            }),
    {
        if stop && may_stop {
            self.draining = true;
        }
    }

    /// What the session does next. `stop`: a stop is requested. `may_stop`: a
    /// stop is allowed now. `stop_live`: the stop signal may still change.
    pub fn step(&mut self, stop: bool, may_stop: bool, stop_live: bool) -> (step: Step)
        requires
            old(self).wf(),
        ensures
            final(self).wf(),
            ({
                let s = old(self)@;
                let settled = s.settled(stop, may_stop);
                let going = s.going(stop, may_stop);
                if s.stops(stop, may_stop) {
                    final(self)@ == settled && step == (Step::End {
                        report: SessionReport {
                            end: SessionEnd::Cancelled,
                            received: s.received,
                        },
                        flush: settled.can_write(),
                    })
                } else {
                    &&& final(self)@ == going
                    &&& if going.exhausted(stop_live) {
                        step == (Step::End {
                            report: SessionReport { end: going.ended_by(), received: s.received },
                            flush: false,
                        })
                    } else {
                        step matches Step::Go { start, running, can_write, can_read } && {
                            &&& started_view(start@) == starting(
                                settled.waiting,
                                settled.waiting.len() - going.waiting.len(),
                                settled.base,
                                settled.slots.len() as int,
                            )
                            &&& running == any_running(going.slots)
                            &&& can_write == going.can_write()
                            &&& can_read == going.can_read()
                        }
                    }
                }
            }),
    {
        self.deliver();
        let ghost d = self@;
        proof {
            lemma_delivered(old(self)@);
        }
        let running = self.is_running();
        if !running && stop && may_stop {
            self.draining = true;
        }
        if self.draining && !running {
            if may_stop {
                let flush = !self.outbox.is_empty() && !self.write_failed;
                return Step::End {
                    report: SessionReport { end: SessionEnd::Cancelled, received: self.received },
                    flush,
                };
            }
            // A command that was running froze the guest: the stop is
            // withdrawn until the thaw.
            self.draining = false;
        }
        proof {
            lemma_admitted(self@);
        }
        let mut start: Vec<Started> = Vec::new();
        if !self.draining {
            start = self.start_waiting();
        }
        proof {
            assert(started_view(start@) =~= starting(
                d.waiting,
                d.waiting.len() - self@.waiting.len(),
                d.base,
                d.slots.len() as int,
            ));
        }
        let running = self.is_running();
        let can_write = !self.outbox.is_empty() && !self.write_failed;
        let can_read = self.input_end.is_none() && !self.draining && self.waiting.len() == 0
            && self.slots.len() < MAX_QUEUED;
        let idle = self.slots.len() == 0 && self.waiting.len() == 0 && !can_write;
        proof {
            if self.slots@.len() == 0 {
                assert(!any_running(self@.slots));
            }
        }
        if (idle && self.input_end.is_some()) || (!running && !can_write && !can_read && !stop_live) {
            let end = match &self.input_end {
                Some(SessionEnd::Eof) => SessionEnd::Eof,
                Some(SessionEnd::Cancelled) => SessionEnd::Cancelled,
                Some(SessionEnd::ReadError(err)) => SessionEnd::ReadError(err.clone()),
                Some(SessionEnd::WriteError(err)) => SessionEnd::WriteError(err.clone()),
                None => SessionEnd::Eof,
            };
            return Step::End {
                report: SessionReport { end, received: self.received },
                flush: false,
            };
        }
        Step::Go { start, running, can_write, can_read }
    }

    /// Hands the replies at the front to the outbox.
    fn deliver(&mut self)
        requires
            old(self).wf(),
        ensures
            final(self).wf(),
            final(self)@ == old(self)@.delivered(),
    {
        let mut more = true;
        while more
            invariant
                self.wf(),
                self@.delivered() == old(self)@.delivered(),
                !more ==> !(self@.slots.len() > 0 && self@.slots[0] is Done),
            decreases self.slots@.len(), if more { 1int } else { 0int },
        {
            let done = if self.slots.len() > 0 {
                match &self.slots[0] {
                    Slot::Done(_) => true,
                    Slot::Running(_) => false,
                }
            } else {
                false
            };
            if done {
                let ghost before = self@;
                let front = self.slots.pop_front();
                self.base = self.base.wrapping_add(1);
                proof {
                    assert(self@.slots =~= before.slots.drop_first());
                }
                if let Some(Slot::Done(Some(reply))) = front {
                    if !self.write_failed {
                        self.outbox.push(reply.as_slice());
                    }
                }
            } else {
                more = false;
            }
        }
    }

    /// Starts the waiting frames that may start.
    fn start_waiting(&mut self) -> (start: Vec<Started>)
        requires
            old(self).wf(),
        ensures
            final(self).wf(),
            final(self)@ == old(self)@.admitted(),
            final(self)@.waiting.len() <= old(self)@.waiting.len(),
            started_view(start@) == starting(
                old(self)@.waiting,
                old(self)@.waiting.len() - final(self)@.waiting.len(),
                old(self)@.base,
                old(self)@.slots.len() as int,
            ),
    {
        let mut start: Vec<Started> = Vec::new();
        let ghost all = self@.waiting;
        let ghost held = self@.slots.len();
        proof {
            assert(started_view(start@) =~= starting(all, 0, self@.base, held as int));
        }
        let mut more = true;
        while more
            invariant
                self.wf(),
                all == old(self)@.waiting,
                held == old(self)@.slots.len(),
                self@.admitted() == old(self)@.admitted(),
                self@.base == old(self)@.base,
                start@.len() <= all.len(),
                self@.slots.len() == held + start@.len(),
                self@.waiting == all.skip(start@.len() as int),
                started_view(start@) == starting(all, start@.len() as int, self@.base, held as int),
                !more ==> !self@.may_admit(),
            decreases self.waiting@.len(), if more { 1int } else { 0int },
        {
            let may = if self.waiting.len() > 0 && self.slots.len() < MAX_QUEUED {
                admits(&self.slots, self.waiting[0].kind)
            } else {
                false
            };
            if may {
                let ghost before = self@;
                let ghost begun = start@;
                if let Some(frame) = self.waiting.pop_front() {
                    let ticket: u64 = self.base.wrapping_add(self.slots.len() as u64);
                    self.slots.push_back(Slot::Running(frame.kind));
                    start.push(Started { ticket, event: frame.event });
                    proof {
                        lemma_ticket(self.base, before.slots.len() as int, ticket);
                        assert(self@.waiting =~= before.waiting.drop_first());
                        assert(before.waiting.drop_first() =~= all.skip(start@.len() as int));
                        assert(before.waiting[0] == all[begun.len() as int]);
                        assert(self@.slots =~= before.slots.push(SlotView::Running(frame.kind)));
                        assert(started_view(start@) =~= started_view(begun).push(
                            StartedView { ticket, event: frame.event@ },
                        ));
                        assert(started_view(start@) =~= starting(
                            all,
                            start@.len() as int,
                            self@.base,
                            held as int,
                        ));
                    }
                }
            } else {
                more = false;
            }
        }
        start
    }

    /// Whether some command is running.
    fn is_running(&self) -> (running: bool)
        ensures
            running == any_running(self@.slots),
    {
        for i in 0..self.slots.len()
            invariant
                forall|j: int| 0 <= j < i ==> !((#[trigger] self@.slots[j]) is Running),
        {
            if let Slot::Running(_) = &self.slots[i] {
                proof {
                    assert(self@.slots[i as int] is Running);
                }
                return true;
            }
        }
        false
    }
}

/// What a delivery leaves as it was.
pub proof fn lemma_delivered(s: SessionView)
    ensures
        ({
            let d = s.delivered();
            &&& d.waiting == s.waiting
            &&& d.input_end == s.input_end
            &&& d.write_failed == s.write_failed
            &&& d.draining == s.draining
            &&& d.received == s.received
            &&& d.decoder == s.decoder
            &&& d.slots.len() <= s.slots.len()
            &&& !(d.slots.len() > 0 && d.slots[0] is Done)
        }),
    decreases s.slots.len(),
{
    if s.slots.len() > 0 && s.slots[0] is Done {
        let outbox = match s.slots[0] {
            SlotView::Done(Some(reply)) if !s.write_failed => s.outbox + reply,
            _ => s.outbox,
        };
        lemma_delivered(
            SessionView {
                base: ticket_at(s.base, 1),
                slots: s.slots.drop_first(),
                outbox,
                ..s
            },
        );
    }
}

/// What admission leaves as it was.
pub proof fn lemma_admitted(s: SessionView)
    ensures
        ({
            let a = s.admitted();
            &&& a.base == s.base
            &&& a.outbox == s.outbox
            &&& a.input_end == s.input_end
            &&& a.write_failed == s.write_failed
            &&& a.draining == s.draining
            &&& a.received == s.received
            &&& a.decoder == s.decoder
        }),
    decreases s.waiting.len(),
{
    if s.may_admit() {
        lemma_admitted(
            SessionView {
                slots: s.slots.push(SlotView::Running(s.waiting[0].kind)),
                waiting: s.waiting.drop_first(),
                ..s
            },
        );
    }
}

proof fn lemma_index(base: u64, ticket: u64, at: u64)
    requires
        at == (if ticket < base {
            ticket - base + 0x1_0000_0000_0000_0000
        } else {
            ticket - base
        }),
    ensures
        at == index_of(base, ticket),
{
}

proof fn lemma_ticket(base: u64, i: int, ticket: u64)
    requires
        0 <= i <= usize::MAX,
        ticket == (if base + i > u64::MAX {
            base + i - 0x1_0000_0000_0000_0000
        } else {
            base + i
        }),
    ensures
        ticket == ticket_at(base, i),
{
}

/// How a lane's count changes when a command is added.
proof fn lemma_running_push(slots: Seq<SlotView>, slot: SlotView, kind: Kind)
    ensures
        running_of(slots.push(slot), kind) == running_of(slots, kind) + if slot
            == SlotView::Running(kind) {
            1nat
        } else {
            0
        },
{
    assert(slots.push(slot).drop_last() =~= slots);
}

/// How a lane's count changes when a command finishes.
proof fn lemma_running_done(slots: Seq<SlotView>, i: int, reply: Option<Seq<u8>>, kind: Kind)
    requires
        0 <= i < slots.len(),
    ensures
        running_of(slots.update(i, SlotView::Done(reply)), kind) <= running_of(slots, kind),
    decreases slots.len(),
{
    let after = slots.update(i, SlotView::Done(reply));
    if i < slots.len() - 1 {
        assert(after.drop_last() =~= slots.drop_last().update(i, SlotView::Done(reply)));
        lemma_running_done(slots.drop_last(), i, reply, kind);
    } else {
        assert(after.drop_last() =~= slots.drop_last());
    }
}

/// How a lane's count changes when the front leaves.
proof fn lemma_running_first(slots: Seq<SlotView>, kind: Kind)
    requires
        slots.len() > 0,
    ensures
        running_of(slots, kind) == running_of(slots.drop_first(), kind) + if slots[0]
            == SlotView::Running(kind) {
            1nat
        } else {
            0
        },
    decreases slots.len(),
{
    if slots.len() > 1 {
        lemma_running_first(slots.drop_last(), kind);
        assert(slots.drop_last().drop_first() =~= slots.drop_first().drop_last());
    } else {
        assert(slots.drop_last() =~= Seq::<SlotView>::empty());
        assert(slots.drop_first() =~= Seq::<SlotView>::empty());
    }
}

/// What the lanes guarantee: at most [`MAX_CONTROLS`] controls run; at most one
/// command that may change the guest does, and beside it only a thaw beside a
/// freeze.
pub open spec fn lanes_kept(slots: Seq<SlotView>) -> bool {
    &&& running_of(slots, Kind::Control) <= MAX_CONTROLS
    &&& running_of(slots, Kind::Thaw) <= 1
    &&& running_of(slots, Kind::Freeze) + running_of(slots, Kind::Ordinary) <= 1
    &&& running_of(slots, Kind::Ordinary) > 0 ==> running_of(slots, Kind::Thaw) == 0
}

/// The lanes are kept by admission: whatever the host sends, no two commands
/// that may change the guest ever run together, but for a thaw aimed at a
/// freeze under way.
pub proof fn law_admission_keeps_the_lanes(s: SessionView)
    requires
        lanes_kept(s.slots),
    ensures
        lanes_kept(s.admitted().slots),
    decreases s.waiting.len(),
{
    if s.may_admit() {
        let slot = SlotView::Running(s.waiting[0].kind);
        lemma_running_push(s.slots, slot, Kind::Control);
        lemma_running_push(s.slots, slot, Kind::Thaw);
        lemma_running_push(s.slots, slot, Kind::Freeze);
        lemma_running_push(s.slots, slot, Kind::Ordinary);
        law_admission_keeps_the_lanes(
            SessionView { slots: s.slots.push(slot), waiting: s.waiting.drop_first(), ..s },
        );
    }
}

/// The lanes are kept by everything else too: by a command that finishes, and
/// by replies that leave.
pub proof fn law_completion_keeps_the_lanes(s: SessionView, i: int, reply: Option<Seq<u8>>)
    requires
        lanes_kept(s.slots),
    ensures
        0 <= i < s.slots.len() ==> lanes_kept(s.slots.update(i, SlotView::Done(reply))),
        lanes_kept(s.delivered().slots),
    decreases s.slots.len(),
{
    if 0 <= i < s.slots.len() {
        lemma_running_done(s.slots, i, reply, Kind::Control);
        lemma_running_done(s.slots, i, reply, Kind::Thaw);
        lemma_running_done(s.slots, i, reply, Kind::Freeze);
        lemma_running_done(s.slots, i, reply, Kind::Ordinary);
        let after = s.slots.update(i, SlotView::Done(reply));
        if running_of(after, Kind::Ordinary) > 0 {
            assert(running_of(s.slots, Kind::Ordinary) > 0);
        }
    }
    if s.slots.len() > 0 && s.slots[0] is Done {
        lemma_running_first(s.slots, Kind::Control);
        lemma_running_first(s.slots, Kind::Thaw);
        lemma_running_first(s.slots, Kind::Freeze);
        lemma_running_first(s.slots, Kind::Ordinary);
        let outbox = match s.slots[0] {
            SlotView::Done(Some(reply)) if !s.write_failed => s.outbox + reply,
            _ => s.outbox,
        };
        let rest = SessionView {
            base: ticket_at(s.base, 1),
            slots: s.slots.drop_first(),
            outbox,
            ..s
        };
        law_completion_keeps_the_lanes(rest, -1, reply);
    }
}

/// The replies of the commands that have finished, in request order.
pub open spec fn replies(slots: Seq<SlotView>) -> Seq<u8>
    decreases slots.len(),
{
    if slots.len() == 0 {
        Seq::empty()
    } else {
        replies(slots.drop_last()) + match slots.last() {
            SlotView::Done(Some(reply)) => reply,
            _ => Seq::empty(),
        }
    }
}

proof fn lemma_replies_first(slots: Seq<SlotView>)
    requires
        slots.len() > 0,
    ensures
        replies(slots) == (match slots[0] {
            SlotView::Done(Some(reply)) => reply,
            _ => Seq::empty(),
        }) + replies(slots.drop_first()),
    decreases slots.len(),
{
    let first = match slots[0] {
        SlotView::Done(Some(reply)) => reply,
        _ => Seq::empty(),
    };
    if slots.len() > 1 {
        lemma_replies_first(slots.drop_last());
        assert(slots.drop_last().drop_first() =~= slots.drop_first().drop_last());
        assert(replies(slots) =~= first + replies(slots.drop_first()));
    } else {
        assert(slots.drop_last() =~= Seq::<SlotView>::empty());
        assert(slots.drop_first() =~= Seq::<SlotView>::empty());
        assert(replies(slots) =~= first + replies(slots.drop_first()));
    }
}

/// Delivery is in request order: the replies that leave are those of the
/// longest run of finished commands at the front, one after the other, behind
/// what was to be written before; a command that still runs holds back every
/// reply behind it.
pub proof fn law_replies_leave_in_request_order(s: SessionView)
    requires
        !s.write_failed,
    ensures
        ({
            let d = s.delivered();
            let n = s.slots.len() - d.slots.len();
            &&& 0 <= n
            &&& d.slots == s.slots.skip(n)
            &&& d.outbox == s.outbox + replies(s.slots.take(n))
            &&& forall|i: int| 0 <= i < n ==> (#[trigger] s.slots[i]) is Done
            &&& d.slots.len() > 0 ==> d.slots[0] is Running
        }),
    decreases s.slots.len(),
{
    let d = s.delivered();
    let n = s.slots.len() - d.slots.len();
    if s.slots.len() > 0 && s.slots[0] is Done {
        let outbox = match s.slots[0] {
            SlotView::Done(Some(reply)) if !s.write_failed => s.outbox + reply,
            _ => s.outbox,
        };
        let rest = SessionView {
            base: ticket_at(s.base, 1),
            slots: s.slots.drop_first(),
            outbox,
            ..s
        };
        law_replies_leave_in_request_order(rest);
        lemma_replies_first(s.slots.take(n));
        assert(s.slots.take(n).drop_first() =~= rest.slots.take(n - 1));
        assert(d.slots =~= s.slots.skip(n));
        assert(d.outbox =~= s.outbox + replies(s.slots.take(n)));
        assert forall|i: int| 0 <= i < n implies (#[trigger] s.slots[i]) is Done by {
            if i > 0 {
                assert(rest.slots[i - 1] is Done);
            }
        }
    } else {
        assert(s.slots.skip(0) =~= s.slots);
        assert(s.slots.take(0) =~= Seq::<SlotView>::empty());
        assert(s.outbox + replies(s.slots.take(0)) =~= s.outbox);
    }
}

/// Frames start in request order: what starts is the front of what waited, in
/// its order, behind every command that was held.
pub proof fn law_frames_start_in_request_order(s: SessionView)
    ensures
        ({
            let a = s.admitted();
            let n = s.waiting.len() - a.waiting.len();
            &&& 0 <= n
            &&& a.waiting == s.waiting.skip(n)
            &&& a.slots == s.slots + Seq::new(
                n as nat,
                |i: int| SlotView::Running(s.waiting[i].kind),
            )
        }),
    decreases s.waiting.len(),
{
    let a = s.admitted();
    let n = s.waiting.len() - a.waiting.len();
    if s.may_admit() {
        let rest = SessionView {
            slots: s.slots.push(SlotView::Running(s.waiting[0].kind)),
            waiting: s.waiting.drop_first(),
            ..s
        };
        law_frames_start_in_request_order(rest);
        assert(a.waiting =~= s.waiting.skip(n));
        assert(a.slots =~= s.slots + Seq::new(
            n as nat,
            |i: int| SlotView::Running(s.waiting[i].kind),
        ));
    } else {
        assert(s.waiting.skip(0) =~= s.waiting);
        assert(s.slots + Seq::new(0, |i: int| SlotView::Running(s.waiting[i].kind)) =~= s.slots);
    }
}

/// No command is given up on: the session ends only once none is running,
/// whether by a stop, at the end of its input or otherwise.
pub proof fn law_no_running_command_is_abandoned(
    s: SessionView,
    stop: bool,
    may_stop: bool,
    stop_live: bool,
)
    ensures
        s.stops(stop, may_stop) ==> !any_running(s.settled(stop, may_stop).slots),
        s.going(stop, may_stop).exhausted(stop_live) ==> !any_running(
            s.going(stop, may_stop).slots,
        ),
{
    let g = s.going(stop, may_stop);
    if g.slots.len() == 0 {
        assert(!any_running(g.slots));
    }
}

/// A stop is honoured only where it is allowed: a session never ends by a stop
/// while the guest may be frozen, and one that a freeze overtook serves on.
pub proof fn law_a_stop_is_honoured_only_when_allowed(s: SessionView, stop: bool)
    ensures
        !s.stops(stop, false),
        !any_running(s.delivered().slots) ==> !s.going(stop, false).draining,
{
    lemma_delivered(s);
    let settled = s.settled(stop, false);
    let kept = SessionView { draining: settled.draining && any_running(settled.slots), ..settled };
    lemma_admitted(kept);
}

/// While a stop is in force nothing is read and nothing starts.
pub proof fn law_draining_starts_nothing(s: SessionView, stop: bool, may_stop: bool)
    requires
        s.going(stop, may_stop).draining,
    ensures
        !s.going(stop, may_stop).can_read(),
        s.going(stop, may_stop).slots == s.delivered().slots,
        s.going(stop, may_stop).waiting == s.waiting,
{
    lemma_delivered(s);
    let settled = s.settled(stop, may_stop);
    let kept = SessionView { draining: settled.draining && any_running(settled.slots), ..settled };
    lemma_admitted(kept);
}

/// The commands of a lane that are running.
pub open spec fn in_lane(slots: Seq<SlotView>, kind: Kind) -> Seq<SlotView> {
    slots.filter(|slot: SlotView| slot == SlotView::Running(kind))
}

/// The count of a lane is the number of its commands that are running.
pub proof fn law_a_lane_counts_its_commands(slots: Seq<SlotView>, kind: Kind)
    ensures
        running_of(slots, kind) == in_lane(slots, kind).len(),
        running_of(slots, kind) == 0 <==> (forall|i: int|
            0 <= i < slots.len() ==> (#[trigger] slots[i]) != SlotView::Running(kind)),
    decreases slots.len(),
{
    reveal(Seq::filter);
    if slots.len() > 0 {
        law_a_lane_counts_its_commands(slots.drop_last(), kind);
        if running_of(slots, kind) == 0 {
            assert forall|i: int| 0 <= i < slots.len() implies (#[trigger] slots[i])
                != SlotView::Running(kind) by {
                if i < slots.len() - 1 {
                    assert(slots.drop_last()[i] == slots[i]);
                }
            }
        } else {
            if slots.last() != SlotView::Running(kind) {
                let i = choose|i: int|
                    0 <= i < slots.drop_last().len() && (#[trigger] slots.drop_last()[i])
                        == SlotView::Running(kind);
                assert(slots[i] == SlotView::Running(kind));
            } else {
                assert(slots[slots.len() - 1] == SlotView::Running(kind));
            }
        }
    }
}

/// Which frame may start. A control may beside anything, while fewer than three
/// controls run. A thaw may while neither a thaw nor an ordinary command runs.
/// Any other may while nothing runs but controls.
pub proof fn law_which_frame_may_start(slots: Seq<SlotView>, kind: Kind)
    ensures
        may_start(slots, Kind::Control) <==> in_lane(slots, Kind::Control).len() < 3,
        may_start(slots, Kind::Thaw) <==> (forall|i: int|
            0 <= i < slots.len() ==> (#[trigger] slots[i]) != SlotView::Running(Kind::Thaw)
                && slots[i] != SlotView::Running(Kind::Ordinary)),
        kind == Kind::Freeze || kind == Kind::Ordinary ==> (may_start(slots, kind) <==> (forall|
            i: int,
        |
            0 <= i < slots.len() && (#[trigger] slots[i]) is Running ==> slots[i]
                == SlotView::Running(Kind::Control))),
{
    law_a_lane_counts_its_commands(slots, Kind::Control);
    law_a_lane_counts_its_commands(slots, Kind::Thaw);
    law_a_lane_counts_its_commands(slots, Kind::Freeze);
    law_a_lane_counts_its_commands(slots, Kind::Ordinary);
    if kind == Kind::Freeze || kind == Kind::Ordinary {
        if may_start(slots, kind) {
            assert forall|i: int| 0 <= i < slots.len() && (#[trigger] slots[i]) is Running implies slots[i]
                == SlotView::Running(Kind::Control) by {
                let lane = slots[i]->Running_0;
                assert(slots[i] == SlotView::Running(lane));
            }
        }
    }
}

/// Admission goes as far as it may: when it stops, either nothing waits, or
/// eight commands are held, or the next frame may not start.
pub proof fn law_admission_goes_as_far_as_it_may(s: SessionView)
    ensures
        s.admitted().waiting.len() == 0 || s.admitted().slots.len() >= 8 || !may_start(
            s.admitted().slots,
            s.admitted().waiting[0].kind,
        ),
        s.slots.len() <= 8 ==> s.admitted().slots.len() <= 8,
        s.slots.len() >= 8 ==> s.admitted() == s,
    decreases s.waiting.len(),
{
    if s.may_admit() {
        law_admission_goes_as_far_as_it_may(
            SessionView {
                slots: s.slots.push(SlotView::Running(s.waiting[0].kind)),
                waiting: s.waiting.drop_first(),
                ..s
            },
        );
    }
}

/// No frame starts that may not: each one that admission starts was allowed
/// beside the commands before it.
pub proof fn law_only_what_may_start_starts(s: SessionView, i: int)
    requires
        s.slots.len() <= i < s.admitted().slots.len(),
    ensures
        i < 8,
        may_start(s.admitted().slots.take(i), s.waiting[i - s.slots.len()].kind),
        s.admitted().slots[i] == SlotView::Running(s.waiting[i - s.slots.len()].kind),
    decreases s.waiting.len(),
{
    if s.may_admit() {
        let next = SessionView {
            slots: s.slots.push(SlotView::Running(s.waiting[0].kind)),
            waiting: s.waiting.drop_first(),
            ..s
        };
        law_frames_start_in_request_order(s);
        if i == s.slots.len() {
            assert(s.admitted().slots.take(i) =~= s.slots);
        } else {
            law_only_what_may_start_starts(next, i);
        }
    }
}

/// When the channel is read: while the input has not ended, no stop is in
/// force, no frame waits and fewer than eight commands are held. When bytes are
/// written: while there are any and no write has failed.
pub proof fn law_when_it_reads_and_writes(s: SessionView)
    ensures
        s.can_read() <==> s.input_end is None && !s.draining && s.waiting.len() == 0
            && s.slots.len() < 8,
        s.can_write() <==> s.outbox.len() > 0 && !s.write_failed,
{
}

/// A session that goes on leaves nothing out: what waits stays, and what it has
/// read, received and still has to write is as it was, but for the replies that
/// have become due.
pub proof fn law_a_session_that_goes_on_loses_nothing(
    s: SessionView,
    stop: bool,
    may_stop: bool,
)
    ensures
        ({
            let g = s.going(stop, may_stop);
            &&& g.decoder == s.decoder
            &&& g.received == s.received
            &&& g.input_end == s.input_end
            &&& g.write_failed == s.write_failed
            &&& g.outbox == s.delivered().outbox
            &&& g.base == s.delivered().base
            &&& g.slots.len() + g.waiting.len() == s.delivered().slots.len() + s.waiting.len()
            &&& !stop && !s.draining ==> !g.draining
        }),
{
    lemma_delivered(s);
    let settled = s.settled(stop, may_stop);
    let kept = SessionView { draining: settled.draining && any_running(settled.slots), ..settled };
    lemma_admitted(kept);
    law_frames_start_in_request_order(kept);
}

/// A stop that is asked for and allowed ends a session in which nothing runs;
/// without one, or before what runs has finished, no session ends by a stop.
pub proof fn law_when_a_stop_ends_the_session(s: SessionView, stop: bool)
    ensures
        s.stops(stop, true) <==> (stop || s.draining) && (forall|i: int|
            0 <= i < s.delivered().slots.len() ==> !((#[trigger] s.delivered().slots[i]) is Running)),
        !s.stops(stop, false),
{
    lemma_delivered(s);
}

/// When a session has nothing left to do. While the stop may still change that
/// is when its input has ended and everything received is answered and written;
/// once the stop cannot change, also when nothing runs, nothing is to be
/// written and nothing can be read.
pub proof fn law_when_a_session_is_exhausted(s: SessionView)
    ensures
        s.exhausted(true) <==> s.input_end is Some && s.slots.len() == 0 && s.waiting.len() == 0
            && !(s.outbox.len() > 0 && !s.write_failed),
        s.exhausted(false) <==> s.exhausted(true) || (!(s.outbox.len() > 0 && !s.write_failed) && !(
        s.input_end is None && !s.draining && s.waiting.len() == 0 && s.slots.len() < 8) && (forall|
            i: int,
        |
            0 <= i < s.slots.len() ==> !((#[trigger] s.slots[i]) is Running))),
        s.input_end matches Some(end) ==> s.ended_by() == end,
        s.input_end is None ==> s.ended_by() == SessionEnd::Eof,
{
    if s.slots.len() == 0 {
        assert(!any_running(s.slots));
    }
}

/// Tickets and places are each other's inverse while fewer than 2 to the 64th
/// commands are held.
pub proof fn law_tickets_find_their_command(base: u64, i: int)
    requires
        0 <= i < 0x1_0000_0000_0000_0000,
    ensures
        index_of(base, ticket_at(base, i)) == i,
{
}

/// A ticket keeps finding its command when the commands before it leave.
pub proof fn law_tickets_outlive_earlier_commands(base: u64, i: int, left: int)
    requires
        0 <= left <= i < 0x1_0000_0000_0000_0000,
    ensures
        index_of(ticket_at(base, left), ticket_at(base, i)) == i - left,
{
}

/// A failed write loses every reply from then on; a reply is never delivered
/// to a peer that is gone.
pub proof fn law_a_failed_writer_gets_nothing(s: SessionView)
    requires
        s.write_failed,
    ensures
        s.delivered().outbox == s.outbox,
    decreases s.slots.len(),
{
    if s.slots.len() > 0 && s.slots[0] is Done {
        law_a_failed_writer_gets_nothing(
            SessionView {
                base: ticket_at(s.base, 1),
                slots: s.slots.drop_first(),
                outbox: s.outbox,
                ..s
            },
        );
    }
}

/// The words in which the end of a session is logged.
pub proof fn law_the_words_of_an_end(end: SessionEnd)
    ensures
        end == SessionEnd::Eof ==> end.text() == "eof"@,
        end == SessionEnd::Cancelled ==> end.text() == "cancelled"@,
        end matches SessionEnd::ReadError(err) ==> end.text() == "read error: "@ + err@,
        end matches SessionEnd::WriteError(err) ==> end.text() == "write error: "@ + err@,
{
}

/// The frames that start are the first that waited, in order, each with the
/// ticket that finds it among the commands held.
pub proof fn law_what_starts(waiting: Seq<WaitingView>, n: int, base: u64, at: int, i: int)
    requires
        0 <= i < n,
        0 <= at,
        at + n < 0x1_0000_0000_0000_0000,
    ensures
        starting(waiting, n, base, at).len() == n,
        starting(waiting, n, base, at)[i].event == waiting[i].event,
        index_of(base, starting(waiting, n, base, at)[i].ticket) == at + i,
{
    law_tickets_find_their_command(base, at + i);
}

/// What the peer does to a session. Bytes are counted and decoded, and none of
/// them means that the peer is gone. A read or a write that failed ends the
/// input with its reason, a write only if the input had not ended before; what
/// was to be written is then dropped.
pub proof fn law_what_the_peer_does_to_a_session(
    reading: &mut Session,
    bytes: &[u8],
    events: Vec<DecodeEvent>,
    failing: &mut Session,
    broken: &mut Session,
    why: String,
)
    requires
        old(reading).wf(),
        call_ensures(Session::read, (reading, bytes), events),
        old(failing).wf(),
        call_ensures(Session::read_failed, (failing, why), ()),
        old(broken).wf(),
        call_ensures(Session::write_failed, (broken, why), ()),
    ensures
        bytes@.len() == 0 ==> final(reading)@.input_end == Some(SessionEnd::Eof),
        bytes@.len() > 0 ==> final(reading)@.input_end == old(reading)@.input_end,
        old(reading)@.received + bytes@.len() <= u64::MAX ==> final(reading)@.received
            == old(reading)@.received + bytes@.len(),
        final(reading)@.slots == old(reading)@.slots,
        final(reading)@.waiting == old(reading)@.waiting,
        final(reading)@.outbox == old(reading)@.outbox,
        final(failing)@.input_end == Some(SessionEnd::ReadError(why)),
        final(failing)@.slots == old(failing)@.slots,
        final(failing)@.waiting == old(failing)@.waiting,
        final(failing)@.outbox == old(failing)@.outbox,
        old(broken)@.input_end is None ==> final(broken)@.input_end == Some(
            SessionEnd::WriteError(why),
        ),
        old(broken)@.input_end is Some ==> final(broken)@.input_end == old(broken)@.input_end,
        final(broken)@.outbox.len() == 0,
        final(broken)@.write_failed,
        final(broken)@.slots == old(broken)@.slots,
        final(broken)@.waiting == old(broken)@.waiting,
{
}

/// What the commands do to a session. A frame waits behind the others with its
/// lane. The command that a ticket finds, if it is running, is finished with
/// its reply; no other is touched. A stop that is allowed is accepted, and stays
/// so.
pub proof fn law_what_the_commands_do_to_a_session(
    queueing: &mut Session,
    kind: Kind,
    event: DecodeEvent,
    finishing: &mut Session,
    ticket: u64,
    reply: Option<Vec<u8>>,
    stopping: &mut Session,
    stop: bool,
    may_stop: bool,
)
    requires
        old(queueing).wf(),
        call_ensures(Session::enqueue, (queueing, kind, event), ()),
        old(finishing).wf(),
        call_ensures(Session::finished, (finishing, ticket, reply), ()),
        old(stopping).wf(),
        call_ensures(Session::stop_changed, (stopping, stop, may_stop), ()),
    ensures
        final(queueing)@.waiting == old(queueing)@.waiting.push(
            WaitingView { kind, event: event@ },
        ),
        final(queueing)@.slots == old(queueing)@.slots,
        final(finishing)@.slots.len() == old(finishing)@.slots.len(),
        forall|i: int|
            0 <= i < old(finishing)@.slots.len() && i != index_of(old(finishing)@.base, ticket)
                ==> #[trigger] final(finishing)@.slots[i] == old(finishing)@.slots[i],
        forall|i: int|
            0 <= i < old(finishing)@.slots.len() && i == index_of(old(finishing)@.base, ticket)
                && old(finishing)@.slots[i] is Running ==> #[trigger] final(finishing)@.slots[i]
                == SlotView::Done(
                match reply {
                    Some(bytes) => Some(bytes@),
                    None => None,
                },
            ),
        final(finishing)@.waiting == old(finishing)@.waiting,
        final(finishing)@.outbox == old(finishing)@.outbox,
        stop && may_stop ==> final(stopping)@.draining,
        !(stop && may_stop) ==> final(stopping)@.draining == old(stopping)@.draining,
        final(stopping)@.slots == old(stopping)@.slots,
        final(stopping)@.waiting == old(stopping)@.waiting,
{
}

/// What was written leaves the outbox, byte for byte, and nothing else does.
pub proof fn law_what_was_written_leaves(s: &mut Session, n: usize, next: Written)
    requires
        old(s).wf(),
        0 < old(s)@.outbox.len(),
        n <= old(s)@.outbox.len(),
        call_ensures(Session::wrote, (s, n), next),
    ensures
        old(s)@.outbox == old(s)@.outbox.take(n as int) + final(s)@.outbox,
        n == 0 ==> next == Written::Zero,
        0 < n < old(s)@.outbox.len() ==> next == Written::More,
        n == old(s)@.outbox.len() ==> next == Written::Flush,
{
    assert(old(s)@.outbox =~= old(s)@.outbox.take(n as int) + old(s)@.outbox.skip(n as int));
}

/// What a step says. A session ends only when nothing runs, with the bytes it
/// has received; by a stop when one is asked for or was accepted, is allowed,
/// and nothing runs. One that goes on starts the first frames that waited, and
/// says whether something runs, whether bytes are to be written and whether the
/// channel may be read.
pub proof fn law_what_a_step_says(
    s: &mut Session,
    stop: bool,
    may_stop: bool,
    stop_live: bool,
    step: Step,
)
    requires
        old(s).wf(),
        call_ensures(Session::step, (s, stop, may_stop, stop_live), step),
    ensures
        step matches Step::End { report, flush } ==> report.received == old(s)@.received && (forall|
            i: int,
        |
            0 <= i < final(s)@.slots.len() ==> !((#[trigger] final(s)@.slots[i]) is Running)),
        (stop || old(s)@.draining) && may_stop && (forall|i: int|
            0 <= i < old(s)@.delivered().slots.len() ==> !((
            #[trigger] old(s)@.delivered().slots[i]) is Running)) ==> step is End
            && step->report.end == SessionEnd::Cancelled && (step->flush
            <==> old(s)@.delivered().outbox.len() > 0 && !old(s)@.write_failed),
        step is End && step->report.end == SessionEnd::Cancelled && old(s)@.input_end != Some(
            SessionEnd::Cancelled,
        ) ==> (stop || old(s)@.draining) && may_stop,
        step matches Step::Go { start, running, can_write, can_read } ==> {
            &&& start@.len() == old(s)@.waiting.len() - final(s)@.waiting.len()
            &&& forall|i: int|
                0 <= i < start@.len() ==> (#[trigger] start@[i]).event@ == old(s)@.waiting[i].event
            &&& running <==> exists|i: int|
                0 <= i < final(s)@.slots.len() && (#[trigger] final(s)@.slots[i]) is Running
            &&& can_write <==> final(s)@.outbox.len() > 0 && !final(s)@.write_failed
            &&& can_read <==> final(s)@.input_end is None && !final(s)@.draining
                && final(s)@.waiting.len() == 0 && final(s)@.slots.len() < 8
        },
{
    let v = old(s)@;
    lemma_delivered(v);
    law_when_a_stop_ends_the_session(v, stop);
    law_no_running_command_is_abandoned(v, stop, may_stop, stop_live);
    let settled = v.settled(stop, may_stop);
    let kept = SessionView { draining: settled.draining && any_running(settled.slots), ..settled };
    lemma_admitted(kept);
    law_frames_start_in_request_order(kept);
    if step is Go {
        let start = step->start;
        assert(started_view(start@).len() == start@.len());
        assert forall|i: int| 0 <= i < start@.len() implies (#[trigger] start@[i]).event@
            == v.waiting[i].event by {
            assert(started_view(start@)[i].event == start@[i].event@);
        }
    }
}

} // verus!
