//! A whole session: what became of every frame, and what went over the wire.

use vstd::prelude::*;

use crate::audit::ring;
use crate::channel::session;
use crate::channel::session::{Kind, SessionEnd, MAX_QUEUED};
use crate::framing;

verus! {

/// Something that happens to a session.
pub ghost enum Move {
    Read { bytes: Seq<u8> },
    Enqueued { kind: Kind, event: framing::Event },
    ReadFailed { end: SessionEnd },
    Wrote { n: nat },
    WriteFailed { end: SessionEnd },
    Finished { ticket: u64, reply: Option<Seq<u8>> },
    StopChanged { stop: bool, may_stop: bool },
    Stepped { stop: bool, may_stop: bool },
}

/// A session and its past.
#[verifier::ext_equal]
pub ghost struct History {
    pub session: session::SessionView,
    /// Every byte that was read.
    pub read: Seq<u8>,
    /// Everything that was decoded from them, in request order.
    pub decoded: Seq<framing::Event>,
    /// Every frame that was received, in request order.
    pub frames: Seq<session::WaitingView>,
    /// Every command that was started, in request order, with its reply once it
    /// has finished.
    pub commands: Seq<session::SlotView>,
    /// Every byte that the host has accepted.
    pub wire: Seq<u8>,
}

/// The session after it was asked what it does next.
pub open spec fn stepped(
    s: session::SessionView,
    stop: bool,
    may_stop: bool,
) -> session::SessionView {
    if s.stops(stop, may_stop) {
        s.settled(stop, may_stop)
    } else {
        s.going(stop, may_stop)
    }
}

impl History {
    /// Before any byte.
    pub open spec fn start() -> History {
        History {
            session: session::SessionView::start(),
            read: Seq::empty(),
            decoded: Seq::empty(),
            frames: Seq::empty(),
            commands: Seq::empty(),
            wire: Seq::empty(),
        }
    }

    /// How many commands the session no longer holds.
    pub open spec fn left(self) -> int {
        self.commands.len() - self.session.slots.len()
    }

    /// Everything that was decoded has been queued.
    pub open spec fn caught_up(self) -> bool {
        self.frames.len() == self.decoded.len()
    }

    /// It can happen now. What is queued is what was decoded, one after the
    /// other; nothing more is read and no frame starts before all of it is. No
    /// more is accepted than was to be written.
    pub open spec fn allows(self, it: Move) -> bool {
        match it {
            Move::Read { .. } => self.caught_up(),
            Move::Enqueued { event, .. } => self.frames.len() < self.decoded.len() && event
                == self.decoded[self.frames.len() as int],
            Move::Wrote { n } => 0 < self.session.outbox.len() && n <= self.session.outbox.len(),
            Move::Stepped { .. } => self.caught_up(),
            _ => true,
        }
    }

    /// The history once it happened.
    pub open spec fn after(self, it: Move) -> History {
        let s = self.session;
        match it {
            Move::Read { bytes } => History {
                session: session::SessionView {
                    decoder: framing::feed(s.decoder, bytes).0,
                    received: ring::counted(s.received + bytes.len()),
                    input_end: if bytes.len() == 0 {
                        Some(SessionEnd::Eof)
                    } else {
                        s.input_end
                    },
                    ..s
                },
                read: self.read + bytes,
                decoded: self.decoded + framing::feed(s.decoder, bytes).1,
                ..self
            },
            Move::Enqueued { kind, event } => {
                let frame = session::WaitingView { kind, event };
                History {
                    session: session::SessionView { waiting: s.waiting.push(frame), ..s },
                    frames: self.frames.push(frame),
                    ..self
                }
            },
            Move::ReadFailed { end } => History {
                session: session::SessionView { input_end: Some(end), ..s },
                ..self
            },
            Move::Wrote { n } => History {
                session: session::SessionView { outbox: s.outbox.skip(n as int), ..s },
                wire: self.wire + s.outbox.take(n as int),
                ..self
            },
            Move::WriteFailed { end } => History {
                session: session::SessionView {
                    outbox: Seq::empty(),
                    write_failed: true,
                    input_end: match s.input_end {
                        Some(end) => Some(end),
                        None => Some(end),
                    },
                    ..s
                },
                ..self
            },
            Move::Finished { ticket, reply } => {
                let i = session::index_of(s.base, ticket);
                if i < s.slots.len() && s.slots[i] is Running {
                    let done = session::SlotView::Done(reply);
                    History {
                        session: session::SessionView { slots: s.slots.update(i, done), ..s },
                        commands: self.commands.update(self.left() + i, done),
                        ..self
                    }
                } else {
                    self
                }
            },
            Move::StopChanged { stop, may_stop } => History {
                session: session::SessionView { draining: s.draining || (stop && may_stop), ..s },
                ..self
            },
            Move::Stepped { stop, may_stop } => {
                let next = stepped(s, stop, may_stop);
                History {
                    session: next,
                    commands: self.commands + Seq::new(
                        (s.waiting.len() - next.waiting.len()) as nat,
                        |i: int| session::SlotView::Running(s.waiting[i].kind),
                    ),
                    ..self
                }
            },
        }
    }

    /// What was received is what the bytes read so far decode to, in order.
    pub open spec fn taken_in(self) -> bool {
        let fed = framing::feed(framing::Decoding::start(), self.read);
        &&& self.session.decoder == fed.0
        &&& self.decoded == fed.1
        &&& self.frames.len() <= self.decoded.len()
        &&& forall|i: int|
            0 <= i < self.frames.len() ==> (#[trigger] self.frames[i]).event == self.decoded[i]
    }

    /// The commands that the session holds are the last that were started, no
    /// more than [`MAX_QUEUED`] of them and each in its lane; those before have
    /// finished. What waits is the rest of what was received. The wire carries
    /// the replies of the commands that are no longer held, in request order,
    /// and nothing else.
    pub open spec fn served(self) -> bool {
        let s = self.session;
        let n = self.left();
        let replies = session::replies(self.commands.take(n));
        &&& 0 <= n
        &&& s.slots == self.commands.skip(n)
        &&& s.slots.len() <= MAX_QUEUED
        &&& session::lanes_kept(s.slots)
        &&& s.base == session::ticket_at(0, n)
        &&& forall|i: int| 0 <= i < n ==> (#[trigger] self.commands[i]) is Done
        &&& self.commands.len() <= self.frames.len()
        &&& s.waiting == self.frames.skip(self.commands.len() as int)
        &&& forall|i: int|
            0 <= i < self.commands.len() && (#[trigger] self.commands[i]) is Running
                ==> self.commands[i] == session::SlotView::Running(self.frames[i].kind)
        &&& self.wire.is_prefix_of(replies)
        &&& !s.write_failed ==> self.wire + s.outbox == replies
        &&& s.write_failed ==> s.outbox.len() == 0
    }

    /// What holds of every session.
    pub open spec fn kept(self) -> bool {
        self.taken_in() && self.served()
    }
}

/// The history of what happens one after the other.
pub open spec fn history(moves: Seq<Move>) -> History
    decreases moves.len(),
{
    if moves.len() == 0 {
        History::start()
    } else {
        history(moves.drop_last()).after(moves.last())
    }
}

/// It can happen one after the other.
pub open spec fn possible(moves: Seq<Move>) -> bool
    decreases moves.len(),
{
    moves.len() > 0 ==> possible(moves.drop_last()) && history(moves.drop_last()).allows(
        moves.last(),
    )
}

proof fn lemma_replies_concat(a: Seq<session::SlotView>, b: Seq<session::SlotView>)
    ensures
        session::replies(a + b) == session::replies(a) + session::replies(b),
    decreases b.len(),
{
    if b.len() == 0 {
        assert(a + b =~= a);
        assert(session::replies(a) + session::replies(b) =~= session::replies(a));
    } else {
        lemma_replies_concat(a, b.drop_last());
        assert((a + b).drop_last() =~= a + b.drop_last());
        assert(session::replies(a + b) =~= session::replies(a) + session::replies(b));
    }
}

/// What a delivery does.
proof fn lemma_delivery(s: session::SessionView)
    ensures
        ({
            let d = s.delivered();
            let n = s.slots.len() - d.slots.len();
            &&& 0 <= n
            &&& d.slots == s.slots.skip(n)
            &&& forall|i: int| 0 <= i < n ==> (#[trigger] s.slots[i]) is Done
            &&& d.slots.len() > 0 ==> d.slots[0] is Running
            &&& d.base == session::ticket_at(s.base, n)
            &&& d.waiting == s.waiting
            &&& d.write_failed == s.write_failed
            &&& d.outbox == if s.write_failed {
                s.outbox
            } else {
                s.outbox + session::replies(s.slots.take(n))
            }
        }),
    decreases s.slots.len(),
{
    let d = s.delivered();
    let n = s.slots.len() - d.slots.len();
    if s.slots.len() > 0 && s.slots[0] is Done {
        let rest = session::SessionView {
            base: session::ticket_at(s.base, 1),
            slots: s.slots.drop_first(),
            outbox: match s.slots[0] {
                session::SlotView::Done(Some(reply)) if !s.write_failed => s.outbox + reply,
                _ => s.outbox,
            },
            ..s
        };
        lemma_delivery(rest);
        assert(d.slots =~= s.slots.skip(n));
        assert forall|i: int| 0 <= i < n implies (#[trigger] s.slots[i]) is Done by {
            if i > 0 {
                assert(rest.slots[i - 1] is Done);
            }
        }
    } else {
        assert(s.slots.skip(0) =~= s.slots);
    }
    if !s.write_failed {
        session::law_replies_leave_in_request_order(s);
    }
}

/// No more commands are held than the bound allows, whatever comes: by a step
/// of the session, and by a command that finishes.
pub proof fn law_held_commands_are_bounded(h: History, it: Move)
    requires
        h.session.slots.len() <= MAX_QUEUED,
    ensures
        h.after(it).session.slots.len() <= MAX_QUEUED,
{
    if let Move::Stepped { stop, may_stop } = it {
        let s = h.session;
        lemma_delivery(s);
        let settled = s.settled(stop, may_stop);
        let kept = session::SessionView {
            draining: settled.draining && session::any_running(settled.slots),
            ..settled
        };
        lemma_admission_bounded(kept);
    }
}

proof fn lemma_admission_bounded(s: session::SessionView)
    requires
        s.slots.len() <= MAX_QUEUED,
    ensures
        s.admitted().slots.len() <= MAX_QUEUED,
    decreases s.waiting.len(),
{
    if s.may_admit() {
        lemma_admission_bounded(
            session::SessionView {
                slots: s.slots.push(session::SlotView::Running(s.waiting[0].kind)),
                waiting: s.waiting.drop_first(),
                ..s
            },
        );
    }
}

/// What a step of the session does.
proof fn lemma_stepped(s: session::SessionView, stop: bool, may_stop: bool)
    requires
        session::lanes_kept(s.slots),
    ensures
        ({
            let d = s.delivered();
            let e = stepped(s, stop, may_stop);
            let n = s.waiting.len() - e.waiting.len();
            &&& 0 <= n
            &&& e.waiting == s.waiting.skip(n)
            &&& e.slots == d.slots + Seq::new(
                n as nat,
                |i: int| session::SlotView::Running(s.waiting[i].kind),
            )
            &&& e.base == d.base
            &&& e.outbox == d.outbox
            &&& e.write_failed == d.write_failed
            &&& session::lanes_kept(e.slots)
        }),
{
    lemma_delivery(s);
    session::law_completion_keeps_the_lanes(s, -1, None);
    let d = s.delivered();
    let e = stepped(s, stop, may_stop);
    let settled = s.settled(stop, may_stop);
    let kept = session::SessionView {
        draining: settled.draining && session::any_running(settled.slots),
        ..settled
    };
    if s.stops(stop, may_stop) || kept.draining {
        assert(s.waiting.skip(0) =~= s.waiting);
        assert(e.slots =~= d.slots + Seq::new(
            0,
            |i: int| session::SlotView::Running(s.waiting[i].kind),
        ));
    } else {
        session::law_frames_start_in_request_order(kept);
        session::law_admission_keeps_the_lanes(kept);
        session::lemma_admitted(kept);
    }
}

/// A step of the session decodes nothing.
proof fn lemma_stepped_decoder(s: session::SessionView, stop: bool, may_stop: bool)
    ensures
        stepped(s, stop, may_stop).decoder == s.decoder,
{
    session::lemma_delivered(s);
    let settled = s.settled(stop, may_stop);
    let kept = session::SessionView {
        draining: settled.draining && session::any_running(settled.slots),
        ..settled
    };
    session::lemma_admitted(kept);
}

/// Only what was read changes what was taken in, and only by what it decodes to.
proof fn lemma_taken_in(h: History, it: Move)
    requires
        h.taken_in(),
        h.allows(it),
    ensures
        h.after(it).taken_in(),
{
    let e = h.after(it);
    match it {
        Move::Read { bytes } => {
            framing::law_chunking(framing::Decoding::start(), h.read, bytes);
            assert forall|i: int| 0 <= i < e.frames.len() implies (#[trigger] e.frames[i]).event
                == e.decoded[i] by {
                assert(h.frames[i].event == h.decoded[i]);
            }
        },
        Move::Stepped { stop, may_stop } => {
            lemma_stepped_decoder(h.session, stop, may_stop);
        },
        _ => {},
    }
}

/// Every session keeps its history in order, whatever happens to it.
pub proof fn law_history_is_kept(h: History, it: Move)
    requires
        h.kept(),
        h.allows(it),
    ensures
        h.after(it).kept(),
{
    lemma_taken_in(h, it);
    lemma_served(h, it);
}

proof fn lemma_served(h: History, it: Move)
    requires
        h.served(),
        h.allows(it),
    ensures
        h.after(it).served(),
{
    let s = h.session;
    let n = h.left();
    let e = h.after(it);
    match it {
        Move::Enqueued { kind, event } => {
            assert(e.session.waiting =~= e.frames.skip(e.commands.len() as int));
            assert forall|i: int|
                0 <= i < e.commands.len() && (#[trigger] e.commands[i]) is Running implies e.commands[i]
                == session::SlotView::Running(e.frames[i].kind) by {
                assert(e.frames[i] == h.frames[i]);
            }
        },
        Move::Wrote { n: accepted } => {
            let replies = session::replies(h.commands.take(n));
            assert(s.outbox.take(accepted as int) + s.outbox.skip(accepted as int) =~= s.outbox);
            assert(!s.write_failed);
            assert(e.wire + e.session.outbox =~= h.wire + s.outbox);
            assert(e.wire =~= replies.take(e.wire.len() as int));
        },
        Move::WriteFailed { .. } => {},
        Move::Finished { ticket, reply } => {
            let i = session::index_of(s.base, ticket);
            if i < s.slots.len() && s.slots[i] is Running {
                session::law_completion_keeps_the_lanes(s, i, reply);
                assert(e.session.slots =~= e.commands.skip(n));
                assert(e.commands.take(n) =~= h.commands.take(n));
            }
        },
        Move::Stepped { stop, may_stop } => {
            lemma_served_step(h, stop, may_stop);
        },
        _ => {},
    }
}

proof fn lemma_served_step(h: History, stop: bool, may_stop: bool)
    requires
        h.served(),
    ensures
        h.after(Move::Stepped { stop, may_stop }).served(),
{
    let it = Move::Stepped { stop, may_stop };
    let s = h.session;
    let n = h.left();
    let e = h.after(it);
    lemma_delivery(s);
    lemma_stepped(s, stop, may_stop);
    law_held_commands_are_bounded(h, it);
    let d = s.delivered();
    let gone = s.slots.len() - d.slots.len();
    let begun = s.waiting.len() - e.session.waiting.len();
    assert(e.left() == n + gone);
    assert(e.session.slots =~= e.commands.skip(n + gone));
    assert(e.commands.take(n + gone) =~= h.commands.take(n) + s.slots.take(gone));
    lemma_replies_concat(h.commands.take(n), s.slots.take(gone));
    let before = session::replies(h.commands.take(n));
    let more = session::replies(s.slots.take(gone));
    assert(before.is_prefix_of(before + more));
    if !s.write_failed {
        assert(h.wire + (s.outbox + more) =~= (h.wire + s.outbox) + more);
    }
    assert(h.wire =~= (before + more).take(h.wire.len() as int)) by {
        assert(h.wire =~= before.take(h.wire.len() as int));
    }
    assert forall|i: int| 0 <= i < n + gone implies (#[trigger] e.commands[i]) is Done by {
        if i >= n {
            assert(s.slots[i - n] is Done);
        }
    }
    assert(e.session.waiting =~= e.frames.skip(e.commands.len() as int));
    assert forall|i: int|
        0 <= i < e.commands.len() && (#[trigger] e.commands[i]) is Running implies e.commands[i]
        == session::SlotView::Running(e.frames[i].kind) by {
        if i >= h.commands.len() {
            assert(s.waiting[i - h.commands.len()] == h.frames[i]);
        }
    }
    lemma_ticket_sum(n, gone);
}

proof fn lemma_ticket_sum(n: int, m: int)
    requires
        0 <= n,
        0 <= m,
    ensures
        session::ticket_at(session::ticket_at(0, n), m) == session::ticket_at(0, n + m),
{
}

/// Whatever happens to a session from its start on, its history is in order.
pub proof fn law_every_history_is_kept(moves: Seq<Move>)
    requires
        possible(moves),
    ensures
        history(moves).kept(),
    decreases moves.len(),
{
    if moves.len() == 0 {
        let h = History::start();
        assert(h.session.slots =~= h.commands.skip(0));
        assert(h.session.waiting =~= h.frames.skip(0));
        assert(h.commands.take(0) =~= Seq::<session::SlotView>::empty());
        assert(h.wire + h.session.outbox =~= Seq::<u8>::empty());
    } else {
        law_every_history_is_kept(moves.drop_last());
        law_history_is_kept(history(moves.drop_last()), moves.last());
    }
}

/// What a session takes in is what it read: the frames received so far are the
/// first of those that the bytes read so far decode to, in order, and all of
/// them once everything decoded was queued.
pub proof fn law_the_frames_are_what_was_read(moves: Seq<Move>)
    requires
        possible(moves),
    ensures
        ({
            let h = history(moves);
            let asked = framing::feed(framing::Decoding::start(), h.read).1;
            &&& h.frames.len() <= asked.len()
            &&& forall|i: int|
                0 <= i < h.frames.len() ==> (#[trigger] h.frames[i]).event == asked[i]
            &&& h.caught_up() ==> h.frames.len() == asked.len()
        }),
{
    law_every_history_is_kept(moves);
}

/// The bytes written are the replies in request order: at any time the wire
/// carries a beginning of the replies of commands that have finished, taken in
/// the order in which the host asked, and what is still to be written is the
/// rest of them unless a write failed.
pub proof fn law_the_wire_carries_the_replies_in_request_order(moves: Seq<Move>)
    requires
        possible(moves),
    ensures
        ({
            let h = history(moves);
            let answered = h.commands.take(h.left());
            &&& forall|i: int| 0 <= i < answered.len() ==> (#[trigger] answered[i]) is Done
            &&& h.wire.is_prefix_of(session::replies(answered))
            &&& !h.session.write_failed ==> h.wire + h.session.outbox == session::replies(answered)
        }),
{
    law_every_history_is_kept(moves);
}

proof fn lemma_idle_lanes(slots: Seq<session::SlotView>, kind: Kind)
    requires
        !session::any_running(slots),
    ensures
        session::running_of(slots, kind) == 0,
    decreases slots.len(),
{
    if slots.len() > 0 {
        assert(!(slots[slots.len() - 1] is Running));
        assert forall|i: int| 0 <= i < slots.drop_last().len() implies !((
        #[trigger] slots.drop_last()[i]) is Running) by {
            assert(slots.drop_last()[i] == slots[i]);
        }
        lemma_idle_lanes(slots.drop_last(), kind);
    }
}

proof fn lemma_admission_ends(s: session::SessionView)
    ensures
        !s.admitted().may_admit(),
    decreases s.waiting.len(),
{
    if s.may_admit() {
        lemma_admission_ends(
            session::SessionView {
                slots: s.slots.push(session::SlotView::Running(s.waiting[0].kind)),
                waiting: s.waiting.drop_first(),
                ..s
            },
        );
    }
}

/// A session ends only when every command it started has finished. One that
/// ends otherwise than by a stop, as at the end of the channel, has started
/// every frame that the bytes it read decode to, and has written every reply
/// unless a write failed.
pub proof fn law_a_session_ends_when_everything_is_done(
    moves: Seq<Move>,
    stop: bool,
    may_stop: bool,
    stop_live: bool,
)
    requires
        possible(moves.push(Move::Stepped { stop, may_stop })),
    ensures
        ({
            let s = history(moves).session;
            let e = history(moves).after(Move::Stepped { stop, may_stop });
            let exhausted = !s.stops(stop, may_stop) && s.going(stop, may_stop).exhausted(
                stop_live,
            );
            &&& s.stops(stop, may_stop) || exhausted ==> forall|i: int|
                0 <= i < e.commands.len() ==> (#[trigger] e.commands[i]) is Done
            &&& exhausted ==> {
                let asked = framing::feed(framing::Decoding::start(), e.read).1;
                &&& e.commands.len() == e.frames.len() == asked.len()
                &&& forall|i: int|
                    0 <= i < asked.len() ==> (#[trigger] e.frames[i]).event == asked[i]
            }
            &&& exhausted && !e.session.write_failed ==> e.wire == session::replies(e.commands)
        }),
{
    assert(moves.push(Move::Stepped { stop, may_stop }).drop_last() =~= moves);
    law_every_history_is_kept(moves);
    let h = history(moves);
    let s = h.session;
    let it = Move::Stepped { stop, may_stop };
    let e = h.after(it);
    law_history_is_kept(h, it);
    lemma_delivery(s);
    lemma_stepped(s, stop, may_stop);
    session::law_no_running_command_is_abandoned(s, stop, may_stop, stop_live);
    let exhausted = !s.stops(stop, may_stop) && e.session.exhausted(stop_live);
    if s.stops(stop, may_stop) || exhausted {
        assert(!session::any_running(e.session.slots));
        assert forall|i: int| 0 <= i < e.commands.len() implies (#[trigger] e.commands[i]) is Done by {
            if i >= e.left() {
                assert(e.session.slots[i - e.left()] == e.commands[i]);
            }
        }
    }
    if exhausted {
        let d = s.delivered();
        if d.slots.len() > 0 {
            assert(e.session.slots[0] is Running);
        }
        if e.session.slots.len() > 0 {
            assert(e.session.slots[0] is Running);
        }
        if e.session.waiting.len() > 0 {
            let settled = s.settled(stop, may_stop);
            let kept = session::SessionView {
                draining: settled.draining && session::any_running(settled.slots),
                ..settled
            };
            assert(!kept.draining);
            lemma_admission_ends(kept);
            lemma_idle_lanes(e.session.slots, Kind::Control);
            lemma_idle_lanes(e.session.slots, Kind::Thaw);
            lemma_idle_lanes(e.session.slots, Kind::Freeze);
            lemma_idle_lanes(e.session.slots, Kind::Ordinary);
            assert(e.session.may_admit());
        }
        assert(e.commands.take(e.left()) =~= e.commands);
        if !e.session.write_failed {
            assert(e.session.outbox.len() == 0);
            assert(e.wire + e.session.outbox =~= e.wire);
        }
    }
}

} // verus!
