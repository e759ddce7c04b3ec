//! The router: where a formatted record goes, what the writer thread takes
//! next, and how every record that is not delivered is accounted for.
//!
//! No sink is touched here. A record is queued (or dropped and counted when
//! the queue is full), or held in the ring while filesystems are frozen. The
//! writer thread asks for one item at a time ([`Router::next_write`]), writes
//! it outside any lock, and reports what became of it
//! ([`Router::finish_write`]). While the mode is [`Mode::Ring`] the writer is
//! given nothing, so no descriptor is written between the first `FIFREEZE` and
//! the thaw.

use std::collections::VecDeque;
use vstd::prelude::*;

use crate::audit::ring;
use crate::audit::ring::LineRing;

verus! {

/// Capacity of the freeze-safe ring in bytes.
pub const RING_CAPACITY: usize = 65_536;

/// Bytes of formatted records the delivery queue holds for the writer thread
/// before further records are dropped and counted.
pub const SINK_QUEUE_CAPACITY: usize = 262_144;

/// Where the router currently sends records.
#[derive(Debug, Clone, Copy, PartialEq, Eq, Structural)]
pub enum Mode {
    /// Records are queued for the writer thread, which delivers them to the
    /// sink.
    Normal,
    /// Records are held in the ring; the sink is never touched and the writer
    /// thread parks.
    Ring,
}

/// Why records were lost, as reported in the loss record.
#[derive(Debug, Clone, Copy, PartialEq, Eq, Structural)]
pub enum LossReason {
    /// The freeze-safe ring overflowed while frozen.
    RingOverflow,
    /// The delivery queue was full: the sink was not keeping up and the
    /// records were dropped rather than the caller blocked.
    SinkBackpressure,
    /// The sink refused a write.
    SinkError,
}

impl LossReason {
    /// The spelling in the loss record.
    pub open spec fn text(self) -> Seq<char> {
        match self {
            LossReason::RingOverflow => "ring_overflow"@,
            LossReason::SinkBackpressure => "sink_backpressure"@,
            LossReason::SinkError => "sink_error"@,
        }
    }

    /// The spelling in the loss record.
    pub fn as_str(self) -> (text: &'static str)
        ensures
            text@ == self.text(),
    {
        match self {
            LossReason::RingOverflow => "ring_overflow",
            LossReason::SinkBackpressure => "sink_backpressure",
            LossReason::SinkError => "sink_error",
        }
    }
}

/// One entry of the delivery queue: a formatted line, or the place where lines
/// were lost, so the loss record is delivered exactly where the gap is.
#[derive(Debug, PartialEq, Eq)]
pub enum Item {
    Line(Vec<u8>),
    Lost(u64, LossReason),
}

/// A queue entry as a mathematical value.
pub ghost enum Entry {
    Line(Seq<u8>),
    Lost(u64, LossReason),
}

impl View for Item {
    type V = Entry;

    open spec fn view(&self) -> Entry {
        match self {
            Item::Line(line) => Entry::Line(line@),
            Item::Lost(count, reason) => Entry::Lost(*count, *reason),
        }
    }
}

/// What the writer thread is writing.
pub ghost enum Writing {
    Nothing,
    Line,
    /// A loss record for this many lines.
    Marker(u64),
}

/// What the writer thread does next.
#[derive(Debug, PartialEq, Eq)]
pub enum Next {
    /// Write this, then report with [`Router::finish_write`].
    Write(Item),
    /// Nothing to do until something changes.
    Wait,
    /// Leave.
    Exit,
}

/// What someone does who waits for the router to settle.
#[derive(Debug, Clone, Copy, PartialEq, Eq, Structural)]
pub enum Settling {
    /// It has settled.
    Settled,
    /// Look again when something changed, or after this many nanoseconds.
    Wait(u64),
    /// It has not, and the time is up.
    TimedOut,
}

/// What the writer thread does next, as a mathematical value.
pub ghost enum NextView {
    Write(Entry),
    Wait,
    Exit,
}

impl View for Next {
    type V = NextView;

    open spec fn view(&self) -> NextView {
        match self {
            Next::Write(item) => NextView::Write(item@),
            Next::Wait => NextView::Wait,
            Next::Exit => NextView::Exit,
        }
    }
}

/// The bytes of the lines of a queue.
pub open spec fn queue_bytes(queue: Seq<Entry>) -> nat
    decreases queue.len(),
{
    if queue.len() == 0 {
        0
    } else {
        queue_bytes(queue.drop_last()) + match queue.last() {
            Entry::Line(line) => line.len(),
            Entry::Lost(_, _) => 0,
        }
    }
}

/// The lines of a queue that are not lost.
pub open spec fn queue_lines(queue: Seq<Entry>) -> nat
    decreases queue.len(),
{
    if queue.len() == 0 {
        0
    } else {
        queue_lines(queue.drop_last()) + match queue.last() {
            Entry::Line(_) => 1nat,
            Entry::Lost(_, _) => 0,
        }
    }
}

/// The lines that the markers of a queue report lost.
pub open spec fn queue_losses(queue: Seq<Entry>) -> nat
    decreases queue.len(),
{
    if queue.len() == 0 {
        0
    } else {
        queue_losses(queue.drop_last()) + match queue.last() {
            Entry::Line(_) => 0,
            Entry::Lost(count, _) => count as nat,
        }
    }
}

/// A router as a mathematical value.
#[verifier::ext_equal]
pub ghost struct RouterView {
    pub mode: Mode,
    pub ring: ring::RingView,
    /// Lines and loss markers awaiting delivery, in order.
    pub queue: Seq<Entry>,
    /// How many bytes of lines the queue takes.
    pub capacity: nat,
    /// What the writer thread is writing: the front of the queue.
    pub writing: Writing,
    /// The last handle was dropped: deliver what is queued and exit.
    pub shutdown: bool,
    /// The writer thread has exited (or never started).
    pub exited: bool,
    /// Bumped on every push.
    pub pushes: u64,
    /// The value of `pushes` when the sink last failed, if it has not
    /// accepted anything since.
    pub failed_at: Option<u64>,
}

/// The next value of a counter that wraps.
pub open spec fn bumped(n: u64) -> u64 {
    if n == u64::MAX {
        0
    } else {
        (n + 1) as u64
    }
}

impl RouterView {
    /// A router before any record.
    pub open spec fn start(ring_capacity: nat, queue_capacity: nat) -> RouterView {
        RouterView {
            mode: Mode::Normal,
            ring: ring::RingView { capacity: ring_capacity, lines: Seq::empty(), lost: 0 },
            queue: Seq::empty(),
            capacity: queue_capacity,
            writing: Writing::Nothing,
            shutdown: false,
            exited: false,
            pushes: 0,
            failed_at: None,
        }
    }

    /// What holds of every router: what is being written stands at the front
    /// of the queue, which holds its bytes.
    pub open spec fn valid(self) -> bool {
        &&& self.ring.valid()
        &&& queue_bytes(self.queue) <= usize::MAX
        &&& match self.writing {
            Writing::Nothing => true,
            Writing::Line => self.queue.len() > 0 && self.queue[0] is Line,
            Writing::Marker(count) => self.queue.len() > 0 && (self.queue[0] matches Entry::Lost(
                n,
                _,
            ) && n >= count),
        }
    }

    /// Records `count` lost lines at the tail of the queue, merged into a
    /// marker already there for the same reason.
    pub open spec fn lose(self, count: u64, reason: LossReason) -> RouterView {
        let queue = if self.queue.len() > 0 && self.queue.last() is Lost && self.queue.last()->1
            == reason {
            self.queue.drop_last().push(
                Entry::Lost(ring::counted(self.queue.last()->Lost_0 + count), reason),
            )
        } else {
            self.queue.push(Entry::Lost(count, reason))
        };
        RouterView { queue, pushes: bumped(self.pushes), ..self }
    }

    /// Puts a loss at the head of the queue, merged into a marker already
    /// there for the same reason.
    pub open spec fn lose_at_front(self, count: u64, reason: LossReason) -> RouterView {
        let queue = if self.queue.len() > 0 && self.queue[0] is Lost && self.queue[0]->1
            == reason {
            seq![Entry::Lost(ring::counted(self.queue[0]->Lost_0 + count), reason)]
                + self.queue.drop_first()
        } else {
            seq![Entry::Lost(count, reason)] + self.queue
        };
        RouterView { queue, ..self }
    }

    /// Queues a line for delivery, or counts it lost where it would have gone
    /// when the queue is full. An empty queue takes a line of any length.
    pub open spec fn enqueue(self, line: Seq<u8>) -> RouterView {
        let queued = queue_bytes(self.queue);
        if queued > 0 && queued + line.len() > self.capacity {
            self.lose(1, LossReason::SinkBackpressure)
        } else {
            RouterView {
                queue: self.queue.push(Entry::Line(line)),
                pushes: bumped(self.pushes),
                ..self
            }
        }
    }

    /// Queues lines one after the other.
    pub open spec fn enqueue_all(self, lines: Seq<Seq<u8>>) -> RouterView
        decreases lines.len(),
    {
        if lines.len() == 0 {
            self
        } else {
            self.enqueue_all(lines.drop_last()).enqueue(lines.last())
        }
    }

    /// The router after a record was written to it.
    pub open spec fn write(self, line: Seq<u8>) -> RouterView {
        match self.mode {
            Mode::Ring => RouterView { ring: self.ring.push(line), ..self },
            Mode::Normal => if self.exited && !self.shutdown {
                self.lose(1, LossReason::SinkError)
            } else {
                self.enqueue(line)
            },
        }
    }

    /// The router after the ring's lines moved to the delivery queue: a loss
    /// in the ring is reported first, then the lines in their order.
    pub open spec fn flush(self) -> RouterView {
        let emptied = RouterView { ring: self.ring.emptied(), ..self };
        let reported = if self.ring.lost > 0 {
            emptied.lose(self.ring.lost, LossReason::RingOverflow)
        } else {
            emptied
        };
        RouterView { mode: Mode::Normal, ..reported.enqueue_all(self.ring.lines) }
    }

    /// What the writer thread does next: it leaves once it is declared gone,
    /// or once the last handle is gone and there is nothing it may deliver; it
    /// takes the front of the queue in normal mode, unless the sink failed and
    /// nothing new arrived since.
    pub open spec fn next(self) -> NextView {
        if self.exited {
            NextView::Exit
        } else if self.mode == Mode::Normal && self.queue.len() > 0 && self.failed_at != Some(
            self.pushes,
        ) {
            NextView::Write(self.queue[0])
        } else if self.shutdown && (self.queue.len() == 0 || self.mode == Mode::Ring) {
            NextView::Exit
        } else {
            NextView::Wait
        }
    }

    /// The router once the writer thread was told what to do next.
    pub open spec fn told(self) -> RouterView {
        match self.next() {
            NextView::Exit => RouterView { exited: true, ..self },
            NextView::Write(Entry::Line(_)) => RouterView { writing: Writing::Line, ..self },
            NextView::Write(Entry::Lost(count, _)) => RouterView {
                writing: Writing::Marker(count),
                ..self
            },
            NextView::Wait => self,
        }
    }

    /// The router once the writer thread has written what it was writing. A
    /// delivered line leaves; a delivered loss record takes what it reported
    /// off its marker. A line that the sink refused is lost where it was; a
    /// loss record that it refused stays.
    pub open spec fn finished(self, delivered: bool) -> RouterView {
        let rest = self.queue.drop_first();
        let idle = RouterView {
            queue: rest,
            writing: Writing::Nothing,
            failed_at: if delivered {
                None
            } else {
                Some(self.pushes)
            },
            ..self
        };
        match (self.writing, self.queue[0]) {
            (Writing::Marker(count), Entry::Lost(n, reason)) => if delivered && n == count {
                idle
            } else if delivered {
                RouterView {
                    queue: seq![Entry::Lost((n - count) as u64, reason)] + rest,
                    ..idle
                }
            } else {
                idle.lose_at_front(n, reason)
            },
            _ => if delivered {
                idle
            } else {
                idle.lose_at_front(1, LossReason::SinkError)
            },
        }
    }

    /// Everything queued was handed to the sink and no write is in flight.
    pub open spec fn settled(self) -> bool {
        self.queue.len() == 0 && self.writing is Nothing
    }

    /// The records that are held, or counted as lost and not reported yet.
    pub open spec fn accounted(self) -> nat {
        self.ring.lines.len() + self.ring.lost as nat + queue_lines(self.queue) + queue_losses(
            self.queue,
        )
    }
}

/// What the writer thread is writing.
#[derive(Debug, Clone, Copy)]
enum InFlight {
    Nothing,
    Line,
    Marker(u64),
}

/// Routes formatted log lines either to the delivery queue of a dedicated
/// writer thread or to the ring.
#[derive(Debug)]
pub struct Router {
    mode: Mode,
    ring: LineRing,
    queue: VecDeque<Item>,
    queued: usize,
    capacity: usize,
    in_flight: InFlight,
    shutdown: bool,
    exited: bool,
    pushes: u64,
    failed_at: Option<u64>,
}

/// Queue entries, each taken by its view.
spec fn entries(queue: Seq<Item>) -> Seq<Entry> {
    Seq::new(queue.len(), |i: int| queue[i]@)
}

impl View for Router {
    type V = RouterView;

    closed spec fn view(&self) -> RouterView {
        RouterView {
            mode: self.mode,
            ring: self.ring@,
            queue: entries(self.queue@),
            capacity: self.capacity as nat,
            writing: match self.in_flight {
                InFlight::Nothing => Writing::Nothing,
                InFlight::Line => Writing::Line,
                InFlight::Marker(count) => Writing::Marker(count),
            },
            shutdown: self.shutdown,
            exited: self.exited,
            pushes: self.pushes,
            failed_at: self.failed_at,
        }
    }
}

impl Router {
    /// The bytes counted are those of the queued lines.
    pub closed spec fn wf(&self) -> bool {
        &&& self.ring.wf()
        &&& self.queued == queue_bytes(self@.queue)
        &&& self@.valid()
    }

    /// A router in order is one that the laws speak of.
    pub proof fn lemma_valid(&self)
        requires
            self.wf(),
        ensures
            self@.valid(),
    {
    }

    /// Creates a router in [`Mode::Normal`] with a ring of [`RING_CAPACITY`]
    /// bytes.
    pub fn new() -> (router: Self)
        ensures
            router.wf(),
            router@ == RouterView::start(RING_CAPACITY as nat, SINK_QUEUE_CAPACITY as nat),
    {
        Self::with_capacities(RING_CAPACITY, SINK_QUEUE_CAPACITY)
    }

    /// Creates a router with an explicit ring capacity.
    pub fn with_ring_capacity(capacity: usize) -> (router: Self)
        ensures
            router.wf(),
            router@ == RouterView::start(capacity as nat, SINK_QUEUE_CAPACITY as nat),
    {
        Self::with_capacities(capacity, SINK_QUEUE_CAPACITY)
    }

    /// Creates a router with an explicit queue capacity.
    pub fn with_queue_capacity(queue: usize) -> (router: Self)
        ensures
            router.wf(),
            router@ == RouterView::start(RING_CAPACITY as nat, queue as nat),
    {
        Self::with_capacities(RING_CAPACITY, queue)
    }

    fn with_capacities(ring: usize, queue: usize) -> (router: Self)
        ensures
            router.wf(),
            router@ == RouterView::start(ring as nat, queue as nat),
    {
        let router = Router {
            mode: Mode::Normal,
            ring: LineRing::with_capacity(ring),
            queue: VecDeque::new(),
            queued: 0,
            capacity: queue,
            in_flight: InFlight::Nothing,
            shutdown: false,
            exited: false,
            pushes: 0,
            failed_at: None,
        };
        proof {
            assert(router@.queue =~= Seq::<Entry>::empty());
        }
        router
    }

    /// The current mode.
    pub fn mode(&self) -> (mode: Mode)
        ensures
            mode == self@.mode,
    {
        self.mode
    }

    /// The ring's capacity in bytes.
    pub fn ring_capacity(&self) -> (capacity: usize)
        ensures
            capacity == self@.ring.capacity,
    {
        self.ring.capacity()
    }

    /// Switches to [`Mode::Ring`]. Free of I/O, so it can be called before the
    /// recovery marker and the first `FIFREEZE`; the writer thread parks at
    /// its next line.
    pub fn enter_ring(&mut self)
        requires
            old(self).wf(),
        ensures
            final(self).wf(),
            final(self)@ == (RouterView { mode: Mode::Ring, ..old(self)@ }),
    {
        self.mode = Mode::Ring;
    }

    /// The last handle is gone: the writer thread delivers what is queued and
    /// exits.
    pub fn shut_down(&mut self)
        requires
            old(self).wf(),
        ensures
            final(self).wf(),
            final(self)@ == (RouterView { shutdown: true, ..old(self)@ }),
    {
        self.shutdown = true;
    }

    /// No writer thread runs (any more): what is written from now on is
    /// counted lost.
    pub fn writer_gone(&mut self)
        requires
            old(self).wf(),
        ensures
            final(self).wf(),
            final(self)@ == (RouterView { exited: true, ..old(self)@ }),
    {
        self.exited = true;
    }

    /// Moves the ring's lines to the delivery queue and switches to
    /// [`Mode::Normal`].
    ///
    /// If any records were lost in the ring, a loss marker is queued first,
    /// then the buffered records in their original order, behind whatever was
    /// queued before. Lines the queue cannot hold are dropped and counted, and
    /// reported like any other drop. Returns the ring's loss count.
    pub fn flush_to_normal(&mut self) -> (lost: u64)
        requires
            old(self).wf(),
        ensures
            final(self).wf(),
            final(self)@ == old(self)@.flush(),
            lost == old(self)@.ring.lost,
    {
        let (lost, lines) = self.ring.drain();
        let ghost start = if old(self)@.ring.lost > 0 {
            (RouterView { ring: old(self)@.ring.emptied(), ..old(self)@ }).lose(
                lost,
                LossReason::RingOverflow,
            )
        } else {
            RouterView { ring: old(self)@.ring.emptied(), ..old(self)@ }
        };
        if lost > 0 {
            // A marker, not a line: it takes no queue space, so a queue that
            // is already full cannot lose the report of the loss.
            self.lose(lost, LossReason::RingOverflow);
        }
        let ghost moved = ring::lines_view(lines@);
        proof {
            assert(moved.take(0) =~= Seq::<Seq<u8>>::empty());
        }
        for i in 0..lines.len()
            invariant
                self.wf(),
                moved == ring::lines_view(lines@),
                self@ == start.enqueue_all(moved.take(i as int)),
        {
            proof {
                assert(moved.take(i + 1).drop_last() =~= moved.take(i as int));
                assert(moved.take(i + 1).last() == lines@[i as int]@);
            }
            self.enqueue(lines[i].as_slice());
        }
        proof {
            assert(moved.take(moved.len() as int) =~= moved);
        }
        self.mode = Mode::Normal;
        lost
    }

    /// Number of lines lost in the ring since the last flush.
    pub fn lost(&self) -> (lost: u64)
        ensures
            lost == self@.ring.lost,
    {
        self.ring.lost()
    }

    /// Number of lines dropped at the delivery queue or refused by the sink
    /// and not yet reported by a loss record.
    pub fn unreported_losses(&self) -> (lost: u64)
        ensures
            lost == ring::counted(queue_losses(self@.queue) as int),
    {
        let mut lost: u64 = 0;
        let ghost queue = self@.queue;
        proof {
            assert(queue.take(0) =~= Seq::<Entry>::empty());
        }
        for i in 0..self.queue.len()
            invariant
                queue == entries(self.queue@),
                lost == ring::counted(queue_losses(queue.take(i as int)) as int),
        {
            proof {
                assert(queue.take(i + 1).drop_last() =~= queue.take(i as int));
                assert(queue.take(i + 1).last() == self.queue@[i as int]@);
            }
            match &self.queue[i] {
                Item::Lost(count, _) => {
                    lost = lost.saturating_add(*count);
                },
                Item::Line(_) => {},
            }
        }
        proof {
            assert(queue.take(queue.len() as int) =~= queue);
        }
        lost
    }

    /// Bytes queued for the writer thread.
    pub fn queued_bytes(&self) -> (bytes: usize)
        requires
            self.wf(),
        ensures
            bytes == queue_bytes(self@.queue),
    {
        self.queued
    }

    /// Whether every queued line has been handed to the sink and no write is
    /// in flight.
    pub fn settle(&self) -> (settled: bool)
        ensures
            settled == self@.settled(),
    {
        let writing = match self.in_flight {
            InFlight::Nothing => false,
            _ => true,
        };
        self.queue.len() == 0 && !writing
    }

    /// What someone does who waits for the router to settle and has waited for
    /// `elapsed` of at most `timeout`, both in nanoseconds. It never waits
    /// beyond the timeout, and gives up only once that has passed.
    pub fn settle_within(&self, elapsed: u64, timeout: u64) -> (settling: Settling)
        ensures
            settling == if self@.settled() {
                Settling::Settled
            } else if elapsed < timeout {
                Settling::Wait((timeout - elapsed) as u64)
            } else {
                Settling::TimedOut
            },
    {
        if self.settle() {
            Settling::Settled
        } else if elapsed < timeout {
            Settling::Wait(timeout - elapsed)
        } else {
            Settling::TimedOut
        }
    }

    /// Takes one formatted record.
    pub fn write_record(&mut self, record: &[u8])
        requires
            old(self).wf(),
        ensures
            final(self).wf(),
            final(self)@ == old(self)@.write(record@),
    {
        match self.mode {
            Mode::Ring => {
                proof {
                    ring::law_ring_bounded(self@.ring, record@);
                }
                self.ring.push(record);
            },
            Mode::Normal => {
                if self.exited && !self.shutdown {
                    // No writer thread: nothing can deliver it.
                    self.lose(1, LossReason::SinkError);
                } else {
                    self.enqueue(record);
                }
            },
        }
    }

    /// What the writer thread does next.
    pub fn next_write(&mut self) -> (next: Next)
        requires
            old(self).wf(),
            old(self)@.writing is Nothing,
        ensures
            final(self).wf(),
            next@ == old(self)@.next(),
            final(self)@ == old(self)@.told(),
    {
        if self.exited {
            return Next::Exit;
        }
        let tried = match self.failed_at {
            Some(at) => at == self.pushes,
            None => false,
        };
        if self.mode == Mode::Normal && self.queue.len() > 0 && !tried {
            return match &self.queue[0] {
                Item::Line(line) => {
                    let line = vstd::slice::slice_to_vec(line.as_slice());
                    self.in_flight = InFlight::Line;
                    Next::Write(Item::Line(line))
                },
                Item::Lost(count, reason) => {
                    let (count, reason) = (*count, *reason);
                    self.in_flight = InFlight::Marker(count);
                    Next::Write(Item::Lost(count, reason))
                },
            };
        }
        if self.shutdown && (self.queue.len() == 0 || self.mode == Mode::Ring) {
            self.exited = true;
            return Next::Exit;
        }
        Next::Wait
    }

    /// What became of the item that [`next_write`](Self::next_write) gave out.
    pub fn finish_write(&mut self, delivered: bool)
        requires
            old(self).wf(),
            !(old(self)@.writing is Nothing),
        ensures
            final(self).wf(),
            final(self)@ == old(self)@.finished(delivered),
    {
        let ghost before = self@.queue;
        proof {
            lemma_queue_first(before);
        }
        let front = self.queue.pop_front();
        proof {
            assert(self@.queue =~= before.drop_first());
        }
        let in_flight = self.in_flight;
        self.in_flight = InFlight::Nothing;
        self.failed_at = if delivered {
            None
        } else {
            Some(self.pushes)
        };
        match front {
            Some(Item::Line(line)) => {
                self.queued = self.queued - line.len();
                if !delivered {
                    // The line is lost; say so where it was.
                    self.lose_at_front(1, LossReason::SinkError);
                }
            },
            Some(Item::Lost(n, reason)) => {
                if !delivered {
                    // The loss record itself was refused: keep it for later.
                    self.lose_at_front(n, reason);
                } else if let InFlight::Marker(count) = in_flight {
                    if n > count {
                        // What was lost while the record was written is not
                        // reported yet.
                        let ghost rest = self@.queue;
                        self.queue.push_front(Item::Lost(n - count, reason));
                        proof {
                            assert(self@.queue =~= seq![Entry::Lost((n - count) as u64, reason)] + rest);
                            lemma_queue_first(self@.queue);
                            assert(self@.queue.drop_first() =~= rest);
                        }
                    }
                }
            },
            None => {},
        }
    }

    /// Queues a line for delivery, or drops and counts it where it would have
    /// gone when the queue is full. A loss marker takes no space, so the
    /// losses are always accounted for.
    fn enqueue(&mut self, line: &[u8])
        requires
            old(self).wf(),
        ensures
            final(self).wf(),
            final(self)@ == old(self)@.enqueue(line@),
    {
        if self.queued > 0 && (self.queued > self.capacity || line.len() > self.capacity
            - self.queued) {
            self.lose(1, LossReason::SinkBackpressure);
            return;
        }
        let ghost before = self@.queue;
        self.queued = self.queued + line.len();
        self.queue.push_back(Item::Line(vstd::slice::slice_to_vec(line)));
        self.pushes = self.pushes.wrapping_add(1);
        proof {
            assert(self@.queue =~= before.push(Entry::Line(line@)));
            assert(before.push(Entry::Line(line@)).drop_last() =~= before);
        }
    }

    /// Records `count` lost lines at the tail of the queue, merged into a
    /// marker already there for the same reason.
    fn lose(&mut self, count: u64, reason: LossReason)
        requires
            old(self).wf(),
        ensures
            final(self).wf(),
            final(self)@ == old(self)@.lose(count, reason),
    {
        let ghost before = self@.queue;
        let mut merged: u64 = count;
        let mut merge = false;
        if self.queue.len() > 0 {
            if let Item::Lost(n, r) = &self.queue[self.queue.len() - 1] {
                if *r == reason {
                    merged = n.saturating_add(count);
                    merge = true;
                }
            }
        }
        if merge {
            let _ = self.queue.pop_back();
            proof {
                assert(self@.queue =~= before.drop_last());
            }
        }
        let ghost kept = self@.queue;
        self.queue.push_back(Item::Lost(merged, reason));
        self.pushes = self.pushes.wrapping_add(1);
        proof {
            assert(self@.queue =~= kept.push(Entry::Lost(merged, reason)));
            assert(kept.push(Entry::Lost(merged, reason)).drop_last() =~= kept);
        }
    }

    /// Puts a loss back at the head of the queue (a line the sink refused
    /// belongs where it was; a loss record the sink refused stays until it can
    /// be written).
    fn lose_at_front(&mut self, count: u64, reason: LossReason)
        requires
            old(self).wf(),
            old(self)@.writing is Nothing,
        ensures
            final(self).wf(),
            final(self)@ == old(self)@.lose_at_front(count, reason),
    {
        let ghost before = self@.queue;
        let mut merged: u64 = count;
        let mut merge = false;
        if self.queue.len() > 0 {
            if let Item::Lost(n, r) = &self.queue[0] {
                if *r == reason {
                    merged = n.saturating_add(count);
                    merge = true;
                }
            }
        }
        if merge {
            proof {
                lemma_queue_first(before);
            }
            let _ = self.queue.pop_front();
            proof {
                assert(self@.queue =~= before.drop_first());
            }
        }
        let ghost kept = self@.queue;
        self.queue.push_front(Item::Lost(merged, reason));
        proof {
            assert(self@.queue =~= seq![Entry::Lost(merged, reason)] + kept);
            assert(self@.queue.drop_first() =~= kept);
            lemma_queue_first(self@.queue);
        }
    }
}

/// A queue's sums, counted from its front.
pub proof fn lemma_queue_first(queue: Seq<Entry>)
    requires
        queue.len() > 0,
    ensures
        queue_bytes(queue) == queue_bytes(queue.drop_first()) + match queue[0] {
            Entry::Line(line) => line.len(),
            Entry::Lost(_, _) => 0,
        },
        queue_lines(queue) == queue_lines(queue.drop_first()) + match queue[0] {
            Entry::Line(_) => 1nat,
            Entry::Lost(_, _) => 0,
        },
        queue_losses(queue) == queue_losses(queue.drop_first()) + match queue[0] {
            Entry::Line(_) => 0,
            Entry::Lost(count, _) => count as nat,
        },
    decreases queue.len(),
{
    if queue.len() > 1 {
        lemma_queue_first(queue.drop_last());
        assert(queue.drop_last().drop_first() =~= queue.drop_first().drop_last());
    } else {
        assert(queue.drop_last() =~= Seq::<Entry>::empty());
        assert(queue.drop_first() =~= Seq::<Entry>::empty());
    }
}

/// What a loss at the tail does to a queue's sums.
proof fn lemma_lose(r: RouterView, count: u64, reason: LossReason)
    requires
        r.accounted() + count <= u64::MAX,
    ensures
        r.lose(count, reason).accounted() == r.accounted() + count,
        queue_bytes(r.lose(count, reason).queue) == queue_bytes(r.queue),
{
    let after = r.lose(count, reason);
    let kept = after.queue.drop_last();
    if r.queue.len() > 0 && r.queue.last() is Lost && r.queue.last()->1 == reason {
        assert(kept =~= r.queue.drop_last());
    } else {
        assert(kept =~= r.queue);
    }
}

/// What a loss at the head does to a queue's sums.
proof fn lemma_lose_at_front(r: RouterView, count: u64, reason: LossReason)
    requires
        r.accounted() + count <= u64::MAX,
    ensures
        r.lose_at_front(count, reason).accounted() == r.accounted() + count,
{
    let after = r.lose_at_front(count, reason);
    lemma_queue_first(after.queue);
    if r.queue.len() > 0 && r.queue[0] is Lost && r.queue[0]->1 == reason {
        lemma_queue_first(r.queue);
        assert(after.queue.drop_first() =~= r.queue.drop_first());
    } else {
        assert(after.queue.drop_first() =~= r.queue);
    }
}

proof fn lemma_enqueue(r: RouterView, line: Seq<u8>)
    requires
        r.accounted() < u64::MAX,
    ensures
        r.enqueue(line).accounted() == r.accounted() + 1,
{
    if queue_bytes(r.queue) > 0 && queue_bytes(r.queue) + line.len() > r.capacity {
        lemma_lose(r, 1, LossReason::SinkBackpressure);
    } else {
        assert(r.enqueue(line).queue.drop_last() =~= r.queue);
    }
}

proof fn lemma_enqueue_all(r: RouterView, lines: Seq<Seq<u8>>)
    requires
        r.accounted() + lines.len() <= u64::MAX,
    ensures
        r.enqueue_all(lines).accounted() == r.accounted() + lines.len(),
        r.enqueue_all(lines).ring == r.ring,
    decreases lines.len(),
{
    if lines.len() > 0 {
        lemma_enqueue_all(r, lines.drop_last());
        lemma_enqueue(r.enqueue_all(lines.drop_last()), lines.last());
    }
}

/// No record vanishes: a record that is written is queued, held or counted
/// lost, whatever the mode and however full the queue and the ring are.
pub proof fn law_written_records_are_accounted_for(r: RouterView, line: Seq<u8>)
    requires
        r.accounted() < u64::MAX,
    ensures
        r.write(line).accounted() == r.accounted() + 1,
{
    match r.mode {
        Mode::Ring => {
            ring::law_ring_accounts_for_every_line(r.ring, line);
        },
        Mode::Normal => {
            if r.exited && !r.shutdown {
                lemma_lose(r, 1, LossReason::SinkError);
            } else {
                lemma_enqueue(r, line);
            }
        },
    }
}

/// A flush moves records and loses the account of none.
pub proof fn law_flush_accounts_for_everything(r: RouterView)
    requires
        r.accounted() <= u64::MAX,
    ensures
        r.flush().accounted() == r.accounted(),
        r.flush().mode == Mode::Normal,
        r.flush().ring.lines.len() == 0,
        r.flush().ring.lost == 0,
{
    let emptied = RouterView { ring: r.ring.emptied(), ..r };
    if r.ring.lost > 0 {
        lemma_lose(emptied, r.ring.lost, LossReason::RingOverflow);
        lemma_enqueue_all(emptied.lose(r.ring.lost, LossReason::RingOverflow), r.ring.lines);
    } else {
        lemma_enqueue_all(emptied, r.ring.lines);
    }
}

/// Only delivery takes records off the account: a delivered line one, a
/// delivered loss record as many as it reported. What the sink refuses stays
/// on it.
pub proof fn law_only_delivery_settles_the_account(r: RouterView, delivered: bool)
    requires
        r.valid(),
        !(r.writing is Nothing),
        r.accounted() <= u64::MAX,
    ensures
        !delivered ==> r.finished(delivered).accounted() == r.accounted(),
        delivered && r.writing is Line ==> r.finished(delivered).accounted() == r.accounted() - 1,
        delivered && r.writing is Marker ==> r.finished(delivered).accounted() == r.accounted()
            - r.writing->Marker_0,
{
    lemma_queue_first(r.queue);
    let rest = r.queue.drop_first();
    let idle = RouterView {
        queue: rest,
        writing: Writing::Nothing,
        failed_at: if delivered {
            None
        } else {
            Some(r.pushes)
        },
        ..r
    };
    match (r.writing, r.queue[0]) {
        (Writing::Marker(count), Entry::Lost(n, reason)) => {
            if delivered && n > count {
                let left = seq![Entry::Lost((n - count) as u64, reason)] + rest;
                lemma_queue_first(left);
                assert(left.drop_first() =~= rest);
            } else if !delivered {
                lemma_lose_at_front(idle, n, reason);
            }
        },
        _ => {
            if !delivered {
                lemma_lose_at_front(idle, 1, LossReason::SinkError);
            }
        },
    }
}

/// While the ring is in use the writer thread is given nothing to write.
pub proof fn law_nothing_is_written_in_ring_mode(r: RouterView)
    requires
        r.mode == Mode::Ring,
    ensures
        !(r.next() is Write),
{
}

/// A dead sink is not spun on: after a refused write nothing is tried again
/// until something new arrived; then it is.
pub proof fn law_a_refused_write_waits_for_something_new(r: RouterView, line: Seq<u8>)
    requires
        r.valid(),
        !(r.writing is Nothing),
        !r.exited,
    ensures
        !(r.finished(false).next() is Write),
        r.mode == Mode::Normal ==> r.finished(false).write(line).next() is Write,
{
}

/// A flush into a queue with room delivers everything in order: what was queued
/// before, then the ring's loss if there is one, then the ring's lines.
pub proof fn law_flush_keeps_order(r: RouterView)
    requires
        queue_bytes(r.queue) + ring::total_len(r.ring.lines) <= r.capacity,
    ensures
        r.flush().queue == (if r.ring.lost > 0 {
            r.lose(r.ring.lost, LossReason::RingOverflow).queue
        } else {
            r.queue
        }) + Seq::new(r.ring.lines.len(), |i: int| Entry::Line(r.ring.lines[i])),
{
    let emptied = RouterView { ring: r.ring.emptied(), ..r };
    if r.ring.lost > 0 {
        let after = emptied.lose(r.ring.lost, LossReason::RingOverflow);
        let kept = after.queue.drop_last();
        if r.queue.len() > 0 && r.queue.last() is Lost && r.queue.last()->1
            == LossReason::RingOverflow {
            assert(kept =~= r.queue.drop_last());
        } else {
            assert(kept =~= r.queue);
        }
        lemma_enqueue_all_in_order(after, r.ring.lines);
    } else {
        lemma_enqueue_all_in_order(emptied, r.ring.lines);
    }
}

proof fn lemma_enqueue_all_in_order(r: RouterView, lines: Seq<Seq<u8>>)
    requires
        queue_bytes(r.queue) + ring::total_len(lines) <= r.capacity,
    ensures
        r.enqueue_all(lines).queue == r.queue + Seq::new(
            lines.len(),
            |i: int| Entry::Line(lines[i]),
        ),
        queue_bytes(r.enqueue_all(lines).queue) == queue_bytes(r.queue) + ring::total_len(lines),
        r.enqueue_all(lines).capacity == r.capacity,
    decreases lines.len(),
{
    let tail = Seq::new(lines.len(), |i: int| Entry::Line(lines[i]));
    if lines.len() == 0 {
        assert(r.queue + tail =~= r.queue);
    } else {
        let front = lines.drop_last();
        lemma_enqueue_all_in_order(r, front);
        let before = r.enqueue_all(front);
        assert(before.queue.push(Entry::Line(lines.last())).drop_last() =~= before.queue);
        assert(r.enqueue_all(lines).queue =~= r.queue + tail);
    }
}

/// The router after the sink has accepted `n` items one after the other.
pub open spec fn deliveries(r: RouterView, n: nat) -> RouterView
    decreases n,
{
    if n == 0 {
        r
    } else {
        deliveries(r, (n - 1) as nat).told().finished(true)
    }
}

/// The queue goes to the sink in its order, each entry exactly once; when the
/// last has been accepted the router is settled.
pub proof fn law_the_queue_is_delivered_in_order(r: RouterView, n: nat)
    requires
        r.valid(),
        r.writing is Nothing,
        r.mode == Mode::Normal,
        !r.exited,
        r.failed_at != Some(r.pushes),
        n <= r.queue.len(),
    ensures
        deliveries(r, n).queue == r.queue.skip(n as int),
        deliveries(r, n).writing is Nothing,
        n < r.queue.len() ==> deliveries(r, n).next() == NextView::Write(r.queue[n as int]),
        n == r.queue.len() ==> deliveries(r, n).settled(),
{
    lemma_delivery(r, n);
}

proof fn lemma_delivery(r: RouterView, n: nat)
    requires
        r.valid(),
        r.writing is Nothing,
        r.mode == Mode::Normal,
        !r.exited,
        r.failed_at != Some(r.pushes),
        n <= r.queue.len(),
    ensures
        ({
            let d = deliveries(r, n);
            &&& d.queue == r.queue.skip(n as int)
            &&& d.writing is Nothing
            &&& d.mode == Mode::Normal
            &&& !d.exited
            &&& d.failed_at != Some(d.pushes)
        }),
    decreases n,
{
    if n == 0 {
        assert(r.queue.skip(0) =~= r.queue);
    } else {
        lemma_delivery(r, (n - 1) as nat);
        let d = deliveries(r, (n - 1) as nat);
        assert(d.queue.drop_first() =~= r.queue.skip(n as int));
    }
}

/// A queue's bytes, lines and losses are those of its entries: a line counts
/// its bytes and itself, a marker what it reports.
pub proof fn law_a_queue_counts_its_entries(
    queue: Seq<Entry>,
    line: Seq<u8>,
    count: u64,
    reason: LossReason,
)
    ensures
        queue_bytes(Seq::empty()) == 0,
        queue_lines(Seq::empty()) == 0,
        queue_losses(Seq::empty()) == 0,
        queue_bytes(queue.push(Entry::Line(line))) == queue_bytes(queue) + line.len(),
        queue_lines(queue.push(Entry::Line(line))) == queue_lines(queue) + 1,
        queue_losses(queue.push(Entry::Line(line))) == queue_losses(queue),
        queue_bytes(queue.push(Entry::Lost(count, reason))) == queue_bytes(queue),
        queue_lines(queue.push(Entry::Lost(count, reason))) == queue_lines(queue),
        queue_losses(queue.push(Entry::Lost(count, reason))) == queue_losses(queue) + count,
{
    assert(queue.push(Entry::Line(line)).drop_last() =~= queue);
    assert(queue.push(Entry::Lost(count, reason)).drop_last() =~= queue);
}

/// Where a record goes. While frozen it goes to the ring and nowhere else.
/// Otherwise, while the writer is there, it goes to the end of the queue if it
/// is within the bound or the queue holds no bytes; and if it is not, the loss
/// of one stands where it would have gone.
pub proof fn law_where_a_record_goes(r: RouterView, line: Seq<u8>)
    ensures
        r.mode == Mode::Ring ==> r.write(line) == (RouterView { ring: r.ring.push(line), ..r }),
        r.mode == Mode::Normal ==> r.write(line).ring == r.ring,
        r.mode == Mode::Normal && (!r.exited || r.shutdown) && (queue_bytes(r.queue) == 0
            || queue_bytes(r.queue) + line.len() <= r.capacity) ==> r.write(line).queue
            == r.queue.push(Entry::Line(line)),
        r.mode == Mode::Normal && (!r.exited || r.shutdown) && queue_bytes(r.queue) > 0
            && queue_bytes(r.queue) + line.len() > r.capacity ==> r.write(line) == r.lose(
            1,
            LossReason::SinkBackpressure,
        ),
        r.mode == Mode::Normal && r.exited && !r.shutdown ==> r.write(line) == r.lose(
            1,
            LossReason::SinkError,
        ),
        r.write(line).mode == r.mode,
        r.write(line).writing == r.writing,
        r.write(line).exited == r.exited,
        r.write(line).shutdown == r.shutdown,
        r.write(line).capacity == r.capacity,
{
}

/// A loss stands at the end of the queue under its reason. It is added to the
/// marker that stands there already for the same reason; no entry before it is
/// touched.
pub proof fn law_where_a_loss_stands(r: RouterView, count: u64, reason: LossReason, n: u64)
    ensures
        ({
            let after = r.lose(count, reason);
            let merges = r.queue.len() > 0 && r.queue.last() == Entry::Lost(n, reason);
            &&& merges && n + count <= u64::MAX ==> after.queue == r.queue.drop_last().push(
                Entry::Lost((n + count) as u64, reason),
            )
            &&& merges && n + count > u64::MAX ==> after.queue == r.queue.drop_last().push(
                Entry::Lost(u64::MAX, reason),
            )
            &&& r.queue.len() == 0 || r.queue.last() is Line ==> after.queue == r.queue.push(
                Entry::Lost(count, reason),
            )
            &&& r.queue.len() > 0 && (r.queue.last() matches Entry::Lost(_, other) && other
                != reason) ==> after.queue == r.queue.push(Entry::Lost(count, reason))
            &&& after.ring == r.ring
            &&& after.mode == r.mode
        }),
{
}

/// What the writer does. Gone, it leaves. Otherwise it writes the front of the
/// queue while nothing is frozen, unless the sink refused and nothing came
/// since. Told to shut down, it leaves once the queue is empty or may not be
/// written. In every other case it waits.
pub proof fn law_what_the_writer_does(r: RouterView)
    ensures
        ({
            let refused = r.failed_at == Some(r.pushes);
            let may = r.mode == Mode::Normal && r.queue.len() > 0 && !refused;
            &&& r.exited ==> r.next() is Exit
            &&& !r.exited && may ==> r.next() == NextView::Write(r.queue[0])
            &&& !r.exited && !may && r.shutdown && (r.queue.len() == 0 || r.mode == Mode::Ring)
                ==> r.next() is Exit
            &&& !r.exited && !may && !(r.shutdown && (r.queue.len() == 0 || r.mode == Mode::Ring))
                ==> r.next() is Wait
            &&& r.told().queue == r.queue
            &&& r.told().ring == r.ring
            &&& r.told().mode == r.mode
            &&& r.told().exited <==> r.next() is Exit
        }),
{
}

/// What a write leaves. A line that was delivered leaves the queue, and nothing
/// else does. One that was refused turns into the loss of one line at the same
/// place. A loss record that was delivered takes what it reported off its
/// marker, and the marker goes when nothing is left of it; refused, it stays.
pub proof fn law_what_a_write_leaves(r: RouterView, line: Seq<u8>, n: u64, reason: LossReason)
    requires
        r.queue.len() > 0,
    ensures
        ({
            let rest = r.queue.drop_first();
            &&& r.writing is Line && r.queue[0] == Entry::Line(line) ==> {
                &&& r.finished(true).queue == rest
                &&& rest.len() == 0 || rest[0] is Line ==> r.finished(false).queue == seq![
                    Entry::Lost(1, LossReason::SinkError),
                ] + rest
            }
            &&& r.writing is Marker && r.queue[0] == Entry::Lost(n, reason) ==> {
                &&& r.writing->0 == n ==> r.finished(true).queue == rest
                &&& r.writing->0 < n ==> r.finished(true).queue == seq![
                    Entry::Lost((n - r.writing->0) as u64, reason),
                ] + rest
                &&& rest.len() == 0 || rest[0] is Line ==> r.finished(false).queue == r.queue
            }
            &&& forall|delivered: bool| (#[trigger] r.finished(delivered)).writing is Nothing
            &&& r.finished(true).failed_at is None
            &&& r.finished(false).failed_at == Some(r.pushes)
            &&& r.finished(true).ring == r.ring
            &&& r.finished(false).ring == r.ring
        }),
{
    let rest = r.queue.drop_first();
    assert(seq![r.queue[0]] + rest =~= r.queue);
}

/// A router is made with a ring of 65536 bytes and a queue of 262144, empty,
/// and sends its records on.
pub proof fn law_a_new_router(router: Router)
    requires
        call_ensures(Router::new, (), router),
    ensures
        router@.ring.capacity == 65_536,
        router@.capacity == 262_144,
        router@.mode == Mode::Normal,
        router@.queue.len() == 0,
        router@.ring.lines.len() == 0,
        router@.ring.lost == 0,
        !router@.exited,
        !router@.shutdown,
        router@.writing is Nothing,
        router@.failed_at is None,
{
}

/// The spellings of the reasons of a loss.
pub proof fn law_the_names_of_the_reasons()
    ensures
        LossReason::RingOverflow.text() == "ring_overflow"@,
        LossReason::SinkBackpressure.text() == "sink_backpressure"@,
        LossReason::SinkError.text() == "sink_error"@,
{
}

/// A refused line that stands before a loss for the same reason is counted with
/// it.
pub proof fn law_a_refused_line_joins_the_loss_behind_it(r: RouterView, n: u64)
    requires
        r.queue.len() > 1,
        r.writing is Line,
        r.queue[0] is Line,
        r.queue[1] == Entry::Lost(n, LossReason::SinkError),
    ensures
        n < u64::MAX ==> r.finished(false).queue == seq![
            Entry::Lost((n + 1) as u64, LossReason::SinkError),
        ] + r.queue.skip(2),
        n == u64::MAX ==> r.finished(false).queue == r.queue.skip(1),
{
    let rest = r.queue.drop_first();
    assert(rest.drop_first() =~= r.queue.skip(2));
    assert(seq![r.queue[1]] + r.queue.skip(2) =~= r.queue.skip(1));
}

/// Who waits for the router to settle waits no longer than the timeout, and
/// gives up only when it has passed.
pub proof fn law_settling_takes_no_longer_than_the_timeout(
    router: Router,
    elapsed: u64,
    timeout: u64,
    settling: Settling,
)
    requires
        call_ensures(Router::settle_within, (&router, elapsed, timeout), settling),
    ensures
        router@.queue.len() == 0 && router@.writing is Nothing ==> settling == Settling::Settled,
        !(router@.queue.len() == 0 && router@.writing is Nothing) && elapsed < timeout ==> settling
            is Wait && settling->0 + elapsed == timeout,
        !(router@.queue.len() == 0 && router@.writing is Nothing) && elapsed >= timeout ==> settling
            == Settling::TimedOut,
{
}

/// A freeze sends the records to the ring, the end of the last handle asks the
/// writer to leave, and the loss of the writer is remembered; none of them
/// touches a record.
pub proof fn law_what_the_switches_touch(
    freezing: &mut Router,
    closing: &mut Router,
    orphaned: &mut Router,
)
    requires
        old(freezing).wf(),
        call_ensures(Router::enter_ring, (freezing,), ()),
        old(closing).wf(),
        call_ensures(Router::shut_down, (closing,), ()),
        old(orphaned).wf(),
        call_ensures(Router::writer_gone, (orphaned,), ()),
    ensures
        final(freezing)@.mode == Mode::Ring,
        final(freezing)@.queue == old(freezing)@.queue,
        final(freezing)@.ring == old(freezing)@.ring,
        final(closing)@.shutdown,
        final(closing)@.mode == old(closing)@.mode,
        final(closing)@.queue == old(closing)@.queue,
        final(closing)@.ring == old(closing)@.ring,
        final(orphaned)@.exited,
        final(orphaned)@.mode == old(orphaned)@.mode,
        final(orphaned)@.queue == old(orphaned)@.queue,
        final(orphaned)@.ring == old(orphaned)@.ring,
{
}

} // verus!
