//! The freeze-safe ring: a byte-bounded FIFO of whole log lines.

use std::collections::VecDeque;
use vstd::prelude::*;

verus! {

/// Lines, each taken by its view.
pub open spec fn lines_view(lines: Seq<Vec<u8>>) -> Seq<Seq<u8>> {
    Seq::new(lines.len(), |i: int| lines[i]@)
}

/// The bytes that some lines hold together.
pub open spec fn total_len(lines: Seq<Seq<u8>>) -> nat
    decreases lines.len(),
{
    if lines.len() == 0 {
        0
    } else {
        total_len(lines.drop_last()) + lines.last().len()
    }
}

/// What is left of `lines` once the oldest have gone, one by one, until they
/// and `need` more bytes are within `capacity`.
pub open spec fn evicted(lines: Seq<Seq<u8>>, need: nat, capacity: nat) -> Seq<Seq<u8>>
    decreases lines.len(),
{
    if lines.len() > 0 && total_len(lines) + need > capacity {
        evicted(lines.drop_first(), need, capacity)
    } else {
        lines
    }
}

/// A count that stops at the largest `u64`.
pub open spec fn counted(n: int) -> u64 {
    if n <= u64::MAX {
        n as u64
    } else {
        u64::MAX
    }
}

/// A ring as a mathematical value.
#[verifier::ext_equal]
pub ghost struct RingView {
    pub capacity: nat,
    pub lines: Seq<Seq<u8>>,
    pub lost: u64,
}

impl RingView {
    /// What holds of every ring: its lines are within its capacity.
    pub open spec fn valid(self) -> bool {
        &&& total_len(self.lines) <= self.capacity
        &&& self.capacity <= usize::MAX
    }

    /// The ring after a line: a line beyond the whole capacity is dropped and
    /// counted; any other is stored, the oldest lines going to make room, each
    /// counted.
    pub open spec fn push(self, line: Seq<u8>) -> RingView {
        if line.len() > self.capacity {
            RingView { lost: counted(self.lost + 1), ..self }
        } else {
            let kept = evicted(self.lines, line.len(), self.capacity);
            RingView {
                lines: kept.push(line),
                lost: counted(self.lost + (self.lines.len() - kept.len())),
                ..self
            }
        }
    }

    /// The ring after it was emptied.
    pub open spec fn emptied(self) -> RingView {
        RingView { lines: Seq::empty(), lost: 0, ..self }
    }
}

/// A byte-bounded FIFO of whole log lines.
///
/// Lines are stored in order. When a push would exceed the capacity the oldest
/// lines are evicted and counted as lost; a single line larger than the whole
/// capacity is dropped and counted as lost.
#[derive(Debug)]
pub struct LineRing {
    capacity: usize,
    used: usize,
    lines: VecDeque<Vec<u8>>,
    lost: u64,
}

impl View for LineRing {
    type V = RingView;

    closed spec fn view(&self) -> RingView {
        RingView {
            capacity: self.capacity as nat,
            lines: lines_view(self.lines@),
            lost: self.lost,
        }
    }
}

impl LineRing {
    /// The bytes in use are those of the lines, within the capacity.
    pub closed spec fn wf(&self) -> bool {
        &&& self.used == total_len(lines_view(self.lines@))
        &&& self.used <= self.capacity
    }

    /// A ring in order is one that the laws speak of.
    pub proof fn lemma_valid(&self)
        requires
            self.wf(),
        ensures
            self@.valid(),
    {
    }

    /// Creates a ring holding at most `capacity` bytes of lines.
    pub fn with_capacity(capacity: usize) -> (ring: Self)
        ensures
            ring.wf(),
            ring@ == (RingView { capacity: capacity as nat, lines: Seq::empty(), lost: 0 }),
    {
        let ring = LineRing { capacity, used: 0, lines: VecDeque::new(), lost: 0 };
        proof {
            assert(ring@.lines =~= Seq::<Seq<u8>>::empty());
        }
        ring
    }

    /// The configured capacity in bytes.
    pub fn capacity(&self) -> (capacity: usize)
        ensures
            capacity == self@.capacity,
    {
        self.capacity
    }

    /// Bytes currently held.
    pub fn len(&self) -> (len: usize)
        requires
            self.wf(),
        ensures
            len == total_len(self@.lines),
            len <= self@.capacity,
    {
        self.used
    }

    /// `true` when no line is held.
    pub fn is_empty(&self) -> (empty: bool)
        ensures
            empty == (self@.lines.len() == 0),
    {
        self.lines.len() == 0
    }

    /// Lines lost since the last [`drain`](Self::drain).
    pub fn lost(&self) -> (lost: u64)
        ensures
            lost == self@.lost,
    {
        self.lost
    }

    /// Stores one line, evicting the oldest lines as needed.
    pub fn push(&mut self, line: &[u8])
        requires
            old(self).wf(),
        ensures
            final(self).wf(),
            final(self)@ == old(self)@.push(line@),
    {
        if line.len() > self.capacity {
            self.lost = self.lost.saturating_add(1);
            return;
        }
        let ghost kept = evicted(self@.lines, line@.len(), self@.capacity);
        proof {
            assert(lines_view(self.lines@).len() == self.lines@.len());
        }
        while self.lines.len() > 0 && self.used > self.capacity - line.len()
            invariant
                self.wf(),
                self.capacity == old(self)@.capacity,
                line@.len() <= self.capacity,
                kept == evicted(self@.lines, line@.len(), self@.capacity),
                kept == evicted(old(self)@.lines, line@.len(), old(self)@.capacity),
                self@.lines.len() <= old(self)@.lines.len(),
                self.lost == counted(old(self)@.lost + (old(self)@.lines.len() - self@.lines.len())),
            decreases self.lines@.len(),
        {
            let ghost before = lines_view(self.lines@);
            proof {
                assert(self.lines@.len() > 0);
                lemma_total_len_first(before);
            }
            if let Some(oldest) = self.lines.pop_front() {
                self.used = self.used - oldest.len();
                self.lost = self.lost.saturating_add(1);
            }
            proof {
                assert(lines_view(self.lines@) =~= before.drop_first());
            }
        }
        proof {
            assert(kept == self@.lines) by {
                if self.lines@.len() == 0 {
                    assert(self@.lines.len() == 0);
                }
            }
            if self.lines@.len() == 0 {
                assert(total_len(lines_view(self.lines@)) == 0);
            }
        }
        let ghost before = lines_view(self.lines@);
        self.used = self.used + line.len();
        self.lines.push_back(vstd::slice::slice_to_vec(line));
        proof {
            assert(lines_view(self.lines@) =~= before.push(line@));
            assert(before.push(line@).drop_last() =~= before);
        }
    }

    /// Removes and returns every held line in order together with the number
    /// of lines lost since the previous drain, and resets both.
    pub fn drain(&mut self) -> (drained: (u64, Vec<Vec<u8>>))
        ensures
            final(self).wf(),
            final(self)@ == old(self)@.emptied(),
            drained.0 == old(self)@.lost,
            lines_view(drained.1@) == old(self)@.lines,
    {
        let lost = self.lost;
        self.lost = 0;
        self.used = 0;
        let ghost all = self.lines@;
        let mut lines: Vec<Vec<u8>> = Vec::new();
        while self.lines.len() > 0
            invariant
                lines@ + self.lines@ == all,
                self.lost == 0,
                self.used == 0,
                self.capacity == old(self)@.capacity,
            decreases self.lines@.len(),
        {
            let ghost before = self.lines@;
            if let Some(line) = self.lines.pop_front() {
                lines.push(line);
            }
            proof {
                assert(lines@ + self.lines@ =~= all);
            }
        }
        proof {
            assert(lines@ =~= all);
            assert(lines_view(self.lines@) =~= Seq::<Seq<u8>>::empty());
        }
        (lost, lines)
    }
}

/// The bytes of some lines, counted from the oldest.
pub proof fn lemma_total_len_first(lines: Seq<Seq<u8>>)
    requires
        lines.len() > 0,
    ensures
        total_len(lines) == lines[0].len() + total_len(lines.drop_first()),
    decreases lines.len(),
{
    if lines.len() > 1 {
        lemma_total_len_first(lines.drop_last());
        assert(lines.drop_last().drop_first() =~= lines.drop_first().drop_last());
    } else {
        assert(lines.drop_last() =~= Seq::<Seq<u8>>::empty());
        assert(lines.drop_first() =~= Seq::<Seq<u8>>::empty());
    }
}

/// Eviction takes the oldest lines and no more of them than it must: what is
/// left is the longest run of newest lines that leaves room.
pub proof fn law_eviction_is_minimal(lines: Seq<Seq<u8>>, need: nat, capacity: nat)
    requires
        need <= capacity,
    ensures
        ({
            let kept = evicted(lines, need, capacity);
            let gone = lines.len() - kept.len();
            &&& 0 <= gone
            &&& kept == lines.skip(gone)
            &&& total_len(kept) + need <= capacity
            &&& forall|fewer: int|
                0 <= fewer < gone ==> total_len(#[trigger] lines.skip(fewer)) + need > capacity
        }),
    decreases lines.len(),
{
    if lines.len() > 0 && total_len(lines) + need > capacity {
        let rest = lines.drop_first();
        law_eviction_is_minimal(rest, need, capacity);
        let kept = evicted(lines, need, capacity);
        let gone = lines.len() - kept.len();
        assert(kept =~= lines.skip(gone));
        assert forall|fewer: int| 0 <= fewer < gone implies total_len(
            #[trigger] lines.skip(fewer),
        ) + need > capacity by {
            if fewer == 0 {
                assert(lines.skip(0) =~= lines);
            } else {
                assert(lines.skip(fewer) =~= rest.skip(fewer - 1));
            }
        }
    } else {
        assert(lines.skip(0) =~= lines);
    }
}

/// A ring never holds more than its capacity, whatever is pushed.
pub proof fn law_ring_bounded(ring: RingView, line: Seq<u8>)
    requires
        ring.valid(),
    ensures
        ring.push(line).valid(),
{
    if line.len() <= ring.capacity {
        law_eviction_is_minimal(ring.lines, line.len(), ring.capacity);
        let kept = evicted(ring.lines, line.len(), ring.capacity);
        assert(kept.push(line).drop_last() =~= kept);
    }
}

/// A pushed line is held or counted: lines held and lines lost grow together
/// by one.
pub proof fn law_ring_accounts_for_every_line(ring: RingView, line: Seq<u8>)
    requires
        ring.lost + ring.lines.len() < u64::MAX,
    ensures
        ring.push(line).lines.len() + ring.push(line).lost == ring.lines.len() + ring.lost + 1,
{
    if line.len() <= ring.capacity {
        law_eviction_is_minimal(ring.lines, line.len(), ring.capacity);
    }
}

/// The bytes of lines are those of their parts: of none, none; of a line, its
/// own; of lines after lines, those of both.
pub proof fn law_bytes_are_counted(a: Seq<Seq<u8>>, b: Seq<Seq<u8>>, line: Seq<u8>)
    ensures
        total_len(Seq::empty()) == 0,
        total_len(seq![line]) == line.len(),
        total_len(a + b) == total_len(a) + total_len(b),
    decreases b.len(),
{
    reveal_with_fuel(total_len, 2);
    assert(seq![line].drop_last() =~= Seq::<Seq<u8>>::empty());
    if b.len() > 0 {
        law_bytes_are_counted(a, b.drop_last(), line);
        assert((a + b).drop_last() =~= a + b.drop_last());
    } else {
        assert(a + b =~= a);
    }
}

/// A line for which there is room is stored behind the others, and nothing goes
/// for it. One for which room must be made is stored as the newest all the
/// same. One that is longer than the whole ring leaves the others as they were
/// and is counted.
pub proof fn law_what_a_push_keeps(ring: RingView, line: Seq<u8>)
    ensures
        total_len(ring.lines) + line.len() <= ring.capacity ==> ring.push(line) == (RingView {
            lines: ring.lines.push(line),
            ..ring
        }),
        line.len() <= ring.capacity ==> ring.push(line).lines.len() > 0 && ring.push(
            line,
        ).lines.last() == line,
        line.len() > ring.capacity ==> ring.push(line).lines == ring.lines,
        line.len() > ring.capacity && ring.lost < u64::MAX ==> ring.push(line).lost == ring.lost
            + 1,
        line.len() > ring.capacity && ring.lost == u64::MAX ==> ring.push(line).lost == ring.lost,
        ring.push(line).capacity == ring.capacity,
{
}

/// Emptying takes every line and forgets what was lost; the ring stays as large
/// as it was.
pub proof fn law_what_emptying_leaves(ring: RingView)
    ensures
        ring.emptied().lines.len() == 0,
        ring.emptied().lost == 0,
        ring.emptied().capacity == ring.capacity,
{
}

} // verus!
