//! Newline-delimited frame decoder and encoder with `0xFF` resynchronisation.
//!
//! - Bytes accumulate until `\n`; a frame that is empty or ASCII whitespace
//!   only is skipped.
//! - A frame longer than [`MAX_FRAME_LEN`] bytes puts the decoder into
//!   discard-until-newline: the buffered prefix is dropped, nothing is
//!   buffered any more, and one [`DecodeEvent::Oversized`] is reported when
//!   the delimiter is finally seen.
//! - A `0xFF` sentinel anywhere in the stream drops everything buffered
//!   before it, leaves discard mode, and flags the next emitted frame.
//!
//! The model is a machine that takes one byte at a time ([`feed_byte`]); a
//! stream is fed by folding it ([`feed`]). That [`FrameDecoder::push`] may be
//! given the stream in pieces of any size is [`law_chunking`].

use vstd::prelude::*;

verus! {

/// Maximum length of one frame in bytes, excluding the delimiter.
pub const MAX_FRAME_LEN: usize = 65_536;

/// The resynchronisation sentinel used by `guest-sync-delimited`.
pub const SENTINEL: u8 = 0xFF;

/// The frame delimiter.
pub const NEWLINE: u8 = 0x0A;

/// One decoding outcome.
#[derive(Debug, Clone, PartialEq, Eq)]
pub enum DecodeEvent {
    /// A complete frame (without its `\n`).
    Frame {
        /// The raw frame bytes, at most [`MAX_FRAME_LEN`] long.
        bytes: Vec<u8>,
        /// `true` when a `0xFF` sentinel preceded this frame.
        sentinel: bool,
    },
    /// An oversized frame was discarded up to the next delimiter.
    Oversized {
        /// Number of bytes dropped, excluding the delimiter.
        discarded: usize,
    },
}

/// A decoding outcome as a mathematical value.
pub ghost enum Event {
    Frame { bytes: Seq<u8>, sentinel: bool },
    Oversized { discarded: nat },
}

impl View for DecodeEvent {
    type V = Event;

    open spec fn view(&self) -> Event {
        match self {
            DecodeEvent::Frame { bytes, sentinel } => Event::Frame {
                bytes: bytes@,
                sentinel: *sentinel,
            },
            DecodeEvent::Oversized { discarded } => Event::Oversized {
                discarded: *discarded as nat,
            },
        }
    }
}

/// The events of a list, each taken by its view.
pub open spec fn events_view(events: Seq<DecodeEvent>) -> Seq<Event> {
    Seq::new(events.len(), |i: int| events[i]@)
}

/// What the decoder remembers between two bytes.
#[verifier::ext_equal]
pub ghost struct Decoding {
    /// Bytes of the frame in progress.
    pub buf: Seq<u8>,
    /// Dropping the remainder of an oversized frame.
    pub discarding: bool,
    /// Bytes dropped so far in the current oversized frame.
    pub discarded: nat,
    /// A sentinel was seen; the next emitted frame carries the flag.
    pub sentinel_pending: bool,
}

impl Decoding {
    /// The decoder before any byte.
    pub open spec fn start() -> Decoding {
        Decoding { buf: Seq::empty(), discarding: false, discarded: 0, sentinel_pending: false }
    }

    /// What holds of the decoder between any two bytes.
    pub open spec fn valid(self) -> bool {
        &&& self.buf.len() <= MAX_FRAME_LEN
        &&& self.discarding ==> self.buf.len() == 0 && self.discarded > MAX_FRAME_LEN
        &&& !self.discarding ==> self.discarded == 0
        &&& self.discarded <= usize::MAX
        &&& forall|i: int| 0 <= i < self.buf.len() ==> !is_delimiter(#[trigger] self.buf[i])
    }
}

/// The bytes that end what was buffered.
pub open spec fn is_delimiter(byte: u8) -> bool {
    byte == NEWLINE || byte == SENTINEL
}

/// ASCII whitespace: space, tab, line feed, form feed, carriage return.
pub open spec fn is_whitespace(byte: u8) -> bool {
    byte == 0x20 || byte == 0x09 || byte == 0x0A || byte == 0x0C || byte == 0x0D
}

/// Whether a frame holds nothing but ASCII whitespace.
pub open spec fn is_blank(bytes: Seq<u8>) -> bool {
    forall|i: int| 0 <= i < bytes.len() ==> is_whitespace(#[trigger] bytes[i])
}

/// The byte count `n` as a `usize` can hold it.
pub open spec fn clamped(n: nat) -> nat {
    if n <= usize::MAX {
        n
    } else {
        usize::MAX as nat
    }
}

/// One byte of the stream: the next state and the events it completes.
pub open spec fn feed_byte(s: Decoding, byte: u8) -> (Decoding, Seq<Event>) {
    if byte == NEWLINE {
        if s.discarding {
            (
                Decoding { discarding: false, discarded: 0, ..s },
                seq![Event::Oversized { discarded: s.discarded }],
            )
        } else if is_blank(s.buf) {
            (Decoding { buf: Seq::empty(), ..s }, Seq::empty())
        } else {
            (
                Decoding { buf: Seq::empty(), sentinel_pending: false, ..s },
                seq![Event::Frame { bytes: s.buf, sentinel: s.sentinel_pending }],
            )
        }
    } else if byte == SENTINEL {
        (
            Decoding { buf: Seq::empty(), discarding: false, discarded: 0, sentinel_pending: true },
            if s.discarding {
                seq![Event::Oversized { discarded: s.discarded }]
            } else {
                Seq::empty()
            },
        )
    } else if s.discarding {
        (Decoding { discarded: clamped(s.discarded + 1), ..s }, Seq::empty())
    } else if s.buf.len() == MAX_FRAME_LEN {
        (
            Decoding {
                buf: Seq::empty(),
                discarding: true,
                discarded: clamped(s.buf.len() + 1),
                ..s
            },
            Seq::empty(),
        )
    } else {
        (Decoding { buf: s.buf.push(byte), ..s }, Seq::empty())
    }
}

/// A piece of the stream, byte after byte.
pub open spec fn feed(s: Decoding, input: Seq<u8>) -> (Decoding, Seq<Event>)
    decreases input.len(),
{
    if input.len() == 0 {
        (s, Seq::empty())
    } else {
        let before = feed(s, input.drop_last());
        let after = feed_byte(before.0, input.last());
        (after.0, before.1 + after.1)
    }
}

/// Incremental frame decoder. See the module documentation for the rules.
#[derive(Debug)]
pub struct FrameDecoder {
    buf: Vec<u8>,
    discarding: bool,
    discarded: usize,
    sentinel_pending: bool,
}

impl View for FrameDecoder {
    type V = Decoding;

    closed spec fn view(&self) -> Decoding {
        Decoding {
            buf: self.buf@,
            discarding: self.discarding,
            discarded: self.discarded as nat,
            sentinel_pending: self.sentinel_pending,
        }
    }
}

impl Default for FrameDecoder {
    fn default() -> (decoder: Self)
        ensures
            decoder@ == Decoding::start(),
            decoder@.valid(),
    {
        FrameDecoder { buf: Vec::new(), discarding: false, discarded: 0, sentinel_pending: false }
    }
}

impl FrameDecoder {
    /// Creates an empty decoder in normal mode.
    pub fn new() -> (decoder: Self)
        ensures
            decoder@ == Decoding::start(),
            decoder@.valid(),
    {
        Self::default()
    }

    /// Feeds bytes into the decoder and returns the events they complete, in
    /// stream order.
    pub fn push(&mut self, input: &[u8]) -> (events: Vec<DecodeEvent>)
        requires
            old(self)@.valid(),
        ensures
            final(self)@ == feed(old(self)@, input@).0,
            events_view(events@) == feed(old(self)@, input@).1,
            final(self)@.valid(),
    {
        let mut events: Vec<DecodeEvent> = Vec::new();
        let mut at: usize = 0;
        proof {
            assert(input@.take(0) =~= Seq::<u8>::empty());
        }
        while at < input.len()
            invariant
                at <= input.len(),
                old(self)@.valid(),
                self@ == feed(old(self)@, input@.take(at as int)).0,
                events_view(events@) == feed(old(self)@, input@.take(at as int)).1,
                self@.valid(),
            decreases input.len() - at,
        {
            let end = delimiter_from(input, at);
            let data = vstd::slice::slice_subrange(input, at, end);
            let ghost start = self@;
            self.consume_data(data);
            proof {
                law_chunking(old(self)@, input@.take(at as int), data@);
                assert(input@.take(at as int) + data@ =~= input@.take(end as int));
                assert(feed(old(self)@, input@.take(end as int)).1 =~= events_view(events@));
            }
            if end < input.len() {
                proof {
                    assert(input@.take(end + 1).drop_last() =~= input@.take(end as int));
                    assert(input@.take(end + 1).last() == input@[end as int]);
                }
                if input[end] == NEWLINE {
                    self.end_of_frame(&mut events);
                } else {
                    self.sentinel(&mut events);
                }
                at = end + 1;
            } else {
                at = end;
            }
        }
        proof {
            assert(input@.take(at as int) =~= input@);
        }
        events
    }

    /// Drops any partial frame and discard/sentinel state. Frames already
    /// returned are unaffected.
    pub fn reset(&mut self)
        ensures
            final(self)@ == Decoding::start(),
            final(self)@.valid(),
    {
        self.buf.clear();
        self.discarding = false;
        self.discarded = 0;
        self.sentinel_pending = false;
    }

    /// Number of bytes currently buffered (bounded by [`MAX_FRAME_LEN`]).
    pub fn buffered_len(&self) -> (len: usize)
        ensures
            len == self@.buf.len(),
            self@.valid() ==> len <= MAX_FRAME_LEN,
    {
        self.buf.len()
    }

    /// `true` while the decoder is dropping an oversized frame.
    pub fn is_discarding(&self) -> (discarding: bool)
        ensures
            discarding == self@.discarding,
    {
        self.discarding
    }

    /// Appends delimiter-free bytes, switching to discard mode instead of
    /// growing past the bound.
    fn consume_data(&mut self, data: &[u8])
        requires
            old(self)@.valid(),
            forall|i: int| 0 <= i < data@.len() ==> !is_delimiter(#[trigger] data@[i]),
        ensures
            final(self)@ == feed(old(self)@, data@).0,
            feed(old(self)@, data@).1 == Seq::<Event>::empty(),
            final(self)@.valid(),
    {
        proof {
            lemma_feed_data(self@, data@);
        }
        if data.is_empty() {
            return;
        }
        if self.discarding {
            self.discarded = self.discarded.saturating_add(data.len());
            return;
        }
        if self.buf.len().saturating_add(data.len()) > MAX_FRAME_LEN {
            self.discarding = true;
            self.discarded = self.buf.len().saturating_add(data.len());
            self.buf.clear();
        } else {
            self.buf.extend_from_slice(data);
            proof {
                assert(self.buf@ =~= old(self)@.buf + data@);
            }
        }
    }

    /// Handles a `\n`.
    fn end_of_frame(&mut self, events: &mut Vec<DecodeEvent>)
        requires
            old(self)@.valid(),
        ensures
            final(self)@ == feed_byte(old(self)@, NEWLINE).0,
            events_view(final(events)@) == events_view(old(events)@) + feed_byte(
                old(self)@,
                NEWLINE,
            ).1,
            final(self)@.valid(),
    {
        if self.discarding {
            events.push(DecodeEvent::Oversized { discarded: self.discarded });
            self.discarding = false;
            self.discarded = 0;
            return;
        }
        if all_whitespace(&self.buf) {
            self.buf.clear();
            return;
        }
        let mut bytes: Vec<u8> = Vec::new();
        std::mem::swap(&mut bytes, &mut self.buf);
        events.push(DecodeEvent::Frame { bytes, sentinel: self.sentinel_pending });
        self.sentinel_pending = false;
    }

    /// Handles a `0xFF` sentinel.
    fn sentinel(&mut self, events: &mut Vec<DecodeEvent>)
        requires
            old(self)@.valid(),
        ensures
            final(self)@ == feed_byte(old(self)@, SENTINEL).0,
            events_view(final(events)@) == events_view(old(events)@) + feed_byte(
                old(self)@,
                SENTINEL,
            ).1,
            final(self)@.valid(),
    {
        if self.discarding {
            events.push(DecodeEvent::Oversized { discarded: self.discarded });
            self.discarding = false;
            self.discarded = 0;
        }
        self.buf.clear();
        self.sentinel_pending = true;
    }
}

/// The first delimiter of `input` from `from` on, or the end.
fn delimiter_from(input: &[u8], from: usize) -> (end: usize)
    requires
        from <= input@.len(),
    ensures
        from <= end <= input@.len(),
        forall|i: int| from <= i < end ==> !is_delimiter(#[trigger] input@[i]),
        end < input@.len() ==> is_delimiter(input@[end as int]),
{
    let mut end: usize = from;
    while end < input.len() && input[end] != NEWLINE && input[end] != SENTINEL
        invariant
            from <= end <= input@.len(),
            forall|i: int| from <= i < end ==> !is_delimiter(#[trigger] input@[i]),
        decreases input@.len() - end,
    {
        end = end + 1;
    }
    end
}

/// Whether every byte is ASCII whitespace.
fn all_whitespace(bytes: &Vec<u8>) -> (blank: bool)
    ensures
        blank == is_blank(bytes@),
{
    for i in 0..bytes.len()
        invariant
            forall|j: int| 0 <= j < i ==> is_whitespace(#[trigger] bytes@[j]),
    {
        let b: u8 = bytes[i];
        if !(b == 0x20 || b == 0x09 || b == 0x0A || b == 0x0C || b == 0x0D) {
            return false;
        }
    }
    true
}

/// The bytes of one reply on the wire.
pub open spec fn encoded(json: Seq<u8>, sentinel: bool) -> Seq<u8> {
    if sentinel {
        seq![SENTINEL] + json + seq![NEWLINE]
    } else {
        json + seq![NEWLINE]
    }
}

/// Encodes one reply: an optional leading `0xFF` sentinel, the JSON bytes,
/// and the `\n` delimiter.
pub fn encode(json: &[u8], sentinel: bool) -> (out: Vec<u8>)
    ensures
        out@ == encoded(json@, sentinel),
{
    let mut out: Vec<u8> = Vec::new();
    if sentinel {
        out.push(SENTINEL);
    }
    out.extend_from_slice(json);
    out.push(NEWLINE);
    proof {
        assert(out@ =~= encoded(json@, sentinel));
    }
    out
}

/// Splitting the stream into pieces in any way yields the same events as
/// feeding it at once, and leaves the decoder in the same state.
pub proof fn law_chunking(s: Decoding, a: Seq<u8>, b: Seq<u8>)
    ensures
        feed(s, a + b).0 == feed(feed(s, a).0, b).0,
        feed(s, a + b).1 == feed(s, a).1 + feed(feed(s, a).0, b).1,
    decreases b.len(),
{
    if b.len() == 0 {
        assert(a + b =~= a);
    } else {
        assert((a + b).drop_last() =~= a + b.drop_last());
        law_chunking(s, a, b.drop_last());
        assert(feed(s, a + b).1 =~= feed(s, a).1 + feed(feed(s, a).0, b).1);
    }
}

/// What delimiter-free bytes do to the decoder.
proof fn lemma_feed_data(s: Decoding, data: Seq<u8>)
    requires
        s.valid(),
        forall|i: int| 0 <= i < data.len() ==> !is_delimiter(#[trigger] data[i]),
    ensures
        feed(s, data).1 == Seq::<Event>::empty(),
        feed(s, data).0 == if data.len() == 0 {
            s
        } else if s.discarding {
            Decoding { discarded: clamped(s.discarded + data.len()), ..s }
        } else if s.buf.len() + data.len() > MAX_FRAME_LEN {
            Decoding {
                buf: Seq::empty(),
                discarding: true,
                discarded: clamped(s.buf.len() + data.len()),
                ..s
            }
        } else {
            Decoding { buf: s.buf + data, ..s }
        },
    decreases data.len(),
{
    if data.len() > 0 {
        lemma_feed_data(s, data.drop_last());
        assert(feed(s, data).1 =~= Seq::<Event>::empty());
        if !s.discarding && s.buf.len() + data.len() <= MAX_FRAME_LEN {
            assert((s.buf + data.drop_last()).push(data.last()) =~= s.buf + data);
        }
        assert(feed(s, data).0.buf =~= (if data.len() == 0 {
            s.buf
        } else if s.discarding {
            s.buf
        } else if s.buf.len() + data.len() > MAX_FRAME_LEN {
            Seq::<u8>::empty()
        } else {
            s.buf + data
        }));
    }
}

/// No stream makes the decoder hold more than [`MAX_FRAME_LEN`] bytes, and
/// while it drops an oversized frame it holds none.
pub proof fn law_bounded(s: Decoding, input: Seq<u8>)
    requires
        s.valid(),
    ensures
        feed(s, input).0.valid(),
        feed(s, input).0.buf.len() <= MAX_FRAME_LEN,
        feed(s, input).0.discarding ==> feed(s, input).0.buf.len() == 0,
    decreases input.len(),
{
    if input.len() > 0 {
        law_bounded(s, input.drop_last());
    }
}

/// Whether an event is one that a decoder may report.
pub open spec fn reportable(event: Event) -> bool {
    match event {
        Event::Frame { bytes, .. } => {
            &&& 0 < bytes.len() <= MAX_FRAME_LEN
            &&& !is_blank(bytes)
            &&& forall|i: int| 0 <= i < bytes.len() ==> !is_delimiter(#[trigger] bytes[i])
        },
        Event::Oversized { discarded } => discarded > MAX_FRAME_LEN,
    }
}

/// Whatever the stream holds, every frame reported is within the bound, holds
/// something besides whitespace and holds no delimiter; every oversize report
/// is of a frame beyond the bound.
pub proof fn law_reported_events(s: Decoding, input: Seq<u8>, i: int)
    requires
        s.valid(),
        0 <= i < feed(s, input).1.len(),
    ensures
        reportable(feed(s, input).1[i]),
    decreases input.len(),
{
    if input.len() > 0 {
        law_bounded(s, input.drop_last());
        let before = feed(s, input.drop_last());
        if i < before.1.len() {
            law_reported_events(s, input.drop_last(), i);
        }
    }
}

/// What is encoded is decoded: a reply whose bytes hold no delimiter and are
/// within the bound comes out of a fresh decoder as one frame with the same
/// bytes and the same flag, and nothing is left behind. A blank one comes out
/// as no frame at all; the flag waits for the next.
pub proof fn law_round_trip(json: Seq<u8>, sentinel: bool)
    requires
        json.len() <= MAX_FRAME_LEN,
        forall|i: int| 0 <= i < json.len() ==> !is_delimiter(#[trigger] json[i]),
    ensures
        feed(Decoding::start(), encoded(json, sentinel)).0 == (Decoding {
            sentinel_pending: sentinel && is_blank(json),
            ..Decoding::start()
        }),
        feed(Decoding::start(), encoded(json, sentinel)).1 == if is_blank(json) {
            Seq::empty()
        } else {
            seq![Event::Frame { bytes: json, sentinel }]
        },
{
    let s = Decoding::start();
    if is_blank(json) {
        if sentinel {
            let mark = seq![SENTINEL];
            assert(mark.drop_last() =~= Seq::<u8>::empty());
            assert(feed(s, mark.drop_last()).1 == Seq::<Event>::empty());
            assert(feed(s, mark).0 == feed_byte(s, SENTINEL).0);
            assert(feed(s, mark).1 =~= Seq::<Event>::empty());
            law_chunking(s, mark, json + seq![NEWLINE]);
            assert(encoded(json, true) =~= mark + (json + seq![NEWLINE]));
            lemma_blank(feed(s, mark).0, json);
            assert(feed(s, encoded(json, true)).1 =~= Seq::<Event>::empty());
        } else {
            lemma_blank(s, json);
        }
    } else if sentinel {
        law_resynchronisation(s, json);
        assert(feed(s, encoded(json, sentinel)).1 =~= seq![Event::Frame { bytes: json, sentinel }]);
    } else {
        lemma_frame(s, json);
        assert(feed(s, encoded(json, false)).1 =~= seq![Event::Frame { bytes: json, sentinel }]);
    }
}

/// Resynchronisation: from any state, after any garbage, a sentinel makes the
/// decoder read the next frame whole and flag it; what came before it is never
/// part of that frame.
pub proof fn law_resynchronisation(s: Decoding, json: Seq<u8>)
    requires
        s.valid(),
        json.len() <= MAX_FRAME_LEN,
        !is_blank(json),
        forall|i: int| 0 <= i < json.len() ==> !is_delimiter(#[trigger] json[i]),
    ensures
        feed(s, encoded(json, true)).0 == Decoding::start(),
        feed(s, encoded(json, true)).1 == (if s.discarding {
            seq![Event::Oversized { discarded: s.discarded }]
        } else {
            Seq::empty()
        }).push(Event::Frame { bytes: json, sentinel: true }),
{
    let mark = seq![SENTINEL];
    assert(mark.drop_last() =~= Seq::<u8>::empty());
    assert(feed(s, mark.drop_last()).1 == Seq::<Event>::empty());
    assert(feed(s, mark).0 == feed_byte(s, SENTINEL).0);
    assert(feed(s, mark).1 =~= feed_byte(s, SENTINEL).1);
    law_chunking(s, mark, json + seq![NEWLINE]);
    assert(encoded(json, true) =~= mark + (json + seq![NEWLINE]));
    lemma_frame(feed(s, mark).0, json);
    assert(feed(s, encoded(json, true)).1 =~= (if s.discarding {
        seq![Event::Oversized { discarded: s.discarded }]
    } else {
        Seq::empty()
    }).push(Event::Frame { bytes: json, sentinel: true }));
}

/// A frame beyond the bound is reported once, with its length, whatever it
/// holds; none of it is ever taken for a command.
pub proof fn law_oversized_once(s: Decoding, data: Seq<u8>)
    requires
        s.valid(),
        s.buf.len() == 0,
        !s.discarding,
        MAX_FRAME_LEN < data.len() <= usize::MAX,
        forall|i: int| 0 <= i < data.len() ==> !is_delimiter(#[trigger] data[i]),
    ensures
        feed(s, data + seq![NEWLINE]).0 == s,
        feed(s, data + seq![NEWLINE]).1 == seq![Event::Oversized { discarded: data.len() }],
{
    lemma_feed_data(s, data);
    let line = data + seq![NEWLINE];
    assert(line.drop_last() =~= data);
    assert(feed(s, line).0 =~= s);
    assert(feed(s, line).1 =~= seq![Event::Oversized { discarded: data.len() }]);
}

/// A whole frame fed to a decoder that holds nothing.
proof fn lemma_frame(s: Decoding, json: Seq<u8>)
    requires
        s.valid(),
        s.buf.len() == 0,
        !s.discarding,
        json.len() <= MAX_FRAME_LEN,
        !is_blank(json),
        forall|i: int| 0 <= i < json.len() ==> !is_delimiter(#[trigger] json[i]),
    ensures
        feed(s, json + seq![NEWLINE]).0 == Decoding::start(),
        feed(s, json + seq![NEWLINE]).1 == seq![
            Event::Frame { bytes: json, sentinel: s.sentinel_pending },
        ],
{
    lemma_feed_data(s, json);
    let line = json + seq![NEWLINE];
    assert(line.drop_last() =~= json);
    assert(s.buf + json =~= json);
    assert(feed(s, line).0 =~= Decoding::start());
    assert(feed(s, line).1 =~= seq![Event::Frame { bytes: json, sentinel: s.sentinel_pending }]);
}

/// A blank frame fed to a decoder that holds nothing.
proof fn lemma_blank(s: Decoding, json: Seq<u8>)
    requires
        s.valid(),
        s.buf.len() == 0,
        !s.discarding,
        json.len() <= MAX_FRAME_LEN,
        is_blank(json),
        forall|i: int| 0 <= i < json.len() ==> !is_delimiter(#[trigger] json[i]),
    ensures
        feed(s, json + seq![NEWLINE]).0 == s,
        feed(s, json + seq![NEWLINE]).1 == Seq::<Event>::empty(),
{
    lemma_feed_data(s, json);
    let line = json + seq![NEWLINE];
    assert(line.drop_last() =~= json);
    assert(s.buf + json =~= json);
    assert(feed(s, line).0 =~= s);
    assert(feed(s, line).1 =~= Seq::<Event>::empty());
}

/// A line is a frame, whole: up to 65536 bytes that hold neither a line feed
/// nor the byte `0xFF`, one of them no white space, come out as they went in
/// when the line feed follows, whatever pieces they arrived in. The frame is
/// flagged if and only if the sentinel stood before it.
pub proof fn law_a_line_is_a_frame(s: Decoding, rest: Seq<u8>, k: int)
    requires
        s.valid(),
        !s.discarding,
        (s.buf + rest).len() <= 65_536,
        forall|i: int|
            0 <= i < rest.len() ==> (#[trigger] rest[i]) != 0x0Au8 && rest[i] != 0xFFu8,
        0 <= k < (s.buf + rest).len(),
        (s.buf + rest)[k] != 0x20u8,
        (s.buf + rest)[k] != 0x09u8,
        (s.buf + rest)[k] != 0x0Au8,
        (s.buf + rest)[k] != 0x0Cu8,
        (s.buf + rest)[k] != 0x0Du8,
    ensures
        feed(s, rest + seq![0x0Au8]).1 == seq![
            Event::Frame { bytes: s.buf + rest, sentinel: s.sentinel_pending },
        ],
        feed(s, rest + seq![0x0Au8]).0 == Decoding::start(),
{
    lemma_feed_data(s, rest);
    let line = rest + seq![0x0Au8];
    assert(line.drop_last() =~= rest);
    assert(s.buf + Seq::<u8>::empty() =~= s.buf);
    if rest.len() == 0 {
        assert(s.buf + rest =~= s.buf);
    }
    assert(feed(s, rest).0 == Decoding { buf: s.buf + rest, ..s });
    assert(!is_whitespace((s.buf + rest)[k]));
    assert(feed(s, line).0 =~= Decoding::start());
    assert(feed(s, line).1 =~= seq![
        Event::Frame { bytes: s.buf + rest, sentinel: s.sentinel_pending },
    ]);
}

/// A line of nothing but spaces, tabs, form feeds and carriage returns is no
/// frame: it leaves the decoder as if it had not come.
pub proof fn law_a_blank_line_is_no_frame(s: Decoding, line: Seq<u8>)
    requires
        s.valid(),
        !s.discarding,
        s.buf.len() == 0,
        line.len() <= 65_536,
        forall|i: int|
            0 <= i < line.len() ==> (#[trigger] line[i]) == 0x20u8 || line[i] == 0x09u8 || line[i]
                == 0x0Cu8 || line[i] == 0x0Du8,
    ensures
        feed(s, line + seq![0x0Au8]) == (s, Seq::<Event>::empty()),
{
    assert forall|i: int| 0 <= i < line.len() implies !is_delimiter(#[trigger] line[i]) by {}
    lemma_blank(s, line);
}

/// A line of more than 65536 bytes is no frame: it is reported once, at its
/// line feed, with its length.
pub proof fn law_a_longer_line_is_reported(s: Decoding, rest: Seq<u8>)
    requires
        s.valid(),
        !s.discarding,
        65_536 < (s.buf + rest).len() <= usize::MAX,
        forall|i: int|
            0 <= i < rest.len() ==> (#[trigger] rest[i]) != 0x0Au8 && rest[i] != 0xFFu8,
    ensures
        feed(s, rest + seq![0x0Au8]).1 == seq![
            Event::Oversized { discarded: (s.buf + rest).len() },
        ],
        feed(s, rest + seq![0x0Au8]).0 == (Decoding { buf: Seq::empty(), ..s }),
{
    lemma_feed_data(s, rest);
    let line = rest + seq![0x0Au8];
    assert(line.drop_last() =~= rest);
    assert(feed(s, line).0 =~= Decoding { buf: Seq::empty(), ..s });
    assert(feed(s, line).1 =~= seq![Event::Oversized { discarded: (s.buf + rest).len() }]);
}

/// The byte `0xFF` makes a fresh start from any state: what was buffered is
/// dropped and the next frame is flagged.
pub proof fn law_the_sentinel_starts_afresh(s: Decoding)
    ensures
        feed(s, seq![0xFFu8]).0 == (Decoding {
            buf: Seq::empty(),
            discarding: false,
            discarded: 0,
            sentinel_pending: true,
        }),
        !s.discarding ==> feed(s, seq![0xFFu8]).1 == Seq::<Event>::empty(),
        s.discarding ==> feed(s, seq![0xFFu8]).1 == seq![
            Event::Oversized { discarded: s.discarded },
        ],
{
    let mark = seq![0xFFu8];
    assert(mark.drop_last() =~= Seq::<u8>::empty());
    assert(feed(s, mark.drop_last()) == (s, Seq::<Event>::empty()));
    assert(feed(s, mark).1 =~= feed_byte(s, 0xFFu8).1);
}

/// A reply goes out as its own bytes and a line feed, and the byte `0xFF`
/// before them if and only if it is flagged.
pub proof fn law_a_reply_goes_out_as_its_bytes(json: Seq<u8>, sentinel: bool)
    ensures
        sentinel ==> encoded(json, sentinel) == seq![0xFFu8] + json + seq![0x0Au8],
        !sentinel ==> encoded(json, sentinel) == json + seq![0x0Au8],
{
}

} // verus!
