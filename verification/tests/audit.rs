use qeminga::audit::router::{Item, LossReason, Mode, Next, Router, Settling, RING_CAPACITY};
use qeminga::audit::calendar::{civil_from_days, format_utc};
use qeminga::audit::ring::LineRing;
use qeminga::audit::{
    loss_record, project_method, Disposition, MethodField, EVENT_AUDIT_RECORDS_LOST,
    MAX_METHOD_BYTES,
};
use serde_json::Value;
use sha2::{Digest, Sha256};

/// What the writer thread would do with a sink that accepts everything:
/// delivers until there is nothing to write.
fn deliver(router: &mut Router, sink: &mut Vec<String>) {
    while let Some(line) = write_one(router) {
        sink.push(line);
        router.finish_write(true);
    }
}

/// The next line the writer thread would write.
fn write_one(router: &mut Router) -> Option<String> {
    match router.next_write() {
        Next::Write(Item::Line(bytes)) => Some(
            String::from_utf8(bytes)
                .unwrap()
                .trim_end_matches('\n')
                .to_owned(),
        ),
        Next::Write(Item::Lost(lost, reason)) => {
            Some(loss_record(lost, reason, 0, 0).trim_end().to_owned())
        }
        Next::Wait | Next::Exit => None,
    }
}

#[test]
fn short_method_is_recorded_verbatim() {
    let exactly_64 = "m".repeat(64);
    assert_eq!(
        project_method(&exactly_64),
        MethodField::Full(exactly_64.clone())
    );
    assert_eq!(
        project_method("guest-ping"),
        MethodField::Full("guest-ping".to_owned())
    );
}

#[test]
fn long_method_is_projected_at_char_boundary() {
    // 62 ASCII bytes, then a 4-byte char spanning bytes 62..66, then more:
    // byte 64 falls inside the multi-byte character.
    let method = format!("{}\u{1F512}{}", "a".repeat(62), "b".repeat(4));
    assert_eq!(method.len(), 70);
    let expected_digest = {
        let d = Sha256::digest(method.as_bytes());
        d.iter().map(|b| format!("{b:02x}")).collect::<String>()
    };
    match project_method(&method) {
        MethodField::Projected {
            method_prefix,
            method_len_bytes,
            method_digest,
        } => {
            assert_eq!(method_prefix, "a".repeat(62));
            assert!(method_prefix.len() <= MAX_METHOD_BYTES);
            assert_eq!(method_len_bytes, 70);
            assert_eq!(method_digest, expected_digest);
            assert_eq!(method_digest.len(), 64);
            assert!(method_digest.bytes().all(|b| b.is_ascii_hexdigit()));
            assert_eq!(method_digest.to_lowercase(), method_digest);
        }
        other => panic!("expected Projected, got {other:?}"),
    }
    // 65 ASCII bytes cut cleanly at 64.
    match project_method(&"x".repeat(65)) {
        MethodField::Projected { method_prefix, .. } => {
            assert_eq!(method_prefix.len(), 64);
        }
        other => panic!("expected Projected, got {other:?}"),
    }
}

#[test]
fn dispositions_have_lowercase_names() {
    assert_eq!(Disposition::Allowed.as_str(), "allowed");
    assert_eq!(Disposition::Denied.as_str(), "denied");
}

#[test]
fn ring_stores_whole_lines_in_order() {
    let mut ring = LineRing::with_capacity(100);
    ring.push(b"one\n");
    ring.push(b"two\n");
    ring.push(b"three\n");
    assert_eq!(ring.len(), 14);
    let (lost, lines) = ring.drain();
    assert_eq!(lost, 0);
    assert_eq!(
        lines,
        vec![b"one\n".to_vec(), b"two\n".to_vec(), b"three\n".to_vec()]
    );
    assert!(ring.is_empty());
    assert_eq!(ring.len(), 0);
}

#[test]
fn ring_evicts_oldest_on_overflow_and_counts_loss() {
    let mut ring = LineRing::with_capacity(10);
    ring.push(b"aaaa"); // 4
    ring.push(b"bbbb"); // 8
    ring.push(b"cccc"); // 12 > 10: evict aaaa -> 8
    assert_eq!(ring.lost(), 1);
    ring.push(b"dddddddd"); // 16 > 10: evict bbbb (12), evict cccc (8)
    assert_eq!(ring.lost(), 3);
    let (lost, lines) = ring.drain();
    assert_eq!(lost, 3);
    assert_eq!(lines, vec![b"dddddddd".to_vec()]);
    // Loss counter resets after a drain.
    assert_eq!(ring.lost(), 0);
}

#[test]
fn ring_rejects_single_line_larger_than_capacity_and_counts_it() {
    let mut ring = LineRing::with_capacity(8);
    ring.push(b"keep");
    ring.push(b"far-too-long-line");
    assert_eq!(ring.lost(), 1);
    let (lost, lines) = ring.drain();
    assert_eq!(lost, 1);
    assert_eq!(lines, vec![b"keep".to_vec()]);
}

#[test]
fn ring_capacity_is_64_kib() {
    assert_eq!(RING_CAPACITY, 65_536);
    let router = Router::new();
    assert_eq!(router.ring_capacity(), 65_536);
    let mut ring = LineRing::with_capacity(RING_CAPACITY);
    let line = vec![b'x'; 1024];
    for _ in 0..64 {
        ring.push(&line);
    }
    assert_eq!(ring.lost(), 0);
    assert_eq!(ring.len(), RING_CAPACITY);
    ring.push(&line);
    assert_eq!(ring.lost(), 1);
    assert_eq!(ring.len(), RING_CAPACITY);
}

#[test]
fn router_in_normal_mode_writes_through() {
    let mut sink = Vec::new();
    let mut router = Router::with_ring_capacity(RING_CAPACITY);
    assert_eq!(router.mode(), Mode::Normal);
    router.write_record(b"line\n");
    deliver(&mut router, &mut sink);
    assert!(router.settle());
    assert_eq!(sink, ["line"]);
}

#[test]
fn router_in_ring_mode_performs_no_write_to_sink() {
    let mut sink = Vec::new();
    let mut router = Router::with_ring_capacity(RING_CAPACITY);
    router.enter_ring();
    assert_eq!(router.mode(), Mode::Ring);
    for _ in 0..1000 {
        router.write_record(&[b'x'; 200]);
    }
    deliver(&mut router, &mut sink);
    assert!(sink.is_empty());
    assert!(router.lost() > 0, "the ring must have overflowed");
}

#[test]
fn flush_emits_loss_record_first_when_nonzero() {
    let mut sink = Vec::new();
    let mut router = Router::with_ring_capacity(16);
    router.enter_ring();
    router.write_record(b"first-line\n");
    router.write_record(b"second-ln\n");
    deliver(&mut router, &mut sink);
    assert!(sink.is_empty());
    let lost = router.flush_to_normal();
    assert_eq!(lost, 1);
    assert_eq!(router.mode(), Mode::Normal);
    deliver(&mut router, &mut sink);
    assert_eq!(sink.len(), 2, "{sink:?}");
    let loss: Value = serde_json::from_str(&sink[0]).unwrap();
    assert_eq!(loss["event"], EVENT_AUDIT_RECORDS_LOST);
    assert_eq!(loss["lost"], 1);
    assert_eq!(loss["level"], "WARN");
    assert!(loss["timestamp"].as_str().unwrap().ends_with('Z'));
    assert_eq!(sink[1], "second-ln");
}

#[test]
fn flush_emits_nothing_extra_when_no_loss() {
    let mut sink = Vec::new();
    let mut router = Router::with_ring_capacity(RING_CAPACITY);
    router.enter_ring();
    router.write_record(b"a\n");
    assert_eq!(router.flush_to_normal(), 0);
    deliver(&mut router, &mut sink);
    assert_eq!(sink, ["a"]);
    // A second flush with nothing buffered writes nothing.
    router.enter_ring();
    assert_eq!(router.flush_to_normal(), 0);
    deliver(&mut router, &mut sink);
    assert_eq!(sink, ["a"]);
}

#[test]
fn flush_preserves_order() {
    let mut sink = Vec::new();
    let mut router = Router::with_ring_capacity(RING_CAPACITY);
    router.write_record(b"before\n");
    router.enter_ring();
    for i in 0..50 {
        router.write_record(format!("ring-{i}\n").as_bytes());
    }
    router.flush_to_normal();
    router.write_record(b"after\n");
    deliver(&mut router, &mut sink);
    assert_eq!(sink[0], "before");
    for (i, line) in sink[1..51].iter().enumerate() {
        assert_eq!(line, &format!("ring-{i}"));
    }
    assert_eq!(sink[51], "after");
    assert_eq!(sink.len(), 52);
}

#[test]
fn a_blocked_sink_blocks_only_the_writer_thread() {
    // The first line is in the sink and stays there. Every later write, the
    // switch to the ring and the flush back go on; the lines wait in the queue
    // and are delivered, in order, once the sink moves again.
    let mut router = Router::new();
    router.write_record(b"one\n");
    assert_eq!(write_one(&mut router).as_deref(), Some("one"));
    router.write_record(b"two\n");
    router.enter_ring();
    router.write_record(b"three\n");
    assert_eq!(router.flush_to_normal(), 0);
    assert_eq!(router.mode(), Mode::Normal);
    assert_eq!(router.queued_bytes(), 14, "one (in flight), two, three");
    assert!(!router.settle(), "still blocked");
    router.finish_write(true);
    let mut sink = vec!["one".to_owned()];
    deliver(&mut router, &mut sink);
    assert!(router.settle());
    assert_eq!(sink, ["one", "two", "three"]);
    assert_eq!(router.unreported_losses(), 0);
}

#[test]
fn the_writer_parks_while_the_ring_is_in_use() {
    let mut router = Router::new();
    router.write_record(b"one\n");
    assert_eq!(write_one(&mut router).as_deref(), Some("one"));
    router.write_record(b"two\n");
    router.enter_ring();
    // `one` was in flight and completes; `two` must wait.
    router.finish_write(true);
    let mut sink = vec!["one".to_owned()];
    deliver(&mut router, &mut sink);
    assert_eq!(sink, ["one"], "parked while the ring is in use");
    assert_eq!(router.queued_bytes(), 4);
    router.write_record(b"three\n");
    router.flush_to_normal();
    deliver(&mut router, &mut sink);
    assert_eq!(sink, ["one", "two", "three"]);
}

#[test]
fn a_full_queue_drops_the_newest_and_reports_the_loss_where_it_happened() {
    // Capacity for three 20-byte lines with the first in the sink: the fourth
    // and fifth are dropped and counted; the loss record is delivered where
    // the gap is, after the third.
    let mut router = Router::with_queue_capacity(64);
    let line = |n: u8| format!("{{\"n\":{n},\"pad\":\"xxx\"}}\n");
    assert_eq!(line(1).len(), 20);
    router.write_record(line(1).as_bytes());
    let mut sink = vec![write_one(&mut router).unwrap()];
    for n in 2..=5 {
        router.write_record(line(n).as_bytes());
    }
    assert_eq!(router.queued_bytes(), 60);
    assert_eq!(router.unreported_losses(), 2);
    // A line after the drops that fits again goes behind the marker.
    router.finish_write(true);
    deliver(&mut router, &mut sink);
    router.write_record(line(6).as_bytes());
    deliver(&mut router, &mut sink);
    assert_eq!(sink.len(), 5, "{sink:?}");
    assert!(sink[0].contains("\"n\":1"));
    assert!(sink[2].contains("\"n\":3"));
    let loss: Value = serde_json::from_str(&sink[3]).unwrap();
    assert_eq!(loss["event"], EVENT_AUDIT_RECORDS_LOST);
    assert_eq!(loss["lost"], 2);
    assert_eq!(loss["reason"], "sink_backpressure");
    assert!(sink[4].contains("\"n\":6"));
    assert_eq!(router.unreported_losses(), 0);
}

#[test]
fn a_failing_sink_loses_the_refused_records_and_reports_them_without_spinning() {
    // The first two writes fail: `a` is lost, and the loss record for it is
    // refused too; the writer then waits for something new instead of retrying
    // in a loop. `b` arrives: the loss record is written, then `b` and `c`.
    let mut router = Router::new();
    router.write_record(b"a\n");
    assert_eq!(write_one(&mut router).as_deref(), Some("a"));
    router.finish_write(false);
    assert_eq!(router.unreported_losses(), 1);
    assert_eq!(router.next_write(), Next::Wait, "no spinning on a dead sink");
    // Something new: the loss record is tried, and refused too.
    router.write_record(b"b\n");
    assert_eq!(
        router.next_write(),
        Next::Write(Item::Lost(1, LossReason::SinkError))
    );
    router.finish_write(false);
    assert_eq!(router.unreported_losses(), 1, "the record is kept");
    assert_eq!(router.next_write(), Next::Wait, "no spinning on a dead sink");
    router.write_record(b"c\n");
    let mut sink = Vec::new();
    deliver(&mut router, &mut sink);
    assert_eq!(sink.len(), 3, "{sink:?}");
    let loss: Value = serde_json::from_str(&sink[0]).unwrap();
    assert_eq!(loss["event"], EVENT_AUDIT_RECORDS_LOST);
    assert_eq!(loss["lost"], 1);
    assert_eq!(loss["reason"], "sink_error");
    assert_eq!(&sink[1..], ["b", "c"]);
    assert_eq!(router.unreported_losses(), 0);
}

#[test]
fn the_ring_flush_reports_its_loss_with_its_reason() {
    let mut sink = Vec::new();
    let mut router = Router::with_ring_capacity(16);
    router.enter_ring();
    router.write_record(b"first-line\n");
    router.write_record(b"second-ln\n");
    router.flush_to_normal();
    deliver(&mut router, &mut sink);
    let loss: Value = serde_json::from_str(&sink[0]).unwrap();
    assert_eq!(loss["reason"], "ring_overflow");
}

#[test]
fn a_ring_loss_is_reported_by_a_marker_even_when_the_queue_is_full() {
    // The queue is full behind a blocked sink when a window whose ring
    // overflowed is flushed: the ring's loss is a marker, which takes no queue
    // space, so it is reported with its own count and reason; only the ring's
    // lines the queue cannot hold are counted as backpressure, separately.
    let mut router = Router::with_queue_capacity(64);
    let line = |n: u8| format!("{{\"n\":{n},\"pad\":\"xxx\"}}\n");
    router.write_record(line(1).as_bytes());
    let mut sink = vec![write_one(&mut router).unwrap()];
    for n in 2..=3 {
        router.write_record(line(n).as_bytes());
    }
    assert_eq!(router.queued_bytes(), 60, "the queue is full");
    router.enter_ring();
    let filler = line(9);
    let written = RING_CAPACITY / filler.len() + 4;
    for _ in 0..written {
        router.write_record(filler.as_bytes());
    }
    let overflowed = router.lost();
    assert!(overflowed > 0, "the ring overflowed");
    let kept = written as u64 - overflowed;
    assert_eq!(router.flush_to_normal(), overflowed);
    assert_eq!(router.unreported_losses(), overflowed + kept);
    router.finish_write(true);
    deliver(&mut router, &mut sink);
    assert_eq!(sink.len(), 5, "{sink:?}");
    let ring_loss: Value = serde_json::from_str(&sink[3]).unwrap();
    assert_eq!(ring_loss["reason"], "ring_overflow", "{sink:?}");
    assert_eq!(ring_loss["lost"], overflowed);
    let queue_loss: Value = serde_json::from_str(&sink[4]).unwrap();
    assert_eq!(queue_loss["reason"], "sink_backpressure");
    assert_eq!(queue_loss["lost"], kept);
}

#[test]
fn dropping_the_last_handle_delivers_the_queue() {
    // The writer is told to leave, and leaves only once the queue is empty.
    let mut sink = Vec::new();
    let mut router = Router::with_ring_capacity(RING_CAPACITY);
    router.write_record(b"last\n");
    router.shut_down();
    deliver(&mut router, &mut sink);
    assert_eq!(sink, ["last"]);
    assert_eq!(router.next_write(), Next::Exit);
}

#[test]
fn a_router_without_a_writer_thread_counts_every_record_lost() {
    let mut sink = Vec::new();
    let mut router = Router::with_ring_capacity(RING_CAPACITY);
    assert!(router.settle());
    // Declared gone, the thread delivers nothing more, so the record is lost
    // at the write.
    router.writer_gone();
    router.write_record(b"nowhere\n");
    assert_eq!(router.unreported_losses(), 1);
    deliver(&mut router, &mut sink);
    assert!(sink.is_empty());
}

#[test]
fn format_utc_matches_design_shape() {
    assert_eq!(format_utc(0, 0), "1970-01-01T00:00:00.000Z");
    assert_eq!(format_utc(1_786_910_400, 123), "2026-08-16T20:00:00.123Z");
    // Leap day and year boundary.
    assert_eq!(format_utc(1_709_164_800, 0), "2024-02-29T00:00:00.000Z");
    assert_eq!(format_utc(1_704_067_199, 0), "2023-12-31T23:59:59.000Z");
}

#[test]
fn days_count_from_the_epoch() {
    assert_eq!(civil_from_days(0), (1970, 1, 1));
    assert_eq!(civil_from_days(59), (1970, 3, 1));
    assert_eq!(civil_from_days(11_016), (2000, 2, 29));
    assert_eq!(civil_from_days(11_017), (2000, 3, 1));
}

#[test]
fn a_loss_record_names_the_count_and_the_reason() {
    let line = loss_record(3, LossReason::RingOverflow, 0, 7);
    assert!(line.ends_with('\n'), "{line}");
    let value: Value = serde_json::from_str(line.trim_end()).unwrap();
    assert_eq!(value["timestamp"], "1970-01-01T00:00:00.007Z");
    assert_eq!(value["lost"], 3);
    assert_eq!(value["reason"], "ring_overflow");
}

#[test]
fn nothing_is_settled_while_a_line_is_queued_or_written() {
    let mut router = Router::new();
    assert!(router.settle());
    router.write_record(b"queued\n");
    assert!(!router.settle());
    // A parked writer hands nothing over.
    router.enter_ring();
    assert!(!router.settle(), "still queued");
    // The wait is for what is left of the time, and ends with it.
    assert_eq!(router.settle_within(3, 10), Settling::Wait(7));
    assert_eq!(router.settle_within(10, 10), Settling::TimedOut);
    router.flush_to_normal();
    assert_eq!(
        router.next_write(),
        Next::Write(Item::Line(b"queued\n".to_vec()))
    );
    assert!(!router.settle(), "in flight");
    router.finish_write(true);
    assert!(router.settle());
    assert_eq!(router.settle_within(10, 10), Settling::Settled);
    // Neither does one that is gone.
    router.write_record(b"left behind\n");
    router.writer_gone();
    assert!(!router.settle());
}

#[test]
fn the_queue_is_delivered_in_order_each_entry_once() {
    let mut router = Router::new();
    for line in [b"a\n".as_slice(), b"b\n", b"c\n"] {
        router.write_record(line);
    }
    let mut sink = Vec::new();
    while let Next::Write(Item::Line(line)) = router.next_write() {
        sink.extend(line);
        router.finish_write(true);
    }
    assert_eq!(sink, b"a\nb\nc\n");
    assert!(router.settle());
}
