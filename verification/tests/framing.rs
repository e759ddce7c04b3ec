use qeminga::framing::{encode, DecodeEvent, FrameDecoder, MAX_FRAME_LEN};

fn frame(bytes: &[u8], sentinel: bool) -> DecodeEvent {
    DecodeEvent::Frame {
        bytes: bytes.to_vec(),
        sentinel,
    }
}

#[test]
fn single_frame_is_emitted_without_delimiter() {
    let mut d = FrameDecoder::new();
    assert_eq!(d.push(b"{}\n"), vec![frame(b"{}", false)]);
    assert_eq!(d.buffered_len(), 0);
}

#[test]
fn partial_frame_is_held_until_newline() {
    let mut d = FrameDecoder::new();
    assert_eq!(d.push(b"{\"exe"), vec![]);
    assert_eq!(d.buffered_len(), 5);
    assert_eq!(
        d.push(b"cute\":1}\n"),
        vec![frame(b"{\"execute\":1}", false)]
    );
}

#[test]
fn multiple_frames_in_one_push() {
    let mut d = FrameDecoder::new();
    assert_eq!(
        d.push(b"{\"a\":1}\n{\"b\":2}\n{\"c\""),
        vec![frame(b"{\"a\":1}", false), frame(b"{\"b\":2}", false)]
    );
    assert_eq!(d.push(b":3}\n"), vec![frame(b"{\"c\":3}", false)]);
}

#[test]
fn empty_and_whitespace_only_frames_are_skipped() {
    let mut d = FrameDecoder::new();
    assert_eq!(d.push(b"\n\n  \t\r\n{}\n \n"), vec![frame(b"{}", false)]);
}

#[test]
fn oversized_frame_enters_discard_until_newline() {
    let mut d = FrameDecoder::new();
    let blob = vec![b'x'; MAX_FRAME_LEN + 1];
    assert_eq!(d.push(&blob), vec![]);
    assert!(d.is_discarding());
    assert_eq!(d.buffered_len(), 0);
    // The tail of the blob is never emitted; the next valid frame is.
    let mut tail = b"tail-of-blob".to_vec();
    tail.extend_from_slice(b"\n{}\n");
    assert_eq!(
        d.push(&tail),
        vec![
            DecodeEvent::Oversized {
                discarded: MAX_FRAME_LEN + 1 + b"tail-of-blob".len()
            },
            frame(b"{}", false)
        ]
    );
    assert!(!d.is_discarding());
}

#[test]
fn oversized_is_reported_once_even_across_many_chunks() {
    let mut d = FrameDecoder::new();
    let mut events = Vec::new();
    for _ in 0..10 {
        events.extend(d.push(&vec![b'y'; 10_000]));
    }
    events.extend(d.push(b"\n"));
    assert_eq!(events, vec![DecodeEvent::Oversized { discarded: 100_000 }]);
}

#[test]
fn exactly_max_len_frame_is_accepted() {
    let mut d = FrameDecoder::new();
    let mut exact = vec![b'a'; MAX_FRAME_LEN];
    exact.push(b'\n');
    let events = d.push(&exact);
    assert_eq!(events.len(), 1);
    assert!(
        matches!(&events[0], DecodeEvent::Frame { bytes, sentinel: false } if bytes.len() == MAX_FRAME_LEN)
    );

    let mut d = FrameDecoder::new();
    let mut over = vec![b'a'; MAX_FRAME_LEN + 1];
    over.push(b'\n');
    assert_eq!(
        d.push(&over),
        vec![DecodeEvent::Oversized {
            discarded: MAX_FRAME_LEN + 1
        }]
    );
}

#[test]
fn sentinel_discards_buffered_bytes_and_flags_next_frame() {
    let mut d = FrameDecoder::new();
    assert_eq!(
        d.push(b"garbage\xFF{\"a\":1}\n"),
        vec![frame(b"{\"a\":1}", true)]
    );
    // The flag is consumed by that frame only.
    assert_eq!(d.push(b"{}\n"), vec![frame(b"{}", false)]);
}

#[test]
fn sentinel_flag_survives_skipped_empty_frames() {
    let mut d = FrameDecoder::new();
    assert_eq!(d.push(b"\xFF\n\n{}\n"), vec![frame(b"{}", true)]);
}

#[test]
fn sentinel_exits_discard_state() {
    let mut d = FrameDecoder::new();
    let blob = vec![b'x'; MAX_FRAME_LEN + 100];
    assert_eq!(d.push(&blob), vec![]);
    assert!(d.is_discarding());
    // No newline before the sentinel: the frame is still delivered.
    assert_eq!(
        d.push(b"\xFF{\"execute\":\"guest-sync-delimited\"}\n"),
        vec![
            DecodeEvent::Oversized {
                discarded: MAX_FRAME_LEN + 100
            },
            frame(b"{\"execute\":\"guest-sync-delimited\"}", true)
        ]
    );
    assert!(!d.is_discarding());
}

#[test]
fn reset_drops_partial_frame() {
    let mut d = FrameDecoder::new();
    assert_eq!(d.push(b"{\"partial"), vec![]);
    d.reset();
    assert_eq!(d.buffered_len(), 0);
    assert_eq!(d.push(b"{}\n"), vec![frame(b"{}", false)]);

    // Reset also leaves discard mode and clears a pending sentinel.
    d.push(&vec![b'z'; MAX_FRAME_LEN + 1]);
    d.push(b"\xFF");
    d.reset();
    assert!(!d.is_discarding());
    assert_eq!(d.push(b"{}\n"), vec![frame(b"{}", false)]);
}

#[test]
fn encode_appends_newline() {
    assert_eq!(encode(br#"{"return":{}}"#, false), b"{\"return\":{}}\n");
}

#[test]
fn encode_with_sentinel_prefixes_0xff() {
    let out = encode(br#"{"return":1}"#, true);
    assert_eq!(out[0], 0xFF);
    assert_eq!(&out[1..], b"{\"return\":1}\n");
}

#[test]
fn chunking_is_transparent() {
    let input = b"ab\n\xFFcd\n\n  \n{}\xFF{\"x\":1}\nrest";
    let whole = FrameDecoder::new().push(input);
    for size in 1..input.len() {
        let mut d = FrameDecoder::new();
        let mut events = Vec::new();
        for chunk in input.chunks(size) {
            events.extend(d.push(chunk));
        }
        assert_eq!(events, whole, "{size}");
        assert_eq!(d.buffered_len(), 4);
    }
}

#[test]
fn what_is_encoded_is_decoded() {
    for sentinel in [false, true] {
        let line = encode(b"{\"return\":{}}", sentinel);
        assert_eq!(
            FrameDecoder::new().push(&line),
            vec![frame(b"{\"return\":{}}", sentinel)]
        );
    }
}

#[test]
fn a_blank_frame_decodes_to_nothing_and_leaves_its_flag() {
    let mut decoder = FrameDecoder::new();
    assert!(decoder.push(&encode(b" \t", true)).is_empty());
    assert_eq!(decoder.buffered_len(), 0);
    assert_eq!(
        decoder.push(&encode(b"{}", false)),
        vec![DecodeEvent::Frame {
            bytes: b"{}".to_vec(),
            sentinel: true,
        }]
    );
}
