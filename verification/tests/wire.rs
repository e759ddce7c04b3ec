//! Replies and the JSON text they are made of.

use qeminga::dispatch::finish;
use qeminga::dispatch::ratelimit::{CommandClass, RateLimited};
use qeminga::framing::{DecodeEvent, FrameDecoder};
use qeminga::json::{list, member, object, string, to_text, write_json, Json};
use qeminga::kernel::{dev_string, KernelError, EBUSY, EINVAL, ENOTTY, EPERM};
use qeminga::marker::{marker_gone, MarkerError};
use qeminga::proto::{Error, ErrorClass, Request, Response, MAX_RESPONSE_ENVELOPE_BYTES};
use serde_json::Value;

#[test]
fn values_are_written_compactly() {
    let value = object(vec![
        member("a", Json::Null),
        member("b", Json::Bool(true)),
        member("c", list(vec![Json::Int(-1), Json::Uint(u64::MAX)])),
        member("d", object(vec![])),
    ]);
    assert_eq!(
        to_text(&value),
        r#"{"a":null,"b":true,"c":[-1,18446744073709551615],"d":{}}"#
    );
    let mut out = "x".to_owned();
    write_json(&mut out, &Json::Int(i64::MIN));
    assert_eq!(out, "x-9223372036854775808");
}

#[test]
fn a_text_is_quoted_whatever_it_holds() {
    let hostile = "a\"b\\c\n\r\t\u{8}\u{c}\u{1}\u{1f}\u{7f}\u{2028}\u{1F512}{\"x\":1}";
    let text = to_text(&string(hostile));
    assert_eq!(
        text,
        "\"a\\\"b\\\\c\\n\\r\\t\\b\\f\\u0001\\u001f\u{7f}\u{2028}\u{1F512}{\\\"x\\\":1}\""
    );
    let back: Value = serde_json::from_str(&text).unwrap();
    assert_eq!(back.as_str(), Some(hostile));
    // A hostile member name stays a name.
    let text = to_text(&object(vec![member("k\"", Json::Int(1))]));
    assert_eq!(text, "{\"k\\\"\":1}");
}

#[test]
fn every_error_has_its_class_and_its_words() {
    let errors = [
        (
            Error::InvalidRequest("not an object".to_owned()),
            ErrorClass::GenericError,
            "not an object",
        ),
        (
            Error::CommandNotFound("guest-exec".to_owned()),
            ErrorClass::CommandNotFound,
            "The command guest-exec has not been found",
        ),
        (
            Error::Disabled("guest-fstrim".to_owned()),
            ErrorClass::CommandNotFound,
            "command guest-fstrim has been disabled",
        ),
        (
            Error::InvalidArguments("unknown field `x`".to_owned()),
            ErrorClass::GenericError,
            "invalid arguments: unknown field `x`",
        ),
        (
            Error::rate_limited(RateLimited {
                class: CommandClass::Fstrim,
            }),
            ErrorClass::GenericError,
            "rate limit exceeded for fstrim",
        ),
        (
            Error::Frozen,
            ErrorClass::GenericError,
            "filesystems are frozen; retry after thaw",
        ),
        (
            Error::Internal("EIO".to_owned()),
            ErrorClass::GenericError,
            "EIO",
        ),
    ];
    for (err, class, text) in errors {
        assert_eq!(err.class(), class, "{err:?}");
        assert_eq!(err.message(), text);
        let line = String::from_utf8(Response::error(Some(3), &err).to_json()).unwrap();
        let value: Value = serde_json::from_str(&line).unwrap();
        assert_eq!(value["error"]["class"], class.as_str());
        assert_eq!(value["error"]["desc"], text);
        assert_eq!(value["id"], 3);
    }
}

#[test]
fn replies_carry_the_id_when_the_request_did() {
    let reply = |id: Option<i64>, result: Result<Json, Error>| {
        String::from_utf8(Response::from_result(id, result).to_json()).unwrap()
    };
    assert_eq!(reply(None, Ok(Json::Int(1))), r#"{"return":1}"#);
    assert_eq!(reply(Some(-7), Ok(Json::Null)), r#"{"return":null,"id":-7}"#);
    assert_eq!(
        reply(None, Err(Error::Frozen)),
        r#"{"error":{"class":"GenericError","desc":"filesystems are frozen; retry after thaw"}}"#
    );
}

#[test]
fn a_reply_is_one_frame_whatever_it_says() {
    let request = Request {
        method: "guest-get-osinfo".to_owned(),
        id: Some(1),
    };
    let bytes = finish(&request, Err(Error::Internal("line\nbreak".to_owned()))).unwrap();
    let events = FrameDecoder::new().push(&bytes);
    assert_eq!(
        events,
        vec![DecodeEvent::Frame {
            bytes: bytes[..bytes.len() - 1].to_vec(),
            sentinel: false,
        }]
    );
}

#[test]
fn the_longest_envelope_is_as_long_as_stated() {
    let bare = to_text(&Json::Null).len();
    let line = Response::from_result(Some(i64::MIN), Ok(Json::Null)).to_json();
    // The newline is part of the envelope.
    assert_eq!(line.len() + 1 - bare, MAX_RESPONSE_ENVELOPE_BYTES);
}

#[test]
fn kernel_errors_say_what_they_mean() {
    let errno = |n: i32| KernelError::Errno(n);
    assert!(errno(EBUSY).message().starts_with("EBUSY"));
    assert!(errno(EBUSY).is_busy());
    assert!(errno(EINVAL).is_invalid());
    assert!(errno(ENOTTY).is_not_supported());
    assert!(errno(EPERM).is_permission());
    assert!(errno(EPERM).is_ioctl_answer());
    // The same numbers from before the ioctl answer nothing.
    let open = |n: i32| KernelError::Open(n);
    assert_eq!(
        open(EBUSY).message(),
        format!("cannot open mountpoint: {}", errno(EBUSY).message())
    );
    assert!(!open(EBUSY).is_busy());
    assert!(!open(EINVAL).is_invalid());
    assert!(!open(ENOTTY).is_not_supported());
    assert!(!open(EPERM).is_permission());
    assert!(!open(EPERM).is_ioctl_answer());
    let elsewhere = KernelError::WrongFilesystem {
        expected: (8, 2),
        found: (8, 9),
    };
    assert_eq!(
        elsewhere.message(),
        "mountpoint is on 8:9, not on the planned 8:2"
    );
    assert!(!elsewhere.is_ioctl_answer());
    assert_eq!(dev_string((253, 0)), "253:0");
}

#[test]
fn a_marker_that_is_absent_is_gone() {
    let path = || b"/run/qeminga/fro\xffzen".to_vec();
    assert_eq!(marker_gone(Ok(())), Ok(()));
    assert_eq!(marker_gone(Err(MarkerError::Absent { path: path() })), Ok(()));
    let stuck = marker_gone(Err(MarkerError::Io {
        path: path(),
        source: "EROFS".to_owned(),
    }))
    .unwrap_err();
    assert_eq!(stuck.message(), "marker /run/qeminga/fro\u{fffd}zen: EROFS");
    let invalid = MarkerError::InvalidPath { path: path() };
    assert!(invalid.message().contains("invalid marker path"));
    assert!(marker_gone(Err(invalid)).is_err());
}
