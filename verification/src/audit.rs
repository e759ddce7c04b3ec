//! Audit records, method projection, and the freeze-safe log ring.
//!
//! Every received command produces exactly one [`AuditRecord`]. Each formatted
//! record is handed to a [`router::Router`], which either queues it for a
//! dedicated writer thread or, while filesystems are frozen, keeps it in a
//! byte-bounded in-memory [`ring::LineRing`] so no descriptor that might reach
//! a frozen filesystem is written until thaw.
//!
//! Attacker-controlled method names are projected by [`project_method`] to at
//! most [`MAX_METHOD_BYTES`] UTF-8 bytes at a character boundary before they
//! reach a record; longer names are recorded as a prefix, their byte length,
//! and a SHA-256 digest.

pub mod calendar;
pub mod ring;
pub mod router;

use vstd::prelude::*;
use vstd::string::*;

use crate::json;
use crate::json::{member, object, string, Json, Member};

pub use calendar::{civil_from_days, format_utc};
pub use ring::LineRing;
pub use router::{
    Item, LossReason, Mode, Next, Router, Settling, RING_CAPACITY, SINK_QUEUE_CAPACITY,
};

verus! {

/// Maximum number of method-name bytes recorded verbatim.
pub const MAX_METHOD_BYTES: usize = 64;

/// The `event` value of a per-command audit record.
pub const EVENT_COMMAND_RECEIVED: &'static str = "command_received";

/// The `event` value of the record that reports lost records.
pub const EVENT_AUDIT_RECORDS_LOST: &'static str = "audit_records_lost";

/// Target of every audit record. It is kept at INFO whatever the log level
/// says, so audit records are never filtered out with the diagnostics.
pub const AUDIT_TARGET: &'static str = "qeminga::audit";

/// How long the last router handle waits, when dropped, for the writer thread
/// to deliver what is queued, in seconds.
pub const SHUTDOWN_GRACE_SECS: u64 = 5;

/// How long a path that is about to leave the process waits for the writer
/// thread to deliver what is queued, in seconds.
pub const DELIVERY_GRACE_SECS: u64 = 2;

/// A method name as it appears in an audit record.
#[derive(Debug, Clone, PartialEq, Eq)]
pub enum MethodField {
    /// The method was at most [`MAX_METHOD_BYTES`] long and is recorded
    /// verbatim.
    Full(String),
    /// The method was longer; only a bounded prefix, the original length, and
    /// a digest are recorded.
    Projected {
        /// Longest prefix of at most [`MAX_METHOD_BYTES`] bytes that ends on a
        /// character boundary.
        method_prefix: String,
        /// Length of the original method in bytes.
        method_len_bytes: usize,
        /// Lowercase hex SHA-256 of the original method bytes.
        method_digest: String,
    },
}

/// A method field as a mathematical value.
pub ghost enum MethodView {
    Full(Seq<char>),
    Projected { prefix: Seq<char>, len: nat, digest: Seq<char> },
}

impl View for MethodField {
    type V = MethodView;

    open spec fn view(&self) -> MethodView {
        match self {
            MethodField::Full(method) => MethodView::Full(method@),
            MethodField::Projected { method_prefix, method_len_bytes, method_digest } => {
                MethodView::Projected {
                    prefix: method_prefix@,
                    len: *method_len_bytes as nat,
                    digest: method_digest@,
                }
            },
        }
    }
}

/// The SHA-256 digest of some bytes.
pub uninterp spec fn sha256(bytes: Seq<u8>) -> Seq<u8>;

/// `sha2::Sha256::digest`: the SHA-256 digest of some bytes, 32 bytes long.
/// How the digest comes about is left unsaid.
#[verifier::external_body]
fn sha256_of(bytes: &[u8]) -> (digest: Vec<u8>)
    ensures
        digest@ == sha256(bytes@),
        digest@.len() == 32,
{
    <sha2::Sha256 as sha2::Digest>::digest(bytes).to_vec()
}

/// Bytes in lowercase hexadecimal, two digits each.
pub open spec fn hex(bytes: Seq<u8>) -> Seq<char> {
    Seq::new(
        2 * bytes.len(),
        |i: int|
            json::hex_digit(
                if i % 2 == 0 {
                    (bytes[i / 2] / 16) as nat
                } else {
                    (bytes[i / 2] % 16) as nat
                },
            ),
    )
}

/// The largest character boundary of `bytes` at or below `at`.
pub open spec fn boundary_at_or_below(bytes: Seq<u8>, at: int) -> int
    decreases at,
{
    if at <= 0 || vstd::utf8::is_char_boundary(bytes, at) {
        at
    } else {
        boundary_at_or_below(bytes, at - 1)
    }
}

/// The field of a method whose bytes have the digest `digest`.
pub open spec fn projected(method: Seq<char>, digest: Seq<u8>) -> MethodView {
    let bytes = vstd::utf8::encode_utf8(method);
    if bytes.len() <= MAX_METHOD_BYTES {
        MethodView::Full(method)
    } else {
        let cut = boundary_at_or_below(bytes, MAX_METHOD_BYTES as int);
        MethodView::Projected {
            prefix: vstd::utf8::decode_utf8(bytes.take(cut)),
            len: bytes.len(),
            digest: hex(digest),
        }
    }
}

/// One hexadecimal digit in lower case.
fn hex_digit_char(d: u8) -> (c: char)
    requires
        d < 16,
    ensures
        c == json::hex_digit(d as nat),
{
    if d < 10 {
        (48u8 + d) as char
    } else {
        (87u8 + d) as char
    }
}

/// Bytes in lowercase hexadecimal.
pub fn hex_text(bytes: &[u8]) -> (out: String)
    ensures
        out@ == hex(bytes@),
{
    let mut out = String::new();
    for i in 0..bytes.len()
        invariant
            out@ == hex(bytes@.take(i as int)),
    {
        out.push(hex_digit_char(bytes[i] / 16));
        out.push(hex_digit_char(bytes[i] % 16));
        proof {
            assert(out@ =~= hex(bytes@.take(i + 1)));
        }
    }
    proof {
        assert(bytes@.take(bytes@.len() as int) =~= bytes@);
    }
    out
}

/// Projects a method name to a bounded field, given the SHA-256 digest of its
/// bytes.
pub fn project_with_digest(method: &str, digest: &[u8]) -> (field: MethodField)
    ensures
        field@ == projected(method@, digest@),
{
    let bytes = method.as_bytes();
    if bytes.len() <= MAX_METHOD_BYTES {
        return MethodField::Full(method.to_owned());
    }
    let mut cut: usize = MAX_METHOD_BYTES;
    proof {
        vstd::utf8::encode_utf8_valid_utf8(method@);
        vstd::utf8::is_char_boundary_start_end_of_seq(method.spec_bytes());
    }
    while !method.is_char_boundary(cut)
        invariant
            cut <= MAX_METHOD_BYTES,
            method.spec_bytes().len() > MAX_METHOD_BYTES,
            vstd::utf8::is_char_boundary(method.spec_bytes(), 0),
            boundary_at_or_below(method.spec_bytes(), MAX_METHOD_BYTES as int)
                == boundary_at_or_below(method.spec_bytes(), cut as int),
        decreases cut,
    {
        cut = cut - 1;
    }
    let (prefix, _) = method.split_at(cut);
    proof {
        vstd::utf8::encode_utf8_decode_utf8(prefix@);
        assert(method.spec_bytes().subrange(0, cut as int) =~= method.spec_bytes().take(
            cut as int,
        ));
    }
    MethodField::Projected {
        method_prefix: prefix.to_owned(),
        method_len_bytes: bytes.len(),
        method_digest: hex_text(digest),
    }
}

/// Projects an attacker-controlled method name to a bounded field.
pub fn project_method(method: &str) -> (field: MethodField)
    ensures
        field@ == projected(method@, sha256(vstd::utf8::encode_utf8(method@))),
{
    if method.as_bytes().len() <= MAX_METHOD_BYTES {
        return MethodField::Full(method.to_owned());
    }
    let digest = sha256_of(method.as_bytes());
    project_with_digest(method, digest.as_slice())
}

/// Whether a command was accepted for execution or rejected by a gate.
#[derive(Debug, Clone, Copy, PartialEq, Eq, Structural)]
pub enum Disposition {
    /// The command passed every gate and was handed to its handler.
    Allowed,
    /// The command was rejected before reaching a handler.
    Denied,
}

impl Disposition {
    /// Lowercase wire spelling.
    pub open spec fn text(self) -> Seq<char> {
        match self {
            Disposition::Allowed => "allowed"@,
            Disposition::Denied => "denied"@,
        }
    }

    /// Lowercase wire spelling.
    pub fn as_str(self) -> (spelling: &'static str)
        ensures
            spelling@ == self.text(),
    {
        match self {
            Disposition::Allowed => "allowed",
            Disposition::Denied => "denied",
        }
    }
}

/// One per-command audit record.
#[derive(Debug, Clone, PartialEq, Eq)]
pub struct AuditRecord {
    /// The (projected) method name.
    pub method: MethodField,
    /// The request id, if the request carried one.
    pub id: Option<i64>,
    /// Allowed or denied.
    pub disposition: Disposition,
    /// Why the command was denied; `None` for allowed commands.
    pub reason: Option<&'static str>,
    /// Freeze state when the command arrived (lowercase).
    pub freeze_state_before: &'static str,
}

/// An audit record as a mathematical value.
pub ghost struct RecordView {
    pub method: MethodView,
    pub id: Option<i64>,
    pub disposition: Disposition,
    pub reason: Option<Seq<char>>,
    pub freeze_state_before: Seq<char>,
}

impl View for AuditRecord {
    type V = RecordView;

    open spec fn view(&self) -> RecordView {
        RecordView {
            method: self.method@,
            id: self.id,
            disposition: self.disposition,
            reason: match self.reason {
                Some(reason) => Some(reason@),
                None => None,
            },
            freeze_state_before: self.freeze_state_before@,
        }
    }
}

impl AuditRecord {
    /// Whether the record is logged at `WARN`: denied commands are, allowed
    /// ones are logged at `INFO`.
    pub fn is_warning(&self) -> (warning: bool)
        ensures
            warning == (self@.disposition == Disposition::Denied),
    {
        match self.disposition {
            Disposition::Allowed => false,
            Disposition::Denied => true,
        }
    }
}

/// The loss record as a JSON value.
pub open spec fn loss_json(
    timestamp: Seq<char>,
    lost: u64,
    reason: LossReason,
) -> json::JsonView {
    json::JsonView::Object(
        seq![
            json::MemberView {
                name: "event"@,
                value: json::JsonView::Text(EVENT_AUDIT_RECORDS_LOST@),
            },
            json::MemberView { name: "level"@, value: json::JsonView::Text("WARN"@) },
            json::MemberView { name: "lost"@, value: json::JsonView::Int(lost as int) },
            json::MemberView { name: "reason"@, value: json::JsonView::Text(reason.text()) },
            json::MemberView { name: "timestamp"@, value: json::JsonView::Text(timestamp) },
        ],
    )
}

/// Builds the JSON line reporting `lost` dropped records at the moment given
/// as [`format_utc`] takes it.
pub fn loss_record(lost: u64, reason: LossReason, secs: u64, millis: u32) -> (line: String)
    ensures
        line@ == json::json_text(
            loss_json(calendar::timestamp(secs as nat, millis as nat), lost, reason),
        ).push('\n'),
{
    let mut members: Vec<Member> = Vec::new();
    members.push(member("event", string(EVENT_AUDIT_RECORDS_LOST)));
    members.push(member("level", string("WARN")));
    members.push(member("lost", Json::Uint(lost)));
    members.push(member("reason", string(reason.as_str())));
    members.push(member("timestamp", Json::Text(format_utc(secs, millis))));
    let ghost stated = loss_json(calendar::timestamp(secs as nat, millis as nat), lost, reason);
    proof {
        assert(json::members_view(members@) =~= stated->Object_0);
    }
    let record = object(members);
    let mut line = json::to_text(&record);
    line.push('\n');
    line
}

/// Whatever the method is called, what is recorded of its name is bounded:
/// verbatim or in a prefix, at most [`MAX_METHOD_BYTES`] bytes of it.
pub proof fn law_recorded_name_is_bounded(method: Seq<char>, digest: Seq<u8>)
    ensures
        match projected(method, digest) {
            MethodView::Full(name) => name == method && vstd::utf8::encode_utf8(name).len()
                <= MAX_METHOD_BYTES,
            MethodView::Projected { prefix, len, digest: shown } => {
                &&& vstd::utf8::encode_utf8(prefix).len() <= MAX_METHOD_BYTES
                &&& vstd::utf8::encode_utf8(prefix).is_prefix_of(vstd::utf8::encode_utf8(method))
                &&& len == vstd::utf8::encode_utf8(method).len()
                &&& shown.len() == 2 * digest.len()
            },
        },
{
    let bytes = vstd::utf8::encode_utf8(method);
    if bytes.len() > MAX_METHOD_BYTES {
        vstd::utf8::encode_utf8_valid_utf8(method);
        vstd::utf8::is_char_boundary_start_end_of_seq(bytes);
        lemma_boundary(bytes, MAX_METHOD_BYTES as int);
        let cut = boundary_at_or_below(bytes, MAX_METHOD_BYTES as int);
        vstd::utf8::valid_utf8_split(bytes, cut);
        assert(bytes.subrange(0, cut) =~= bytes.take(cut));
        vstd::utf8::decode_utf8_encode_utf8(bytes.take(cut));
        assert(bytes.take(cut) =~= bytes.subrange(0, bytes.take(cut).len() as int));
    }
}

proof fn lemma_boundary(bytes: Seq<u8>, at: int)
    requires
        0 <= at,
        vstd::utf8::is_char_boundary(bytes, 0),
    ensures
        0 <= boundary_at_or_below(bytes, at) <= at,
        vstd::utf8::is_char_boundary(bytes, boundary_at_or_below(bytes, at)),
    decreases at,
{
    if at > 0 {
        lemma_boundary(bytes, at - 1);
    }
}

/// What a hexadecimal digit in lower case is worth.
pub open spec fn digit_worth(c: char) -> int {
    if '0' <= c <= '9' {
        c as int - '0' as int
    } else {
        c as int - 'a' as int + 10
    }
}

/// Bytes in hexadecimal read back as the bytes: two digits of lower case each,
/// the higher first.
pub proof fn law_hexadecimal_reads_back(bytes: Seq<u8>)
    ensures
        hex(bytes).len() == 2 * bytes.len(),
        forall|i: int|
            0 <= i < hex(bytes).len() ==> '0' <= (#[trigger] hex(bytes)[i]) <= '9' || 'a' <= hex(
                bytes,
            )[i] <= 'f',
        forall|i: int|
            0 <= i < bytes.len() ==> 16 * digit_worth(hex(bytes)[2 * i]) + digit_worth(
                hex(bytes)[2 * i + 1],
            ) == #[trigger] bytes[i],
{
    assert forall|i: int| 0 <= i < bytes.len() implies 16 * digit_worth(hex(bytes)[2 * i])
        + digit_worth(hex(bytes)[2 * i + 1]) == #[trigger] bytes[i] by {
        assert((2 * i) / 2 == i);
        assert((2 * i + 1) / 2 == i);
    }
}

/// A name of up to 64 bytes is recorded as it is. Of a longer one the record
/// holds a beginning of up to 64 bytes that could not be longer and still end
/// between two characters, the number of its bytes, and its digest in
/// hexadecimal.
pub proof fn law_how_a_name_is_recorded(method: Seq<char>, digest: Seq<u8>)
    ensures
        ({
            let bytes = vstd::utf8::encode_utf8(method);
            let field = projected(method, digest);
            &&& bytes.len() <= 64 ==> field == MethodView::Full(method)
            &&& bytes.len() > 64 ==> {
                &&& field is Projected
                &&& field->len == bytes.len()
                &&& field->digest == hex(digest)
                &&& vstd::utf8::encode_utf8(field->prefix).len() <= 64
                &&& vstd::utf8::encode_utf8(field->prefix) == bytes.take(
                    vstd::utf8::encode_utf8(field->prefix).len() as int,
                )
                &&& forall|k: int|
                    vstd::utf8::encode_utf8(field->prefix).len() < k <= 64
                        ==> !#[trigger] vstd::utf8::is_char_boundary(bytes, k)
            }
        }),
{
    let bytes = vstd::utf8::encode_utf8(method);
    if bytes.len() > 64 {
        vstd::utf8::encode_utf8_valid_utf8(method);
        vstd::utf8::is_char_boundary_start_end_of_seq(bytes);
        lemma_boundary(bytes, 64);
        lemma_no_boundary_between(bytes, 64);
        let cut = boundary_at_or_below(bytes, 64);
        vstd::utf8::valid_utf8_split(bytes, cut);
        assert(bytes.subrange(0, cut) =~= bytes.take(cut));
        vstd::utf8::decode_utf8_encode_utf8(bytes.take(cut));
    }
}

proof fn lemma_no_boundary_between(bytes: Seq<u8>, at: int)
    requires
        0 <= at,
    ensures
        forall|k: int|
            boundary_at_or_below(bytes, at) < k <= at ==> !#[trigger] vstd::utf8::is_char_boundary(
                bytes,
                k,
            ),
    decreases at,
{
    if at > 0 && !vstd::utf8::is_char_boundary(bytes, at) {
        lemma_no_boundary_between(bytes, at - 1);
    }
}

/// A record of a command is a warning if and only if the command was denied;
/// the two dispositions are spelled in lower case.
pub proof fn law_a_denial_is_a_warning(record: AuditRecord, warning: bool)
    requires
        call_ensures(AuditRecord::is_warning, (&record,), warning),
    ensures
        record.disposition == Disposition::Denied ==> warning,
        record.disposition == Disposition::Allowed ==> !warning,
        Disposition::Allowed.text() == "allowed"@,
        Disposition::Denied.text() == "denied"@,
{
}

/// The record of a loss says what it is, that it is a warning, how many records
/// were lost, why, and when, each under its name, and nothing else.
pub proof fn law_a_loss_record_says_its_fields(
    timestamp: Seq<char>,
    lost: u64,
    reason: LossReason,
    name: Seq<char>,
    value: json::JsonView,
)
    ensures
        loss_json(timestamp, lost, reason) is Object,
        json::says(loss_json(timestamp, lost, reason)->Object_0, name, value) <==> {
            ||| name == "event"@ && value == json::JsonView::Text("audit_records_lost"@)
            ||| name == "level"@ && value == json::JsonView::Text("WARN"@)
            ||| name == "lost"@ && value == json::JsonView::Int(lost as int)
            ||| name == "reason"@ && value == json::JsonView::Text(reason.text())
            ||| name == "timestamp"@ && value == json::JsonView::Text(timestamp)
        },
{
    let members = loss_json(timestamp, lost, reason)->Object_0;
    assert(members[0].name == "event"@);
    assert(members[1].name == "level"@);
    assert(members[2].name == "lost"@);
    assert(members[3].name == "reason"@);
    assert(members[4].name == "timestamp"@);
}

} // verus!
