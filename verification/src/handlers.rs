//! The commands, one module per family.
//!
//! [`SUPPORTED_COMMANDS`] is the list that `guest-info` advertises. It is not
//! used for dispatch: commands are dispatched by a static match.

pub mod fsfreeze;
pub mod fsinfo;
pub mod fstrim;
pub mod info;
pub mod interfaces;
pub mod osinfo;
pub mod ping;
pub mod shutdown;
pub mod suspend;
pub mod sync;

use vstd::prelude::*;
use vstd::string::*;

use crate::json::{to_text, Json};
use crate::json;
use crate::proto::{Error, MAX_RESPONSE_ENVELOPE_BYTES};
use crate::proto;
use crate::text::{decimal_text, same_text};
use crate::text;

verus! {

/// A command as `guest-info` advertises it.
#[derive(Debug, Clone, Copy, PartialEq, Eq)]
pub struct CommandSpec {
    /// The wire name.
    pub name: &'static str,
    /// `false` for `guest-shutdown` and `guest-suspend-ram`, which never send a
    /// success reply (the host watches for the exit or the suspend event
    /// instead); errors are still reported.
    pub success_response: bool,
}

/// Every allowlisted command, each exactly once.
pub const SUPPORTED_COMMANDS: [&'static str; 14] = [
    "guest-ping",
    "guest-info",
    "guest-sync",
    "guest-sync-delimited",
    "guest-get-osinfo",
    "guest-network-get-interfaces",
    "guest-get-fsinfo",
    "guest-fsfreeze-status",
    "guest-fsfreeze-freeze",
    "guest-fsfreeze-freeze-list",
    "guest-fsfreeze-thaw",
    "guest-fstrim",
    "guest-shutdown",
    "guest-suspend-ram",
];

/// The commands that send no success reply.
pub open spec fn is_silent(method: Seq<char>) -> bool {
    method == "guest-shutdown"@ || method == "guest-suspend-ram"@
}

/// Whether a command sends no success reply.
pub fn sends_no_success(method: &str) -> (silent: bool)
    ensures
        silent == is_silent(method@),
{
    same_text(method, "guest-shutdown") || same_text(method, "guest-suspend-ram")
}

/// A command's place in [`SUPPORTED_COMMANDS`].
pub open spec fn supported(name: Seq<char>) -> bool {
    exists|i: int| 0 <= i < SUPPORTED_COMMANDS@.len() && #[trigger] SUPPORTED_COMMANDS@[i]@ == name
}

/// Looks up a command's spec by name.
pub fn spec_of(name: &str) -> (found: Option<CommandSpec>)
    ensures
        found is Some <==> supported(name@),
        found matches Some(it) ==> it.name@ == name@ && it.success_response == !is_silent(name@),
{
    let names = SUPPORTED_COMMANDS;
    for i in 0..14usize
        invariant
            names@ == SUPPORTED_COMMANDS@,
            names@.len() == 14,
            forall|j: int| 0 <= j < i ==> #[trigger] SUPPORTED_COMMANDS@[j]@ != name@,
    {
        if same_text(names[i], name) {
            return Some(
                CommandSpec { name: names[i], success_response: !sends_no_success(name) },
            );
        }
    }
    None
}

/// The length of a reply's line on the wire, at most.
pub open spec fn wire_len(value: nat) -> nat {
    if value + MAX_RESPONSE_ENVELOPE_BYTES <= u64::MAX {
        value + MAX_RESPONSE_ENVELOPE_BYTES as nat
    } else {
        u64::MAX as nat
    }
}

/// The bytes of a JSON value.
pub open spec fn value_bytes(value: json::JsonView) -> Seq<u8> {
    vstd::utf8::encode_utf8(json::json_text(value))
}

/// What is replied in place of a value that is too long.
pub open spec fn over_text(what: Seq<char>, len: nat, bound: nat) -> Seq<char> {
    what + ": the reply would be "@ + text::decimal(wire_len(len)) + " bytes on the wire ("@
        + text::decimal(len) + " of value), over the "@ + text::decimal(bound)
        + " byte bound; not truncated"@
}

/// Refuses an information reply whose line on the wire could exceed `bound`
/// bytes with an explicit error instead of truncating it: a partial list must
/// never be mistaken for the whole. The line is the value plus the envelope
/// that the reply adds, so the value is measured against the bound less the
/// longest envelope.
pub fn bounded_reply(what: &str, value: Json, bound: usize) -> (reply: Result<Json, Error>)
    ensures
        ({
            let len = value_bytes(value@).len();
            match reply {
                Ok(same) => same == value && wire_len(len) <= bound,
                Err(err) => wire_len(len) > bound && err@ == proto::ErrorView::Internal(
                    over_text(what@, len, bound as nat),
                ),
            }
        }),
{
    let text = to_text(&value);
    let len: u64 = text.as_str().as_bytes().len() as u64;
    let line: u64 = len.saturating_add(MAX_RESPONSE_ENVELOPE_BYTES as u64);
    if line > bound as u64 {
        let said = what.to_owned().concat(": the reply would be ").concat(
            decimal_text(line).as_str(),
        ).concat(" bytes on the wire (").concat(decimal_text(len).as_str()).concat(
            " of value), over the ",
        ).concat(decimal_text(bound as u64).as_str()).concat(" byte bound; not truncated");
        return Err(Error::Internal(said));
    }
    Ok(value)
}

/// A value that passed the bound fits with whatever identifier its request
/// carried: the whole line is within the bound.
pub proof fn law_a_bounded_reply_fits_the_bound(
    value: json::JsonView,
    id: Option<i64>,
    bound: nat,
)
    requires
        wire_len(value_bytes(value).len()) <= bound,
        value_bytes(value).len() + MAX_RESPONSE_ENVELOPE_BYTES <= u64::MAX,
    ensures
        crate::framing::encoded(value_bytes(proto::success(value, id)), false).len() <= bound,
{
    proto::law_the_envelope_is_bounded(value, id);
}

/// The list that is advertised is the allowlist, and each command occurs in it
/// once.
pub proof fn law_the_list_is_the_allowlist(name: Seq<char>)
    ensures
        supported(name) <==> crate::dispatch::allowlisted(name),
        forall|i: int, j: int|
            0 <= i < j < SUPPORTED_COMMANDS@.len() ==> #[trigger] SUPPORTED_COMMANDS@[i]@
                != #[trigger] SUPPORTED_COMMANDS@[j]@,
{
    let names = SUPPORTED_COMMANDS@;
    assert(names.len() == 14);
    assert(names[0]@ == "guest-ping"@);
    assert(names[1]@ == "guest-info"@);
    assert(names[2]@ == "guest-sync"@);
    assert(names[3]@ == "guest-sync-delimited"@);
    assert(names[4]@ == "guest-get-osinfo"@);
    assert(names[5]@ == "guest-network-get-interfaces"@);
    assert(names[6]@ == "guest-get-fsinfo"@);
    assert(names[7]@ == "guest-fsfreeze-status"@);
    assert(names[8]@ == "guest-fsfreeze-freeze"@);
    assert(names[9]@ == "guest-fsfreeze-freeze-list"@);
    assert(names[10]@ == "guest-fsfreeze-thaw"@);
    assert(names[11]@ == "guest-fstrim"@);
    assert(names[12]@ == "guest-shutdown"@);
    assert(names[13]@ == "guest-suspend-ram"@);
    reveal_strlit("guest-ping");
    reveal_strlit("guest-info");
    reveal_strlit("guest-sync");
    reveal_strlit("guest-sync-delimited");
    reveal_strlit("guest-get-osinfo");
    reveal_strlit("guest-network-get-interfaces");
    reveal_strlit("guest-get-fsinfo");
    reveal_strlit("guest-fsfreeze-status");
    reveal_strlit("guest-fsfreeze-freeze");
    reveal_strlit("guest-fsfreeze-freeze-list");
    reveal_strlit("guest-fsfreeze-thaw");
    reveal_strlit("guest-fstrim");
    reveal_strlit("guest-shutdown");
    reveal_strlit("guest-suspend-ram");
    assert("guest-ping"@[6] == 'p');
    assert("guest-info"@[6] == 'i');
    assert("guest-sync"@[6] == 's');
    assert("guest-get-osinfo"@[10] == 'o');
    assert("guest-get-fsinfo"@[10] == 'f');
    assert("guest-fsfreeze-status"@[15] == 's');
    assert("guest-fsfreeze-freeze"@[15] == 'f');
    assert forall|i: int, j: int| 0 <= i < j < names.len() implies #[trigger] names[i]@
        != #[trigger] names[j]@ by {
        assert(names[i]@.len() != names[j]@.len() || names[i]@[6] != names[j]@[6] || names[i]@[10]
            != names[j]@[10] || names[i]@[15] != names[j]@[15]);
    }
}

/// Only the two commands that the host does not hear back from are silent.
pub proof fn law_which_commands_are_silent(name: &str, found: Option<CommandSpec>)
    requires
        call_ensures(spec_of, (name,), found),
    ensures
        found matches Some(it) ==> it.name@ == name@ && (it.success_response <==> name@
            != "guest-shutdown"@ && name@ != "guest-suspend-ram"@),
        is_silent(name@) <==> name@ == "guest-shutdown"@ || name@ == "guest-suspend-ram"@,
{
}

/// A reply that leaves room for the longest envelope, 38 bytes, is passed on as
/// it is; a longer one is refused with its length, the line's and the bound,
/// and never cut.
pub proof fn law_a_reply_is_whole_or_refused(
    what: &str,
    value: Json,
    bound: usize,
    reply: Result<Json, Error>,
)
    requires
        call_ensures(bounded_reply, (what, value, bound), reply),
        value_bytes(value@).len() + 38 <= u64::MAX,
    ensures
        value_bytes(value@).len() + 38 <= bound ==> reply == Ok::<Json, Error>(value),
        value_bytes(value@).len() + 38 > bound ==> {
            &&& reply is Err
            &&& reply->Err_0@ == proto::ErrorView::Internal(
                what@ + ": the reply would be "@ + text::decimal(
                    value_bytes(value@).len() + 38nat,
                ) + " bytes on the wire ("@ + text::decimal(value_bytes(value@).len())
                    + " of value), over the "@ + text::decimal(bound as nat)
                    + " byte bound; not truncated"@,
            )
        },
{
}

} // verus!
