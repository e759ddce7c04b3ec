//! `guest-suspend-ram`: opt-in suspend to RAM.
//!
//! It is checked that the kernel lists `mem` among its sleep states, and then
//! `mem` is written. A successful suspend sends no reply: the host learns of it
//! from the suspend event. Errors are reported.

use vstd::prelude::*;
use vstd::string::*;

use crate::handlers::ping;
use crate::json::Json;
use crate::json;
use crate::proto::Error;
use crate::proto;
use crate::text::chars_of;

verus! {

/// The file of the sleep states.
pub const POWER_STATE_PATH: &'static str = "/sys/power/state";

/// The state written for suspend to RAM.
pub const MEM: &'static str = "mem";

/// ASCII white space.
pub open spec fn ascii_white(c: char) -> bool {
    c == ' ' || c == '\t' || c == '\n' || c as u32 == 0x0C || c == '\r'
}

fn is_ascii_white(c: char) -> (yes: bool)
    ensures
        yes == ascii_white(c),
{
    c == ' ' || c == '\t' || c == '\n' || c as u32 == 0x0C || c == '\r'
}

/// `mem` stands at `at`, between white space or the ends.
pub open spec fn mem_at(states: Seq<char>, at: int) -> bool {
    &&& 0 <= at
    &&& at + 3 <= states.len()
    &&& states[at] == 'm' && states[at + 1] == 'e' && states[at + 2] == 'm'
    &&& at == 0 || ascii_white(states[at - 1])
    &&& at + 3 == states.len() || ascii_white(states[at + 3])
}

/// `true` when `states` (the file contents) lists `mem`.
pub fn supports_mem(states: &str) -> (yes: bool)
    ensures
        yes == exists|at: int| mem_at(states@, at),
{
    let chars = chars_of(states);
    let mut at: usize = 0;
    while at < chars.len()
        invariant
            chars@ == states@,
            at <= chars@.len(),
            forall|j: int| 0 <= j < at ==> !mem_at(states@, j),
        decreases chars.len() - at,
    {
        let left: usize = chars.len() - at;
        if left >= 3 && chars[at] == 'm' && chars[at + 1] == 'e' && chars[at + 2] == 'm' && (at
            == 0 || is_ascii_white(chars[at - 1])) && (left == 3 || is_ascii_white(
            chars[at + 3],
        )) {
            proof {
                assert(mem_at(states@, at as int));
            }
            return true;
        }
        at = at + 1;
    }
    false
}

/// The file could not be read.
pub fn cannot_read(err: &str) -> (error: Error)
    ensures
        error@ == proto::ErrorView::Internal("cannot read /sys/power/state: "@ + err@),
{
    Error::Internal("cannot read /sys/power/state: ".to_owned().concat(err))
}

/// The file could not be written.
pub fn cannot_write(err: &str) -> (error: Error)
    ensures
        error@ == proto::ErrorView::Internal("cannot write /sys/power/state: "@ + err@),
{
    Error::Internal("cannot write /sys/power/state: ".to_owned().concat(err))
}

/// Whether `mem` is to be written, given the states that the kernel lists.
pub fn may_enter(states: Result<String, Error>) -> (go: Result<(), Error>)
    ensures
        match states {
            Err(err) => go == Err::<(), Error>(err),
            Ok(text) => if exists|at: int| mem_at(text@, at) {
                go is Ok
            } else {
                go matches Err(err) && err@ == proto::ErrorView::Internal(
                    "suspend to RAM is not supported by this kernel"@,
                )
            },
        },
{
    match states {
        Err(err) => Err(err),
        Ok(text) => {
            if supports_mem(text.as_str()) {
                Ok(())
            } else {
                Err(Error::Internal("suspend to RAM is not supported by this kernel".to_owned()))
            }
        },
    }
}

/// `guest-suspend-ram`: the result of the command, from the last step's.
pub fn handle(entered: Result<(), Error>) -> (reply: Result<Json, Error>)
    ensures
        match entered {
            Ok(()) => reply matches Ok(value) && value@ == json::JsonView::Object(Seq::empty()),
            Err(err) => reply == Err::<Json, Error>(err),
        },
{
    match entered {
        Ok(()) => Ok(ping::handle()),
        Err(err) => Err(err),
    }
}

/// Suspend to RAM is there when `mem` is one of the words that the kernel
/// lists, wherever it stands among them, and only then: before it and behind it
/// stands a space, a tab, a line feed, a form feed or a carriage return, or
/// nothing.
pub proof fn law_mem_is_found_among_the_states(
    states: Seq<char>,
    before: Seq<char>,
    after: Seq<char>,
)
    requires
        states == before + seq!['m', 'e', 'm'] + after,
    ensures
        mem_at(states, before.len() as int) <==> {
            &&& before.len() == 0 || before.last() == ' ' || before.last() == '\t'
                || before.last() == '\n' || before.last() as u32 == 0x0C || before.last() == '\r'
            &&& after.len() == 0 || after[0] == ' ' || after[0] == '\t' || after[0] == '\n'
                || after[0] as u32 == 0x0C || after[0] == '\r'
        },
        forall|at: int|
            mem_at(states, at) ==> 0 <= at <= states.len() - 3 && states.subrange(at, at + 3)
                == seq!['m', 'e', 'm'],
{
    let at = before.len() as int;
    if at > 0 {
        assert(states[at - 1] == before.last());
    }
    if after.len() > 0 {
        assert(states[at + 3] == after[0]);
    }
    assert(states[at] == 'm' && states[at + 1] == 'e' && states[at + 2] == 'm');
    assert forall|at: int| mem_at(states, at) implies states.subrange(at, at + 3) == seq![
        'm',
        'e',
        'm',
    ] by {
        assert(states.subrange(at, at + 3) =~= seq!['m', 'e', 'm']);
    }
}

/// A suspend that was not entered is told why, and one that was is replied to
/// with an empty object.
pub proof fn law_what_a_suspend_replies(
    entered: Result<(), Error>,
    reply: Result<Json, Error>,
    why: &str,
    unread: Error,
    unwritten: Error,
)
    requires
        call_ensures(handle, (entered,), reply),
        call_ensures(cannot_read, (why,), unread),
        call_ensures(cannot_write, (why,), unwritten),
    ensures
        entered is Ok ==> reply is Ok && reply->Ok_0@ == json::JsonView::Object(Seq::empty()),
        entered matches Err(err) ==> reply == Err::<Json, Error>(err),
        unread@ == proto::ErrorView::Internal("cannot read /sys/power/state: "@ + why@),
        unwritten@ == proto::ErrorView::Internal("cannot write /sys/power/state: "@ + why@),
{
}

} // verus!
