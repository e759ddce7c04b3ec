//! `guest-shutdown`.
//!
//! `mode` is `"halt"`, `"powerdown"` or `"reboot"`, by default `"powerdown"`.
//! The filesystems are synced and then the kernel is told to stop. On success
//! it never returns, and no success reply is sent anyway; errors are reported.
//!
//! These are hard shutdown semantics: no service is stopped and no filesystem
//! is unmounted; the sync is the only flush.

use vstd::prelude::*;
use vstd::string::*;

use crate::handlers::ping;
use crate::json::Json;
use crate::json;
use crate::kernel::{KernelError, RebootCommand};
use crate::proto::Error;
use crate::proto;

verus! {

/// The `mode` argument.
#[derive(Debug, Clone, Copy, PartialEq, Eq, Structural)]
pub enum ShutdownMode {
    /// Halt the machine.
    Halt,
    /// Power it off.
    Powerdown,
    /// Reboot it.
    Reboot,
}

/// Arguments of `guest-shutdown`.
#[derive(Debug, Clone, Copy, PartialEq, Eq)]
pub struct ShutdownArgs {
    /// Defaults to [`ShutdownMode::Powerdown`].
    pub mode: Option<ShutdownMode>,
}

/// The kernel command for a mode.
pub open spec fn command_of(mode: ShutdownMode) -> RebootCommand {
    match mode {
        ShutdownMode::Halt => RebootCommand::Halt,
        ShutdownMode::Powerdown => RebootCommand::PowerOff,
        ShutdownMode::Reboot => RebootCommand::Restart,
    }
}

/// The kernel command for a mode.
pub fn reboot_command(mode: ShutdownMode) -> (command: RebootCommand)
    ensures
        command == command_of(mode),
{
    match mode {
        ShutdownMode::Halt => RebootCommand::Halt,
        ShutdownMode::Powerdown => RebootCommand::PowerOff,
        ShutdownMode::Reboot => RebootCommand::Restart,
    }
}

/// A call of the kernel.
#[derive(Debug, Clone, Copy, PartialEq, Eq, Structural)]
pub enum KernelCall {
    /// `sync(2)`.
    Sync,
    /// `reboot(2)`.
    Reboot(RebootCommand),
}

/// The calls that a shutdown makes, in order: everything is synced before the
/// kernel is told to stop.
pub fn calls(args: ShutdownArgs) -> (calls: Vec<KernelCall>)
    ensures
        calls@ == seq![
            KernelCall::Sync,
            KernelCall::Reboot(
                command_of(
                    match args.mode {
                        Some(mode) => mode,
                        None => ShutdownMode::Powerdown,
                    },
                ),
            ),
        ],
{
    let mode = match args.mode {
        Some(mode) => mode,
        None => ShutdownMode::Powerdown,
    };
    let mut calls: Vec<KernelCall> = Vec::new();
    calls.push(KernelCall::Sync);
    calls.push(KernelCall::Reboot(reboot_command(mode)));
    proof {
        assert(calls@ =~= seq![KernelCall::Sync, KernelCall::Reboot(command_of(mode))]);
    }
    calls
}

/// What came of a shutdown.
#[derive(Debug, PartialEq, Eq)]
pub enum ShutdownOutcome {
    /// The kernel accepted it.
    Done,
    /// The kernel refused it.
    Refused(KernelError),
    /// The task is gone without an answer; says why.
    Lost(String),
}

/// `guest-shutdown`: the result of the command.
pub fn handle(outcome: ShutdownOutcome) -> (reply: Result<Json, Error>)
    ensures
        proto::result_view(reply) == match outcome {
            ShutdownOutcome::Done => Ok::<json::JsonView, proto::ErrorView>(
                json::JsonView::Object(Seq::empty()),
            ),
            ShutdownOutcome::Refused(err) => Err(
                proto::ErrorView::Internal("shutdown failed: "@ + err.text()),
            ),
            ShutdownOutcome::Lost(why) => Err(
                proto::ErrorView::Internal("shutdown task failed: "@ + why@),
            ),
        },
{
    match outcome {
        ShutdownOutcome::Done => Ok(ping::handle()),
        ShutdownOutcome::Refused(err) => Err(
            Error::Internal("shutdown failed: ".to_owned().concat(err.message().as_str())),
        ),
        ShutdownOutcome::Lost(why) => Err(
            Error::Internal("shutdown task failed: ".to_owned().concat(why.as_str())),
        ),
    }
}

/// Everything is synced first, then the kernel is told what the host asked for:
/// to halt, to power off (also when the host named no mode) or to restart.
/// Nothing else is asked of it.
pub proof fn law_a_shutdown_syncs_then_does_what_was_asked(
    args: ShutdownArgs,
    made: Vec<KernelCall>,
)
    requires
        call_ensures(calls, (args,), made),
    ensures
        made@.len() == 2,
        made@[0] == KernelCall::Sync,
        args.mode == Some(ShutdownMode::Halt) ==> made@[1] == KernelCall::Reboot(
            RebootCommand::Halt,
        ),
        args.mode == Some(ShutdownMode::Powerdown) || args.mode is None ==> made@[1]
            == KernelCall::Reboot(RebootCommand::PowerOff),
        args.mode == Some(ShutdownMode::Reboot) ==> made@[1] == KernelCall::Reboot(
            RebootCommand::Restart,
        ),
{
}

/// A shutdown that the kernel accepted is a success; otherwise the host is told
/// what the kernel said, or that the task was lost.
pub proof fn law_what_a_shutdown_replies(outcome: ShutdownOutcome, reply: Result<Json, Error>)
    requires
        call_ensures(handle, (outcome,), reply),
    ensures
        outcome is Done ==> proto::result_view(reply) == Ok::<json::JsonView, proto::ErrorView>(
            json::JsonView::Object(Seq::empty()),
        ),
        outcome matches ShutdownOutcome::Refused(err) ==> proto::result_view(reply) == Err::<
            json::JsonView,
            proto::ErrorView,
        >(proto::ErrorView::Internal("shutdown failed: "@ + err.text())),
        outcome matches ShutdownOutcome::Lost(why) ==> proto::result_view(reply) == Err::<
            json::JsonView,
            proto::ErrorView,
        >(proto::ErrorView::Internal("shutdown task failed: "@ + why@)),
{
}

} // verus!
