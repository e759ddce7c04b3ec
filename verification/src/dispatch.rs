//! Request dispatch: the static allowlist, the gates, and the rate limiter.
//!
//! Order of evaluation for every frame:
//!
//! 1. parse;
//! 2. allowlist ([`is_allowlisted`]);
//! 3. runtime feature gate (`guest-fstrim` and `guest-suspend-ram` may be
//!    disabled by configuration);
//! 4. rate limiter ([`ratelimit`]);
//! 5. freeze gate ([`is_frozen_safe`]: anything else is rejected while the
//!    state is not `Thawed`);
//! 6. the command.
//!
//! Every received frame produces exactly one audit record, before the command
//! runs, so that the record of a `guest-shutdown` precedes the reboot.

pub mod ratelimit;
pub mod reason;

use vstd::prelude::*;
use vstd::string::*;

use crate::audit::{project_method, AuditRecord, Disposition};
use crate::audit;
use crate::channel::session::Kind;
use crate::config::{Build, Config};
use crate::framing::encode;
use crate::framing;
use crate::handlers;
use crate::json::Json;
use crate::json;
use crate::kernel::Mount;
use crate::kernel;
use crate::proto::{Error, Request, Response};
use crate::proto;
use crate::state::{FreezeState, FreezeStateMachine};
use crate::text::same_text;
use ratelimit::{CommandClass, RateLimiter};

verus! {

// ---------------------------------------------------------------------------
// The allowlist
// ---------------------------------------------------------------------------

/// The commands that are accepted while filesystems are frozen.
pub open spec fn frozen_safe(method: Seq<char>) -> bool {
    method == "guest-fsfreeze-status"@ || method == "guest-fsfreeze-thaw"@ || method
        == "guest-ping"@ || method == "guest-sync"@ || method == "guest-sync-delimited"@ || method
        == "guest-info"@
}

/// The commands that exist.
pub open spec fn allowlisted(method: Seq<char>) -> bool {
    method == "guest-ping"@ || method == "guest-info"@ || method == "guest-sync"@ || method
        == "guest-sync-delimited"@ || method == "guest-get-osinfo"@ || method
        == "guest-network-get-interfaces"@ || method == "guest-get-fsinfo"@ || method
        == "guest-fsfreeze-status"@ || method == "guest-fsfreeze-freeze"@ || method
        == "guest-fsfreeze-freeze-list"@ || method == "guest-fsfreeze-thaw"@ || method
        == "guest-fstrim"@ || method == "guest-shutdown"@ || method == "guest-suspend-ram"@
}

/// `true` for the commands in the allowlist.
pub fn is_allowlisted(method: &str) -> (yes: bool)
    ensures
        yes == allowlisted(method@),
{
    same_text(method, "guest-ping") || same_text(method, "guest-info") || same_text(
        method,
        "guest-sync",
    ) || same_text(method, "guest-sync-delimited") || same_text(method, "guest-get-osinfo")
        || same_text(method, "guest-network-get-interfaces") || same_text(
        method,
        "guest-get-fsinfo",
    ) || same_text(method, "guest-fsfreeze-status") || same_text(method, "guest-fsfreeze-freeze")
        || same_text(method, "guest-fsfreeze-freeze-list") || same_text(
        method,
        "guest-fsfreeze-thaw",
    ) || same_text(method, "guest-fstrim") || same_text(method, "guest-shutdown") || same_text(
        method,
        "guest-suspend-ram",
    )
}

/// `true` for the six commands accepted while filesystems are frozen: status,
/// thaw, ping, sync, sync-delimited, info.
pub fn is_frozen_safe(method: &str) -> (yes: bool)
    ensures
        yes == frozen_safe(method@),
{
    same_text(method, "guest-fsfreeze-status") || same_text(method, "guest-fsfreeze-thaw")
        || same_text(method, "guest-ping") || same_text(method, "guest-sync") || same_text(
        method,
        "guest-sync-delimited",
    ) || same_text(method, "guest-info")
}

/// The session lane of a method.
pub open spec fn lane_of(method: Seq<char>) -> Kind {
    if method == "guest-fsfreeze-thaw"@ {
        Kind::Thaw
    } else if method == "guest-fsfreeze-freeze"@ || method == "guest-fsfreeze-freeze-list"@ {
        Kind::Freeze
    } else if frozen_safe(method) {
        Kind::Control
    } else {
        Kind::Ordinary
    }
}

/// The session lane of a method: the frozen-safe controls run beside the
/// command in progress, a thaw beside a freeze, everything else one at a time.
pub fn lane(method: &str) -> (kind: Kind)
    ensures
        kind == lane_of(method@),
{
    if same_text(method, "guest-fsfreeze-thaw") {
        Kind::Thaw
    } else if same_text(method, "guest-fsfreeze-freeze") || same_text(
        method,
        "guest-fsfreeze-freeze-list",
    ) {
        Kind::Freeze
    } else if is_frozen_safe(method) {
        Kind::Control
    } else {
        Kind::Ordinary
    }
}

/// Every allowlisted method has a rate-limit class and no other method has.
pub proof fn law_every_command_has_a_class(method: Seq<char>)
    ensures
        allowlisted(method) <==> ratelimit::class_of(method) is Some,
{
}

/// What is accepted while frozen is allowlisted, and its lane is a control's or
/// the thaw's.
pub proof fn law_lanes_follow_the_frozen_safe_set(method: Seq<char>)
    ensures
        frozen_safe(method) ==> allowlisted(method),
        frozen_safe(method) <==> lane_of(method) == Kind::Control || lane_of(method)
            == Kind::Thaw,
{
    reveal_strlit("guest-fsfreeze-freeze");
    reveal_strlit("guest-fsfreeze-freeze-list");
    reveal_strlit("guest-fsfreeze-status");
    reveal_strlit("guest-fsfreeze-thaw");
    reveal_strlit("guest-ping");
    reveal_strlit("guest-sync");
    reveal_strlit("guest-sync-delimited");
    reveal_strlit("guest-info");
    if method == "guest-fsfreeze-freeze"@ || method == "guest-fsfreeze-freeze-list"@ {
        assert(method.len() == 21 || method.len() == 26);
        assert("guest-fsfreeze-status"@[15] == 's');
        assert("guest-fsfreeze-freeze"@[15] == 'f');
    }
}

// ---------------------------------------------------------------------------
// What commands share
// ---------------------------------------------------------------------------

/// How a thaw finds the filesystems it must drain.
#[derive(Debug, Clone, Copy, PartialEq, Eq, Structural)]
pub enum ThawScope {
    /// Every obligation is a held descriptor: a freeze operation completed
    /// with no target's outcome unknown.
    Held,
    /// A filesystem may be frozen with no descriptor to show for it: after a
    /// restart, for a drain from `Thawed`, or after an operation that lost a
    /// worker or a drain. The thaw discovers every eligible superblock through
    /// the mount table.
    Discovery,
}

/// What commands share.
#[derive(Debug)]
pub struct Context {
    /// Validated configuration.
    pub config: Config,
    /// What is compiled in.
    pub build: Build,
    /// The freeze state machine.
    pub state: FreezeStateMachine,
    /// Handles of the filesystems this process froze (or found frozen), held
    /// until their drain completes.
    pub frozen_mounts: Vec<Mount>,
    /// How the next thaw finds what it must drain.
    pub thaw_scope: ThawScope,
    /// The freeze operation in progress, from `Freezing` until it settles.
    pub freeze_op: Option<u64>,
}

/// What the context keeps of freezes, as a mathematical value.
#[verifier::ext_equal]
pub ghost struct ContextView {
    /// The handles of the filesystems this process froze.
    pub held: Seq<kernel::MountView>,
    /// How the next thaw finds what it must drain.
    pub scope: ThawScope,
    /// The freeze operation in progress, by its number.
    pub op: Option<u64>,
}

impl View for Context {
    type V = ContextView;

    open spec fn view(&self) -> ContextView {
        ContextView {
            held: kernel::mounts_view(self.frozen_mounts@),
            scope: self.thaw_scope,
            op: self.freeze_op,
        }
    }
}

impl Context {
    /// Nothing but what the context keeps of freezes differs.
    pub open spec fn same_otherwise(&self, other: &Context) -> bool {
        self.config == other.config && self.build == other.build && self.state == other.state
    }

    /// A context with nothing held and no operation in progress.
    pub fn new(config: Config, build: Build, state: FreezeStateMachine) -> (ctx: Context)
        ensures
            ctx.config == config,
            ctx.build == build,
            ctx.state == state,
            ctx@ == (ContextView { held: Seq::empty(), scope: ThawScope::Discovery, op: None }),
    {
        let ctx = Context {
            config,
            build,
            state,
            frozen_mounts: Vec::new(),
            thaw_scope: ThawScope::Discovery,
            freeze_op: None,
        };
        proof {
            assert(ctx@.held =~= Seq::empty());
        }
        ctx
    }

    /// Whether a stop is allowed now: only while everything is thawed.
    pub fn may_stop(&self) -> (ok: bool)
        ensures
            ok == (self.state@ == FreezeState::Thawed),
    {
        self.state.current() == FreezeState::Thawed
    }

    /// The freeze operation in progress, if any.
    pub fn freeze_op(&self) -> (op: Option<u64>)
        ensures
            op == self@.op,
    {
        self.freeze_op
    }

    /// Registers the freeze operation (or, with `None`, clears the slot).
    pub fn set_freeze_op(&mut self, op: Option<u64>)
        ensures
            final(self)@ == (ContextView { op, ..old(self)@ }),
            final(self).same_otherwise(old(self)),
    {
        self.freeze_op = op;
    }

    /// Retires `op`: clears the slot only if it still holds that very
    /// operation, so a settling operation can never clear a successor.
    pub fn retire_freeze_op(&mut self, op: u64)
        ensures
            final(self)@ == (ContextView {
                op: if old(self)@.op == Some(op) {
                    None
                } else {
                    old(self)@.op
                },
                ..old(self)@
            }),
            final(self).same_otherwise(old(self)),
    {
        if let Some(current) = self.freeze_op {
            if current == op {
                self.freeze_op = None;
            }
        }
    }

    /// Takes the held handles of frozen filesystems for a drain.
    pub fn take_frozen_mounts(&mut self) -> (held: Vec<Mount>)
        ensures
            kernel::mounts_view(held@) == old(self)@.held,
            final(self)@ == (ContextView { held: Seq::empty(), ..old(self)@ }),
            final(self).same_otherwise(old(self)),
    {
        let mut held: Vec<Mount> = Vec::new();
        std::mem::swap(&mut held, &mut self.frozen_mounts);
        proof {
            assert(self@.held =~= Seq::empty());
        }
        held
    }

    /// Holds handles of filesystems frozen by this process (added to any
    /// already held) until a drain completes them.
    pub fn hold_frozen_mounts(&mut self, mounts: Vec<Mount>)
        ensures
            final(self)@ == (ContextView {
                held: old(self)@.held + kernel::mounts_view(mounts@),
                ..old(self)@
            }),
            final(self).same_otherwise(old(self)),
    {
        let ghost before = self@;
        let ghost added = kernel::mounts_view(mounts@);
        let mut mounts = mounts;
        self.frozen_mounts.append(&mut mounts);
        proof {
            assert(self@.held =~= before.held + added);
        }
    }

    /// Number of handles currently held.
    pub fn frozen_mount_count(&self) -> (count: usize)
        ensures
            count == self@.held.len(),
    {
        self.frozen_mounts.len()
    }

    /// How the next thaw finds what it must drain.
    pub fn thaw_scope(&self) -> (scope: ThawScope)
        ensures
            scope == self@.scope,
    {
        self.thaw_scope
    }

    /// Records how the next thaw must find what it drains: a settling freeze
    /// operation sets it from what it knows of its targets, a completed thaw
    /// resets it.
    pub fn set_thaw_scope(&mut self, scope: ThawScope)
        ensures
            final(self)@ == (ContextView { scope, ..old(self)@ }),
            final(self).same_otherwise(old(self)),
    {
        self.thaw_scope = scope;
    }
}

// ---------------------------------------------------------------------------
// The gates
// ---------------------------------------------------------------------------

/// A frame after parsing.
#[derive(Debug, PartialEq, Eq)]
pub enum Frame {
    /// It exceeded the bound and was discarded.
    Oversized,
    /// It was parsed, or says why not.
    Parsed(Result<Request, Error>),
}

/// A command that passed the gates.
#[derive(Debug, Clone, Copy, PartialEq, Eq, Structural)]
pub enum Command {
    Ping,
    Info,
    Sync,
    SyncDelimited,
    GetOsinfo,
    NetworkGetInterfaces,
    GetFsinfo,
    FsfreezeStatus,
    FsfreezeFreeze,
    FsfreezeFreezeList,
    FsfreezeThaw,
    Fstrim,
    Shutdown,
    SuspendRam,
}

impl Command {
    /// The method of a command.
    pub open spec fn text(self) -> Seq<char> {
        match self {
            Command::Ping => "guest-ping"@,
            Command::Info => "guest-info"@,
            Command::Sync => "guest-sync"@,
            Command::SyncDelimited => "guest-sync-delimited"@,
            Command::GetOsinfo => "guest-get-osinfo"@,
            Command::NetworkGetInterfaces => "guest-network-get-interfaces"@,
            Command::GetFsinfo => "guest-get-fsinfo"@,
            Command::FsfreezeStatus => "guest-fsfreeze-status"@,
            Command::FsfreezeFreeze => "guest-fsfreeze-freeze"@,
            Command::FsfreezeFreezeList => "guest-fsfreeze-freeze-list"@,
            Command::FsfreezeThaw => "guest-fsfreeze-thaw"@,
            Command::Fstrim => "guest-fstrim"@,
            Command::Shutdown => "guest-shutdown"@,
            Command::SuspendRam => "guest-suspend-ram"@,
        }
    }

    /// The command of a method: a static match, not a table.
    pub fn of(method: &str) -> (command: Option<Command>)
        ensures
            match command {
                Some(command) => method@ == command.text(),
                None => !allowlisted(method@),
            },
    {
        if same_text(method, "guest-ping") {
            Some(Command::Ping)
        } else if same_text(method, "guest-info") {
            Some(Command::Info)
        } else if same_text(method, "guest-sync") {
            Some(Command::Sync)
        } else if same_text(method, "guest-sync-delimited") {
            Some(Command::SyncDelimited)
        } else if same_text(method, "guest-get-osinfo") {
            Some(Command::GetOsinfo)
        } else if same_text(method, "guest-network-get-interfaces") {
            Some(Command::NetworkGetInterfaces)
        } else if same_text(method, "guest-get-fsinfo") {
            Some(Command::GetFsinfo)
        } else if same_text(method, "guest-fsfreeze-status") {
            Some(Command::FsfreezeStatus)
        } else if same_text(method, "guest-fsfreeze-freeze") {
            Some(Command::FsfreezeFreeze)
        } else if same_text(method, "guest-fsfreeze-freeze-list") {
            Some(Command::FsfreezeFreezeList)
        } else if same_text(method, "guest-fsfreeze-thaw") {
            Some(Command::FsfreezeThaw)
        } else if same_text(method, "guest-fstrim") {
            Some(Command::Fstrim)
        } else if same_text(method, "guest-shutdown") {
            Some(Command::Shutdown)
        } else if same_text(method, "guest-suspend-ram") {
            Some(Command::SuspendRam)
        } else {
            None
        }
    }
}

/// Why a request is denied: the audit reason and the error that is replied.
#[verifier::ext_equal]
pub ghost struct DenialView {
    pub reason: Seq<char>,
    pub error: proto::ErrorView,
}

/// A method is switched off.
pub open spec fn switched_off(method: Seq<char>, config: Config, build: Build) -> bool {
    ||| method == "guest-fstrim"@ && !config.features.fstrim
    ||| method == "guest-suspend-ram"@ && !(build.suspend_ram && config.features.suspend_ram)
}

/// What the gates say to a method. `admitted` is the limiter's word on its
/// class.
pub open spec fn verdict(
    method: Seq<char>,
    config: Config,
    build: Build,
    admitted: bool,
    state: FreezeState,
) -> Option<DenialView> {
    if !allowlisted(method) {
        Some(
            DenialView {
                reason: reason::COMMAND_NOT_FOUND@,
                error: proto::ErrorView::CommandNotFound(method),
            },
        )
    } else if switched_off(method, config, build) {
        Some(DenialView { reason: reason::DISABLED@, error: proto::ErrorView::Disabled(method) })
    } else if !admitted {
        Some(
            DenialView {
                reason: reason::RATE_LIMITED@,
                error: proto::ErrorView::RateLimited { class: ratelimit::class_of(method)->0 },
            },
        )
    } else if state != FreezeState::Thawed && !frozen_safe(method) {
        Some(DenialView { reason: reason::FROZEN@, error: proto::ErrorView::Frozen })
    } else {
        None
    }
}

/// The method reaches the limiter.
pub open spec fn is_metered(method: Seq<char>, config: Config, build: Build) -> bool {
    allowlisted(method) && !switched_off(method, config, build)
}

/// What is done with a frame after its audit record was emitted.
#[derive(Debug, PartialEq, Eq)]
pub enum Action {
    /// Nothing: there is nothing to reply to.
    Nothing,
    /// Send these bytes.
    Reply(Vec<u8>),
    /// Run the command; its result goes to [`finish`].
    Run(Command),
}

/// A frame's one audit record, and what is done with it.
#[derive(Debug, PartialEq, Eq)]
pub struct Handling {
    pub record: AuditRecord,
    pub action: Action,
}

/// The audit record of a frame that is not a request.
pub open spec fn blank_record(reason: Seq<char>, state: FreezeState) -> audit::RecordView {
    audit::RecordView {
        method: audit::projected(
            ""@,
            audit::sha256(vstd::utf8::encode_utf8(""@)),
        ),
        id: None,
        disposition: Disposition::Denied,
        reason: Some(reason),
        freeze_state_before: state.text(),
    }
}

/// The audit record of a request.
pub open spec fn request_record(
    request: Request,
    denial: Option<DenialView>,
    state: FreezeState,
) -> audit::RecordView {
    audit::RecordView {
        method: audit::projected(
            request.method@,
            audit::sha256(vstd::utf8::encode_utf8(request.method@)),
        ),
        id: request.id,
        disposition: match denial {
            Some(_) => Disposition::Denied,
            None => Disposition::Allowed,
        },
        reason: match denial {
            Some(denial) => Some(denial.reason),
            None => None,
        },
        freeze_state_before: state.text(),
    }
}

/// Every reply to `guest-sync-delimited` carries the sentinel.
pub open spec fn delimited(method: Seq<char>) -> bool {
    method == "guest-sync-delimited"@
}

/// The bytes of a reply.
pub open spec fn reply_bytes(
    id: Option<i64>,
    result: Result<json::JsonView, proto::ErrorView>,
    sentinel: bool,
) -> Seq<u8> {
    framing::encoded(
        vstd::utf8::encode_utf8(json::json_text(proto::reply(id, result))),
        sentinel,
    )
}

/// The dispatcher: the gates before the commands.
pub struct Dispatcher {
    limiter: RateLimiter,
}

impl Dispatcher {
    /// The limiter.
    pub closed spec fn limiter(&self) -> RateLimiter {
        self.limiter
    }

    /// What holds of every dispatcher.
    pub open spec fn wf(&self) -> bool {
        self.limiter().wf()
    }

    /// The limiter's word on a method's class.
    pub open spec fn admits(&self, method: Seq<char>) -> bool {
        match ratelimit::class_of(method) {
            Some(CommandClass::Unlimited) => true,
            Some(class) => self.limiter().bucket(class).has_token(),
            None => true,
        }
    }

    /// A dispatcher whose limiter is configured from `config`; every bucket is
    /// full.
    pub fn new(config: &Config) -> (dispatcher: Dispatcher)
        ensures
            dispatcher.wf(),
            dispatcher.limiter().time() == 0,
            forall|class: CommandClass|
                class != CommandClass::Unlimited ==> (#[trigger] dispatcher.limiter().bucket(class))
                    == ratelimit::full_bucket(class.configured(config.rate_limits)->0),
    {
        Dispatcher { limiter: RateLimiter::new(&config.rate_limits) }
    }

    /// Time passes for the limiter.
    pub fn advance(&mut self, nanos: u64)
        requires
            old(self).wf(),
        ensures
            final(self).wf(),
            final(self).limiter().time() == if old(self).limiter().time() + nanos
                <= ratelimit::MAX_TIME_NANOS {
                old(self).limiter().time() + nanos
            } else {
                ratelimit::MAX_TIME_NANOS as int
            },
            forall|class: CommandClass|
                class != CommandClass::Unlimited ==> (#[trigger] final(self).limiter().bucket(
                    class,
                )) == old(self).limiter().bucket(class).later(
                    (final(self).limiter().time() - old(self).limiter().time()) as nat,
                ),
    {
        self.limiter.advance(nanos);
    }

    /// The gates after parsing. On denial says the audit reason and the error
    /// to reply. A token is taken exactly when the method is allowlisted and
    /// switched on.
    pub fn gates(&mut self, method: &str, ctx: &Context) -> (denial: Option<(&'static str, Error)>)
        requires
            old(self).wf(),
        ensures
            final(self).wf(),
            match denial {
                Some((reason, error)) => verdict(
                    method@,
                    ctx.config,
                    ctx.build,
                    old(self).admits(method@),
                    ctx.state@,
                ) == Some(DenialView { reason: reason@, error: error@ }),
                None => verdict(
                    method@,
                    ctx.config,
                    ctx.build,
                    old(self).admits(method@),
                    ctx.state@,
                ) is None,
            },
            final(self).limiter().time() == old(self).limiter().time(),
            forall|other: CommandClass|
                #![trigger final(self).limiter().bucket(other)]
                final(self).limiter().bucket(other) == if is_metered(
                    method@,
                    ctx.config,
                    ctx.build,
                ) && ratelimit::class_of(method@) == Some(other) && other
                    != CommandClass::Unlimited {
                    old(self).limiter().bucket(other).asked()
                } else {
                    old(self).limiter().bucket(other)
                },
    {
        if !is_allowlisted(method) {
            return Some((reason::COMMAND_NOT_FOUND, Error::CommandNotFound(method.to_owned())));
        }
        if !Self::runtime_feature_gate(method, ctx) {
            return Some((reason::DISABLED, Error::Disabled(method.to_owned())));
        }
        proof {
            law_every_command_has_a_class(method@);
        }
        // Every allowlisted method has a class; the impossible `None` counts
        // as the strictest class.
        let class = match CommandClass::of(method) {
            Some(class) => class,
            None => CommandClass::Shutdown,
        };
        match self.limiter.check(class) {
            Ok(()) => {},
            Err(denied) => {
                return Some((reason::RATE_LIMITED, Error::rate_limited(denied)));
            },
        }
        if ctx.state.is_frozen_for_gate() && !is_frozen_safe(method) {
            return Some((reason::FROZEN, Error::Frozen));
        }
        None
    }

    /// Whether the switches leave a method on.
    pub fn runtime_feature_gate(method: &str, ctx: &Context) -> (on: bool)
        ensures
            on == !switched_off(method@, ctx.config, ctx.build),
    {
        if same_text(method, "guest-fstrim") && !ctx.config.fstrim_enabled() {
            return false;
        }
        if same_text(method, "guest-suspend-ram") && !ctx.config.suspend_ram_enabled(ctx.build) {
            return false;
        }
        true
    }

    /// Handles one frame: its one audit record, and what is done with it. An
    /// oversized frame has nothing to reply to; a frame that is not a request,
    /// and a request that a gate denies, are answered with the error.
    pub fn handle(&mut self, frame: &Frame, ctx: &Context) -> (handling: Handling)
        requires
            old(self).wf(),
        ensures
            final(self).wf(),
            match *frame {
                Frame::Oversized => {
                    &&& handling.record@ == blank_record(reason::OVERSIZED_FRAME@, ctx.state@)
                    &&& handling.action is Nothing
                    &&& final(self).limiter() == old(self).limiter()
                },
                Frame::Parsed(Err(err)) => {
                    &&& handling.record@ == blank_record(reason::PARSE_ERROR@, ctx.state@)
                    &&& handling.action matches Action::Reply(bytes) && bytes@ == reply_bytes(
                        None,
                        Err(err@),
                        false,
                    )
                    &&& final(self).limiter() == old(self).limiter()
                },
                Frame::Parsed(Ok(request)) => {
                    let denial = verdict(
                        request.method@,
                        ctx.config,
                        ctx.build,
                        old(self).admits(request.method@),
                        ctx.state@,
                    );
                    &&& handling.record@ == request_record(request, denial, ctx.state@)
                    &&& match denial {
                        Some(denial) => handling.action matches Action::Reply(bytes) && bytes@
                            == reply_bytes(
                            request.id,
                            Err(denial.error),
                            delimited(request.method@),
                        ),
                        None => handling.action matches Action::Run(command) && command.text()
                            == request.method@,
                    }
                    &&& final(self).limiter().time() == old(self).limiter().time()
                    &&& forall|other: CommandClass|
                        #![trigger final(self).limiter().bucket(other)]
                        final(self).limiter().bucket(other) == if is_metered(
                            request.method@,
                            ctx.config,
                            ctx.build,
                        ) && ratelimit::class_of(request.method@) == Some(other) && other
                            != CommandClass::Unlimited {
                            old(self).limiter().bucket(other).asked()
                        } else {
                            old(self).limiter().bucket(other)
                        }
                },
            },
    {
        let freeze_state_before = ctx.state.current().as_str();
        match frame {
            Frame::Oversized => Handling {
                record: AuditRecord {
                    method: project_method(""),
                    id: None,
                    disposition: Disposition::Denied,
                    reason: Some(reason::OVERSIZED_FRAME),
                    freeze_state_before,
                },
                action: Action::Nothing,
            },
            Frame::Parsed(Err(err)) => Handling {
                record: AuditRecord {
                    method: project_method(""),
                    id: None,
                    disposition: Disposition::Denied,
                    reason: Some(reason::PARSE_ERROR),
                    freeze_state_before,
                },
                action: Action::Reply(encode(&Response::error(None, err).to_json(), false)),
            },
            Frame::Parsed(Ok(request)) => {
                let method = request.method.as_str();
                match self.gates(method, ctx) {
                    Some((denial, err)) => {
                        let sentinel = same_text(method, "guest-sync-delimited");
                        Handling {
                            record: AuditRecord {
                                method: project_method(method),
                                id: request.id,
                                disposition: Disposition::Denied,
                                reason: Some(denial),
                                freeze_state_before,
                            },
                            action: Action::Reply(
                                encode(&Response::error(request.id, &err).to_json(), sentinel),
                            ),
                        }
                    },
                    None => {
                        let command = Command::of(method);
                        Handling {
                            record: AuditRecord {
                                method: project_method(method),
                                id: request.id,
                                disposition: Disposition::Allowed,
                                reason: None,
                                freeze_state_before,
                            },
                            action: match command {
                                Some(command) => Action::Run(command),
                                None => Action::Nothing,
                            },
                        }
                    },
                }
            },
        }
    }
}

/// The lane of a frame: one that cannot be parsed, like an oversized one, is
/// answered without running anything and counts as a control; an unknown method
/// is treated as an ordinary command and rejected in its turn.
pub fn classify(frame: &Frame) -> (kind: Kind)
    ensures
        kind == match *frame {
            Frame::Parsed(Ok(request)) => lane_of(request.method@),
            _ => Kind::Control,
        },
{
    match frame {
        Frame::Oversized => Kind::Control,
        Frame::Parsed(Err(_)) => Kind::Control,
        Frame::Parsed(Ok(request)) => lane(request.method.as_str()),
    }
}

/// The bytes to send for a command's result: none for the success of a command
/// that sends no success reply.
pub fn finish(request: &Request, result: Result<Json, Error>) -> (bytes: Option<Vec<u8>>)
    ensures
        match bytes {
            Some(bytes) => bytes@ == reply_bytes(
                request.id,
                proto::result_view(result),
                delimited(request.method@),
            ),
            None => true,
        },
        bytes is None <==> result is Ok && handlers::is_silent(request.method@),
{
    let method = request.method.as_str();
    if result.is_ok() && handlers::sends_no_success(method) {
        return None;
    }
    let sentinel = same_text(method, "guest-sync-delimited");
    Some(encode(&Response::from_result(request.id, result).to_json(), sentinel))
}

/// A thaw is always possible: while frozen, `guest-fsfreeze-thaw` and
/// `guest-fsfreeze-status` pass the gates whatever the configuration and
/// whatever was asked before.
pub proof fn law_a_thaw_is_never_denied(
    dispatcher: Dispatcher,
    method: Seq<char>,
    config: Config,
    build: Build,
    state: FreezeState,
)
    requires
        method == "guest-fsfreeze-thaw"@ || method == "guest-fsfreeze-status"@,
    ensures
        verdict(method, config, build, dispatcher.admits(method), state) is None,
{
    reveal_strlit("guest-fsfreeze-thaw");
    reveal_strlit("guest-fsfreeze-status");
    reveal_strlit("guest-fstrim");
    reveal_strlit("guest-suspend-ram");
    reveal_strlit("guest-ping");
    reveal_strlit("guest-sync");
    reveal_strlit("guest-sync-delimited");
    reveal_strlit("guest-info");
    reveal_strlit("guest-get-osinfo");
    reveal_strlit("guest-get-fsinfo");
    reveal_strlit("guest-network-get-interfaces");
    reveal_strlit("guest-fsfreeze-freeze");
    reveal_strlit("guest-fsfreeze-freeze-list");
    assert("guest-fsfreeze-status"@[15] == 's');
    assert("guest-fsfreeze-freeze"@[15] == 'f');
    assert(ratelimit::class_of(method) == Some(CommandClass::Unlimited)) by {
        if method == "guest-fsfreeze-thaw"@ {
            assert(method.len() == 19);
        } else {
            assert(method.len() == 21);
        }
    }
}

/// While anything is frozen, no command but the frozen-safe ones runs.
pub proof fn law_only_frozen_safe_commands_run_while_frozen(
    method: Seq<char>,
    config: Config,
    build: Build,
    admitted: bool,
    state: FreezeState,
)
    requires
        state != FreezeState::Thawed,
        verdict(method, config, build, admitted, state) is None,
    ensures
        frozen_safe(method),
{
}

/// Every frame is recorded as what became of it: a request is recorded as
/// allowed exactly when its command runs, and as denied, with the reason, when
/// it is answered with an error instead.
pub proof fn law_the_record_says_what_became_of_the_frame(
    request: Request,
    denial: Option<DenialView>,
    state: FreezeState,
)
    ensures
        ({
            let record = request_record(request, denial, state);
            &&& record.disposition == Disposition::Allowed <==> denial is None
            &&& record.reason is None <==> denial is None
            &&& record.reason matches Some(reason) ==> reason == denial->0.reason
            &&& record.id == request.id
            &&& record.freeze_state_before == state.text()
        }),
{
}

/// Fourteen commands exist, and no other; while filesystems are frozen, six of
/// them are accepted.
pub proof fn law_the_commands(method: Seq<char>)
    ensures
        allowlisted(method) <==> seq![
            "guest-ping"@,
            "guest-info"@,
            "guest-sync"@,
            "guest-sync-delimited"@,
            "guest-get-osinfo"@,
            "guest-network-get-interfaces"@,
            "guest-get-fsinfo"@,
            "guest-fsfreeze-status"@,
            "guest-fsfreeze-freeze"@,
            "guest-fsfreeze-freeze-list"@,
            "guest-fsfreeze-thaw"@,
            "guest-fstrim"@,
            "guest-shutdown"@,
            "guest-suspend-ram"@,
        ].contains(method),
        frozen_safe(method) <==> seq![
            "guest-fsfreeze-status"@,
            "guest-fsfreeze-thaw"@,
            "guest-ping"@,
            "guest-sync"@,
            "guest-sync-delimited"@,
            "guest-info"@,
        ].contains(method),
{
    let all = seq![
        "guest-ping"@,
        "guest-info"@,
        "guest-sync"@,
        "guest-sync-delimited"@,
        "guest-get-osinfo"@,
        "guest-network-get-interfaces"@,
        "guest-get-fsinfo"@,
        "guest-fsfreeze-status"@,
        "guest-fsfreeze-freeze"@,
        "guest-fsfreeze-freeze-list"@,
        "guest-fsfreeze-thaw"@,
        "guest-fstrim"@,
        "guest-shutdown"@,
        "guest-suspend-ram"@,
    ];
    let safe = seq![
        "guest-fsfreeze-status"@,
        "guest-fsfreeze-thaw"@,
        "guest-ping"@,
        "guest-sync"@,
        "guest-sync-delimited"@,
        "guest-info"@,
    ];
    assert(all[0] == "guest-ping"@ && all[1] == "guest-info"@ && all[2] == "guest-sync"@ && all[3]
        == "guest-sync-delimited"@ && all[4] == "guest-get-osinfo"@ && all[5]
        == "guest-network-get-interfaces"@ && all[6] == "guest-get-fsinfo"@ && all[7]
        == "guest-fsfreeze-status"@ && all[8] == "guest-fsfreeze-freeze"@ && all[9]
        == "guest-fsfreeze-freeze-list"@ && all[10] == "guest-fsfreeze-thaw"@ && all[11]
        == "guest-fstrim"@ && all[12] == "guest-shutdown"@ && all[13] == "guest-suspend-ram"@);
    assert(safe[0] == "guest-fsfreeze-status"@ && safe[1] == "guest-fsfreeze-thaw"@ && safe[2]
        == "guest-ping"@ && safe[3] == "guest-sync"@ && safe[4] == "guest-sync-delimited"@
        && safe[5] == "guest-info"@);
}

/// A command runs exactly when it exists, is switched on, has a token left in
/// its class, and is accepted in the state; otherwise the first of these that
/// fails is what the host and the record are told.
pub proof fn law_who_runs_and_what_the_others_are_told(
    method: Seq<char>,
    config: Config,
    build: Build,
    admitted: bool,
    state: FreezeState,
)
    ensures
        ({
            let said = verdict(method, config, build, admitted, state);
            let off = (method == "guest-fstrim"@ && !config.features.fstrim) || (method
                == "guest-suspend-ram"@ && !(build.suspend_ram && config.features.suspend_ram));
            let class = ratelimit::class_of(method);
            &&& said is None <==> allowlisted(method) && !off && admitted && (state
                == FreezeState::Thawed || frozen_safe(method))
            &&& !allowlisted(method) ==> said == Some(
                DenialView {
                    reason: "command_not_found"@,
                    error: proto::ErrorView::CommandNotFound(method),
                },
            )
            &&& allowlisted(method) && off ==> said == Some(
                DenialView { reason: "disabled"@, error: proto::ErrorView::Disabled(method) },
            )
            &&& allowlisted(method) && !off && !admitted ==> said == Some(
                DenialView {
                    reason: "rate_limited"@,
                    error: proto::ErrorView::RateLimited { class: class->0 },
                },
            )
            &&& allowlisted(method) && !off && admitted && said is Some ==> said == Some(
                DenialView { reason: "frozen"@, error: proto::ErrorView::Frozen },
            )
        }),
{
}

/// A token is taken by exactly the methods that exist and are switched on; the
/// status and the thaw are never limited.
pub proof fn law_who_is_metered(
    method: Seq<char>,
    config: Config,
    build: Build,
    dispatcher: Dispatcher,
)
    ensures
        is_metered(method, config, build) <==> allowlisted(method) && !(method == "guest-fstrim"@
            && !config.features.fstrim) && !(method == "guest-suspend-ram"@ && !(build.suspend_ram
            && config.features.suspend_ram)),
        ratelimit::class_of(method) == Some(CommandClass::Unlimited) ==> dispatcher.admits(method),
        ratelimit::class_of(method) matches Some(class) ==> class != CommandClass::Unlimited
            ==> dispatcher.admits(method) == dispatcher.limiter().bucket(class).has_token(),
{
}

/// The thaw has its own lane, the two freezes have one, what is accepted while
/// frozen runs beside anything, and everything else runs one at a time.
pub proof fn law_the_lanes(method: Seq<char>)
    ensures
        lane_of("guest-fsfreeze-thaw"@) == Kind::Thaw,
        lane_of("guest-fsfreeze-freeze"@) == Kind::Freeze,
        lane_of("guest-fsfreeze-freeze-list"@) == Kind::Freeze,
        method == "guest-ping"@ || method == "guest-sync"@ || method == "guest-sync-delimited"@
            || method == "guest-info"@ || method == "guest-fsfreeze-status"@ ==> lane_of(method)
            == Kind::Control,
        !frozen_safe(method) && method != "guest-fsfreeze-freeze"@ && method
            != "guest-fsfreeze-freeze-list"@ ==> lane_of(method) == Kind::Ordinary,
{
    reveal_strlit("guest-fsfreeze-freeze");
    reveal_strlit("guest-fsfreeze-freeze-list");
    reveal_strlit("guest-fsfreeze-status");
    reveal_strlit("guest-fsfreeze-thaw");
    reveal_strlit("guest-ping");
    reveal_strlit("guest-sync");
    reveal_strlit("guest-sync-delimited");
    reveal_strlit("guest-info");
    assert("guest-fsfreeze-freeze"@.len() == 21);
    assert("guest-fsfreeze-freeze-list"@.len() == 26);
    assert("guest-fsfreeze-status"@.len() == 21);
    assert("guest-fsfreeze-thaw"@.len() == 19);
    assert("guest-ping"@.len() == 10);
    assert("guest-sync"@.len() == 10);
    assert("guest-sync-delimited"@.len() == 20);
    assert("guest-info"@.len() == 10);
    assert("guest-fsfreeze-status"@[15] == 's');
    assert("guest-fsfreeze-freeze"@[15] == 'f');
}

/// Each command is that of its own method.
pub proof fn law_each_command_has_its_method(method: &str, command: Option<Command>)
    requires
        call_ensures(Command::of, (method,), command),
    ensures
        command is Some <==> allowlisted(method@),
        command == Some(Command::Ping) ==> method@ == "guest-ping"@,
        command == Some(Command::Info) ==> method@ == "guest-info"@,
        command == Some(Command::Sync) ==> method@ == "guest-sync"@,
        command == Some(Command::SyncDelimited) ==> method@ == "guest-sync-delimited"@,
        command == Some(Command::GetOsinfo) ==> method@ == "guest-get-osinfo"@,
        command == Some(Command::NetworkGetInterfaces) ==> method@
            == "guest-network-get-interfaces"@,
        command == Some(Command::GetFsinfo) ==> method@ == "guest-get-fsinfo"@,
        command == Some(Command::FsfreezeStatus) ==> method@ == "guest-fsfreeze-status"@,
        command == Some(Command::FsfreezeFreeze) ==> method@ == "guest-fsfreeze-freeze"@,
        command == Some(Command::FsfreezeFreezeList) ==> method@ == "guest-fsfreeze-freeze-list"@,
        command == Some(Command::FsfreezeThaw) ==> method@ == "guest-fsfreeze-thaw"@,
        command == Some(Command::Fstrim) ==> method@ == "guest-fstrim"@,
        command == Some(Command::Shutdown) ==> method@ == "guest-shutdown"@,
        command == Some(Command::SuspendRam) ==> method@ == "guest-suspend-ram"@,
{
}

/// The record of a frame that is no request names no method and no identifier,
/// and says that it was denied and why; that of a request names its method and
/// its identifier. Either names the state at the time.
pub proof fn law_what_is_recorded(
    request: Request,
    denial: Option<DenialView>,
    reason: Seq<char>,
    state: FreezeState,
)
    ensures
        blank_record(reason, state).id is None,
        blank_record(reason, state).disposition == Disposition::Denied,
        blank_record(reason, state).reason == Some(reason),
        blank_record(reason, state).freeze_state_before == state.text(),
        blank_record(reason, state).method == audit::MethodView::Full(Seq::empty()),
        vstd::utf8::encode_utf8(request.method@).len() <= 64 ==> request_record(
            request,
            denial,
            state,
        ).method == audit::MethodView::Full(request.method@),
        request_record(request, denial, state).id == request.id,
        request_record(request, denial, state).freeze_state_before == state.text(),
        denial is None ==> request_record(request, denial, state).disposition
            == Disposition::Allowed && request_record(request, denial, state).reason is None,
        denial matches Some(it) ==> request_record(request, denial, state).disposition
            == Disposition::Denied && request_record(request, denial, state).reason == Some(
            it.reason,
        ),
        FreezeState::Thawed.text() == "thawed"@,
        FreezeState::Freezing.text() == "freezing"@,
        FreezeState::Frozen.text() == "frozen"@,
        FreezeState::Thawing.text() == "thawing"@,
{
    reveal_strlit("");
    assert(""@ =~= Seq::<char>::empty());
    assert(vstd::utf8::encode_utf8(""@).len() == 0);
}

/// A reply goes out as one frame, and the host that decodes it finds the reply
/// to its own request in it, with the sentinel before it exactly when the
/// method is the delimited synchronisation.
pub proof fn law_a_reply_reaches_the_host_whole(
    id: Option<i64>,
    result: Result<json::JsonView, proto::ErrorView>,
    sentinel: bool,
    method: Seq<char>,
)
    requires
        vstd::utf8::encode_utf8(json::json_text(proto::reply(id, result))).len()
            <= framing::MAX_FRAME_LEN,
    ensures
        framing::feed(framing::Decoding::start(), reply_bytes(id, result, sentinel)).1 == seq![
            framing::Event::Frame {
                bytes: vstd::utf8::encode_utf8(json::json_text(proto::reply(id, result))),
                sentinel,
            },
        ],
        delimited(method) <==> method == "guest-sync-delimited"@,
        handlers::is_silent(method) <==> method == "guest-shutdown"@ || method
            == "guest-suspend-ram"@,
{
    proto::law_a_reply_is_one_frame(proto::reply(id, result), sentinel);
}

/// A frame that is no request runs beside anything; a request runs in the lane
/// of its method.
pub proof fn law_the_lane_of_a_frame(frame: Frame, kind: Kind)
    requires
        call_ensures(classify, (&frame,), kind),
    ensures
        frame is Oversized ==> kind == Kind::Control,
        frame matches Frame::Parsed(Err(err)) ==> kind == Kind::Control,
        frame matches Frame::Parsed(Ok(request)) ==> kind == lane_of(request.method@),
{
}

/// Every result is replied to, but for the success of a command that sends
/// none.
pub proof fn law_which_results_are_replied_to(
    request: Request,
    result: Result<Json, Error>,
    bytes: Option<Vec<u8>>,
)
    requires
        call_ensures(finish, (&request, result), bytes),
    ensures
        bytes is None <==> result is Ok && (request.method@ == "guest-shutdown"@ || request.method@
            == "guest-suspend-ram"@),
        bytes matches Some(sent) ==> sent@ == reply_bytes(
            request.id,
            proto::result_view(result),
            request.method@ == "guest-sync-delimited"@,
        ),
{
}

/// An operation that settles clears its own registration and never that of a
/// successor; handles are added to those already held, and taken all at once; a
/// stop is allowed only while everything is thawed.
pub proof fn law_what_commands_share(
    retiring: &mut Context,
    op: u64,
    holding: &mut Context,
    mounts: Vec<Mount>,
    taking: &mut Context,
    held: Vec<Mount>,
    ctx: Context,
    may: bool,
)
    requires
        call_ensures(Context::retire_freeze_op, (retiring, op), ()),
        call_ensures(Context::hold_frozen_mounts, (holding, mounts), ()),
        call_ensures(Context::take_frozen_mounts, (taking,), held),
        call_ensures(Context::may_stop, (&ctx,), may),
    ensures
        old(retiring)@.op == Some(op) ==> final(retiring)@.op is None,
        old(retiring)@.op != Some(op) ==> final(retiring)@.op == old(retiring)@.op,
        final(retiring)@.held == old(retiring)@.held,
        final(holding)@.held == old(holding)@.held + kernel::mounts_view(mounts@),
        final(holding)@.op == old(holding)@.op,
        kernel::mounts_view(held@) == old(taking)@.held,
        final(taking)@.held.len() == 0,
        may <==> ctx.state@ == FreezeState::Thawed,
{
}

/// What becomes of a frame. An oversized one is recorded and not replied to; one
/// that is no request is recorded and told why; a request that a gate denies is
/// told so; and a request that passes them is run as the command of its method.
/// None of the first two takes a token.
pub proof fn law_what_becomes_of_a_frame(
    d: &mut Dispatcher,
    frame: Frame,
    ctx: Context,
    handling: Handling,
)
    requires
        old(d).wf(),
        call_ensures(Dispatcher::handle, (d, &frame, &ctx), handling),
    ensures
        frame is Oversized ==> handling.action is Nothing && handling.record@.reason == Some(
            "oversized_frame"@,
        ) && handling.record@.disposition == Disposition::Denied && final(d).limiter()
            == old(d).limiter(),
        frame matches Frame::Parsed(Err(err)) ==> handling.action is Reply
            && handling.action->Reply_0@ == reply_bytes(None, Err(err@), false)
            && handling.record@.reason == Some("parse_error"@) && handling.record@.disposition
            == Disposition::Denied && final(d).limiter() == old(d).limiter(),
        frame matches Frame::Parsed(Ok(request)) ==> {
            let said = verdict(
                request.method@,
                ctx.config,
                ctx.build,
                old(d).admits(request.method@),
                ctx.state@,
            );
            &&& said is None ==> handling.action is Run && handling.action->Run_0.text()
                == request.method@ && handling.record@.disposition == Disposition::Allowed
            &&& said is Some ==> handling.action is Reply && handling.action->Reply_0@
                == reply_bytes(
                request.id,
                Err(said->0.error),
                request.method@ == "guest-sync-delimited"@,
            ) && handling.record@.disposition == Disposition::Denied && handling.record@.reason
                == Some(said->0.reason)
            &&& handling.record@.id == request.id
        },
{
}

} // verus!
