//! `guest-info`.
//!
//! Replies with the version and the list of commands, each with its name,
//! whether it can be executed, and whether a success is replied to. The list is
//! built from [`SUPPORTED_COMMANDS`] plus the configuration; there is no second
//! list. A frozen state does not change what is advertised.

use vstd::prelude::*;
use vstd::string::*;

use crate::config::{Build, Config};
use crate::dispatch;
use crate::handlers::{sends_no_success, SUPPORTED_COMMANDS};
use crate::handlers;
use crate::json::{list, member, object, string, Json, Member};
use crate::json;
use crate::text::same_text;
use crate::VERSION;

verus! {

/// One `GuestAgentCommandInfo` entry.
#[derive(Debug, Clone, Copy, PartialEq, Eq)]
pub struct CommandInfo {
    /// Wire name.
    pub name: &'static str,
    /// Whether the command can currently be executed.
    pub enabled: bool,
    /// Whether a successful call produces a reply.
    pub success_response: bool,
}

/// The `GuestAgentInfo` reply.
#[derive(Debug, Clone, PartialEq, Eq)]
pub struct AgentInfo {
    /// Build version.
    pub version: &'static str,
    /// Every allowlisted command, exactly once.
    pub supported_commands: Vec<CommandInfo>,
}

/// Whether the switches leave a command on: as the dispatcher's gate decides.
pub fn is_enabled(config: &Config, build: Build, name: &str) -> (enabled: bool)
    ensures
        enabled == !dispatch::switched_off(name@, *config, build),
{
    if same_text(name, "guest-fstrim") && !config.fstrim_enabled() {
        return false;
    }
    if same_text(name, "guest-suspend-ram") && !config.suspend_ram_enabled(build) {
        return false;
    }
    true
}

/// An entry for the command `name`.
pub open spec fn advertises(
    entry: CommandInfo,
    name: Seq<char>,
    config: Config,
    build: Build,
) -> bool {
    &&& entry.name@ == name
    &&& entry.enabled == !dispatch::switched_off(name, config, build)
    &&& entry.success_response == !handlers::is_silent(name)
}

/// Builds the capability list for `config`.
pub fn agent_info(config: &Config, build: Build) -> (info: AgentInfo)
    ensures
        info.version == VERSION,
        info.supported_commands@.len() == SUPPORTED_COMMANDS@.len(),
        forall|i: int|
            0 <= i < SUPPORTED_COMMANDS@.len() ==> advertises(
                #[trigger] info.supported_commands@[i],
                SUPPORTED_COMMANDS@[i]@,
                *config,
                build,
            ),
{
    let names = SUPPORTED_COMMANDS;
    let mut entries: Vec<CommandInfo> = Vec::new();
    for i in 0..14usize
        invariant
            names@ == SUPPORTED_COMMANDS@,
            names@.len() == 14,
            entries@.len() == i,
            forall|j: int|
                0 <= j < i ==> advertises(
                    #[trigger] entries@[j],
                    SUPPORTED_COMMANDS@[j]@,
                    *config,
                    build,
                ),
    {
        let name = names[i];
        entries.push(
            CommandInfo {
                name,
                enabled: is_enabled(config, build, name),
                success_response: !sends_no_success(name),
            },
        );
    }
    AgentInfo { version: VERSION, supported_commands: entries }
}

/// An entry as the reply shows it, its members ordered by name.
pub open spec fn entry_json(entry: CommandInfo) -> json::JsonView {
    json::JsonView::Object(
        seq![
            json::MemberView { name: "enabled"@, value: json::JsonView::Bool(entry.enabled) },
            json::MemberView { name: "name"@, value: json::JsonView::Text(entry.name@) },
            json::MemberView {
                name: "success-response"@,
                value: json::JsonView::Bool(entry.success_response),
            },
        ],
    )
}

fn entry_to_json(entry: &CommandInfo) -> (value: Json)
    ensures
        value@ == entry_json(*entry),
{
    let mut members: Vec<Member> = Vec::new();
    members.push(member("enabled", Json::Bool(entry.enabled)));
    members.push(member("name", string(entry.name)));
    members.push(member("success-response", Json::Bool(entry.success_response)));
    proof {
        assert(json::members_view(members@) =~= entry_json(*entry)->Object_0);
    }
    object(members)
}

/// `guest-info`: the reply.
pub fn handle(info: &AgentInfo) -> (reply: Json)
    ensures
        reply@ == json::JsonView::Object(
            seq![
                json::MemberView {
                    name: "supported_commands"@,
                    value: json::JsonView::List(
                        Seq::new(
                            info.supported_commands@.len(),
                            |i: int| entry_json(info.supported_commands@[i]),
                        ),
                    ),
                },
                json::MemberView {
                    name: "version"@,
                    value: json::JsonView::Text(info.version@),
                },
            ],
        ),
{
    let mut items: Vec<Json> = Vec::new();
    for i in 0..info.supported_commands.len()
        invariant
            items@.len() == i,
            forall|j: int|
                0 <= j < i ==> (#[trigger] items@[j])@ == entry_json(info.supported_commands@[j]),
    {
        items.push(entry_to_json(&info.supported_commands[i]));
    }
    proof {
        assert(json::items_view(items@) =~= Seq::new(
            info.supported_commands@.len(),
            |i: int| entry_json(info.supported_commands@[i]),
        ));
    }
    let mut members: Vec<Member> = Vec::new();
    members.push(member("supported_commands", list(items)));
    members.push(member("version", string(info.version)));
    let ghost want = seq![
        json::MemberView { name: "supported_commands"@, value: members@[0].value@ },
        json::MemberView { name: "version"@, value: json::JsonView::Text(info.version@) },
    ];
    proof {
        assert(json::members_view(members@) =~= want);
    }
    object(members)
}

/// A command is advertised as enabled exactly when the dispatcher would not
/// refuse it as disabled.
pub proof fn law_what_is_advertised_is_what_the_gate_decides(
    entry: CommandInfo,
    name: Seq<char>,
    config: Config,
    build: Build,
    admitted: bool,
    state: crate::state::FreezeState,
)
    requires
        advertises(entry, name, config, build),
        dispatch::allowlisted(name),
    ensures
        entry.enabled <==> !(dispatch::verdict(name, config, build, admitted, state) matches Some(
            denial,
        ) && denial.error is Disabled),
{
}

/// Every command of the allowlist is advertised once, under its name, with
/// whether it can be executed and whether a success is replied to: everything
/// can but a trim or a suspend that is switched off, and everything is but a
/// shutdown and a suspend.
pub proof fn law_every_command_is_advertised(
    config: Config,
    build: Build,
    info: AgentInfo,
    i: int,
    fstrim: bool,
    suspend: bool,
)
    requires
        call_ensures(agent_info, (&config, build), info),
        call_ensures(Config::fstrim_enabled, (&config,), fstrim),
        call_ensures(Config::suspend_ram_enabled, (&config, build), suspend),
        0 <= i < SUPPORTED_COMMANDS@.len(),
    ensures
        info.supported_commands@.len() == 14,
        ({
            let entry = info.supported_commands@[i];
            &&& entry.name@ == SUPPORTED_COMMANDS@[i]@
            &&& entry.enabled <==> !(entry.name@ == "guest-fstrim"@ && !fstrim) && !(entry.name@
                == "guest-suspend-ram"@ && !suspend)
            &&& entry.success_response <==> entry.name@ != "guest-shutdown"@ && entry.name@
                != "guest-suspend-ram"@
        }),
{
    assert(advertises(info.supported_commands@[i], SUPPORTED_COMMANDS@[i]@, config, build));
}

/// An entry of the reply says what it holds, each under its name, and nothing
/// else.
pub proof fn law_an_entry_says_its_fields(
    entry: CommandInfo,
    name: Seq<char>,
    value: json::JsonView,
)
    ensures
        entry_json(entry) is Object,
        json::says(entry_json(entry)->Object_0, name, value) <==> {
            ||| name == "enabled"@ && value == json::JsonView::Bool(entry.enabled)
            ||| name == "name"@ && value == json::JsonView::Text(entry.name@)
            ||| name == "success-response"@ && value == json::JsonView::Bool(
                entry.success_response,
            )
        },
{
    let members = entry_json(entry)->Object_0;
    assert(members[0].name == "enabled"@ && members[1].name == "name"@ && members[2].name
        == "success-response"@);
}

/// The reply says the version and lists every command that is advertised, in
/// order, and nothing else.
pub proof fn law_the_reply_says_its_fields(
    info: AgentInfo,
    reply: Json,
    name: Seq<char>,
    value: json::JsonView,
)
    requires
        call_ensures(handle, (&info,), reply),
    ensures
        reply@ is Object,
        json::says(reply@->Object_0, name, value) <==> {
            ||| name == "version"@ && value == json::JsonView::Text(info.version@)
            ||| name == "supported_commands"@ && value is List && value->List_0.len()
                == info.supported_commands@.len() && (forall|i: int|
                0 <= i < info.supported_commands@.len() ==> #[trigger] value->List_0[i]
                    == entry_json(info.supported_commands@[i]))
        },
{
    let shown = Seq::new(
        info.supported_commands@.len(),
        |i: int| entry_json(info.supported_commands@[i]),
    );
    let members = reply@->Object_0;
    assert(members[0].name == "supported_commands"@);
    assert(members[0].value == json::JsonView::List(shown));
    assert(members[1].name == "version"@);
    if value is List {
        if value->List_0.len() == shown.len() && (forall|i: int|
            0 <= i < info.supported_commands@.len() ==> #[trigger] value->List_0[i] == entry_json(
                info.supported_commands@[i],
            )) {
            assert(value->List_0 =~= shown);
        }
    }
}

} // verus!
