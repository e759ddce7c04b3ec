//! `guest-fstrim`.
//!
//! Trims every filesystem in the freeze plan, in forward mount order, with the
//! requested minimum extent (by default nought). Failures are reported inline
//! in that path's `error` field rather than failing the whole command.

pub mod past;
pub mod walk;

use vstd::prelude::*;
use vstd::string::*;

use crate::freeze_plan::FreezePlan;
use crate::freeze_plan;
use crate::json::{list, member, object, string, Json, Member};
use crate::json;
use crate::kernel::KernelError;
use crate::text::lossy_text;
use crate::text;

verus! {

/// Arguments of `guest-fstrim`.
#[derive(Debug, Clone, Copy, PartialEq, Eq)]
pub struct FstrimArgs {
    /// Minimum contiguous free range to discard, in bytes (by default nought).
    pub minimum: Option<u64>,
}

impl FstrimArgs {
    /// The minimum to ask for.
    pub fn minimum(&self) -> (minimum: u64)
        ensures
            minimum == match self.minimum {
                Some(n) => n,
                None => 0,
            },
    {
        match self.minimum {
            Some(n) => n,
            None => 0,
        }
    }
}

/// What the kernel trimmed.
#[derive(Debug, Clone, Copy, PartialEq, Eq, Structural)]
pub struct Trimmed {
    /// Bytes trimmed.
    pub bytes: u64,
    /// The minimum extent the kernel applied.
    pub minimum: u64,
}

/// What came of trimming a target.
#[derive(Debug, PartialEq, Eq)]
pub enum TrimOutcome {
    /// It was trimmed.
    Done(Trimmed),
    /// The ioctl failed.
    Failed(KernelError),
    /// No mount point leads to the target (the attempts, in order).
    Unreachable(String),
}

/// What came of trimming a target, as a mathematical value.
#[verifier::ext_equal]
pub ghost enum TrimOutcomeView {
    Done(Trimmed),
    Failed(KernelError),
    Unreachable(Seq<char>),
}

impl TrimOutcomeView {
    /// What an answer of the kernel comes to.
    pub open spec fn answered(answer: Result<Trimmed, KernelError>) -> TrimOutcomeView {
        match answer {
            Ok(trimmed) => TrimOutcomeView::Done(trimmed),
            Err(err) => TrimOutcomeView::Failed(err),
        }
    }

    /// Why the target was not trimmed, if it was not.
    pub open spec fn error(self) -> Option<Seq<char>> {
        match self {
            TrimOutcomeView::Done(_) => None,
            TrimOutcomeView::Failed(err) => Some(err.text()),
            TrimOutcomeView::Unreachable(attempts) => Some(
                "no mount point leads to it ("@ + attempts + ")"@,
            ),
        }
    }
}

impl View for TrimOutcome {
    type V = TrimOutcomeView;

    open spec fn view(&self) -> TrimOutcomeView {
        match self {
            TrimOutcome::Done(trimmed) => TrimOutcomeView::Done(*trimmed),
            TrimOutcome::Failed(err) => TrimOutcomeView::Failed(*err),
            TrimOutcome::Unreachable(attempts) => TrimOutcomeView::Unreachable(attempts@),
        }
    }
}

/// Outcomes, each taken by its view.
pub open spec fn outcomes_view(outcomes: Seq<TrimOutcome>) -> Seq<TrimOutcomeView> {
    Seq::new(outcomes.len(), |i: int| outcomes[i]@)
}

/// One `GuestFilesystemTrimResult`.
#[derive(Debug, Clone, PartialEq, Eq)]
pub struct TrimResult {
    /// The mount point.
    pub path: String,
    /// Bytes trimmed; absent on error.
    pub trimmed: Option<u64>,
    /// The minimum extent the kernel applied (the request rounded up to the
    /// block size and the discard granularity); absent on error.
    pub minimum: Option<u64>,
    /// Why this mount point could not be trimmed; absent on success.
    pub error: Option<String>,
}

/// The `GuestFilesystemTrimResponse`.
#[derive(Debug, Clone, PartialEq, Eq)]
pub struct TrimResponse {
    /// One entry per plan target, in mount order.
    pub paths: Vec<TrimResult>,
}

/// A result is what an outcome on a target says.
pub open spec fn reports(
    result: TrimResult,
    target: freeze_plan::TargetView,
    outcome: TrimOutcomeView,
) -> bool {
    &&& result.path@ == text::lossy(target.mountpoint)
    &&& match outcome {
        TrimOutcomeView::Done(trimmed) => result.trimmed == Some(trimmed.bytes) && result.minimum
            == Some(trimmed.minimum) && result.error is None,
        _ => result.trimmed is None && result.minimum is None && (result.error matches Some(why)
            && Some(why@) == outcome.error()),
    }
}

/// Reports on every target of `plan`, in mount order: a failure on one path
/// never stops the others.
pub fn trim_plan(plan: &FreezePlan, outcomes: Vec<TrimOutcome>) -> (response: TrimResponse)
    requires
        outcomes@.len() == plan.target_list().len(),
    ensures
        response.paths@.len() == plan.target_list().len(),
        forall|i: int|
            0 <= i < outcomes@.len() ==> reports(
                #[trigger] response.paths@[i],
                plan.target_list()[i],
                outcomes@[i]@,
            ),
{
    let targets = plan.thaw_order();
    let mut paths: Vec<TrimResult> = Vec::new();
    for i in 0..targets.len()
        invariant
            targets@.len() == plan.targets@.len(),
            outcomes@.len() == targets@.len(),
            plan.target_list() == freeze_plan::targets_view(plan.targets@),
            forall|j: int| 0 <= j < targets@.len() ==> *#[trigger] targets@[j] == plan.targets@[j],
            paths@.len() == i,
            forall|j: int|
                0 <= j < i ==> reports(
                    #[trigger] paths@[j],
                    plan.target_list()[j],
                    outcomes@[j]@,
                ),
    {
        let path = lossy_text(&targets[i].mountpoint);
        let result = match &outcomes[i] {
            TrimOutcome::Done(trimmed) => TrimResult {
                path,
                trimmed: Some(trimmed.bytes),
                minimum: Some(trimmed.minimum),
                error: None,
            },
            TrimOutcome::Failed(err) => TrimResult {
                path,
                trimmed: None,
                minimum: None,
                error: Some(err.message()),
            },
            TrimOutcome::Unreachable(attempts) => TrimResult {
                path,
                trimmed: None,
                minimum: None,
                error: Some(
                    "no mount point leads to it (".to_owned().concat(attempts.as_str()).concat(
                        ")",
                    ),
                ),
            },
        };
        paths.push(result);
    }
    TrimResponse { paths }
}

/// A member for a number that is present.
pub open spec fn number_member(name: Seq<char>, n: Option<u64>) -> Seq<json::MemberView> {
    match n {
        Some(n) => seq![json::MemberView { name, value: json::JsonView::Int(n as int) }],
        None => Seq::empty(),
    }
}

/// A result as the reply shows it, its members ordered by name.
pub open spec fn result_json(result: TrimResult) -> json::JsonView {
    json::JsonView::Object(
        (match result.error {
            Some(why) => seq![
                json::MemberView { name: "error"@, value: json::JsonView::Text(why@) },
            ],
            None => Seq::empty(),
        }) + number_member("minimum"@, result.minimum) + seq![
            json::MemberView { name: "path"@, value: json::JsonView::Text(result.path@) },
        ] + number_member("trimmed"@, result.trimmed),
    )
}

impl TrimResult {
    /// The result as the reply shows it.
    pub fn to_json(&self) -> (value: Json)
        ensures
            value@ == result_json(*self),
    {
        let mut members: Vec<Member> = Vec::new();
        if let Some(why) = &self.error {
            members.push(member("error", string(why.as_str())));
        }
        if let Some(n) = self.minimum {
            members.push(member("minimum", Json::Uint(n)));
        }
        members.push(member("path", string(self.path.as_str())));
        if let Some(n) = self.trimmed {
            members.push(member("trimmed", Json::Uint(n)));
        }
        proof {
            assert(json::members_view(members@) =~= result_json(*self)->Object_0);
        }
        object(members)
    }
}

/// `guest-fstrim`: the reply.
pub fn handle(response: &TrimResponse) -> (reply: Json)
    ensures
        reply@ == json::JsonView::Object(
            seq![
                json::MemberView {
                    name: "paths"@,
                    value: json::JsonView::List(
                        Seq::new(
                            response.paths@.len(),
                            |i: int| result_json(response.paths@[i]),
                        ),
                    ),
                },
            ],
        ),
{
    let mut items: Vec<Json> = Vec::new();
    for i in 0..response.paths.len()
        invariant
            items@.len() == i,
            forall|j: int|
                0 <= j < i ==> (#[trigger] items@[j])@ == result_json(response.paths@[j]),
    {
        items.push(response.paths[i].to_json());
    }
    proof {
        assert(json::items_view(items@) =~= Seq::new(
            response.paths@.len(),
            |i: int| result_json(response.paths@[i]),
        ));
    }
    let mut members: Vec<Member> = Vec::new();
    members.push(member("paths", list(items)));
    let ghost want = seq![json::MemberView { name: "paths"@, value: members@[0].value@ }];
    proof {
        assert(json::members_view(members@) =~= want);
    }
    object(members)
}

/// What a target's entry says: its pathname always; where it was trimmed, what
/// the kernel trimmed and applied, and no error; where it was not, why, and no
/// number.
pub proof fn law_what_an_entry_reports(
    result: TrimResult,
    target: freeze_plan::TargetView,
    outcome: TrimOutcomeView,
)
    requires
        reports(result, target, outcome),
    ensures
        result.path@ == text::lossy(target.mountpoint),
        outcome matches TrimOutcomeView::Done(trimmed) ==> result.trimmed == Some(trimmed.bytes)
            && result.minimum == Some(trimmed.minimum) && result.error is None,
        outcome matches TrimOutcomeView::Failed(err) ==> result.trimmed is None
            && result.minimum is None && result.error is Some && result.error->0@ == err.text(),
        outcome matches TrimOutcomeView::Unreachable(attempts) ==> result.trimmed is None
            && result.minimum is None && result.error is Some && result.error->0@
            == "no mount point leads to it ("@ + attempts + ")"@,
{
}

/// An answer of the kernel is taken at its word.
pub proof fn law_an_answer_is_taken_at_its_word(answer: Result<Trimmed, KernelError>)
    ensures
        answer matches Ok(trimmed) ==> TrimOutcomeView::answered(answer) == TrimOutcomeView::Done(
            trimmed,
        ),
        answer matches Err(err) ==> TrimOutcomeView::answered(answer) == TrimOutcomeView::Failed(
            err,
        ),
{
}

/// An entry of the reply says what its result holds, each under its name, and
/// nothing else.
pub proof fn law_an_entry_says_its_fields(
    result: TrimResult,
    name: Seq<char>,
    value: json::JsonView,
)
    ensures
        result_json(result) is Object,
        json::says(result_json(result)->Object_0, name, value) <==> {
            ||| name == "path"@ && value == json::JsonView::Text(result.path@)
            ||| name == "trimmed"@ && result.trimmed is Some && value == json::JsonView::Int(
                result.trimmed->0 as int,
            )
            ||| name == "minimum"@ && result.minimum is Some && value == json::JsonView::Int(
                result.minimum->0 as int,
            )
            ||| name == "error"@ && result.error is Some && value == json::JsonView::Text(
                result.error->0@,
            )
        },
{
    let error = match result.error {
        Some(why) => seq![json::MemberView { name: "error"@, value: json::JsonView::Text(why@) }],
        None => Seq::empty(),
    };
    let minimum = number_member("minimum"@, result.minimum);
    let path = seq![json::MemberView { name: "path"@, value: json::JsonView::Text(result.path@) }];
    let trimmed = number_member("trimmed"@, result.trimmed);
    json::lemma_says_concat(error, minimum, name, value);
    json::lemma_says_concat(error + minimum, path, name, value);
    json::lemma_says_concat(error + minimum + path, trimmed, name, value);
    assert(path[0].name == "path"@);
    if result.error is Some {
        assert(error[0].name == "error"@);
    }
    if result.minimum is Some {
        assert(minimum[0].name == "minimum"@);
    }
    if result.trimmed is Some {
        assert(trimmed[0].name == "trimmed"@);
    }
}

/// The minimum that is asked for is the requested one, or nought.
pub proof fn law_the_minimum_that_is_asked_for(args: FstrimArgs, minimum: u64)
    requires
        call_ensures(FstrimArgs::minimum, (&args,), minimum),
    ensures
        args.minimum is None ==> minimum == 0,
        args.minimum matches Some(n) ==> minimum == n,
{
}

/// The reply lists every result, in order, under `paths`, and says nothing else.
pub proof fn law_the_reply_says_its_results(
    response: TrimResponse,
    reply: Json,
    name: Seq<char>,
    value: json::JsonView,
)
    requires
        call_ensures(handle, (&response,), reply),
    ensures
        reply@ is Object,
        json::says(reply@->Object_0, name, value) <==> name == "paths"@ && value is List
            && value->List_0.len() == response.paths@.len() && (forall|i: int|
            0 <= i < response.paths@.len() ==> #[trigger] value->List_0[i] == result_json(
                response.paths@[i],
            )),
{
    let shown = Seq::new(response.paths@.len(), |i: int| result_json(response.paths@[i]));
    let members = reply@->Object_0;
    assert(members[0].name == "paths"@);
    assert(members[0].value == json::JsonView::List(shown));
    if value is List {
        if value->List_0.len() == shown.len() && (forall|i: int|
            0 <= i < response.paths@.len() ==> #[trigger] value->List_0[i] == result_json(
                response.paths@[i],
            )) {
            assert(value->List_0 =~= shown);
        }
    }
}

/// Every target of the plan has its entry in the report, in mount order, and
/// the entry tells that target's outcome.
pub proof fn law_every_target_is_reported(
    plan: FreezePlan,
    outcomes: Vec<TrimOutcome>,
    response: TrimResponse,
    i: int,
)
    requires
        outcomes@.len() == plan.target_list().len(),
        call_ensures(trim_plan, (&plan, outcomes), response),
        0 <= i < plan.target_list().len(),
    ensures
        response.paths@.len() == plan.target_list().len(),
        response.paths@[i].path@ == text::lossy(plan.target_list()[i].mountpoint),
        response.paths@[i].trimmed is Some <==> outcomes@[i] is Done,
        response.paths@[i].error is None <==> outcomes@[i] is Done,
        outcomes@[i] matches TrimOutcome::Done(trimmed) ==> response.paths@[i].trimmed == Some(
            trimmed.bytes,
        ) && response.paths@[i].minimum == Some(trimmed.minimum),
{
    assert(reports(response.paths@[i], plan.target_list()[i], outcomes@[i]@));
}

} // verus!
