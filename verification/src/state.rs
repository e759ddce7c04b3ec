//! The freeze state machine.
//!
//! `Thawed → Freezing → Frozen → Thawing → Thawed`, with the failures:
//! `Freezing → Thawed` (rolled back), `Freezing → Thawing` (aborted),
//! `Thawing → Frozen` (not everything thawed), and `Thawed → Thawing` (a drain
//! of what an earlier instance may have left frozen). A transition that a
//! command has begun is proved by a token: only its holder can end it, and at
//! most one exists at a time.

use vstd::prelude::*;
use vstd::string::*;

verus! {

/// Whether filesystems are frozen.
#[derive(Debug, Clone, Copy, PartialEq, Eq, Structural)]
pub enum FreezeState {
    Thawed,
    Freezing,
    Frozen,
    Thawing,
}

impl FreezeState {
    /// The state's name.
    pub open spec fn text(self) -> Seq<char> {
        match self {
            FreezeState::Thawed => "thawed"@,
            FreezeState::Freezing => "freezing"@,
            FreezeState::Frozen => "frozen"@,
            FreezeState::Thawing => "thawing"@,
        }
    }

    /// The state's name, as audit records carry it.
    pub fn as_str(self) -> (name: &'static str)
        ensures
            name@ == self.text(),
    {
        match self {
            FreezeState::Thawed => "thawed",
            FreezeState::Freezing => "freezing",
            FreezeState::Frozen => "frozen",
            FreezeState::Thawing => "thawing",
        }
    }

    /// Whether only frozen-safe commands are accepted.
    pub fn is_frozen_for_gate(self) -> (frozen: bool)
        ensures
            frozen == (self != FreezeState::Thawed),
    {
        match self {
            FreezeState::Thawed => false,
            _ => true,
        }
    }
}

/// A freeze was asked for while not thawed, or a thaw while neither thawed nor
/// frozen.
#[derive(Debug, Clone, Copy, PartialEq, Eq, Structural)]
pub struct StateError {
    /// The state that does not allow it.
    pub state: FreezeState,
}

impl StateError {
    /// The error in words.
    pub open spec fn text(self) -> Seq<char> {
        "the state is "@ + self.state.text()
    }

    /// The error in words.
    pub fn message(self) -> (text: String)
        ensures
            text@ == self.text(),
    {
        let mut text = "the state is ".to_owned();
        text.append(self.state.as_str());
        text
    }
}

/// Proves that its holder moved the machine into `Freezing`.
#[derive(Debug)]
pub struct FreezeToken {
    _private: (),
}

/// Proves that its holder moved the machine into `Thawing`.
#[derive(Debug)]
pub struct ThawToken {
    recovery_drain: bool,
}

impl ThawToken {
    /// Whether the drain started from `Thawed`.
    pub closed spec fn from_thawed(&self) -> bool {
        self.recovery_drain
    }

    /// Whether the drain started from `Thawed`: nothing was frozen by this
    /// agent.
    pub fn is_recovery_drain(&self) -> (recovery: bool)
        ensures
            recovery == self.from_thawed(),
    {
        self.recovery_drain
    }
}

/// The freeze state machine.
#[derive(Debug)]
pub struct FreezeStateMachine {
    state: FreezeState,
}

impl View for FreezeStateMachine {
    type V = FreezeState;

    closed spec fn view(&self) -> FreezeState {
        self.state
    }
}

impl Default for FreezeStateMachine {
    fn default() -> (machine: Self)
        ensures
            machine@ == FreezeState::Thawed,
    {
        FreezeStateMachine { state: FreezeState::Thawed }
    }
}

impl FreezeStateMachine {
    /// A thawed machine.
    pub fn new() -> (machine: Self)
        ensures
            machine@ == FreezeState::Thawed,
    {
        FreezeStateMachine { state: FreezeState::Thawed }
    }

    /// A machine in the state that an earlier instance left.
    pub fn starting_in(state: FreezeState) -> (machine: Self)
        ensures
            machine@ == state,
    {
        FreezeStateMachine { state }
    }

    /// The state.
    pub fn current(&self) -> (state: FreezeState)
        ensures
            state == self@,
    {
        self.state
    }

    /// Whether only frozen-safe commands are accepted.
    pub fn is_frozen_for_gate(&self) -> (frozen: bool)
        ensures
            frozen == (self@ != FreezeState::Thawed),
    {
        self.state.is_frozen_for_gate()
    }

    /// `Thawed → Freezing`.
    pub fn begin_freeze(&mut self) -> (claimed: Result<FreezeToken, StateError>)
        ensures
            claimed is Ok <==> old(self)@ == FreezeState::Thawed,
            claimed is Ok ==> final(self)@ == FreezeState::Freezing,
            claimed matches Err(err) ==> err.state == old(self)@ && final(self)@ == old(self)@,
    {
        match self.state {
            FreezeState::Thawed => {
                self.state = FreezeState::Freezing;
                Ok(FreezeToken { _private: () })
            },
            state => Err(StateError { state }),
        }
    }

    /// `Frozen → Thawing`, or `Thawed → Thawing` for a recovery drain.
    pub fn claim_thaw(&mut self) -> (claimed: Result<ThawToken, StateError>)
        ensures
            claimed is Ok <==> old(self)@ == FreezeState::Frozen || old(self)@
                == FreezeState::Thawed,
            claimed matches Ok(token) ==> final(self)@ == FreezeState::Thawing
                && token.from_thawed() == (old(self)@ == FreezeState::Thawed),
            claimed matches Err(err) ==> err.state == old(self)@ && final(self)@ == old(self)@,
    {
        match self.state {
            FreezeState::Frozen => {
                self.state = FreezeState::Thawing;
                Ok(ThawToken { recovery_drain: false })
            },
            FreezeState::Thawed => {
                self.state = FreezeState::Thawing;
                Ok(ThawToken { recovery_drain: true })
            },
            state => Err(StateError { state }),
        }
    }

    /// `Freezing → Frozen`.
    pub fn freeze_succeeded(&mut self, token: FreezeToken)
        ensures
            final(self)@ == FreezeState::Frozen,
    {
        self.state = FreezeState::Frozen;
    }

    /// `Freezing → Thawed`.
    pub fn freeze_failed(&mut self, token: FreezeToken)
        ensures
            final(self)@ == FreezeState::Thawed,
    {
        self.state = FreezeState::Thawed;
    }

    /// `Freezing → Thawing`: the freeze is given up and what it froze is
    /// thawed.
    pub fn abort_freeze(&mut self, token: FreezeToken) -> (thaw: ThawToken)
        ensures
            final(self)@ == FreezeState::Thawing,
            !thaw.from_thawed(),
    {
        self.state = FreezeState::Thawing;
        ThawToken { recovery_drain: false }
    }

    /// `Thawing → Thawed`.
    pub fn thaw_succeeded(&mut self, token: ThawToken)
        ensures
            final(self)@ == FreezeState::Thawed,
    {
        self.state = FreezeState::Thawed;
    }

    /// `Thawing → Frozen`.
    pub fn thaw_failed(&mut self, token: ThawToken)
        ensures
            final(self)@ == FreezeState::Frozen,
    {
        self.state = FreezeState::Frozen;
    }
}

/// The states have four different names, and a refusal tells the one that the
/// machine is in.
pub proof fn law_the_names_of_the_states(state: FreezeState, other: FreezeState)
    ensures
        FreezeState::Thawed.text() == "thawed"@,
        FreezeState::Freezing.text() == "freezing"@,
        FreezeState::Frozen.text() == "frozen"@,
        FreezeState::Thawing.text() == "thawing"@,
        state.text() == other.text() ==> state == other,
        (StateError { state }).text() == "the state is "@ + state.text(),
{
    reveal_strlit("thawed");
    reveal_strlit("freezing");
    reveal_strlit("frozen");
    reveal_strlit("thawing");
    assert("thawed"@.len() == 6);
    assert("freezing"@.len() == 8);
    assert("frozen"@.len() == 6);
    assert("thawing"@.len() == 7);
    assert("thawed"@[0] == 't');
    assert("frozen"@[0] == 'f');
}

/// A freeze can be begun only while thawed, and a thaw only while thawed or
/// frozen; a refusal names the state and leaves it.
pub proof fn law_what_can_be_claimed(
    freezing: &mut FreezeStateMachine,
    freeze: Result<FreezeToken, StateError>,
    thawing: &mut FreezeStateMachine,
    thaw: Result<ThawToken, StateError>,
)
    requires
        call_ensures(FreezeStateMachine::begin_freeze, (freezing,), freeze),
        call_ensures(FreezeStateMachine::claim_thaw, (thawing,), thaw),
    ensures
        old(freezing)@ == FreezeState::Thawed ==> freeze is Ok && final(freezing)@
            == FreezeState::Freezing,
        old(freezing)@ != FreezeState::Thawed ==> freeze is Err && freeze->Err_0.state
            == old(freezing)@ && final(freezing)@ == old(freezing)@,
        old(thawing)@ == FreezeState::Frozen ==> thaw is Ok && !thaw->Ok_0.from_thawed()
            && final(thawing)@ == FreezeState::Thawing,
        old(thawing)@ == FreezeState::Thawed ==> thaw is Ok && thaw->Ok_0.from_thawed()
            && final(thawing)@ == FreezeState::Thawing,
        old(thawing)@ == FreezeState::Freezing || old(thawing)@ == FreezeState::Thawing ==> thaw
            is Err && thaw->Err_0.state == old(thawing)@ && final(thawing)@ == old(thawing)@,
{
}

} // verus!
