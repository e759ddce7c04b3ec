//! `guest-ping`: liveness check, replies `{}`.

use vstd::prelude::*;

use crate::json::{object, Json, Member};
use crate::json;

verus! {

/// Replies `{}`.
pub fn handle() -> (reply: Json)
    ensures
        reply@ == json::JsonView::Object(Seq::empty()),
{
    let members: Vec<Member> = Vec::new();
    proof {
        assert(json::members_view(members@) =~= Seq::empty());
    }
    object(members)
}

} // verus!
