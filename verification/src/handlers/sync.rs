//! `guest-sync` and `guest-sync-delimited`.
//!
//! Both echo the integer `id` argument. The dispatcher prefixes every reply to
//! `guest-sync-delimited` with the sentinel, whether or not the request frame
//! carried one.

use vstd::prelude::*;

use crate::json::Json;
use crate::json;

verus! {

/// Arguments of `guest-sync` and `guest-sync-delimited`.
#[derive(Debug, Clone, Copy, PartialEq, Eq, Structural)]
pub struct SyncArgs {
    /// The value to echo; any `i64`.
    pub id: i64,
}

/// `guest-sync`: replies with the `id` argument.
pub fn sync(args: SyncArgs) -> (reply: Json)
    ensures
        reply@ == json::JsonView::Int(args.id as int),
{
    Json::Int(args.id)
}

/// `guest-sync-delimited`: same reply as [`sync`]; the sentinel prefix is added
/// by the dispatcher when encoding.
pub fn sync_delimited(args: SyncArgs) -> (reply: Json)
    ensures
        reply@ == json::JsonView::Int(args.id as int),
{
    sync(args)
}

/// Whatever number the host sends, it gets the same number back.
pub proof fn law_the_number_is_echoed(args: SyncArgs, plain: Json, delimited: Json)
    requires
        call_ensures(sync, (args,), plain),
        call_ensures(sync_delimited, (args,), delimited),
    ensures
        plain@ == json::JsonView::Int(args.id as int),
        delimited@ == plain@,
{
}

} // verus!
