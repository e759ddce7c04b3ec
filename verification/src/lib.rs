//! The decision logic of a minimal QEMU guest agent.

pub mod audit;
pub mod channel;
pub mod config;
pub mod daemon;
pub mod dispatch;
pub mod framing;
pub mod freeze_op;
pub mod freeze_plan;
pub mod handlers;
pub mod json;
pub mod kernel;
pub mod marker;
pub mod mountinfo;
pub mod proto;
pub mod state;
pub mod text;
pub mod watchdog;

use vstd::prelude::*;

verus! {

/// The version of this agent.
pub const VERSION: &'static str = "0.1.0";

} // verus!
