//! Audit `reason` values for denied frames.

use vstd::prelude::*;

verus! {

/// The frame exceeded the frame length bound.
pub const OVERSIZED_FRAME: &'static str = "oversized_frame";

/// The frame was not a valid request.
pub const PARSE_ERROR: &'static str = "parse_error";

/// The method is not allowlisted.
pub const COMMAND_NOT_FOUND: &'static str = "command_not_found";

/// The method is allowlisted but disabled by configuration.
pub const DISABLED: &'static str = "disabled";

/// The class's token bucket was empty.
pub const RATE_LIMITED: &'static str = "rate_limited";

/// The method is not frozen-safe and filesystems are frozen.
pub const FROZEN: &'static str = "frozen";

} // verus!
