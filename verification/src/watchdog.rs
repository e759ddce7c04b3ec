//! The watchdog: bounds how long filesystems stay frozen.
//!
//! It is armed on every entry into `Frozen` and cancelled when a thaw is
//! claimed. A status heartbeat puts the idle timeout off; nothing puts off the
//! hard cap. When it expires the filesystems are thawed as by a request.
//!
//! Instants are milliseconds on a clock of the caller's that never goes back.

use vstd::prelude::*;

use crate::config::AgentConfig;

verus! {

/// `n`, or the greatest instant there is.
pub open spec fn instant(n: int) -> int {
    if n > u64::MAX {
        u64::MAX as int
    } else {
        n
    }
}

/// The instant `secs` seconds after `at`, or the greatest there is.
fn later(at: u64, secs: u64) -> (instant: u64)
    ensures
        instant == self::instant(at + secs * 1000),
{
    match secs.checked_mul(1000) {
        Some(millis) => at.saturating_add(millis),
        None => u64::MAX,
    }
}

/// An armed watchdog.
#[derive(Debug, Clone, Copy, PartialEq, Eq, Structural)]
pub struct Watchdog {
    /// When it was armed.
    pub armed: u64,
    /// When the last heartbeat came; at first, when it was armed.
    pub heard: u64,
    /// The idle timeout in seconds.
    pub idle_secs: u64,
    /// The hard cap in seconds.
    pub max_secs: u64,
}

impl Watchdog {
    /// When it expires: the idle timeout after the last heartbeat, but no
    /// later than the hard cap after it was armed.
    pub open spec fn expiry(self) -> int {
        let idle = instant(self.heard + self.idle_secs * 1000);
        let cap = instant(self.armed + self.max_secs * 1000);
        if idle < cap {
            idle
        } else {
            cap
        }
    }

    /// Arms a watchdog with the configured timeouts.
    pub fn arm(agent: &AgentConfig, now: u64) -> (watchdog: Watchdog)
        ensures
            watchdog == (Watchdog {
                armed: now,
                heard: now,
                idle_secs: agent.fsfreeze_idle_timeout_secs,
                max_secs: agent.fsfreeze_max_timeout_secs,
            }),
    {
        Watchdog {
            armed: now,
            heard: now,
            idle_secs: agent.fsfreeze_idle_timeout_secs,
            max_secs: agent.fsfreeze_max_timeout_secs,
        }
    }

    /// A heartbeat came.
    pub fn refresh(&mut self, now: u64)
        ensures
            *final(self) == (Watchdog { heard: now, ..*old(self) }),
    {
        self.heard = now;
    }

    /// When it expires.
    pub fn expires_at(&self) -> (at: u64)
        ensures
            at == self.expiry(),
    {
        let idle: u64 = later(self.heard, self.idle_secs);
        let cap: u64 = later(self.armed, self.max_secs);
        if idle < cap {
            idle
        } else {
            cap
        }
    }

    /// Whether it has expired.
    pub fn has_expired(&self, now: u64) -> (expired: bool)
        ensures
            expired == (self.expiry() <= now),
            now < self.heard + 1000 * self.idle_secs && now < self.armed + 1000 * self.max_secs
                && now < u64::MAX ==> !expired,
            now >= self.heard + 1000 * self.idle_secs || now >= self.armed + 1000 * self.max_secs
                ==> expired,
    {
        self.expires_at() <= now
    }
}

/// A watchdog after heartbeats at the given instants.
pub open spec fn after_heartbeats(watchdog: Watchdog, instants: Seq<u64>) -> Watchdog
    decreases instants.len(),
{
    if instants.len() == 0 {
        watchdog
    } else {
        Watchdog { heard: instants.last(), ..after_heartbeats(watchdog, instants.drop_last()) }
    }
}

/// However often the host asks for the status, filesystems do not stay frozen
/// beyond the hard cap.
pub proof fn law_heartbeats_do_not_extend_the_hard_cap(watchdog: Watchdog, instants: Seq<u64>)
    ensures
        after_heartbeats(watchdog, instants).expiry() <= instant(
            watchdog.armed + watchdog.max_secs * 1000,
        ),
{
    lemma_heartbeats(watchdog, instants);
}

/// Once the host falls silent, the idle timeout after its last heartbeat
/// bounds the freeze.
pub proof fn law_silence_expires(watchdog: Watchdog, instants: Seq<u64>)
    requires
        instants.len() > 0,
    ensures
        after_heartbeats(watchdog, instants).expiry() <= instant(
            instants.last() + watchdog.idle_secs * 1000,
        ),
{
    lemma_heartbeats(watchdog, instants);
}

/// Heartbeats change only when the host was last heard.
proof fn lemma_heartbeats(watchdog: Watchdog, instants: Seq<u64>)
    ensures
        after_heartbeats(watchdog, instants) == (Watchdog {
            heard: if instants.len() == 0 {
                watchdog.heard
            } else {
                instants.last()
            },
            ..watchdog
        }),
    decreases instants.len(),
{
    if instants.len() > 0 {
        lemma_heartbeats(watchdog, instants.drop_last());
    }
}

/// The watchdog never expires early: before the idle timeout has passed since
/// the last heartbeat and the hard cap since it was armed, it has not expired.
/// (The greatest instant there is stands for every later one.)
pub proof fn law_it_never_expires_early(watchdog: Watchdog, now: u64, expired: bool, at: u64)
    requires
        now < watchdog.heard + 1000 * watchdog.idle_secs,
        now < watchdog.armed + 1000 * watchdog.max_secs,
        now < u64::MAX,
        call_ensures(Watchdog::has_expired, (&watchdog, now), expired),
        call_ensures(Watchdog::expires_at, (&watchdog,), at),
    ensures
        !expired,
        now < at,
        now < watchdog.expiry(),
{
}

/// The watchdog never expires late: once either has passed, it has expired.
pub proof fn law_it_never_expires_late(watchdog: Watchdog, now: u64, expired: bool, at: u64)
    requires
        now >= watchdog.heard + 1000 * watchdog.idle_secs || now >= watchdog.armed + 1000
            * watchdog.max_secs,
        call_ensures(Watchdog::has_expired, (&watchdog, now), expired),
        call_ensures(Watchdog::expires_at, (&watchdog,), at),
    ensures
        expired,
        at <= now,
        watchdog.expiry() <= now,
{
}

/// A host that is heard at least every idle timeout keeps its filesystems
/// frozen up to the hard cap: with the last heartbeat less than the idle timeout
/// ago, nothing but the cap ends the freeze.
pub proof fn law_heartbeats_keep_it_from_expiring(
    watchdog: Watchdog,
    instants: Seq<u64>,
    now: u64,
)
    requires
        instants.len() > 0,
        now < instants.last() + 1000 * watchdog.idle_secs,
        now < watchdog.armed + 1000 * watchdog.max_secs,
        now < u64::MAX,
    ensures
        now < after_heartbeats(watchdog, instants).expiry(),
        after_heartbeats(watchdog, instants).armed == watchdog.armed,
        after_heartbeats(watchdog, instants).heard == instants.last(),
{
    lemma_heartbeats(watchdog, instants);
}

/// A watchdog is armed with the configured timeouts and counts from then; a
/// heartbeat moves the instant that the idle timeout counts from, and nothing
/// else.
pub proof fn law_what_arming_and_hearing_do(
    agent: AgentConfig,
    now: u64,
    armed: Watchdog,
    heard: &mut Watchdog,
    later: u64,
)
    requires
        call_ensures(Watchdog::arm, (&agent, now), armed),
        call_ensures(Watchdog::refresh, (heard, later), ()),
    ensures
        armed.armed == now,
        armed.heard == now,
        armed.idle_secs == agent.fsfreeze_idle_timeout_secs,
        armed.max_secs == agent.fsfreeze_max_timeout_secs,
        final(heard).heard == later,
        final(heard).armed == old(heard).armed,
        final(heard).idle_secs == old(heard).idle_secs,
        final(heard).max_secs == old(heard).max_secs,
{
}

} // verus!
