use qeminga::config::Config;
use qeminga::watchdog::Watchdog;

fn armed(idle: u64, max: u64, now: u64) -> Watchdog {
    let mut config = Config::default();
    config.agent.fsfreeze_idle_timeout_secs = idle;
    config.agent.fsfreeze_max_timeout_secs = max;
    Watchdog::arm(&config.agent, now)
}

#[test]
fn silence_expires_after_the_idle_timeout() {
    let mut watchdog = armed(30, 300, 1_000);
    // Heartbeats keep it from expiring.
    for i in 1..=4 {
        let now = 1_000 + i * 20_000;
        assert!(!watchdog.has_expired(now));
        watchdog.refresh(now);
    }
    assert_eq!(watchdog.expires_at(), 111_000);
    assert!(!watchdog.has_expired(110_999));
    assert!(watchdog.has_expired(111_000));
}

#[test]
fn the_hard_cap_wins_over_heartbeats() {
    let mut watchdog = armed(30, 60, 0);
    for i in 1..=6 {
        watchdog.refresh(i * 10_000);
    }
    assert_eq!(watchdog.expires_at(), 60_000);
    assert!(watchdog.has_expired(60_000));
}

#[test]
fn an_expiry_beyond_the_clock_is_its_last_instant() {
    let watchdog = armed(30, 300, u64::MAX - 1);
    assert_eq!(watchdog.expires_at(), u64::MAX);
}

#[test]
fn timeouts_beyond_the_clock_never_expire_early() {
    let watchdog = armed(u64::MAX, u64::MAX, 5);
    assert_eq!(watchdog.expires_at(), u64::MAX);
    assert!(!watchdog.has_expired(u64::MAX - 1));
    let watchdog = armed(u64::MAX, 1, u64::MAX - 2000);
    assert_eq!(watchdog.expires_at(), u64::MAX - 1000);
}
