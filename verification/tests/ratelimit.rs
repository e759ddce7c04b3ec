use qeminga::config::RateLimits;
use qeminga::dispatch::ratelimit::{CommandClass, RateLimited, RateLimiter};
use qeminga::proto::Error;
use std::time::Duration;

fn limiter() -> RateLimiter {
    RateLimiter::new(&RateLimits::default())
}

fn advance(limiter: &mut RateLimiter, time: Duration) {
    limiter.advance(u64::try_from(time.as_nanos()).unwrap());
}

const LIMITED: [(CommandClass, u32); 5] = [
    (CommandClass::PingSync, 120),
    (CommandClass::Get, 30),
    (CommandClass::FsfreezeFreeze, 10),
    (CommandClass::Fstrim, 5),
    (CommandClass::Shutdown, 2),
];

#[test]
fn classify_every_allowlisted_method() {
    let table = [
        ("guest-ping", Some(CommandClass::PingSync)),
        ("guest-sync", Some(CommandClass::PingSync)),
        ("guest-sync-delimited", Some(CommandClass::PingSync)),
        ("guest-info", Some(CommandClass::PingSync)),
        ("guest-get-osinfo", Some(CommandClass::Get)),
        ("guest-get-fsinfo", Some(CommandClass::Get)),
        ("guest-network-get-interfaces", Some(CommandClass::Get)),
        ("guest-fsfreeze-freeze", Some(CommandClass::FsfreezeFreeze)),
        (
            "guest-fsfreeze-freeze-list",
            Some(CommandClass::FsfreezeFreeze),
        ),
        ("guest-fsfreeze-status", Some(CommandClass::Unlimited)),
        ("guest-fsfreeze-thaw", Some(CommandClass::Unlimited)),
        ("guest-fstrim", Some(CommandClass::Fstrim)),
        ("guest-shutdown", Some(CommandClass::Shutdown)),
        ("guest-suspend-ram", Some(CommandClass::Shutdown)),
        ("guest-exec", None),
        ("guest-get-time", None),
        ("guest-network-get-route", None),
        ("", None),
        ("GUEST-PING", None),
    ];
    for (method, class) in table {
        assert_eq!(CommandClass::of(method), class, "{method}");
    }
}

#[test]
fn quota_allows_n_then_denies() {
    for (class, quota) in LIMITED {
        let mut limiter = limiter();
        assert_eq!(class.quota(&RateLimits::default()), Some(quota));
        for i in 0..quota {
            assert_eq!(limiter.check(class), Ok(()), "{class:?} call {i}");
        }
        let denied = limiter.check(class).unwrap_err();
        assert_eq!(denied, RateLimited { class });
        assert_eq!(
            denied.message(),
            format!("rate limit exceeded for {}", class.name())
        );
        let err = Error::rate_limited(denied);
        assert_eq!(err, Error::RateLimited { class });
        assert!(err.message().contains(class.name()), "{}", err.message());
    }
}

#[test]
fn unlimited_class_never_denies() {
    let mut limiter = limiter();
    assert_eq!(CommandClass::Unlimited.quota(&RateLimits::default()), None);
    for _ in 0..100_000 {
        assert_eq!(limiter.check(CommandClass::Unlimited), Ok(()));
    }
}

#[test]
fn tokens_refill_over_time() {
    for (class, quota) in LIMITED {
        let mut limiter = limiter();
        for _ in 0..quota {
            limiter.check(class).unwrap();
        }
        assert!(limiter.check(class).is_err());
        // Just under one replenish interval: still denied.
        let interval = Duration::from_secs(60) / quota;
        advance(&mut limiter, interval - Duration::from_millis(1));
        assert!(limiter.check(class).is_err(), "{class:?}");
        // At the interval: exactly one more.
        advance(&mut limiter, Duration::from_millis(1));
        assert_eq!(limiter.check(class), Ok(()), "{class:?}");
        assert!(limiter.check(class).is_err(), "{class:?}");
        // A full minute restores the whole burst.
        advance(&mut limiter, Duration::from_secs(60));
        for i in 0..quota {
            assert_eq!(limiter.check(class), Ok(()), "{class:?} call {i}");
        }
        assert!(limiter.check(class).is_err());
    }
}

#[test]
fn classes_have_independent_buckets() {
    let mut limiter = limiter();
    for _ in 0..120 {
        limiter.check(CommandClass::PingSync).unwrap();
    }
    assert!(limiter.check(CommandClass::PingSync).is_err());
    for _ in 0..30 {
        assert_eq!(limiter.check(CommandClass::Get), Ok(()));
    }
    assert!(limiter.check(CommandClass::Get).is_err());
    assert_eq!(limiter.check(CommandClass::Shutdown), Ok(()));
    assert_eq!(limiter.check(CommandClass::Unlimited), Ok(()));
}

#[test]
fn flood_of_1000_pings_in_one_second_is_limited() {
    // A single write of 1000 pings is processed faster than one refill
    // interval (500 ms): exactly the burst gets through.
    let mut flooded = limiter();
    let denied = (0..1000)
        .filter(|_| flooded.check(CommandClass::PingSync).is_err())
        .count();
    assert_eq!(denied, 880);
    // The limiter recovers: a minute later the full burst is back.
    advance(&mut flooded, Duration::from_secs(60));
    for _ in 0..120 {
        assert_eq!(flooded.check(CommandClass::PingSync), Ok(()));
    }

    // Spread evenly over the whole second, one token comes back per 500 ms,
    // so at most two extra pings are admitted.
    let mut spread = limiter();
    let step = Duration::from_secs(1) / 1000;
    let mut denied = 0;
    for _ in 0..1000 {
        if spread.check(CommandClass::PingSync).is_err() {
            denied += 1;
        }
        advance(&mut spread, step);
    }
    assert!((878..=880).contains(&denied), "denied {denied}");
}

#[test]
fn configured_quotas_are_honoured() {
    let limits = RateLimits {
        ping_sync_per_min: 3,
        get_commands_per_min: 1,
        fsfreeze_freeze_per_min: 2,
        fstrim_per_min: 1,
        shutdown_per_min: 1,
    };
    let mut limiter = RateLimiter::new(&limits);
    for _ in 0..3 {
        limiter.check(CommandClass::PingSync).unwrap();
    }
    assert!(limiter.check(CommandClass::PingSync).is_err());
    limiter.check(CommandClass::Get).unwrap();
    assert!(limiter.check(CommandClass::Get).is_err());
}

#[test]
fn limiter_is_send_and_sync_and_real_clock_constructor_works() {
    fn assert_send_sync<T: Send + Sync>() {}
    assert_send_sync::<RateLimiter>();
    let mut real = RateLimiter::new(&RateLimits::default());
    assert_eq!(real.check(CommandClass::Shutdown), Ok(()));
    assert_eq!(real.check(CommandClass::Shutdown), Ok(()));
    assert!(real.check(CommandClass::Shutdown).is_err());
}

#[test]
fn a_quota_of_none_still_admits_one_a_minute() {
    let limits = RateLimits {
        shutdown_per_min: 0,
        ..RateLimits::default()
    };
    let mut limiter = RateLimiter::new(&limits);
    assert_eq!(limiter.check(CommandClass::Shutdown), Ok(()));
    assert!(limiter.check(CommandClass::Shutdown).is_err());
    advance(&mut limiter, Duration::from_secs(60));
    assert_eq!(limiter.check(CommandClass::Shutdown), Ok(()));
}
