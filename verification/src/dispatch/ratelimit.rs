//! Per-class token-bucket rate limiting.
//!
//! Every allowlisted method belongs to exactly one [`CommandClass`]; each class
//! with a quota owns an independent bucket of that many tokens, replenished
//! evenly over a minute. [`CommandClass::Unlimited`] (`guest-fsfreeze-status`,
//! `guest-fsfreeze-thaw`) never denies: a frozen filesystem must always be
//! thaw-able.
//!
//! The buckets are limiters of the `governor` crate on a clock that moves when
//! it is told how much time has passed ([`RateLimiter::advance`]).

use vstd::prelude::*;
use vstd::string::*;

use crate::config::RateLimits;
use crate::text::same_text;

verus! {

/// The rate-limit class of a command.
#[derive(Debug, Clone, Copy, PartialEq, Eq, Structural, Hash)]
pub enum CommandClass {
    /// `guest-ping`, `guest-sync`, `guest-sync-delimited`, `guest-info`.
    PingSync,
    /// `guest-get-osinfo`, `guest-get-fsinfo`, `guest-network-get-interfaces`.
    Get,
    /// `guest-fsfreeze-freeze`, `guest-fsfreeze-freeze-list`.
    FsfreezeFreeze,
    /// `guest-fsfreeze-status`, `guest-fsfreeze-thaw`: never limited.
    Unlimited,
    /// `guest-fstrim`.
    Fstrim,
    /// `guest-shutdown`, `guest-suspend-ram`.
    Shutdown,
}

/// The class of a method; `None` for one that is not allowlisted.
pub open spec fn class_of(method: Seq<char>) -> Option<CommandClass> {
    if method == "guest-ping"@ || method == "guest-sync"@ || method == "guest-sync-delimited"@
        || method == "guest-info"@ {
        Some(CommandClass::PingSync)
    } else if method == "guest-get-osinfo"@ || method == "guest-get-fsinfo"@ || method
        == "guest-network-get-interfaces"@ {
        Some(CommandClass::Get)
    } else if method == "guest-fsfreeze-freeze"@ || method == "guest-fsfreeze-freeze-list"@ {
        Some(CommandClass::FsfreezeFreeze)
    } else if method == "guest-fsfreeze-status"@ || method == "guest-fsfreeze-thaw"@ {
        Some(CommandClass::Unlimited)
    } else if method == "guest-fstrim"@ {
        Some(CommandClass::Fstrim)
    } else if method == "guest-shutdown"@ || method == "guest-suspend-ram"@ {
        Some(CommandClass::Shutdown)
    } else {
        None
    }
}

impl CommandClass {
    /// Classifies an allowlisted method; `None` for anything else.
    pub fn of(method: &str) -> (class: Option<CommandClass>)
        ensures
            class == class_of(method@),
    {
        if same_text(method, "guest-ping") || same_text(method, "guest-sync") || same_text(
            method,
            "guest-sync-delimited",
        ) || same_text(method, "guest-info") {
            Some(CommandClass::PingSync)
        } else if same_text(method, "guest-get-osinfo") || same_text(method, "guest-get-fsinfo")
            || same_text(method, "guest-network-get-interfaces") {
            Some(CommandClass::Get)
        } else if same_text(method, "guest-fsfreeze-freeze") || same_text(
            method,
            "guest-fsfreeze-freeze-list",
        ) {
            Some(CommandClass::FsfreezeFreeze)
        } else if same_text(method, "guest-fsfreeze-status") || same_text(
            method,
            "guest-fsfreeze-thaw",
        ) {
            Some(CommandClass::Unlimited)
        } else if same_text(method, "guest-fstrim") {
            Some(CommandClass::Fstrim)
        } else if same_text(method, "guest-shutdown") || same_text(method, "guest-suspend-ram") {
            Some(CommandClass::Shutdown)
        } else {
            None
        }
    }

    /// The name used in error descriptions and audit records.
    pub open spec fn text(self) -> Seq<char> {
        match self {
            CommandClass::PingSync => "ping_sync"@,
            CommandClass::Get => "get_commands"@,
            CommandClass::FsfreezeFreeze => "fsfreeze_freeze"@,
            CommandClass::Unlimited => "unlimited"@,
            CommandClass::Fstrim => "fstrim"@,
            CommandClass::Shutdown => "shutdown"@,
        }
    }

    /// The name used in error descriptions and audit records; matches the
    /// `[rate_limits]` key without the `_per_min` suffix.
    pub fn name(self) -> (name: &'static str)
        ensures
            name@ == self.text(),
    {
        match self {
            CommandClass::PingSync => "ping_sync",
            CommandClass::Get => "get_commands",
            CommandClass::FsfreezeFreeze => "fsfreeze_freeze",
            CommandClass::Unlimited => "unlimited",
            CommandClass::Fstrim => "fstrim",
            CommandClass::Shutdown => "shutdown",
        }
    }

    /// The configured per-minute quota, or `None` for [`Self::Unlimited`].
    pub open spec fn configured(self, limits: RateLimits) -> Option<u32> {
        match self {
            CommandClass::PingSync => Some(limits.ping_sync_per_min),
            CommandClass::Get => Some(limits.get_commands_per_min),
            CommandClass::FsfreezeFreeze => Some(limits.fsfreeze_freeze_per_min),
            CommandClass::Unlimited => None,
            CommandClass::Fstrim => Some(limits.fstrim_per_min),
            CommandClass::Shutdown => Some(limits.shutdown_per_min),
        }
    }

    /// The configured per-minute quota, or `None` for [`Self::Unlimited`].
    pub fn quota(self, limits: &RateLimits) -> (quota: Option<u32>)
        ensures
            quota == self.configured(*limits),
    {
        match self {
            CommandClass::PingSync => Some(limits.ping_sync_per_min),
            CommandClass::Get => Some(limits.get_commands_per_min),
            CommandClass::FsfreezeFreeze => Some(limits.fsfreeze_freeze_per_min),
            CommandClass::Unlimited => None,
            CommandClass::Fstrim => Some(limits.fstrim_per_min),
            CommandClass::Shutdown => Some(limits.shutdown_per_min),
        }
    }
}

/// The limiter denied a request.
#[derive(Debug, Clone, Copy, PartialEq, Eq, Structural)]
pub struct RateLimited {
    /// The exhausted class.
    pub class: CommandClass,
}

impl RateLimited {
    /// What the host is told.
    pub open spec fn text(self) -> Seq<char> {
        "rate limit exceeded for "@ + self.class.text()
    }

    /// What the host is told.
    pub fn message(self) -> (message: String)
        ensures
            message@ == self.text(),
    {
        "rate limit exceeded for ".to_owned().concat(self.class.name())
    }
}

/// A minute in nanoseconds.
pub const MINUTE_NANOS: u64 = 60_000_000_000;

/// The longest that a limiter keeps time, in nanoseconds: two minutes short of
/// what its clock can hold.
pub const MAX_TIME_NANOS: u64 = 18_446_743_953_709_551_615;

/// What a bucket knows: its quota per minute, the time on its clock, and the
/// time at which it would be full again, both in nanoseconds.
pub ghost struct BucketView {
    pub quota: nat,
    pub time: nat,
    pub full_at: nat,
}

/// How long one token takes to come back.
pub open spec fn interval(quota: nat) -> nat {
    MINUTE_NANOS as nat / quota
}

impl BucketView {
    /// What holds of every bucket in use.
    pub open spec fn valid(self) -> bool {
        &&& 0 < self.quota <= u32::MAX
        &&& self.time <= MAX_TIME_NANOS
        &&& self.full_at <= self.time + self.quota * interval(self.quota)
    }

    /// A token is left: the bucket lacks less than its quota.
    pub open spec fn has_token(self) -> bool {
        self.full_at <= self.time + (self.quota - 1) * interval(self.quota)
    }

    /// The bucket after a request: a token is taken if one is left.
    pub open spec fn asked(self) -> BucketView {
        if self.has_token() {
            let from = if self.full_at > self.time {
                self.full_at
            } else {
                self.time
            };
            BucketView { full_at: from + interval(self.quota), ..self }
        } else {
            self
        }
    }

    /// The bucket later.
    pub open spec fn later(self, nanos: nat) -> BucketView {
        BucketView { time: self.time + nanos, ..self }
    }
}

/// A token bucket: a direct limiter of the `governor` crate and its clock.
#[verifier::external_body]
pub struct Bucket {
    limiter: governor::RateLimiter<
        governor::state::NotKeyed,
        governor::state::InMemoryState,
        governor::clock::FakeRelativeClock,
        governor::middleware::NoOpMiddleware<governor::nanos::Nanos>,
    >,
    clock: governor::clock::FakeRelativeClock,
}

/// What a bucket holds.
pub uninterp spec fn bucket_state(bucket: Bucket) -> BucketView;

/// `governor::RateLimiter::direct_with_clock` with `Quota::per_minute`: a
/// bucket that is full, on a clock that stands at nought.
#[verifier::external_body]
fn new_bucket(quota: u32) -> (bucket: Bucket)
    requires
        quota > 0,
    ensures
        bucket_state(bucket) == (BucketView { quota: quota as nat, time: 0, full_at: 0 }),
{
    let clock = governor::clock::FakeRelativeClock::default();
    let cells = std::num::NonZeroU32::new(quota).expect("a positive quota");
    let limiter = governor::RateLimiter::direct_with_clock(
        governor::Quota::per_minute(cells),
        clock.clone(),
    );
    Bucket { limiter, clock }
}

/// `governor::clock::FakeRelativeClock::advance`: moves the bucket's clock on
/// and nothing else.
#[verifier::external_body]
fn advance_bucket(bucket: &mut Bucket, nanos: u64)
    requires
        bucket_state(*old(bucket)).time + nanos <= MAX_TIME_NANOS,
    ensures
        bucket_state(*final(bucket)) == bucket_state(*old(bucket)).later(nanos as nat),
{
    bucket.clock.advance(std::time::Duration::from_nanos(nanos));
}

/// `governor::RateLimiter::check`: takes a token if one is left, and says
/// whether it did.
#[verifier::external_body]
fn take_token(bucket: &mut Bucket) -> (taken: bool)
    requires
        bucket_state(*old(bucket)).valid(),
    ensures
        taken == bucket_state(*old(bucket)).has_token(),
        bucket_state(*final(bucket)) == bucket_state(*old(bucket)).asked(),
{
    bucket.limiter.check().is_ok()
}

/// One independent token bucket per limited class.
pub struct RateLimiter {
    ping_sync: Bucket,
    get: Bucket,
    fsfreeze_freeze: Bucket,
    fstrim: Bucket,
    shutdown: Bucket,
    time: u64,
}

/// A quota as the limiter applies it: one per minute in place of none.
pub open spec fn effective(quota: u32) -> nat {
    if quota == 0 {
        1
    } else {
        quota as nat
    }
}

/// A full bucket.
pub open spec fn full_bucket(quota: u32) -> BucketView {
    BucketView { quota: effective(quota), time: 0, full_at: 0 }
}

fn bucket_for(quota: u32) -> (bucket: Bucket)
    ensures
        bucket_state(bucket) == full_bucket(quota),
        bucket_state(bucket).valid(),
{
    // A zero quota never comes from a validated configuration; one per minute
    // is the strictest meaningful fallback.
    if quota == 0 {
        new_bucket(1)
    } else {
        new_bucket(quota)
    }
}

impl RateLimiter {
    /// The bucket of a limited class.
    pub closed spec fn bucket(&self, class: CommandClass) -> BucketView {
        match class {
            CommandClass::PingSync => bucket_state(self.ping_sync),
            CommandClass::Get => bucket_state(self.get),
            CommandClass::FsfreezeFreeze => bucket_state(self.fsfreeze_freeze),
            CommandClass::Fstrim => bucket_state(self.fstrim),
            CommandClass::Shutdown => bucket_state(self.shutdown),
            CommandClass::Unlimited => BucketView { quota: 0, time: 0, full_at: 0 },
        }
    }

    /// The time on the limiter's clock, in nanoseconds.
    pub closed spec fn time(&self) -> u64 {
        self.time
    }

    /// All buckets show the same time.
    pub open spec fn wf(&self) -> bool {
        &&& self.time() <= MAX_TIME_NANOS
        &&& forall|class: CommandClass|
            class != CommandClass::Unlimited ==> (#[trigger] self.bucket(class)).valid()
                && self.bucket(class).time == self.time()
    }

    /// Builds the limiter; every bucket is full.
    pub fn new(limits: &RateLimits) -> (limiter: Self)
        ensures
            limiter.wf(),
            limiter.time() == 0,
            forall|class: CommandClass|
                class != CommandClass::Unlimited ==> (#[trigger] limiter.bucket(class))
                    == full_bucket(class.configured(*limits)->0),
    {
        RateLimiter {
            ping_sync: bucket_for(limits.ping_sync_per_min),
            get: bucket_for(limits.get_commands_per_min),
            fsfreeze_freeze: bucket_for(limits.fsfreeze_freeze_per_min),
            fstrim: bucket_for(limits.fstrim_per_min),
            shutdown: bucket_for(limits.shutdown_per_min),
            time: 0,
        }
    }

    /// Time passes. Beyond what the clock can hold it stands still.
    pub fn advance(&mut self, nanos: u64)
        requires
            old(self).wf(),
        ensures
            final(self).wf(),
            final(self).time() == if old(self).time() + nanos <= MAX_TIME_NANOS {
                old(self).time() + nanos
            } else {
                MAX_TIME_NANOS as int
            },
            forall|class: CommandClass|
                class != CommandClass::Unlimited ==> (#[trigger] final(self).bucket(class))
                    == old(self).bucket(class).later(
                    (final(self).time() - old(self).time()) as nat,
                ),
    {
        let ghost before = *self;
        let by: u64 = if nanos <= MAX_TIME_NANOS - self.time {
            nanos
        } else {
            MAX_TIME_NANOS - self.time
        };
        proof {
            assert(self.bucket(CommandClass::PingSync).valid());
            assert(self.bucket(CommandClass::Get).valid());
            assert(self.bucket(CommandClass::FsfreezeFreeze).valid());
            assert(self.bucket(CommandClass::Fstrim).valid());
            assert(self.bucket(CommandClass::Shutdown).valid());
        }
        advance_bucket(&mut self.ping_sync, by);
        advance_bucket(&mut self.get, by);
        advance_bucket(&mut self.fsfreeze_freeze, by);
        advance_bucket(&mut self.fstrim, by);
        advance_bucket(&mut self.shutdown, by);
        self.time = self.time + by;
        proof {
            assert forall|class: CommandClass| class != CommandClass::Unlimited implies (
            #[trigger] self.bucket(class)).valid() && self.bucket(class).time == self.time() by {
                assert(before.bucket(class).valid());
            }
        }
    }

    /// Consumes one token from the class's bucket, or reports denial.
    pub fn check(&mut self, class: CommandClass) -> (result: Result<(), RateLimited>)
        requires
            old(self).wf(),
        ensures
            final(self).wf(),
            final(self).time() == old(self).time(),
            result == if class == CommandClass::Unlimited || old(self).bucket(class).has_token() {
                Ok::<(), RateLimited>(())
            } else {
                Err(RateLimited { class })
            },
            forall|other: CommandClass|
                #![trigger final(self).bucket(other)]
                final(self).bucket(other) == if other == class && class
                    != CommandClass::Unlimited {
                    old(self).bucket(other).asked()
                } else {
                    old(self).bucket(other)
                },
    {
        let ghost before = *self;
        proof {
            assert(class != CommandClass::Unlimited ==> self.bucket(class).valid());
        }
        let taken = match class {
            CommandClass::PingSync => take_token(&mut self.ping_sync),
            CommandClass::Get => take_token(&mut self.get),
            CommandClass::FsfreezeFreeze => take_token(&mut self.fsfreeze_freeze),
            CommandClass::Fstrim => take_token(&mut self.fstrim),
            CommandClass::Shutdown => take_token(&mut self.shutdown),
            CommandClass::Unlimited => true,
        };
        proof {
            assert forall|other: CommandClass| other != CommandClass::Unlimited implies (
            #[trigger] self.bucket(other)).valid() && self.bucket(other).time == self.time() by {
                assert(before.bucket(other).valid());
                lemma_asked_valid(before.bucket(other));
            }
        }
        if taken {
            Ok(())
        } else {
            Err(RateLimited { class })
        }
    }
}

/// A bucket stays in order when it is asked.
proof fn lemma_asked_valid(bucket: BucketView)
    requires
        bucket.valid(),
    ensures
        bucket.asked().valid(),
{
    let t = interval(bucket.quota);
    let n = bucket.quota;
    assert((n - 1) * t + t == n * t) by (nonlinear_arith);
    assert(t <= n * t) by (nonlinear_arith)
        requires
            n >= 1,
            t >= 0,
    ;
}

/// A bucket asked `n` times in a row, without time passing.
pub open spec fn asked_times(bucket: BucketView, n: nat) -> BucketView
    decreases n,
{
    if n == 0 {
        bucket
    } else {
        asked_times(bucket, (n - 1) as nat).asked()
    }
}

/// A full bucket gives out its whole quota at once and then denies: of a flood
/// exactly the quota gets through.
pub proof fn law_a_full_bucket_gives_its_quota(bucket: BucketView, n: nat)
    requires
        bucket.valid(),
        bucket.full_at <= bucket.time,
    ensures
        n < bucket.quota ==> asked_times(bucket, n).has_token(),
        n >= bucket.quota ==> !asked_times(bucket, n).has_token(),
{
    lemma_asked_times(bucket, n);
    let t = interval(bucket.quota);
    let q = bucket.quota;
    lemma_interval(q);
    if n == 0 {
        assert((q - 1) * t >= 0) by (nonlinear_arith)
            requires
                q >= 1,
                t >= 0,
        ;
    } else if n < q {
        assert(n * t <= (q - 1) * t) by (nonlinear_arith)
            requires
                n <= q - 1,
                t >= 0,
        ;
    } else {
        assert(q * t > (q - 1) * t) by (nonlinear_arith)
            requires
                t > 0,
        ;
    }
}

/// Tokens come back one per interval: a bucket that has just given its last
/// token denies until one interval has passed, and then gives exactly one.
pub proof fn law_tokens_refill_over_time(bucket: BucketView, nanos: nat)
    requires
        bucket.valid(),
        bucket.full_at == bucket.time + bucket.quota * interval(bucket.quota),
    ensures
        nanos < interval(bucket.quota) ==> !bucket.later(nanos).has_token(),
        bucket.later(interval(bucket.quota)).has_token(),
        !bucket.later(interval(bucket.quota)).asked().has_token(),
{
    let t = interval(bucket.quota);
    let q = bucket.quota;
    lemma_interval(q);
    assert((q - 1) * t + t == q * t) by (nonlinear_arith);
    let after = bucket.later(t);
    assert(after.full_at <= after.time + (q - 1) * t);
    if q == 1 {
        assert((q - 1) * t == 0) by (nonlinear_arith)
            requires
                q == 1,
        ;
    } else {
        assert((q - 1) * t >= t) by (nonlinear_arith)
            requires
                q >= 2,
                t >= 0,
        ;
    }
}

proof fn lemma_interval(quota: nat)
    requires
        0 < quota <= u32::MAX,
    ensures
        interval(quota) > 0,
{
    let q = quota as int;
    assert(MINUTE_NANOS as int / q >= 1) by (nonlinear_arith)
        requires
            0 < q <= 4_294_967_295,
            MINUTE_NANOS as int == 60_000_000_000,
    ;
}

proof fn lemma_asked_times(bucket: BucketView, n: nat)
    requires
        bucket.valid(),
        bucket.full_at <= bucket.time,
    ensures
        asked_times(bucket, n).quota == bucket.quota,
        asked_times(bucket, n).time == bucket.time,
        n == 0 ==> asked_times(bucket, n) == bucket,
        0 < n <= bucket.quota ==> asked_times(bucket, n).full_at == bucket.time + n * interval(
            bucket.quota,
        ),
        n > bucket.quota ==> asked_times(bucket, n).full_at == bucket.time + bucket.quota
            * interval(bucket.quota),
    decreases n,
{
    if n > 0 {
        let t = interval(bucket.quota);
        let q = bucket.quota;
        lemma_interval(q);
        lemma_asked_times(bucket, (n - 1) as nat);
        let before = asked_times(bucket, (n - 1) as nat);
        if n == 1 {
            assert((q - 1) * t >= 0) by (nonlinear_arith)
                requires
                    q >= 1,
                    t >= 0,
            ;
            assert(1 * t == t) by (nonlinear_arith);
        } else if n <= q {
            assert((n - 1) * t <= (q - 1) * t) by (nonlinear_arith)
                requires
                    n <= q,
                    t >= 0,
            ;
            assert((n - 1) * t + t == n * t) by (nonlinear_arith);
            assert((n - 1) * t >= 0) by (nonlinear_arith)
                requires
                    n >= 1,
                    t >= 0,
            ;
        } else {
            assert(q * t > (q - 1) * t) by (nonlinear_arith)
                requires
                    t > 0,
            ;
        }
    }
}

/// Each class holds its own commands, and the status and the thaw are in the
/// one that is never limited.
pub proof fn law_the_classes(method: Seq<char>)
    ensures
        class_of(method) == Some(CommandClass::PingSync) <==> method == "guest-ping"@ || method
            == "guest-sync"@ || method == "guest-sync-delimited"@ || method == "guest-info"@,
        class_of("guest-get-osinfo"@) == Some(CommandClass::Get),
        class_of("guest-get-fsinfo"@) == Some(CommandClass::Get),
        class_of("guest-network-get-interfaces"@) == Some(CommandClass::Get),
        class_of("guest-fsfreeze-freeze"@) == Some(CommandClass::FsfreezeFreeze),
        class_of("guest-fsfreeze-freeze-list"@) == Some(CommandClass::FsfreezeFreeze),
        class_of("guest-fsfreeze-status"@) == Some(CommandClass::Unlimited),
        class_of("guest-fsfreeze-thaw"@) == Some(CommandClass::Unlimited),
        class_of("guest-fstrim"@) == Some(CommandClass::Fstrim),
        class_of("guest-shutdown"@) == Some(CommandClass::Shutdown),
        class_of("guest-suspend-ram"@) == Some(CommandClass::Shutdown),
        class_of(method) is Some <==> seq![
            "guest-ping"@,
            "guest-info"@,
            "guest-sync"@,
            "guest-sync-delimited"@,
            "guest-get-osinfo"@,
            "guest-network-get-interfaces"@,
            "guest-get-fsinfo"@,
            "guest-fsfreeze-status"@,
            "guest-fsfreeze-freeze"@,
            "guest-fsfreeze-freeze-list"@,
            "guest-fsfreeze-thaw"@,
            "guest-fstrim"@,
            "guest-shutdown"@,
            "guest-suspend-ram"@,
        ].contains(method),
{
    crate::dispatch::law_the_commands(method);
    reveal_strlit("guest-ping");
    reveal_strlit("guest-info");
    reveal_strlit("guest-sync");
    reveal_strlit("guest-sync-delimited");
    reveal_strlit("guest-get-osinfo");
    reveal_strlit("guest-network-get-interfaces");
    reveal_strlit("guest-get-fsinfo");
    reveal_strlit("guest-fsfreeze-status");
    reveal_strlit("guest-fsfreeze-freeze");
    reveal_strlit("guest-fsfreeze-freeze-list");
    reveal_strlit("guest-fsfreeze-thaw");
    reveal_strlit("guest-fstrim");
    reveal_strlit("guest-shutdown");
    reveal_strlit("guest-suspend-ram");
    assert("guest-ping"@.len() == 10);
    assert("guest-info"@.len() == 10);
    assert("guest-sync"@.len() == 10);
    assert("guest-sync-delimited"@.len() == 20);
    assert("guest-get-osinfo"@.len() == 16);
    assert("guest-network-get-interfaces"@.len() == 28);
    assert("guest-get-fsinfo"@.len() == 16);
    assert("guest-fsfreeze-status"@.len() == 21);
    assert("guest-fsfreeze-freeze"@.len() == 21);
    assert("guest-fsfreeze-freeze-list"@.len() == 26);
    assert("guest-fsfreeze-thaw"@.len() == 19);
    assert("guest-fstrim"@.len() == 12);
    assert("guest-shutdown"@.len() == 14);
    assert("guest-suspend-ram"@.len() == 17);
    assert("guest-ping"@[6] == 'p');
    assert("guest-info"@[6] == 'i');
    assert("guest-sync"@[6] == 's');
    assert("guest-get-osinfo"@[10] == 'o');
    assert("guest-get-fsinfo"@[10] == 'f');
    assert("guest-fsfreeze-status"@[15] == 's');
    assert("guest-fsfreeze-freeze"@[15] == 'f');
}

/// Each class has the quota that the configuration gives it, one per minute in
/// place of none, and begins with all of it.
pub proof fn law_each_class_has_its_quota(limits: RateLimits, quota: u32)
    ensures
        CommandClass::PingSync.configured(limits) == Some(limits.ping_sync_per_min),
        CommandClass::Get.configured(limits) == Some(limits.get_commands_per_min),
        CommandClass::FsfreezeFreeze.configured(limits) == Some(limits.fsfreeze_freeze_per_min),
        CommandClass::Fstrim.configured(limits) == Some(limits.fstrim_per_min),
        CommandClass::Shutdown.configured(limits) == Some(limits.shutdown_per_min),
        CommandClass::Unlimited.configured(limits) is None,
        quota > 0 ==> full_bucket(quota).quota == quota,
        full_bucket(0).quota == 1,
        full_bucket(quota).full_at <= full_bucket(quota).time,
        full_bucket(quota).valid(),
        interval(full_bucket(quota).quota) * full_bucket(quota).quota <= 60_000_000_000,
        interval(full_bucket(quota).quota) * full_bucket(quota).quota + full_bucket(quota).quota
            > 60_000_000_000,
{
    let q = full_bucket(quota).quota as int;
    let n = MINUTE_NANOS as int;
    vstd::arithmetic::div_mod::lemma_fundamental_div_mod(n, q);
    assert(interval(full_bucket(quota).quota) == n / q);
    assert(q * (n / q) == (n / q) * q) by (nonlinear_arith);
    assert(0 <= n % q < q);
    assert(full_bucket(quota).quota * interval(full_bucket(quota).quota) >= 0) by (nonlinear_arith);
}

/// The names of the classes, and what the host is told when one is exhausted.
pub proof fn law_the_words_of_a_limit(class: CommandClass)
    ensures
        CommandClass::PingSync.text() == "ping_sync"@,
        CommandClass::Get.text() == "get_commands"@,
        CommandClass::FsfreezeFreeze.text() == "fsfreeze_freeze"@,
        CommandClass::Unlimited.text() == "unlimited"@,
        CommandClass::Fstrim.text() == "fstrim"@,
        CommandClass::Shutdown.text() == "shutdown"@,
        (RateLimited { class }).text() == "rate limit exceeded for "@ + class.text(),
{
}

} // verus!
