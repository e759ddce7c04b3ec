//! Civil dates and RFC 3339 timestamps.

use vstd::prelude::*;
use vstd::string::*;

use crate::text;
use crate::text::decimal_text;

verus! {

/// Whether `year` is a leap year of the Gregorian calendar.
pub open spec fn is_leap(year: nat) -> bool {
    year % 4 == 0 && (year % 100 != 0 || year % 400 == 0)
}

/// How many days month `month` of `year` has.
pub open spec fn month_days(year: nat, month: nat) -> nat {
    if month == 2 {
        if is_leap(year) {
            29
        } else {
            28
        }
    } else if month == 4 || month == 6 || month == 9 || month == 11 {
        30
    } else {
        31
    }
}

/// How many days `year` has.
pub open spec fn year_days(year: nat) -> nat {
    if is_leap(year) {
        366
    } else {
        365
    }
}

/// Days from the first of January 1970 to that of `year`.
pub open spec fn days_to_year(year: nat) -> nat
    decreases year,
{
    if year <= 1970 {
        0
    } else {
        days_to_year((year - 1) as nat) + year_days((year - 1) as nat)
    }
}

/// Days from the first of January of `year` to the first of its month `month`.
pub open spec fn days_to_month(year: nat, month: nat) -> nat
    decreases month,
{
    if month <= 1 {
        0
    } else {
        days_to_month(year, (month - 1) as nat) + month_days(year, (month - 1) as nat)
    }
}

/// A date of the Gregorian calendar from 1970 on.
pub open spec fn is_date(year: nat, month: nat, day: nat) -> bool {
    &&& year >= 1970
    &&& 1 <= month <= 12
    &&& 1 <= day <= month_days(year, month)
}

/// Days from the first of January 1970 to a date.
pub open spec fn day_number(year: nat, month: nat, day: nat) -> int {
    days_to_year(year) + days_to_month(year, month) + day - 1
}

/// The leap years up to `year`, by the calendar's rule.
spec fn leaps(year: nat) -> int {
    year / 4 - year / 100 + year / 400
}

proof fn lemma_days_to_year(year: nat)
    requires
        year >= 1970,
    ensures
        days_to_year(year) == 365 * (year - 1970) + leaps((year - 1) as nat) - leaps(1969),
    decreases year,
{
    if year > 1970 {
        lemma_days_to_year((year - 1) as nat);
    }
}

proof fn lemma_days_to_month(year: nat)
    ensures
        days_to_month(year, 1) == 0,
        days_to_month(year, 2) == 31,
        days_to_month(year, 3) == 59 + year_days(year) - 365,
        days_to_month(year, 4) == 90 + year_days(year) - 365,
        days_to_month(year, 5) == 120 + year_days(year) - 365,
        days_to_month(year, 6) == 151 + year_days(year) - 365,
        days_to_month(year, 7) == 181 + year_days(year) - 365,
        days_to_month(year, 8) == 212 + year_days(year) - 365,
        days_to_month(year, 9) == 243 + year_days(year) - 365,
        days_to_month(year, 10) == 273 + year_days(year) - 365,
        days_to_month(year, 11) == 304 + year_days(year) - 365,
        days_to_month(year, 12) == 334 + year_days(year) - 365,
{
    reveal_with_fuel(days_to_month, 13);
}

/// The year of a 400-year era, from the day of the era.
proof fn lemma_year_of_era(doe: int, yoe: int)
    requires
        0 <= doe <= 146_096,
        yoe == (doe - doe / 1460 + doe / 36_524 - doe / 146_096) / 365,
    ensures
        0 <= yoe <= 399,
        365 * yoe + yoe / 4 - yoe / 100 <= doe,
        doe <= 365 * yoe + yoe / 4 - yoe / 100 + 365,
        doe == 365 * yoe + yoe / 4 - yoe / 100 + 365 ==> (yoe + 1) % 4 == 0 && ((yoe + 1) % 100 != 0
            || yoe == 399),
{
}

/// Days from the first of March of the year 0 to that of `400 * era + yoe`.
proof fn lemma_marches(era: int, yoe: int)
    requires
        0 <= yoe <= 399,
        0 <= era,
    ensures
        146_097 * era + 365 * yoe + yoe / 4 - yoe / 100 == 365 * (400 * era + yoe) + leaps(
            (400 * era + yoe) as nat,
        ),
{
    assert((400 * era + yoe) / 4 == 100 * era + yoe / 4);
    assert((400 * era + yoe) / 100 == 4 * era + yoe / 100);
    assert((400 * era + yoe) / 400 == era);
}

/// The March year that ends in a leap day.
proof fn lemma_leap_of_era(era: int, yoe: int)
    requires
        0 <= yoe <= 399,
        0 <= era,
        (yoe + 1) % 4 == 0 && ((yoe + 1) % 100 != 0 || yoe == 399),
    ensures
        is_leap((400 * era + yoe + 1) as nat),
{
    assert((400 * era + yoe + 1) % 4 == (yoe + 1) % 4);
    assert((400 * era + yoe + 1) % 100 == (yoe + 1) % 100);
    assert((400 * era + yoe + 1) % 400 == (yoe + 1) % 400);
}

/// The leap years up to `year` are those before it, and `year` if it is one.
proof fn lemma_leaps_step(year: nat)
    requires
        year >= 1,
    ensures
        leaps(year) == leaps((year - 1) as nat) + year_days(year) - 365,
{
}

/// The month and the day of the month, from the day of a year that begins in
/// March.
proof fn lemma_month_of_year(doy: int, mp: int, d: int)
    requires
        0 <= doy <= 365,
        mp == (5 * doy + 2) / 153,
        d == doy - (153 * mp + 2) / 5 + 1,
    ensures
        0 <= mp <= 11,
        1 <= d <= 31,
        mp == 1 || mp == 3 || mp == 6 || mp == 8 ==> d <= 30,
        mp == 11 ==> d <= 29 && (d == 29 ==> doy == 365),
        doy == d - 1 + (if mp == 0 {
            0int
        } else if mp == 1 {
            31
        } else if mp == 2 {
            61
        } else if mp == 3 {
            92
        } else if mp == 4 {
            122
        } else if mp == 5 {
            153
        } else if mp == 6 {
            184
        } else if mp == 7 {
            214
        } else if mp == 8 {
            245
        } else if mp == 9 {
            275
        } else if mp == 10 {
            306
        } else {
            337
        }),
{
}

/// The date that March year `y` and its month and day make is day `days`.
proof fn lemma_civil(days: int, y: int, doy: int, mp: int, d: int, m: int, year: int)
    requires
        0 <= days,
        0 <= y,
        0 <= doy <= 365,
        days + 719_468 == 365 * y + leaps(y as nat) + doy,
        doy == 365 ==> is_leap((y + 1) as nat),
        mp == (5 * doy + 2) / 153,
        d == doy - (153 * mp + 2) / 5 + 1,
        m == if mp < 10 {
            mp + 3
        } else {
            mp - 9
        },
        year == if m <= 2 {
            y + 1
        } else {
            y
        },
    ensures
        is_date(year as nat, m as nat, d as nat),
        day_number(year as nat, m as nat, d as nat) == days,
{
    lemma_month_of_year(doy, mp, d);
    assert(leaps(y as nat) <= y / 4);
    if m <= 2 {
        assert(year >= 1970);
        lemma_days_to_year(year as nat);
        lemma_days_to_month(year as nat);
        assert(leaps((year - 1) as nat) == leaps(y as nat));
    } else {
        assert(doy < 306);
        assert(year >= 1970);
        lemma_days_to_year(year as nat);
        lemma_days_to_month(year as nat);
        lemma_leaps_step(year as nat);
    }
}

/// Converts days since 1970-01-01 to a proleptic Gregorian (year, month, day).
#[verifier::spinoff_prover]
#[verifier::rlimit(40)]
pub fn civil_from_days(days: u64) -> (date: (u64, u64, u64))
    requires
        days + 719_468 <= u64::MAX,
    ensures
        is_date(date.0 as nat, date.1 as nat, date.2 as nat),
        day_number(date.0 as nat, date.1 as nat, date.2 as nat) == days,
{
    let z: u64 = days + 719_468;
    let era: u64 = z / 146_097;
    let doe: u64 = z - era * 146_097;
    let yoe: u64 = (doe - doe / 1460 + doe / 36_524 - doe / 146_096) / 365;
    proof {
        lemma_year_of_era(doe as int, yoe as int);
        lemma_marches(era as int, yoe as int);
    }
    let y: u64 = yoe + era * 400;
    let doy: u64 = doe - (365 * yoe + yoe / 4 - yoe / 100);
    proof {
        if doy == 365 {
            lemma_leap_of_era(era as int, yoe as int);
        }
        lemma_month_of_year(
            doy as int,
            (5 * doy + 2) / 153,
            doy - (153 * ((5 * doy + 2) / 153) + 2) / 5 + 1,
        );
    }
    let mp: u64 = (5 * doy + 2) / 153;
    let d: u64 = doy - (153 * mp + 2) / 5 + 1;
    let m: u64 = if mp < 10 {
        mp + 3
    } else {
        mp - 9
    };
    let year: u64 = if m <= 2 {
        y + 1
    } else {
        y
    };
    proof {
        lemma_civil(
            days as int,
            y as int,
            doy as int,
            mp as int,
            d as int,
            m as int,
            year as int,
        );
    }
    (year, m, d)
}

proof fn lemma_days_to_year_grows(a: nat, b: nat)
    requires
        1970 <= a < b,
    ensures
        days_to_year(a) + year_days(a) <= days_to_year(b),
    decreases b,
{
    if a + 1 < b {
        lemma_days_to_year_grows(a, (b - 1) as nat);
    }
}

/// Different dates are different days, in the order of the calendar.
pub proof fn law_later_dates_are_later_days(
    y1: nat,
    m1: nat,
    d1: nat,
    y2: nat,
    m2: nat,
    d2: nat,
)
    requires
        is_date(y1, m1, d1),
        is_date(y2, m2, d2),
        y1 < y2 || (y1 == y2 && (m1 < m2 || (m1 == m2 && d1 < d2))),
    ensures
        day_number(y1, m1, d1) < day_number(y2, m2, d2),
{
    lemma_days_to_month(y1);
    lemma_days_to_month(y2);
    if y1 < y2 {
        lemma_days_to_year_grows(y1, y2);
    }
}

/// The date that lies `days` days after the first of January 1970.
pub open spec fn date_of(days: nat) -> (nat, nat, nat) {
    choose|date: (nat, nat, nat)|
        is_date(date.0, date.1, date.2) && #[trigger] day_number(date.0, date.1, date.2) == days
}

/// `n` in decimal, with leading zeros to at least `width` digits.
pub open spec fn padded(n: nat, width: nat) -> Seq<char> {
    let digits = text::decimal(n);
    if digits.len() < width {
        Seq::new((width - digits.len()) as nat, |i: int| '0') + digits
    } else {
        digits
    }
}

/// A moment as RFC 3339 UTC with millisecond precision.
pub open spec fn timestamp(secs: nat, millis: nat) -> Seq<char> {
    let date = date_of(secs / 86_400);
    let time = secs % 86_400;
    padded(date.0, 4) + "-"@ + padded(date.1, 2) + "-"@ + padded(date.2, 2) + "T"@ + padded(
        time / 3600,
        2,
    ) + ":"@ + padded(time % 3600 / 60, 2) + ":"@ + padded(time % 60, 2) + "."@ + padded(millis, 3)
        + "Z"@
}

/// How many digits `n` takes.
proof fn lemma_decimal_len(n: nat)
    ensures
        n < 10 ==> text::decimal(n).len() == 1,
        10 <= n < 100 ==> text::decimal(n).len() == 2,
        100 <= n < 1000 ==> text::decimal(n).len() == 3,
        1000 <= n ==> text::decimal(n).len() >= 4,
{
    reveal_with_fuel(text::decimal, 5);
}

/// Appends a number with leading zeros.
fn push_padded(out: &mut String, n: u64, width: usize)
    requires
        width <= 4,
    ensures
        final(out)@ == old(out)@ + padded(n as nat, width as nat),
{
    let digits: usize = if n < 10 {
        1
    } else if n < 100 {
        2
    } else if n < 1000 {
        3
    } else {
        4
    };
    proof {
        lemma_decimal_len(n as nat);
    }
    let mut have: usize = digits;
    while have < width
        invariant
            digits <= have,
            have <= width || have == digits,
            out@ == old(out)@ + Seq::new((have - digits) as nat, |i: int| '0'),
        decreases width - have,
    {
        let ghost before = out@;
        out.push('0');
        have = have + 1;
        proof {
            assert(out@ =~= old(out)@ + Seq::new((have - digits) as nat, |i: int| '0'));
        }
    }
    out.append(decimal_text(n).as_str());
    proof {
        assert(out@ =~= old(out)@ + padded(n as nat, width as nat));
    }
}

/// Formats a moment, given as whole seconds since the epoch and the
/// milliseconds beyond them, as RFC 3339 UTC with millisecond precision
/// (`2026-08-16T20:00:00.000Z`).
pub fn format_utc(secs: u64, millis: u32) -> (out: String)
    ensures
        out@ == timestamp(secs as nat, millis as nat),
{
    let days: u64 = secs / 86_400;
    let time: u64 = secs % 86_400;
    let (year, month, day) = civil_from_days(days);
    proof {
        let date = date_of(days as nat);
        let ours = (year as nat, month as nat, day as nat);
        assert(is_date(ours.0, ours.1, ours.2) && day_number(ours.0, ours.1, ours.2) == days);
        assert(is_date(date.0, date.1, date.2) && day_number(date.0, date.1, date.2) == days);
        if date != ours {
            if date.0 < ours.0 || (date.0 == ours.0 && (date.1 < ours.1 || (date.1 == ours.1
                && date.2 < ours.2))) {
                law_later_dates_are_later_days(
                    date.0,
                    date.1,
                    date.2,
                    ours.0,
                    ours.1,
                    ours.2,
                );
            } else {
                law_later_dates_are_later_days(
                    ours.0,
                    ours.1,
                    ours.2,
                    date.0,
                    date.1,
                    date.2,
                );
            }
        }
    }
    let mut out = String::new();
    push_padded(&mut out, year, 4);
    out.append("-");
    push_padded(&mut out, month, 2);
    out.append("-");
    push_padded(&mut out, day, 2);
    out.append("T");
    push_padded(&mut out, time / 3600, 2);
    out.append(":");
    push_padded(&mut out, time % 3600 / 60, 2);
    out.append(":");
    push_padded(&mut out, time % 60, 2);
    out.append(".");
    push_padded(&mut out, millis as u64, 3);
    out.append("Z");
    proof {
        assert(out@ =~= timestamp(secs as nat, millis as nat));
    }
    out
}

/// The calendar begins with the first of January 1970, and each day is followed
/// by the next: the day after, or the first of the next month once the month is
/// over. February has 29 days in a year that 4 divides, unless 100 divides it
/// and 400 does not, and 28 in any other; April, June, September and November
/// have 30 days, the others 31.
pub proof fn law_day_follows_day(
    days: u64,
    date: (u64, u64, u64),
    next: (u64, u64, u64),
)
    requires
        days + 719_469 <= u64::MAX,
        call_ensures(civil_from_days, (days,), date),
        call_ensures(civil_from_days, ((days + 1) as u64,), next),
    ensures
        ({
            let leap = date.0 % 4 == 0 && (date.0 % 100 != 0 || date.0 % 400 == 0);
            let length: int = if date.1 == 2 {
                if leap {
                    29
                } else {
                    28
                }
            } else if date.1 == 4 || date.1 == 6 || date.1 == 9 || date.1 == 11 {
                30
            } else {
                31
            };
            &&& days == 0 ==> date == (1970u64, 1u64, 1u64)
            &&& 1 <= date.1 <= 12
            &&& 1 <= date.2 <= length
            &&& date.2 < length ==> next.0 == date.0 && next.1 == date.1 && next.2 == date.2 + 1
            &&& date.2 == length && date.1 < 12 ==> next.0 == date.0 && next.1 == date.1 + 1
                && next.2 == 1
            &&& date.2 == length && date.1 == 12 ==> next.0 == date.0 + 1 && next.1 == 1 && next.2
                == 1
        }),
{
    let (y, m, d) = (date.0 as nat, date.1 as nat, date.2 as nat);
    let ours = (next.0 as nat, next.1 as nat, next.2 as nat);
    let after: (nat, nat, nat) = if d < month_days(y, m) {
        (y, m, d + 1)
    } else if m < 12 {
        (y, m + 1, 1)
    } else {
        (y + 1, 1, 1)
    };
    lemma_days_to_month(y);
    lemma_days_to_month(y + 1);
    assert(day_number(after.0, after.1, after.2) == days + 1);
    lemma_one_date(after, ours);
    if days == 0 {
        assert(day_number(1970, 1, 1) == 0);
        lemma_one_date((1970, 1, 1), (y, m, d));
    }
}

/// A day is one date.
proof fn lemma_one_date(a: (nat, nat, nat), b: (nat, nat, nat))
    requires
        is_date(a.0, a.1, a.2),
        is_date(b.0, b.1, b.2),
        day_number(a.0, a.1, a.2) == day_number(b.0, b.1, b.2),
    ensures
        a == b,
{
    if a != b {
        if a.0 < b.0 || (a.0 == b.0 && (a.1 < b.1 || (a.1 == b.1 && a.2 < b.2))) {
            law_later_dates_are_later_days(a.0, a.1, a.2, b.0, b.1, b.2);
        } else {
            law_later_dates_are_later_days(b.0, b.1, b.2, a.0, a.1, a.2);
        }
    }
}

/// A padded number has its width and reads back.
proof fn lemma_padded(n: nat, width: nat)
    requires
        width <= 4,
        n < 10 || (n < 100 && width >= 2) || (n < 1000 && width >= 3) || (n < 10_000 && width == 4),
        width >= 1,
    ensures
        padded(n, width).len() == width,
        text::worth(padded(n, width)) == n,
{
    reveal_with_fuel(text::decimal, 5);
    text::law_decimal_reads_back(n);
    let digits = text::decimal(n);
    if digits.len() < width {
        lemma_zeros((width - digits.len()) as nat, digits);
    }
}

/// Zeros before a numeral add nothing to it.
proof fn lemma_zeros(count: nat, numeral: Seq<char>)
    ensures
        text::worth(Seq::new(count, |i: int| '0') + numeral) == text::worth(numeral),
    decreases numeral.len(), count,
{
    let zeros = Seq::new(count, |i: int| '0');
    let all = zeros + numeral;
    if numeral.len() > 0 {
        assert(all.drop_last() =~= zeros + numeral.drop_last());
        lemma_zeros(count, numeral.drop_last());
    } else if count > 0 {
        let fewer = Seq::new((count - 1) as nat, |i: int| '0');
        assert(all.drop_last() =~= fewer + numeral);
        lemma_zeros((count - 1) as nat, numeral);
    } else {
        assert(all =~= numeral);
    }
}

/// A moment reads back: its text is `YYYY-MM-DDThh:mm:ss.mmmZ`, with the date of
/// its day and the hour, the minute, the second and the millisecond of the day.
/// The years have four digits up to 9999.
pub proof fn law_a_moment_reads_back(
    days: u64,
    hour: u64,
    minute: u64,
    second: u64,
    millis: u32,
    date: (u64, u64, u64),
)
    requires
        hour < 24,
        minute < 60,
        second < 60,
        millis < 1000,
        86_400 * days + 3600 * hour + 60 * minute + second <= u64::MAX,
        call_ensures(civil_from_days, (days,), date),
        date.0 <= 9999,
    ensures
        ({
            let secs = (86_400 * days + 3600 * hour + 60 * minute + second) as nat;
            let text = timestamp(secs, millis as nat);
            &&& text.len() == 24
            &&& text::worth(text.subrange(0, 4)) == date.0
            &&& text[4] == '-'
            &&& text::worth(text.subrange(5, 7)) == date.1
            &&& text[7] == '-'
            &&& text::worth(text.subrange(8, 10)) == date.2
            &&& text[10] == 'T'
            &&& text::worth(text.subrange(11, 13)) == hour
            &&& text[13] == ':'
            &&& text::worth(text.subrange(14, 16)) == minute
            &&& text[16] == ':'
            &&& text::worth(text.subrange(17, 19)) == second
            &&& text[19] == '.'
            &&& text::worth(text.subrange(20, 23)) == millis
            &&& text[23] == 'Z'
        }),
{
    let secs = (86_400 * days + 3600 * hour + 60 * minute + second) as nat;
    let time = secs % 86_400;
    assert(secs / 86_400 == days);
    assert(time == 3600 * hour + 60 * minute + second);
    assert(time / 3600 == hour);
    assert(time % 3600 / 60 == minute);
    assert(time % 60 == second);
    let ours = (date.0 as nat, date.1 as nat, date.2 as nat);
    let found = date_of(days as nat);
    assert(is_date(ours.0, ours.1, ours.2) && day_number(ours.0, ours.1, ours.2) == days);
    lemma_one_date(ours, found);
    let y = padded(ours.0, 4);
    let mo = padded(ours.1, 2);
    let d = padded(ours.2, 2);
    let h = padded(hour as nat, 2);
    let mi = padded(minute as nat, 2);
    let s = padded(second as nat, 2);
    let ms = padded(millis as nat, 3);
    lemma_padded(ours.0, 4);
    lemma_padded(ours.1, 2);
    lemma_padded(ours.2, 2);
    lemma_padded(hour as nat, 2);
    lemma_padded(minute as nat, 2);
    lemma_padded(second as nat, 2);
    lemma_padded(millis as nat, 3);
    reveal_strlit("-");
    reveal_strlit("T");
    reveal_strlit(":");
    reveal_strlit(".");
    reveal_strlit("Z");
    let text = timestamp(secs, millis as nat);
    assert(text == y + "-"@ + mo + "-"@ + d + "T"@ + h + ":"@ + mi + ":"@ + s + "."@ + ms + "Z"@);
    assert(text.subrange(0, 4) =~= y);
    assert(text.subrange(5, 7) =~= mo);
    assert(text.subrange(8, 10) =~= d);
    assert(text.subrange(11, 13) =~= h);
    assert(text.subrange(14, 16) =~= mi);
    assert(text.subrange(17, 19) =~= s);
    assert(text.subrange(20, 23) =~= ms);
}

} // verus!
