//! Points in time as people read them.

use vstd::prelude::*;

use crate::text::{chars_of, decimal, decimal_chars, extend, extend_text, text_model, text_of};

verus! {

/// Whether `chrono` has a point in time for these seconds since the start of
/// 1970: its first year is -262143, its last 262142.
pub open spec fn is_time(seconds: i64) -> bool {
    -8_334_601_228_800 <= seconds <= 8_210_266_876_799
}

/// `chrono::Utc::now`: the seconds since the start of 1970 and the nanoseconds
/// within the second. Which they are is left unsaid.
#[verifier::external_body]
fn utc_now() -> (now: (i64, u32))
    ensures
        now.0 >= 0 && is_time(now.0) && now.1 < 1_000_000_000,
{
    let now = chrono::Utc::now();
    (now.timestamp(), now.timestamp_subsec_nanos())
}

/// Whether seconds since the start of 1970 and nanoseconds are a point in time.
/// In a leap second, which follows the last second of a minute, the nanoseconds
/// go on from a whole second.
pub open spec fn is_instant(seconds: i64, nanos: u32) -> bool {
    is_time(seconds) && nanos < 2_000_000_000 && (nanos >= 1_000_000_000 ==> seconds % 60 == 59)
}

/// The point in time that a text in RFC 3339 gives, in seconds since the start of
/// 1970 and nanoseconds; `None` where it gives none.
pub uninterp spec fn rfc3339_time(iso: Seq<char>) -> Option<(i64, u32)>;

/// `chrono::DateTime::parse_from_rfc3339`, with `timestamp` and
/// `timestamp_subsec_nanos`: a point in time that depends on the text alone. Which
/// it is for a given text is left unsaid.
#[verifier::external_body]
fn parse_time(iso: &str) -> (time: Option<(i64, u32)>)
    ensures
        time == rfc3339_time(iso@),
        time matches Some((seconds, nanos)) ==> is_instant(seconds, nanos),
{
    let time = chrono::DateTime::parse_from_rfc3339(iso).ok()?;
    Some((time.timestamp(), time.timestamp_subsec_nanos()))
}

/// The nanoseconds from one point in time to another. A leap second before counts
/// where the time of the day is later than its own.
pub open spec fn nanos_between(then: i64, then_nanos: u32, now: i64, now_nanos: u32) -> int {
    let leap: int = if then_nanos >= 1_000_000_000 && now % 86_400 > then % 86_400 {
        1
    } else {
        0
    };
    (now - then + leap) * 1_000_000_000 + (now_nanos - then_nanos)
}

/// The whole seconds in a number of nanoseconds, of either sign.
pub open spec fn whole_seconds(nanos: int) -> int {
    if nanos >= 0 {
        nanos / 1_000_000_000
    } else {
        -(-nanos / 1_000_000_000)
    }
}

/// `chrono::DateTime::from_timestamp`, `signed_duration_since` and
/// `chrono::TimeDelta::num_seconds`: the whole seconds from one point in time to
/// another, which is in no leap second.
#[verifier::external_body]
fn seconds_between(then: i64, then_nanos: u32, now: i64, now_nanos: u32) -> (seconds: Option<i64>)
    requires
        is_instant(then, then_nanos),
        is_time(now),
        now_nanos < 1_000_000_000,
    ensures
        seconds matches Some(seconds) && seconds == whole_seconds(
            nanos_between(then, then_nanos, now, now_nanos),
        ),
{
    let then = chrono::DateTime::from_timestamp(then, then_nanos)?;
    let now = chrono::DateTime::from_timestamp(now, now_nanos)?;
    Some(now.signed_duration_since(then).num_seconds())
}

/// `chrono::Local.timestamp_opt` and `chrono::FixedOffset::local_minus_utc`: how
/// many seconds the time zone of the machine is ahead of UTC at a point in time,
/// less than a day either way; `None` for seconds that are no point in time.
/// Which number it is depends on the machine, so that is left unsaid.
#[verifier::external_body]
fn local_offset(seconds: i64) -> (offset: Option<i32>)
    ensures
        offset is Some == is_time(seconds),
        offset matches Some(ahead) ==> -86_400 < ahead < 86_400,
{
    let time = chrono::TimeZone::timestamp_opt(&chrono::Local, seconds, 0).single()?;
    Some(time.offset().local_minus_utc())
}

/// How `chrono` writes a point in time after `"Resets %a %-H:%M"`, in a time zone
/// that is a number of seconds ahead of UTC.
pub uninterp spec fn zoned_text(seconds: i64, ahead: i32) -> Option<Seq<char>>;

/// `chrono::FixedOffset::east_opt`, `timestamp_opt` and `chrono::DateTime::format`
/// with `to_string`: a point in time in a time zone that is a number of seconds
/// ahead of UTC. There is a text where the seconds are a point in time and the
/// time zone is less than a day off, and it starts as the format does; which
/// weekday and time it goes on with is left unsaid. Formats that `chrono` does not
/// know would panic.
#[verifier::external_body]
fn text_at(seconds: i64, ahead: i32, format: &str) -> (text: Option<String>)
    requires
        format@ == "Resets %a %-H:%M"@,
    ensures
        text_model(text) == zoned_text(seconds, ahead),
        text is Some == (is_time(seconds) && -86_400 < ahead < 86_400),
        text matches Some(shown) ==> shown@.len() > 7 && shown@.take(7) == "Resets "@,
{
    let zone = chrono::FixedOffset::east_opt(ahead)?;
    let time = chrono::TimeZone::timestamp_opt(&zone, seconds, 0).single()?;
    Some(time.format(format).to_string())
}

/// How long it is until a session limit is reset, at a point in time.
pub open spec fn resets_in_text(resets_at: i64, now: i64) -> Seq<char> {
    let remaining = resets_at - now;
    let hours = remaining / 3600;
    let minutes = (remaining % 3600) / 60;
    if resets_at <= 0 {
        "Unknown"@
    } else if remaining <= 0 {
        "Session reset"@
    } else if hours > 0 {
        "Resets in "@ + decimal(hours as nat) + "h "@ + decimal(minutes as nat) + "m"@
    } else {
        "Resets in "@ + decimal(minutes as nat) + "m"@
    }
}

pub fn format_resets_in_at(resets_at: i64, now: i64) -> (text: String)
    ensures
        text@ == resets_in_text(resets_at, now),
{
    if resets_at <= 0 {
        return "Unknown".to_string();
    }
    let remaining: i128 = resets_at as i128 - now as i128;
    if remaining <= 0 {
        return "Session reset".to_string();
    }
    let hours: u64 = (remaining / 3600) as u64;
    let minutes: u64 = ((remaining % 3600) / 60) as u64;
    let mut chars = chars_of("Resets in ");
    if hours > 0 {
        extend(&mut chars, decimal_chars(hours).as_slice());
        extend_text(&mut chars, "h ");
    }
    extend(&mut chars, decimal_chars(minutes).as_slice());
    extend_text(&mut chars, "m");
    assert(chars@ =~= resets_in_text(resets_at, now));
    text_of(chars.as_slice())
}

/// How long it is until a session limit is reset.
pub fn format_resets_in(resets_at: i64) -> (text: String)
    ensures
        exists|now: i64| now >= 0 && text@ == #[trigger] resets_in_text(resets_at, now),
{
    let (now, _) = utc_now();
    format_resets_in_at(resets_at, now)
}

/// When a weekly limit is reset, at a point in time, where `local` is how the
/// machine writes the time.
pub open spec fn resets_at_day_text(resets_at: i64, now: i64, local: Option<Seq<char>>) -> Seq<
    char,
> {
    if resets_at <= 0 {
        "Unknown"@
    } else if resets_at <= now {
        "Weekly reset"@
    } else {
        match local {
            Some(text) => text,
            None => "Unknown"@,
        }
    }
}

pub fn format_resets_at_day_with(resets_at: i64, now: i64, local: Option<String>) -> (text: String)
    ensures
        text@ == resets_at_day_text(resets_at, now, text_model(local)),
{
    if resets_at <= 0 {
        "Unknown".to_string()
    } else if resets_at <= now {
        "Weekly reset".to_string()
    } else {
        match local {
            Some(text) => text,
            None => "Unknown".to_string(),
        }
    }
}

/// Whether a text tells when a weekly limit is reset at a point in time, on a
/// machine whose time zone is that many seconds ahead of UTC at the reset.
pub open spec fn tells_reset(resets_at: i64, now: i64, ahead: i32, text: Seq<char>) -> bool {
    text == resets_at_day_text(
        resets_at,
        now,
        if is_time(resets_at) {
            zoned_text(resets_at, ahead)
        } else {
            None
        },
    )
}

/// When a weekly limit is reset.
pub fn format_resets_at_day(resets_at: i64) -> (text: String)
    ensures
        exists|now: i64, ahead: i32|
            now >= 0 && -86_400 < ahead < 86_400 && #[trigger] tells_reset(resets_at, now, ahead, text@),
        resets_at <= 0 ==> text@ == "Unknown"@,
        text@ == "Unknown"@ ==> resets_at <= 0 || !is_time(resets_at),
        text@ == "Unknown"@ || text@ == "Weekly reset"@ || text@.len() > 7 && text@.take(7)
            == "Resets "@,
{
    let (now, _) = utc_now();
    let offset = if resets_at > 0 && resets_at > now {
        local_offset(resets_at)
    } else {
        None
    };
    let local = match offset {
        Some(ahead) => text_at(resets_at, ahead, "Resets %a %-H:%M"),
        None => None,
    };
    let text = format_resets_at_day_with(resets_at, now, local);
    proof {
        reveal_strlit("Resets ");
        reveal_strlit("Unknown");
        reveal_strlit("Weekly reset");
        assert("Weekly reset"@.len() == 12);
        let ahead: i32 = match offset {
            Some(ahead) => ahead,
            None => 0,
        };
        assert(tells_reset(resets_at, now, ahead, text@));
    }
    text
}

/// Whether a limit was reset by a point in time.
pub open spec fn is_expired(resets_at: i64, now: i64) -> bool {
    0 < resets_at <= now
}

/// Whether the bar of a limit is left out because the limit was reset.
pub fn rate_limit_expired_at(resets_at: i64, now: i64) -> (expired: bool)
    ensures
        expired == is_expired(resets_at, now),
{
    resets_at > 0 && resets_at <= now
}

pub fn rate_limit_expired(resets_at: i64) -> (expired: bool)
    ensures
        exists|now: i64| now >= 0 && expired == #[trigger] is_expired(resets_at, now),
{
    let (now, _) = utc_now();
    rate_limit_expired_at(resets_at, now)
}

/// Whether the limits are older than an hour, given how long ago they came in
/// nanoseconds.
pub fn rate_limits_stale(elapsed: u64) -> (stale: bool)
    ensures
        stale == (elapsed > 3_600_000_000_000),
{
    elapsed > 3_600_000_000_000
}

/// How long ago something was, given the whole seconds since then.
pub open spec fn ago_text(iso: Seq<char>, age: Option<int>) -> Seq<char> {
    match age {
        Some(seconds) if seconds >= 0 => {
            let minutes = seconds as nat / 60;
            let hours = seconds as nat / 3600;
            let days = seconds as nat / 86400;
            if minutes < 1 {
                "just now"@
            } else if minutes < 60 {
                decimal(minutes) + "m ago"@
            } else if hours < 24 {
                decimal(hours) + "h ago"@
            } else if days < 30 {
                decimal(days) + "d ago"@
            } else if days < 365 {
                decimal(days / 30) + "mo ago"@
            } else {
                decimal(days / 365) + "y ago"@
            }
        },
        _ => iso,
    }
}

/// How long ago something was; the time itself where it lies ahead or is none.
pub fn format_age(iso: &str, age: Option<i64>) -> (text: String)
    ensures
        text@ == ago_text(
            iso@,
            match age {
                Some(seconds) => Some(seconds as int),
                None => None,
            },
        ),
{
    let seconds: u64 = match age {
        Some(seconds) => {
            if seconds < 0 {
                return iso.to_string();
            }
            seconds as u64
        },
        None => {
            return iso.to_string();
        },
    };
    let minutes: u64 = seconds / 60;
    let hours: u64 = seconds / 3600;
    let days: u64 = seconds / 86400;
    if minutes < 1 {
        return "just now".to_string();
    }
    let (count, unit): (u64, &str) = if minutes < 60 {
        (minutes, "m ago")
    } else if hours < 24 {
        (hours, "h ago")
    } else if days < 30 {
        (days, "d ago")
    } else if days < 365 {
        (days / 30, "mo ago")
    } else {
        (days / 365, "y ago")
    };
    let mut chars = decimal_chars(count);
    extend_text(&mut chars, unit);
    text_of(chars.as_slice())
}

/// How long ago a time was that a text gives, where it gives one.
pub open spec fn age_at(time: Option<(i64, u32)>, seconds: i64, nanos: u32) -> Option<int> {
    match time {
        Some((then, then_nanos)) => Some(
            whole_seconds(nanos_between(then, then_nanos, seconds, nanos)),
        ),
        None => None,
    }
}

/// How long ago a time in RFC 3339 was at a point in time, where `then` is the
/// time that the text gives.
pub fn format_relative_time_at(iso: &str, then: Option<(i64, u32)>, seconds: i64, nanos: u32) -> (text:
    String)
    requires
        then matches Some((then, then_nanos)) ==> is_instant(then, then_nanos),
        is_time(seconds),
        nanos < 1_000_000_000,
    ensures
        text@ == ago_text(iso@, age_at(then, seconds, nanos)),
{
    let age = match then {
        Some((then, then_nanos)) => seconds_between(then, then_nanos, seconds, nanos),
        None => None,
    };
    format_age(iso, age)
}

/// How long ago a time in RFC 3339 was.
pub fn format_relative_time(iso: &str) -> (text: String)
    ensures
        exists|seconds: i64, nanos: u32|
            seconds >= 0 && nanos < 1_000_000_000 && text@ == ago_text(
                iso@,
                #[trigger] age_at(rfc3339_time(iso@), seconds, nanos),
            ),
{
    let (seconds, nanos) = utc_now();
    let time = parse_time(iso);
    format_relative_time_at(iso, time, seconds, nanos)
}

/// How often the checks of a branch are asked for, in nanoseconds: the more
/// rarely the longer ago its last commit was. `now` and the time of the commit
/// are in seconds.
pub open spec fn poll_interval(commit: Option<i64>, now: i64) -> u64 {
    match commit {
        Some(timestamp) => if now - timestamp <= 3600 {
            60_000_000_000
        } else if now - timestamp <= 86400 {
            180_000_000_000
        } else {
            300_000_000_000
        },
        None => 60_000_000_000,
    }
}

pub fn ci_poll_interval_at(commit: Option<i64>, now: i64) -> (interval: u64)
    ensures
        interval == poll_interval(commit, now),
{
    match commit {
        Some(timestamp) => {
            let age: i128 = now as i128 - timestamp as i128;
            if age <= 3600 {
                60_000_000_000
            } else if age <= 86400 {
                180_000_000_000
            } else {
                300_000_000_000
            }
        },
        None => 60_000_000_000,
    }
}

/// The time of the clock in seconds since the start of 1970.
pub fn now_seconds() -> (now: i64)
    ensures
        now >= 0,
{
    let (now, _) = utc_now();
    now
}

/// The time until a session resets, in whole hours and minutes of what is left.
pub proof fn law_countdown(resets_at: i64, now: i64, hours: nat, minutes: nat, seconds: nat)
    requires
        resets_at > 0,
        minutes < 60,
        seconds < 60,
        resets_at - now == 3600 * hours + 60 * minutes + seconds,
    ensures
        resets_in_text(resets_at, now) == if resets_at == now {
            "Session reset"@
        } else if hours == 0 {
            "Resets in "@ + decimal(minutes) + "m"@
        } else {
            "Resets in "@ + decimal(hours) + "h "@ + decimal(minutes) + "m"@
        },
{
    let remaining = resets_at - now;
    assert(remaining / 3600 == hours) by (nonlinear_arith)
        requires
            remaining == 3600 * hours + 60 * minutes + seconds,
            minutes < 60,
            seconds < 60,
    ;
    assert(remaining % 3600 == 60 * minutes + seconds) by (nonlinear_arith)
        requires
            remaining == 3600 * hours + 60 * minutes + seconds,
            minutes < 60,
            seconds < 60,
    ;
}

/// Once the time is reached, a session and a week are over, and stay so; a time
/// that is not after 1970 is unknown.
pub proof fn law_reset_is_past(resets_at: i64, now: i64, local: Option<Seq<char>>)
    ensures
        resets_at <= 0 ==> resets_in_text(resets_at, now) == "Unknown"@ && resets_at_day_text(
            resets_at,
            now,
            local,
        ) == "Unknown"@ && !is_expired(resets_at, now),
        0 < resets_at <= now ==> resets_in_text(resets_at, now) == "Session reset"@
            && resets_at_day_text(resets_at, now, local) == "Weekly reset"@ && is_expired(
            resets_at,
            now,
        ),
        0 < resets_at && now < resets_at ==> !is_expired(resets_at, now) && resets_at_day_text(
            resets_at,
            now,
            Some("x"@),
        ) == "x"@ && resets_at_day_text(resets_at, now, None) == "Unknown"@,
{
}

/// An age is told in the largest unit of which it holds a whole one: minutes,
/// hours, days, months of thirty days, years of 365.
pub proof fn law_ages(iso: Seq<char>, age: int, n: nat)
    requires
        n > 0,
    ensures
        0 <= age < 60 ==> ago_text(iso, Some(age)) == "just now"@,
        n < 60 && 60 * n <= age < 60 * n + 60 ==> ago_text(iso, Some(age)) == decimal(n) + "m ago"@,
        n < 24 && 3600 * n <= age < 3600 * n + 3600 ==> ago_text(iso, Some(age)) == decimal(n)
            + "h ago"@,
        n < 30 && 86400 * n <= age < 86400 * n + 86400 ==> ago_text(iso, Some(age)) == decimal(n)
            + "d ago"@,
        n < 12 && 2_592_000 * n <= age < 2_592_000 * n + 2_592_000 ==> ago_text(iso, Some(age))
            == decimal(n) + "mo ago"@,
        31_536_000 * n <= age < 31_536_000 * n + 31_536_000 ==> ago_text(iso, Some(age))
            == decimal(n) + "y ago"@,
        age < 0 ==> ago_text(iso, Some(age)) == iso,
        ago_text(iso, None) == iso,
{
    if n < 12 && 2_592_000 * n <= age < 2_592_000 * n + 2_592_000 {
        let days = age as nat / 86400;
        assert(30 * n <= days < 30 * n + 30);
        assert(days / 30 == n);
    }
    if 31_536_000 * n <= age < 31_536_000 * n + 31_536_000 {
        let days = age as nat / 86400;
        assert(365 * n <= days < 365 * n + 365);
        assert(days / 365 == n);
    }
}

/// The age of a time is the number of whole seconds since it; a leap second that
/// lies between is counted, and a time in one is one later than its second says.
pub proof fn law_age_of_a_time(then: i64, then_nanos: u32, seconds: i64, nanos: u32, age: nat)
    requires
        then_nanos < 1_000_000_000,
        nanos < 1_000_000_000,
        then_nanos <= nanos,
    ensures
        seconds == then + age ==> age_at(Some((then, then_nanos)), seconds, nanos) == Some(
            age as int,
        ),
        seconds == then - age && then_nanos == nanos ==> age_at(
            Some((then, then_nanos)),
            seconds,
            nanos,
        ) == Some(-age),
        seconds == then + age && age > 0 && then % 86_400 < seconds % 86_400 ==> age_at(
            Some((then, (then_nanos + 1_000_000_000) as u32)),
            seconds,
            nanos,
        ) == Some(age as int),
        seconds == then + age && age > 0 && then % 86_400 >= seconds % 86_400 ==> age_at(
            Some((then, (then_nanos + 1_000_000_000) as u32)),
            seconds,
            nanos,
        ) == Some(age - 1),
        age_at(None, seconds, nanos) is None,
{
    if seconds == then + age {
        let between = nanos_between(then, then_nanos, seconds, nanos);
        assert(between == age * 1_000_000_000 + (nanos - then_nanos));
        assert(between / 1_000_000_000 == age);
    }
}

/// Checks are asked for the more seldom the older the last commit is: each minute
/// in its first hour, every three minutes in its first day, every five then.
pub proof fn law_poll_interval(commit: i64, now: i64, later: i64)
    requires
        now <= later,
    ensures
        poll_interval(Some(commit), now) <= poll_interval(Some(commit), later),
        poll_interval(None, now) == 60 * 1_000_000_000,
        now <= commit + 60 * 60 ==> poll_interval(Some(commit), now) == 60 * 1_000_000_000,
        commit + 60 * 60 < now <= commit + 24 * 60 * 60 ==> poll_interval(Some(commit), now) == 3
            * 60 * 1_000_000_000,
        commit + 24 * 60 * 60 < now ==> poll_interval(Some(commit), now) == 5 * 60 * 1_000_000_000,
{
}

} // verus!
