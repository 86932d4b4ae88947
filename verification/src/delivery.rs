//! When a scheduled delivery happens: the requested clock time in the requested zone,
//! moved to the requested weekday or day of the month, and written as a cron expression
//! on the server's clock.
use vstd::prelude::*;
use crate::calendar::{civil_date, civil_from_days, days_in_month, month_len, weekday_from_monday,
    weekday_from_sunday, lemma_weekday_numbering, lemma_same_month};
use crate::schedule::{Frequency, ScheduleError, ServerTime, frequency_of, plan_frequency,
    schedule_cron, schedule_cron_text};

verus! {

/// The last second of year 9999, the latest instant that the schedule arithmetic handles.
pub const TIME_LIMIT: i64 = 253402300799;

/// The earliest current time that a schedule is planned from (late April 1970).
pub const NOW_MIN: i64 = 10_000_000;

/// The latest current time that a schedule is planned from (year 9987).
pub const NOW_MAX: i64 = 253_000_000_000;

/// Whether chrono-tz knows `name` as a time zone (`chrono_tz::Tz::from_str`).
pub uninterp spec fn chrono_tz_accepts(name: Seq<char>) -> bool;

/// `name.parse::<chrono_tz::Tz>()`, reduced to whether it succeeded. chrono-tz looks the
/// name up in its table of zone names; the contract claims only that the answer is that
/// lookup's for `name`, a function of `name` alone, and does not state the table.
#[verifier::external_body]
fn parse_timezone(name: &str) -> (ok: bool)
    ensures
        ok == chrono_tz_accepts(name@),
{
    name.parse::<chrono_tz::Tz>().is_ok()
}

/// The UTC offset in seconds of chrono-tz's zone `name` at the instant `utc_secs`
/// seconds after 1970-01-01 00:00 UTC.
pub uninterp spec fn zone_offset(name: Seq<char>, utc_secs: i64) -> i64;

/// The offset of zone `name` at an instant: chrono's `DateTime::from_timestamp`,
/// `with_timezone` in the zone that chrono-tz parses from `name`, then the offset's
/// `fix().local_minus_utc()`. The contract claims that the result is a function of the
/// name and the instant, and less than a day either way, which is all that chrono's
/// `FixedOffset` holds; the zone's rules are not stated.
#[verifier::external_body]
fn offset_at(name: &str, utc_secs: i64) -> (off: i64)
    requires
        chrono_tz_accepts(name@),
        0 <= utc_secs <= TIME_LIMIT,
    ensures
        off == zone_offset(name@, utc_secs),
        -86400 < off < 86400,
{
    let tz: chrono_tz::Tz = match name.parse() {
        Ok(tz) => tz,
        Err(_) => return 0,
    };
    match chrono::DateTime::from_timestamp(utc_secs, 0) {
        Some(d) => chrono::Offset::fix(d.with_timezone(&tz).offset()).local_minus_utc() as i64,
        None => 0,
    }
}

/// The instant, in seconds after 1970-01-01 00:00 UTC, at which the clock of chrono-tz's
/// zone `name` shows `local_secs` seconds after 1970-01-01 00:00, when it shows that time
/// exactly once.
pub uninterp spec fn zone_utc_of_local(name: Seq<char>, local_secs: i64) -> Option<i64>;

/// chrono's `TimeZone::from_local_datetime` in the zone that chrono-tz parses from
/// `name`, kept only when it is `single()`, as a timestamp: `None` where the clock skips
/// that time or shows it twice. The contract claims that the result is a function of
/// the name and the local time, and that at the instant returned the zone's offset takes
/// the clock to that local time; when the zone's clock skips or repeats a time is not
/// stated.
#[verifier::external_body]
fn utc_of_local(name: &str, local_secs: i64) -> (r: Option<i64>)
    requires
        chrono_tz_accepts(name@),
        0 <= local_secs <= TIME_LIMIT,
    ensures
        r == zone_utc_of_local(name@, local_secs),
        r matches Some(u) ==> u + zone_offset(name@, u) == local_secs && -86400 < local_secs - u < 86400,
{
    let tz: chrono_tz::Tz = match name.parse() {
        Ok(tz) => tz,
        Err(_) => return None,
    };
    let naive = match chrono::DateTime::from_timestamp(local_secs, 0) {
        Some(d) => d.naive_utc(),
        None => return None,
    };
    match chrono::TimeZone::from_local_datetime(&tz, &naive).single() {
        Some(d) => Some(d.timestamp()),
        None => None,
    }
}

/// The server's UTC offset at an instant: chrono's `with_timezone(&Local)`, which the
/// machine's time-zone settings decide. Nothing names the result, since it depends on
/// the machine; the contract claims only that it is less than a day either way.
#[verifier::external_body]
fn server_offset_at(utc_secs: i64) -> (off: i64)
    requires
        0 <= utc_secs <= TIME_LIMIT,
    ensures
        -86400 < off < 86400,
{
    match chrono::DateTime::from_timestamp(utc_secs, 0) {
        Some(d) => d.with_timezone(&chrono::Local).offset().local_minus_utc() as i64,
        None => 0,
    }
}

/// The clock time of zone `zone` at the instant `utc`, in seconds after 1970-01-01 00:00.
pub open spec fn local_time(zone: Seq<char>, utc: int) -> int {
    utc + zone_offset(zone, utc as i64)
}

/// The first of the instants `t`, `t` plus a day, plus two days, and so on up to the
/// end of year 9999, on which the clock of `zone` shows weekday `w` (0 is Monday).
pub open spec fn weekday_search(zone: Seq<char>, t: int, w: int) -> Option<int>
    decreases TIME_LIMIT - t,
{
    if on_weekday(local_time(zone, t), w) {
        Some(t)
    } else if t + 86400 > TIME_LIMIT {
        None
    } else {
        weekday_search(zone, t + 86400, w)
    }
}

/// The clock time `hour:minute` on the day that a clock showing `local_now` is on.
pub open spec fn time_on_day(local_now: int, hour: u32, minute: u32) -> int {
    (local_now / 86400) * 86400 + hour * 3600 + minute * 60
}

/// The requested clock time on the current day of the zone's clock.
pub open spec fn requested_local(zone: Seq<char>, hour: u32, minute: u32, now: int) -> int {
    time_on_day(local_time(zone, now), hour, minute)
}

/// The clock time `local` moved to day `d` of its month: an error when the month has no
/// such day.
pub open spec fn on_day_of_month(local: int, d: u32) -> Result<int, ScheduleError> {
    let (y, m, today) = civil_from_days((local / 86400) as nat);
    if d < 1 || d > month_len(y, m) {
        Err(ScheduleError::InvalidDayOfMonth)
    } else {
        Ok(local + (d - today) * 86400)
    }
}

/// Whether a clock showing `local` is on weekday `w` (0 is Monday).
pub open spec fn on_weekday(local: int, w: int) -> bool {
    weekday_from_monday(local / 86400) == w
}

/// The clock time `hour:minute` on the day that a clock showing `local_now` is on.
pub fn clock_time_on_day(local_now: i64, hour: u32, minute: u32) -> (t: i64)
    requires
        0 <= local_now <= TIME_LIMIT,
        hour <= 23,
        minute <= 59,
    ensures
        t == time_on_day(local_now as int, hour, minute),
        local_now - 86400 < t < local_now + 86400,
        t % 86400 == hour * 3600 + minute * 60,
{
    (local_now / 86400) * 86400 + (hour as i64) * 3600 + (minute as i64) * 60
}

/// The clock time `local` moved to day `d` of its month, if the month has that day.
pub fn move_to_day_of_month(local: i64, d: u32) -> (r: Result<i64, ScheduleError>)
    requires
        0 <= local <= TIME_LIMIT,
    ensures
        match r {
            Ok(t) => on_day_of_month(local as int, d) == Ok::<int, ScheduleError>(t as int),
            Err(e) => on_day_of_month(local as int, d) == Err::<int, ScheduleError>(e),
        },
        r matches Ok(t) ==> local - 30 * 86400 <= t <= local + 30 * 86400 && t % 86400 == local % 86400,
        r matches Ok(t) ==> civil_from_days((t / 86400) as nat) == (
            civil_from_days((local / 86400) as nat).0,
            civil_from_days((local / 86400) as nat).1,
            d as nat,
        ),
{
    let (y, m, today) = civil_date((local / 86400) as u64);
    let len = days_in_month(y, m);
    if d < 1 || d as u64 > len {
        return Err(ScheduleError::InvalidDayOfMonth);
    }
    let t: i64 = local + (d as i64 - today as i64) * 86400;
    assert((local + (d - today) * 86400) % 86400 == local % 86400) by (nonlinear_arith);
    assert((local + (d - today) * 86400) / 86400 == local / 86400 + (d - today)) by (nonlinear_arith);
    proof {
        lemma_same_month((local / 86400) as nat, d as nat);
    }
    Ok(t)
}

/// Whether a clock showing `local` is on weekday `w` (0 is Monday).
pub fn is_on_weekday(local: i64, w: u8) -> (b: bool)
    requires
        0 <= local,
    ensures
        b == on_weekday(local as int, w as int),
{
    (local / 86400 + 3) % 7 == w as i64
}

/// When a requested schedule delivers next, as its frequency and an instant: the zone
/// must be known and the time must be a clock time; the requested time today must occur
/// once on the zone's clock; a weekly delivery moves on a day at a time until the zone's
/// clock shows the requested weekday; a monthly delivery moves to the requested day of
/// the current month, which must have that day.
pub open spec fn delivery_of(
    zone: Seq<char>,
    hour: u32,
    minute: u32,
    frequency: Seq<char>,
    day_of_week: Option<u32>,
    day_of_month: Option<u32>,
    now: int,
) -> Result<(Frequency, int), ScheduleError> {
    if !chrono_tz_accepts(zone) {
        Err(ScheduleError::InvalidTimezone)
    } else if hour > 23 || minute > 59 {
        Err(ScheduleError::InvalidTime)
    } else {
        let target = requested_local(zone, hour, minute, now);
        match zone_utc_of_local(zone, target as i64) {
            None => Err(ScheduleError::InvalidLocalTime),
            Some(first) => match frequency_of(frequency, day_of_week, day_of_month) {
                Err(e) => Err(e),
                Ok(Frequency::Daily) => Ok((Frequency::Daily, first as int)),
                Ok(Frequency::Weekly { weekday_from_monday: w }) => match weekday_search(
                    zone,
                    first as int,
                    w as int,
                ) {
                    None => Err(ScheduleError::InvalidLocalTime),
                    Some(t) => Ok((Frequency::Weekly { weekday_from_monday: w }, t)),
                },
                Ok(Frequency::Monthly { day: d }) => match on_day_of_month(target, d) {
                    Err(e) => Err(e),
                    Ok(moved) => match zone_utc_of_local(zone, moved as i64) {
                        None => Err(ScheduleError::InvalidLocalTime),
                        Some(u) => Ok((Frequency::Monthly { day: d }, u as int)),
                    },
                },
            },
        }
    }
}

/// The view of a planned delivery.
pub open spec fn delivery_view(r: Result<(Frequency, i64), ScheduleError>) -> Result<(Frequency, int), ScheduleError> {
    match r {
        Ok((f, u)) => Ok((f, u as int)),
        Err(e) => Err(e),
    }
}

/// The next delivery of a requested schedule, planned from the current time
/// `now_utc_secs` (seconds after 1970-01-01 00:00 UTC).
#[verifier::loop_isolation(false)]
pub fn plan_delivery(
    timezone: &str,
    hour: u32,
    minute: u32,
    frequency: &str,
    day_of_week: Option<u32>,
    day_of_month: Option<u32>,
    now_utc_secs: i64,
) -> (r: Result<(Frequency, i64), ScheduleError>)
    requires
        NOW_MIN <= now_utc_secs <= NOW_MAX,
    ensures
        delivery_view(r) == delivery_of(timezone@, hour, minute, frequency@, day_of_week, day_of_month, now_utc_secs as int),
        r matches Ok((_, u)) ==> 86400 <= u <= TIME_LIMIT,
        r matches Ok((f, u)) ==> (!(f is Weekly) ==> local_time(timezone@, u as int) % 86400 == hour * 3600 + minute * 60),
        r matches Ok((f, u)) ==> (f matches Frequency::Monthly { day: d } ==> civil_from_days(
            (local_time(timezone@, u as int) / 86400) as nat,
        ).2 == d),
{
    if !parse_timezone(timezone) {
        return Err(ScheduleError::InvalidTimezone);
    }
    if hour > 23 || minute > 59 {
        return Err(ScheduleError::InvalidTime);
    }
    let off = offset_at(timezone, now_utc_secs);
    let target = clock_time_on_day(now_utc_secs + off, hour, minute);
    let first: i64 = match utc_of_local(timezone, target) {
        None => return Err(ScheduleError::InvalidLocalTime),
        Some(u) => u,
    };
    let f = match plan_frequency(frequency, day_of_week, day_of_month) {
        Err(e) => return Err(e),
        Ok(f) => f,
    };
    match f {
        Frequency::Daily => Ok((f, first)),
        Frequency::Weekly { weekday_from_monday: w } => {
            let mut t: i64 = first;
            loop
                invariant
                    first <= t <= TIME_LIMIT,
                    86400 <= first,
                    chrono_tz_accepts(timezone@),
                    weekday_search(timezone@, t as int, w as int) == weekday_search(timezone@, first as int, w as int),
                decreases TIME_LIMIT - t,
            {
                let o = offset_at(timezone, t);
                if is_on_weekday(t + o, w) {
                    return Ok((f, t));
                }
                if t > TIME_LIMIT - 86400 {
                    return Err(ScheduleError::InvalidLocalTime);
                }
                t = t + 86400;
            }
        },
        Frequency::Monthly { day: d } => {
            let moved = match move_to_day_of_month(target, d) {
                Err(e) => return Err(e),
                Ok(t) => t,
            };
            match utc_of_local(timezone, moved) {
                None => Err(ScheduleError::InvalidLocalTime),
                Some(u) => Ok((f, u)),
            }
        },
    }
}

/// The minute, hour, day of the month and weekday (0 is Sunday) that a clock shows at
/// `local` seconds after 1970-01-01 00:00 on that clock.
pub open spec fn server_time_of(local: int) -> ServerTime {
    let days = local / 86400;
    let secs = local % 86400;
    ServerTime {
        minute: ((secs % 3600) / 60) as u32,
        hour: (secs / 3600) as u32,
        day: civil_from_days(days as nat).2 as u32,
        weekday_from_sunday: weekday_from_sunday(days) as u32,
    }
}

/// What a clock shows at `local` seconds after 1970-01-01 00:00 on that clock.
pub fn server_time(local: i64) -> (t: ServerTime)
    requires
        0 <= local <= TIME_LIMIT + 86400,
    ensures
        t == server_time_of(local as int),
{
    let days: i64 = local / 86400;
    let secs: i64 = local % 86400;
    let (_, _, d) = civil_date(days as u64);
    ServerTime {
        minute: ((secs % 3600) / 60) as u32,
        hour: (secs / 3600) as u32,
        day: d as u32,
        weekday_from_sunday: ((days + 4) % 7) as u32,
    }
}

/// What a clock shows at a second `secs` of day `days` after 1970-01-01: every second of
/// one calendar day shows that day's day of the month and weekday, and the hour and
/// minute are those of the second within the day.
pub proof fn lemma_server_time_of_day(days: int, secs: int)
    requires
        days >= 0,
        0 <= secs < 86400,
    ensures
        server_time_of(days * 86400 + secs).day == civil_from_days(days as nat).2,
        server_time_of(days * 86400 + secs).weekday_from_sunday == weekday_from_sunday(days),
        server_time_of(days * 86400 + secs).hour == secs / 3600,
        server_time_of(days * 86400 + secs).minute == (secs % 3600) / 60,
{
    assert((days * 86400 + secs) / 86400 == days) by (nonlinear_arith)
        requires days >= 0, 0 <= secs < 86400;
    assert((days * 86400 + secs) % 86400 == secs) by (nonlinear_arith)
        requires days >= 0, 0 <= secs < 86400;
    crate::calendar::lemma_civil_bounds(days as nat);
}

/// The cron expression of a delivery of frequency `frequency` at the instant `instant`,
/// on a server whose clock is `server_offset` seconds ahead of UTC then.
pub fn cron_for_server(frequency: Frequency, instant: i64, server_offset: i64) -> (r: String)
    requires
        86400 <= instant <= TIME_LIMIT,
        -86400 < server_offset < 86400,
    ensures
        r@ == schedule_cron_text(frequency, server_time_of(instant + server_offset)),
{
    schedule_cron(frequency, server_time(instant + server_offset))
}

/// The cron expression of the delivery `d` on a server whose clock is `off` seconds
/// ahead of UTC at that instant.
pub open spec fn delivery_cron(d: (Frequency, int), off: int) -> Seq<char> {
    schedule_cron_text(d.0, server_time_of(d.1 + off))
}

/// The cron expression, on the server's clock, for a requested schedule, planned from the
/// current time `now_utc_secs`. A refused request gets the error that `delivery_of`
/// names; an accepted one gets the cron expression of its next delivery on the server's
/// clock, whose offset from UTC then is less than a day either way.
pub fn build_cron_expression(
    timezone: &str,
    hour: u32,
    minute: u32,
    frequency: &str,
    day_of_week: Option<u32>,
    day_of_month: Option<u32>,
    now_utc_secs: i64,
) -> (r: Result<String, ScheduleError>)
    requires
        NOW_MIN <= now_utc_secs <= NOW_MAX,
    ensures
        match r {
            Ok(s) => delivery_of(timezone@, hour, minute, frequency@, day_of_week, day_of_month, now_utc_secs as int) is Ok
                && exists|off: int| -86400 < off < 86400 && s@ == #[trigger] delivery_cron(
                    delivery_of(timezone@, hour, minute, frequency@, day_of_week, day_of_month, now_utc_secs as int)->Ok_0,
                    off,
                ),
            Err(e) => delivery_of(timezone@, hour, minute, frequency@, day_of_week, day_of_month, now_utc_secs as int)
                == Err::<(Frequency, int), ScheduleError>(e),
        },
{
    match plan_delivery(timezone, hour, minute, frequency, day_of_week, day_of_month, now_utc_secs) {
        Err(e) => Err(e),
        Ok((f, u)) => {
            let off = server_offset_at(u);
            let s = cron_for_server(f, u, off);
            let ghost d = delivery_of(timezone@, hour, minute, frequency@, day_of_week, day_of_month, now_utc_secs as int);
            assert(d == Ok::<(Frequency, int), ScheduleError>((f, u as int)));
            assert(s@ == delivery_cron(d->Ok_0, off as int));
            Ok(s)
        },
    }
}

/// The search for a weekday ends on an instant on which the zone's clock shows it.
pub proof fn lemma_weekday_search(zone: Seq<char>, t: int, w: int)
    ensures
        weekday_search(zone, t, w) matches Some(found) ==> on_weekday(local_time(zone, found), w) && found >= t,
    decreases TIME_LIMIT - t,
{
    if !on_weekday(local_time(zone, t), w) && t + 86400 <= TIME_LIMIT {
        lemma_weekday_search(zone, t + 86400, w);
    }
}

/// A weekly delivery happens on the requested weekday of the zone's clock (0 is Monday),
/// and on a server that keeps the zone's clock its cron expression names that weekday
/// counted from Sunday: one more, with Sunday as 0.
pub proof fn lemma_weekly_delivery_weekday(
    zone: Seq<char>,
    hour: u32,
    minute: u32,
    frequency: Seq<char>,
    day_of_week: Option<u32>,
    day_of_month: Option<u32>,
    now: int,
    w: u8,
    u: int,
)
    requires
        delivery_of(zone, hour, minute, frequency, day_of_week, day_of_month, now) == Ok::<(Frequency, int), ScheduleError>((Frequency::Weekly { weekday_from_monday: w }, u)),
    ensures
        weekday_from_monday(local_time(zone, u) / 86400) == w,
        local_time(zone, u) >= 0 ==> server_time_of(local_time(zone, u)).weekday_from_sunday == (w + 1) % 7,
{
    let first = zone_utc_of_local(zone, requested_local(zone, hour, minute, now) as i64)->0;
    lemma_weekday_search(zone, first as int, w as int);
    lemma_weekday_numbering(local_time(zone, u) / 86400);
}

} // verus!
