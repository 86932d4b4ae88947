//! Schedules: the cron expressions that the service writes for a requested delivery
//! time, reading the time back out of them, and the checks on a schedule request.
use vstd::prelude::*;
use crate::links::opt_view;
use crate::text::{chars_of, decimal, digits_value, is_digit, is_whitespace, is_ws, parse_u32,
    parse_u32_spec, push_decimal, push_str, string_of, trim, trimmed, all_digits, unsigned_digits};

verus! {

/// The length of the run of non-whitespace characters at the start of `s`.
pub open spec fn word_len(s: Seq<char>) -> nat
    decreases s.len(),
{
    if s.len() > 0 && !is_ws(s[0]) {
        1 + word_len(s.drop_first())
    } else {
        0
    }
}

/// The whitespace-separated words of `s`, as `str::split_whitespace` yields them.
pub open spec fn split_ws(s: Seq<char>) -> Seq<Seq<char>>
    decreases s.len(),
{
    if s.len() == 0 {
        Seq::empty()
    } else if is_ws(s[0]) {
        split_ws(s.drop_first())
    } else {
        let w = word_len(s);
        if w == 0 {
            Seq::empty()
        } else {
            proof {
                lemma_word_len_bound(s);
            }
            seq![s.take(w as int)] + split_ws(s.skip(w as int))
        }
    }
}

/// The first word of `s` is a run of non-whitespace characters, ended by whitespace or
/// by the end of `s`.
pub proof fn lemma_word_len_bound(s: Seq<char>)
    ensures
        word_len(s) <= s.len(),
        forall|i: int| 0 <= i < word_len(s) ==> !is_ws(#[trigger] s[i]),
        word_len(s) < s.len() ==> is_ws(s[word_len(s) as int]),
        s.len() > 0 && !is_ws(s[0]) ==> word_len(s) >= 1,
    decreases s.len(),
{
    if s.len() > 0 && !is_ws(s[0]) {
        lemma_word_len_bound(s.drop_first());
        assert forall|i: int| 0 <= i < word_len(s) implies !is_ws(#[trigger] s[i]) by {
            if i > 0 {
                assert(s[i] == s.drop_first()[i - 1]);
            }
        }
    }
}

/// `word_len` of a run of `n` non-whitespace characters followed by whitespace or the end.
pub proof fn lemma_word_len_exact(s: Seq<char>, n: int)
    requires
        0 <= n <= s.len(),
        forall|i: int| 0 <= i < n ==> !is_ws(#[trigger] s[i]),
        n < s.len() ==> is_ws(s[n]),
    ensures
        word_len(s) == n,
    decreases n,
{
    if n > 0 {
        lemma_word_len_exact(s.drop_first(), n - 1);
    }
}

/// The words of `s`.
pub fn split_whitespace(s: &str) -> (words: Vec<Vec<char>>)
    ensures
        words@.map_values(|w: Vec<char>| w@) == split_ws(s@),
{
    let v = chars_of(s);
    let mut words: Vec<Vec<char>> = Vec::new();
    let mut i: usize = 0;
    assert(v@.skip(0) =~= v@);
    while i < v.len()
        invariant
            v@ == s@,
            i <= v.len(),
            words@.map_values(|w: Vec<char>| w@) + split_ws(v@.skip(i as int)) == split_ws(v@),
        decreases v.len() - i,
    {
        let ghost rest = v@.skip(i as int);
        let ghost before = words@.map_values(|w: Vec<char>| w@);
        if is_whitespace(v[i]) {
            assert(rest.drop_first() =~= v@.skip(i + 1));
            i = i + 1;
        } else {
            let mut j = i;
            let mut w: Vec<char> = Vec::new();
            while j < v.len() && !is_whitespace(v[j])
                invariant
                    i <= j <= v.len(),
                    w@ == v@.subrange(i as int, j as int),
                    forall|q: int| i <= q < j ==> !is_ws(#[trigger] v@[q]),
                decreases v.len() - j,
            {
                w.push(v[j]);
                j = j + 1;
                assert(w@ =~= v@.subrange(i as int, j as int));
            }
            proof {
                lemma_word_len_exact(rest, (j - i) as int);
                assert(rest.take((j - i) as int) =~= w@);
                assert(rest.skip((j - i) as int) =~= v@.skip(j as int));
            }
            words.push(w);
            assert(words@.map_values(|w: Vec<char>| w@) =~= before.push(w@));
            assert(before.push(w@) + split_ws(v@.skip(j as int)) =~= before + (seq![w@] + split_ws(v@.skip(j as int))));
            i = j;
        }
    }
    assert(split_ws(v@.skip(i as int)) =~= Seq::<Seq<char>>::empty());
    assert(words@.map_values(|w: Vec<char>| w@) =~= split_ws(v@));
    words
}

/// The minute and hour of a cron expression whose second field comes first, when it
/// has at least five fields and the second and third are numbers.
pub open spec fn cron_time(expr: Seq<char>) -> Option<(u32, u32)> {
    let parts = split_ws(expr);
    if parts.len() >= 5 && parse_u32_spec(parts[1]) is Some && parse_u32_spec(parts[2]) is Some {
        Some((parse_u32_spec(parts[1])->0, parse_u32_spec(parts[2])->0))
    } else {
        None
    }
}

/// Reads the minute and hour out of a stored cron expression.
pub fn parse_cron_time(expr: &str) -> (r: Option<(u32, u32)>)
    ensures
        r == cron_time(expr@),
{
    let parts = split_whitespace(expr);
    let ghost pv = parts@.map_values(|w: Vec<char>| w@);
    if parts.len() >= 5 {
        assert(parts@[1]@ == pv[1]);
        assert(parts@[2]@ == pv[2]);
        let minute = parse_u32(&parts[1]);
        let hour = parse_u32(&parts[2]);
        match (minute, hour) {
            (Some(m), Some(h)) => Some((m, h)),
            _ => None,
        }
    } else {
        None
    }
}

/// The cron expression that runs every day at `hour:minute`.
pub open spec fn daily_cron(minute: u32, hour: u32) -> Seq<char> {
    "0 "@ + decimal(minute as nat) + " "@ + decimal(hour as nat) + " * * *"@
}

/// The cron expression that runs every week on day `weekday` (0 is Sunday) at
/// `hour:minute`.
pub open spec fn weekly_cron(minute: u32, hour: u32, weekday: u32) -> Seq<char> {
    "0 "@ + decimal(minute as nat) + " "@ + decimal(hour as nat) + " * * "@ + decimal(
        weekday as nat,
    )
}

/// The cron expression that runs every month on day `day` at `hour:minute`.
pub open spec fn monthly_cron(minute: u32, hour: u32, day: u32) -> Seq<char> {
    "0 "@ + decimal(minute as nat) + " "@ + decimal(hour as nat) + " "@ + decimal(day as nat)
        + " * *"@
}

/// The cron expression for a daily delivery.
pub fn cron_daily(minute: u32, hour: u32) -> (r: String)
    ensures
        r@ == daily_cron(minute, hour),
{
    let mut out: Vec<char> = Vec::new();
    push_str(&mut out, "0 ");
    push_decimal(&mut out, minute as u64);
    push_str(&mut out, " ");
    push_decimal(&mut out, hour as u64);
    push_str(&mut out, " * * *");
    assert(out@ =~= daily_cron(minute, hour));
    string_of(&out)
}

/// The cron expression for a weekly delivery.
pub fn cron_weekly(minute: u32, hour: u32, weekday: u32) -> (r: String)
    ensures
        r@ == weekly_cron(minute, hour, weekday),
{
    let mut out: Vec<char> = Vec::new();
    push_str(&mut out, "0 ");
    push_decimal(&mut out, minute as u64);
    push_str(&mut out, " ");
    push_decimal(&mut out, hour as u64);
    push_str(&mut out, " * * ");
    push_decimal(&mut out, weekday as u64);
    assert(out@ =~= weekly_cron(minute, hour, weekday));
    string_of(&out)
}

/// The cron expression for a monthly delivery.
pub fn cron_monthly(minute: u32, hour: u32, day: u32) -> (r: String)
    ensures
        r@ == monthly_cron(minute, hour, day),
{
    let mut out: Vec<char> = Vec::new();
    push_str(&mut out, "0 ");
    push_decimal(&mut out, minute as u64);
    push_str(&mut out, " ");
    push_decimal(&mut out, hour as u64);
    push_str(&mut out, " ");
    push_decimal(&mut out, day as u64);
    push_str(&mut out, " * *");
    assert(out@ =~= monthly_cron(minute, hour, day));
    string_of(&out)
}

/// Why a schedule request is refused.
#[derive(Debug, Clone, Copy, PartialEq, Eq, Structural)]
pub enum ScheduleError {
    InvalidTimezone,
    InvalidTime,
    /// The requested clock time does not occur exactly once in the zone on the day it
    /// falls on, or no day up to the end of year 9999 has the requested weekday.
    InvalidLocalTime,
    MissingDayOfWeek,
    InvalidDayOfWeek,
    MissingDayOfMonth,
    InvalidDayOfMonth,
    InvalidOverrideEmail,
}

/// The message with which a refused request is answered.
pub open spec fn error_message(e: ScheduleError) -> Seq<char> {
    match e {
        ScheduleError::InvalidTimezone => "Invalid timezone: failed to parse timezone"@,
        ScheduleError::InvalidTime => "Invalid time"@,
        ScheduleError::InvalidLocalTime => "Invalid local time"@,
        ScheduleError::MissingDayOfWeek => "Missing day of week"@,
        ScheduleError::InvalidDayOfWeek => "Invalid day of week"@,
        ScheduleError::MissingDayOfMonth => "Missing day of month"@,
        ScheduleError::InvalidDayOfMonth => "Invalid day of month for current month"@,
        ScheduleError::InvalidOverrideEmail => "Invalid override email"@,
    }
}

impl ScheduleError {
    /// The message with which a refused request is answered.
    pub fn message(&self) -> (m: String)
        ensures
            m@ == error_message(*self),
    {
        match self {
            ScheduleError::InvalidTimezone => "Invalid timezone: failed to parse timezone".to_owned(),
            ScheduleError::InvalidTime => "Invalid time".to_owned(),
            ScheduleError::InvalidLocalTime => "Invalid local time".to_owned(),
            ScheduleError::MissingDayOfWeek => "Missing day of week".to_owned(),
            ScheduleError::InvalidDayOfWeek => "Invalid day of week".to_owned(),
            ScheduleError::MissingDayOfMonth => "Missing day of month".to_owned(),
            ScheduleError::InvalidDayOfMonth => "Invalid day of month for current month".to_owned(),
            ScheduleError::InvalidOverrideEmail => "Invalid override email".to_owned(),
        }
    }
}

/// How often a schedule delivers: every day, every week on a weekday (0 is Monday), or
/// every month on a day.
#[derive(Debug, Clone, Copy, PartialEq, Eq, Structural)]
pub enum Frequency {
    Daily,
    Weekly { weekday_from_monday: u8 },
    Monthly { day: u32 },
}

/// The delivery frequency of a request: `weekly` needs a day of the week, which is read
/// as a byte and must name one of the seven days; `monthly` needs a day of the month;
/// anything else is daily.
pub open spec fn frequency_of(frequency: Seq<char>, day_of_week: Option<u32>, day_of_month: Option<u32>) -> Result<Frequency, ScheduleError> {
    if frequency == "weekly"@ {
        match day_of_week {
            None => Err(ScheduleError::MissingDayOfWeek),
            Some(d) => if d % 256 < 7 {
                Ok(Frequency::Weekly { weekday_from_monday: (d % 256) as u8 })
            } else {
                Err(ScheduleError::InvalidDayOfWeek)
            },
        }
    } else if frequency == "monthly"@ {
        match day_of_month {
            None => Err(ScheduleError::MissingDayOfMonth),
            Some(d) => Ok(Frequency::Monthly { day: d }),
        }
    } else {
        Ok(Frequency::Daily)
    }
}

/// The delivery frequency of a request.
pub fn plan_frequency(frequency: &str, day_of_week: Option<u32>, day_of_month: Option<u32>) -> (r: Result<Frequency, ScheduleError>)
    ensures
        r == frequency_of(frequency@, day_of_week, day_of_month),
{
    if crate::text::str_eq(frequency, "weekly") {
        match day_of_week {
            None => Err(ScheduleError::MissingDayOfWeek),
            Some(d) => {
                let b = d % 256;
                if b < 7 {
                    Ok(Frequency::Weekly { weekday_from_monday: b as u8 })
                } else {
                    Err(ScheduleError::InvalidDayOfWeek)
                }
            },
        }
    } else if crate::text::str_eq(frequency, "monthly") {
        match day_of_month {
            None => Err(ScheduleError::MissingDayOfMonth),
            Some(d) => Ok(Frequency::Monthly { day: d }),
        }
    } else {
        Ok(Frequency::Daily)
    }
}

/// When a delivery happens on the server's clock: the minute and hour, the day of the
/// month, and the weekday counted from Sunday.
#[derive(Debug, Clone, Copy, PartialEq, Eq, Structural)]
pub struct ServerTime {
    pub minute: u32,
    pub hour: u32,
    pub day: u32,
    pub weekday_from_sunday: u32,
}

/// The cron expression of a delivery of frequency `frequency` whose next occurrence, on
/// the server's clock, is `at`.
pub open spec fn schedule_cron_text(frequency: Frequency, at: ServerTime) -> Seq<char> {
    match frequency {
        Frequency::Daily => daily_cron(at.minute, at.hour),
        Frequency::Weekly { .. } => weekly_cron(at.minute, at.hour, at.weekday_from_sunday),
        Frequency::Monthly { .. } => monthly_cron(at.minute, at.hour, at.day),
    }
}

/// The cron expression of a delivery of frequency `frequency` whose next occurrence, on
/// the server's clock, is `at`.
pub fn schedule_cron(frequency: Frequency, at: ServerTime) -> (r: String)
    ensures
        r@ == schedule_cron_text(frequency, at),
{
    match frequency {
        Frequency::Daily => cron_daily(at.minute, at.hour),
        Frequency::Weekly { .. } => cron_weekly(at.minute, at.hour, at.weekday_from_sunday),
        Frequency::Monthly { .. } => cron_monthly(at.minute, at.hour, at.day),
    }
}

/// Whether lettre accepts `s` as an email address (`lettre::Address::from_str`).
pub uninterp spec fn lettre_accepts_address(s: Seq<char>) -> bool;

/// `s.parse::<lettre::Address>()`, reduced to whether it succeeded. The contract claims
/// only that the answer is lettre's for `s`, a function of `s` alone; lettre's rules for
/// local parts and domains are not stated.
#[verifier::external_body]
fn parses_as_address(s: &str) -> (ok: bool)
    ensures
        ok == lettre_accepts_address(s@),
{
    s.parse::<lettre::Address>().is_ok()
}

/// The override address of a request: none when missing or blank, else the address
/// without surrounding whitespace if lettre accepts it, else an error.
pub open spec fn override_email_of(o: Option<Seq<char>>) -> Result<Option<Seq<char>>, ScheduleError> {
    match o {
        None => Ok(None),
        Some(e) => if trimmed(e).len() == 0 {
            Ok(None)
        } else if lettre_accepts_address(trimmed(e)) {
            Ok(Some(trimmed(e)))
        } else {
            Err(ScheduleError::InvalidOverrideEmail)
        },
    }
}

/// The view of a checked override address.
pub open spec fn override_view(r: Result<Option<String>, ScheduleError>) -> Result<Option<Seq<char>>, ScheduleError> {
    match r {
        Ok(o) => Ok(opt_view(o)),
        Err(e) => Err(e),
    }
}

/// The answer to a request whose override address, without surrounding whitespace, is
/// the non-blank `address`, which lettre accepts exactly when `accepted`.
pub fn accept_override_email(address: String, accepted: bool) -> (r: Result<Option<String>, ScheduleError>)
    ensures
        override_view(r) == if accepted {
            Ok::<Option<Seq<char>>, ScheduleError>(Some(address@))
        } else {
            Err(ScheduleError::InvalidOverrideEmail)
        },
{
    if accepted {
        Ok(Some(address))
    } else {
        Err(ScheduleError::InvalidOverrideEmail)
    }
}

/// Checks the override address of a schedule request.
pub fn validate_override_email(override_to_email: Option<String>) -> (r: Result<Option<String>, ScheduleError>)
    ensures
        override_view(r) == override_email_of(opt_view(override_to_email)),
{
    match override_to_email {
        Some(email) => {
            let trimmed_email = trim(email.as_str());
            if trimmed_email.as_str().is_empty() {
                Ok(None)
            } else {
                let accepted = parses_as_address(trimmed_email.as_str());
                accept_override_email(trimmed_email, accepted)
            }
        },
        None => Ok(None),
    }
}

/// A word followed by whitespace or by nothing splits off as the first word.
pub proof fn lemma_split_word(w: Seq<char>, rest: Seq<char>)
    requires
        w.len() > 0,
        forall|i: int| 0 <= i < w.len() ==> !is_ws(#[trigger] w[i]),
        rest.len() == 0 || is_ws(rest[0]),
    ensures
        split_ws(w + rest) == seq![w] + split_ws(rest),
{
    let s = w + rest;
    assert forall|i: int| 0 <= i < w.len() implies !is_ws(#[trigger] s[i]) by {
        assert(s[i] == w[i]);
    }
    if rest.len() > 0 {
        assert(s[w.len() as int] == rest[0]);
    }
    lemma_word_len_exact(s, w.len() as int);
    assert(s.take(w.len() as int) =~= w);
    assert(s.skip(w.len() as int) =~= rest);
}

/// A leading space does not change the words.
pub proof fn lemma_split_space(rest: Seq<char>)
    ensures
        split_ws(seq![' '] + rest) == split_ws(rest),
{
    let s = seq![' '] + rest;
    assert(is_ws(s[0]));
    assert(s.drop_first() =~= rest);
}

proof fn lemma_decimal_word(n: nat)
    ensures
        decimal(n).len() > 0,
        forall|i: int| 0 <= i < decimal(n).len() ==> !is_ws(#[trigger] decimal(n)[i]),
{
    crate::text::lemma_decimal(n);
}

/// Reading the time back out of the cron expression written for a daily, weekly or
/// monthly delivery gives the minute and hour it was written with.
pub proof fn lemma_cron_time_roundtrip(minute: u32, hour: u32, day: u32)
    ensures
        cron_time(daily_cron(minute, hour)) == Some((minute, hour)),
        cron_time(weekly_cron(minute, hour, day)) == Some((minute, hour)),
        cron_time(monthly_cron(minute, hour, day)) == Some((minute, hour)),
{
    reveal_strlit("0 ");
    reveal_strlit(" ");
    reveal_strlit(" * * *");
    reveal_strlit(" * * ");
    reveal_strlit(" * *");
    let dm = decimal(minute as nat);
    let dh = decimal(hour as nat);
    let dd = decimal(day as nat);
    lemma_decimal_word(minute as nat);
    lemma_decimal_word(hour as nat);
    lemma_decimal_word(day as nat);
    crate::text::lemma_parse_decimal(minute);
    crate::text::lemma_parse_decimal(hour);
    let zero = seq!['0'];
    let star = seq!['*'];
    let sp = seq![' '];
    assert(!is_ws('0'));
    assert(!is_ws('*'));
    // the words after the hour, for each kind of schedule
    let e = Seq::<char>::empty();
    lemma_split_word(star, e);
    assert(star + e =~= star);
    lemma_split_word(dd, e);
    assert(dd + e =~= dd);
    // " * * *"
    let d3 = star;
    lemma_split_space(d3);
    lemma_split_word(star, sp + d3);
    let d2 = star + (sp + d3);
    lemma_split_space(d2);
    lemma_split_word(star, sp + d2);
    let d1 = star + (sp + d2);
    lemma_split_space(d1);
    let tail_daily = sp + d1;
    assert(" * * *"@ =~= tail_daily);
    // " * * <day>"
    let w3 = dd;
    lemma_split_space(w3);
    lemma_split_word(star, sp + w3);
    let w2 = star + (sp + w3);
    lemma_split_space(w2);
    lemma_split_word(star, sp + w2);
    let w1 = star + (sp + w2);
    lemma_split_space(w1);
    let tail_weekly = sp + w1;
    assert(" * * "@ + dd =~= tail_weekly);
    // " <day> * *"
    let m3 = star;
    lemma_split_space(m3);
    lemma_split_word(star, sp + m3);
    let m2 = star + (sp + m3);
    lemma_split_space(m2);
    lemma_split_word(dd, sp + m2);
    let m1 = dd + (sp + m2);
    lemma_split_space(m1);
    let tail_monthly = sp + m1;
    assert(" "@ + dd + " * *"@ =~= tail_monthly);
    assert(split_ws(tail_daily).len() == 3);
    assert(split_ws(tail_weekly).len() == 3);
    assert(split_ws(tail_monthly).len() == 3);
    let tails = seq![tail_daily, tail_weekly, tail_monthly];
    assert forall|t: int| 0 <= t < 3 implies {
        let tl = #[trigger] tails[t];
        let s = zero + sp + dm + sp + dh + tl;
        &&& split_ws(s).len() == 6
        &&& split_ws(s)[1] == dm
        &&& split_ws(s)[2] == dh
    } by {
        let tl = tails[t];
        if t == 0 {
            assert(tl == tail_daily);
        } else if t == 1 {
            assert(tl == tail_weekly);
        } else {
            assert(tl == tail_monthly);
        }
        assert(split_ws(tl).len() == 3);
        assert(tl[0] == ' ');
        lemma_split_word(dh, tl);
        let h1 = dh + tl;
        lemma_split_space(h1);
        lemma_split_word(dm, sp + h1);
        let h2 = dm + (sp + h1);
        lemma_split_space(h2);
        lemma_split_word(zero, sp + h2);
        assert(zero + (sp + h2) =~= zero + sp + dm + sp + dh + tl);
    }
    assert(daily_cron(minute, hour) =~= zero + sp + dm + sp + dh + tails[0]);
    assert(weekly_cron(minute, hour, day) =~= zero + sp + dm + sp + dh + tails[1]);
    assert(monthly_cron(minute, hour, day) =~= zero + sp + dm + sp + dh + tails[2]);
}

} // verus!
