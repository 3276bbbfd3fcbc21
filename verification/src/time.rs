//! Instants as the service handles them: Unix seconds and nanoseconds, the
//! RFC 3339 text chrono writes for them, and the quiet-hours clock.

use vstd::prelude::*;

verus! {

/// An instant in UTC: seconds since the Unix epoch and nanoseconds within
/// the second.
#[derive(Clone, Copy, Debug, PartialEq, Eq, Structural)]
pub struct UtcTime {
    pub secs: i64,
    pub nanos: u32,
}

/// The earliest second chrono represents (`-262143-01-01T00:00:00Z`).
pub open spec fn chrono_min_secs() -> int {
    -8_334_601_315_200
}

/// The latest second chrono represents (`+262142-12-31T23:59:59Z`).
pub open spec fn chrono_max_secs() -> int {
    8_210_266_876_799
}

/// Whether an instant is one chrono represents, outside a leap second.
pub open spec fn representable(secs: int, nanos: int) -> bool {
    chrono_min_secs() <= secs <= chrono_max_secs() && 0 <= nanos < 1_000_000_000
}

impl UtcTime {
    pub open spec fn valid(self) -> bool {
        representable(self.secs as int, self.nanos as int)
    }
}

/// The RFC 3339 text that chrono writes for an instant.
pub uninterp spec fn rfc3339_text(secs: int, nanos: int) -> Seq<char>;

/// `DateTime::<Utc>::from_timestamp(secs, nanos)` then `to_rfc3339()`; the
/// instant exists for every second chrono represents.
#[verifier::external_body]
pub(crate) fn format_rfc3339(t: UtcTime) -> (r: String)
    requires
        t.valid(),
    ensures
        r@ == rfc3339_text(t.secs as int, t.nanos as int),
{
    match chrono::DateTime::from_timestamp(t.secs, t.nanos) {
        Some(d) => d.to_rfc3339(),
        None => String::new(),
    }
}

/// The instant `minutes` minutes after (or before) `t`.
pub open spec fn shift_minutes(t: UtcTime, minutes: int) -> UtcTime {
    UtcTime { secs: (t.secs + minutes * 60) as i64, nanos: t.nanos }
}

/// `t` moved by whole minutes, as `t + TimeDelta::minutes(m)` gives it.
pub fn add_minutes(t: UtcTime, minutes: i64) -> (r: UtcTime)
    requires
        t.valid(),
        representable(t.secs + minutes * 60, t.nanos as int),
    ensures
        r == shift_minutes(t, minutes as int),
        r.valid(),
{
    UtcTime { secs: t.secs + minutes * 60, nanos: t.nanos }
}

/// Minutes past local midnight at `t` in a zone `offset` minutes ahead of
/// UTC (`hour() * 60 + minute()` of the shifted time).
pub open spec fn local_minute_of_day(t: UtcTime, offset: int) -> int {
    let local = t.secs + offset * 60;
    (local % 86_400) / 60
}

/// The local minute of the day is the UTC minute of the day moved by the
/// offset, around the clock; so lowering the offset by `k` minutes moves the
/// local minute back by `k` minutes, and it always names a minute of a day.
pub proof fn law_offset_moves_local_minute(t: UtcTime, offset: int, k: int)
    ensures
        local_minute_of_day(t, offset) == ((t.secs % 86_400) / 60 + offset) % 1440,
        local_minute_of_day(t, offset - k) == (local_minute_of_day(t, offset) - k) % 1440,
        0 <= local_minute_of_day(t, offset) < 1440,
{
    lemma_minute_shift(t.secs as int, offset);
    lemma_minute_shift(t.secs as int, offset - k);
    let a = (t.secs % 86_400) / 60 + offset;
    let j = a % 1440;
    let p = a / 1440;
    vstd::arithmetic::div_mod::lemma_fundamental_div_mod(a, 1440);
    let j2 = (j - k) % 1440;
    let p2 = (j - k) / 1440;
    vstd::arithmetic::div_mod::lemma_fundamental_div_mod(j - k, 1440);
    assert(a - k == (p + p2) * 1440 + j2);
    vstd::arithmetic::div_mod::lemma_fundamental_div_mod_converse(a - k, 1440, p + p2, j2);
}

/// `((s + offset * 60) mod 86400) / 60` is the minute of the day `s` names,
/// moved by `offset` around the clock.
proof fn lemma_minute_shift(s: int, offset: int)
    ensures
        ((s + offset * 60) % 86_400) / 60 == ((s % 86_400) / 60 + offset) % 1440,
{
    let r0 = s % 86_400;
    let q0 = s / 86_400;
    vstd::arithmetic::div_mod::lemma_fundamental_div_mod(s, 86_400);
    let m0 = r0 / 60;
    let sec = r0 % 60;
    vstd::arithmetic::div_mod::lemma_fundamental_div_mod(r0, 60);
    let a = m0 + offset;
    let j = a % 1440;
    let p = a / 1440;
    vstd::arithmetic::div_mod::lemma_fundamental_div_mod(a, 1440);
    assert(s + offset * 60 == (q0 + p) * 86_400 + (60 * j + sec));
    vstd::arithmetic::div_mod::lemma_fundamental_div_mod_converse(s + offset * 60, 86_400, q0 + p, 60 * j + sec);
    vstd::arithmetic::div_mod::lemma_fundamental_div_mod_converse(60 * j + sec, 60, j, sec);
}

/// Whether chrono has a date for this second (years -262143 to 262142).
pub open spec fn in_range(secs: int) -> bool {
    chrono_min_secs() <= secs <= chrono_max_secs()
}

/// The instant an RFC 3339 text names, in UTC: seconds since the epoch and
/// the nanoseconds within the second (from 1e9 up during a leap second).
pub uninterp spec fn rfc3339_instant(text: Seq<char>) -> Option<(i64, u32)>;

/// `DateTime::parse_from_rfc3339(text)` taken to UTC, read back as
/// `timestamp()` and `timestamp_subsec_nanos()`. What parses is an instant
/// chrono represents, and its nanoseconds stay below 2e9.
#[verifier::external_body]
pub(crate) fn parse_rfc3339(text: &str) -> (r: Option<UtcTime>)
    ensures
        match r {
            Some(t) => {
                &&& rfc3339_instant(text@) == Some((t.secs, t.nanos))
                &&& in_range(t.secs as int)
                &&& t.nanos < 2_000_000_000
            },
            None => rfc3339_instant(text@) is None,
        },
{
    match chrono::DateTime::parse_from_rfc3339(text) {
        Ok(d) => {
            let utc = d.with_timezone(&chrono::Utc);
            Some(UtcTime { secs: utc.timestamp(), nanos: utc.timestamp_subsec_nanos() })
        },
        Err(_) => None,
    }
}

/// The instant `minutes` minutes after `(secs, nanos)`, as chrono's
/// `DateTime + TimeDelta::minutes(minutes)` places it. Outside a leap second
/// the seconds move and the nanoseconds stay. A leap second (nanoseconds from
/// 1e9) moved forward counts from the second it repeats, moved back from the
/// second after it, and moved by nothing stays as it is.
pub open spec fn minutes_after(secs: int, nanos: int, minutes: int) -> (int, int) {
    if nanos >= 1_000_000_000 {
        if minutes > 0 {
            (secs + minutes * 60, nanos - 1_000_000_000)
        } else if minutes < 0 {
            (secs + 1 + minutes * 60, nanos - 1_000_000_000)
        } else {
            (secs, nanos)
        }
    } else {
        (secs + minutes * 60, nanos)
    }
}

/// Whether instant `a` comes before instant `b` (seconds, then nanoseconds).
pub open spec fn earlier(a: (int, int), b: (int, int)) -> bool {
    a.0 < b.0 || (a.0 == b.0 && a.1 < b.1)
}

/// `t + TimeDelta::minutes(minutes)`, or `None` where the instant leaves
/// chrono's range (where chrono panics).
pub fn minutes_after_checked(t: UtcTime, minutes: i64) -> (r: Option<UtcTime>)
    requires
        in_range(t.secs as int),
        t.nanos < 2_000_000_000,
    ensures
        match r {
            Some(d) => {
                &&& (d.secs as int, d.nanos as int) == minutes_after(t.secs as int, t.nanos as int, minutes as int)
                &&& in_range(d.secs as int)
            },
            None => !in_range(minutes_after(t.secs as int, t.nanos as int, minutes as int).0),
        },
{
    if minutes < -300_000_000_000 || minutes > 300_000_000_000 {
        return None;
    }
    let shift: i64 = minutes * 60;
    let (secs, nanos): (i64, u32) = if t.nanos >= 1_000_000_000 {
        if minutes > 0 {
            (t.secs + shift, t.nanos - 1_000_000_000)
        } else if minutes < 0 {
            (t.secs + 1 + shift, t.nanos - 1_000_000_000)
        } else {
            (t.secs, t.nanos)
        }
    } else {
        (t.secs + shift, t.nanos)
    };
    if secs < -8_334_601_315_200 || secs > 8_210_266_876_799 {
        None
    } else {
        Some(UtcTime { secs, nanos })
    }
}

/// Whether `a` comes before `b`, as chrono orders instants.
pub fn is_earlier(a: UtcTime, b: UtcTime) -> (r: bool)
    ensures
        r == earlier((a.secs as int, a.nanos as int), (b.secs as int, b.nanos as int)),
{
    a.secs < b.secs || (a.secs == b.secs && a.nanos < b.nanos)
}

/// The RFC 3339 text of the instant `days` days before `now`
/// (`now - TimeDelta::days(days)`), from which stored events are kept.
pub fn retention_cutoff(now: UtcTime, days: i64) -> (r: String)
    requires
        now.valid(),
        representable(now.secs - days * 86_400, now.nanos as int),
    ensures
        r@ == rfc3339_text(now.secs - days * 86_400, now.nanos as int),
{
    format_rfc3339(UtcTime { secs: now.secs - days * 86_400, nanos: now.nanos })
}

/// Whether `retention_cutoff` can be taken for these values.
pub fn retention_cutoff_is_possible(now: UtcTime, days: i64) -> (r: bool)
    ensures
        r == (now.valid() && representable(now.secs - days * 86_400, now.nanos as int)),
{
    if !(-8_334_601_315_200i64 <= now.secs && now.secs <= 8_210_266_876_799i64 && now.nanos < 1_000_000_000) {
        return false;
    }
    if days < -1_000_000_000 || days > 1_000_000_000 {
        return false;
    }
    let earlier: i64 = now.secs - days * 86_400;
    -8_334_601_315_200i64 <= earlier && earlier <= 8_210_266_876_799i64
}

} // verus!
