//! Notification settings: the quiet window and its clock-time syntax, the
//! digest cadence, retention, and the destinations for notices.

use vstd::prelude::*;
use vstd::utf8::encode_utf8;
use crate::crypto::PayloadCipher;
use crate::error::AppError;
use crate::text::{chars_of, concat2, has_prefix, push_char, starts_with, string_from, trim, trim_str};
use crate::time::{chrono_max_secs, chrono_min_secs, local_minute_of_day, representable, shift_minutes, UtcTime};

verus! {

// ---------------------------------------------------------------- numbers

pub open spec fn digit_value(c: char) -> int {
    c as int - 48
}

/// The value of a string of decimal digits.
pub open spec fn digits_value(d: Seq<char>) -> int
    decreases d.len(),
{
    if d.len() == 0 {
        0
    } else {
        digits_value(d.drop_last()) * 10 + digit_value(d.last())
    }
}

/// What `str::parse::<u32>` gives: an optional `+`, then one or more
/// decimal digits whose value fits in 32 bits.
pub open spec fn all_digits(d: Seq<char>) -> bool {
    forall|i: int| 0 <= i < d.len() ==> crate::text::is_ascii_digit(#[trigger] d[i])
}

pub open spec fn unsigned_digits(s: Seq<char>) -> Seq<char> {
    if s.len() > 0 && s[0] == '+' { s.drop_first() } else { s }
}

pub open spec fn parse_u32(s: Seq<char>) -> Option<u32> {
    let d = unsigned_digits(s);
    if d.len() == 0 || !all_digits(d) {
        None
    } else if digits_value(d) > u32::MAX {
        None
    } else {
        Some(digits_value(d) as u32)
    }
}

proof fn lemma_digits_value_nonneg(d: Seq<char>)
    requires forall|i: int| 0 <= i < d.len() ==> crate::text::is_ascii_digit(#[trigger] d[i]),
    ensures digits_value(d) >= 0,
    decreases d.len(),
{
    if d.len() > 0 {
        lemma_digits_value_nonneg(d.drop_last());
    }
}

proof fn lemma_digits_value_grows(d: Seq<char>, n: int)
    requires
        0 <= n <= d.len(),
        forall|i: int| 0 <= i < d.len() ==> crate::text::is_ascii_digit(#[trigger] d[i]),
    ensures
        digits_value(d.subrange(0, n)) <= digits_value(d),
    decreases d.len() - n,
{
    if n < d.len() {
        lemma_digits_value_grows(d, n + 1);
        assert(d.subrange(0, n + 1).drop_last() =~= d.subrange(0, n));
        lemma_digits_value_nonneg(d.subrange(0, n));
    } else {
        assert(d.subrange(0, n) =~= d);
    }
}

/// Parses an unsigned 32-bit decimal number as `str::parse::<u32>` does.
pub fn parse_u32_text(s: &[char]) -> (r: Option<u32>)
    ensures
        r == parse_u32(s@),
{
    let start: usize = if s.len() > 0 && s[0] == '+' { 1 } else { 0 };
    let ghost d = unsigned_digits(s@);
    assert(d =~= s@.subrange(start as int, s@.len() as int));
    if start == s.len() {
        return None;
    }
    let mut value: u64 = 0;
    let mut i: usize = start;
    while i < s.len()
        invariant
            start <= i <= s@.len(),
            d == s@.subrange(start as int, s@.len() as int),
            d == unsigned_digits(s@),
            forall|k: int| 0 <= k < i - start ==> crate::text::is_ascii_digit(#[trigger] d[k]),
            value == digits_value(d.subrange(0, i - start)),
            value <= u32::MAX,
        decreases s.len() - i,
    {
        let c = s[i];
        if !('0' <= c && c <= '9') {
            assert(!crate::text::is_ascii_digit(d[i - start]));
            assert(!all_digits(d));
            return None;
        }
        assert(d.subrange(0, i - start + 1).drop_last() =~= d.subrange(0, i - start));
        assert(d.subrange(0, i - start + 1).last() == c);
        let digit: u64 = (c as u32 - 48) as u64;
        let next = value * 10 + digit;
        i = i + 1;
        if next > 0xFFFF_FFFF {
            proof {
                if all_digits(d) {
                    lemma_digits_value_grows(d, i - start);
                }
            }
            return None;
        }
        value = next;
    }
    assert(d.subrange(0, d.len() as int) =~= d);
    Some(value as u32)
}

// ---------------------------------------------------------------- splitting

/// The pieces of `s` between colons (`split(':')`); always at least one.
pub open spec fn colon_pieces(s: Seq<char>) -> Seq<Seq<char>>
    decreases s.len(),
{
    if s.len() == 0 {
        seq![seq![]]
    } else {
        let p = colon_pieces(s.drop_last());
        if s.last() == ':' {
            p.push(seq![])
        } else {
            p.update(p.len() - 1, p.last().push(s.last()))
        }
    }
}

fn split_colons(s: &str) -> (r: Vec<Vec<char>>)
    ensures
        r@.map_values(|v: Vec<char>| v@) == colon_pieces(s@),
{
    let v = chars_of(s);
    let mut pieces: Vec<Vec<char>> = Vec::new();
    pieces.push(Vec::new());
    let mut i: usize = 0;
    assert(pieces@.map_values(|v: Vec<char>| v@) =~= colon_pieces(v@.subrange(0, 0)));
    while i < v.len()
        invariant
            i <= v@.len(),
            pieces@.len() >= 1,
            pieces@.map_values(|v: Vec<char>| v@) == colon_pieces(v@.subrange(0, i as int)),
        decreases v.len() - i,
    {
        assert(v@.subrange(0, i as int + 1).drop_last() =~= v@.subrange(0, i as int));
        let c = v[i];
        if c == ':' {
            pieces.push(Vec::new());
        } else {
            let last = pieces.len() - 1;
            let mut piece = pieces.remove(last);
            piece.push(c);
            pieces.push(piece);
        }
        assert(pieces@.map_values(|v: Vec<char>| v@) =~= colon_pieces(v@.subrange(0, i as int + 1)));
        i = i + 1;
    }
    assert(v@.subrange(0, v@.len() as int) =~= v@);
    pieces
}

// ---------------------------------------------------------------- clock times

/// A quiet-hours bound is `HH:MM`: exactly two colon-separated numbers, the
/// hour at most 23 and the minute at most 59.
pub open spec fn clock_time_valid(t: Seq<char>) -> bool {
    let p = colon_pieces(t);
    &&& forall|i: int| 0 <= i < p.len() ==> parse_u32(#[trigger] p[i]) is Some
    &&& p.len() == 2
    &&& parse_u32(p[0])->0 <= 23
    &&& parse_u32(p[1])->0 <= 59
}

pub open spec fn is_invalid(e: AppError, text: Seq<char>) -> bool {
    e matches AppError::Invalid(m) && m@ == text
}

/// Checks a quiet-hours bound.
pub fn validate_time(t: &str) -> (r: Result<(), AppError>)
    ensures
        match r {
            Ok(()) => clock_time_valid(t@),
            Err(e) => !clock_time_valid(t@) && is_invalid(e, "Quiet hours must use HH:MM."@),
        },
{
    let pieces = split_colons(t);
    let ghost p = pieces@.map_values(|v: Vec<char>| v@);
    let mut values: Vec<u32> = Vec::new();
    let mut i: usize = 0;
    while i < pieces.len()
        invariant
            i <= pieces@.len(),
            p == pieces@.map_values(|v: Vec<char>| v@),
            p == colon_pieces(t@),
            values@.len() == i,
            forall|k: int| 0 <= k < i ==> parse_u32(#[trigger] p[k]) == Some(values@[k]),
        decreases pieces.len() - i,
    {
        match parse_u32_text(pieces[i].as_slice()) {
            Some(n) => values.push(n),
            None => {
                assert(parse_u32(p[i as int]) is None);
                return Err(AppError::Invalid("Quiet hours must use HH:MM.".to_owned()));
            },
        }
        i = i + 1;
    }
    if values.len() != 2 || values[0] > 23 || values[1] > 59 {
        return Err(AppError::Invalid("Quiet hours must use HH:MM.".to_owned()));
    }
    assert(parse_u32(p[0]) == Some(values@[0]));
    assert(parse_u32(p[1]) == Some(values@[1]));
    Ok(())
}

/// The numbers among the colon-separated pieces, in order
/// (`filter_map(|x| x.parse::<u32>().ok())`).
pub open spec fn parsed_numbers(p: Seq<Seq<char>>) -> Seq<u32>
    decreases p.len(),
{
    if p.len() == 0 {
        seq![]
    } else {
        let rest = parsed_numbers(p.drop_last());
        match parse_u32(p.last()) {
            Some(n) => rest.push(n),
            None => rest,
        }
    }
}

/// Minutes past midnight for a quiet-hours bound: the first number found
/// times 60 plus the second, a missing number counting as 0.
pub open spec fn clock_minutes(t: Seq<char>) -> int {
    let n = parsed_numbers(colon_pieces(t));
    (if n.len() > 0 { n[0] as int } else { 0 }) * 60 + (if n.len() > 1 { n[1] as int } else { 0 })
}

fn clock_minutes_of(t: &str) -> (r: u64)
    ensures
        r == clock_minutes(t@),
{
    let pieces = split_colons(t);
    let ghost p = pieces@.map_values(|v: Vec<char>| v@);
    let mut numbers: Vec<u32> = Vec::new();
    let mut i: usize = 0;
    while i < pieces.len()
        invariant
            i <= pieces@.len(),
            p == pieces@.map_values(|v: Vec<char>| v@),
            numbers@ == parsed_numbers(p.subrange(0, i as int)),
        decreases pieces.len() - i,
    {
        assert(p.subrange(0, i as int + 1).drop_last() =~= p.subrange(0, i as int));
        match parse_u32_text(pieces[i].as_slice()) {
            Some(n) => numbers.push(n),
            None => {},
        }
        i = i + 1;
    }
    assert(p.subrange(0, p.len() as int) =~= p);
    let h: u64 = if numbers.len() > 0 { numbers[0] as u64 } else { 0 };
    let m: u64 = if numbers.len() > 1 { numbers[1] as u64 } else { 0 };
    h * 60 + m
}

// ---------------------------------------------------------------- settings

/// The notification settings as the dashboard shows them.
pub struct SettingsView {
    pub quiet_start: String,
    pub quiet_end: String,
    pub utc_offset_minutes: i64,
    pub digest_minutes: i64,
    pub retention_days: i64,
    pub notification_configured: bool,
    pub notification_url: String,
    pub escalation_url: String,
    pub last_delivery_error: Option<String>,
}

/// Whether `now` falls in the quiet window. A window whose bounds are equal
/// is empty; one whose start is after its end runs overnight.
pub open spec fn quiet_at(start: int, end: int, minute: int) -> bool {
    if start == end {
        false
    } else if start < end {
        start <= minute && minute < end
    } else {
        minute >= start || minute < end
    }
}

/// Whether the quiet-window test can be made for these settings at `now`:
/// the shifted instant stays in chrono's range and both bounds' minute
/// counts fit in 32 bits.
pub open spec fn quiet_check_possible(s: SettingsView, now: UtcTime) -> bool {
    &&& now.valid()
    &&& representable(now.secs + s.utc_offset_minutes * 60, now.nanos as int)
    &&& clock_minutes(s.quiet_start@) <= u32::MAX
    &&& clock_minutes(s.quiet_end@) <= u32::MAX
}

pub fn quiet_check_is_possible(s: &SettingsView, now: UtcTime) -> (r: bool)
    ensures
        r == quiet_check_possible(*s, now),
{
    if !(-8_334_601_315_200i64 <= now.secs && now.secs <= 8_210_266_876_799i64 && now.nanos < 1_000_000_000) {
        return false;
    }
    if s.utc_offset_minutes < -300_000_000_000_000 || s.utc_offset_minutes > 300_000_000_000_000 {
        return false;
    }
    let local: i64 = now.secs + s.utc_offset_minutes * 60;
    if !(-8_334_601_315_200i64 <= local && local <= 8_210_266_876_799i64) {
        return false;
    }
    clock_minutes_of(s.quiet_start.as_str()) <= 0xFFFF_FFFF && clock_minutes_of(s.quiet_end.as_str()) <= 0xFFFF_FFFF
}

/// Whether `now` falls inside the quiet window of `s`.
pub fn is_quiet(s: &SettingsView, now: UtcTime) -> (r: bool)
    requires
        quiet_check_possible(*s, now),
    ensures
        r == quiet_at(
            clock_minutes(s.quiet_start@),
            clock_minutes(s.quiet_end@),
            local_minute_of_day(now, s.utc_offset_minutes as int),
        ),
{
    let local: i64 = now.secs + s.utc_offset_minutes * 60;
    let day: i64 = 86_400;
    let in_day: i64 = local % day;
    let in_day: i64 = if in_day < 0 { in_day + day } else { in_day };
    assert(in_day == (now.secs + s.utc_offset_minutes * 60) % 86_400);
    let mins: u64 = (in_day / 60) as u64;
    let start: u64 = clock_minutes_of(s.quiet_start.as_str());
    let end: u64 = clock_minutes_of(s.quiet_end.as_str());
    if start == end {
        false
    } else if start < end {
        mins >= start && mins < end
    } else {
        mins >= start || mins < end
    }
}



/// The quiet window repeats every day: for any settings, an instant and the
/// instant a day later are both inside the window or both outside it.
pub proof fn law_quiet_window_repeats_daily(s: SettingsView, now: UtcTime)
    requires
        now.valid(),
        shift_minutes(now, 1440).valid(),
    ensures
        local_minute_of_day(shift_minutes(now, 1440), s.utc_offset_minutes as int)
            == local_minute_of_day(now, s.utc_offset_minutes as int),
        quiet_at(
            clock_minutes(s.quiet_start@),
            clock_minutes(s.quiet_end@),
            local_minute_of_day(shift_minutes(now, 1440), s.utc_offset_minutes as int),
        ) == quiet_at(
            clock_minutes(s.quiet_start@),
            clock_minutes(s.quiet_end@),
            local_minute_of_day(now, s.utc_offset_minutes as int),
        ),
{
    let x = now.secs + s.utc_offset_minutes * 60;
    assert(shift_minutes(now, 1440).secs == now.secs + 86_400);
    vstd::arithmetic::div_mod::lemma_mod_add_multiples_vanish(x, 86_400);
    assert(86_400 + x == shift_minutes(now, 1440).secs + s.utc_offset_minutes * 60);
}

// ---------------------------------------------------------------- updates

/// The settings a dashboard user submits.
pub struct SettingsUpdate {
    pub quiet_start: String,
    pub quiet_end: String,
    pub utc_offset_minutes: i64,
    pub digest_minutes: i64,
    pub retention_days: i64,
    pub notification_url: String,
    pub escalation_url: String,
}

/// The settings to store after an accepted update.
pub struct SettingsChange {
    pub quiet_start: String,
    pub quiet_end: String,
    pub utc_offset_minutes: i64,
    pub digest_minutes: i64,
    pub retention_days: i64,
    pub notification_url_encrypted: Option<Vec<u8>>,
    pub escalation_url: Option<String>,
}

/// A destination URL is empty, HTTPS, or on localhost.
pub open spec fn url_allowed(u: Seq<char>) -> bool {
    u.len() == 0 || starts_with(u, "https://"@) || starts_with(u, "http://localhost"@)
}

/// The first reason an update is refused, if any.
pub open spec fn update_refusal(i: SettingsUpdate) -> Option<Seq<char>> {
    if !clock_time_valid(i.quiet_start@) || !clock_time_valid(i.quiet_end@) {
        Some("Quiet hours must use HH:MM."@)
    } else if !(-720 <= i.utc_offset_minutes <= 840) {
        Some("UTC offset is out of range."@)
    } else if !(5 <= i.digest_minutes <= 1440) {
        Some("Digest interval must be 5–1,440 minutes."@)
    } else if !(1 <= i.retention_days <= 365) {
        Some("Retention must be 1–365 days."@)
    } else if !url_allowed(trim(i.notification_url@)) {
        Some("Notification URL must use HTTPS (localhost is allowed for development)."@)
    } else if !url_allowed(trim(i.escalation_url@)) {
        Some("Escalation URL must use HTTPS (localhost is allowed for development)."@)
    } else {
        None
    }
}

fn url_is_allowed(u: &str) -> (r: bool)
    ensures
        r == url_allowed(u@),
{
    u.is_empty() || has_prefix(u, "https://") || has_prefix(u, "http://localhost")
}

/// The row stored for an accepted update: the schedule as submitted, the
/// trimmed notification URL sealed (none when it is empty), and the trimmed
/// escalation URL (none when it is empty).
pub open spec fn settings_saved(input: SettingsUpdate, cipher: PayloadCipher, c: SettingsChange) -> bool {
    &&& c.quiet_start == input.quiet_start
    &&& c.quiet_end == input.quiet_end
    &&& c.utc_offset_minutes == input.utc_offset_minutes
    &&& c.digest_minutes == input.digest_minutes
    &&& c.retention_days == input.retention_days
    &&& if trim(input.notification_url@).len() == 0 {
        c.notification_url_encrypted is None
    } else {
        &&& c.notification_url_encrypted matches Some(sealed)
        &&& cipher.opened(sealed@) == Some(encode_utf8(trim(input.notification_url@)))
    }
    &&& if trim(input.escalation_url@).len() == 0 {
        c.escalation_url is None
    } else {
        c.escalation_url matches Some(u) && u@ == trim(input.escalation_url@)
    }
}

/// Validates an update; the notification URL is stored sealed and an empty
/// escalation URL is stored as none.
pub fn plan_settings_update(input: SettingsUpdate, cipher: &PayloadCipher) -> (r: Result<SettingsChange, AppError>)
    ensures
        match update_refusal(input) {
            Some(reason) => r matches Err(e) && is_invalid(e, reason),
            None => match r {
                Ok(c) => settings_saved(input, *cipher, c),
                Err(e) => e == AppError::Crypto
                    && encode_utf8(trim(input.notification_url@)).len() > crate::crypto::aes_plaintext_max(),
            },
        },
{
    if validate_time(input.quiet_start.as_str()).is_err() || validate_time(input.quiet_end.as_str()).is_err() {
        return Err(AppError::Invalid("Quiet hours must use HH:MM.".to_owned()));
    }
    if !(-720 <= input.utc_offset_minutes && input.utc_offset_minutes <= 840) {
        return Err(AppError::Invalid("UTC offset is out of range.".to_owned()));
    }
    if !(5 <= input.digest_minutes && input.digest_minutes <= 1440) {
        return Err(AppError::Invalid("Digest interval must be 5–1,440 minutes.".to_owned()));
    }
    if !(1 <= input.retention_days && input.retention_days <= 365) {
        return Err(AppError::Invalid("Retention must be 1–365 days.".to_owned()));
    }
    let notification = trim_str(input.notification_url.as_str());
    if !url_is_allowed(notification.as_str()) {
        return Err(AppError::Invalid(
            "Notification URL must use HTTPS (localhost is allowed for development).".to_owned(),
        ));
    }
    let escalation = trim_str(input.escalation_url.as_str());
    if !url_is_allowed(escalation.as_str()) {
        return Err(AppError::Invalid(
            "Escalation URL must use HTTPS (localhost is allowed for development).".to_owned(),
        ));
    }
    let notification_url_encrypted = if notification.as_str().is_empty() {
        None
    } else {
        match cipher.encrypt(notification.as_str().as_bytes()) {
            Ok(c) => Some(c),
            Err(e) => return Err(e),
        }
    };
    let escalation_url = if escalation.as_str().is_empty() { None } else { Some(escalation) };
    Ok(SettingsChange {
        quiet_start: input.quiet_start,
        quiet_end: input.quiet_end,
        utc_offset_minutes: input.utc_offset_minutes,
        digest_minutes: input.digest_minutes,
        retention_days: input.retention_days,
        notification_url_encrypted,
        escalation_url,
    })
}

/// The settings row as stored.
pub struct StoredSettings {
    pub quiet_start: String,
    pub quiet_end: String,
    pub utc_offset_minutes: i64,
    pub digest_minutes: i64,
    pub retention_days: i64,
    pub notification_url_encrypted: Option<Vec<u8>>,
    pub escalation_url: Option<String>,
    pub last_delivery_error: Option<String>,
}

/// Whether the stored notification URL is sealed but does not open.
pub open spec fn url_unopenable(stored: StoredSettings, cipher: PayloadCipher) -> bool {
    match stored.notification_url_encrypted {
        Some(sealed) => cipher.opened(sealed@) is None,
        None => false,
    }
}

/// The dashboard view of a stored row: the notification URL opened and read
/// as text (empty when none is stored), configured when not empty; an absent
/// escalation URL reads as empty; the rest as stored.
pub open spec fn settings_read(stored: StoredSettings, cipher: PayloadCipher, v: SettingsView) -> bool {
    &&& match stored.notification_url_encrypted {
        Some(sealed) => {
            &&& cipher.opened(sealed@) matches Some(url)
            &&& v.notification_url@ == crate::text::utf8_lossy(url)
            &&& vstd::utf8::valid_utf8(url) ==> v.notification_url@ == vstd::utf8::decode_utf8(url)
        },
        None => v.notification_url@ == Seq::<char>::empty(),
    }
    &&& v.quiet_start == stored.quiet_start
    &&& v.quiet_end == stored.quiet_end
    &&& v.utc_offset_minutes == stored.utc_offset_minutes
    &&& v.digest_minutes == stored.digest_minutes
    &&& v.retention_days == stored.retention_days
    &&& v.notification_configured == (v.notification_url@.len() > 0)
    &&& v.escalation_url@ == (match stored.escalation_url { Some(u) => u@, None => Seq::<char>::empty() })
    &&& v.last_delivery_error == stored.last_delivery_error
}

/// The row that an accepted update leaves in the store: its change, with no
/// delivery error recorded.
pub open spec fn stored_row(c: SettingsChange) -> StoredSettings {
    StoredSettings {
        quiet_start: c.quiet_start,
        quiet_end: c.quiet_end,
        utc_offset_minutes: c.utc_offset_minutes,
        digest_minutes: c.digest_minutes,
        retention_days: c.retention_days,
        notification_url_encrypted: c.notification_url_encrypted,
        escalation_url: c.escalation_url,
        last_delivery_error: None,
    }
}

/// The dashboard view of stored settings: the notification URL is opened
/// and read as text, and counts as configured when it is not empty.
pub fn settings_view(stored: StoredSettings, cipher: &PayloadCipher) -> (r: Result<SettingsView, AppError>)
    ensures
        url_unopenable(stored, *cipher) ==> r == Err::<SettingsView, AppError>(AppError::Crypto),
        !url_unopenable(stored, *cipher) ==> (r matches Ok(v) && settings_read(stored, *cipher, v)),
{
    let notification_url = match &stored.notification_url_encrypted {
        Some(sealed) => match cipher.decrypt(sealed.as_slice()) {
            Ok(plain) => crate::text::lossy_text(plain.as_slice()),
            Err(e) => return Err(e),
        },
        None => String::new(),
    };
    let escalation_url = match stored.escalation_url {
        Some(u) => u,
        None => String::new(),
    };
    Ok(SettingsView {
        quiet_start: stored.quiet_start,
        quiet_end: stored.quiet_end,
        utc_offset_minutes: stored.utc_offset_minutes,
        digest_minutes: stored.digest_minutes,
        retention_days: stored.retention_days,
        notification_configured: !notification_url.as_str().is_empty(),
        notification_url,
        escalation_url,
        last_delivery_error: stored.last_delivery_error,
    })
}

/// Settings read back after an accepted update hold what was submitted: the
/// schedule as given, the trimmed notification URL (kept only sealed) and
/// whether one is configured, the trimmed escalation URL, and no delivery
/// error.
pub proof fn law_saved_settings_read_back(
    input: SettingsUpdate,
    cipher: PayloadCipher,
    change: SettingsChange,
    view: SettingsView,
)
    requires
        settings_saved(input, cipher, change),
        settings_read(stored_row(change), cipher, view),
    ensures
        view.quiet_start == input.quiet_start,
        view.quiet_end == input.quiet_end,
        view.utc_offset_minutes == input.utc_offset_minutes,
        view.digest_minutes == input.digest_minutes,
        view.retention_days == input.retention_days,
        view.notification_url@ == trim(input.notification_url@),
        view.notification_configured == (trim(input.notification_url@).len() > 0),
        view.escalation_url@ == trim(input.escalation_url@),
        view.last_delivery_error is None,
{
    let url = trim(input.notification_url@);
    if url.len() > 0 {
        vstd::utf8::encode_utf8_valid_utf8(url);
        vstd::utf8::encode_utf8_decode_utf8(url);
    }
}

/// An update whose quiet hours, digest interval, retention and URLs are
/// valid is accepted exactly when its UTC offset lies between -720 and 840
/// minutes, and otherwise refused for its offset.
pub proof fn law_utc_offset_range(input: SettingsUpdate)
    requires
        clock_time_valid(input.quiet_start@),
        clock_time_valid(input.quiet_end@),
        5 <= input.digest_minutes <= 1440,
        1 <= input.retention_days <= 365,
        url_allowed(trim(input.notification_url@)),
        url_allowed(trim(input.escalation_url@)),
    ensures
        update_refusal(input) is None <==> -720 <= input.utc_offset_minutes <= 840,
        !(-720 <= input.utc_offset_minutes <= 840) ==> update_refusal(input) == Some("UTC offset is out of range."@),
{
}

} // verus!
