//! What the notifier sends: the digest of pending normal fingerprints and
//! the immediate notice for a high-severity fingerprint.

use vstd::prelude::*;
use crate::settings::{is_quiet, quiet_at, quiet_check_is_possible, quiet_check_possible, clock_minutes, SettingsView};
use crate::text::{concat2, i64_text, int_text, join_with, push_char, u64_text, nat_digits};
use crate::time::{add_minutes, format_rfc3339, local_minute_of_day, representable, rfc3339_text, shift_minutes, UtcTime};

verus! {

/// A fingerprint waiting for the digest.
pub struct DigestRow {
    pub fingerprint: String,
    pub event_type: String,
    pub pending_count: i64,
}

/// Whether a digest run goes on, and from which instant a fingerprint counts
/// as due.
pub enum DigestStep {
    /// Nothing is sent: no destination is configured, or it is quiet time
    /// and the run was not forced.
    Skip,
    /// Look for due fingerprints: the cutoff is the RFC 3339 time one digest
    /// interval before now.
    Collect { cutoff: String },
}

/// Whether a digest run can decide at `now`: the quiet-window test can be
/// made where it is needed, and where the run goes on, the cutoff is an
/// instant chrono represents.
pub open spec fn digest_step_possible(s: SettingsView, force: bool, now: UtcTime) -> bool {
    s.notification_url@.len() > 0 ==> {
        &&& now.valid()
        &&& !force ==> quiet_check_possible(s, now)
        &&& (force || !quiet_at(
            clock_minutes(s.quiet_start@),
            clock_minutes(s.quiet_end@),
            local_minute_of_day(now, s.utc_offset_minutes as int),
        )) ==> representable(now.secs - s.digest_minutes * 60, now.nanos as int)
    }
}

/// Whether a digest run can decide at `now`, tested before `digest_step`.
pub fn digest_step_is_possible(s: &SettingsView, force: bool, now: UtcTime) -> (r: bool)
    ensures
        r == digest_step_possible(*s, force, now),
{
    if s.notification_url.as_str().is_empty() {
        return true;
    }
    if !(-8_334_601_315_200i64 <= now.secs && now.secs <= 8_210_266_876_799i64 && now.nanos < 1_000_000_000) {
        return false;
    }
    if !force {
        if !quiet_check_is_possible(s, now) {
            return false;
        }
        if is_quiet(s, now) {
            return true;
        }
    }
    if s.digest_minutes < -300_000_000_000_000 || s.digest_minutes > 300_000_000_000_000 {
        return false;
    }
    let earlier: i64 = now.secs - s.digest_minutes * 60;
    -8_334_601_315_200i64 <= earlier && earlier <= 8_210_266_876_799i64
}

/// The first decision of a digest run.
pub fn digest_step(s: &SettingsView, force: bool, now: UtcTime) -> (r: DigestStep)
    requires
        digest_step_possible(*s, force, now),
    ensures
        s.notification_url@.len() == 0 ==> r is Skip,
        s.notification_url@.len() > 0 ==> {
            let quiet = quiet_at(
                clock_minutes(s.quiet_start@),
                clock_minutes(s.quiet_end@),
                local_minute_of_day(now, s.utc_offset_minutes as int),
            );
            if !force && quiet {
                r is Skip
            } else {
                (r matches DigestStep::Collect { cutoff } && cutoff@ == rfc3339_text(
                    now.secs - s.digest_minutes * 60,
                    now.nanos as int,
                ))
            }
        },
{
    if s.notification_url.as_str().is_empty() {
        return DigestStep::Skip;
    }
    if !force && is_quiet(s, now) {
        return DigestStep::Skip;
    }
    let earlier = UtcTime { secs: now.secs - s.digest_minutes * 60, nanos: now.nanos };
    DigestStep::Collect { cutoff: format_rfc3339(earlier) }
}

/// The total of the first `k` pending counts.
pub open spec fn pending_sum(rows: Seq<DigestRow>) -> int
    decreases rows.len(),
{
    if rows.len() == 0 {
        0
    } else {
        pending_sum(rows.drop_last()) + rows.last().pending_count
    }
}

/// Every running total of the pending counts fits in an `i64`.
pub open spec fn sums_fit(rows: Seq<DigestRow>) -> bool {
    forall|k: int| 0 <= k <= rows.len() ==> i64::MIN <= #[trigger] pending_sum(rows.take(k)) <= i64::MAX
}

pub open spec fn digest_bullet(row: DigestRow) -> Seq<char> {
    "• "@ + row.event_type@ + " × "@ + int_text(row.pending_count as int)
}

/// One line per fingerprint for the first five, then a line counting the
/// rest.
pub open spec fn digest_lines(rows: Seq<DigestRow>) -> Seq<Seq<char>> {
    let shown = if rows.len() <= 5 { rows } else { rows.take(5) };
    let bullets = shown.map_values(|r: DigestRow| digest_bullet(r));
    if rows.len() > 5 {
        bullets.push("• and "@ + int_text(rows.len() - 5) + " more fingerprints"@)
    } else {
        bullets
    }
}

/// Where a notice sends its reader: the escalation URL when set, else the
/// given fallback.
pub open spec fn review_link(escalation_url: Seq<char>, fallback: Seq<char>) -> Seq<char> {
    if escalation_url.len() == 0 { fallback } else { escalation_url }
}

/// The digest message.
pub open spec fn digest_text(rows: Seq<DigestRow>, link: Seq<char>) -> Seq<char> {
    "🌿 Webhook digest · "@ + int_text(pending_sum(rows)) + " observations in "@ + int_text(rows.len() as int)
        + " fingerprints\n"@ + join_with(digest_lines(rows), '\n') + "\nReview once: "@ + link
}

fn bullet_text(row: &DigestRow) -> (r: String)
    ensures
        r@ == digest_bullet(*row),
{
    let mut s = concat2("• ", row.event_type.as_str());
    s.append(" × ");
    s.append(i64_text(row.pending_count).as_str());
    s
}

/// Writes the digest for the due fingerprints (at most twelve are fetched),
/// pointing at the escalation URL when one is set, else at the dashboard.
pub fn digest_message(rows: &Vec<DigestRow>, escalation_url: &str, public_url: &str) -> (r: String)
    requires
        rows@.len() > 0,
        sums_fit(rows@),
    ensures
        r@ == digest_text(rows@, review_link(escalation_url@, public_url@)),
{
    let mut total: i64 = 0;
    let mut i: usize = 0;
    while i < rows.len()
        invariant
            i <= rows@.len(),
            sums_fit(rows@),
            total == pending_sum(rows@.take(i as int)),
        decreases rows.len() - i,
    {
        assert(rows@.take(i as int + 1).drop_last() =~= rows@.take(i as int));
        assert(i64::MIN <= pending_sum(rows@.take(i as int + 1)) <= i64::MAX);
        total = total + rows[i].pending_count;
        i = i + 1;
    }
    assert(rows@.take(rows@.len() as int) =~= rows@);
    let ghost lines = digest_lines(rows@);
    let mut body = String::new();
    let shown: usize = if rows.len() <= 5 { rows.len() } else { 5 };
    let mut j: usize = 0;
    while j < shown
        invariant
            j <= shown <= rows@.len(),
            shown == (if rows@.len() <= 5 { rows@.len() } else { 5 }),
            lines == digest_lines(rows@),
            body@ == join_with(lines.take(j as int), '\n'),
        decreases shown - j,
    {
        if j > 0 {
            push_char(&mut body, '\n');
        }
        body.append(bullet_text(&rows[j]).as_str());
        assert(lines[j as int] == digest_bullet(rows@[j as int]));
        assert(lines.take(j as int + 1).drop_last() =~= lines.take(j as int));
        j = j + 1;
    }
    if rows.len() > 5 {
        push_char(&mut body, '\n');
        body.append("• and ");
        body.append(u64_text((rows.len() - 5) as u64).as_str());
        body.append(" more fingerprints");
        assert(lines.take(6).drop_last() =~= lines.take(5));
        assert(lines.take(6) =~= lines);
    } else {
        assert(lines.take(shown as int) =~= lines);
    }
    let mut text = concat2("🌿 Webhook digest · ", i64_text(total).as_str());
    text.append(" observations in ");
    text.append(u64_text(rows.len() as u64).as_str());
    text.append(" fingerprints\n");
    text.append(body.as_str());
    text.append("\nReview once: ");
    if escalation_url.is_empty() {
        text.append(public_url);
    } else {
        text.append(escalation_url);
    }
    text
}

/// The immediate notice for a high-severity fingerprint.
pub open spec fn high_notice_text(event_type: Seq<char>, count: int, link: Seq<char>) -> Seq<char> {
    "🔴 High-severity webhook: "@ + event_type + " · "@ + int_text(count) + " observation(s). Acknowledge: "@ + link
}

/// The dashboard link that selects one fingerprint.
pub open spec fn fingerprint_link(public_url: Seq<char>, fingerprint: Seq<char>) -> Seq<char> {
    public_url + "/?fingerprint="@ + fingerprint
}

/// Writes the notice for a high-severity fingerprint, or nothing when no
/// notification destination is configured.
pub fn high_notice(s: &SettingsView, public_url: &str, fingerprint: &str, event_type: &str, count: i64) -> (r: Option<String>)
    ensures
        s.notification_url@.len() == 0 ==> r is None,
        s.notification_url@.len() > 0 ==> (r matches Some(t) && t@ == high_notice_text(
            event_type@,
            count as int,
            review_link(s.escalation_url@, fingerprint_link(public_url@, fingerprint@)),
        )),
{
    if s.notification_url.as_str().is_empty() {
        return None;
    }
    let link = if s.escalation_url.as_str().is_empty() {
        let mut l = concat2(public_url, "/?fingerprint=");
        l.append(fingerprint);
        l
    } else {
        s.escalation_url.clone()
    };
    let mut text = concat2("🔴 High-severity webhook: ", event_type);
    text.append(" · ");
    text.append(i64_text(count).as_str());
    text.append(" observation(s). Acknowledge: ");
    text.append(link.as_str());
    Some(text)
}

} // verus!
