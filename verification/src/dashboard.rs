//! What the dashboard shows: endpoints, fingerprints, their latest event,
//! the summary counters and the CSV export.

use vstd::prelude::*;
use crate::json::JsonValue;
use crate::error::AppError;
use crate::text::{i64_text, int_text, join_with, push_char, same_text};
use crate::time::{earlier, in_range, is_earlier, minutes_after, minutes_after_checked, parse_rfc3339, rfc3339_instant, UtcTime};

verus! {

/// An endpoint as listed on the dashboard.
pub struct EndpointView {
    pub id: i64,
    pub slug: String,
    pub name: String,
    pub signature_required: bool,
    pub created_at: String,
}

/// A fingerprint as listed on the dashboard.
pub struct FingerprintView {
    pub fingerprint: String,
    pub endpoint_id: i64,
    pub endpoint_name: String,
    pub event_type: String,
    pub first_seen: String,
    pub last_seen: String,
    pub total_count: i64,
    pub pending_count: i64,
    pub severity: String,
    pub target_minutes: i64,
    pub acknowledged_at: Option<String>,
    pub overdue: bool,
}

/// The latest event of a fingerprint.
pub struct FingerprintDetail {
    pub fingerprint: String,
    pub event_type: String,
    pub payload: JsonValue,
    pub received_at: String,
    pub signature_valid: bool,
}

/// The dashboard counters.
#[derive(Clone, Copy, Debug, PartialEq, Eq, Structural)]
pub struct Summary {
    pub endpoints: i64,
    pub fingerprints: i64,
    pub events_today: i64,
    pub pending: i64,
    pub compressed: i64,
    pub high_unacknowledged: i64,
}

/// Events folded into existing fingerprints: observations beyond the first
/// of each fingerprint, never negative.
pub open spec fn compressed_count(total: int, fingerprints: int) -> int {
    if total - fingerprints > 0 { total - fingerprints } else { 0 }
}

/// Builds the summary from the stored counts.
pub fn summary_from_counts(
    endpoints: i64,
    fingerprints: i64,
    events_today: i64,
    pending: i64,
    total: i64,
    high_unacknowledged: i64,
) -> (r: Summary)
    requires
        i64::MIN <= total - fingerprints <= i64::MAX,
    ensures
        r == (Summary {
            endpoints,
            fingerprints,
            events_today,
            pending,
            compressed: compressed_count(total as int, fingerprints as int) as i64,
            high_unacknowledged,
        }),
{
    let diff = total - fingerprints;
    Summary {
        endpoints,
        fingerprints,
        events_today,
        pending,
        compressed: if diff > 0 { diff } else { 0 },
        high_unacknowledged,
    }
}

// ---------------------------------------------------------------- CSV

/// One exported fingerprint.
pub struct CsvRow {
    pub alias: String,
    pub fingerprint: String,
    pub event_type: String,
    pub severity: String,
    pub total_count: i64,
    pub pending_count: i64,
    pub first_seen: String,
    pub last_seen: String,
    pub acknowledged_at: Option<String>,
}

pub open spec fn csv_header() -> Seq<char> {
    "alias,fingerprint,event_type,severity,total_count,pending_count,first_seen,last_seen,acknowledged_at\n"@
}

/// `s` with every double quote doubled.
pub open spec fn doubled_quotes(s: Seq<char>) -> Seq<char>
    decreases s.len(),
{
    if s.len() == 0 {
        seq![]
    } else {
        doubled_quotes(s.drop_last()) + (if s.last() == '"' { seq!['"', '"'] } else { seq![s.last()] })
    }
}

/// A CSV cell: the text in double quotes, inner quotes doubled.
pub open spec fn csv_cell(s: Seq<char>) -> Seq<char> {
    seq!['"'] + doubled_quotes(s) + seq!['"']
}

pub open spec fn csv_cells(r: CsvRow) -> Seq<Seq<char>> {
    seq![
        r.alias@,
        r.fingerprint@,
        r.event_type@,
        r.severity@,
        int_text(r.total_count as int),
        int_text(r.pending_count as int),
        r.first_seen@,
        r.last_seen@,
        match r.acknowledged_at { Some(a) => a@, None => Seq::<char>::empty() },
    ]
}

/// One CSV line: the quoted cells separated by commas, then a newline.
pub open spec fn csv_line(r: CsvRow) -> Seq<char> {
    join_with(csv_cells(r).map_values(|c: Seq<char>| csv_cell(c)), ',') + seq!['\n']
}

pub open spec fn csv_body(rows: Seq<CsvRow>) -> Seq<char>
    decreases rows.len(),
{
    if rows.len() == 0 {
        seq![]
    } else {
        csv_body(rows.drop_last()) + csv_line(rows.last())
    }
}

/// The exported file: the header line, then one line per fingerprint.
pub open spec fn csv_text(rows: Seq<CsvRow>) -> Seq<char> {
    csv_header() + csv_body(rows)
}

fn push_cell(out: &mut String, s: &str)
    ensures
        final(out)@ == old(out)@ + csv_cell(s@),
{
    let v = crate::text::chars_of(s);
    push_char(out, '"');
    let ghost start = out@;
    let mut i: usize = 0;
    while i < v.len()
        invariant
            i <= v@.len(),
            out@ == start + doubled_quotes(v@.subrange(0, i as int)),
        decreases v.len() - i,
    {
        assert(v@.subrange(0, i as int + 1).drop_last() =~= v@.subrange(0, i as int));
        if v[i] == '"' {
            push_char(out, '"');
            push_char(out, '"');
        } else {
            push_char(out, v[i]);
        }
        i = i + 1;
    }
    assert(v@.subrange(0, v@.len() as int) =~= v@);
    push_char(out, '"');
    assert(final(out)@ =~= old(out)@ + csv_cell(s@));
}

fn push_cells(out: &mut String, cells: &Vec<String>)
    ensures
        final(out)@ == old(out)@ + join_with(
            cells@.map_values(|c: String| csv_cell(c@)),
            ',',
        ),
{
    let ghost quoted = cells@.map_values(|c: String| csv_cell(c@));
    let ghost start = out@;
    let mut i: usize = 0;
    while i < cells.len()
        invariant
            i <= cells@.len(),
            quoted == cells@.map_values(|c: String| csv_cell(c@)),
            out@ == start + join_with(quoted.take(i as int), ','),
        decreases cells.len() - i,
    {
        if i > 0 {
            push_char(out, ',');
        }
        push_cell(out, cells[i].as_str());
        assert(quoted.take(i as int + 1).drop_last() =~= quoted.take(i as int));
        i = i + 1;
    }
    assert(quoted.take(cells@.len() as int) =~= quoted);
}

fn push_line(out: &mut String, r: &CsvRow)
    ensures
        final(out)@ == old(out)@ + csv_line(*r),
{
    let mut cells: Vec<String> = Vec::new();
    cells.push(r.alias.clone());
    cells.push(r.fingerprint.clone());
    cells.push(r.event_type.clone());
    cells.push(r.severity.clone());
    cells.push(i64_text(r.total_count));
    cells.push(i64_text(r.pending_count));
    cells.push(r.first_seen.clone());
    cells.push(r.last_seen.clone());
    cells.push(match &r.acknowledged_at {
        Some(a) => a.clone(),
        None => String::new(),
    });
    assert(cells@.map_values(|c: String| csv_cell(c@)) =~= csv_cells(*r).map_values(|c: Seq<char>| csv_cell(c)));
    push_cells(out, &cells);
    push_char(out, '\n');
}

/// Writes the CSV export of the given fingerprints.
pub fn export_csv(rows: &Vec<CsvRow>) -> (r: String)
    ensures
        r@ == csv_text(rows@),
{
    let mut out = "alias,fingerprint,event_type,severity,total_count,pending_count,first_seen,last_seen,acknowledged_at\n".to_owned();
    let ghost start = out@;
    let mut i: usize = 0;
    while i < rows.len()
        invariant
            i <= rows@.len(),
            out@ == start + csv_body(rows@.take(i as int)),
        decreases rows.len() - i,
    {
        assert(rows@.take(i as int + 1).drop_last() =~= rows@.take(i as int));
        push_line(&mut out, &rows[i]);
        i = i + 1;
    }
    assert(rows@.take(rows@.len() as int) =~= rows@);
    out
}


/// The export row of a listed fingerprint.
pub open spec fn csv_row_of(f: FingerprintView) -> CsvRow {
    CsvRow {
        alias: f.endpoint_name,
        fingerprint: f.fingerprint,
        event_type: f.event_type,
        severity: f.severity,
        total_count: f.total_count,
        pending_count: f.pending_count,
        first_seen: f.first_seen,
        last_seen: f.last_seen,
        acknowledged_at: f.acknowledged_at,
    }
}

/// Writes the CSV export of listed fingerprints, as a demo workspace holds
/// them.
pub fn export_fingerprints_csv(fingerprints: &Vec<FingerprintView>) -> (r: String)
    ensures
        r@ == csv_text(fingerprints@.map_values(|f: FingerprintView| csv_row_of(f))),
{
    let ghost rows = fingerprints@.map_values(|f: FingerprintView| csv_row_of(f));
    let mut out = "alias,fingerprint,event_type,severity,total_count,pending_count,first_seen,last_seen,acknowledged_at\n".to_owned();
    let ghost start = out@;
    let mut i: usize = 0;
    while i < fingerprints.len()
        invariant
            i <= fingerprints@.len(),
            rows == fingerprints@.map_values(|f: FingerprintView| csv_row_of(f)),
            out@ == start + csv_body(rows.take(i as int)),
        decreases fingerprints.len() - i,
    {
        assert(rows.take(i as int + 1).drop_last() =~= rows.take(i as int));
        let f = &fingerprints[i];
        let row = CsvRow {
            alias: f.endpoint_name.clone(),
            fingerprint: f.fingerprint.clone(),
            event_type: f.event_type.clone(),
            severity: f.severity.clone(),
            total_count: f.total_count,
            pending_count: f.pending_count,
            first_seen: f.first_seen.clone(),
            last_seen: f.last_seen.clone(),
            acknowledged_at: match &f.acknowledged_at {
                Some(a) => Some(a.clone()),
                None => None,
            },
        };
        assert(csv_cells(row) =~= csv_cells(rows[i as int]));
        push_line(&mut out, &row);
        i = i + 1;
    }
    assert(rows.take(rows.len() as int) =~= rows);
    out
}

// ---------------------------------------------------------------- triage

/// The severities a fingerprint can be given.
pub open spec fn severity_known(s: Seq<char>) -> bool {
    s == "normal"@ || s == "high"@ || s == "ignored"@
}

/// The first reason a triage change is refused, if any.
pub open spec fn triage_refusal(severity: Seq<char>, target_minutes: int) -> Option<Seq<char>> {
    if !severity_known(severity) {
        Some("Severity must be normal, high, or ignored."@)
    } else if !(1 <= target_minutes <= 1440) {
        Some("Target must be between 1 and 1,440 minutes."@)
    } else {
        None
    }
}

/// Checks a severity and acknowledgement target before they are applied.
pub fn validate_triage(severity: &str, target_minutes: i64) -> (r: Result<(), AppError>)
    ensures
        match triage_refusal(severity@, target_minutes as int) {
            Some(reason) => r matches Err(e) && (e matches AppError::Invalid(m) && m@ == reason),
            None => r is Ok,
        },
{
    if !(same_text(severity, "normal") || same_text(severity, "high") || same_text(severity, "ignored")) {
        return Err(AppError::Invalid("Severity must be normal, high, or ignored.".to_owned()));
    }
    if !(1 <= target_minutes && target_minutes <= 1440) {
        return Err(AppError::Invalid("Target must be between 1 and 1,440 minutes.".to_owned()));
    }
    Ok(())
}

/// Whether a fingerprint is overdue: high severity, unacknowledged, and its
/// acknowledgement target (that many minutes after it was last seen) comes
/// before `now`. An unreadable `last_seen` is never overdue; `None` where the
/// target instant is beyond chrono's range.
pub open spec fn overdue_outcome(severity: Seq<char>, acknowledged: bool, last_seen: Seq<char>, target_minutes: int, now: UtcTime) -> Option<bool> {
    if severity != "high"@ || acknowledged {
        Some(false)
    } else {
        match rfc3339_instant(last_seen) {
            None => Some(false),
            Some(seen) => {
                let deadline = minutes_after(seen.0 as int, seen.1 as int, target_minutes);
                if in_range(deadline.0) {
                    Some(earlier(deadline, (now.secs as int, now.nanos as int)))
                } else {
                    None
                }
            },
        }
    }
}

pub fn fingerprint_overdue(severity: &str, acknowledged: bool, last_seen: &str, target_minutes: i64, now: UtcTime) -> (r: Option<bool>)
    ensures
        r == overdue_outcome(severity@, acknowledged, last_seen@, target_minutes as int, now),
{
    if !same_text(severity, "high") || acknowledged {
        return Some(false);
    }
    let seen = match parse_rfc3339(last_seen) {
        None => return Some(false),
        Some(t) => t,
    };
    match minutes_after_checked(seen, target_minutes) {
        None => None,
        Some(deadline) => Some(is_earlier(deadline, now)),
    }
}

} // verus!
