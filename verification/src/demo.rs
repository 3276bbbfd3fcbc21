//! Demo workspaces: seeded, private to one browser session, resettable,
//! expiring after a day, and never touching the real data.

use vstd::prelude::*;
use crate::dashboard::{compressed_count, EndpointView, FingerprintDetail, FingerprintView, Summary};
use crate::json::{JsonEntry, JsonValue};
use crate::settings::SettingsView;
use crate::text::same_text;
use crate::error::AppError;
use crate::settings::{clock_time_valid, is_invalid, validate_time, SettingsUpdate};
use crate::time::{format_rfc3339, representable, rfc3339_text, UtcTime};

verus! {

/// One demo workspace.
pub struct DemoWorkspace {
    pub created_at: UtcTime,
    pub endpoints: Vec<EndpointView>,
    pub fingerprints: Vec<FingerprintView>,
    pub details: Vec<FingerprintDetail>,
    pub settings: SettingsView,
}

// ---------------------------------------------------------------- counters

pub open spec fn total_sum(f: Seq<FingerprintView>) -> int
    decreases f.len(),
{
    if f.len() == 0 { 0 } else { total_sum(f.drop_last()) + f.last().total_count }
}

pub open spec fn pending_sum(f: Seq<FingerprintView>) -> int
    decreases f.len(),
{
    if f.len() == 0 { 0 } else { pending_sum(f.drop_last()) + f.last().pending_count }
}

/// Pending observations of fingerprints that are not record-only.
pub open spec fn active_pending(f: Seq<FingerprintView>) -> int
    decreases f.len(),
{
    if f.len() == 0 {
        0
    } else {
        active_pending(f.drop_last()) + (if f.last().severity@ != "ignored"@ { f.last().pending_count as int } else { 0 })
    }
}

/// High-severity fingerprints not yet acknowledged.
pub open spec fn high_open(f: Seq<FingerprintView>) -> int
    decreases f.len(),
{
    if f.len() == 0 {
        0
    } else {
        high_open(f.drop_last()) + (if f.last().severity@ == "high"@ && f.last().acknowledged_at is None { 1int } else { 0 })
    }
}

/// Counts are never negative and their totals fit in an `i64`.
pub open spec fn counts_fit(f: Seq<FingerprintView>) -> bool {
    &&& forall|i: int| 0 <= i < f.len() ==> 0 <= #[trigger] f[i].total_count && 0 <= f[i].pending_count
    &&& total_sum(f) <= i64::MAX
    &&& pending_sum(f) <= i64::MAX
    &&& f.len() <= i64::MAX
}

/// No two latest events are kept for the same fingerprint.
pub open spec fn detail_keys_distinct(d: Seq<FingerprintDetail>) -> bool {
    forall|i: int, j: int|
        0 <= i < d.len() && 0 <= j < d.len() && i != j ==> (#[trigger] d[i]).fingerprint@ != (#[trigger] d[j]).fingerprint@
}

impl DemoWorkspace {
    /// Counters stay in range, and the latest events are keyed by distinct
    /// fingerprints.
    pub open spec fn wf(&self) -> bool {
        &&& counts_fit(self.fingerprints@)
        &&& self.endpoints@.len() <= i64::MAX
        &&& detail_keys_distinct(self.details@)
    }
}

proof fn lemma_sums_grow(f: Seq<FingerprintView>, k: int)
    requires
        0 <= k <= f.len(),
        forall|i: int| 0 <= i < f.len() ==> 0 <= #[trigger] f[i].total_count && 0 <= f[i].pending_count,
    ensures
        0 <= total_sum(f.take(k)) <= total_sum(f),
        0 <= active_pending(f.take(k)) <= pending_sum(f.take(k)) <= pending_sum(f),
        0 <= high_open(f.take(k)) <= k,
    decreases f.len() - k,
{
    assert forall|i: int| 0 <= i < f.take(k).len() implies 0 <= #[trigger] f.take(k)[i].total_count
        && 0 <= f.take(k)[i].pending_count by {
        assert(f.take(k)[i] == f[i]);
    }
    lemma_sums_nonneg(f.take(k));
    if k < f.len() {
        lemma_sums_grow(f, k + 1);
        assert(f.take(k + 1).drop_last() =~= f.take(k));
        assert(f.take(k + 1).last() == f[k]);
    } else {
        assert(f.take(k) =~= f);
    }
}

proof fn lemma_sums_nonneg(f: Seq<FingerprintView>)
    requires
        forall|i: int| 0 <= i < f.len() ==> 0 <= #[trigger] f[i].total_count && 0 <= f[i].pending_count,
    ensures
        0 <= total_sum(f),
        0 <= active_pending(f) <= pending_sum(f),
        0 <= high_open(f) <= f.len(),
    decreases f.len(),
{
    if f.len() > 0 {
        assert forall|i: int| 0 <= i < f.drop_last().len() implies 0 <= #[trigger] f.drop_last()[i].total_count
            && 0 <= f.drop_last()[i].pending_count by {
            assert(f.drop_last()[i] == f[i]);
        }
        lemma_sums_nonneg(f.drop_last());
        assert(0 <= f[f.len() - 1].total_count && 0 <= f[f.len() - 1].pending_count);
    }
}

/// The counters a demo workspace shows. Every observation counts as today's.
pub open spec fn workspace_summary(w: DemoWorkspace) -> Summary {
    let f = w.fingerprints@;
    Summary {
        endpoints: w.endpoints@.len() as i64,
        fingerprints: f.len() as i64,
        events_today: total_sum(f) as i64,
        pending: active_pending(f) as i64,
        compressed: compressed_count(total_sum(f), f.len() as int) as i64,
        high_unacknowledged: high_open(f) as i64,
    }
}

/// Computes the counters of a demo workspace.
pub fn demo_summary(w: &DemoWorkspace) -> (r: Summary)
    requires
        w.wf(),
    ensures
        r == workspace_summary(*w),
{
    let ghost f = w.fingerprints@;
    let mut total: i64 = 0;
    let mut pending: i64 = 0;
    let mut high: i64 = 0;
    let mut i: usize = 0;
    while i < w.fingerprints.len()
        invariant
            i <= f.len(),
            f == w.fingerprints@,
            counts_fit(f),
            total == total_sum(f.take(i as int)),
            pending == active_pending(f.take(i as int)),
            high == high_open(f.take(i as int)),
        decreases w.fingerprints.len() - i,
    {
        proof {
            lemma_sums_grow(f, i as int + 1);
            assert(f.take(i as int + 1).drop_last() =~= f.take(i as int));
        }
        let item = &w.fingerprints[i];
        total = total + item.total_count;
        if !same_text(item.severity.as_str(), "ignored") {
            pending = pending + item.pending_count;
        }
        if same_text(item.severity.as_str(), "high") && item.acknowledged_at.is_none() {
            high = high + 1;
        }
        i = i + 1;
    }
    assert(f.take(f.len() as int) =~= f);
    let count: i64 = w.fingerprints.len() as i64;
    proof {
        lemma_sums_nonneg(f);
    }
    let diff: i64 = total - count;
    Summary {
        endpoints: w.endpoints.len() as i64,
        fingerprints: count,
        events_today: total,
        pending,
        compressed: if diff > 0 { diff } else { 0 },
        high_unacknowledged: high,
    }
}


// ---------------------------------------------------------------- seeding

/// A scalar JSON value as the seeded payloads hold them.
pub ghost enum Scalar {
    Text(Seq<char>),
    Number(Seq<char>),
    Other,
}

pub open spec fn scalar_of(v: JsonValue) -> Scalar {
    match v {
        JsonValue::Str(s) => Scalar::Text(s@),
        JsonValue::Number(n) => Scalar::Number(n@),
        _ => Scalar::Other,
    }
}

/// The members of an object payload, as names and scalar values.
pub open spec fn members(v: JsonValue) -> Seq<(Seq<char>, Scalar)> {
    match v {
        JsonValue::Object(entries) => entries@.map_values(|e: JsonEntry| (e.key@, scalar_of(e.value))),
        _ => seq![],
    }
}

/// The instant `minutes` minutes before `now`.
pub open spec fn minutes_before(now: UtcTime, minutes: int) -> UtcTime {
    UtcTime { secs: (now.secs - minutes * 60) as i64, nanos: now.nanos }
}

/// An instant at which the demo workspace can be seeded: one chrono
/// represents, as is the instant twelve days earlier when the seeded endpoint
/// was created (every other seeded time lies in between).
pub open spec fn seed_clock(now: UtcTime) -> bool {
    now.valid() && representable(now.secs - 12 * 86_400, now.nanos as int)
}

pub open spec fn time_text(t: UtcTime) -> Seq<char> {
    rfc3339_text(t.secs as int, t.nanos as int)
}

/// The seeded fingerprint number `index`, last seen `7 * (index + 1)` minutes
/// before `now` and first seen four hours before that.
pub open spec fn seeded_fingerprint(
    f: FingerprintView,
    index: int,
    now: UtcTime,
    name: Seq<char>,
    event_type: Seq<char>,
    total: i64,
    pending: i64,
    severity: Seq<char>,
) -> bool {
    let seen = minutes_before(now, 7 * (index + 1));
    &&& f.fingerprint@ == name
    &&& f.endpoint_id == 1
    &&& f.endpoint_name@ == "Deploy monitor"@
    &&& f.event_type@ == event_type
    &&& f.first_seen@ == time_text(minutes_before(seen, 240))
    &&& f.last_seen@ == time_text(seen)
    &&& f.total_count == total
    &&& f.pending_count == pending
    &&& f.severity@ == severity
    &&& f.target_minutes == 30
    &&& f.acknowledged_at is None
    &&& !f.overdue
}

pub open spec fn seeded_detail(d: FingerprintDetail, index: int, now: UtcTime, name: Seq<char>, event_type: Seq<char>, payload: Seq<(Seq<char>, Scalar)>) -> bool {
    &&& d.fingerprint@ == name
    &&& d.event_type@ == event_type
    &&& members(d.payload) == payload
    &&& d.received_at@ == time_text(minutes_before(now, 7 * (index + 1)))
    &&& d.signature_valid
}

/// The workspace every demo session starts from: one signed endpoint created
/// twelve days ago, three fingerprints (high, normal, record-only) with their
/// latest events, and default settings with no notification destination.
pub open spec fn is_seeded(w: DemoWorkspace, now: UtcTime) -> bool {
    let e = w.endpoints@;
    let f = w.fingerprints@;
    let d = w.details@;
    &&& w.created_at == now
    &&& e.len() == 1
    &&& e[0].id == 1
    &&& e[0].slug@ == "demo-deploy-monitor"@
    &&& e[0].name@ == "Deploy monitor"@
    &&& e[0].signature_required
    &&& e[0].created_at@ == time_text(minutes_before(now, 12 * 1440int))
    &&& f.len() == 3
    &&& seeded_fingerprint(f[0], 0, now, "demo-deploy-failed"@, "deployment.failed"@, 6, 2, "high"@)
    &&& seeded_fingerprint(f[1], 1, now, "demo-invoice-sync"@, "invoice.sync.failed"@, 9, 9, "normal"@)
    &&& seeded_fingerprint(f[2], 2, now, "demo-backup-complete"@, "backup.completed"@, 3, 0, "ignored"@)
    &&& d.len() == 3
    &&& seeded_detail(d[0], 0, now, "demo-deploy-failed"@, "deployment.failed"@, seq![
        ("region"@, Scalar::Text("eu-west"@)),
        ("service"@, Scalar::Text("checkout-api"@)),
        ("status"@, Scalar::Number("500"@)),
        ("type"@, Scalar::Text("deployment.failed"@)),
    ])
    &&& seeded_detail(d[1], 1, now, "demo-invoice-sync"@, "invoice.sync.failed"@, seq![
        ("retry"@, Scalar::Number("3"@)),
        ("service"@, Scalar::Text("billing-worker"@)),
        ("status"@, Scalar::Number("503"@)),
        ("type"@, Scalar::Text("invoice.sync.failed"@)),
    ])
    &&& seeded_detail(d[2], 2, now, "demo-backup-complete"@, "backup.completed"@, seq![
        ("service"@, Scalar::Text("nightly-backup"@)),
        ("status"@, Scalar::Number("200"@)),
        ("type"@, Scalar::Text("backup.completed"@)),
    ])
    &&& w.settings.quiet_start@ == "22:00"@
    &&& w.settings.quiet_end@ == "08:00"@
    &&& w.settings.utc_offset_minutes == 0
    &&& w.settings.digest_minutes == 60
    &&& w.settings.retention_days == 7
    &&& !w.settings.notification_configured
    &&& w.settings.notification_url@.len() == 0
    &&& w.settings.escalation_url@ == "https://status.example.test/incidents"@
    &&& w.settings.last_delivery_error is None
}

fn text_member(key: &str, value: &str) -> (e: JsonEntry)
    ensures
        e.key@ == key@,
        scalar_of(e.value) == Scalar::Text(value@),
{
    JsonEntry { key: key.to_owned(), value: JsonValue::Str(value.to_owned()) }
}

fn number_member(key: &str, value: &str) -> (e: JsonEntry)
    ensures
        e.key@ == key@,
        scalar_of(e.value) == Scalar::Number(value@),
{
    JsonEntry { key: key.to_owned(), value: JsonValue::Number(value.to_owned()) }
}

fn seeded_sample(
    now: UtcTime,
    index: i64,
    name: &str,
    event_type: &str,
    total: i64,
    pending: i64,
    severity: &str,
    payload: Vec<JsonEntry>,
) -> (r: (FingerprintView, FingerprintDetail))
    requires
        seed_clock(now),
        0 <= index < 3,
    ensures
        seeded_fingerprint(r.0, index as int, now, name@, event_type@, total, pending, severity@),
        r.1.fingerprint@ == name@,
        r.1.event_type@ == event_type@,
        r.1.payload == JsonValue::Object(payload),
        r.1.received_at@ == time_text(minutes_before(now, 7 * (index + 1))),
        r.1.signature_valid,
{
    let seen = UtcTime { secs: now.secs - (index + 1) * 7 * 60, nanos: now.nanos };
    let first = UtcTime { secs: seen.secs - 240 * 60, nanos: seen.nanos };
    let view = FingerprintView {
        fingerprint: name.to_owned(),
        endpoint_id: 1,
        endpoint_name: "Deploy monitor".to_owned(),
        event_type: event_type.to_owned(),
        first_seen: format_rfc3339(first),
        last_seen: format_rfc3339(seen),
        total_count: total,
        pending_count: pending,
        severity: severity.to_owned(),
        target_minutes: 30,
        acknowledged_at: None,
        overdue: false,
    };
    let detail = FingerprintDetail {
        fingerprint: name.to_owned(),
        event_type: event_type.to_owned(),
        payload: JsonValue::Object(payload),
        received_at: format_rfc3339(seen),
        signature_valid: true,
    };
    (view, detail)
}

/// Builds the seeded demo workspace at `now`.
pub fn seeded_demo_workspace(now: UtcTime) -> (w: DemoWorkspace)
    requires
        seed_clock(now),
    ensures
        is_seeded(w, now),
        w.wf(),
{
    let endpoint = EndpointView {
        id: 1,
        slug: "demo-deploy-monitor".to_owned(),
        name: "Deploy monitor".to_owned(),
        signature_required: true,
        created_at: format_rfc3339(UtcTime { secs: now.secs - 12 * 1440 * 60, nanos: now.nanos }),
    };
    let mut p0: Vec<JsonEntry> = Vec::new();
    p0.push(text_member("region", "eu-west"));
    p0.push(text_member("service", "checkout-api"));
    p0.push(number_member("status", "500"));
    p0.push(text_member("type", "deployment.failed"));
    let mut p1: Vec<JsonEntry> = Vec::new();
    p1.push(number_member("retry", "3"));
    p1.push(text_member("service", "billing-worker"));
    p1.push(number_member("status", "503"));
    p1.push(text_member("type", "invoice.sync.failed"));
    let mut p2: Vec<JsonEntry> = Vec::new();
    p2.push(text_member("service", "nightly-backup"));
    p2.push(number_member("status", "200"));
    p2.push(text_member("type", "backup.completed"));
    let ghost m0 = p0@.map_values(|e: JsonEntry| (e.key@, scalar_of(e.value)));
    let ghost m1 = p1@.map_values(|e: JsonEntry| (e.key@, scalar_of(e.value)));
    let ghost m2 = p2@.map_values(|e: JsonEntry| (e.key@, scalar_of(e.value)));
    let (f0, d0) = seeded_sample(now, 0, "demo-deploy-failed", "deployment.failed", 6, 2, "high", p0);
    let (f1, d1) = seeded_sample(now, 1, "demo-invoice-sync", "invoice.sync.failed", 9, 9, "normal", p1);
    let (f2, d2) = seeded_sample(now, 2, "demo-backup-complete", "backup.completed", 3, 0, "ignored", p2);
    assert(members(d0.payload) == m0);
    assert(members(d1.payload) == m1);
    assert(members(d2.payload) == m2);
    let mut endpoints: Vec<EndpointView> = Vec::new();
    endpoints.push(endpoint);
    let mut fingerprints: Vec<FingerprintView> = Vec::new();
    fingerprints.push(f0);
    fingerprints.push(f1);
    fingerprints.push(f2);
    let mut details: Vec<FingerprintDetail> = Vec::new();
    details.push(d0);
    details.push(d1);
    details.push(d2);
    let settings = SettingsView {
        quiet_start: "22:00".to_owned(),
        quiet_end: "08:00".to_owned(),
        utc_offset_minutes: 0,
        digest_minutes: 60,
        retention_days: 7,
        notification_configured: false,
        notification_url: String::new(),
        escalation_url: "https://status.example.test/incidents".to_owned(),
        last_delivery_error: None,
    };
    let w = DemoWorkspace { created_at: now, endpoints, fingerprints, details, settings };
    assert(m0 =~= seq![
        ("region"@, Scalar::Text("eu-west"@)),
        ("service"@, Scalar::Text("checkout-api"@)),
        ("status"@, Scalar::Number("500"@)),
        ("type"@, Scalar::Text("deployment.failed"@)),
    ]);
    assert(m1 =~= seq![
        ("retry"@, Scalar::Number("3"@)),
        ("service"@, Scalar::Text("billing-worker"@)),
        ("status"@, Scalar::Number("503"@)),
        ("type"@, Scalar::Text("invoice.sync.failed"@)),
    ]);
    assert(m2 =~= seq![
        ("service"@, Scalar::Text("nightly-backup"@)),
        ("status"@, Scalar::Number("200"@)),
        ("type"@, Scalar::Text("backup.completed"@)),
    ]);
    assert(w.endpoints@[0].created_at@ == time_text(minutes_before(now, 12 * 1440int)));
    assert(seeded_fingerprint(w.fingerprints@[0], 0, now, "demo-deploy-failed"@, "deployment.failed"@, 6, 2, "high"@));
    assert(w.details@[0] == d0);
    proof {
        let f = w.fingerprints@;
        let g = f.drop_last();
        let h = g.drop_last();
        assert(h.drop_last() =~= Seq::<FingerprintView>::empty());
        assert(h.last() == f[0] && g.last() == f[1] && f.last() == f[2]);
        assert(h.drop_last().len() == 0);
        assert(total_sum(h.drop_last()) == 0);
        assert(pending_sum(h.drop_last()) == 0);
        assert(total_sum(h) == 6);
        assert(total_sum(g) == 15);
        assert(total_sum(f) == 18);
        assert(pending_sum(h) == 2);
        assert(pending_sum(g) == 11);
        assert(pending_sum(f) == 11);
        reveal_strlit("demo-deploy-failed");
        reveal_strlit("demo-invoice-sync");
        reveal_strlit("demo-backup-complete");
        let d = w.details@;
        assert(d.len() == 3);
        assert(d[0].fingerprint@.len() == 18 && d[1].fingerprint@.len() == 17 && d[2].fingerprint@.len() == 20);
        assert forall|i: int, j: int| 0 <= i < d.len() && 0 <= j < d.len() && i != j implies (#[trigger] d[i]).fingerprint@
            != (#[trigger] d[j]).fingerprint@ by {
            assert(d[i].fingerprint@.len() != d[j].fingerprint@.len());
        }
    }
    w
}


// ---------------------------------------------------------------- changes to one workspace

/// `g` keeps every total of `f` and never has more pending than `f`.
pub open spec fn counts_shrink(f: Seq<FingerprintView>, g: Seq<FingerprintView>) -> bool {
    &&& f.len() == g.len()
    &&& forall|k: int| 0 <= k < f.len() ==> (#[trigger] g[k]).total_count == f[k].total_count
        && 0 <= g[k].pending_count <= f[k].pending_count
}

proof fn lemma_counts_shrink(f: Seq<FingerprintView>, g: Seq<FingerprintView>)
    requires
        counts_shrink(f, g),
    ensures
        total_sum(g) == total_sum(f),
        pending_sum(g) <= pending_sum(f),
    decreases f.len(),
{
    if f.len() > 0 {
        assert(counts_shrink(f.drop_last(), g.drop_last())) by {
            assert forall|k: int| 0 <= k < f.drop_last().len() implies (#[trigger] g.drop_last()[k]).total_count
                == f.drop_last()[k].total_count && 0 <= g.drop_last()[k].pending_count
                <= f.drop_last()[k].pending_count by {
                assert(g.drop_last()[k] == g[k] && f.drop_last()[k] == f[k]);
            }
        }
        lemma_counts_shrink(f.drop_last(), g.drop_last());
        assert(g.last() == g[g.len() - 1]);
    }
}

proof fn lemma_shrink_keeps_fit(f: Seq<FingerprintView>, g: Seq<FingerprintView>)
    requires
        counts_fit(f),
        counts_shrink(f, g),
    ensures
        counts_fit(g),
{
    lemma_counts_shrink(f, g);
    assert forall|i: int| 0 <= i < g.len() implies 0 <= #[trigger] g[i].total_count && 0 <= g[i].pending_count by {
        assert(0 <= f[i].total_count);
    }
}

/// Position of the first fingerprint named `name`, or the length.
pub open spec fn fingerprint_index(f: Seq<FingerprintView>, name: Seq<char>, i: int) -> int
    decreases f.len() - i,
{
    if i < 0 || i >= f.len() {
        f.len() as int
    } else if f[i].fingerprint@ == name {
        i
    } else {
        fingerprint_index(f, name, i + 1)
    }
}

fn find_fingerprint(f: &Vec<FingerprintView>, name: &str) -> (r: Option<usize>)
    ensures
        match r {
            Some(j) => j == fingerprint_index(f@, name@, 0) && j < f@.len(),
            None => fingerprint_index(f@, name@, 0) == f@.len(),
        },
{
    let mut j: usize = 0;
    while j < f.len()
        invariant
            j <= f@.len(),
            fingerprint_index(f@, name@, j as int) == fingerprint_index(f@, name@, 0),
        decreases f.len() - j,
    {
        if same_text(f[j].fingerprint.as_str(), name) {
            return Some(j);
        }
        j = j + 1;
    }
    None
}

/// `after` is `before` with its fingerprint `name` acknowledged at `when`:
/// the fingerprint has no pending observations left and carries the
/// acknowledgement; nothing else changed.
pub open spec fn acknowledged_in(before: DemoWorkspace, after: DemoWorkspace, name: Seq<char>, when: Seq<char>) -> bool {
    let f = before.fingerprints@;
    let g = after.fingerprints@;
    let j = fingerprint_index(f, name, 0);
    &&& j < f.len()
    &&& after.created_at == before.created_at
    &&& after.endpoints == before.endpoints
    &&& after.details == before.details
    &&& after.settings == before.settings
    &&& g.len() == f.len()
    &&& forall|k: int| 0 <= k < f.len() && k != j ==> #[trigger] g[k] == f[k]
    &&& g[j] == FingerprintView { pending_count: 0, acknowledged_at: g[j].acknowledged_at, ..f[j] }
    &&& g[j].acknowledged_at matches Some(t) && t@ == when
}

/// Acknowledges the named fingerprint: it is stamped with `when` and its
/// pending count cleared. Returns whether the fingerprint exists.
pub(crate) fn acknowledge_in(w: &mut DemoWorkspace, name: &str, when: String) -> (found: bool)
    requires
        old(w).wf(),
    ensures
        final(w).wf(),
        found == (fingerprint_index(old(w).fingerprints@, name@, 0) < old(w).fingerprints@.len()),
        !found ==> fingerprint_index(old(w).fingerprints@, name@, 0) == old(w).fingerprints@.len(),
        !found ==> *final(w) == *old(w),
        found ==> acknowledged_in(*old(w), *final(w), name@, when@),
{
    match find_fingerprint(&w.fingerprints, name) {
        None => false,
        Some(j) => {
            let ghost before = w.fingerprints@;
            let mut item = w.fingerprints.remove(j);
            item.pending_count = 0;
            item.acknowledged_at = Some(when);
            w.fingerprints.insert(j, item);
            assert(w.fingerprints@ =~= before.update(j as int, item));
            proof {
                lemma_shrink_keeps_fit(before, w.fingerprints@);
            }
            true
        },
    }
}

/// `after` is `before` with its fingerprint `name` given a severity and
/// target, its acknowledgement cleared; nothing else changed.
pub open spec fn triaged_in(before: DemoWorkspace, after: DemoWorkspace, name: Seq<char>, severity: String, target_minutes: i64) -> bool {
    let f = before.fingerprints@;
    let j = fingerprint_index(f, name, 0);
    &&& j < f.len()
    &&& after.created_at == before.created_at
    &&& after.endpoints == before.endpoints
    &&& after.details == before.details
    &&& after.settings == before.settings
    &&& after.fingerprints@ == f.update(j, FingerprintView {
        severity,
        target_minutes,
        acknowledged_at: None,
        ..f[j]
    })
}

/// Gives the named fingerprint a severity and target; a changed triage
/// clears its acknowledgement. Returns whether the fingerprint exists.
pub(crate) fn triage_in(w: &mut DemoWorkspace, name: &str, severity: String, target_minutes: i64) -> (found: bool)
    requires
        old(w).wf(),
    ensures
        final(w).wf(),
        found == (fingerprint_index(old(w).fingerprints@, name@, 0) < old(w).fingerprints@.len()),
        !found ==> fingerprint_index(old(w).fingerprints@, name@, 0) == old(w).fingerprints@.len(),
        !found ==> *final(w) == *old(w),
        found ==> triaged_in(*old(w), *final(w), name@, severity, target_minutes),
{
    match find_fingerprint(&w.fingerprints, name) {
        None => false,
        Some(j) => {
            let ghost before = w.fingerprints@;
            let mut item = w.fingerprints.remove(j);
            item.severity = severity;
            item.target_minutes = target_minutes;
            item.acknowledged_at = None;
            w.fingerprints.insert(j, item);
            assert(w.fingerprints@ =~= before.update(j as int, item));
            proof {
                lemma_shrink_keeps_fit(before, w.fingerprints@);
            }
            true
        },
    }
}

/// A fingerprint is included in a demo digest when it is normal and has
/// pending observations.
pub open spec fn digest_due(f: FingerprintView) -> bool {
    f.severity@ == "normal"@ && f.pending_count > 0
}

/// The fingerprints after a demo digest: every due one has its pending
/// count cleared.
pub open spec fn after_digest(f: Seq<FingerprintView>) -> Seq<FingerprintView> {
    f.map_values(|x: FingerprintView| if digest_due(x) { FingerprintView { pending_count: 0, ..x } } else { x })
}

pub open spec fn due_count(f: Seq<FingerprintView>) -> int
    decreases f.len(),
{
    if f.len() == 0 { 0 } else { due_count(f.drop_last()) + (if digest_due(f.last()) { 1int } else { 0 }) }
}

proof fn lemma_due_count_bound(f: Seq<FingerprintView>)
    ensures 0 <= due_count(f) <= f.len(),
    decreases f.len(),
{
    if f.len() > 0 {
        lemma_due_count_bound(f.drop_last());
    }
}

/// Sends a demo digest: clears every due fingerprint and counts them.
pub(crate) fn send_digest_in(w: &mut DemoWorkspace) -> (sent: usize)
    requires
        old(w).wf(),
    ensures
        final(w).wf(),
        final(w).created_at == old(w).created_at,
        final(w).endpoints == old(w).endpoints,
        final(w).details == old(w).details,
        final(w).settings == old(w).settings,
        final(w).fingerprints@ == after_digest(old(w).fingerprints@),
        sent == due_count(old(w).fingerprints@),
{
    let ghost before = w.fingerprints@;
    let ghost w0 = *w;
    let mut sent: usize = 0;
    let mut j: usize = 0;
    while j < w.fingerprints.len()
        invariant
            j <= before.len(),
            w0.wf(),
            before == w0.fingerprints@,
            w.created_at == w0.created_at,
            w.endpoints == w0.endpoints,
            w.details == w0.details,
            w.settings == w0.settings,
            w.fingerprints@.len() == before.len(),
            forall|k: int| 0 <= k < j ==> #[trigger] w.fingerprints@[k] == after_digest(before)[k],
            forall|k: int| j <= k < before.len() ==> #[trigger] w.fingerprints@[k] == before[k],
            sent == due_count(before.take(j as int)),
        decreases before.len() - j,
    {
        proof {
            lemma_due_count_bound(before.take(j as int));
            assert(before.take(j as int + 1).drop_last() =~= before.take(j as int));
        }
        if same_text(w.fingerprints[j].severity.as_str(), "normal") && w.fingerprints[j].pending_count > 0 {
            sent = sent + 1;
            let ghost cur = w.fingerprints@;
            let mut item = w.fingerprints.remove(j);
            item.pending_count = 0;
            w.fingerprints.insert(j, item);
            assert(w.fingerprints@ =~= cur.update(j as int, item));
        }
        j = j + 1;
    }
    assert(w.fingerprints@ =~= after_digest(before));
    assert(before.take(before.len() as int) =~= before);
    proof {
        lemma_shrink_keeps_fit(before, w.fingerprints@);
    }
    sent
}


pub open spec fn endpoints_without(e: Seq<EndpointView>, id: i64) -> Seq<EndpointView>
    decreases e.len(),
{
    if e.len() == 0 {
        seq![]
    } else {
        let rest = endpoints_without(e.drop_last(), id);
        if e.last().id != id { rest.push(e.last()) } else { rest }
    }
}

pub open spec fn fingerprints_without(f: Seq<FingerprintView>, id: i64) -> Seq<FingerprintView>
    decreases f.len(),
{
    if f.len() == 0 {
        seq![]
    } else {
        let rest = fingerprints_without(f.drop_last(), id);
        if f.last().endpoint_id != id { rest.push(f.last()) } else { rest }
    }
}

pub open spec fn names_fingerprint(f: Seq<FingerprintView>, name: Seq<char>) -> bool {
    exists|j: int| 0 <= j < f.len() && (#[trigger] f[j]).fingerprint@ == name
}

/// The details whose fingerprint is still listed in `f`.
pub open spec fn details_for(d: Seq<FingerprintDetail>, f: Seq<FingerprintView>) -> Seq<FingerprintDetail>
    decreases d.len(),
{
    if d.len() == 0 {
        seq![]
    } else {
        let rest = details_for(d.drop_last(), f);
        if names_fingerprint(f, d.last().fingerprint@) { rest.push(d.last()) } else { rest }
    }
}

proof fn lemma_details_for_distinct(d: Seq<FingerprintDetail>, f: Seq<FingerprintView>)
    requires
        detail_keys_distinct(d),
    ensures
        detail_keys_distinct(details_for(d, f)),
        forall|a: int| 0 <= a < details_for(d, f).len() ==> exists|b: int| 0 <= b < d.len() && #[trigger] details_for(d, f)[a] == d[b],
    decreases d.len(),
{
    if d.len() > 0 {
        let p = d.drop_last();
        assert forall|i: int, j: int| 0 <= i < p.len() && 0 <= j < p.len() && i != j implies (#[trigger] p[i]).fingerprint@
            != (#[trigger] p[j]).fingerprint@ by {
            assert(p[i] == d[i] && p[j] == d[j]);
        }
        lemma_details_for_distinct(p, f);
        let r = details_for(p, f);
        let x = d.last();
        if names_fingerprint(f, x.fingerprint@) {
            let t = r.push(x);
            assert forall|a: int| 0 <= a < t.len() implies exists|b: int| 0 <= b < d.len() && #[trigger] t[a] == d[b] by {
                if a < r.len() {
                    let b = choose|b: int| 0 <= b < p.len() && r[a] == #[trigger] p[b];
                    assert(t[a] == d[b]);
                } else {
                    assert(t[a] == d[d.len() - 1]);
                }
            }
            assert forall|i: int, j: int| 0 <= i < t.len() && 0 <= j < t.len() && i != j implies (#[trigger] t[i]).fingerprint@
                != (#[trigger] t[j]).fingerprint@ by {
                if i < r.len() && j < r.len() {
                    assert(t[i] == r[i] && t[j] == r[j]);
                } else if i < r.len() {
                    let b = choose|b: int| 0 <= b < p.len() && r[i] == #[trigger] p[b];
                    assert(t[i] == d[b] && t[j] == d[d.len() - 1]);
                } else {
                    let b = choose|b: int| 0 <= b < p.len() && r[j] == #[trigger] p[b];
                    assert(t[j] == d[b] && t[i] == d[d.len() - 1]);
                }
            }
        } else {
            assert forall|a: int| 0 <= a < r.len() implies exists|b: int| 0 <= b < d.len() && #[trigger] r[a] == d[b] by {
                let b = choose|b: int| 0 <= b < p.len() && r[a] == #[trigger] p[b];
                assert(r[a] == d[b]);
            }
        }
    }
}

proof fn lemma_without_sums(f: Seq<FingerprintView>, id: i64)
    requires
        forall|i: int| 0 <= i < f.len() ==> 0 <= #[trigger] f[i].total_count && 0 <= f[i].pending_count,
    ensures
        fingerprints_without(f, id).len() <= f.len(),
        total_sum(fingerprints_without(f, id)) <= total_sum(f),
        pending_sum(fingerprints_without(f, id)) <= pending_sum(f),
        forall|i: int| 0 <= i < fingerprints_without(f, id).len() ==> 0 <= #[trigger] fingerprints_without(f, id)[i].total_count
            && 0 <= fingerprints_without(f, id)[i].pending_count,
    decreases f.len(),
{
    if f.len() > 0 {
        let g = f.drop_last();
        assert forall|i: int| 0 <= i < g.len() implies 0 <= #[trigger] g[i].total_count && 0 <= g[i].pending_count by {
            assert(g[i] == f[i]);
        }
        lemma_without_sums(g, id);
        let r = fingerprints_without(g, id);
        if f.last().endpoint_id != id {
            assert(r.push(f.last()).drop_last() =~= r);
            assert forall|i: int| 0 <= i < r.push(f.last()).len() implies 0 <= #[trigger] r.push(f.last())[i].total_count
                && 0 <= r.push(f.last())[i].pending_count by {
                if i < r.len() {
                    assert(r.push(f.last())[i] == r[i]);
                }
            }
        }
    }
}

fn endpoints_kept(v: Vec<EndpointView>, id: i64) -> (kept: Vec<EndpointView>)
    ensures
        kept@ == endpoints_without(v@, id),
{
    let ghost orig = v@;
    let total_len: usize = v.len();
    let mut rest = v;
    let mut kept: Vec<EndpointView> = Vec::new();
    let mut i: usize = 0;
    while rest.len() > 0
        invariant
            i <= orig.len(),
            orig.len() == total_len,
            rest@ == orig.skip(i as int),
            kept@ == endpoints_without(orig.take(i as int), id),
        decreases rest.len(),
    {
        assert(orig.take(i as int + 1).drop_last() =~= orig.take(i as int));
        let x = rest.remove(0);
        assert(x == orig[i as int]);
        assert(rest@ =~= orig.skip(i as int + 1));
        if x.id != id {
            kept.push(x);
        }
        i = i + 1;
    }
    assert(orig.take(i as int) =~= orig);
    kept
}

fn fingerprints_kept(v: Vec<FingerprintView>, id: i64) -> (kept: Vec<FingerprintView>)
    ensures
        kept@ == fingerprints_without(v@, id),
{
    let ghost orig = v@;
    let total_len: usize = v.len();
    let mut rest = v;
    let mut kept: Vec<FingerprintView> = Vec::new();
    let mut i: usize = 0;
    while rest.len() > 0
        invariant
            i <= orig.len(),
            orig.len() == total_len,
            rest@ == orig.skip(i as int),
            kept@ == fingerprints_without(orig.take(i as int), id),
        decreases rest.len(),
    {
        assert(orig.take(i as int + 1).drop_last() =~= orig.take(i as int));
        let x = rest.remove(0);
        assert(x == orig[i as int]);
        assert(rest@ =~= orig.skip(i as int + 1));
        if x.endpoint_id != id {
            kept.push(x);
        }
        i = i + 1;
    }
    assert(orig.take(i as int) =~= orig);
    kept
}

fn lists_fingerprint(f: &Vec<FingerprintView>, name: &str) -> (r: bool)
    ensures
        r == names_fingerprint(f@, name@),
{
    let mut j: usize = 0;
    while j < f.len()
        invariant
            j <= f@.len(),
            forall|k: int| 0 <= k < j ==> (#[trigger] f@[k]).fingerprint@ != name@,
        decreases f.len() - j,
    {
        if same_text(f[j].fingerprint.as_str(), name) {
            return true;
        }
        j = j + 1;
    }
    false
}

fn details_kept(v: Vec<FingerprintDetail>, f: &Vec<FingerprintView>) -> (kept: Vec<FingerprintDetail>)
    ensures
        kept@ == details_for(v@, f@),
{
    let ghost orig = v@;
    let total_len: usize = v.len();
    let mut rest = v;
    let mut kept: Vec<FingerprintDetail> = Vec::new();
    let mut i: usize = 0;
    while rest.len() > 0
        invariant
            i <= orig.len(),
            orig.len() == total_len,
            rest@ == orig.skip(i as int),
            kept@ == details_for(orig.take(i as int), f@),
        decreases rest.len(),
    {
        assert(orig.take(i as int + 1).drop_last() =~= orig.take(i as int));
        let x = rest.remove(0);
        assert(x == orig[i as int]);
        assert(rest@ =~= orig.skip(i as int + 1));
        if lists_fingerprint(f, x.fingerprint.as_str()) {
            kept.push(x);
        }
        i = i + 1;
    }
    assert(orig.take(i as int) =~= orig);
    kept
}

pub open spec fn has_endpoint(e: Seq<EndpointView>, id: i64) -> bool {
    exists|k: int| 0 <= k < e.len() && (#[trigger] e[k]).id == id
}

fn lists_endpoint(e: &Vec<EndpointView>, id: i64) -> (r: bool)
    ensures
        r == has_endpoint(e@, id),
{
    let mut k: usize = 0;
    while k < e.len()
        invariant
            k <= e@.len(),
            forall|m: int| 0 <= m < k ==> (#[trigger] e@[m]).id != id,
        decreases e.len() - k,
    {
        if e[k].id == id {
            return true;
        }
        k = k + 1;
    }
    false
}

/// Removes an endpoint with its fingerprints and their latest events.
/// Returns whether the endpoint existed; when it did not, nothing changes.
pub(crate) fn remove_endpoint_in(w: &mut DemoWorkspace, id: i64) -> (found: bool)
    requires
        old(w).wf(),
    ensures
        final(w).wf(),
        found == has_endpoint(old(w).endpoints@, id),
        !found ==> *final(w) == *old(w),
        found ==> {
            &&& final(w).created_at == old(w).created_at
            &&& final(w).settings == old(w).settings
            &&& final(w).endpoints@ == endpoints_without(old(w).endpoints@, id)
            &&& final(w).fingerprints@ == fingerprints_without(old(w).fingerprints@, id)
            &&& final(w).details@ == details_for(old(w).details@, final(w).fingerprints@)
        },
{
    if !lists_endpoint(&w.endpoints, id) {
        return false;
    }
    let ghost before = *w;
    let mut endpoints: Vec<EndpointView> = Vec::new();
    std::mem::swap(&mut endpoints, &mut w.endpoints);
    w.endpoints = endpoints_kept(endpoints, id);
    let mut fingerprints: Vec<FingerprintView> = Vec::new();
    std::mem::swap(&mut fingerprints, &mut w.fingerprints);
    w.fingerprints = fingerprints_kept(fingerprints, id);
    let mut details: Vec<FingerprintDetail> = Vec::new();
    std::mem::swap(&mut details, &mut w.details);
    w.details = details_kept(details, &w.fingerprints);
    proof {
        lemma_without_sums(before.fingerprints@, id);
        lemma_without_len_e(before.endpoints@, id);
        lemma_details_for_distinct(before.details@, w.fingerprints@);
    }
    true
}

proof fn lemma_without_len_e(e: Seq<EndpointView>, id: i64)
    ensures
        endpoints_without(e, id).len() <= e.len(),
    decreases e.len(),
{
    if e.len() > 0 {
        lemma_without_len_e(e.drop_last(), id);
    }
}

// ---------------------------------------------------------------- demo settings

/// Why a demo settings change is refused, if it is: malformed quiet hours
/// first, then any value outside the ranges a demo accepts.
pub open spec fn demo_settings_refusal(i: SettingsUpdate) -> Option<Seq<char>> {
    if !clock_time_valid(i.quiet_start@) || !clock_time_valid(i.quiet_end@) {
        Some("Quiet hours must use HH:MM."@)
    } else if !(-720 <= i.utc_offset_minutes <= 840) || !(5 <= i.digest_minutes <= 1440) || !(1 <= i.retention_days
        <= 90) {
        Some("A demo setting is out of range."@)
    } else {
        None
    }
}

/// Checks a demo settings change before it is applied.
pub fn check_demo_settings(input: &SettingsUpdate) -> (r: Result<(), AppError>)
    ensures
        match demo_settings_refusal(*input) {
            Some(reason) => r matches Err(e) && is_invalid(e, reason),
            None => r is Ok,
        },
{
    match validate_time(input.quiet_start.as_str()) {
        Err(e) => return Err(e),
        Ok(()) => {},
    }
    match validate_time(input.quiet_end.as_str()) {
        Err(e) => return Err(e),
        Ok(()) => {},
    }
    if !(-720 <= input.utc_offset_minutes && input.utc_offset_minutes <= 840)
        || !(5 <= input.digest_minutes && input.digest_minutes <= 1440)
        || !(1 <= input.retention_days && input.retention_days <= 90)
    {
        return Err(AppError::Invalid("A demo setting is out of range.".to_owned()));
    }
    Ok(())
}

/// The settings a demo keeps from an accepted change: its schedule and
/// escalation link, and never a notification destination.
pub open spec fn demo_settings_from(s: SettingsView, i: SettingsUpdate) -> bool {
    &&& s.quiet_start == i.quiet_start
    &&& s.quiet_end == i.quiet_end
    &&& s.utc_offset_minutes == i.utc_offset_minutes
    &&& s.digest_minutes == i.digest_minutes
    &&& s.retention_days == i.retention_days
    &&& !s.notification_configured
    &&& s.notification_url@.len() == 0
    &&& s.escalation_url == i.escalation_url
    &&& s.last_delivery_error is None
}

/// `after` is `before` with the settings of an accepted change.
pub open spec fn settings_replaced(before: DemoWorkspace, after: DemoWorkspace, i: SettingsUpdate) -> bool {
    &&& after.created_at == before.created_at
    &&& after.endpoints == before.endpoints
    &&& after.fingerprints == before.fingerprints
    &&& after.details == before.details
    &&& demo_settings_from(after.settings, i)
}

pub(crate) fn replace_settings_in(w: &mut DemoWorkspace, input: SettingsUpdate)
    requires
        old(w).wf(),
    ensures
        final(w).wf(),
        settings_replaced(*old(w), *final(w), input),
{
    w.settings = SettingsView {
        quiet_start: input.quiet_start,
        quiet_end: input.quiet_end,
        utc_offset_minutes: input.utc_offset_minutes,
        digest_minutes: input.digest_minutes,
        retention_days: input.retention_days,
        notification_configured: false,
        notification_url: String::new(),
        escalation_url: input.escalation_url,
        last_delivery_error: None,
    };
}

/// `after` is `before` once a demo digest went out.
pub open spec fn digested(before: DemoWorkspace, after: DemoWorkspace) -> bool {
    &&& after.created_at == before.created_at
    &&& after.endpoints == before.endpoints
    &&& after.details == before.details
    &&& after.settings == before.settings
    &&& after.fingerprints@ == after_digest(before.fingerprints@)
}

/// `after` is `before` without endpoint `id`, its fingerprints and their
/// latest events.
pub open spec fn endpoint_removed(before: DemoWorkspace, after: DemoWorkspace, id: i64) -> bool {
    &&& after.created_at == before.created_at
    &&& after.settings == before.settings
    &&& after.endpoints@ == endpoints_without(before.endpoints@, id)
    &&& after.fingerprints@ == fingerprints_without(before.fingerprints@, id)
    &&& after.details@ == details_for(before.details@, after.fingerprints@)
}

// ---------------------------------------------------------------- laws

/// A freshly seeded workspace, and so every reset one, shows one endpoint,
/// three fingerprints, eighteen events of which fifteen were folded into
/// existing fingerprints, eleven pending observations and one unacknowledged
/// high-severity fingerprint.
pub proof fn law_seeded_summary(w: DemoWorkspace, now: UtcTime)
    requires
        is_seeded(w, now),
    ensures
        workspace_summary(w) == (Summary {
            endpoints: 1,
            fingerprints: 3,
            events_today: 18,
            pending: 11,
            compressed: 15,
            high_unacknowledged: 1,
        }),
{
    reveal_strlit("high");
    reveal_strlit("normal");
    reveal_strlit("ignored");
    let f = w.fingerprints@;
    let g = f.drop_last();
    let h = g.drop_last();
    assert(h.drop_last().len() == 0);
    assert(h.last() == f[0] && g.last() == f[1] && f.last() == f[2]);
    assert(total_sum(h.drop_last()) == 0);
    assert(active_pending(h.drop_last()) == 0);
    assert(high_open(h.drop_last()) == 0);
    assert("ignored"@.len() == 7 && f[0].severity@.len() == 4 && f[1].severity@.len() == 6);
    assert(total_sum(h) == 6);
    assert(total_sum(g) == 15);
    assert(total_sum(f) == 18);
    assert(active_pending(h) == 2);
    assert(active_pending(g) == 11);
    assert(active_pending(f) == 11);
    assert(high_open(h) == 1);
    assert(high_open(g) == 1);
    assert(high_open(f) == 1);
}

/// A demo digest clears what it covers: right after one, a second covers
/// nothing and changes nothing.
pub proof fn law_second_digest_sends_nothing(f: Seq<FingerprintView>)
    ensures
        due_count(after_digest(f)) == 0,
        after_digest(after_digest(f)) == after_digest(f),
    decreases f.len(),
{
    let g = after_digest(f);
    assert(after_digest(g) =~= g);
    if f.len() > 0 {
        law_second_digest_sends_nothing(f.drop_last());
        assert(g.drop_last() =~= after_digest(f.drop_last()));
        assert(!digest_due(g.last()));
    }
}

proof fn lemma_fingerprint_index_from(f: Seq<FingerprintView>, name: Seq<char>, i: int)
    requires
        0 <= i <= f.len(),
    ensures
        i <= fingerprint_index(f, name, i) <= f.len(),
    decreases f.len() - i,
{
    if i < f.len() && f[i].fingerprint@ != name {
        lemma_fingerprint_index_from(f, name, i + 1);
    }
}

proof fn lemma_active_pending_update(f: Seq<FingerprintView>, j: int, y: FingerprintView)
    requires
        0 <= j < f.len(),
    ensures
        active_pending(f.update(j, y)) == active_pending(f)
            - (if f[j].severity@ != "ignored"@ { f[j].pending_count as int } else { 0 })
            + (if y.severity@ != "ignored"@ { y.pending_count as int } else { 0 }),
    decreases f.len(),
{
    let g = f.update(j, y);
    if j == f.len() - 1 {
        assert(g.drop_last() =~= f.drop_last());
    } else {
        assert(g.drop_last() =~= f.drop_last().update(j, y));
        lemma_active_pending_update(f.drop_last(), j, y);
    }
}

/// Record-only fingerprints are left out of the pending counter: making a
/// fingerprint record-only lowers the counter by its pending observations
/// (unless it was record-only already), and making a record-only fingerprint
/// normal or high raises the counter by them.
pub proof fn law_ignored_pending_is_not_counted(
    before: DemoWorkspace,
    after: DemoWorkspace,
    name: Seq<char>,
    severity: String,
    target_minutes: i64,
)
    requires
        before.wf(),
        triaged_in(before, after, name, severity, target_minutes),
    ensures
        workspace_summary(after).pending == workspace_summary(before).pending
            - (if before.fingerprints@[fingerprint_index(before.fingerprints@, name, 0)].severity@ != "ignored"@ {
                before.fingerprints@[fingerprint_index(before.fingerprints@, name, 0)].pending_count as int
            } else {
                0
            })
            + (if severity@ != "ignored"@ {
                before.fingerprints@[fingerprint_index(before.fingerprints@, name, 0)].pending_count as int
            } else {
                0
            }),
{
    let f = before.fingerprints@;
    let g = after.fingerprints@;
    let j = fingerprint_index(f, name, 0);
    lemma_fingerprint_index_from(f, name, 0);
    lemma_active_pending_update(f, j, g[j]);
    assert(counts_shrink(f, g));
    lemma_counts_shrink(f, g);
    lemma_sums_nonneg(f);
    assert forall|i: int| 0 <= i < g.len() implies 0 <= #[trigger] g[i].total_count && 0 <= g[i].pending_count by {
        assert(0 <= f[i].total_count && 0 <= f[i].pending_count);
    }
    lemma_sums_nonneg(g);
}

} // verus!
