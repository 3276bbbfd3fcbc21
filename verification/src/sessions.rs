//! The demo sessions held in memory: one seeded workspace per random session
//! id, each changed only through its own id, and dropped a day after it was
//! seeded.

use vstd::prelude::*;
use crate::dashboard::Summary;
use crate::dashboard::{triage_refusal, validate_triage};
use crate::demo::{
    acknowledge_in, acknowledged_in, check_demo_settings, demo_settings_refusal, demo_summary, digested,
    due_count, endpoint_removed, fingerprint_index, has_endpoint, is_seeded, remove_endpoint_in, replace_settings_in,
    seed_clock, seeded_demo_workspace, send_digest_in, settings_replaced, time_text, triage_in, triaged_in, workspace_summary,
    DemoWorkspace,
};
use crate::settings::{is_invalid, SettingsUpdate};
use crate::crypto::random_alphanumeric;
use crate::error::AppError;
use crate::text::is_ascii_alnum;
use crate::time::{chrono_max_secs, format_rfc3339, representable, UtcTime};

verus! {

/// A session id with its workspace.
pub struct DemoEntry {
    pub id: String,
    pub workspace: DemoWorkspace,
}

pub open spec fn ids_unique(s: Seq<DemoEntry>) -> bool {
    forall|i: int, j: int|
        0 <= i < s.len() && 0 <= j < s.len() && i != j ==> (#[trigger] s[i]).id@ != (#[trigger] s[j]).id@
}

pub open spec fn lists_session(s: Seq<DemoEntry>, id: Seq<char>) -> bool {
    exists|i: int| 0 <= i < s.len() && (#[trigger] s[i]).id@ == id
}

pub open spec fn session_index(s: Seq<DemoEntry>, id: Seq<char>) -> int {
    choose|i: int| 0 <= i < s.len() && (#[trigger] s[i]).id@ == id
}

/// The sessions a list of entries holds, by id.
pub open spec fn sessions_of(s: Seq<DemoEntry>) -> Map<Seq<char>, DemoWorkspace> {
    Map::new(|k: Seq<char>| lists_session(s, k), |k: Seq<char>| s[session_index(s, k)].workspace)
}

proof fn lemma_session_at(s: Seq<DemoEntry>, i: int)
    requires
        ids_unique(s),
        0 <= i < s.len(),
    ensures
        sessions_of(s).dom().contains(s[i].id@),
        sessions_of(s)[s[i].id@] == s[i].workspace,
{
    assert(lists_session(s, s[i].id@));
    let j = session_index(s, s[i].id@);
    assert(0 <= j < s.len() && s[j].id@ == s[i].id@);
    if j != i {
        assert(s[i].id@ != s[j].id@);
    }
}

proof fn lemma_sessions_update(s: Seq<DemoEntry>, i: int, e: DemoEntry)
    requires
        ids_unique(s),
        0 <= i < s.len(),
        e.id@ == s[i].id@,
    ensures
        ids_unique(s.update(i, e)),
        sessions_of(s.update(i, e)) == sessions_of(s).insert(e.id@, e.workspace),
{
    let t = s.update(i, e);
    assert forall|a: int| 0 <= a < t.len() implies (#[trigger] t[a]).id@ == s[a].id@ by {}
    assert forall|a: int, b: int| 0 <= a < t.len() && 0 <= b < t.len() && a != b implies (#[trigger] t[a]).id@
        != (#[trigger] t[b]).id@ by {
        assert(t[a].id@ == s[a].id@ && t[b].id@ == s[b].id@);
        assert(s[a].id@ != s[b].id@);
    }
    let m = sessions_of(s).insert(e.id@, e.workspace);
    assert forall|k: Seq<char>| #[trigger] sessions_of(t).dom().contains(k) <==> m.dom().contains(k) by {
        if lists_session(t, k) {
            let a = choose|a: int| 0 <= a < t.len() && (#[trigger] t[a]).id@ == k;
            assert(s[a].id@ == k);
        }
        if lists_session(s, k) {
            let a = choose|a: int| 0 <= a < s.len() && (#[trigger] s[a]).id@ == k;
            assert(t[a].id@ == k);
        }
    }
    assert forall|k: Seq<char>| #[trigger] sessions_of(t).dom().contains(k) implies sessions_of(t)[k] == m[k] by {
        let a = choose|a: int| 0 <= a < t.len() && (#[trigger] t[a]).id@ == k;
        lemma_session_at(t, a);
        if a != i {
            lemma_session_at(s, a);
        }
    }
    assert(sessions_of(t) =~= m);
}

proof fn lemma_sessions_remove(s: Seq<DemoEntry>, i: int)
    requires
        ids_unique(s),
        0 <= i < s.len(),
    ensures
        ids_unique(s.remove(i)),
        sessions_of(s.remove(i)) == sessions_of(s).remove(s[i].id@),
        forall|a: int| 0 <= a < s.remove(i).len() ==> exists|b: int| 0 <= b < s.len() && #[trigger] s.remove(i)[a] == s[b],
{
    let t = s.remove(i);
    assert forall|a: int| 0 <= a < t.len() implies (#[trigger] t[a]) == s[if a < i { a } else { a + 1 }] by {}
    assert forall|a: int, b: int| 0 <= a < t.len() && 0 <= b < t.len() && a != b implies (#[trigger] t[a]).id@
        != (#[trigger] t[b]).id@ by {
        let a2 = if a < i { a } else { a + 1 };
        let b2 = if b < i { b } else { b + 1 };
        assert(t[a] == s[a2] && t[b] == s[b2]);
        assert(s[a2].id@ != s[b2].id@);
    }
    assert forall|a: int| 0 <= a < t.len() implies exists|b: int| 0 <= b < s.len() && #[trigger] t[a] == s[b] by {
        let b = if a < i { a } else { a + 1 };
        assert(t[a] == s[b]);
    }
    let m = sessions_of(s).remove(s[i].id@);
    assert forall|k: Seq<char>| #[trigger] sessions_of(t).dom().contains(k) <==> m.dom().contains(k) by {
        if lists_session(t, k) {
            let a = choose|a: int| 0 <= a < t.len() && (#[trigger] t[a]).id@ == k;
            let a2 = if a < i { a } else { a + 1 };
            assert(t[a] == s[a2]);
            assert(s[a2].id@ != s[i].id@);
        }
        if lists_session(s, k) && k != s[i].id@ {
            let b = choose|b: int| 0 <= b < s.len() && (#[trigger] s[b]).id@ == k;
            let a = if b < i { b } else { b - 1 };
            assert(t[a] == s[b]);
        }
    }
    assert forall|k: Seq<char>| #[trigger] sessions_of(t).dom().contains(k) implies sessions_of(t)[k] == m[k] by {
        let a = choose|a: int| 0 <= a < t.len() && (#[trigger] t[a]).id@ == k;
        let a2 = if a < i { a } else { a + 1 };
        assert(t[a] == s[a2]);
        lemma_session_at(t, a);
        lemma_session_at(s, a2);
    }
    assert(sessions_of(t) =~= m);
}

proof fn lemma_sessions_push(s: Seq<DemoEntry>, e: DemoEntry)
    requires
        ids_unique(s),
        !lists_session(s, e.id@),
    ensures
        ids_unique(s.push(e)),
        sessions_of(s.push(e)) == sessions_of(s).insert(e.id@, e.workspace),
{
    let t = s.push(e);
    assert forall|a: int, b: int| 0 <= a < t.len() && 0 <= b < t.len() && a != b implies (#[trigger] t[a]).id@
        != (#[trigger] t[b]).id@ by {
        if a == s.len() {
            assert(t[b] == s[b]);
        } else if b == s.len() {
            assert(t[a] == s[a]);
        } else {
            assert(t[a] == s[a] && t[b] == s[b]);
        }
    }
    let m = sessions_of(s).insert(e.id@, e.workspace);
    assert forall|k: Seq<char>| #[trigger] sessions_of(t).dom().contains(k) <==> m.dom().contains(k) by {
        if lists_session(t, k) {
            let a = choose|a: int| 0 <= a < t.len() && (#[trigger] t[a]).id@ == k;
            if a < s.len() {
                assert(t[a] == s[a]);
            }
        }
        if lists_session(s, k) {
            let a = choose|a: int| 0 <= a < s.len() && (#[trigger] s[a]).id@ == k;
            assert(t[a] == s[a]);
        }
        if k == e.id@ {
            assert(t[s.len() as int] == e);
        }
    }
    assert forall|k: Seq<char>| #[trigger] sessions_of(t).dom().contains(k) implies sessions_of(t)[k] == m[k] by {
        let a = choose|a: int| 0 <= a < t.len() && (#[trigger] t[a]).id@ == k;
        lemma_session_at(t, a);
        if a < s.len() {
            assert(t[a] == s[a]);
            lemma_session_at(s, a);
        }
    }
    assert(sessions_of(t) =~= m);
}

proof fn lemma_replaced(before: Seq<DemoEntry>, after: Seq<DemoEntry>, i: int)
    requires
        ids_unique(before),
        0 <= i < before.len(),
        after == before.update(i, after[i]),
        after[i].id@ == before[i].id@,
    ensures
        ids_unique(after),
        sessions_of(before).dom().contains(before[i].id@),
        sessions_of(before)[before[i].id@] == before[i].workspace,
        sessions_of(after)[before[i].id@] == after[i].workspace,
        sessions_of(after).dom() == sessions_of(before).dom(),
        sessions_of(after).remove(before[i].id@) == sessions_of(before).remove(before[i].id@),
{
    lemma_sessions_update(before, i, after[i]);
    lemma_session_at(before, i);
    let id = before[i].id@;
    assert(sessions_of(after).dom() =~= sessions_of(before).dom());
    assert(sessions_of(after).remove(id) =~= sessions_of(before).remove(id));
}

/// An instant from which the instant a day earlier (the purge cutoff) is
/// one chrono represents.
pub open spec fn purge_clock(now: UtcTime) -> bool {
    now.valid() && representable(now.secs - 86_400, now.nanos as int)
}

/// Whether a workspace seeded at `created_at` is younger than a day at `now`
/// (`created_at > now - 24h`).
pub open spec fn still_fresh(created_at: UtcTime, now: UtcTime) -> bool {
    created_at.secs > now.secs - 86_400 || (created_at.secs == now.secs - 86_400 && created_at.nanos > now.nanos)
}

/// The sessions of `m` that are still fresh at `now`.
pub open spec fn fresh_sessions(m: Map<Seq<char>, DemoWorkspace>, now: UtcTime) -> Map<Seq<char>, DemoWorkspace> {
    Map::new(|k: Seq<char>| m.dom().contains(k) && still_fresh(m[k].created_at, now), |k: Seq<char>| m[k])
}

spec fn fresh_entries(s: Seq<DemoEntry>, now: UtcTime) -> Seq<DemoEntry>
    decreases s.len(),
{
    if s.len() == 0 {
        seq![]
    } else {
        let rest = fresh_entries(s.drop_last(), now);
        if still_fresh(s.last().workspace.created_at, now) { rest.push(s.last()) } else { rest }
    }
}

proof fn lemma_fresh_entries(s: Seq<DemoEntry>, now: UtcTime)
    requires
        ids_unique(s),
    ensures
        ids_unique(fresh_entries(s, now)),
        sessions_of(fresh_entries(s, now)) == fresh_sessions(sessions_of(s), now),
        forall|a: int| 0 <= a < fresh_entries(s, now).len() ==> exists|b: int| 0 <= b < s.len() && #[trigger] fresh_entries(s, now)[a] == s[b],
    decreases s.len(),
{
    let f = fresh_entries(s, now);
    if s.len() == 0 {
        assert(sessions_of(f) =~= fresh_sessions(sessions_of(s), now));
    } else {
        let p = s.drop_last();
        let x = s.last();
        assert(s =~= p.push(x));
        assert forall|a: int, b: int| 0 <= a < p.len() && 0 <= b < p.len() && a != b implies (#[trigger] p[a]).id@
            != (#[trigger] p[b]).id@ by {
            assert(p[a] == s[a] && p[b] == s[b]);
        }
        assert(!lists_session(p, x.id@)) by {
            if lists_session(p, x.id@) {
                let a = choose|a: int| 0 <= a < p.len() && (#[trigger] p[a]).id@ == x.id@;
                assert(p[a] == s[a] && s[s.len() - 1] == x);
            }
        }
        lemma_fresh_entries(p, now);
        lemma_sessions_push(p, x);
        let fp = fresh_entries(p, now);
        let mp = sessions_of(p);
        if still_fresh(x.workspace.created_at, now) {
            assert(f == fp.push(x));
            assert(!lists_session(fp, x.id@)) by {
                if lists_session(fp, x.id@) {
                    let a = choose|a: int| 0 <= a < fp.len() && (#[trigger] fp[a]).id@ == x.id@;
                    let b = choose|b: int| 0 <= b < p.len() && fp[a] == #[trigger] p[b];
                    assert(p[b].id@ == x.id@);
                }
            }
            lemma_sessions_push(fp, x);
            assert(sessions_of(f) =~= fresh_sessions(mp.insert(x.id@, x.workspace), now));
            assert forall|a: int| 0 <= a < f.len() implies exists|b: int| 0 <= b < s.len() && #[trigger] f[a] == s[b] by {
                if a < fp.len() {
                    assert(f[a] == fp[a]);
                    let b = choose|b: int| 0 <= b < p.len() && fp[a] == #[trigger] p[b];
                    assert(s[b] == p[b]);
                } else {
                    assert(f[a] == s[s.len() - 1]);
                }
            }
        } else {
            assert(f == fp);
            assert(!mp.dom().contains(x.id@));
            assert(sessions_of(f) =~= fresh_sessions(mp.insert(x.id@, x.workspace), now));
            assert forall|a: int| 0 <= a < f.len() implies exists|b: int| 0 <= b < s.len() && #[trigger] f[a] == s[b] by {
                let b = choose|b: int| 0 <= b < p.len() && fp[a] == #[trigger] p[b];
                assert(s[b] == p[b]);
            }
        }
    }
}

fn is_fresh(created_at: UtcTime, now: UtcTime) -> (r: bool)
    requires
        purge_clock(now),
    ensures
        r == still_fresh(created_at, now),
{
    let cutoff: i64 = now.secs - 86_400;
    created_at.secs > cutoff || (created_at.secs == cutoff && created_at.nanos > now.nanos)
}

// ---------------------------------------------------------------- the store

/// An instant at which a session can be seeded and its expiry, a day later,
/// written out.
pub open spec fn session_clock(now: UtcTime) -> bool {
    seed_clock(now) && now.secs + 86_400 <= chrono_max_secs()
}

/// When a workspace seeded at `created_at` expires: a day later.
pub open spec fn expiry_of(created_at: UtcTime) -> UtcTime {
    UtcTime { secs: (created_at.secs + 86_400) as i64, nanos: created_at.nanos }
}

/// What a client learns of a session when it is created or reset.
pub struct DemoSessionInfo {
    pub workspace_id: String,
    pub expires_at: String,
    pub summary: Summary,
}

pub open spec fn describes(info: DemoSessionInfo, id: Seq<char>, w: DemoWorkspace) -> bool {
    &&& info.workspace_id@ == id
    &&& info.expires_at@ == time_text(expiry_of(w.created_at))
    &&& info.summary == workspace_summary(w)
}

/// The demo sessions, by id.
pub struct DemoStore {
    entries: Vec<DemoEntry>,
}

impl View for DemoStore {
    type V = Map<Seq<char>, DemoWorkspace>;

    closed spec fn view(&self) -> Map<Seq<char>, DemoWorkspace> {
        sessions_of(self.entries@)
    }
}

impl DemoStore {
    /// Ids are distinct and every workspace keeps its counters in range.
    pub closed spec fn wf(&self) -> bool {
        &&& ids_unique(self.entries@)
        &&& forall|i: int| 0 <= i < self.entries@.len() ==> (#[trigger] self.entries@[i]).workspace.wf()
    }

    /// Every workspace of a well-formed store keeps its counters in range.
    pub proof fn lemma_workspaces_wf(&self)
        requires
            self.wf(),
        ensures
            forall|k: Seq<char>| #[trigger] self@.dom().contains(k) ==> self@[k].wf(),
    {
        assert forall|k: Seq<char>| #[trigger] self@.dom().contains(k) implies self@[k].wf() by {
            let a = choose|a: int| 0 <= a < self.entries@.len() && (#[trigger] self.entries@[a]).id@ == k;
            lemma_session_at(self.entries@, a);
        }
    }

    /// A store without sessions.
    pub fn new() -> (s: Self)
        ensures
            s.wf(),
            s@ == Map::<Seq<char>, DemoWorkspace>::empty(),
    {
        let s = DemoStore { entries: Vec::new() };
        assert(s@ =~= Map::<Seq<char>, DemoWorkspace>::empty());
        s
    }

    fn position(&self, id: &str) -> (r: Option<usize>)
        ensures
            match r {
                Some(i) => i < self.entries@.len() && self.entries@[i as int].id@ == id@,
                None => !lists_session(self.entries@, id@),
            },
    {
        let mut i: usize = 0;
        while i < self.entries.len()
            invariant
                i <= self.entries@.len(),
                forall|k: int| 0 <= k < i ==> (#[trigger] self.entries@[k]).id@ != id@,
            decreases self.entries.len() - i,
        {
            if crate::text::same_text(self.entries[i].id.as_str(), id) {
                return Some(i);
            }
            i = i + 1;
        }
        None
    }

    /// Whether a session with this id exists.
    pub fn contains(&self, id: &str) -> (r: bool)
        ensures
            r == self@.dom().contains(id@),
    {
        self.position(id).is_some()
    }

    /// The workspace of a session.
    pub fn workspace(&self, id: &str) -> (r: Option<&DemoWorkspace>)
        requires
            self.wf(),
        ensures
            match r {
                Some(w) => self@.dom().contains(id@) && *w == self@[id@],
                None => !self@.dom().contains(id@),
            },
    {
        match self.position(id) {
            Some(i) => {
                proof {
                    lemma_session_at(self.entries@, i as int);
                }
                Some(&self.entries[i].workspace)
            },
            None => None,
        }
    }

    /// Stores a freshly seeded workspace under `id`, replacing any session
    /// that had the same id.
    pub fn create_session(&mut self, id: String, now: UtcTime) -> (r: DemoSessionInfo)
        requires
            old(self).wf(),
            session_clock(now),
        ensures
            final(self).wf(),
            final(self)@.dom() == old(self)@.dom().insert(id@),
            final(self)@.remove(id@) == old(self)@.remove(id@),
            is_seeded(final(self)@[id@], now),
            describes(r, id@, final(self)@[id@]),
    {
        let workspace = seeded_demo_workspace(now);
        let info = DemoSessionInfo {
            workspace_id: id.clone(),
            expires_at: format_rfc3339(UtcTime { secs: now.secs + 86_400, nanos: now.nanos }),
            summary: demo_summary(&workspace),
        };
        let ghost before = self.entries@;
        match self.position(id.as_str()) {
            Some(i) => {
                let _ = self.entries.remove(i);
                self.entries.insert(i, DemoEntry { id, workspace });
                proof {
                    let e = self.entries@[i as int];
                    assert(self.entries@ =~= before.update(i as int, e));
                    lemma_sessions_update(before, i as int, e);
                    lemma_session_at(self.entries@, i as int);
                }
            },
            None => {
                self.entries.push(DemoEntry { id, workspace });
                proof {
                    let e = self.entries@.last();
                    assert(self.entries@ =~= before.push(e));
                    lemma_sessions_push(before, e);
                    lemma_session_at(self.entries@, before.len() as int);
                }
            },
        }
        assert(self@.dom() =~= old(self)@.dom().insert(id@));
        assert(self@.remove(id@) =~= old(self)@.remove(id@));
        info
    }

    /// Opens a session under a fresh random id of 32 ASCII letters and
    /// digits, holding the seeded workspace.
    pub fn open_session(&mut self, now: UtcTime) -> (r: DemoSessionInfo)
        requires
            old(self).wf(),
            session_clock(now),
        ensures
            final(self).wf(),
            r.workspace_id@.len() == 32,
            forall|i: int| 0 <= i < 32 ==> is_ascii_alnum(#[trigger] r.workspace_id@[i]),
            final(self)@.dom() == old(self)@.dom().insert(r.workspace_id@),
            final(self)@.remove(r.workspace_id@) == old(self)@.remove(r.workspace_id@),
            is_seeded(final(self)@[r.workspace_id@], now),
            describes(r, r.workspace_id@, final(self)@[r.workspace_id@]),
    {
        let id = random_alphanumeric(32);
        let ghost drawn = id@;
        let info = self.create_session(id, now);
        assert(info.workspace_id@ == drawn);
        info
    }

    /// Ends a session.
    pub fn discard(&mut self, id: &str) -> (r: Result<(), AppError>)
        requires
            old(self).wf(),
        ensures
            final(self).wf(),
            r is Ok <==> old(self)@.dom().contains(id@),
            r matches Err(e) ==> e is NotFound,
            final(self)@ == old(self)@.remove(id@),
    {
        let ghost before = self.entries@;
        match self.position(id) {
            Some(i) => {
                let _ = self.entries.remove(i);
                proof {
                    lemma_sessions_remove(before, i as int);
                }
                Ok(())
            },
            None => {
                assert(old(self)@.remove(id@) =~= old(self)@);
                Err(AppError::NotFound)
            },
        }
    }

    /// Puts an existing session back to the seeded workspace.
    pub fn reset(&mut self, id: &str, now: UtcTime) -> (r: Result<DemoSessionInfo, AppError>)
        requires
            old(self).wf(),
            session_clock(now),
        ensures
            final(self).wf(),
            final(self)@.dom() == old(self)@.dom(),
            final(self)@.remove(id@) == old(self)@.remove(id@),
            match r {
                Ok(info) => {
                    &&& old(self)@.dom().contains(id@)
                    &&& is_seeded(final(self)@[id@], now)
                    &&& describes(info, id@, final(self)@[id@])
                },
                Err(e) => !old(self)@.dom().contains(id@) && e is NotFound && final(self)@ == old(self)@,
            },
    {
        let ghost before = self.entries@;
        match self.position(id) {
            None => Err(AppError::NotFound),
            Some(i) => {
                let workspace = seeded_demo_workspace(now);
                let info = DemoSessionInfo {
                    workspace_id: id.to_owned(),
                    expires_at: format_rfc3339(UtcTime { secs: now.secs + 86_400, nanos: now.nanos }),
                    summary: demo_summary(&workspace),
                };
                let old_entry = self.entries.remove(i);
                self.entries.insert(i, DemoEntry { id: old_entry.id, workspace });
                proof {
                    let e = self.entries@[i as int];
                    assert(self.entries@ =~= before.update(i as int, e));
                    lemma_sessions_update(before, i as int, e);
                    lemma_session_at(self.entries@, i as int);
                    lemma_session_at(before, i as int);
                }
                assert(self@.dom() =~= old(self)@.dom());
                assert(self@.remove(id@) =~= old(self)@.remove(id@));
                Ok(info)
            },
        }
    }
    /// Drops every session seeded a day or more before `now`.
    pub fn purge_expired(&mut self, now: UtcTime)
        requires
            old(self).wf(),
            purge_clock(now),
        ensures
            final(self).wf(),
            final(self)@ == fresh_sessions(old(self)@, now),
    {
        let ghost orig = self.entries@;
        let n: usize = self.entries.len();
        let mut rest: Vec<DemoEntry> = Vec::new();
        std::mem::swap(&mut rest, &mut self.entries);
        let mut kept: Vec<DemoEntry> = Vec::new();
        let mut i: usize = 0;
        while rest.len() > 0
            invariant
                orig.len() == n,
                i <= n,
                rest@ == orig.skip(i as int),
                kept@ == fresh_entries(orig.take(i as int), now),
                purge_clock(now),
            decreases rest.len(),
        {
            assert(orig.take(i as int + 1).drop_last() =~= orig.take(i as int));
            let x = rest.remove(0);
            assert(x == orig[i as int]);
            assert(rest@ =~= orig.skip(i as int + 1));
            if is_fresh(x.workspace.created_at, now) {
                kept.push(x);
            }
            i = i + 1;
        }
        assert(orig.take(i as int) =~= orig);
        self.entries = kept;
        proof {
            lemma_fresh_entries(orig, now);
            assert forall|a: int| 0 <= a < self.entries@.len() implies (#[trigger] self.entries@[a]).workspace.wf() by {
                let b = choose|b: int| 0 <= b < orig.len() && self.entries@[a] == #[trigger] orig[b];
            }
        }
    }

    /// Acknowledges a fingerprint of a session at `now`.
    pub fn acknowledge(&mut self, id: &str, fingerprint: &str, now: UtcTime) -> (r: Result<(), AppError>)
        requires
            old(self).wf(),
            now.valid(),
        ensures
            final(self).wf(),
            final(self)@.dom() == old(self)@.dom(),
            final(self)@.remove(id@) == old(self)@.remove(id@),
            match r {
                Ok(()) => old(self)@.dom().contains(id@) && acknowledged_in(old(self)@[id@], final(self)@[id@], fingerprint@, time_text(now)),
                Err(e) => {
                    &&& e is NotFound
                    &&& final(self)@ == old(self)@
                    &&& old(self)@.dom().contains(id@) ==> fingerprint_index(old(self)@[id@].fingerprints@, fingerprint@, 0)
                        == old(self)@[id@].fingerprints@.len()
                },
            },
    {
        let i = match self.position(id) {
            Some(i) => i,
            None => return Err(AppError::NotFound),
        };
        let when = format_rfc3339(now);
        let ghost before = self.entries@;
        let mut entry = self.entries.remove(i);
        let found = acknowledge_in(&mut entry.workspace, fingerprint, when);
        self.entries.insert(i, entry);
        proof {
            assert(self.entries@ =~= before.update(i as int, self.entries@[i as int]));
            lemma_replaced(before, self.entries@, i as int);
        }
        if found {
            Ok(())
        } else {
            assert(self.entries@ =~= before);
            Err(AppError::NotFound)
        }
    }

    /// Changes a fingerprint's severity and target in a session.
    pub fn triage(&mut self, id: &str, fingerprint: &str, severity: String, target_minutes: i64) -> (r: Result<(), AppError>)
        requires
            old(self).wf(),
        ensures
            final(self).wf(),
            final(self)@.dom() == old(self)@.dom(),
            final(self)@.remove(id@) == old(self)@.remove(id@),
            match triage_refusal(severity@, target_minutes as int) {
                Some(reason) => r matches Err(e) && is_invalid(e, reason) && final(self)@ == old(self)@,
                None => match r {
                    Ok(()) => old(self)@.dom().contains(id@) && triaged_in(old(self)@[id@], final(self)@[id@], fingerprint@, severity, target_minutes),
                    Err(e) => {
                        &&& e is NotFound
                        &&& final(self)@ == old(self)@
                        &&& old(self)@.dom().contains(id@) ==> fingerprint_index(old(self)@[id@].fingerprints@, fingerprint@, 0)
                            == old(self)@[id@].fingerprints@.len()
                    },
                },
            },
    {
        match validate_triage(severity.as_str(), target_minutes) {
            Err(e) => return Err(e),
            Ok(()) => {},
        }
        let i = match self.position(id) {
            Some(i) => i,
            None => return Err(AppError::NotFound),
        };
        let ghost before = self.entries@;
        let mut entry = self.entries.remove(i);
        let found = triage_in(&mut entry.workspace, fingerprint, severity, target_minutes);
        self.entries.insert(i, entry);
        proof {
            assert(self.entries@ =~= before.update(i as int, self.entries@[i as int]));
            lemma_replaced(before, self.entries@, i as int);
        }
        if found {
            Ok(())
        } else {
            assert(self.entries@ =~= before);
            Err(AppError::NotFound)
        }
    }

    /// Removes an endpoint of a session with its fingerprints and events.
    pub fn remove_endpoint(&mut self, id: &str, endpoint_id: i64) -> (r: Result<(), AppError>)
        requires
            old(self).wf(),
        ensures
            final(self).wf(),
            final(self)@.dom() == old(self)@.dom(),
            final(self)@.remove(id@) == old(self)@.remove(id@),
            match r {
                Ok(()) => {
                    &&& old(self)@.dom().contains(id@)
                    &&& has_endpoint(old(self)@[id@].endpoints@, endpoint_id)
                    &&& endpoint_removed(old(self)@[id@], final(self)@[id@], endpoint_id)
                },
                Err(e) => {
                    &&& e is NotFound
                    &&& final(self)@ == old(self)@
                    &&& old(self)@.dom().contains(id@) ==> !has_endpoint(old(self)@[id@].endpoints@, endpoint_id)
                },
            },
    {
        let i = match self.position(id) {
            Some(i) => i,
            None => return Err(AppError::NotFound),
        };
        let ghost before = self.entries@;
        let mut entry = self.entries.remove(i);
        let found = remove_endpoint_in(&mut entry.workspace, endpoint_id);
        self.entries.insert(i, entry);
        proof {
            assert(self.entries@ =~= before.update(i as int, self.entries@[i as int]));
            lemma_replaced(before, self.entries@, i as int);
        }
        if found {
            Ok(())
        } else {
            assert(self.entries@ =~= before);
            Err(AppError::NotFound)
        }
    }

    /// Replaces a session's settings after checking them.
    pub fn update_settings(&mut self, id: &str, input: SettingsUpdate) -> (r: Result<(), AppError>)
        requires
            old(self).wf(),
        ensures
            final(self).wf(),
            final(self)@.dom() == old(self)@.dom(),
            final(self)@.remove(id@) == old(self)@.remove(id@),
            match demo_settings_refusal(input) {
                Some(reason) => r matches Err(e) && is_invalid(e, reason) && final(self)@ == old(self)@,
                None => match r {
                    Ok(()) => old(self)@.dom().contains(id@) && settings_replaced(old(self)@[id@], final(self)@[id@], input),
                    Err(e) => e is NotFound && !old(self)@.dom().contains(id@) && final(self)@ == old(self)@,
                },
            },
    {
        match check_demo_settings(&input) {
            Err(e) => return Err(e),
            Ok(()) => {},
        }
        let i = match self.position(id) {
            Some(i) => i,
            None => return Err(AppError::NotFound),
        };
        let ghost before = self.entries@;
        let mut entry = self.entries.remove(i);
        replace_settings_in(&mut entry.workspace, input);
        self.entries.insert(i, entry);
        proof {
            assert(self.entries@ =~= before.update(i as int, self.entries@[i as int]));
            lemma_replaced(before, self.entries@, i as int);
        }
        Ok(())
    }

    /// Sends a session's demo digest, returning how many fingerprints it
    /// covered.
    pub fn send_digest(&mut self, id: &str) -> (r: Result<usize, AppError>)
        requires
            old(self).wf(),
        ensures
            final(self).wf(),
            final(self)@.dom() == old(self)@.dom(),
            final(self)@.remove(id@) == old(self)@.remove(id@),
            match r {
                Ok(sent) => {
                    &&& old(self)@.dom().contains(id@)
                    &&& sent == due_count(old(self)@[id@].fingerprints@)
                    &&& digested(old(self)@[id@], final(self)@[id@])
                },
                Err(e) => e is NotFound && !old(self)@.dom().contains(id@) && final(self)@ == old(self)@,
            },
    {
        let i = match self.position(id) {
            Some(i) => i,
            None => return Err(AppError::NotFound),
        };
        let ghost before = self.entries@;
        let mut entry = self.entries.remove(i);
        let sent = send_digest_in(&mut entry.workspace);
        self.entries.insert(i, entry);
        proof {
            assert(self.entries@ =~= before.update(i as int, self.entries@[i as int]));
            lemma_replaced(before, self.entries@, i as int);
        }
        Ok(sent)
    }
}

} // verus!
