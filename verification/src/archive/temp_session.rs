//! Session folders for files opened from archives.
use crate::path::{join, join_of};
use crate::text::{append_str, chars_eq, chars_of, str_eq_chars, string_of, strip_prefix, strip_prefix_of};
use vstd::prelude::*;

verus! {

/// The folder of session `session_id` under the sessions root.
pub fn session_path(sessions_root: &str, session_id: &str) -> (res: String)
    ensures
        res@ == join(sessions_root@, "session-"@ + session_id@),
{
    let mut name = chars_of("session-");
    append_str(&mut name, session_id);
    let j = join_of(&chars_of(sessions_root), &name);
    string_of(&j)
}

/// Whether a folder under the sessions root is a session folder.
pub fn is_session_dir_name(name: &str) -> (res: bool)
    ensures
        res == (strip_prefix(name@, "session-"@) is Some),
{
    strip_prefix_of(&chars_of(name), &chars_of("session-")).is_some()
}


/// Whether a folder under the sessions root is to be removed as stale: a
/// session folder last modified (seconds since the epoch) before `now` less
/// `max_age_hours` (the epoch, where that is earlier).
pub fn is_stale_session(name: &str, modified_secs: u64, now_secs: u64, max_age_hours: u64) -> (res: bool)
    requires
        max_age_hours * 3600 <= u64::MAX,
    ensures
        res == (strip_prefix(name@, "session-"@) is Some && modified_secs < (if now_secs >= max_age_hours * 3600 {
            now_secs - max_age_hours * 3600
        } else {
            0
        })),
{
    if !is_session_dir_name(name) {
        return false;
    }
    let age: u64 = max_age_hours * 3600;
    let cutoff: u64 = if now_secs >= age { now_secs - age } else { 0 };
    modified_secs < cutoff
}

/// How long an extraction session stays after its last use (milliseconds).
pub const SESSION_IDLE_TTL_MS: u64 = 1800000u64;

/// An extraction session of an archive: its id, the archive's fingerprint and
/// when it was last used (milliseconds).
#[derive(Debug, Clone)]
pub struct SessionInfo {
    pub session_id: String,
    pub archive_hash: String,
    pub last_access: u64,
}

impl SessionInfo {
    /// A copy of the record.
    pub fn copy(&self) -> (res: SessionInfo)
        ensures
            session_view(res) == session_view(*self),
    {
        SessionInfo {
            session_id: self.session_id.clone(),
            archive_hash: self.archive_hash.clone(),
            last_access: self.last_access,
        }
    }
}

/// The view of a session: (archive fingerprint, session id, last use).
pub open spec fn session_view(s: SessionInfo) -> (Seq<char>, Seq<char>, u64) {
    (s.archive_hash@, s.session_id@, s.last_access)
}

/// Whether a session last used at `last` is idle at `now`.
pub open spec fn is_idle(last: u64, now: u64) -> bool {
    now >= last && now - last > SESSION_IDLE_TTL_MS
}

/// The sessions still in use at `now`, in order.
pub open spec fn fresh_sessions(s: Seq<(Seq<char>, Seq<char>, u64)>, now: u64) -> Seq<(Seq<char>, Seq<char>, u64)>
    decreases s.len(),
{
    if s.len() == 0 {
        s
    } else if is_idle(s.last().2, now) {
        fresh_sessions(s.drop_last(), now)
    } else {
        fresh_sessions(s.drop_last(), now).push(s.last())
    }
}

/// The ids of the idle sessions at `now`, in order.
pub open spec fn idle_ids(s: Seq<(Seq<char>, Seq<char>, u64)>, now: u64) -> Seq<Seq<char>>
    decreases s.len(),
{
    if s.len() == 0 {
        Seq::empty()
    } else if is_idle(s.last().2, now) {
        idle_ids(s.drop_last(), now).push(s.last().1)
    } else {
        idle_ids(s.drop_last(), now)
    }
}

/// No archive has two sessions.
pub open spec fn hashes_distinct(s: Seq<(Seq<char>, Seq<char>, u64)>) -> bool {
    forall|i: int, j: int| 0 <= i < j < s.len() ==> #[trigger] s[i].0 != #[trigger] s[j].0
}

/// Whether `v1` is `v0` with `rec` recorded: the record of its archive
/// replaced where there is one, else `rec` added at the end.
pub open spec fn recorded(v0: Seq<(Seq<char>, Seq<char>, u64)>, v1: Seq<(Seq<char>, Seq<char>, u64)>, rec: (Seq<char>, Seq<char>, u64)) -> bool {
    ||| exists|i: int| 0 <= i < v0.len() && #[trigger] v0[i].0 == rec.0 && v1 == v0.update(i, rec)
    ||| (forall|i: int| 0 <= i < v0.len() ==> #[trigger] v0[i].0 != rec.0) && v1 == v0.push(rec)
}

/// The extraction sessions, one per archive.
pub struct SessionTable {
    pub sessions: Vec<SessionInfo>,
}

impl SessionTable {
    /// The sessions' views, in order.
    pub open spec fn view(&self) -> Seq<(Seq<char>, Seq<char>, u64)> {
        self.sessions@.map_values(|s: SessionInfo| session_view(s))
    }

    /// No session yet.
    pub fn new() -> (res: Self)
        ensures
            res.view().len() == 0,
            hashes_distinct(res.view()),
    {
        SessionTable { sessions: Vec::new() }
    }

    /// Drops the sessions idle at `now` and returns their ids, whose folders
    /// are to be removed.
    pub fn prune_idle_sessions(&mut self, now: u64) -> (dropped: Vec<String>)
        ensures
            final(self).view() == fresh_sessions(old(self).view(), now),
            dropped@.map_values(|s: String| s@) == idle_ids(old(self).view(), now),
            hashes_distinct(old(self).view()) ==> hashes_distinct(final(self).view()),
    {
        proof {
            lemma_fresh_distinct(self.view(), now);
        }
        let ghost v0 = self.view();
        let mut kept: Vec<SessionInfo> = Vec::new();
        let mut dropped: Vec<String> = Vec::new();
        let mut i: usize = 0;
        while i < self.sessions.len()
            invariant
                i <= self.sessions@.len(),
                v0 == self.view(),
                kept@.map_values(|s: SessionInfo| session_view(s)) == fresh_sessions(v0.take(i as int), now),
                dropped@.map_values(|s: String| s@) == idle_ids(v0.take(i as int), now),
            decreases self.sessions@.len() - i,
        {
            let info = self.sessions[i].copy();
            assert(v0.take(i + 1).drop_last() =~= v0.take(i as int));
            assert(v0[i as int] == session_view(self.sessions@[i as int]));
            let idle = now >= info.last_access && now - info.last_access > SESSION_IDLE_TTL_MS;
            let ghost kb = kept@;
            let ghost db = dropped@;
            if idle {
                dropped.push(info.session_id);
                assert(dropped@.map_values(|s: String| s@) =~= db.map_values(|s: String| s@).push(v0[i as int].1));
            } else {
                let ghost iv = session_view(info);
                kept.push(info);
                assert(kept@.map_values(|s: SessionInfo| session_view(s)) =~= kb.map_values(|s: SessionInfo| session_view(s)).push(iv));
            }
            i = i + 1;
        }
        assert(v0.take(self.sessions@.len() as int) =~= v0);
        self.sessions = kept;
        dropped
    }

    /// The session of an archive, if it has one.
    pub fn session_of(&self, archive_hash: &str) -> (res: Option<String>)
        ensures
            match res {
                Some(id) => exists|i: int| 0 <= i < self.view().len() && #[trigger] self.view()[i].0 == archive_hash@ && self.view()[i].1 == id@,
                None => forall|i: int| 0 <= i < self.view().len() ==> #[trigger] self.view()[i].0 != archive_hash@,
            },
    {
        let h = chars_of(archive_hash);
        let mut i: usize = 0;
        while i < self.sessions.len()
            invariant
                i <= self.sessions@.len(),
                h@ == archive_hash@,
                forall|j: int| 0 <= j < i ==> #[trigger] self.view()[j].0 != archive_hash@,
            decreases self.sessions@.len() - i,
        {
            assert(self.view()[i as int] == session_view(self.sessions@[i as int]));
            if str_eq_chars(self.sessions[i].archive_hash.as_str(), &h) {
                let id = self.sessions[i].session_id.clone();
                assert(self.view()[i as int].0 == archive_hash@);
                return Some(id);
            }
            i = i + 1;
        }
        None
    }

    /// Records that an archive's session is `session_id`, used at `now`: its
    /// record is replaced, or a new one added at the end.
    pub fn record(&mut self, archive_hash: &str, session_id: &str, now: u64)
        ensures
            recorded(old(self).view(), final(self).view(), (archive_hash@, session_id@, now)),
            hashes_distinct(old(self).view()) ==> hashes_distinct(final(self).view()),
    {
        let h = chars_of(archive_hash);
        let info = SessionInfo {
            session_id: String::from_str(session_id),
            archive_hash: String::from_str(archive_hash),
            last_access: now,
        };
        let ghost rec = session_view(info);
        let ghost v0 = self.view();
        let mut i: usize = 0;
        while i < self.sessions.len()
            invariant
                i <= self.sessions@.len(),
                h@ == archive_hash@,
                v0 == self.view(),
                rec == (archive_hash@, session_id@, now),
                session_view(info) == rec,
                v0 == old(self).view(),
                forall|j: int| 0 <= j < i ==> #[trigger] v0[j].0 != archive_hash@,
            decreases self.sessions@.len() - i,
        {
            assert(v0[i as int] == session_view(self.sessions@[i as int]));
            if str_eq_chars(self.sessions[i].archive_hash.as_str(), &h) {
                assert(v0[i as int].0 == archive_hash@);
                self.sessions.set(i, info);
                assert(self.view() =~= v0.update(i as int, rec));
                assert(recorded(v0, self.view(), rec));
                proof {
                    if hashes_distinct(v0) {
                        lemma_record_keeps_one_per_archive(v0, self.view(), rec);
                    }
                }
                return;
            }
            i = i + 1;
        }
        self.sessions.push(info);
        assert(self.view() =~= v0.push(rec));
        proof {
            if hashes_distinct(v0) {
                lemma_record_keeps_one_per_archive(v0, self.view(), rec);
            }
        }
    }

    /// Forgets the sessions with id `session_id`.
    pub fn forget_session(&mut self, session_id: &str)
        ensures
            final(self).view() == old(self).view().filter(|s: (Seq<char>, Seq<char>, u64)| s.1 != session_id@),
            hashes_distinct(old(self).view()) ==> hashes_distinct(final(self).view()),
    {
        proof {
            lemma_filter_distinct(self.view(), |s: (Seq<char>, Seq<char>, u64)| s.1 != session_id@);
        }
        let ghost v0 = self.view();
        let ghost pred = |s: (Seq<char>, Seq<char>, u64)| s.1 != session_id@;
        let id = chars_of(session_id);
        let mut kept: Vec<SessionInfo> = Vec::new();
        let mut i: usize = 0;
        while i < self.sessions.len()
            invariant
                i <= self.sessions@.len(),
                v0 == self.view(),
                id@ == session_id@,
                pred == (|s: (Seq<char>, Seq<char>, u64)| s.1 != session_id@),
                kept@.map_values(|s: SessionInfo| session_view(s)) == v0.take(i as int).filter(pred),
            decreases self.sessions@.len() - i,
        {
            reveal(Seq::filter);
            assert(v0.take(i + 1).drop_last() =~= v0.take(i as int));
            assert(v0[i as int] == session_view(self.sessions@[i as int]));
            let ghost kb = kept@;
            if !str_eq_chars(self.sessions[i].session_id.as_str(), &id) {
                let info = self.sessions[i].copy();
                kept.push(info);
                assert(kept@.map_values(|s: SessionInfo| session_view(s)) =~= kb.map_values(|s: SessionInfo| session_view(s)).push(v0[i as int]));
            }
            i = i + 1;
        }
        assert(v0.take(self.sessions@.len() as int) =~= v0);
        self.sessions = kept;
    }
}


proof fn lemma_fresh_in(s: Seq<(Seq<char>, Seq<char>, u64)>, now: u64)
    ensures
        forall|k: int| 0 <= k < fresh_sessions(s, now).len() ==> s.contains(#[trigger] fresh_sessions(s, now)[k]),
    decreases s.len(),
{
    if s.len() > 0 {
        lemma_fresh_in(s.drop_last(), now);
        let f = fresh_sessions(s.drop_last(), now);
        assert forall|k: int| 0 <= k < fresh_sessions(s, now).len() implies s.contains(#[trigger] fresh_sessions(s, now)[k]) by {
            if k < f.len() {
                assert(s.drop_last().contains(f[k]));
                let j = choose|j: int| 0 <= j < s.drop_last().len() && s.drop_last()[j] == f[k];
                assert(s[j] == f[k]);
            } else {
                assert(s[s.len() - 1] == s.last());
            }
        }
    }
}

/// Pruning keeps one session per archive.
proof fn lemma_fresh_distinct(s: Seq<(Seq<char>, Seq<char>, u64)>, now: u64)
    ensures
        hashes_distinct(s) ==> hashes_distinct(fresh_sessions(s, now)),
    decreases s.len(),
{
    if s.len() > 0 && hashes_distinct(s) {
        let p = s.drop_last();
        assert(hashes_distinct(p)) by {
            assert forall|i: int, j: int| 0 <= i < j < p.len() implies #[trigger] p[i].0 != #[trigger] p[j].0 by {
                assert(s[i].0 != s[j].0);
            }
        }
        lemma_fresh_distinct(p, now);
        lemma_fresh_in(p, now);
        let f = fresh_sessions(p, now);
        if !is_idle(s.last().2, now) {
            let g = f.push(s.last());
            assert forall|i: int, j: int| 0 <= i < j < g.len() implies #[trigger] g[i].0 != #[trigger] g[j].0 by {
                if j == f.len() {
                    assert(p.contains(f[i]));
                    let q = choose|q: int| 0 <= q < p.len() && p[q] == f[i];
                    assert(s[q].0 != s[s.len() - 1].0);
                } else {
                    assert(f[i].0 != f[j].0);
                }
            }
        }
    }
}

proof fn lemma_filter_in(s: Seq<(Seq<char>, Seq<char>, u64)>, pred: spec_fn((Seq<char>, Seq<char>, u64)) -> bool)
    ensures
        forall|k: int| 0 <= k < s.filter(pred).len() ==> s.contains(#[trigger] s.filter(pred)[k]),
    decreases s.len(),
{
    reveal(Seq::filter);
    if s.len() > 0 {
        lemma_filter_in(s.drop_last(), pred);
        let f = s.drop_last().filter(pred);
        assert forall|k: int| 0 <= k < s.filter(pred).len() implies s.contains(#[trigger] s.filter(pred)[k]) by {
            if k < f.len() {
                assert(s.filter(pred)[k] == f[k]);
                assert(s.drop_last().contains(f[k]));
                let j = choose|j: int| 0 <= j < s.drop_last().len() && s.drop_last()[j] == f[k];
                assert(s[j] == f[k]);
            } else {
                assert(s[s.len() - 1] == s.last());
            }
        }
    }
}

/// Forgetting sessions keeps one session per archive.
proof fn lemma_filter_distinct(s: Seq<(Seq<char>, Seq<char>, u64)>, pred: spec_fn((Seq<char>, Seq<char>, u64)) -> bool)
    ensures
        hashes_distinct(s) ==> hashes_distinct(s.filter(pred)),
    decreases s.len(),
{
    reveal(Seq::filter);
    if s.len() > 0 && hashes_distinct(s) {
        let p = s.drop_last();
        assert(hashes_distinct(p)) by {
            assert forall|i: int, j: int| 0 <= i < j < p.len() implies #[trigger] p[i].0 != #[trigger] p[j].0 by {
                assert(s[i].0 != s[j].0);
            }
        }
        lemma_filter_distinct(p, pred);
        lemma_filter_in(p, pred);
        let f = p.filter(pred);
        if pred(s.last()) {
            let g = f.push(s.last());
            assert(s.filter(pred) == g);
            assert forall|i: int, j: int| 0 <= i < j < g.len() implies #[trigger] g[i].0 != #[trigger] g[j].0 by {
                if j == f.len() {
                    assert(p.contains(f[i]));
                    let q = choose|q: int| 0 <= q < p.len() && p[q] == f[i];
                    assert(s[q].0 != s[s.len() - 1].0);
                } else {
                    assert(f[i].0 != f[j].0);
                }
            }
        } else {
            assert(s.filter(pred) == f);
        }
    }
}

/// After pruning, no idle session is left.
pub proof fn lemma_pruned_sessions_are_fresh(s: Seq<(Seq<char>, Seq<char>, u64)>, now: u64)
    ensures
        forall|i: int| 0 <= i < fresh_sessions(s, now).len() ==> !is_idle(#[trigger] fresh_sessions(s, now)[i].2, now),
        fresh_sessions(s, now).len() + idle_ids(s, now).len() == s.len(),
    decreases s.len(),
{
    if s.len() > 0 {
        lemma_pruned_sessions_are_fresh(s.drop_last(), now);
    }
}

/// Recording a session keeps one session per archive.
pub proof fn lemma_record_keeps_one_per_archive(
    v0: Seq<(Seq<char>, Seq<char>, u64)>,
    v1: Seq<(Seq<char>, Seq<char>, u64)>,
    rec: (Seq<char>, Seq<char>, u64),
)
    requires
        hashes_distinct(v0),
        recorded(v0, v1, rec),
    ensures
        hashes_distinct(v1),
{
    if exists|i: int| 0 <= i < v0.len() && #[trigger] v0[i].0 == rec.0 && v1 == v0.update(i, rec) {
        let k = choose|i: int| 0 <= i < v0.len() && #[trigger] v0[i].0 == rec.0 && v1 == v0.update(i, rec);
        assert forall|i: int, j: int| 0 <= i < j < v1.len() implies #[trigger] v1[i].0 != #[trigger] v1[j].0 by {
            if i != k && j != k {
                assert(v0[i].0 != v0[j].0);
            } else if i == k {
                assert(v0[k].0 != v0[j].0);
            } else {
                assert(v0[i].0 != v0[k].0);
            }
        }
    } else {
        assert forall|i: int, j: int| 0 <= i < j < v1.len() implies #[trigger] v1[i].0 != #[trigger] v1[j].0 by {
            if j < v0.len() {
                assert(v0[i].0 != v0[j].0);
            } else {
                assert(v1[j] == rec);
                assert(v0[i].0 != rec.0);
            }
        }
    }
}

} // verus!
