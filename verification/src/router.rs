//! The session router: which provider each session's requests go to.
//!
//! A request of a session goes to the provider that the user pinned on the
//! session (its override), when there is one; otherwise it follows the global
//! provider, which the session records as its own provider.

use vstd::prelude::*;
use crate::clock::now_millis;
use crate::session::{
    ActiveSessionInfo, OverrideRecordView, PersistedData, PersistedOverride, RouteEntryView,
    SessionDiscoverySource, SessionKey, SessionRouteEntry, SessionView, copy_opt_text,
    record_pairs,
};
use crate::table::{
    has_key, keys_distinct, lemma_map_of_index, lemma_map_of_prefix, lemma_map_of_push,
    lemma_map_of_remove, lemma_map_of_update, lemma_select_step, lemma_take_all,
    lemma_take_none, map_of, select,
};
use crate::text::{
    file_key, first_chars, lemma_split_file_key, lemma_split_inverts, opt_string,
    override_file_key, split_key,
};

verus! {

/// The state of a router: the sessions seen so far and the overrides that
/// the user set, both by session key.
pub struct RouterView {
    pub sessions: Map<SessionKey, SessionView>,
    pub overrides: Map<SessionKey, Seq<char>>,
}

/// Routes each session of each kind of client to a provider.
pub struct SessionRouter {
    sessions: Vec<ActiveSessionInfo>,
    /// Each override as (app_type, session_id, provider_id).
    overrides: Vec<(String, String, String)>,
}

/// The key/value pairs that a list of sessions stands for.
pub open spec fn session_pairs(v: Seq<ActiveSessionInfo>) -> Seq<(SessionKey, SessionView)> {
    v.map_values(|x: ActiveSessionInfo| (x@.key(), x@))
}

/// The key/value pairs that a list of overrides stands for.
pub open spec fn override_pairs(v: Seq<(String, String, String)>) -> Seq<(SessionKey, Seq<char>)> {
    v.map_values(|o: (String, String, String)| ((o.0@, o.1@), o.2@))
}

/// The key/value pairs that a list of route entries stands for.
pub open spec fn entry_pairs(v: Seq<SessionRouteEntry>) -> Seq<(SessionKey, RouteEntryView)> {
    v.map_values(|e: SessionRouteEntry| (e@.key(), e@))
}

/// The texts of a list of strings.
pub open spec fn texts(v: Seq<String>) -> Seq<Seq<char>> {
    v.map_values(|s: String| s@)
}

impl View for SessionRouter {
    type V = RouterView;

    closed spec fn view(&self) -> RouterView {
        RouterView {
            sessions: map_of(session_pairs(self.sessions@)),
            overrides: map_of(override_pairs(self.overrides@)),
        }
    }
}

/// Each session is stored under its own key.
pub open spec fn sessions_keyed(m: Map<SessionKey, SessionView>) -> bool {
    forall|k: SessionKey| #[trigger] m.contains_key(k) ==> m[k].key() == k
}

/// The provider that requests of the session `k` go to: its override, or
/// else the provider it recorded.
pub open spec fn effective_provider(m: RouterView, k: SessionKey) -> Seq<char> {
    if m.overrides.contains_key(k) {
        m.overrides[k]
    } else {
        m.sessions[k].provider_id
    }
}

/// The session that a request of `(app_type, session_id)` makes known at time
/// `now`.
pub open spec fn new_session(
    app_type: Seq<char>,
    session_id: Seq<char>,
    provider_id: Seq<char>,
    display_name: Seq<char>,
    project_dir: Option<Seq<char>>,
    source: SessionDiscoverySource,
    now: i64,
) -> SessionView {
    SessionView {
        session_id,
        app_type,
        provider_id,
        display_name,
        project_dir,
        last_active_at: now,
        source,
    }
}

/// The router after `info` was recorded: it replaces what the session's key
/// held; the overrides stay.
pub open spec fn after_record(m: RouterView, info: SessionView) -> RouterView {
    RouterView { sessions: m.sessions.insert(info.key(), info), overrides: m.overrides }
}

/// The session `s` with its provider replaced by `p`.
pub open spec fn with_provider(s: SessionView, p: Seq<char>) -> SessionView {
    SessionView {
        session_id: s.session_id,
        app_type: s.app_type,
        provider_id: p,
        display_name: s.display_name,
        project_dir: s.project_dir,
        last_active_at: s.last_active_at,
        source: s.source,
    }
}

/// The router after the user pinned `k` to provider `p`: the override is set,
/// and a session under `k`, if any, records `p` as its provider.
pub open spec fn after_set_override(m: RouterView, k: SessionKey, p: Seq<char>) -> RouterView {
    RouterView {
        sessions: if m.sessions.contains_key(k) {
            m.sessions.insert(k, with_provider(m.sessions[k], p))
        } else {
            m.sessions
        },
        overrides: m.overrides.insert(k, p),
    }
}

/// The router after the override of `k` was removed.
pub open spec fn after_remove_override(m: RouterView, k: SessionKey) -> RouterView {
    RouterView { sessions: m.sessions, overrides: m.overrides.remove(k) }
}

/// The overrides that a persisted record brings back: each key that splits
/// at its first `:` into a kind of client and a session id. (A kind of client
/// that holds a `:` itself does not split back into itself.)
pub open spec fn restored_overrides(p: Map<Seq<char>, OverrideRecordView>) -> Map<SessionKey, Seq<char>> {
    Map::new(
        |k: SessionKey| !k.0.contains(':') && p.contains_key(file_key(k.0, k.1)),
        |k: SessionKey| p[file_key(k.0, k.1)].provider_id,
    )
}

/// A router started from persisted overrides: no session yet, the persisted
/// overrides back.
pub open spec fn restored(p: Map<Seq<char>, OverrideRecordView>) -> RouterView {
    RouterView { sessions: Map::empty(), overrides: restored_overrides(p) }
}

/// The record persisted when `k` is pinned to `provider_id` at `pinned_at`:
/// it keeps the display name and project directory of the session under `k`,
/// when there is one (an empty name and no directory otherwise).
pub open spec fn override_record(m: RouterView, k: SessionKey, provider_id: Seq<char>, pinned_at: i64) -> OverrideRecordView {
    OverrideRecordView {
        provider_id,
        display_name: if m.sessions.contains_key(k) {
            m.sessions[k].display_name
        } else {
            Seq::empty()
        },
        project_dir: if m.sessions.contains_key(k) {
            m.sessions[k].project_dir
        } else {
            None
        },
        pinned_at,
    }
}

/// The persisted overrides after `k` was pinned to `provider_id` at
/// `pinned_at`.
pub open spec fn after_persist(
    p: Map<Seq<char>, OverrideRecordView>,
    m: RouterView,
    k: SessionKey,
    provider_id: Seq<char>,
    pinned_at: i64,
) -> Map<Seq<char>, OverrideRecordView> {
    p.insert(file_key(k.0, k.1), override_record(m, k, provider_id, pinned_at))
}

/// Forgets the persisted override of `(app_type, session_id)`.
pub fn forget_persisted_override(data: &mut PersistedData, app_type: &str, session_id: &str)
    ensures
        final(data)@ == old(data)@.remove(file_key(app_type@, session_id@)),
{
    let key = override_file_key(app_type, session_id);
    data.remove_override(key.as_str());
}

impl SessionRouter {
    /// No session and no override is stored twice.
    #[verifier::type_invariant]
    pub closed spec fn wf(&self) -> bool {
        &&& keys_distinct(session_pairs(self.sessions@))
        &&& keys_distinct(override_pairs(self.overrides@))
    }

    /// Each session of a well-formed router is stored under its own key.
    pub proof fn lemma_sessions_keyed(&self)
        requires
            self.wf(),
        ensures
            sessions_keyed(self@.sessions),
    {
        let s = session_pairs(self.sessions@);
        assert forall|k: SessionKey| #[trigger] self@.sessions.contains_key(k) implies self@.sessions[k].key()
            == k by {
            let i = choose|i: int| 0 <= i < s.len() && #[trigger] s[i].0 == k;
            lemma_map_of_index(s, i);
        }
    }

    /// The position of the session under `(app_type, session_id)`.
    fn find_session(&self, app_type: &String, session_id: &String) -> (r: Option<usize>)
        ensures
            match r {
                Some(i) => i < self.sessions.len() && self.sessions@[i as int]@.key() == (
                    app_type@,
                    session_id@,
                ),
                None => !has_key(session_pairs(self.sessions@), (app_type@, session_id@)),
            },
    {
        proof {
            use_type_invariant(&*self);
        }
        let mut i: usize = 0;
        while i < self.sessions.len()
            invariant
                i <= self.sessions.len(),
                forall|j: int| 0 <= j < i ==> self.sessions@[j]@.key() != (app_type@, session_id@),
            decreases self.sessions.len() - i,
        {
            if self.sessions[i].app_type == *app_type && self.sessions[i].session_id == *session_id {
                return Some(i);
            }
            i = i + 1;
        }
        proof {
            let p = session_pairs(self.sessions@);
            if has_key(p, (app_type@, session_id@)) {
                let j = choose|j: int| 0 <= j < p.len() && #[trigger] p[j].0 == (app_type@, session_id@);
                assert(p[j].0 == self.sessions@[j]@.key());
            }
        }
        None
    }

    /// The position of the override of `(app_type, session_id)`.
    fn find_override(&self, app_type: &String, session_id: &String) -> (r: Option<usize>)
        ensures
            match r {
                Some(i) => i < self.overrides.len() && self.overrides@[i as int].0@ == app_type@
                    && self.overrides@[i as int].1@ == session_id@,
                None => !has_key(override_pairs(self.overrides@), (app_type@, session_id@)),
            },
    {
        proof {
            use_type_invariant(&*self);
        }
        let mut i: usize = 0;
        while i < self.overrides.len()
            invariant
                i <= self.overrides.len(),
                forall|j: int|
                    0 <= j < i ==> (self.overrides@[j].0@, self.overrides@[j].1@) != (
                        app_type@,
                        session_id@,
                    ),
            decreases self.overrides.len() - i,
        {
            if self.overrides[i].0 == *app_type && self.overrides[i].1 == *session_id {
                return Some(i);
            }
            i = i + 1;
        }
        proof {
            let p = override_pairs(self.overrides@);
            if has_key(p, (app_type@, session_id@)) {
                let j = choose|j: int| 0 <= j < p.len() && #[trigger] p[j].0 == (app_type@, session_id@);
                assert(p[j].0 == (self.overrides@[j].0@, self.overrides@[j].1@));
            }
        }
        None
    }

    /// Puts `info` under its key, replacing what was there.
    fn put_session(&mut self, info: ActiveSessionInfo)
        ensures
            final(self)@ == after_record(old(self)@, info@),
    {
        proof {
            use_type_invariant(&*self);
        }
        let ghost p = session_pairs(self.sessions@);
        let ghost v = info@;
        let found = self.find_session(&info.app_type, &info.session_id);
        let mut sessions: Vec<ActiveSessionInfo> = Vec::new();
        std::mem::swap(&mut sessions, &mut self.sessions);
        match found {
            Some(i) => {
                sessions.set(i, info);
                proof {
                    assert(session_pairs(sessions@) =~= p.update(i as int, (p[i as int].0, v)));
                    lemma_map_of_update(p, i as int, v);
                }
            },
            None => {
                sessions.push(info);
                proof {
                    assert(session_pairs(sessions@) =~= p.push((v.key(), v)));
                    lemma_map_of_push(p, v.key(), v);
                }
            },
        }
        self.sessions = sessions;
        proof {
            assert(self@.overrides == old(self)@.overrides);
        }
    }

    /// Sets the override of `(app_type, session_id)` to `provider_id`.
    fn put_override(&mut self, app_type: String, session_id: String, provider_id: String)
        ensures
            final(self)@.sessions == old(self)@.sessions,
            final(self)@.overrides == old(self)@.overrides.insert(
                (app_type@, session_id@),
                provider_id@,
            ),
    {
        proof {
            use_type_invariant(&*self);
        }
        let ghost p = override_pairs(self.overrides@);
        let ghost k = (app_type@, session_id@);
        let ghost v = provider_id@;
        let found = self.find_override(&app_type, &session_id);
        let mut overrides: Vec<(String, String, String)> = Vec::new();
        std::mem::swap(&mut overrides, &mut self.overrides);
        match found {
            Some(i) => {
                overrides.set(i, (app_type, session_id, provider_id));
                proof {
                    assert(override_pairs(overrides@) =~= p.update(i as int, (p[i as int].0, v)));
                    lemma_map_of_update(p, i as int, v);
                }
            },
            None => {
                overrides.push((app_type, session_id, provider_id));
                proof {
                    assert(override_pairs(overrides@) =~= p.push((k, v)));
                    lemma_map_of_push(p, k, v);
                }
            },
        }
        self.overrides = overrides;
    }

    /// A router brought back from persisted overrides: no session yet, and
    /// each persisted key that splits at its first `:` into a kind of client
    /// and a session id becomes an override again.
    pub fn new(persisted: &PersistedData) -> (r: Self)
        ensures
            r@ == restored(persisted@),
    {
        let mut r = SessionRouter { sessions: Vec::new(), overrides: Vec::new() };
        let entries = persisted.entries();
        let ghost pp = record_pairs(entries@);
        proof {
            assert(session_pairs(r.sessions@) =~= Seq::empty());
            assert(override_pairs(r.overrides@) =~= Seq::empty());
            lemma_take_none(pp);
            lemma_take_none(session_pairs(r.sessions@));
            assert(r@.overrides =~= restored_overrides(map_of(pp.take(0))));
        }
        let mut i: usize = 0;
        while i < entries.len()
            invariant
                pp == record_pairs(entries@),
                keys_distinct(pp),
                map_of(pp) == persisted@,
                i <= entries.len(),
                r@.sessions == Map::<SessionKey, SessionView>::empty(),
                r@.overrides == restored_overrides(map_of(pp.take(i as int))),
            decreases entries.len() - i,
        {
            proof {
                lemma_map_of_prefix(pp, i as int);
                lemma_split_inverts(pp[i as int].0);
            }
            let ghost before = map_of(pp.take(i as int));
            let ghost after = map_of(pp.take(i + 1));
            match split_key(entries[i].0.as_str()) {
                Some((app_type, session_id)) => {
                    let ghost k = (app_type@, session_id@);
                    let provider = entries[i].1.provider_id.clone();
                    r.put_override(app_type, session_id, provider);
                    proof {
                        assert forall|x: SessionKey| #[trigger] restored_overrides(after).contains_key(x) && x != k
                            implies restored_overrides(before).contains_key(x) by {
                            lemma_split_file_key(x.0, x.1);
                            assert(file_key(x.0, x.1) != pp[i as int].0);
                        }
                        assert(pp[i as int].0 == file_key(k.0, k.1));
                        assert(r@.overrides =~= restored_overrides(after));
                    }
                },
                None => {
                    proof {
                        assert forall|x: SessionKey| #[trigger] restored_overrides(after).contains_key(x)
                            implies restored_overrides(before).contains_key(x) by {
                            if file_key(x.0, x.1) == pp[i as int].0 {
                                lemma_split_file_key(x.0, x.1);
                            }
                        }
                        assert(r@.overrides =~= restored_overrides(after));
                    }
                },
            }
            i = i + 1;
        }
        proof {
            lemma_take_all(pp);
        }
        r
    }
}


/// The sessions of `app_type` whose requests go to `provider_id`.
pub open spec fn provider_sessions(m: RouterView, app_type: Seq<char>, provider_id: Seq<char>) -> Map<SessionKey, SessionView> {
    Map::new(
        |k: SessionKey| m.sessions.contains_key(k) && k.0 == app_type && effective_provider(m, k) == provider_id,
        |k: SessionKey| m.sessions[k],
    )
}

/// How the session `k` is listed, given the ids of the sessions whose client
/// process runs.
pub open spec fn route_entry(m: RouterView, k: SessionKey, alive: Seq<Seq<char>>) -> RouteEntryView {
    RouteEntryView {
        session_id: k.1,
        app_type: k.0,
        provider_id: effective_provider(m, k),
        display_name: m.sessions[k].display_name,
        project_dir: m.sessions[k].project_dir,
        last_active_at: m.sessions[k].last_active_at,
        is_routed: m.overrides.contains_key(k),
        is_alive: alive.contains(k.1),
    }
}

/// The listing of the sessions of `app_type`, by key.
pub open spec fn route_entries(m: RouterView, app_type: Seq<char>, alive: Seq<Seq<char>>) -> Map<SessionKey, RouteEntryView> {
    Map::new(
        |k: SessionKey| m.sessions.contains_key(k) && k.0 == app_type,
        |k: SessionKey| route_entry(m, k, alive),
    )
}

/// The most recently active entries come first.
pub open spec fn newest_first(v: Seq<SessionRouteEntry>) -> bool {
    forall|i: int, j: int| 0 <= i < j < v.len() ==> #[trigger] v[i].last_active_at >= #[trigger] v[j].last_active_at
}

/// The session that a persisted override stands for when no request of it
/// was seen since the start: its id (or its first 8 characters) as display
/// name when the record has none, the pin time as its last activity.
pub open spec fn restored_session(k: SessionKey, rec: OverrideRecordView) -> SessionView {
    SessionView {
        session_id: k.1,
        app_type: k.0,
        provider_id: rec.provider_id,
        display_name: if rec.display_name.len() == 0 {
            k.1.take(if k.1.len() < 8 { k.1.len() as int } else { 8 })
        } else {
            rec.display_name
        },
        project_dir: rec.project_dir,
        last_active_at: rec.pinned_at,
        source: SessionDiscoverySource::Generated,
    }
}

/// The sessions seen since the start, and, for each persisted override of a
/// session not seen since, the session it stands for.
pub open spec fn all_sessions(m: RouterView, p: Map<Seq<char>, OverrideRecordView>) -> Map<SessionKey, SessionView> {
    Map::new(
        |k: SessionKey| m.sessions.contains_key(k) || (!k.0.contains(':') && p.contains_key(file_key(k.0, k.1))),
        |k: SessionKey|
            if m.sessions.contains_key(k) {
                m.sessions[k]
            } else {
                restored_session(k, p[file_key(k.0, k.1)])
            },
    )
}

/// How old a session may get before it is dropped: `max_age_ms` for a
/// session with a made-up id, four times that for the others.
pub open spec fn stale_threshold(source: SessionDiscoverySource, max_age_ms: i64) -> int {
    match source {
        SessionDiscoverySource::Generated => max_age_ms as int,
        _ => max_age_ms * 4,
    }
}

/// The session `s` was last active longer ago than its threshold.
pub open spec fn is_stale(s: SessionView, max_age_ms: i64, now: i64) -> bool {
    now - s.last_active_at > stale_threshold(s.source, max_age_ms)
}

/// The keys of the stale sessions.
pub open spec fn stale_keys(m: RouterView, max_age_ms: i64, now: i64) -> Set<SessionKey> {
    Set::new(|k: SessionKey| m.sessions.contains_key(k) && is_stale(m.sessions[k], max_age_ms, now))
}

/// The ages and thresholds of all sessions fit in an `i64`.
pub open spec fn cleanup_in_range(m: RouterView, max_age_ms: i64, now: i64) -> bool {
    forall|k: SessionKey|
        #[trigger] m.sessions.contains_key(k) ==> {
            &&& i64::MIN <= now - m.sessions[k].last_active_at <= i64::MAX
            &&& !(m.sessions[k].source is Generated) ==> i64::MIN <= max_age_ms * 4 <= i64::MAX
        }
}

/// The router after the stale sessions, and their overrides, were dropped.
pub open spec fn after_cleanup(m: RouterView, max_age_ms: i64, now: i64) -> RouterView {
    RouterView {
        sessions: m.sessions.remove_keys(stale_keys(m, max_age_ms, now)),
        overrides: m.overrides.remove_keys(stale_keys(m, max_age_ms, now)),
    }
}

/// Whether the text `t` is one of `list`.
fn text_listed(list: &Vec<String>, t: &String) -> (r: bool)
    ensures
        r == texts(list@).contains(t@),
{
    let mut i: usize = 0;
    while i < list.len()
        invariant
            i <= list.len(),
            forall|j: int| 0 <= j < i ==> list@[j]@ != t@,
        decreases list.len() - i,
    {
        if list[i] == *t {
            proof {
                assert(texts(list@)[i as int] == t@);
            }
            return true;
        }
        i = i + 1;
    }
    proof {
        if texts(list@).contains(t@) {
            let j = choose|j: int| 0 <= j < texts(list@).len() && texts(list@)[j] == t@;
            assert(list@[j]@ == t@);
        }
    }
    false
}

/// Whether `info` is stale at `now`.
fn session_is_stale(info: &ActiveSessionInfo, max_age_ms: i64, now: i64) -> (r: bool)
    requires
        i64::MIN <= now - info.last_active_at <= i64::MAX,
        !(info.source is Generated) ==> i64::MIN <= max_age_ms * 4 <= i64::MAX,
    ensures
        r == is_stale(info@, max_age_ms, now),
{
    let age = now - info.last_active_at;
    let threshold = match info.source {
        SessionDiscoverySource::Generated => max_age_ms,
        _ => max_age_ms * 4,
    };
    age > threshold
}

impl SessionRouter {
    /// Records a session seen in a request at time `now`, replacing what was
    /// known of it. Its override, if any, stays.
    pub fn record_session_at(
        &mut self,
        app_type: &str,
        session_id: &str,
        provider_id: &str,
        display_name: String,
        project_dir: Option<String>,
        source: SessionDiscoverySource,
        now: i64,
    )
        ensures
            final(self)@ == after_record(
                old(self)@,
                new_session(
                    app_type@,
                    session_id@,
                    provider_id@,
                    display_name@,
                    opt_string(project_dir),
                    source,
                    now,
                ),
            ),
    {
        let info = ActiveSessionInfo {
            session_id: session_id.to_owned(),
            app_type: app_type.to_owned(),
            provider_id: provider_id.to_owned(),
            display_name,
            project_dir,
            last_active_at: now,
            source,
        };
        self.put_session(info);
    }

    /// Records a session seen in a request now, replacing what was known of
    /// it: it is stamped with the wall-clock reading that `now_millis` takes
    /// during this call, whatever stamp it had before. Its override, if any,
    /// stays.
    pub fn record_session(
        &mut self,
        app_type: &str,
        session_id: &str,
        provider_id: &str,
        display_name: String,
        project_dir: Option<String>,
        source: SessionDiscoverySource,
    )
        ensures
            exists|t: i64|
                call_ensures(now_millis, (), t) && final(self)@ == after_record(
                    old(self)@,
                    #[trigger] new_session(
                        app_type@,
                        session_id@,
                        provider_id@,
                        display_name@,
                        opt_string(project_dir),
                        source,
                        t,
                    ),
                ),
    {
        let now = now_millis();
        self.record_session_at(app_type, session_id, provider_id, display_name, project_dir, source, now);
    }

    /// The provider pinned on `(app_type, session_id)`, if any.
    pub fn get_override_provider(&self, app_type: &str, session_id: &str) -> (r: Option<String>)
        ensures
            opt_string(r) == self@.overrides.get((app_type@, session_id@)),
    {
        proof {
            use_type_invariant(&*self);
        }
        let a = app_type.to_owned();
        let s = session_id.to_owned();
        match self.find_override(&a, &s) {
            Some(i) => {
                proof {
                    lemma_map_of_index(override_pairs(self.overrides@), i as int);
                }
                Some(self.overrides[i].2.clone())
            },
            None => None,
        }
    }

    /// Pins `(app_type, session_id)` to `provider_id`; a session already seen
    /// under that key records the provider too.
    pub fn set_override(&mut self, app_type: &str, session_id: &str, provider_id: &str)
        ensures
            final(self)@ == after_set_override(old(self)@, (app_type@, session_id@), provider_id@),
    {
        proof {
            use_type_invariant(&*self);
        }
        let a = app_type.to_owned();
        let s = session_id.to_owned();
        self.put_override(a.clone(), s.clone(), provider_id.to_owned());
        proof {
            use_type_invariant(&*self);
        }
        match self.find_session(&a, &s) {
            Some(i) => {
                proof {
                    lemma_map_of_index(session_pairs(self.sessions@), i as int);
                }
                let mut info = self.sessions[i].clone();
                info.provider_id = provider_id.to_owned();
                self.put_session(info);
            },
            None => {},
        }
    }

    /// Removes the override of `(app_type, session_id)`, and hands back the
    /// provider it pinned, if there was one.
    pub fn remove_override(&mut self, app_type: &str, session_id: &str) -> (r: Option<String>)
        ensures
            opt_string(r) == old(self)@.overrides.get((app_type@, session_id@)),
            final(self)@ == after_remove_override(old(self)@, (app_type@, session_id@)),
    {
        proof {
            use_type_invariant(&*self);
        }
        let a = app_type.to_owned();
        let s = session_id.to_owned();
        let ghost p = override_pairs(self.overrides@);
        match self.find_override(&a, &s) {
            Some(i) => {
                proof {
                    lemma_map_of_index(p, i as int);
                }
                let mut overrides: Vec<(String, String, String)> = Vec::new();
                std::mem::swap(&mut overrides, &mut self.overrides);
                let (_, _, provider) = overrides.remove(i);
                proof {
                    assert(override_pairs(overrides@) =~= p.remove(i as int));
                    lemma_map_of_remove(p, i as int);
                }
                self.overrides = overrides;
                Some(provider)
            },
            None => {
                proof {
                    assert(map_of(p).remove((app_type@, session_id@)) =~= map_of(p));
                }
                None
            },
        }
    }

    /// The provider that requests of the session at `i` go to, and whether
    /// it is pinned.
    fn effective_at(&self, i: usize) -> (r: (String, bool))
        requires
            i < self.sessions.len(),
        ensures
            self@.sessions.contains_key(self.sessions@[i as int]@.key()),
            self@.sessions[self.sessions@[i as int]@.key()] == self.sessions@[i as int]@,
            r.0@ == effective_provider(self@, self.sessions@[i as int]@.key()),
            r.1 == self@.overrides.contains_key(self.sessions@[i as int]@.key()),
    {
        proof {
            use_type_invariant(&*self);
        }
        proof {
            lemma_map_of_index(session_pairs(self.sessions@), i as int);
        }
        match self.find_override(&self.sessions[i].app_type, &self.sessions[i].session_id) {
            Some(j) => {
                proof {
                    lemma_map_of_index(override_pairs(self.overrides@), j as int);
                }
                (self.overrides[j].2.clone(), true)
            },
            None => (self.sessions[i].provider_id.clone(), false),
        }
    }

    /// The sessions of `app_type` whose requests go to `provider_id`: those
    /// pinned to it, and those without a pin that recorded it.
    pub fn sessions_for_provider(&self, app_type: &str, provider_id: &str) -> (r: Vec<ActiveSessionInfo>)
        ensures
            keys_distinct(session_pairs(r@)),
            map_of(session_pairs(r@)) == provider_sessions(self@, app_type@, provider_id@),
    {
        proof {
            use_type_invariant(&*self);
        }
        let a = app_type.to_owned();
        let p = provider_id.to_owned();
        let ghost s = session_pairs(self.sessions@);
        let ghost m = self@;
        let ghost keep = |k: SessionKey| k.0 == app_type@ && effective_provider(m, k) == provider_id@;
        let ghost f = |k: SessionKey, v: SessionView| v;
        let mut out: Vec<ActiveSessionInfo> = Vec::new();
        proof {
            lemma_take_none(s);
            assert(session_pairs(out@) =~= Seq::empty());
            assert(select(map_of(s.take(0)), keep, f) =~= Map::empty());
        }
        let mut i: usize = 0;
        while i < self.sessions.len()
            invariant
                self.wf(),
                m == self@,
                s == session_pairs(self.sessions@),
                a@ == app_type@,
                p@ == provider_id@,
                keep == (|k: SessionKey| k.0 == app_type@ && effective_provider(m, k) == provider_id@),
                f == (|k: SessionKey, v: SessionView| v),
                i <= self.sessions.len(),
                keys_distinct(session_pairs(out@)),
                map_of(session_pairs(out@)) == select(map_of(s.take(i as int)), keep, f),
            decreases self.sessions.len() - i,
        {
            let ghost before = session_pairs(out@);
            let (eff, _) = self.effective_at(i);
            proof {
                lemma_select_step(s, i as int, before, before.len() as int, keep, f);
                assert(before.insert(before.len() as int, (s[i as int].0, f(s[i as int].0, s[i as int].1)))
                    =~= before.push(s[i as int]));
            }
            if self.sessions[i].app_type == a && eff == p {
                out.push(self.sessions[i].clone());
                proof {
                    assert(session_pairs(out@) =~= before.push(s[i as int]));
                }
            }
            i = i + 1;
        }
        proof {
            lemma_take_all(s);
            assert(select(m.sessions, keep, f) =~= provider_sessions(m, app_type@, provider_id@));
        }
        out
    }

    /// The sessions of `app_type` as the front end lists them, the most
    /// recently active first; `alive` holds the ids of the sessions whose
    /// client process runs.
    pub fn list_sessions(&self, app_type: &str, alive: &Vec<String>) -> (r: Vec<SessionRouteEntry>)
        ensures
            keys_distinct(entry_pairs(r@)),
            map_of(entry_pairs(r@)) == route_entries(self@, app_type@, texts(alive@)),
            newest_first(r@),
    {
        proof {
            use_type_invariant(&*self);
        }
        let a = app_type.to_owned();
        let ghost s = session_pairs(self.sessions@);
        let ghost m = self@;
        let ghost al = texts(alive@);
        let ghost keep = |k: SessionKey| k.0 == app_type@;
        let ghost f = |k: SessionKey, v: SessionView| route_entry(m, k, al);
        let mut out: Vec<SessionRouteEntry> = Vec::new();
        proof {
            lemma_take_none(s);
            assert(entry_pairs(out@) =~= Seq::empty());
            assert(select(map_of(s.take(0)), keep, f) =~= Map::empty());
        }
        let mut i: usize = 0;
        while i < self.sessions.len()
            invariant
                self.wf(),
                m == self@,
                s == session_pairs(self.sessions@),
                al == texts(alive@),
                a@ == app_type@,
                keep == (|k: SessionKey| k.0 == app_type@),
                f == (|k: SessionKey, v: SessionView| route_entry(m, k, al)),
                i <= self.sessions.len(),
                keys_distinct(entry_pairs(out@)),
                map_of(entry_pairs(out@)) == select(map_of(s.take(i as int)), keep, f),
                newest_first(out@),
            decreases self.sessions.len() - i,
        {
            if self.sessions[i].app_type == a {
                let (provider, is_routed) = self.effective_at(i);
                let info = &self.sessions[i];
                let entry = SessionRouteEntry {
                    session_id: info.session_id.clone(),
                    app_type: info.app_type.clone(),
                    provider_id: provider,
                    display_name: info.display_name.clone(),
                    project_dir: copy_opt_text(&info.project_dir),
                    last_active_at: info.last_active_at,
                    is_routed,
                    is_alive: text_listed(alive, &info.session_id),
                };
                let mut j: usize = 0;
                while j < out.len() && out[j].last_active_at >= entry.last_active_at
                    invariant
                        j <= out.len(),
                        forall|t: int| 0 <= t < j ==> out@[t].last_active_at >= entry.last_active_at,
                    decreases out.len() - j,
                {
                    j = j + 1;
                }
                let ghost before = out@;
                proof {
                    lemma_select_step(s, i as int, entry_pairs(before), j as int, keep, f);
                    assert(entry@ == f(s[i as int].0, s[i as int].1));
                }
                out.insert(j, entry);
                proof {
                    assert(entry_pairs(out@) =~= entry_pairs(before).insert(j as int, (s[i as int].0, f(s[i as int].0, s[i as int].1))));
                    assert forall|x: int, y: int| 0 <= x < y < out@.len() implies #[trigger] out@[x].last_active_at
                        >= #[trigger] out@[y].last_active_at by {
                        if y < j {
                        } else if y == j {
                        } else if x < j {
                            assert(out@[y] == before[y - 1]);
                        } else if x == j {
                            assert(out@[y] == before[y - 1]);
                            assert(before[j as int].last_active_at < out@[x].last_active_at);
                            if y - 1 > j {
                                assert(before[j as int].last_active_at >= before[y - 1].last_active_at);
                            }
                        } else {
                            assert(out@[x] == before[x - 1]);
                            assert(out@[y] == before[y - 1]);
                        }
                    }
                }
            } else {
                proof {
                    lemma_select_step(s, i as int, entry_pairs(out@), 0, keep, f);
                }
            }
            i = i + 1;
        }
        proof {
            lemma_take_all(s);
            assert(select(m.sessions, keep, f) =~= route_entries(m, app_type@, al));
        }
        out
    }

    /// The session that the persisted override `rec` under `(app_type,
    /// session_id)` stands for.
    fn restored_info(app_type: String, session_id: String, rec: &PersistedOverride) -> (r: ActiveSessionInfo)
        ensures
            r@ == restored_session((app_type@, session_id@), rec@),
    {
        let display_name = if rec.display_name.as_str().is_empty() {
            first_chars(session_id.as_str(), 8)
        } else {
            rec.display_name.clone()
        };
        ActiveSessionInfo {
            session_id,
            app_type,
            provider_id: rec.provider_id.clone(),
            display_name,
            project_dir: copy_opt_text(&rec.project_dir),
            last_active_at: rec.pinned_at,
            source: SessionDiscoverySource::Generated,
        }
    }

    /// All sessions: those seen since the start, then one for each persisted
    /// override whose session was not seen since (so that pinned sessions
    /// show after a restart).
    pub fn list_all_sessions(&self, persisted: &PersistedData) -> (r: Vec<ActiveSessionInfo>)
        ensures
            keys_distinct(session_pairs(r@)),
            map_of(session_pairs(r@)) == all_sessions(self@, persisted@),
    {
        proof {
            use_type_invariant(&*self);
        }
        let ghost s = session_pairs(self.sessions@);
        let ghost m = self@;
        let ghost keep = |k: SessionKey| true;
        let ghost f = |k: SessionKey, v: SessionView| v;
        let mut out: Vec<ActiveSessionInfo> = Vec::new();
        proof {
            lemma_take_none(s);
            assert(session_pairs(out@) =~= Seq::empty());
            assert(select(map_of(s.take(0)), keep, f) =~= Map::empty());
        }
        let mut i: usize = 0;
        while i < self.sessions.len()
            invariant
                self.wf(),
                m == self@,
                s == session_pairs(self.sessions@),
                keep == (|k: SessionKey| true),
                f == (|k: SessionKey, v: SessionView| v),
                i <= self.sessions.len(),
                keys_distinct(session_pairs(out@)),
                map_of(session_pairs(out@)) == select(map_of(s.take(i as int)), keep, f),
            decreases self.sessions.len() - i,
        {
            let ghost before = session_pairs(out@);
            proof {
                lemma_select_step(s, i as int, before, before.len() as int, keep, f);
                assert(before.insert(before.len() as int, (s[i as int].0, f(s[i as int].0, s[i as int].1)))
                    =~= before.push(s[i as int]));
            }
            out.push(self.sessions[i].clone());
            proof {
                assert(session_pairs(out@) =~= before.push(s[i as int]));
            }
            i = i + 1;
        }
        let entries = persisted.entries();
        let ghost pp = record_pairs(entries@);
        proof {
            lemma_take_all(s);
            lemma_take_none(pp);
            assert(all_sessions(m, map_of(pp.take(0))) =~= select(m.sessions, keep, f));
        }
        let mut i: usize = 0;
        while i < entries.len()
            invariant
                self.wf(),
                m == self@,
                s == session_pairs(self.sessions@),
                pp == record_pairs(entries@),
                keys_distinct(pp),
                map_of(pp) == persisted@,
                i <= entries.len(),
                keys_distinct(session_pairs(out@)),
                map_of(session_pairs(out@)) == all_sessions(m, map_of(pp.take(i as int))),
            decreases entries.len() - i,
        {
            proof {
                lemma_map_of_prefix(pp, i as int);
                lemma_split_inverts(pp[i as int].0);
            }
            let ghost before = map_of(pp.take(i as int));
            let ghost after = map_of(pp.take(i + 1));
            let ghost outp = session_pairs(out@);
            match split_key(entries[i].0.as_str()) {
                Some((app_type, session_id)) => {
                    let ghost k = (app_type@, session_id@);
                    proof {
                        assert forall|x: SessionKey| x != k && !x.0.contains(':') implies file_key(x.0, x.1)
                            != pp[i as int].0 by {
                            lemma_split_file_key(x.0, x.1);
                        }
                    }
                    match self.find_session(&app_type, &session_id) {
                        Some(j) => {
                            proof {
                                lemma_map_of_index(s, j as int);
                                assert(all_sessions(m, after) =~= all_sessions(m, before));
                            }
                        },
                        None => {
                            let info = Self::restored_info(app_type, session_id, &entries[i].1);
                            proof {
                                if has_key(outp, k) {
                                    let j = choose|j: int| 0 <= j < outp.len() && #[trigger] outp[j].0 == k;
                                    lemma_map_of_index(outp, j);
                                }
                                lemma_map_of_push(outp, k, info@);
                                assert(info@.key() == k);
                            }
                            out.push(info);
                            proof {
                                assert(session_pairs(out@) =~= outp.push((k, info@)));
                                assert(all_sessions(m, after) =~= all_sessions(m, before).insert(k, info@));
                            }
                        },
                    }
                },
                None => {
                    proof {
                        assert forall|x: SessionKey| !x.0.contains(':') implies file_key(x.0, x.1) != pp[i as int].0 by {
                            lemma_split_file_key(x.0, x.1);
                        }
                        assert(all_sessions(m, after) =~= all_sessions(m, before));
                    }
                },
            }
            i = i + 1;
        }
        proof {
            lemma_take_all(pp);
        }
        out
    }

    /// Whether the ages and thresholds of all sessions fit in an `i64` at
    /// `now`.
    pub fn cleanup_in_range_at(&self, max_age_ms: i64, now: i64) -> (r: bool)
        ensures
            r == cleanup_in_range(self@, max_age_ms, now),
    {
        proof {
            use_type_invariant(&*self);
        }
        let ghost s = session_pairs(self.sessions@);
        let mut i: usize = 0;
        while i < self.sessions.len()
            invariant
                self.wf(),
                s == session_pairs(self.sessions@),
                i <= self.sessions.len(),
                forall|j: int|
                    0 <= j < i ==> {
                        &&& i64::MIN <= now - #[trigger] self.sessions@[j].last_active_at <= i64::MAX
                        &&& !(self.sessions@[j].source is Generated) ==> i64::MIN <= max_age_ms * 4 <= i64::MAX
                    },
            decreases self.sessions.len() - i,
        {
            proof {
                lemma_map_of_index(s, i as int);
            }
            let age: i128 = (now as i128) - (self.sessions[i].last_active_at as i128);
            if age < (i64::MIN as i128) || age > (i64::MAX as i128) {
                return false;
            }
            match self.sessions[i].source {
                SessionDiscoverySource::Generated => {},
                _ => {
                    let t: i128 = (max_age_ms as i128) * 4;
                    if t < (i64::MIN as i128) || t > (i64::MAX as i128) {
                        return false;
                    }
                },
            }
            proof {
                let x = self.sessions@[i as int];
                assert(i64::MIN <= now - x.last_active_at <= i64::MAX);
                assert(!(x.source is Generated) ==> i64::MIN <= max_age_ms * 4 <= i64::MAX);
            }
            i = i + 1;
        }
        proof {
            assert forall|k: SessionKey| #[trigger] self@.sessions.contains_key(k) implies {
                &&& i64::MIN <= now - self@.sessions[k].last_active_at <= i64::MAX
                &&& !(self@.sessions[k].source is Generated) ==> i64::MIN <= max_age_ms * 4 <= i64::MAX
            } by {
                let j = choose|j: int| 0 <= j < s.len() && #[trigger] s[j].0 == k;
                lemma_map_of_index(s, j);
                assert(self.sessions@[j].last_active_at == s[j].1.last_active_at);
            }
        }
        true
    }

    /// Drops the sessions that are stale at `now`, and the overrides of the
    /// dropped sessions.
    pub fn cleanup_stale_at(&mut self, max_age_ms: i64, now: i64)
        requires
            cleanup_in_range(old(self)@, max_age_ms, now),
        ensures
            final(self)@ == after_cleanup(old(self)@, max_age_ms, now),
    {
        proof {
            use_type_invariant(&*self);
        }
        let ghost m = self@;
        let ghost stale = stale_keys(m, max_age_ms, now);
        let ghost keep = |k: SessionKey| !stale.contains(k);
        let ghost f_s = |k: SessionKey, v: SessionView| v;
        let ghost f_o = |k: SessionKey, v: Seq<char>| v;
        let ghost op = override_pairs(self.overrides@);
        let ghost sp = session_pairs(self.sessions@);
        let mut kept_overrides: Vec<(String, String, String)> = Vec::new();
        proof {
            lemma_take_none(op);
            assert(override_pairs(kept_overrides@) =~= Seq::empty());
            assert(select(map_of(op.take(0)), keep, f_o) =~= Map::empty());
        }
        let mut i: usize = 0;
        while i < self.overrides.len()
            invariant
                self.wf(),
                m == self@,
                op == override_pairs(self.overrides@),
                sp == session_pairs(self.sessions@),
                cleanup_in_range(m, max_age_ms, now),
                stale == stale_keys(m, max_age_ms, now),
                keep == (|k: SessionKey| !stale.contains(k)),
                f_o == (|k: SessionKey, v: Seq<char>| v),
                i <= self.overrides.len(),
                keys_distinct(override_pairs(kept_overrides@)),
                map_of(override_pairs(kept_overrides@)) == select(map_of(op.take(i as int)), keep, f_o),
            decreases self.overrides.len() - i,
        {
            let ghost before = override_pairs(kept_overrides@);
            let ghost k = op[i as int].0;
            proof {
                lemma_select_step(op, i as int, before, before.len() as int, keep, f_o);
                assert(before.insert(before.len() as int, (op[i as int].0, f_o(op[i as int].0, op[i as int].1)))
                    =~= before.push(op[i as int]));
            }
            let dropped = match self.find_session(&self.overrides[i].0, &self.overrides[i].1) {
                Some(j) => {
                    proof {
                        lemma_map_of_index(sp, j as int);
                        assert(m.sessions.contains_key(k));
                    }
                    session_is_stale(&self.sessions[j], max_age_ms, now)
                },
                None => false,
            };
            if !dropped {
                let o = &self.overrides[i];
                kept_overrides.push((o.0.clone(), o.1.clone(), o.2.clone()));
                proof {
                    assert(override_pairs(kept_overrides@) =~= before.push(op[i as int]));
                }
            }
            i = i + 1;
        }
        let mut kept_sessions: Vec<ActiveSessionInfo> = Vec::new();
        proof {
            lemma_take_all(op);
            lemma_take_none(sp);
            assert(session_pairs(kept_sessions@) =~= Seq::empty());
            assert(select(map_of(sp.take(0)), keep, f_s) =~= Map::empty());
        }
        let mut i: usize = 0;
        while i < self.sessions.len()
            invariant
                self.wf(),
                m == self@,
                sp == session_pairs(self.sessions@),
                cleanup_in_range(m, max_age_ms, now),
                stale == stale_keys(m, max_age_ms, now),
                keep == (|k: SessionKey| !stale.contains(k)),
                f_s == (|k: SessionKey, v: SessionView| v),
                i <= self.sessions.len(),
                keys_distinct(session_pairs(kept_sessions@)),
                map_of(session_pairs(kept_sessions@)) == select(map_of(sp.take(i as int)), keep, f_s),
            decreases self.sessions.len() - i,
        {
            let ghost before = session_pairs(kept_sessions@);
            proof {
                lemma_select_step(sp, i as int, before, before.len() as int, keep, f_s);
                assert(before.insert(before.len() as int, (sp[i as int].0, f_s(sp[i as int].0, sp[i as int].1)))
                    =~= before.push(sp[i as int]));
                lemma_map_of_index(sp, i as int);
                assert(m.sessions.contains_key(sp[i as int].0));
            }
            if !session_is_stale(&self.sessions[i], max_age_ms, now) {
                kept_sessions.push(self.sessions[i].clone());
                proof {
                    assert(session_pairs(kept_sessions@) =~= before.push(sp[i as int]));
                }
            }
            i = i + 1;
        }
        proof {
            lemma_take_all(sp);
        }
        self.sessions = kept_sessions;
        self.overrides = kept_overrides;
        proof {
            assert(self@.sessions =~= m.sessions.remove_keys(stale));
            assert(self@.overrides =~= m.overrides.remove_keys(stale));
        }
    }

    /// Drops the sessions that are stale by the wall clock (ages measured
    /// against the reading that `now_millis` takes during this call, in
    /// milliseconds), and the overrides
    /// of the dropped sessions, and answers `true`; when an age or a threshold
    /// would not fit in an `i64` at the time read, nothing changes and the
    /// answer is `false`.
    pub fn cleanup_stale(&mut self, max_age_ms: i64) -> (r: bool)
        ensures
            exists|t: i64|
                {
                    &&& call_ensures(now_millis, (), t)
                    &&& r == #[trigger] cleanup_in_range(old(self)@, max_age_ms, t)
                    &&& r ==> final(self)@ == after_cleanup(old(self)@, max_age_ms, t)
                },
            !r ==> final(self)@ == old(self)@,
    {
        proof {
            use_type_invariant(&*self);
        }
        let now = now_millis();
        if self.cleanup_in_range_at(max_age_ms, now) {
            self.cleanup_stale_at(max_age_ms, now);
            true
        } else {
            false
        }
    }

    /// Persists the pin of `(app_type, session_id)` to `provider_id` at time
    /// `pinned_at` into `data`, under the key `app_type:session_id`, with the
    /// display name and project directory of the session if it was seen.
    pub fn persist_override_at(
        &self,
        data: &mut PersistedData,
        app_type: &str,
        session_id: &str,
        provider_id: &str,
        pinned_at: i64,
    )
        ensures
            final(data)@ == after_persist(
                old(data)@,
                self@,
                (app_type@, session_id@),
                provider_id@,
                pinned_at,
            ),
    {
        proof {
            use_type_invariant(&*self);
        }
        let a = app_type.to_owned();
        let s = session_id.to_owned();
        let (display_name, project_dir) = match self.find_session(&a, &s) {
            Some(i) => {
                proof {
                    lemma_map_of_index(session_pairs(self.sessions@), i as int);
                }
                (self.sessions[i].display_name.clone(), copy_opt_text(&self.sessions[i].project_dir))
            },
            None => (String::new(), None),
        };
        let record = PersistedOverride {
            provider_id: provider_id.to_owned(),
            display_name,
            project_dir,
            pinned_at,
        };
        let key = override_file_key(app_type, session_id);
        data.insert_override(key, record);
    }

    /// Persists the pin of `(app_type, session_id)` to `provider_id` into
    /// `data`, stamped with the wall-clock reading that `now_millis` takes
    /// during this call.
    pub fn persist_override(
        &self,
        data: &mut PersistedData,
        app_type: &str,
        session_id: &str,
        provider_id: &str,
    )
        ensures
            exists|t: i64|
                call_ensures(now_millis, (), t) && final(data)@ == #[trigger] after_persist(
                    old(data)@,
                    self@,
                    (app_type@, session_id@),
                    provider_id@,
                    t,
                ),
    {
        let now = now_millis();
        self.persist_override_at(data, app_type, session_id, provider_id, now);
    }
}

} // verus!
