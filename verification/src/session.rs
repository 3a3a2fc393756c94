//! The records that the router keeps and hands out, and their views.

use vstd::prelude::*;
use crate::table::{has_key, keys_distinct, lemma_map_of_empty, lemma_map_of_push, lemma_map_of_remove, lemma_map_of_update, map_of};
use crate::text::opt_string;

verus! {

/// Where the id of a session came from.
#[derive(Clone, Copy, Debug, PartialEq, Eq, Structural)]
pub enum SessionDiscoverySource {
    /// A request header: a stable id that the client provides.
    Header,
    /// `metadata.user_id` of the request body.
    MetadataUserId,
    /// `metadata.session_id` of the request body.
    MetadataSessionId,
    /// Made up by the proxy: not stable, not persisted.
    Generated,
}

/// A session that was seen in a request.
#[derive(Debug)]
pub struct ActiveSessionInfo {
    pub session_id: String,
    /// The kind of client: codex, gemini, and so on.
    pub app_type: String,
    /// The provider that the session is routed to.
    pub provider_id: String,
    /// The last segment of the project directory, or a prefix of the id.
    pub display_name: String,
    pub project_dir: Option<String>,
    /// When the session was last seen, in milliseconds since the epoch.
    pub last_active_at: i64,
    pub source: SessionDiscoverySource,
}

/// What an [`ActiveSessionInfo`] holds, with each text as its characters.
pub struct SessionView {
    pub session_id: Seq<char>,
    pub app_type: Seq<char>,
    pub provider_id: Seq<char>,
    pub display_name: Seq<char>,
    pub project_dir: Option<Seq<char>>,
    pub last_active_at: i64,
    pub source: SessionDiscoverySource,
}

/// Sessions are told apart by their kind of client and their id.
pub type SessionKey = (Seq<char>, Seq<char>);

impl View for ActiveSessionInfo {
    type V = SessionView;

    open spec fn view(&self) -> SessionView {
        SessionView {
            session_id: self.session_id@,
            app_type: self.app_type@,
            provider_id: self.provider_id@,
            display_name: self.display_name@,
            project_dir: opt_string(self.project_dir),
            last_active_at: self.last_active_at,
            source: self.source,
        }
    }
}

impl SessionView {
    /// The key of the session.
    pub open spec fn key(self) -> SessionKey {
        (self.app_type, self.session_id)
    }
}

/// Copies an optional text.
pub fn copy_opt_text(o: &Option<String>) -> (r: Option<String>)
    ensures
        opt_string(r) == opt_string(*o),
{
    match o {
        Some(s) => Some(s.clone()),
        None => None,
    }
}

impl Clone for ActiveSessionInfo {
    fn clone(&self) -> (r: Self)
        ensures
            r@ == self@,
    {
        ActiveSessionInfo {
            session_id: self.session_id.clone(),
            app_type: self.app_type.clone(),
            provider_id: self.provider_id.clone(),
            display_name: self.display_name.clone(),
            project_dir: copy_opt_text(&self.project_dir),
            last_active_at: self.last_active_at,
            source: self.source,
        }
    }
}

/// A session as the front end lists it.
#[derive(Debug)]
pub struct SessionRouteEntry {
    pub session_id: String,
    pub app_type: String,
    /// The provider that requests of the session go to.
    pub provider_id: String,
    pub display_name: String,
    pub project_dir: Option<String>,
    pub last_active_at: i64,
    /// The user pinned the provider (it does not follow the global one).
    pub is_routed: bool,
    /// The client process behind the session is still running.
    pub is_alive: bool,
}

/// What a [`SessionRouteEntry`] holds, with each text as its characters.
pub struct RouteEntryView {
    pub session_id: Seq<char>,
    pub app_type: Seq<char>,
    pub provider_id: Seq<char>,
    pub display_name: Seq<char>,
    pub project_dir: Option<Seq<char>>,
    pub last_active_at: i64,
    pub is_routed: bool,
    pub is_alive: bool,
}

impl View for SessionRouteEntry {
    type V = RouteEntryView;

    open spec fn view(&self) -> RouteEntryView {
        RouteEntryView {
            session_id: self.session_id@,
            app_type: self.app_type@,
            provider_id: self.provider_id@,
            display_name: self.display_name@,
            project_dir: opt_string(self.project_dir),
            last_active_at: self.last_active_at,
            is_routed: self.is_routed,
            is_alive: self.is_alive,
        }
    }
}

impl RouteEntryView {
    /// The key of the listed session.
    pub open spec fn key(self) -> SessionKey {
        (self.app_type, self.session_id)
    }
}

/// An override as it is persisted, under the key `app_type:session_id`.
#[derive(Debug)]
pub struct PersistedOverride {
    pub provider_id: String,
    pub display_name: String,
    pub project_dir: Option<String>,
    /// When the override was set, in milliseconds since the epoch.
    pub pinned_at: i64,
}

/// What a [`PersistedOverride`] holds, with each text as its characters.
pub struct OverrideRecordView {
    pub provider_id: Seq<char>,
    pub display_name: Seq<char>,
    pub project_dir: Option<Seq<char>>,
    pub pinned_at: i64,
}

impl View for PersistedOverride {
    type V = OverrideRecordView;

    open spec fn view(&self) -> OverrideRecordView {
        OverrideRecordView {
            provider_id: self.provider_id@,
            display_name: self.display_name@,
            project_dir: opt_string(self.project_dir),
            pinned_at: self.pinned_at,
        }
    }
}

/// The persisted overrides: a map from `app_type:session_id` to the record.
#[derive(Debug)]
pub struct PersistedData {
    overrides: Vec<(String, PersistedOverride)>,
}

/// The key/value pairs that a list of persisted records stands for.
pub open spec fn record_pairs(v: Seq<(String, PersistedOverride)>) -> Seq<(Seq<char>, OverrideRecordView)> {
    v.map_values(|e: (String, PersistedOverride)| (e.0@, e.1@))
}

impl View for PersistedData {
    type V = Map<Seq<char>, OverrideRecordView>;

    closed spec fn view(&self) -> Map<Seq<char>, OverrideRecordView> {
        map_of(record_pairs(self.overrides@))
    }
}

/// The position of the record under `key` in `v`.
fn find_record(v: &Vec<(String, PersistedOverride)>, key: &String) -> (r: Option<usize>)
    requires
        keys_distinct(record_pairs(v@)),
    ensures
        match r {
            Some(i) => i < v.len() && v@[i as int].0@ == key@,
            None => !has_key(record_pairs(v@), key@),
        },
{
    let mut i: usize = 0;
    while i < v.len()
        invariant
            i <= v.len(),
            forall|j: int| 0 <= j < i ==> v@[j].0@ != key@,
        decreases v.len() - i,
    {
        if v[i].0 == *key {
            return Some(i);
        }
        i = i + 1;
    }
    proof {
        let p = record_pairs(v@);
        if has_key(p, key@) {
            let j = choose|j: int| 0 <= j < p.len() && #[trigger] p[j].0 == key@;
            assert(p[j].0 == v@[j].0@);
        }
    }
    None
}

impl PersistedData {
    /// No key is recorded twice.
    #[verifier::type_invariant]
    closed spec fn wf(&self) -> bool {
        keys_distinct(record_pairs(self.overrides@))
    }

    /// No overrides.
    pub fn new() -> (r: Self)
        ensures
            r@ == Map::<Seq<char>, OverrideRecordView>::empty(),
    {
        let r = PersistedData { overrides: Vec::new() };
        proof {
            assert(record_pairs(r.overrides@) =~= Seq::empty());
            lemma_map_of_empty::<Seq<char>, OverrideRecordView>();
        }
        r
    }

    /// Records `record` under `key`, replacing what was there.
    pub fn insert_override(&mut self, key: String, record: PersistedOverride)
        ensures
            final(self)@ == old(self)@.insert(key@, record@),
    {
        proof {
            use_type_invariant(&*self);
        }
        let ghost kv = key@;
        let ghost rv = record@;
        let mut v: Vec<(String, PersistedOverride)> = Vec::new();
        std::mem::swap(&mut v, &mut self.overrides);
        let ghost p = record_pairs(v@);
        match find_record(&v, &key) {
            Some(i) => {
                v.set(i, (key, record));
                proof {
                    assert(record_pairs(v@) =~= p.update(i as int, (p[i as int].0, rv)));
                    lemma_map_of_update(p, i as int, rv);
                }
            },
            None => {
                v.push((key, record));
                proof {
                    assert(record_pairs(v@) =~= p.push((kv, rv)));
                    lemma_map_of_push(p, kv, rv);
                }
            },
        }
        self.overrides = v;
    }

    /// Forgets the record under `key`, if there is one.
    pub fn remove_override(&mut self, key: &str)
        ensures
            final(self)@ == old(self)@.remove(key@),
    {
        proof {
            use_type_invariant(&*self);
        }
        let k = key.to_owned();
        let mut v: Vec<(String, PersistedOverride)> = Vec::new();
        std::mem::swap(&mut v, &mut self.overrides);
        let ghost p = record_pairs(v@);
        match find_record(&v, &k) {
            Some(i) => {
                let _ = v.remove(i);
                proof {
                    assert(record_pairs(v@) =~= p.remove(i as int));
                    lemma_map_of_remove(p, i as int);
                }
            },
            None => {
                proof {
                    assert(map_of(p).remove(key@) =~= map_of(p));
                }
            },
        }
        self.overrides = v;
    }

    /// The records, each with its key, in no particular order.
    pub fn entries(&self) -> (r: &Vec<(String, PersistedOverride)>)
        ensures
            keys_distinct(record_pairs(r@)),
            map_of(record_pairs(r@)) == self@,
    {
        proof {
            use_type_invariant(self);
        }
        &self.overrides
    }
}

} // verus!
