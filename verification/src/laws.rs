//! What holds of the router across its operations.

use vstd::prelude::*;
use crate::router::{
    RouterView, after_cleanup, after_persist, after_record, after_remove_override,
    after_set_override, all_sessions, effective_provider, is_stale, provider_sessions, restored,
    restored_overrides, route_entries,
};
use crate::session::{OverrideRecordView, SessionDiscoverySource, SessionKey, SessionView};
use crate::text::{
    display_name, display_name_uses_fallback, file_key, last_segment, lemma_segment_start,
    lemma_split_file_key,
};

verus! {

/// Once a session is pinned to a provider, looking up its override gives
/// that provider, and its requests go there.
pub proof fn law_get_after_set(m: RouterView, k: SessionKey, p: Seq<char>)
    ensures
        after_set_override(m, k, p).overrides.get(k) == Some(p),
        effective_provider(after_set_override(m, k, p), k) == p,
{
}

/// Pinning one session leaves the pins and records of all other sessions as
/// they were.
pub proof fn law_set_leaves_others(m: RouterView, k: SessionKey, other: SessionKey, p: Seq<char>)
    requires
        other != k,
    ensures
        after_set_override(m, k, p).overrides.get(other) == m.overrides.get(other),
        after_set_override(m, k, p).sessions.contains_key(other) == m.sessions.contains_key(other),
        m.sessions.contains_key(other) ==> after_set_override(m, k, p).sessions[other] == m.sessions[other],
{
}

/// Removing a pin just set hands back the pinned provider and leaves the
/// overrides as they were before the pin, but for `k`, which has none.
pub proof fn law_remove_after_set(m: RouterView, k: SessionKey, p: Seq<char>)
    ensures
        after_set_override(m, k, p).overrides.get(k) == Some(p),
        after_remove_override(after_set_override(m, k, p), k).overrides == m.overrides.remove(k),
        !m.overrides.contains_key(k) ==> after_remove_override(after_set_override(m, k, p), k).overrides
            == m.overrides,
{
    assert(m.overrides.insert(k, p).remove(k) =~= m.overrides.remove(k));
    if !m.overrides.contains_key(k) {
        assert(m.overrides.remove(k) =~= m.overrides);
    }
}

/// After its pin is removed, a session has no override, and its requests go
/// to the provider it recorded.
pub proof fn law_get_after_remove(m: RouterView, k: SessionKey)
    ensures
        after_remove_override(m, k).overrides.get(k) is None,
        m.sessions.contains_key(k) ==> effective_provider(after_remove_override(m, k), k)
            == m.sessions[k].provider_id,
{
}

/// A new request of a pinned session does not undo its pin: its requests
/// still go to the pinned provider.
pub proof fn law_pin_outlives_record(m: RouterView, info: SessionView)
    requires
        m.overrides.contains_key(info.key()),
    ensures
        after_record(m, info).overrides == m.overrides,
        effective_provider(after_record(m, info), info.key()) == m.overrides[info.key()],
{
}

/// A recorded session of a kind of client is listed under exactly one
/// provider: the one its requests go to.
pub proof fn law_one_provider_per_session(m: RouterView, app_type: Seq<char>, k: SessionKey, p: Seq<char>)
    requires
        m.sessions.contains_key(k),
        k.0 == app_type,
    ensures
        provider_sessions(m, app_type, p).contains_key(k) <==> p == effective_provider(m, k),
{
}

/// Once a recorded session is pinned to `p`, it is listed among the sessions
/// of `p`, and among those of no other provider.
pub proof fn law_pinned_session_listed(m: RouterView, k: SessionKey, p: Seq<char>, q: Seq<char>)
    requires
        m.sessions.contains_key(k),
    ensures
        provider_sessions(after_set_override(m, k, p), k.0, p).contains_key(k),
        q != p ==> !provider_sessions(after_set_override(m, k, p), k.0, q).contains_key(k),
{
}

/// Once a recorded session is pinned to `p`, the front end lists it as
/// routed, to `p`.
pub proof fn law_listed_after_set(m: RouterView, k: SessionKey, p: Seq<char>, alive: Seq<Seq<char>>)
    requires
        m.sessions.contains_key(k),
    ensures
        route_entries(after_set_override(m, k, p), k.0, alive).contains_key(k),
        route_entries(after_set_override(m, k, p), k.0, alive)[k].is_routed,
        route_entries(after_set_override(m, k, p), k.0, alive)[k].provider_id == p,
{
}

/// A pin that was persisted comes back after a restart, as long as the kind
/// of client holds no `:` (its key splits at the first `:`).
pub proof fn law_restart_keeps_pin(
    data: Map<Seq<char>, OverrideRecordView>,
    m: RouterView,
    k: SessionKey,
    p: Seq<char>,
    pinned_at: i64,
)
    requires
        !k.0.contains(':'),
    ensures
        restored(after_persist(data, m, k, p, pinned_at)).overrides.get(k) == Some(p),
{
}

/// A pin whose persisted record was forgotten does not come back after a
/// restart.
pub proof fn law_restart_forgets_removed_pin(data: Map<Seq<char>, OverrideRecordView>, k: SessionKey)
    ensures
        restored(data.remove(file_key(k.0, k.1))).overrides.get(k) is None,
{
}

/// When the persisted record agrees with the router's pins, pinning a
/// session and persisting the pin keeps them in agreement; so do removing a
/// pin and forgetting its record. Kinds of client that hold a `:` are left
/// out: their keys do not split back into themselves.
pub proof fn law_persisted_pins_track_router(
    data: Map<Seq<char>, OverrideRecordView>,
    m: RouterView,
    k: SessionKey,
    p: Seq<char>,
    pinned_at: i64,
)
    requires
        restored_overrides(data) == m.overrides,
        !k.0.contains(':'),
    ensures
        restored_overrides(after_persist(data, m, k, p, pinned_at)) == after_set_override(m, k, p).overrides,
        restored_overrides(data.remove(file_key(k.0, k.1))) == after_remove_override(m, k).overrides,
{
    let d1 = after_persist(data, m, k, p, pinned_at);
    assert forall|x: SessionKey| !x.0.contains(':') && x != k implies file_key(x.0, x.1) != file_key(k.0, k.1) by {
        lemma_split_file_key(x.0, x.1);
        lemma_split_file_key(k.0, k.1);
    }
    assert(restored_overrides(d1) =~= m.overrides.insert(k, p));
    assert(restored_overrides(data.remove(file_key(k.0, k.1))) =~= m.overrides.remove(k));
}

/// After a restart, each pinned session shows among all sessions, with its
/// pinned provider, before any request of it arrives.
pub proof fn law_pinned_sessions_show_after_restart(data: Map<Seq<char>, OverrideRecordView>, k: SessionKey)
    requires
        restored(data).overrides.contains_key(k),
    ensures
        all_sessions(restored(data), data).contains_key(k),
        all_sessions(restored(data), data)[k].provider_id == restored(data).overrides[k],
        all_sessions(restored(data), data)[k].key() == k,
{
}

/// A cleanup leaves no stale session, keeps every session that is not
/// stale as it was, and keeps no override of a dropped session.
pub proof fn law_cleanup(m: RouterView, max_age_ms: i64, now: i64, k: SessionKey)
    ensures
        after_cleanup(m, max_age_ms, now).sessions.contains_key(k) ==> !is_stale(
            after_cleanup(m, max_age_ms, now).sessions[k],
            max_age_ms,
            now,
        ),
        m.sessions.contains_key(k) && !is_stale(m.sessions[k], max_age_ms, now) ==> after_cleanup(
            m,
            max_age_ms,
            now,
        ).sessions.contains_key(k) && after_cleanup(m, max_age_ms, now).sessions[k] == m.sessions[k],
        m.sessions.contains_key(k) && is_stale(m.sessions[k], max_age_ms, now) ==> !after_cleanup(
            m,
            max_age_ms,
            now,
        ).overrides.contains_key(k),
        !m.sessions.contains_key(k) ==> after_cleanup(m, max_age_ms, now).overrides.get(k)
            == m.overrides.get(k),
{
}

/// A display name taken from a project directory is its last segment, and
/// holds no `/`.
pub proof fn law_display_name_is_basename(dir: Seq<char>, fallback: Seq<char>)
    requires
        !display_name_uses_fallback(Some(dir)),
    ensures
        display_name(Some(dir), fallback) == last_segment(dir),
        !display_name(Some(dir), fallback).contains('/'),
{
    lemma_segment_start(dir);
    let seg = last_segment(dir);
    let st = crate::text::segment_start(dir) as int;
    if seg.contains('/') {
        let j = choose|j: int| 0 <= j < seg.len() && seg[j] == '/';
        assert(dir[st + j] == '/');
    }
}


/// A pin that a cleanup dropped from memory stays persisted, and comes back
/// after a restart.
pub proof fn law_restart_restores_pins_dropped_by_cleanup(
    data: Map<Seq<char>, OverrideRecordView>,
    m: RouterView,
    max_age_ms: i64,
    now: i64,
    k: SessionKey,
)
    requires
        restored_overrides(data) == m.overrides,
        m.overrides.contains_key(k),
    ensures
        restored(data).overrides.get(k) == Some(m.overrides[k]),
        m.sessions.contains_key(k) && is_stale(m.sessions[k], max_age_ms, now) ==> !after_cleanup(
            m,
            max_age_ms,
            now,
        ).overrides.contains_key(k),
{
}

/// Sessions of kinds of client without `:` never share a persisted key.
pub proof fn law_file_keys_distinct(a: SessionKey, b: SessionKey)
    requires
        a != b,
        !a.0.contains(':'),
        !b.0.contains(':'),
    ensures
        file_key(a.0, a.1) != file_key(b.0, b.1),
{
    lemma_split_file_key(a.0, a.1);
    lemma_split_file_key(b.0, b.1);
}


/// Recording a session stores exactly what the request said of it, under
/// its key: in particular its stamp replaces the stamp of an earlier request
/// of the same session, and every other session stays as it was.
pub proof fn law_record_refreshes_session(m: RouterView, info: SessionView, other: SessionKey)
    ensures
        after_record(m, info).sessions.contains_key(info.key()),
        after_record(m, info).sessions[info.key()].last_active_at == info.last_active_at,
        after_record(m, info).sessions[info.key()].provider_id == info.provider_id,
        after_record(m, info).sessions[info.key()].display_name == info.display_name,
        after_record(m, info).sessions[info.key()].project_dir == info.project_dir,
        after_record(m, info).sessions[info.key()].source == info.source,
        other != info.key() ==> after_record(m, info).sessions.get(other) == m.sessions.get(other),
{
}

/// A session quiet for longer than its threshold at the cleanup's clock
/// reading `now` is dropped with its pin: a session with a made-up id after
/// `max_age_ms` milliseconds, any other after `4 * max_age_ms`. A session
/// quiet for at most its threshold stays, unchanged.
pub proof fn law_cleanup_by_age(m: RouterView, max_age_ms: i64, now: i64, k: SessionKey)
    requires
        m.sessions.contains_key(k),
    ensures
        m.sessions[k].source == SessionDiscoverySource::Generated && now - m.sessions[k].last_active_at
            > max_age_ms ==> !after_cleanup(m, max_age_ms, now).sessions.contains_key(k)
            && !after_cleanup(m, max_age_ms, now).overrides.contains_key(k),
        m.sessions[k].source != SessionDiscoverySource::Generated && now - m.sessions[k].last_active_at
            > 4 * max_age_ms ==> !after_cleanup(m, max_age_ms, now).sessions.contains_key(k)
            && !after_cleanup(m, max_age_ms, now).overrides.contains_key(k),
        m.sessions[k].source == SessionDiscoverySource::Generated && now - m.sessions[k].last_active_at
            <= max_age_ms ==> after_cleanup(m, max_age_ms, now).sessions.get(k) == Some(m.sessions[k]),
        m.sessions[k].source != SessionDiscoverySource::Generated && now - m.sessions[k].last_active_at
            <= 4 * max_age_ms ==> after_cleanup(m, max_age_ms, now).sessions.get(k) == Some(m.sessions[k]),
{
}

/// The listing of a kind of client holds exactly its sessions, each with
/// the session's own recorded name, directory and activity, the provider
/// its requests go to (its pin, else the provider it recorded), whether it
/// is pinned, and whether its id is among the live ones.
pub proof fn law_listed_entry_fields(m: RouterView, app_type: Seq<char>, alive: Seq<Seq<char>>, k: SessionKey)
    ensures
        route_entries(m, app_type, alive).contains_key(k) <==> m.sessions.contains_key(k) && k.0 == app_type,
        route_entries(m, app_type, alive).contains_key(k) ==> {
            let e = route_entries(m, app_type, alive)[k];
            &&& e.session_id == k.1
            &&& e.app_type == app_type
            &&& e.display_name == m.sessions[k].display_name
            &&& e.project_dir == m.sessions[k].project_dir
            &&& e.last_active_at == m.sessions[k].last_active_at
            &&& e.provider_id == (if m.overrides.contains_key(k) {
                m.overrides[k]
            } else {
                m.sessions[k].provider_id
            })
            &&& e.is_routed == m.overrides.contains_key(k)
            &&& e.is_alive == alive.contains(k.1)
        },
{
}

/// Every session listed for a provider belongs to the kind of client asked
/// about, is a recorded session as it was recorded, and sends its requests
/// to that provider (its pin, else the provider it recorded); every such
/// session is listed.
pub proof fn law_provider_sessions_fields(m: RouterView, app_type: Seq<char>, p: Seq<char>, k: SessionKey)
    ensures
        provider_sessions(m, app_type, p).contains_key(k) ==> k.0 == app_type,
        provider_sessions(m, app_type, p).contains_key(k) <==> {
            &&& m.sessions.contains_key(k)
            &&& k.0 == app_type
            &&& p == (if m.overrides.contains_key(k) {
                m.overrides[k]
            } else {
                m.sessions[k].provider_id
            })
        },
        provider_sessions(m, app_type, p).contains_key(k) ==> provider_sessions(m, app_type, p)[k]
            == m.sessions[k],
{
}

/// The full list holds the recorded sessions as recorded, and, for each
/// persisted pin of a session not recorded since (whose key splits back into
/// it), a session made from the persisted record: its provider, its display
/// name (or, when that is empty, the first 8 characters of the id), its
/// project directory, its pin time as last activity, and a made-up source.
pub proof fn law_all_sessions_fields(m: RouterView, data: Map<Seq<char>, OverrideRecordView>, k: SessionKey)
    ensures
        all_sessions(m, data).contains_key(k) <==> m.sessions.contains_key(k) || (!k.0.contains(':')
            && data.contains_key(file_key(k.0, k.1))),
        m.sessions.contains_key(k) ==> all_sessions(m, data)[k] == m.sessions[k],
        !m.sessions.contains_key(k) && !k.0.contains(':') && data.contains_key(file_key(k.0, k.1)) ==> {
            let s = all_sessions(m, data)[k];
            let rec = data[file_key(k.0, k.1)];
            &&& s.session_id == k.1
            &&& s.app_type == k.0
            &&& s.provider_id == rec.provider_id
            &&& s.project_dir == rec.project_dir
            &&& s.last_active_at == rec.pinned_at
            &&& s.source == SessionDiscoverySource::Generated
            &&& s.display_name == (if rec.display_name.len() == 0 {
                k.1.take(if k.1.len() < 8 { k.1.len() as int } else { 8 })
            } else {
                rec.display_name
            })
        },
{
}

} // verus!
