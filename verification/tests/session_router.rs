use session_router::json::{
    extract_project_dir, session_file_pid, session_file_project_dir, JsonNumber, JsonValue,
};
use session_router::clock::epoch_millis;
use session_router::router::{forget_persisted_override, SessionRouter};
use session_router::session_files::{
    find_pid_in_session_files, find_project_dir_in_session_files, is_json_file_name,
    session_alive, session_text_pid, session_text_project_dir,
};
use session_router::session::{PersistedData, PersistedOverride, SessionDiscoverySource};
use session_router::text::{
    contains_text, display_name_from_project_dir, first_chars, last_segment_of,
    override_file_key, split_key,
};

fn obj(members: Vec<(&str, JsonValue)>) -> JsonValue {
    JsonValue::Object(members.into_iter().map(|(k, v)| (k.to_string(), v)).collect())
}

fn text(s: &str) -> JsonValue {
    JsonValue::Str(s.to_string())
}

fn empty_router() -> SessionRouter {
    SessionRouter::new(&PersistedData::new())
}

#[test]
fn test_display_name_from_project_dir() {
    assert_eq!(
        display_name_from_project_dir(Some("/home/user/my-project"), "abc123"),
        "my-project"
    );
    assert_eq!(display_name_from_project_dir(None, "abc123def"), "abc123de");
    assert_eq!(display_name_from_project_dir(Some("/"), "fallback"), "fallback");
}

#[test]
fn test_extract_project_dir() {
    let body = obj(vec![("metadata", obj(vec![("cwd", text("/home/user/project-a"))]))]);
    assert_eq!(
        extract_project_dir(&body),
        Some("/home/user/project-a".to_string())
    );

    let body = obj(vec![("metadata", obj(vec![("project_dir", text("/tmp/workspace"))]))]);
    assert_eq!(
        extract_project_dir(&body),
        Some("/tmp/workspace".to_string())
    );

    let body = obj(vec![("metadata", obj(vec![]))]);
    assert_eq!(extract_project_dir(&body), None);

    let body = obj(vec![]);
    assert_eq!(extract_project_dir(&body), None);
}

#[test]
fn test_session_router_override_flow() {
    let mut router = empty_router();

    router.record_session(
        "codex",
        "session-a",
        "provider-1",
        "project-a".to_string(),
        Some("/home/user/project-a".to_string()),
        SessionDiscoverySource::Header,
    );

    router.record_session(
        "codex",
        "session-b",
        "provider-1",
        "project-b".to_string(),
        Some("/home/user/project-b".to_string()),
        SessionDiscoverySource::Header,
    );

    assert!(router.get_override_provider("codex", "session-a").is_none());

    router.set_override("codex", "session-a", "provider-2");

    assert_eq!(
        router.get_override_provider("codex", "session-a").as_deref(),
        Some("provider-2")
    );

    assert!(router.get_override_provider("codex", "session-b").is_none());

    let sessions = router.sessions_for_provider("codex", "provider-2");
    assert_eq!(sessions.len(), 1);
    assert_eq!(sessions[0].session_id, "session-a");

    let sessions = router.sessions_for_provider("codex", "provider-1");
    assert_eq!(sessions.len(), 1);
    assert_eq!(sessions[0].session_id, "session-b");

    let removed = router.remove_override("codex", "session-a");
    assert_eq!(removed.as_deref(), Some("provider-2"));

    assert!(router.get_override_provider("codex", "session-a").is_none());
}

#[test]
fn test_session_router_list_sessions() {
    let mut router = empty_router();

    router.record_session(
        "codex",
        "session-a",
        "provider-1",
        "project-a".to_string(),
        None,
        SessionDiscoverySource::Header,
    );

    router.set_override("codex", "session-a", "provider-2");

    let entries = router.list_sessions("codex", &Vec::new());
    assert_eq!(entries.len(), 1);
    assert!(entries[0].is_routed);
    assert_eq!(entries[0].provider_id, "provider-2");
}

// ----- text helpers -----

#[test]
fn last_segment_takes_text_after_last_slash() {
    assert_eq!(last_segment_of("/a/b/c"), "c");
    assert_eq!(last_segment_of("plain"), "plain");
    assert_eq!(last_segment_of("/a/b/"), "");
    assert_eq!(last_segment_of(""), "");
}

#[test]
fn display_name_edge_cases() {
    // a trailing slash leaves an empty last segment: the fallback is used
    assert_eq!(display_name_from_project_dir(Some("/home/user/"), "abcdefghij"), "abcdefgh");
    // no slash at all: the whole directory is the name
    assert_eq!(display_name_from_project_dir(Some("proj"), "x"), "proj");
    // a short fallback is kept whole
    assert_eq!(display_name_from_project_dir(None, "abc"), "abc");
    assert_eq!(display_name_from_project_dir(None, ""), "");
    // the cut counts bytes: 'a' (1) + an emoji (4) + 'bcd' (3) = 8 bytes
    assert_eq!(display_name_from_project_dir(None, "a\u{1F600}bcdefg"), "a\u{1F600}bcd");
    // the basename holds no slash
    let name = display_name_from_project_dir(Some("/x/y/z-project"), "fallback");
    assert!(!name.contains('/'));
}

#[test]
fn override_file_key_and_split_are_inverse() {
    let key = override_file_key("codex", "session:with:colons");
    assert_eq!(key, "codex:session:with:colons");
    let (a, b) = split_key(&key).unwrap();
    assert_eq!(a, "codex");
    assert_eq!(b, "session:with:colons");
    assert_eq!(split_key("no-colon"), None);
    assert_eq!(split_key(":x"), Some((String::new(), "x".to_string())));
}

#[test]
fn file_keys_split_at_first_colon() {
    let key = override_file_key("x:y", "z");
    assert_eq!(key, "x:y:z");
    assert_eq!(split_key(&key), Some(("x".to_string(), "y:z".to_string())));
    let key = override_file_key("a\\b", "s");
    assert_eq!(key, "a\\b:s");
    assert_eq!(split_key(&key), Some(("a\\b".to_string(), "s".to_string())));
}

#[test]
fn pin_with_backslash_in_app_type_survives_restart() {
    let mut router = empty_router();
    router.set_override("a\\b", "s", "p");
    let mut data = PersistedData::new();
    router.persist_override_at(&mut data, "a\\b", "s", "p", 1);
    let restarted = SessionRouter::new(&data);
    assert_eq!(restarted.get_override_provider("a\\b", "s").as_deref(), Some("p"));
    let all = restarted.list_all_sessions(&data);
    assert_eq!(all.len(), 1);
    assert_eq!(all[0].app_type, "a\\b");
}

#[test]
fn pin_on_app_type_with_colon_comes_back_split_at_first_colon() {
    let mut router = empty_router();
    router.set_override("x:y", "z", "p");
    let mut data = PersistedData::new();
    router.persist_override_at(&mut data, "x:y", "z", "p", 1);
    assert_eq!(data.entries()[0].0, "x:y:z");
    let restarted = SessionRouter::new(&data);
    assert_eq!(restarted.get_override_provider("x", "y:z").as_deref(), Some("p"));
    assert_eq!(restarted.get_override_provider("x:y", "z"), None);
    forget_persisted_override(&mut data, "x:y", "z");
    assert_eq!(data.entries().len(), 0);
}

#[test]
fn pin_dropped_by_cleanup_comes_back_after_restart() {
    let mut router = empty_router();
    router.record_session_at("codex", "s", "p", "n".to_string(), None, SessionDiscoverySource::Generated, 0);
    router.set_override("codex", "s", "pinned");
    let mut data = PersistedData::new();
    router.persist_override_at(&mut data, "codex", "s", "pinned", 0);
    router.cleanup_stale_at(10, 1000);
    assert_eq!(router.get_override_provider("codex", "s"), None);
    let restarted = SessionRouter::new(&data);
    assert_eq!(restarted.get_override_provider("codex", "s").as_deref(), Some("pinned"));
}

#[test]
fn contains_text_matches_substrings() {
    assert!(contains_text("{\"sessionId\":\"abc\"}", "abc"));
    assert!(!contains_text("{\"sessionId\":\"abd\"}", "abc"));
    assert!(contains_text("anything", ""));
    assert!(!contains_text("", "a"));
    assert!(contains_text("aab", "ab"));
}

#[test]
fn first_chars_counts_characters() {
    assert_eq!(first_chars("session-identifier", 8), "session-");
    assert_eq!(first_chars("short", 8), "short");
    assert_eq!(first_chars("\u{00e9}\u{00e9}\u{00e9}", 2), "\u{00e9}\u{00e9}");
}

// ----- JSON decisions -----

#[test]
fn extract_project_dir_prefers_cwd_and_skips_non_strings() {
    let body = obj(vec![(
        "metadata",
        obj(vec![("cwd", text("/a")), ("project_dir", text("/b"))]),
    )]);
    assert_eq!(extract_project_dir(&body), Some("/a".to_string()));

    let body = obj(vec![(
        "metadata",
        obj(vec![
            ("cwd", JsonValue::Number(JsonNumber::PosInt(3))),
            ("project_dir", text("/b")),
        ]),
    )]);
    assert_eq!(extract_project_dir(&body), Some("/b".to_string()));

    let body = obj(vec![("metadata", text("not an object"))]);
    assert_eq!(extract_project_dir(&body), None);

    assert_eq!(extract_project_dir(&JsonValue::Null), None);
}

#[test]
fn session_file_decisions() {
    let file = obj(vec![
        ("sessionId", text("s-1")),
        ("cwd", text("/work/p")),
        ("pid", JsonValue::Number(JsonNumber::PosInt(4242))),
    ]);
    assert_eq!(
        session_file_project_dir(&file, "s-1"),
        Some(Some("/work/p".to_string()))
    );
    assert_eq!(session_file_project_dir(&file, "s-2"), None);
    assert_eq!(session_file_pid(&file, "s-1"), Some(Some(4242)));
    assert_eq!(session_file_pid(&file, "s-2"), None);

    let no_pid = obj(vec![("sessionId", text("s-1")), ("pid", JsonValue::Number(JsonNumber::NegInt(-1)))]);
    assert_eq!(session_file_pid(&no_pid, "s-1"), Some(None));
    assert_eq!(session_file_project_dir(&no_pid, "s-1"), Some(None));
}

// ----- the client's session files -----

fn files(list: &[(&str, &str)]) -> Vec<(String, String)> {
    list.iter().map(|(n, t)| (n.to_string(), t.to_string())).collect()
}

#[test]
fn test_find_project_dir_from_client_sessions() {
    let result = find_project_dir_in_session_files(&Vec::new(), "nonexistent-session-id");
    assert_eq!(result, None);
    let listed = files(&[("1.json", "{\"sessionId\":\"other\",\"cwd\":\"/x\"}")]);
    assert_eq!(find_project_dir_in_session_files(&listed, "nonexistent-session-id"), None);
}

#[test]
fn session_file_names() {
    assert!(is_json_file_name("123.json"));
    assert!(is_json_file_name("..json"));
    assert!(!is_json_file_name(".json"));
    assert!(!is_json_file_name("123.JSON"));
    assert!(!is_json_file_name("123.json.bak"));
    assert!(!is_json_file_name("json"));
}

#[test]
fn session_files_scan_in_order() {
    let listed = files(&[
        ("notes.txt", "{\"sessionId\":\"s-1\",\"cwd\":\"/wrong\",\"pid\":1}"),
        ("bad.json", "s-1 is mentioned but this is not JSON"),
        ("other.json", "{\"sessionId\":\"s-2\",\"cwd\":\"/two\",\"pid\":2}"),
        ("a.json", "{\"sessionId\":\"s-1\",\"cwd\":\"/one\",\"pid\":4242}"),
        ("b.json", "{\"sessionId\":\"s-1\",\"cwd\":\"/later\",\"pid\":7}"),
    ]);
    assert_eq!(find_project_dir_in_session_files(&listed, "s-1"), Some("/one".to_string()));
    assert_eq!(find_pid_in_session_files(&listed, "s-1"), Some(Some(4242)));
    assert_eq!(find_project_dir_in_session_files(&listed, "s-2"), Some("/two".to_string()));
    assert_eq!(find_pid_in_session_files(&listed, "s-3"), None);
    // a file about the session without a usable cwd or pid settles the answer
    let listed = files(&[
        ("a.json", "{\"sessionId\":\"s-1\",\"cwd\":5,\"pid\":-3}"),
        ("b.json", "{\"sessionId\":\"s-1\",\"cwd\":\"/later\",\"pid\":7}"),
    ]);
    assert_eq!(find_project_dir_in_session_files(&listed, "s-1"), None);
    assert_eq!(find_pid_in_session_files(&listed, "s-1"), Some(None));
}

#[test]
fn session_text_decisions() {
    let text = "{\"sessionId\":\"s-1\",\"cwd\":\"/w\",\"pid\":9}";
    assert_eq!(session_text_pid("f.json", text, "s-1"), Some(Some(9)));
    assert_eq!(session_text_pid("f.txt", text, "s-1"), None);
    assert_eq!(session_text_project_dir("f.json", text, "s-1"), Some(Some("/w".to_string())));
    assert_eq!(session_text_project_dir("f.json", text, "s-9"), None);
}

#[test]
fn liveness_answer() {
    assert!(session_alive(None, None));
    assert!(session_alive(Some(None), None));
    assert!(session_alive(Some(Some(12)), None));
    assert!(session_alive(Some(Some(12)), Some(true)));
    assert!(!session_alive(Some(Some(12)), Some(false)));
}

#[test]
fn clock_reading_to_millis() {
    assert_eq!(epoch_millis(None), 0);
    assert_eq!(epoch_millis(Some(1_700_000_000_123)), 1_700_000_000_123);
    assert_eq!(epoch_millis(Some(u128::MAX)), -1);
}

// ----- router -----

#[test]
fn record_session_stamps_the_wall_clock() {
    let before = std::time::SystemTime::now()
        .duration_since(std::time::UNIX_EPOCH)
        .unwrap()
        .as_millis() as i64;
    let mut router = empty_router();
    router.record_session("codex", "s", "p", "n".to_string(), None, SessionDiscoverySource::Header);
    let all = router.list_all_sessions(&PersistedData::new());
    assert_eq!(all.len(), 1);
    assert!(all[0].last_active_at >= before);
    assert!(all[0].last_active_at > 1_600_000_000_000);
}

#[test]
fn record_session_replaces_and_keeps_pin() {
    let mut router = empty_router();
    router.record_session_at("codex", "s", "p1", "one".to_string(), None, SessionDiscoverySource::Header, 10);
    router.set_override("codex", "s", "pinned");
    router.record_session_at("codex", "s", "p3", "two".to_string(), Some("/d".to_string()), SessionDiscoverySource::MetadataUserId, 20);
    let all = router.list_all_sessions(&PersistedData::new());
    assert_eq!(all.len(), 1);
    assert_eq!(all[0].display_name, "two");
    assert_eq!(all[0].provider_id, "p3");
    assert_eq!(all[0].last_active_at, 20);
    assert_eq!(all[0].source, SessionDiscoverySource::MetadataUserId);
    // the pin survives the new request
    let entries = router.list_sessions("codex", &Vec::new());
    assert_eq!(entries[0].provider_id, "pinned");
    assert!(entries[0].is_routed);
    assert_eq!(router.sessions_for_provider("codex", "pinned").len(), 1);
    assert_eq!(router.sessions_for_provider("codex", "p3").len(), 0);
}

#[test]
fn set_override_updates_recorded_provider() {
    let mut router = empty_router();
    router.record_session_at("codex", "s", "p1", "n".to_string(), None, SessionDiscoverySource::Header, 1);
    router.set_override("codex", "s", "p2");
    let all = router.list_all_sessions(&PersistedData::new());
    assert_eq!(all[0].provider_id, "p2");
    // removing the pin keeps the provider the session recorded
    router.remove_override("codex", "s");
    let entries = router.list_sessions("codex", &Vec::new());
    assert!(!entries[0].is_routed);
    assert_eq!(entries[0].provider_id, "p2");
}

#[test]
fn remove_override_without_pin_returns_none() {
    let mut router = empty_router();
    assert_eq!(router.remove_override("codex", "nobody"), None);
}

#[test]
fn list_sessions_sorts_newest_first_and_filters_app() {
    let mut router = empty_router();
    router.record_session_at("codex", "old", "p", "o".to_string(), None, SessionDiscoverySource::Header, 100);
    router.record_session_at("codex", "new", "p", "n".to_string(), None, SessionDiscoverySource::Header, 300);
    router.record_session_at("codex", "mid", "p", "m".to_string(), None, SessionDiscoverySource::Header, 200);
    router.record_session_at("gemini", "other", "p", "x".to_string(), None, SessionDiscoverySource::Header, 400);
    let entries = router.list_sessions("codex", &vec!["mid".to_string()]);
    let ids: Vec<&str> = entries.iter().map(|e| e.session_id.as_str()).collect();
    assert_eq!(ids, vec!["new", "mid", "old"]);
    assert!(entries.iter().all(|e| e.app_type == "codex"));
    assert!(entries[1].is_alive);
    assert!(!entries[0].is_alive);
    assert!(!entries[2].is_alive);
}

#[test]
fn overrides_are_per_app_type() {
    let mut router = empty_router();
    router.set_override("codex", "s", "p");
    assert_eq!(router.get_override_provider("gemini", "s"), None);
    assert_eq!(router.get_override_provider("codex", "s").as_deref(), Some("p"));
}

#[test]
fn persisted_override_comes_back_after_restart() {
    let mut router = empty_router();
    router.record_session_at("codex", "s-1", "p1", "proj".to_string(), Some("/w/proj".to_string()), SessionDiscoverySource::Header, 5);
    router.set_override("codex", "s-1", "p2");
    let mut data = PersistedData::new();
    router.persist_override_at(&mut data, "codex", "s-1", "p2", 77);
    let entries = data.entries();
    assert_eq!(entries.len(), 1);
    assert_eq!(entries[0].0, "codex:s-1");
    assert_eq!(entries[0].1.display_name, "proj");
    assert_eq!(entries[0].1.project_dir.as_deref(), Some("/w/proj"));
    assert_eq!(entries[0].1.pinned_at, 77);

    let restarted = SessionRouter::new(&data);
    assert_eq!(restarted.get_override_provider("codex", "s-1").as_deref(), Some("p2"));

    // before any request, the pinned session shows among all sessions
    let all = restarted.list_all_sessions(&data);
    assert_eq!(all.len(), 1);
    assert_eq!(all[0].session_id, "s-1");
    assert_eq!(all[0].provider_id, "p2");
    assert_eq!(all[0].display_name, "proj");
    assert_eq!(all[0].last_active_at, 77);
    assert_eq!(all[0].source, SessionDiscoverySource::Generated);

    // forgetting the record drops the pin at the next restart
    forget_persisted_override(&mut data, "codex", "s-1");
    assert_eq!(data.entries().len(), 0);
    let restarted = SessionRouter::new(&data);
    assert_eq!(restarted.get_override_provider("codex", "s-1"), None);
}

#[test]
fn persist_override_stamps_the_wall_clock() {
    let router = empty_router();
    let mut data = PersistedData::new();
    router.persist_override(&mut data, "codex", "s", "p");
    assert!(data.entries()[0].1.pinned_at > 1_600_000_000_000);
    // no session recorded: empty name, no directory
    assert_eq!(data.entries()[0].1.display_name, "");
    assert_eq!(data.entries()[0].1.project_dir, None);
}

#[test]
fn restored_session_names_fall_back_to_id_prefix() {
    let mut data = PersistedData::new();
    data.insert_override(
        "codex:0123456789abcdef".to_string(),
        PersistedOverride { provider_id: "p".to_string(), display_name: String::new(), project_dir: None, pinned_at: 3 },
    );
    data.insert_override(
        "no-colon-key".to_string(),
        PersistedOverride { provider_id: "q".to_string(), display_name: "x".to_string(), project_dir: None, pinned_at: 4 },
    );
    let router = SessionRouter::new(&data);
    let all = router.list_all_sessions(&data);
    assert_eq!(all.len(), 1);
    assert_eq!(all[0].display_name, "01234567");
    assert_eq!(all[0].app_type, "codex");
}

#[test]
fn list_all_sessions_prefers_memory() {
    let mut data = PersistedData::new();
    data.insert_override(
        "codex:s".to_string(),
        PersistedOverride { provider_id: "p".to_string(), display_name: "disk".to_string(), project_dir: None, pinned_at: 3 },
    );
    let mut router = SessionRouter::new(&data);
    router.record_session_at("codex", "s", "p", "memory".to_string(), None, SessionDiscoverySource::Header, 9);
    let all = router.list_all_sessions(&data);
    assert_eq!(all.len(), 1);
    assert_eq!(all[0].display_name, "memory");
}

#[test]
fn persisted_data_insert_replaces() {
    let mut data = PersistedData::new();
    let rec = |p: &str| PersistedOverride { provider_id: p.to_string(), display_name: String::new(), project_dir: None, pinned_at: 0 };
    data.insert_override("k".to_string(), rec("a"));
    data.insert_override("k".to_string(), rec("b"));
    assert_eq!(data.entries().len(), 1);
    assert_eq!(data.entries()[0].1.provider_id, "b");
    data.remove_override("missing");
    assert_eq!(data.entries().len(), 1);
    data.remove_override("k");
    assert_eq!(data.entries().len(), 0);
}

#[test]
fn cleanup_drops_stale_sessions_and_their_pins() {
    let mut router = empty_router();
    // threshold 100 for generated ids, 400 for the others; now = 1000
    router.record_session_at("codex", "gen-old", "p", "a".to_string(), None, SessionDiscoverySource::Generated, 850);
    router.record_session_at("codex", "gen-new", "p", "b".to_string(), None, SessionDiscoverySource::Generated, 950);
    router.record_session_at("codex", "hdr-mid", "p", "c".to_string(), None, SessionDiscoverySource::Header, 700);
    router.record_session_at("codex", "hdr-old", "p", "d".to_string(), None, SessionDiscoverySource::Header, 500);
    router.set_override("codex", "gen-old", "x");
    router.set_override("codex", "hdr-mid", "y");
    router.set_override("codex", "unseen", "z");
    assert!(router.cleanup_in_range_at(100, 1000));
    router.cleanup_stale_at(100, 1000);
    let mut ids: Vec<String> = router
        .list_all_sessions(&PersistedData::new())
        .into_iter()
        .map(|s| s.session_id)
        .collect();
    ids.sort();
    assert_eq!(ids, vec!["gen-new".to_string(), "hdr-mid".to_string()]);
    assert_eq!(router.get_override_provider("codex", "gen-old"), None);
    assert_eq!(router.get_override_provider("codex", "hdr-mid").as_deref(), Some("y"));
    assert_eq!(router.get_override_provider("codex", "unseen").as_deref(), Some("z"));
}

#[test]
fn cleanup_out_of_range_changes_nothing() {
    let mut router = empty_router();
    router.record_session_at("codex", "s", "p", "a".to_string(), None, SessionDiscoverySource::Header, i64::MIN);
    assert!(!router.cleanup_in_range_at(100, 1000));
    assert!(!router.cleanup_stale(100));
    assert_eq!(router.list_all_sessions(&PersistedData::new()).len(), 1);
}

#[test]
fn cleanup_with_the_clock_keeps_fresh_sessions() {
    let mut router = empty_router();
    router.record_session("codex", "fresh", "p", "a".to_string(), None, SessionDiscoverySource::Generated);
    router.record_session_at("codex", "ancient", "p", "b".to_string(), None, SessionDiscoverySource::Generated, 0);
    assert!(router.cleanup_stale(60_000));
    let all = router.list_all_sessions(&PersistedData::new());
    assert_eq!(all.len(), 1);
    assert_eq!(all[0].session_id, "fresh");
}
