use ijoka::bus::EventBus;
use ijoka::cache::Database;
use ijoka::watch::{build_transcript_event, feature_list_path, file_name, file_stem,
    get_active_feature_id, handle_transcript_change, route_path, transcript_project_dir,
    transcript_session_id, PathKind};

const T0: &str = "2024-01-01T00:00:00+00:00";

const ROOT: &str = ".agent/projects";

#[test]
fn routing_by_suffix_and_location() {
    assert_eq!(
        route_path("/home/u/.agent/projects/-p/sess.jsonl", ROOT),
        PathKind::Transcript
    );
    assert_eq!(route_path("/p/feature_list.json", ROOT), PathKind::FeatureList);
    assert_eq!(route_path("/p/notes.txt", ROOT), PathKind::Other);
    assert_eq!(route_path("/p/sess.jsonl", ROOT), PathKind::Other);
    assert_eq!(
        route_path("/elsewhere/kept/sess.jsonl", "kept"),
        PathKind::Transcript
    );
}

#[test]
fn path_pieces() {
    assert_eq!(file_name("/a/b/c.jsonl"), "c.jsonl");
    assert_eq!(file_stem("c.jsonl"), "c");
    assert_eq!(file_stem("noext"), "noext");
    assert_eq!(file_stem(".hidden"), ".hidden");
    assert_eq!(feature_list_path("/p"), "/p/feature_list.json");
}

#[test]
fn project_dir_is_decoded_from_dashes() {
    let p = "/home/u/.agent/projects/-Users-dev-proj/sess-1.jsonl";
    assert_eq!(transcript_project_dir(p), "/Users/dev/proj");
    assert_eq!(transcript_session_id(p), "sess-1");
    let plain = "/home/u/.agent/projects/plainname/s.jsonl";
    assert_eq!(transcript_project_dir(plain), "plainname");
}

#[test]
fn active_feature_lookup() {
    let content = "[{\"description\":\"a\"},{\"description\":\"b\",\"inProgress\":true}]";
    assert_eq!(get_active_feature_id("/p", content), Some("/p:1".to_string()));
    let idle = "[{\"description\":\"a\"}]";
    assert_eq!(get_active_feature_id("/p", idle), None);
    assert_eq!(get_active_feature_id("/p", "nonsense"), None);
}

#[test]
fn transcript_change_builds_and_stores_event() {
    let mut db = Database::new();
    let mut bus = EventBus::new(100);
    let path = "/home/u/.agent/projects/-w-proj/abc.jsonl";
    let transcript =
        "{\"type\":\"user\",\"message\":{\"content\":[{\"type\":\"text\",\"text\":\"go\"}]}}\n";
    let features = "[{\"description\":\"a\",\"inProgress\":true}]";
    let ev = handle_transcript_change(
        &mut db,
        &mut bus,
        path,
        transcript,
        Some(features),
        "test-agent",
        "fallback-id",
        T0,
    );
    assert_eq!(ev.event_type, "TranscriptUpdated");
    assert_eq!(ev.source_agent, "test-agent");
    assert_eq!(ev.session_id, "abc");
    assert_eq!(ev.project_dir, "/w/proj");
    assert_eq!(ev.tool_name, Some("UserMessage".to_string()));
    assert_eq!(ev.feature_id, Some("/w/proj:0".to_string()));
    let rows = db.get_events(-1).unwrap();
    assert_eq!(rows.len(), 1);
    assert_eq!(rows[0].id, Some(1));
}

#[test]
fn unreadable_transcript_still_records_the_change() {
    let ev = build_transcript_event(
        "/home/u/.agent/projects/-w/x.jsonl",
        "",
        None,
        "test-agent",
        "fallback-id",
        T0,
    );
    assert_eq!(ev.tool_name, None);
    assert_eq!(ev.payload, None);
    assert_eq!(ev.feature_id, None);
    assert_eq!(ev.session_id, "x");
}
