use ijoka::bus::{EventBus, RecvOutcome};
use ijoka::cache::Database;
use ijoka::mirror::Mirror;
use ijoka::server::{get_events_query, health, link_event, receive_event, receive_feature_update,
    session_end, session_start, ChangedFeature, IncomingEvent, SessionStartRequest};

const T0: &str = "2024-01-01T00:00:00+00:00";

fn incoming() -> IncomingEvent {
    IncomingEvent {
        event_type: "ToolUse".to_string(),
        source_agent: "agent-cli".to_string(),
        session_id: "s1".to_string(),
        project_dir: "/p".to_string(),
        tool_name: Some("Bash".to_string()),
        payload: Some("{\"command\":\"ls\"}".to_string()),
        feature_id: None,
    }
}

#[test]
fn health_answers_ok() {
    assert_eq!(health(), "OK");
}

#[test]
fn posted_event_is_stored_acked_and_fanned_out() {
    let mut db = Database::new();
    let mut bus = EventBus::new(100);
    let mut c1 = bus.subscribe();
    let mut c2 = bus.subscribe();
    let resp = receive_event(&mut db, &mut bus, incoming(), T0);
    assert!(resp.ok);
    assert!(resp.error.is_none());
    let rows = db.get_events(-1).unwrap();
    assert_eq!(rows.len(), 1);
    assert_eq!(rows[0].event_type, "ToolUse");
    assert_eq!(rows[0].id, Some(1));
    assert_eq!(rows[0].created_at, T0);
    for c in [&mut c1, &mut c2] {
        match bus.recv(c) {
            RecvOutcome::Event(e) => assert_eq!(e.event_type, "ToolUse"),
            _ => panic!("every subscribed consumer receives the event"),
        }
    }
}

#[test]
fn local_write_succeeds_while_mirror_is_down() {
    let mut mirror = Mirror::new();
    assert!(!mirror.is_connected());
    mirror.apply_connect_outcome(false);
    assert!(!mirror.is_connected());
    let mut db = Database::new();
    let mut bus = EventBus::new(100);
    let resp = receive_event(&mut db, &mut bus, incoming(), T0);
    assert!(resp.ok);
    assert_eq!(db.get_events(-1).unwrap().len(), 1);
    assert!(!mirror.is_connected());
}

#[test]
fn feature_update_synthesizes_events_and_notifications() {
    let mut db = Database::new();
    let mut bus = EventBus::new(100);
    let changed = vec![
        ChangedFeature { description: "login".to_string(), category: "auth".to_string() },
        ChangedFeature { description: "logout".to_string(), category: "auth".to_string() },
    ];
    let (resp, notifications) = receive_feature_update(&mut db, &mut bus, "/p", &changed, T0);
    assert!(resp.ok);
    assert_eq!(notifications.len(), 2);
    assert_eq!(notifications[0].title, "Feature Completed");
    assert_eq!(notifications[1].body, "logout");
    let rows = db.get_events(-1).unwrap();
    assert_eq!(rows.len(), 2);
    assert_eq!(rows[1].event_type, "FeatureCompleted");
    assert_eq!(rows[1].source_agent, "hook");
    assert_eq!(rows[1].session_id, "feature-update");
    assert_eq!(rows[1].payload, Some("{\"category\":\"auth\"}".to_string()));
}

#[test]
fn session_start_registers_project_and_resyncs() {
    let mut db = Database::new();
    let mut bus = EventBus::new(100);
    let req = SessionStartRequest {
        session_id: "s1".to_string(),
        source_agent: "agent-cli".to_string(),
        project_dir: "/p".to_string(),
    };
    let content = "[{\"description\":\"a\"},{\"description\":\"b\"}]";
    let resp = session_start(&mut db, &mut bus, &req, Some(content), T0);
    assert!(resp.ok);
    let sessions = db.get_sessions().unwrap();
    assert_eq!(sessions.len(), 1);
    assert_eq!(sessions[0].status, "active");
    let config = db.get_config().unwrap();
    assert_eq!(config.watched_projects, vec!["/p".to_string()]);
    assert_eq!(db.get_features(Some("/p")).unwrap().len(), 2);
    let rows = db.get_events(-1).unwrap();
    assert_eq!(rows.len(), 1);
    assert_eq!(rows[0].event_type, "SessionStart");
}

#[test]
fn session_end_marks_ended_and_logs() {
    let mut db = Database::new();
    let mut bus = EventBus::new(100);
    let req = SessionStartRequest {
        session_id: "s1".to_string(),
        source_agent: "agent-cli".to_string(),
        project_dir: "/p".to_string(),
    };
    session_start(&mut db, &mut bus, &req, None, T0);
    let resp = session_end(&mut db, &mut bus, "s1", T0);
    assert!(resp.ok);
    assert!(db.get_sessions().unwrap().is_empty());
    let rows = db.get_events(-1).unwrap();
    assert_eq!(rows[0].event_type, "SessionEnd");
    assert_eq!(rows[0].project_dir, "/p");
    let resp2 = session_end(&mut db, &mut bus, "ghost", T0);
    assert!(resp2.ok);
    let rows = db.get_events(1).unwrap();
    assert_eq!(rows[0].project_dir, "unknown");
}

#[test]
fn boundary_rejects_unidentified_requests() {
    let mut db = Database::new();
    let mut bus = EventBus::new(100);
    let mut no_session = incoming();
    no_session.session_id = String::new();
    let resp = receive_event(&mut db, &mut bus, no_session, T0);
    assert!(!resp.ok);
    assert_eq!(
        resp.error,
        Some("sessionId and projectDir must be non-empty".to_string())
    );
    assert!(db.get_events(-1).unwrap().is_empty());
    let req = SessionStartRequest {
        session_id: "s1".to_string(),
        source_agent: "agent-cli".to_string(),
        project_dir: String::new(),
    };
    let resp = session_start(&mut db, &mut bus, &req, None, T0);
    assert!(!resp.ok);
    assert!(db.get_sessions().unwrap().is_empty());
    let resp = session_end(&mut db, &mut bus, "", T0);
    assert!(!resp.ok);
    assert_eq!(resp.error, Some("sessionId must be non-empty".to_string()));
    let (resp, notifications) = receive_feature_update(&mut db, &mut bus, "", &Vec::new(), T0);
    assert!(!resp.ok);
    assert!(notifications.is_empty());
    assert!(db.get_events(-1).unwrap().is_empty());
}

#[test]
fn link_endpoint_reports_missing_events() {
    let mut db = Database::new();
    let mut bus = EventBus::new(100);
    receive_event(&mut db, &mut bus, incoming(), T0);
    let ok = link_event(&mut db, 1, "/p:0");
    assert!(ok.ok);
    let missing = link_event(&mut db, 77, "/p:0");
    assert!(!missing.ok);
    assert_eq!(missing.error, Some("Event not found".to_string()));
}

#[test]
fn events_query_defaults_and_unlinked_filter() {
    let mut db = Database::new();
    let mut bus = EventBus::new(100);
    receive_event(&mut db, &mut bus, incoming(), T0);
    let mut linked = incoming();
    linked.feature_id = Some("/p:0".to_string());
    receive_event(&mut db, &mut bus, linked, T0);
    let all = get_events_query(&db, None, false, None);
    assert_eq!(all.len(), 2);
    let unlinked = get_events_query(&db, Some(10), true, Some("/p"));
    assert_eq!(unlinked.len(), 1);
    assert_eq!(unlinked[0].id, Some(1));
    let none = get_events_query(&db, Some(0), false, None);
    assert!(none.is_empty());
}
