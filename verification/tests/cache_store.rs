use ijoka::cache::Database;
use ijoka::model::{AgentEvent, Feature, Session};

fn event(event_type: &str, session: &str, project: &str, feature: Option<&str>) -> AgentEvent {
    AgentEvent {
        id: None,
        event_type: event_type.to_string(),
        source_agent: "test".to_string(),
        session_id: session.to_string(),
        project_dir: project.to_string(),
        tool_name: None,
        payload: None,
        feature_id: feature.map(|f| f.to_string()),
        created_at: "2024-01-01T00:00:00+00:00".to_string(),
    }
}

fn feature(id: &str, project: &str, description: &str, passes: bool, in_progress: bool) -> Feature {
    Feature {
        id: id.to_string(),
        project_dir: project.to_string(),
        description: description.to_string(),
        category: "functional".to_string(),
        passes,
        in_progress,
        agent: None,
        steps: None,
        updated_at: "t0".to_string(),
    }
}

#[test]
fn insert_assigns_ascending_ids() {
    let mut db = Database::new();
    let a = db.insert_event(&event("A", "s", "/p", None)).unwrap();
    let b = db.insert_event(&event("B", "s", "/p", None)).unwrap();
    assert_eq!(a, 1);
    assert_eq!(b, 2);
    let all = db.get_events(-1).unwrap();
    assert_eq!(all.len(), 2);
    assert_eq!(all[0].event_type, "B");
    assert_eq!(all[1].event_type, "A");
    assert_eq!(all[0].id, Some(2));
}

#[test]
fn get_events_honors_limit_latest_first() {
    let mut db = Database::new();
    for k in 0..5 {
        db.insert_event(&event(&format!("E{}", k), "s", "/p", None)).unwrap();
    }
    let top = db.get_events(2).unwrap();
    assert_eq!(top.len(), 2);
    assert_eq!(top[0].event_type, "E4");
    assert_eq!(top[1].event_type, "E3");
}

#[test]
fn events_by_feature_filters() {
    let mut db = Database::new();
    db.insert_event(&event("A", "s", "/p", Some("/p:0"))).unwrap();
    db.insert_event(&event("B", "s", "/p", None)).unwrap();
    db.insert_event(&event("C", "s", "/p", Some("/p:0"))).unwrap();
    let linked = db.get_events_by_feature("/p:0", 10).unwrap();
    assert_eq!(linked.len(), 2);
    assert_eq!(linked[0].event_type, "C");
    assert_eq!(linked[1].event_type, "A");
}

#[test]
fn unlinked_events_and_linking() {
    let mut db = Database::new();
    let id = db.insert_event(&event("A", "s", "/p", None)).unwrap();
    db.insert_event(&event("B", "s", "/q", None)).unwrap();
    let unlinked = db.get_unlinked_events(Some("/p"), 10).unwrap();
    assert_eq!(unlinked.len(), 1);
    assert_eq!(unlinked[0].event_type, "A");
    assert!(db.link_event_to_feature(id, "/p:3").unwrap());
    assert!(!db.link_event_to_feature(999, "/p:3").unwrap());
    let unlinked_after = db.get_unlinked_events(Some("/p"), 10).unwrap();
    assert!(unlinked_after.is_empty());
    let linked = db.get_events_by_feature("/p:3", 10).unwrap();
    assert_eq!(linked.len(), 1);
}

#[test]
fn sync_features_upserts_by_id() {
    let mut db = Database::new();
    db.sync_features(vec![
        feature("/p:0", "/p", "one", false, false),
        feature("/p:1", "/p", "two", false, true),
    ])
    .unwrap();
    db.sync_features(vec![feature("/p:0", "/p", "one refined", true, false)]).unwrap();
    let fs = db.get_features(Some("/p")).unwrap();
    assert_eq!(fs.len(), 2);
    assert_eq!(fs[0].description, "one refined");
    assert!(fs[0].passes);
    assert_eq!(fs[1].description, "two");
}

#[test]
fn get_features_filters_by_project() {
    let mut db = Database::new();
    db.sync_features(vec![
        feature("/a:0", "/a", "x", false, false),
        feature("/b:0", "/b", "y", false, false),
    ])
    .unwrap();
    assert_eq!(db.get_features(Some("/a")).unwrap().len(), 1);
    assert_eq!(db.get_features(None).unwrap().len(), 2);
    assert_eq!(db.get_features(Some("/c")).unwrap().len(), 0);
}

#[test]
fn sessions_lifecycle() {
    let mut db = Database::new();
    let s = Session {
        session_id: "s1".to_string(),
        source_agent: "agent".to_string(),
        project_dir: "/p".to_string(),
        started_at: "t0".to_string(),
        last_activity: "t0".to_string(),
        status: "active".to_string(),
    };
    db.upsert_session(&s).unwrap();
    assert_eq!(db.get_sessions().unwrap().len(), 1);
    db.update_session_status("s1", "ended", "t1").unwrap();
    assert!(db.get_sessions().unwrap().is_empty());
    db.upsert_session(&Session { status: "active".to_string(), ..restart(&s) }).unwrap();
    assert_eq!(db.get_sessions().unwrap().len(), 1);
}

fn restart(s: &Session) -> Session {
    Session {
        session_id: s.session_id.clone(),
        source_agent: s.source_agent.clone(),
        project_dir: s.project_dir.clone(),
        started_at: "t2".to_string(),
        last_activity: "t2".to_string(),
        status: "active".to_string(),
    }
}

#[test]
fn sessions_come_back_most_recent_first() {
    let mut db = Database::new();
    let mk = |id: &str, at: &str| Session {
        session_id: id.to_string(),
        source_agent: "agent".to_string(),
        project_dir: "/p".to_string(),
        started_at: "t0".to_string(),
        last_activity: at.to_string(),
        status: "active".to_string(),
    };
    db.upsert_session(&mk("a", "2024-01-01T00:00:05+00:00")).unwrap();
    db.upsert_session(&mk("b", "2024-01-01T00:00:09+00:00")).unwrap();
    db.upsert_session(&mk("c", "2024-01-01T00:00:05+00:00")).unwrap();
    let sessions = db.get_sessions().unwrap();
    let ids: Vec<&str> = sessions.iter().map(|s| s.session_id.as_str()).collect();
    assert_eq!(ids, vec!["b", "a", "c"]);
}

#[test]
fn stats_counts_and_percentage() {
    let mut db = Database::new();
    db.sync_features(vec![
        feature("/p:0", "/p", "a", true, false),
        feature("/p:1", "/p", "b", true, true),
        feature("/p:2", "/p", "c", false, true),
    ])
    .unwrap();
    let stats = db.get_stats().unwrap();
    assert_eq!(stats.total, 3);
    assert_eq!(stats.completed, 2);
    assert_eq!(stats.in_progress, 1);
    assert_eq!(stats.percentage, 66);
    assert_eq!(stats.active_sessions, 0);
}

#[test]
fn stats_of_empty_cache() {
    let db = Database::new();
    let stats = db.get_stats().unwrap();
    assert_eq!(stats.total, 0);
    assert_eq!(stats.percentage, 0);
}

#[test]
fn projects_are_distinct_and_sorted() {
    let mut db = Database::new();
    db.sync_features(vec![
        feature("/b:0", "/b", "x", false, false),
        feature("/a:0", "/a", "y", false, false),
        feature("/a:1", "/a", "z", false, false),
    ])
    .unwrap();
    let projects = db.get_projects().unwrap();
    assert_eq!(projects, vec!["/a".to_string(), "/b".to_string()]);
}
