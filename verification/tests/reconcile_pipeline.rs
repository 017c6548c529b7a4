use ijoka::bus::{EventBus, RecvOutcome};
use ijoka::cache::Database;
use ijoka::reconcile::{handle_feature_list_change, make_feature_id, parse_feature_list};

const T0: &str = "2024-01-01T00:00:00+00:00";
const T1: &str = "2024-01-01T00:05:00+00:00";

fn list(passes: [bool; 3]) -> String {
    format!(
        "[{{\"description\":\"alpha\",\"category\":\"ui\",\"passes\":{},\"inProgress\":false}},{{\"description\":\"beta\",\"passes\":{},\"agent\":\"smith\"}},{{\"description\":\"gamma\",\"passes\":{},\"inProgress\":true,\"steps\":[\"s1\",\"s2\"]}}]",
        passes[0], passes[1], passes[2]
    )
}

#[test]
fn feature_ids_are_positional_and_stable() {
    assert_eq!(make_feature_id("/p", 0), "/p:0");
    assert_eq!(make_feature_id("/p", 11), "/p:11");
    let first = parse_feature_list("/p", &list([false, false, false]), T0).unwrap();
    let second = parse_feature_list("/p", &list([false, false, false]), T1).unwrap();
    assert_eq!(first.len(), 3);
    for i in 0..3 {
        assert_eq!(first[i].id, format!("/p:{}", i));
        assert_eq!(first[i].id, second[i].id);
    }
    assert_eq!(first[1].agent, Some("smith".to_string()));
    assert_eq!(first[0].category, "ui");
    assert_eq!(first[1].category, "functional");
    assert_eq!(
        first[2].steps,
        Some(vec!["s1".to_string(), "s2".to_string()])
    );
}

#[test]
fn scenario_no_completions_syncs_three_rows() {
    let mut db = Database::new();
    let mut bus = EventBus::new(100);
    let outcome = handle_feature_list_change(&mut db, &mut bus, "/p", &list([false, false, false]), T0);
    assert!(outcome.ok);
    assert!(outcome.events.is_empty());
    assert!(outcome.notifications.is_empty());
    assert_eq!(db.get_features(Some("/p")).unwrap().len(), 3);
}

#[test]
fn scenario_completion_edge_emits_exactly_one_event() {
    let mut db = Database::new();
    let mut bus = EventBus::new(100);
    handle_feature_list_change(&mut db, &mut bus, "/p", &list([false, false, false]), T0);
    let outcome = handle_feature_list_change(&mut db, &mut bus, "/p", &list([false, true, false]), T1);
    assert!(outcome.ok);
    assert_eq!(outcome.events.len(), 1);
    let ev = &outcome.events[0];
    assert_eq!(ev.event_type, "FeatureCompleted");
    assert_eq!(ev.feature_id, Some("/p:1".to_string()));
    assert_eq!(ev.source_agent, "smith");
    assert_eq!(ev.session_id, "file-watch");
    assert_eq!(ev.tool_name, Some("beta".to_string()));
    assert_eq!(ev.payload, Some("{\"category\":\"functional\"}".to_string()));
    assert_eq!(outcome.notifications.len(), 1);
    assert_eq!(outcome.notifications[0].body, "beta");
}

#[test]
fn reingesting_unchanged_list_emits_nothing() {
    let mut db = Database::new();
    let mut bus = EventBus::new(100);
    let first = handle_feature_list_change(&mut db, &mut bus, "/p", &list([true, false, true]), T0);
    assert_eq!(first.events.len(), 2);
    let second = handle_feature_list_change(&mut db, &mut bus, "/p", &list([true, false, true]), T1);
    assert!(second.ok);
    assert!(second.events.is_empty());
    let third = handle_feature_list_change(&mut db, &mut bus, "/p", &list([true, false, true]), T1);
    assert!(third.events.is_empty());
}

#[test]
fn completed_events_reach_cache_and_bus() {
    let mut db = Database::new();
    let mut bus = EventBus::new(100);
    let mut consumer = bus.subscribe();
    handle_feature_list_change(&mut db, &mut bus, "/p", &list([false, false, false]), T0);
    handle_feature_list_change(&mut db, &mut bus, "/p", &list([true, false, false]), T1);
    let stored = db.get_events(-1).unwrap();
    assert_eq!(stored.len(), 1);
    assert_eq!(stored[0].event_type, "FeatureCompleted");
    assert_eq!(stored[0].id, Some(1));
    match bus.recv(&mut consumer) {
        RecvOutcome::Event(e) => assert_eq!(e.feature_id, Some("/p:0".to_string())),
        _ => panic!("expected the completion event on the bus"),
    }
}

#[test]
fn unparsable_list_changes_nothing() {
    let mut db = Database::new();
    let mut bus = EventBus::new(100);
    handle_feature_list_change(&mut db, &mut bus, "/p", &list([false, false, false]), T0);
    let outcome = handle_feature_list_change(&mut db, &mut bus, "/p", "{oops", T1);
    assert!(!outcome.ok);
    assert!(outcome.events.is_empty());
    assert_eq!(db.get_features(Some("/p")).unwrap().len(), 3);
    let outcome2 = handle_feature_list_change(&mut db, &mut bus, "/p", "{\"not\":\"an array\"}", T1);
    assert!(!outcome2.ok);
}

#[test]
fn duplicate_descriptions_dedup_by_text() {
    let mut db = Database::new();
    let mut bus = EventBus::new(100);
    let v1 = "[{\"description\":\"same\",\"passes\":true},{\"description\":\"same\",\"passes\":false}]";
    let v2 = "[{\"description\":\"same\",\"passes\":true},{\"description\":\"same\",\"passes\":true}]";
    let first = handle_feature_list_change(&mut db, &mut bus, "/p", v1, T0);
    assert_eq!(first.events.len(), 1);
    let second = handle_feature_list_change(&mut db, &mut bus, "/p", v2, T1);
    assert!(second.events.is_empty());
}
