use ijoka::mirror::{Feature, Mirror, ProjectStats};
use ijoka::projects::{decode_candidate, scan_projects};

#[test]
fn mirror_connection_tracks_outcomes() {
    let mut m = Mirror::new();
    assert!(!m.is_connected());
    m.apply_connect_outcome(false);
    assert!(!m.is_connected());
    m.apply_connect_outcome(true);
    assert!(m.is_connected());
    m.apply_connect_outcome(false);
    assert!(m.is_connected());
}

#[test]
fn graph_feature_flags_derive_from_status() {
    let done = Feature::from_status(
        Some("f1".to_string()),
        "desc".to_string(),
        "functional".to_string(),
        "complete".to_string(),
        None,
        None,
        None,
    );
    assert!(done.passes);
    assert!(!done.in_progress);
    let active = Feature::from_status(
        None,
        "desc".to_string(),
        "functional".to_string(),
        "in_progress".to_string(),
        Some(2),
        None,
        Some("smith".to_string()),
    );
    assert!(!active.passes);
    assert!(active.in_progress);
    let pending = Feature::from_status(
        None,
        "desc".to_string(),
        "functional".to_string(),
        "pending".to_string(),
        None,
        None,
        None,
    );
    assert!(!pending.passes);
    assert!(!pending.in_progress);
}

#[test]
fn project_stats_percentage_rounds_down() {
    let s = ProjectStats::from_counts(3, 2, 1, 4);
    assert_eq!(s.total, 3);
    assert_eq!(s.completed, 2);
    assert_eq!(s.percentage, 66);
    assert_eq!(s.active_sessions, 4);
    let empty = ProjectStats::from_counts(0, 0, 0, 0);
    assert_eq!(empty.percentage, 0);
}

#[test]
fn candidate_decoding() {
    assert_eq!(decode_candidate(".hidden"), None);
    assert_eq!(decode_candidate("a%20b"), Some("a b".to_string()));
    assert_eq!(decode_candidate("plain"), Some("plain".to_string()));
}

#[test]
fn scanned_projects_are_sorted_and_unique() {
    let found = vec!["/b".to_string(), "/a".to_string()];
    let decoded = vec!["/a".to_string(), "/c".to_string()];
    let all = scan_projects(found, decoded);
    assert_eq!(all, vec!["/a".to_string(), "/b".to_string(), "/c".to_string()]);
}
