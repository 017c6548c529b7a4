use ijoka::cache::Database;
use ijoka::mirror::GraphDbConfig;
use ijoka::model::Config;

#[test]
fn test_default_config() {
    let config = GraphDbConfig::default();
    assert_eq!(config.uri, "bolt://localhost:7687");
    assert_eq!(config.user, "ijoka");
}

#[test]
fn config_defaults_apply_when_none_saved() {
    let db = Database::new();
    let c = db.get_config().unwrap();
    assert!(c.watched_projects.is_empty());
    assert_eq!(c.sync_server_port, 4000);
    assert!(c.notifications_enabled);
    assert!(c.selected_project.is_none());
}

#[test]
fn save_config_round_trip() {
    let mut db = Database::new();
    let config = Config {
        watched_projects: vec!["/p/one".to_string()],
        sync_server_port: 4100,
        notifications_enabled: false,
        selected_project: Some("/p/one".to_string()),
    };
    db.save_config(&config).unwrap();
    let back = db.get_config().unwrap();
    assert_eq!(back.watched_projects, vec!["/p/one".to_string()]);
    assert_eq!(back.sync_server_port, 4100);
    assert!(!back.notifications_enabled);
    assert_eq!(back.selected_project, Some("/p/one".to_string()));
}

#[test]
fn add_watched_project_is_idempotent() {
    let mut db = Database::new();
    assert!(db.add_watched_project("/p/one").unwrap());
    assert!(!db.add_watched_project("/p/one").unwrap());
    assert!(db.add_watched_project("/p/two").unwrap());
    let c = db.get_config().unwrap();
    assert_eq!(
        c.watched_projects,
        vec!["/p/one".to_string(), "/p/two".to_string()]
    );
}
