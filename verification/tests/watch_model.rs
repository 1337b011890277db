use notify::{Config, RecommendedWatcher, Watcher};
use stashroom::types::WatchEvent;
use stashroom::watch::{
    event_type_name, has_git_component, reported, ChangeKind, EventCollector, PendingEvent,
    WatchError, WatchManager, QUIET_PERIOD_MS,
};

fn changed(full: &str, relative: Option<&str>) -> (String, Option<String>) {
    (full.to_string(), relative.map(|r| r.to_string()))
}

fn sorted_paths(e: &WatchEvent) -> Vec<String> {
    let mut p = e.paths.clone();
    p.sort();
    p
}

#[test]
fn test_watch_manager_creation() {
    let manager = WatchManager::new();
    assert_eq!(manager.list_watched().len(), 0);
}

#[test]
fn test_unwatch_unknown_repo() {
    let mut manager = WatchManager::new();
    let err = manager.unwatch_repo("nope").unwrap_err();
    assert_eq!(err.message(), "Watcher not found for repo: nope");
    assert!(matches!(err, WatchError::NotWatched { .. }));
    assert!(!manager.is_watched("nope"));
}

#[test]
fn test_event_type_names() {
    assert_eq!(event_type_name(ChangeKind::Create), "created");
    assert_eq!(event_type_name(ChangeKind::Modify), "modified");
    assert_eq!(event_type_name(ChangeKind::Remove), "deleted");
    assert_eq!(event_type_name(ChangeKind::Other), "modified");
}

#[test]
fn test_git_components() {
    assert!(has_git_component("/repo/.git/index"));
    assert!(has_git_component(".git"));
    assert!(has_git_component("a/.git"));
    assert!(!has_git_component("/repo/.gitignore"));
    assert!(!has_git_component("/repo/src/git/x"));
}

#[test]
fn test_reported_paths() {
    let paths = vec![
        changed("/repo/src/a.rs", Some("src/a.rs")),
        changed("/repo/.git/HEAD", Some(".git/HEAD")),
        changed("/elsewhere/b.rs", None),
        changed("/repo/b.rs", Some("b.rs")),
    ];
    assert_eq!(reported(&paths), vec!["src/a.rs".to_string(), "b.rs".to_string()]);
}

#[test]
fn test_pending_event_gathers_each_path_once() {
    let mut p = PendingEvent::new(ChangeKind::Create, 10);
    p.record(&vec!["a".to_string(), "b".to_string(), "a".to_string()], 20);
    p.record(&vec!["b".to_string(), "c".to_string()], 30);
    assert_eq!(p.paths, vec!["a".to_string(), "b".to_string(), "c".to_string()]);
    assert_eq!(p.event_type, "created");
    assert_eq!(p.last_update, 30);
    assert!(!p.is_quiet(30 + QUIET_PERIOD_MS - 1));
    assert!(p.is_quiet(30 + QUIET_PERIOD_MS));
    assert!(!p.is_quiet(5));
    let e = p.to_watch_event("r1");
    assert_eq!(e.repo_id, "r1");
    assert_eq!(e.paths.len(), 3);
}

#[test]
fn test_event_collector_debounces() {
    let mut c = EventCollector::new();
    c.handle_event("r1", ChangeKind::Modify, &vec![changed("/r/a.txt", Some("a.txt"))], 1000);
    c.handle_event(
        "r1",
        ChangeKind::Remove,
        &vec![changed("/r/b.txt", Some("b.txt")), changed("/r/a.txt", Some("a.txt"))],
        1100,
    );
    // Not quiet yet: the last change was 150 ms ago.
    assert!(c.take_ready("r1", 1250).is_none());
    let e = c.take_ready("r1", 1300).unwrap();
    assert_eq!(e.repo_id, "r1");
    assert_eq!(e.event_type, "modified");
    assert_eq!(sorted_paths(&e), vec!["a.txt".to_string(), "b.txt".to_string()]);
    // Reported changes are forgotten.
    assert!(c.take_ready("r1", 5000).is_none());
}

#[test]
fn test_event_collector_ignores_git_dir_and_keeps_repos_apart() {
    let mut c = EventCollector::new();
    c.handle_event("r1", ChangeKind::Modify, &vec![changed("/r/.git/index", Some(".git/index"))], 0);
    assert!(c.take_ready("r1", 10_000).is_none());
    c.handle_event("r1", ChangeKind::Create, &vec![changed("/r/x", Some("x"))], 0);
    c.handle_event("r2", ChangeKind::Remove, &vec![changed("/s/y", Some("y"))], 500);
    let e1 = c.take_ready("r1", 300).unwrap();
    assert_eq!(e1.event_type, "created");
    assert!(c.take_ready("r2", 600).is_none());
    let e2 = c.take_ready("r2", 700).unwrap();
    assert_eq!(e2.paths, vec!["y".to_string()]);
    assert_eq!(e2.event_type, "deleted");
}

#[test]
fn test_watchers_are_added_once_and_removed() {
    let make = || RecommendedWatcher::new(|_res: notify::Result<notify::Event>| {}, Config::default()).unwrap();
    let mut manager = WatchManager::new();
    manager.add_watcher("r1".to_string(), "/tmp/r1".to_string(), make());
    manager.add_watcher("r2".to_string(), "/tmp/r2".to_string(), make());
    manager.add_watcher("r1".to_string(), "/tmp/other".to_string(), make());
    assert_eq!(manager.list_watched(), vec!["r1".to_string(), "r2".to_string()]);
    assert!(manager.unwatch_repo("r1").is_ok());
    assert!(!manager.is_watched("r1"));
    assert!(manager.is_watched("r2"));
    assert!(manager.unwatch_repo("r1").is_err());
}
