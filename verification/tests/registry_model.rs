use std::sync::Arc;

use git2::Repository;
use stashroom::repo::{str_eq, OpenStep, RegistryError, RepoRegistry};
use tempfile::TempDir;

fn repo() -> (TempDir, Arc<Repository>) {
    let dir = TempDir::new().unwrap();
    let repo = Repository::init(dir.path()).unwrap();
    (dir, Arc::new(repo))
}

#[test]
fn test_register_and_get() {
    let (_dir, r) = repo();
    let mut reg = RepoRegistry::new();
    assert!(reg.repos().is_empty());
    let id = reg.register("/tmp/one", r.clone());
    assert_eq!(id.len(), 36, "a hyphenated UUID");
    let found = reg.get_repo(&id).ok().unwrap();
    assert!(Arc::ptr_eq(&found, &r));
    assert_eq!(reg.lookup_path("/tmp/one").unwrap().repo_id, id);
    assert!(reg.lookup_path("/tmp/two").is_none());
}

#[test]
fn test_unique_ids_for_different_paths() {
    let (_d1, r1) = repo();
    let (_d2, r2) = repo();
    let mut reg = RepoRegistry::new();
    let id1 = reg.register("/a", r1);
    let id2 = reg.register("/b", r2);
    assert_ne!(id1, id2);
    assert_eq!(reg.repos().len(), 2);
}

#[test]
fn test_close_keeps_other_repos() {
    let (_d1, r1) = repo();
    let (_d2, r2) = repo();
    let mut reg = RepoRegistry::new();
    let id1 = reg.register("/a", r1);
    let id2 = reg.register("/b", r2.clone());
    assert!(reg.close_repo(&id1).is_ok());
    assert!(reg.get_repo(&id1).is_err());
    assert!(Arc::ptr_eq(&reg.get_repo(&id2).ok().unwrap(), &r2));
    assert!(reg.lookup_path("/a").is_none());
    assert_eq!(reg.repos().len(), 1);
    assert!(reg.close_repo(&id2).is_ok());
    assert!(reg.repos().is_empty());
}

#[test]
fn test_registry_errors() {
    let mut reg = RepoRegistry::new();
    match reg.get_repo("missing") {
        Err(RegistryError::NotFound { repo_id }) => assert_eq!(repo_id, "missing"),
        Ok(_) => panic!("nothing is registered"),
    }
    match reg.close_repo("missing") {
        Err(e) => assert_eq!(e.message(), "Repository not found: missing"),
        Ok(()) => panic!("nothing is registered"),
    }
}

#[test]
fn test_str_eq() {
    assert!(str_eq("abc", "abc"));
    assert!(!str_eq("abc", "abd"));
    assert!(!str_eq("", "a"));
    assert!(str_eq("", ""));
}

#[test]
fn test_open_or_reuse_finds_open_path() {
    let (_dir, r) = repo();
    let mut reg = RepoRegistry::new();
    assert!(matches!(reg.open_or_reuse("/tmp/one"), OpenStep::Open));
    let id = reg.register("/tmp/one", r.clone());
    match reg.open_or_reuse("/tmp/one") {
        OpenStep::Reuse { repo_id, path, repo } => {
            assert_eq!(repo_id, id);
            assert_eq!(path, "/tmp/one");
            assert!(Arc::ptr_eq(&repo, &r));
        }
        OpenStep::Open => panic!("an open path is reused"),
    }
    assert!(matches!(reg.open_or_reuse("/tmp/two"), OpenStep::Open));
    assert_eq!(reg.repos().len(), 1);
}
