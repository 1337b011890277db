use stashroom::persistence::{
    ContextLines, RepoEntry, SettingsState, WorkspaceState, SETTINGS_VERSION, WORKSPACE_VERSION,
};
use git2::Repository;
use tempfile::TempDir;

fn create_test_repo() -> (TempDir, String) {

    let temp_dir = TempDir::new().unwrap();
    let repo_path = temp_dir.path().to_string_lossy().to_string();

    let repo = Repository::init(&repo_path).unwrap();
    let sig = git2::Signature::now("Test User", "test@example.com").unwrap();

    // Create initial commit
    let tree_id = {
        let mut index = repo.index().unwrap();
        index.write_tree().unwrap()
    };
    let tree = repo.find_tree(tree_id).unwrap();
    repo.commit(
        Some("HEAD"),
        &sig,
        &sig,
        "Initial commit",
        &tree,
        &[],
    )
    .unwrap();

    (temp_dir, repo_path)
}

#[test]
fn test_workspace_default() {
    let workspace = WorkspaceState::default();
    assert_eq!(workspace.version, WORKSPACE_VERSION);
    assert_eq!(workspace.repos.len(), 0);
    assert_eq!(workspace.active_repo_path, None);
}

#[test]
fn test_settings_default() {
    let settings = SettingsState::default();
    assert_eq!(settings.version, SETTINGS_VERSION);
    assert_eq!(settings.theme, "system");
    assert_eq!(settings.show_line_numbers, false);
    assert_eq!(settings.compact_mode, false);
}

#[test]
fn test_workspace_validate_repos_removes_missing() {
    let (_temp_dir, valid_path) = create_test_repo();

    let mut workspace = WorkspaceState {
        version: 1,
        repos: vec![
            RepoEntry {
                path: valid_path.clone(),
                last_opened: Some(1234567890),
            },
            RepoEntry {
                path: "/path/that/does/not/exist".to_string(),
                last_opened: Some(1234567890),
            },
        ],
        active_repo_path: Some(valid_path.clone()),
    };

    let missing = workspace.validate_repos();

    // Should return one missing path
    assert_eq!(missing.len(), 1);
    assert_eq!(missing[0], "/path/that/does/not/exist");

    // Should retain only valid repo
    assert_eq!(workspace.repos.len(), 1);
    assert_eq!(workspace.repos[0].path, valid_path);

    // Active repo should still be valid
    assert_eq!(workspace.active_repo_path, Some(valid_path));
}

#[test]
fn test_workspace_validate_repos_clears_active_if_missing() {
    let (_temp_dir, valid_path) = create_test_repo();

    let mut workspace = WorkspaceState {
        version: 1,
        repos: vec![
            RepoEntry {
                path: valid_path.clone(),
                last_opened: Some(1234567890),
            },
            RepoEntry {
                path: "/missing/repo".to_string(),
                last_opened: Some(1234567890),
            },
        ],
        active_repo_path: Some("/missing/repo".to_string()),
    };

    workspace.validate_repos();

    // Should retain only valid repo
    assert_eq!(workspace.repos.len(), 1);

    // Active repo should be cleared since it was pointing to missing repo
    assert_eq!(workspace.active_repo_path, None);
}

#[test]
fn test_workspace_validate_repos_all_valid() {
    let (_temp_dir1, path1) = create_test_repo();
    let (_temp_dir2, path2) = create_test_repo();

    let mut workspace = WorkspaceState {
        version: 1,
        repos: vec![
            RepoEntry {
                path: path1.clone(),
                last_opened: Some(1234567890),
            },
            RepoEntry {
                path: path2.clone(),
                last_opened: Some(1234567891),
            },
        ],
        active_repo_path: Some(path1.clone()),
    };

    let missing = workspace.validate_repos();

    // No missing repos
    assert_eq!(missing.len(), 0);

    // All repos retained
    assert_eq!(workspace.repos.len(), 2);

    // Active repo unchanged
    assert_eq!(workspace.active_repo_path, Some(path1));
}

#[test]
fn test_workspace_validate_repos_all_missing() {
    let mut workspace = WorkspaceState {
        version: 1,
        repos: vec![
            RepoEntry {
                path: "/missing/repo1".to_string(),
                last_opened: Some(1234567890),
            },
            RepoEntry {
                path: "/missing/repo2".to_string(),
                last_opened: Some(1234567891),
            },
        ],
        active_repo_path: Some("/missing/repo1".to_string()),
    };

    let missing = workspace.validate_repos();

    // Should return all missing paths
    assert_eq!(missing.len(), 2);

    // All repos removed
    assert_eq!(workspace.repos.len(), 0);

    // Active repo cleared
    assert_eq!(workspace.active_repo_path, None);
}

#[test]
fn test_workspace_migration_no_op_for_current_version() {
    let workspace = WorkspaceState {
        version: WORKSPACE_VERSION,
        repos: vec![],
        active_repo_path: None,
    };

    let migrated = workspace.migrate();
    assert_eq!(migrated.version, WORKSPACE_VERSION);
}

#[test]
fn test_workspace_migration_from_older_version() {
    let workspace = WorkspaceState {
        version: 0, // Old version
        repos: vec![],
        active_repo_path: None,
    };

    let migrated = workspace.migrate();
    assert_eq!(migrated.version, WORKSPACE_VERSION);
}

#[test]
fn test_settings_migration_no_op_for_current_version() {
    let settings = SettingsState::default();
    let migrated = settings.migrate();
    assert_eq!(migrated.version, SETTINGS_VERSION);
}

#[test]
fn test_settings_migration_from_older_version() {
    let settings = SettingsState {
        version: 0, // Old version
        theme: "dark".to_string(),
        show_line_numbers: true,
        context_lines: ContextLines::Number(5),
        compact_mode: false,
    };

    let migrated = settings.migrate();
    assert_eq!(migrated.version, SETTINGS_VERSION);
    // Settings should be preserved
    assert_eq!(migrated.theme, "dark");
    assert_eq!(migrated.show_line_numbers, true);
}

#[test]
fn test_workspace_validates_non_git_directory() {
    // Create a regular directory (not a git repo)
    let temp_dir = TempDir::new().unwrap();
    let non_git_path = temp_dir.path().to_string_lossy().to_string();

    let mut workspace = WorkspaceState {
        version: 1,
        repos: vec![RepoEntry {
            path: non_git_path.clone(),
            last_opened: Some(1234567890),
        }],
        active_repo_path: Some(non_git_path),
    };

    let missing = workspace.validate_repos();

    // Should detect that directory exists but is not a git repo
    assert_eq!(missing.len(), 1);
    assert_eq!(workspace.repos.len(), 0);
}

fn entry(path: &str) -> RepoEntry {
    RepoEntry { path: path.to_string(), last_opened: None }
}

#[test]
fn test_retain_valid_keeps_order_and_reports_missing() {
    let mut workspace = WorkspaceState {
        version: 1,
        repos: vec![entry("/a"), entry("/b"), entry("/c"), entry("/d")],
        active_repo_path: Some("/c".to_string()),
    };
    let missing = workspace.retain_valid(&vec![true, false, true, false]);
    assert_eq!(missing, vec!["/b".to_string(), "/d".to_string()]);
    let kept: Vec<&str> = workspace.repos.iter().map(|r| r.path.as_str()).collect();
    assert_eq!(kept, vec!["/a", "/c"]);
    assert_eq!(workspace.active_repo_path, Some("/c".to_string()));
    workspace.retain_valid(&vec![true, false]);
    assert_eq!(workspace.active_repo_path, None);
    assert_eq!(workspace.version, 1);
}

#[test]
fn test_retain_valid_without_active_repo() {
    let mut workspace = WorkspaceState {
        version: 1,
        repos: vec![entry("/a")],
        active_repo_path: None,
    };
    let missing = workspace.retain_valid(&vec![true]);
    assert!(missing.is_empty());
    assert_eq!(workspace.repos.len(), 1);
    assert_eq!(workspace.active_repo_path, None);
}

#[test]
fn test_migration_keeps_newer_versions() {
    let workspace = WorkspaceState { version: 7, repos: vec![entry("/x")], active_repo_path: None };
    let migrated = workspace.migrate();
    assert_eq!(migrated.version, 7);
    assert_eq!(migrated.repos.len(), 1);
    let settings = SettingsState { version: 9, ..SettingsState::default() };
    assert_eq!(settings.migrate().version, 9);
}

#[test]
fn test_settings_default_context_lines() {
    let settings = SettingsState::default();
    assert!(matches!(settings.context_lines, ContextLines::Number(3)));
}

#[test]
fn test_workspace_validate_repos_settles() {
    let (_temp_dir, valid_path) = create_test_repo();
    let mut workspace = WorkspaceState {
        version: 1,
        repos: vec![
            RepoEntry { path: valid_path.clone(), last_opened: Some(1) },
            RepoEntry { path: "/no/such/repo".to_string(), last_opened: None },
        ],
        active_repo_path: Some(valid_path.clone()),
    };
    assert_eq!(workspace.validate_repos(), vec!["/no/such/repo".to_string()]);
    let again = workspace.validate_repos();
    assert!(again.is_empty());
    assert_eq!(workspace.repos.len(), 1);
    assert_eq!(workspace.repos[0].path, valid_path);
    assert_eq!(workspace.active_repo_path, Some(valid_path));
}
