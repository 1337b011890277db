use stashroom::status::{build_status_matrix, is_dirty, parse_status_entry, StatusFlags};
use stashroom::types::FileStatus;

fn none() -> StatusFlags {
    StatusFlags {
        index_new: false,
        index_modified: false,
        index_deleted: false,
        index_renamed: false,
        index_typechange: false,
        wt_new: false,
        wt_modified: false,
        wt_deleted: false,
        wt_typechange: false,
        wt_renamed: false,
        ignored: false,
        conflicted: false,
    }
}

#[test]
fn test_untracked_entry() {
    let e = parse_status_entry("new.txt".to_string(), StatusFlags { wt_new: true, ..none() });
    assert_eq!(e.path, "new.txt");
    assert_eq!(e.status, FileStatus::Untracked);
    assert!(e.untracked);
    assert_eq!(e.staged_status, None);
    assert_eq!(e.unstaged_status, None);
}

#[test]
fn test_staged_and_unstaged_entry() {
    let e = parse_status_entry(
        "a.txt".to_string(),
        StatusFlags { index_modified: true, wt_modified: true, ..none() },
    );
    assert_eq!(e.status, FileStatus::Modified);
    assert_eq!(e.staged_status.as_deref(), Some("modified"));
    assert_eq!(e.unstaged_status.as_deref(), Some("modified"));
    assert!(!e.untracked);

    let e = parse_status_entry(
        "b.txt".to_string(),
        StatusFlags { index_new: true, wt_deleted: true, ..none() },
    );
    assert_eq!(e.status, FileStatus::Added);
    assert_eq!(e.staged_status.as_deref(), Some("added"));
    assert_eq!(e.unstaged_status.as_deref(), Some("deleted"));
}

#[test]
fn test_entry_precedence() {
    let e = parse_status_entry(
        "c.txt".to_string(),
        StatusFlags { conflicted: true, index_new: true, wt_modified: true, ..none() },
    );
    assert_eq!(e.status, FileStatus::Conflicted);
    assert_eq!(e.staged_status, None);
    assert_eq!(e.unstaged_status.as_deref(), Some("modified"));

    let e = parse_status_entry("d.txt".to_string(), StatusFlags { wt_deleted: true, ..none() });
    assert_eq!(e.status, FileStatus::Deleted);

    let e = parse_status_entry(
        "e.txt".to_string(),
        StatusFlags { index_renamed: true, ..none() },
    );
    assert_eq!(e.status, FileStatus::Renamed);
    assert_eq!(e.staged_status.as_deref(), Some("modified"));

    let e = parse_status_entry(
        "f.txt".to_string(),
        StatusFlags { index_new: true, wt_new: true, ..none() },
    );
    assert_eq!(e.status, FileStatus::Untracked);
    assert!(e.untracked);
    assert_eq!(e.staged_status.as_deref(), Some("added"));

    let e = parse_status_entry("g.txt".to_string(), StatusFlags { wt_renamed: true, ..none() });
    assert_eq!(e.status, FileStatus::Renamed);
}

#[test]
fn test_is_dirty() {
    assert!(!is_dirty(None));
    assert!(!is_dirty(Some(none())));
    assert!(!is_dirty(Some(StatusFlags { ignored: true, ..none() })));
    assert!(!is_dirty(Some(StatusFlags { index_renamed: true, ..none() })));
    assert!(is_dirty(Some(StatusFlags { wt_new: true, ..none() })));
    assert!(is_dirty(Some(StatusFlags { index_deleted: true, ..none() })));
}

#[test]
fn test_status_matrix_sorted_by_path() {
    let reported = vec![
        ("zeta.txt".to_string(), StatusFlags { wt_modified: true, ..none() }),
        ("Alpha.txt".to_string(), StatusFlags { wt_new: true, ..none() }),
        ("alpha.txt".to_string(), StatusFlags { index_new: true, ..none() }),
        ("dir/b.txt".to_string(), StatusFlags { wt_deleted: true, ..none() }),
    ];
    let m = build_status_matrix(&reported);
    let paths: Vec<&str> = m.entries.iter().map(|e| e.path.as_str()).collect();
    assert_eq!(paths, vec!["Alpha.txt", "alpha.txt", "dir/b.txt", "zeta.txt"]);
    assert_eq!(m.entries[1].status, FileStatus::Added);
    assert!(build_status_matrix(&vec![]).entries.is_empty());
}
