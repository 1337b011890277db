use stashroom::discard::{
    backup_timestamp, check_discard_request, check_restore_location, check_restore_path,
    check_within_workdir,
    discard_action, index_entry_flags, newest_first, normalize_separators, restore_target,
    DiscardAction, DiscardError,
};
use stashroom::status::StatusFlags;

fn flags() -> StatusFlags {
    StatusFlags {
        index_new: false,
        index_modified: false,
        index_deleted: false,
        index_renamed: false,
        index_typechange: false,
        wt_new: false,
        wt_modified: false,
        wt_deleted: false,
        wt_typechange: false,
        wt_renamed: false,
        ignored: false,
        conflicted: false,
    }
}

#[test]
fn test_discard_request_without_hunks() {
    assert!(check_discard_request(None).is_ok());
    let e = check_discard_request(Some(&[0, 1])).unwrap_err();
    assert_eq!(
        e.message(),
        "Discarding specific hunks is not yet implemented. Use discard_file for entire file."
    );
}

#[test]
fn test_discard_actions() {
    assert_eq!(discard_action(true, true), DiscardAction::CheckoutFromHead);
    assert_eq!(discard_action(true, false), DiscardAction::CheckoutFromHead);
    assert_eq!(discard_action(false, true), DiscardAction::RemoveFile);
    assert_eq!(discard_action(false, false), DiscardAction::Nothing);
}

#[test]
fn test_index_entry_flags() {
    assert_eq!(index_entry_flags(0), 0);
    assert_eq!(index_entry_flags(12), 12);
    assert_eq!(index_entry_flags(0xffe), 0xffe);
    assert_eq!(index_entry_flags(0xfff), 0xfff);
    assert_eq!(index_entry_flags(100_000), 0xfff);
}

#[test]
fn test_backup_timestamp() {
    assert_eq!(backup_timestamp(false, false), None);
    assert_eq!(backup_timestamp(true, true), None);
    let ts = backup_timestamp(true, false).unwrap();
    assert_eq!(ts.len(), 15);
    assert_eq!(&ts[8..9], "_");
    assert!(ts.chars().enumerate().all(|(i, c)| i == 8 || c.is_ascii_digit()));
    assert!(ts.starts_with("20"));
}

#[test]
fn test_newest_first() {
    let names = vec![
        "20240101_120000".to_string(),
        "20250301_080000".to_string(),
        "20240101_115959".to_string(),
        "20250301_080000".to_string(),
    ];
    assert_eq!(
        newest_first(names),
        vec![
            "20250301_080000".to_string(),
            "20250301_080000".to_string(),
            "20240101_120000".to_string(),
            "20240101_115959".to_string(),
        ]
    );
    assert!(newest_first(vec![]).is_empty());
}

#[test]
fn test_normalize_separators() {
    assert_eq!(normalize_separators("dir\\sub\\file.txt"), "dir/sub/file.txt");
    assert_eq!(normalize_separators("plain.txt"), "plain.txt");
}

#[test]
fn test_restore_path_validation() {
    assert!(check_restore_path("src/main.rs").is_ok());
    assert!(check_restore_path("a..b/c").is_ok());
    match check_restore_path("../../../etc/passwd") {
        Err(DiscardError::PathTraversal { path }) => assert_eq!(path, "../../../etc/passwd"),
        _ => panic!("traversal must be refused"),
    }
    let e = check_restore_path("src/../../x").unwrap_err();
    assert_eq!(e.message(), "Path traversal not allowed: src/../../x");
}

#[test]
fn test_restore_target() {
    assert_eq!(restore_target("a.txt", None), "a.txt");
    assert_eq!(restore_target("a.txt", Some(flags())), "a.txt");
    let mut dirty = flags();
    dirty.wt_modified = true;
    assert_eq!(restore_target("dir/a.txt", Some(dirty)), "dir/a.txt.restore");
    let mut staged = flags();
    staged.index_new = true;
    assert_eq!(restore_target("b.txt", Some(staged)), "b.txt.restore");
    let mut ignored = flags();
    ignored.ignored = true;
    assert_eq!(restore_target("c.txt", Some(ignored)), "c.txt");
}

#[test]
fn test_within_workdir() {
    assert!(check_within_workdir("a.txt", "/work/repo/a.txt", "/work/repo").is_ok());
    assert!(check_within_workdir("x", "/work/repo", "/work/repo").is_ok());
    assert!(check_within_workdir("x", "/work/repo/", "/work/repo").is_ok());
    let e = check_within_workdir("x", "/work/repository/x", "/work/repo").unwrap_err();
    assert_eq!(e.message(), "Target path is outside working directory: x");
    assert!(check_within_workdir("x", "/etc/passwd", "/work/repo").is_err());
    assert!(check_within_workdir("x", "work/repo/x", "/work/repo").is_err());
    assert!(check_within_workdir("x", "/anything", "/").is_ok());
}

#[test]
fn test_discard_error_messages() {
    assert_eq!(
        DiscardError::BackupNotFound { backup_id: "20240101_000000".to_string(), path: "a.txt".to_string() }
            .message(),
        "Backup not found: 20240101_000000/a.txt"
    );
    assert_eq!(
        DiscardError::BackupFileNotFound { backup_id: "b".to_string(), path: "c/d.txt".to_string() }
            .message(),
        "Backup file not found: b/c/d.txt"
    );
    assert_eq!(DiscardError::NoWorkdir.message(), "Repository has no working directory");
}

#[test]
fn test_restore_location() {
    let w = "/work/repo";
    // An existing file whose path is already resolved needs no further check.
    assert!(check_restore_location("a", "/work/repo/a", Some("/work/repo/a"), None, w).is_ok());
    // A symlink resolving inside the working directory is fine, outside it is not.
    assert!(check_restore_location("l", "/work/repo/l", Some("/work/repo/real"), None, w).is_ok());
    let e = check_restore_location("l", "/work/repo/l", Some("/etc/shadow"), None, w).unwrap_err();
    assert_eq!(e.message(), "Target path is outside working directory: l");
    // A new file is checked through its directory.
    assert!(check_restore_location("d/n", "/work/repo/d/n", None, Some("/work/repo/d"), w).is_ok());
    assert!(check_restore_location("d/n", "/work/repo/d/n", None, Some("/tmp/d"), w).is_err());
    assert!(check_restore_location("d/n", "/work/repo/d/n", None, None, w).is_ok());
}
