use stashroom::patch::{build_patch, build_reverse_patch, contains_index, single_char};
use stashroom::stage::{hunk_patch, lines_patch, patch_diff, validate_line_selection, StageError};
use stashroom::types::{DiffHunk, DiffLine, FileDiff};

fn line(origin: &str, content: &str, old: Option<u32>, new: Option<u32>) -> DiffLine {
    DiffLine {
        origin: origin.to_string(),
        content: content.to_string(),
        old_lineno: old,
        new_lineno: new,
    }
}

/// The hunk Git reports for "line 1..4" with lines 2 and 3 modified.
fn modified_hunk() -> DiffHunk {
    DiffHunk {
        header: "@@ -1,4 +1,4 @@".to_string(),
        old_start: 1,
        old_lines: 4,
        new_start: 1,
        new_lines: 4,
        lines: vec![
            line(" ", "line 1\n", Some(1), Some(1)),
            line("-", "line 2\n", Some(2), None),
            line("-", "line 3\n", Some(3), None),
            line("+", "modified line 2\n", None, Some(2)),
            line("+", "modified line 3\n", None, Some(3)),
            line(" ", "line 4\n", Some(4), Some(4)),
        ],
    }
}

/// The hunk Git reports when two lines are inserted into "line 1..5".
fn insertion_hunk() -> DiffHunk {
    DiffHunk {
        header: "@@ -1,5 +1,7 @@".to_string(),
        old_start: 1,
        old_lines: 5,
        new_start: 1,
        new_lines: 7,
        lines: vec![
            line(" ", "line 1\n", Some(1), Some(1)),
            line(" ", "line 2\n", Some(2), Some(2)),
            line("+", "new line 3\n", None, Some(3)),
            line(" ", "line 3\n", Some(3), Some(4)),
            line(" ", "line 4\n", Some(4), Some(5)),
            line("+", "new line 5\n", None, Some(6)),
            line(" ", "line 5\n", Some(5), Some(7)),
        ],
    }
}

fn file_diff(path: &str, hunks: Vec<DiffHunk>) -> FileDiff {
    FileDiff {
        path: path.to_string(),
        old_path: Some(path.to_string()),
        is_binary: false,
        is_new: false,
        is_deleted: false,
        hunks,
    }
}

#[test]
fn test_build_patch_whole_hunk() {
    let patch = build_patch("test.txt", &modified_hunk(), None);
    assert_eq!(
        patch,
        "diff --git a/test.txt b/test.txt\n--- a/test.txt\n+++ b/test.txt\n@@ -1,4 +1,4 @@\n line 1\n-line 2\n-line 3\n+modified line 2\n+modified line 3\n line 4\n"
    );
}

#[test]
fn test_build_patch_selected_lines() {
    let patch = build_patch("test.txt", &insertion_hunk(), Some(&[2]));
    assert_eq!(
        patch,
        "diff --git a/test.txt b/test.txt\n--- a/test.txt\n+++ b/test.txt\n@@ -1,5 +1,6 @@\n line 1\n line 2\n+new line 3\n line 3\n line 4\n line 5\n"
    );
}

#[test]
fn test_build_patch_selection_keeps_deletions() {
    // Unselected additions are left out; deletions always stay.
    let patch = build_patch("a.txt", &modified_hunk(), Some(&[4, 99]));
    assert_eq!(
        patch,
        "diff --git a/a.txt b/a.txt\n--- a/a.txt\n+++ b/a.txt\n@@ -1,4 +1,3 @@\n line 1\n-line 2\n-line 3\n+modified line 3\n line 4\n"
    );
}

#[test]
fn test_build_patch_empty_selection() {
    let patch = build_patch("a.txt", &insertion_hunk(), Some(&[]));
    assert!(patch.contains("@@ -1,5 +1,5 @@\n"));
    assert!(!patch.contains("new line"));
}

#[test]
fn test_build_patch_preserves_crlf() {
    let hunk = DiffHunk {
        header: "@@ -1,2 +1,2 @@".to_string(),
        old_start: 1,
        old_lines: 2,
        new_start: 1,
        new_lines: 2,
        lines: vec![
            line(" ", "one\r\n", Some(1), Some(1)),
            line("-", "two\r\n", Some(2), None),
            line("+", "TWO\r\n", None, Some(2)),
        ],
    };
    let patch = build_patch("crlf.txt", &hunk, None);
    assert!(patch.ends_with(" one\r\n-two\r\n+TWO\r\n"));
}

#[test]
fn test_build_patch_skips_unknown_origins_when_filtering() {
    let mut hunk = insertion_hunk();
    hunk.lines.push(line("\\", " No newline at end of file\n", None, None));
    let patch = build_patch("a.txt", &hunk, Some(&[5]));
    assert!(!patch.contains("No newline"));
    assert!(patch.contains("@@ -1,5 +1,6 @@\n"));
}

#[test]
fn test_build_reverse_patch() {
    let patch = build_reverse_patch("test.txt", &modified_hunk());
    assert_eq!(
        patch,
        "diff --git a/test.txt b/test.txt\n--- a/test.txt\n+++ b/test.txt\n@@ -1,4 +1,4 @@\n line 1\n+line 2\n+line 3\n-modified line 2\n-modified line 3\n line 4\n"
    );
}

#[test]
fn test_build_reverse_patch_swaps_ranges() {
    let patch = build_reverse_patch("test.txt", &insertion_hunk());
    assert!(patch.contains("@@ -1,7 +1,5 @@\n"));
    assert!(patch.contains("-new line 3\n"));
    assert!(patch.contains("-new line 5\n"));
}

#[test]
fn test_single_char_and_contains_index() {
    assert_eq!(single_char(&"+".to_string()), Some('+'));
    assert_eq!(single_char(&"".to_string()), None);
    assert_eq!(single_char(&"++".to_string()), None);
    assert!(contains_index(&[3, 1, 4], 4));
    assert!(!contains_index(&[3, 1, 4], 2));
    assert!(!contains_index(&[], 0));
}

#[test]
fn test_validate_line_selection_accepts_additions() {
    let fd = file_diff("test.txt", vec![insertion_hunk()]);
    assert!(validate_line_selection(&fd, 0, &[2, 5]).is_ok());
    assert!(validate_line_selection(&fd, 0, &[]).is_ok());
}

#[test]
fn test_validate_line_selection_errors() {
    let fd = file_diff("test.txt", vec![modified_hunk()]);
    match validate_line_selection(&fd, 1, &[0]) {
        Err(StageError::HunkOutOfBounds { index }) => assert_eq!(index, 1),
        _ => panic!("expected a hunk out of bounds"),
    }
    match validate_line_selection(&fd, 0, &[3, 6]) {
        Err(StageError::LineOutOfBounds { index }) => assert_eq!(index, 6),
        _ => panic!("expected a line out of bounds"),
    }
    match validate_line_selection(&fd, 0, &[3, 0]) {
        Err(StageError::ContextLine { index }) => assert_eq!(index, 0),
        _ => panic!("expected a context line refusal"),
    }
    assert!(matches!(validate_line_selection(&fd, 0, &[1, 3]), Err(StageError::MixedSelection)));
    assert!(matches!(validate_line_selection(&fd, 0, &[1, 2]), Err(StageError::DeletedLines)));
}

#[test]
fn test_stage_error_messages() {
    assert_eq!(
        StageError::NoChanges { path: "a.txt".to_string() }.message(),
        "No changes to stage for file: a.txt"
    );
    assert_eq!(StageError::HunkOutOfBounds { index: 10 }.message(), "Hunk index 10 out of bounds");
    assert_eq!(StageError::LineOutOfBounds { index: 7 }.message(), "Line index 7 out of bounds");
    assert_eq!(
        StageError::ContextLine { index: 0 }.message(),
        "Cannot stage context lines (line 0). Only added ('+') lines can be staged individually."
    );
    assert_eq!(
        StageError::MixedSelection.message(),
        "UNSUPPORTED_LINE_SELECTION: Cannot stage a mix of added and deleted lines. Please select only added lines."
    );
    assert_eq!(
        StageError::DeletedLines.message(),
        "UNSUPPORTED_LINE_SELECTION: Staging deleted lines is not yet supported. Only added ('+') lines can be staged individually."
    );
    assert_eq!(
        StageError::UnstageLinesUnsupported.message(),
        "Unstaging individual lines is not yet supported"
    );
}

#[test]
fn test_hunk_patch_stage_and_unstage() {
    let fd = file_diff("test.txt", vec![modified_hunk(), insertion_hunk()]);
    let staged = hunk_patch("test.txt", &fd, 1, false).ok().unwrap();
    assert_eq!(staged, build_patch("test.txt", &insertion_hunk(), None));
    let unstaged = hunk_patch("test.txt", &fd, 0, true).ok().unwrap();
    assert_eq!(unstaged, build_reverse_patch("test.txt", &modified_hunk()));
}

#[test]
fn test_hunk_patch_refusals() {
    let empty = file_diff("new.txt", vec![]);
    match hunk_patch("new.txt", &empty, 0, false) {
        Err(StageError::NoChanges { path }) => assert_eq!(path, "new.txt"),
        _ => panic!("expected no changes"),
    }
    // Unstaging never reports a file without changes, only a bad index.
    assert!(matches!(
        hunk_patch("new.txt", &empty, 0, true),
        Err(StageError::HunkOutOfBounds { index: 0 })
    ));
    let fd = file_diff("test.txt", vec![modified_hunk()]);
    assert!(matches!(
        hunk_patch("test.txt", &fd, 999, false),
        Err(StageError::HunkOutOfBounds { index: 999 })
    ));
}

#[test]
fn test_lines_patch() {
    let fd = file_diff("test.txt", vec![insertion_hunk()]);
    let patch = lines_patch(&fd, 0, &[2], false).ok().unwrap();
    assert_eq!(patch, build_patch("test.txt", &insertion_hunk(), Some(&[2])));
    assert!(matches!(lines_patch(&fd, 0, &[2], true), Err(StageError::UnstageLinesUnsupported)));
    assert!(matches!(
        lines_patch(&fd, 0, &[0], false),
        Err(StageError::ContextLine { index: 0 })
    ));
}

#[test]
fn test_selecting_every_addition_matches_whole_hunk() {
    let hunk = modified_hunk();
    let selected = build_patch("test.txt", &hunk, Some(&[3, 4]));
    let whole = build_patch("test.txt", &hunk, None);
    assert_eq!(selected, whole);
}

#[test]
fn test_patch_diff_reads_built_patches() {
    let patch = build_patch("test.txt", &modified_hunk(), None);
    let diff = patch_diff(&patch).ok().unwrap();
    assert_eq!(diff.deltas().len(), 1);
    assert_eq!(StageError::PatchUnreadable.message(), "Failed to parse patch");
}
