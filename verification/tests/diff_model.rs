use stashroom::diff::{
    is_binary_content, line_origin, new_binary_file_diff, new_file_diff, resolve_diff, DeltaFacts,
    DiffError, FileDiffBuilder, WorkingFile, BINARY_SAMPLE_LEN,
};
use stashroom::history::DeltaStatus;

fn delta(new_path: Option<&str>, status: DeltaStatus) -> DeltaFacts {
    DeltaFacts {
        new_path: new_path.map(|p| p.to_string()),
        old_path: new_path.map(|p| p.to_string()),
        new_binary: false,
        old_binary: false,
        status,
    }
}

#[test]
fn test_line_origin() {
    assert_eq!(line_origin('+'), "+");
    assert_eq!(line_origin('-'), "-");
    assert_eq!(line_origin(' '), " ");
    assert_eq!(line_origin('='), "");
    assert_eq!(line_origin('>'), "");
}

#[test]
fn test_new_file_diff_lines() {
    let d = new_file_diff("notes.txt", "alpha\nbeta\r\ngamma");
    assert_eq!(d.path, "notes.txt");
    assert!(d.is_new && !d.is_binary && !d.is_deleted);
    assert_eq!(d.old_path, None);
    assert_eq!(d.hunks.len(), 1);
    let h = &d.hunks[0];
    assert_eq!(h.header, "@@ -0,0 +1,3 @@");
    assert_eq!((h.old_start, h.old_lines, h.new_start, h.new_lines), (0, 0, 1, 3));
    let contents: Vec<&str> = h.lines.iter().map(|l| l.content.as_str()).collect();
    assert_eq!(contents, vec!["alpha\n", "beta\r\n", "gamma"]);
    for (i, l) in h.lines.iter().enumerate() {
        assert_eq!(l.origin, "+");
        assert_eq!(l.old_lineno, None);
        assert_eq!(l.new_lineno, Some(i as u32 + 1));
    }
}

#[test]
fn test_new_file_diff_empty_file() {
    let d = new_file_diff("empty.txt", "");
    assert_eq!(d.hunks.len(), 1);
    assert_eq!(d.hunks[0].header, "@@ -0,0 +1,0 @@");
    assert_eq!(d.hunks[0].new_lines, 0);
    assert!(d.hunks[0].lines.is_empty());
}

#[test]
fn test_new_file_diff_many_lines() {
    let content = "x\n".repeat(12);
    let d = new_file_diff("many.txt", &content);
    assert_eq!(d.hunks[0].header, "@@ -0,0 +1,12 @@");
    assert_eq!(d.hunks[0].lines[11].new_lineno, Some(12));
}

#[test]
fn test_new_binary_file_diff() {
    let d = new_binary_file_diff("image.png");
    assert_eq!(d.path, "image.png");
    assert!(d.is_binary && d.is_new && !d.is_deleted);
    assert!(d.hunks.is_empty());
}

#[test]
fn test_binary_content_heuristic() {
    assert!(!is_binary_content(b""));
    assert!(!is_binary_content(b"plain text\nwith lines\r\n\tand tabs"));
    assert!(is_binary_content(b"abc\0def"));
    // 3 control bytes out of 10 is 30%: not more than 30%, so text.
    assert!(!is_binary_content(&[1, 2, 3, b'a', b'b', b'c', b'd', b'e', b'f', b'g']));
    // 4 out of 10 is binary.
    assert!(is_binary_content(&[1, 2, 3, 4, b'b', b'c', b'd', b'e', b'f', b'g']));
    assert_eq!(BINARY_SAMPLE_LEN, 8192);
}

#[test]
fn test_diff_error_message() {
    assert_eq!(
        DiffError::NoDiff { path: "gone.txt".to_string() }.message(),
        "No diff found for path: gone.txt"
    );
}

#[test]
fn test_file_diff_builder_assembles_hunks() {
    let mut b = FileDiffBuilder::new("src/main.rs");
    b.on_file(&delta(Some("src/main.rs"), DeltaStatus::Modified));
    b.on_hunk(b"@@ -1,2 +1,2 @@ fn main() {\n", 1, 2, 1, 2);
    b.on_line(' ', b"fn main() {\r\n", Some(1), Some(1));
    b.on_line('-', b"    old();\n", Some(2), None);
    b.on_line('+', b"    new();\n", None, Some(2));
    b.on_hunk(b"@@ -10 +10 @@\n", 10, 1, 10, 1);
    b.on_line('=', b"whatever\n", None, None);
    let d = b.finish().unwrap();
    assert_eq!(d.path, "src/main.rs");
    assert!(!d.is_new && !d.is_deleted && !d.is_binary);
    assert_eq!(d.hunks.len(), 2);
    assert_eq!(d.hunks[0].header, "@@ -1,2 +1,2 @@ fn main() {");
    assert_eq!(d.hunks[0].lines.len(), 3);
    assert_eq!(d.hunks[0].lines[0].content, "fn main() {\r\n");
    assert_eq!(d.hunks[0].lines[1].origin, "-");
    assert_eq!(d.hunks[0].lines[2].new_lineno, Some(2));
    assert_eq!(d.hunks[1].header, "@@ -10 +10 @@");
    assert_eq!(d.hunks[1].lines[0].origin, "");
}

#[test]
fn test_file_diff_builder_ignores_other_files_before_match() {
    let mut b = FileDiffBuilder::new("b.txt");
    b.on_file(&delta(Some("a.txt"), DeltaStatus::Modified));
    b.on_hunk(b"@@ -1 +1 @@\n", 1, 1, 1, 1);
    b.on_line('+', b"x\n", None, Some(1));
    assert!(b.finish().is_none());
}

#[test]
fn test_file_diff_builder_flags() {
    let mut b = FileDiffBuilder::new("new.bin");
    b.on_file(&DeltaFacts {
        new_path: Some("new.bin".to_string()),
        old_path: None,
        new_binary: true,
        old_binary: false,
        status: DeltaStatus::Added,
    });
    let d = b.finish().unwrap();
    assert!(d.is_binary && d.is_new && !d.is_deleted);
    assert_eq!(d.old_path, None);

    let mut b = FileDiffBuilder::new("old.txt");
    b.on_file(&delta(Some("old.txt"), DeltaStatus::Deleted));
    let d = b.finish().unwrap();
    assert!(d.is_deleted && !d.is_new);
}

#[test]
fn test_file_diff_builder_line_before_hunk_is_dropped() {
    let mut b = FileDiffBuilder::new("a.txt");
    b.on_file(&delta(Some("a.txt"), DeltaStatus::Modified));
    b.on_line('+', b"orphan\n", None, Some(1));
    let d = b.finish().unwrap();
    assert!(d.hunks.is_empty());
}

#[test]
fn test_file_diff_builder_lossy_bytes() {
    let mut b = FileDiffBuilder::new("a.txt");
    b.on_file(&delta(Some("a.txt"), DeltaStatus::Modified));
    b.on_hunk(b"@@ -1 +1 @@\n", 1, 1, 1, 1);
    b.on_line('+', &[0x66, 0x6f, 0xff, 0x0a], None, Some(1));
    let d = b.finish().unwrap();
    assert_eq!(d.hunks[0].lines[0].content, "fo\u{FFFD}\n");
}

#[test]
fn test_new_file_diff_keeps_line_endings() {
    let content = "a\r\nb";
    let d = new_file_diff("crlf.txt", content);
    let h = &d.hunks[0];
    assert_eq!(h.lines.iter().map(|l| l.content.as_str()).collect::<String>(), content);
    assert_eq!(h.new_lines as usize, h.lines.len());
    assert_eq!(h.header, "@@ -0,0 +1,2 @@");
    for (i, l) in h.lines.iter().enumerate() {
        assert_eq!(l.origin, "+");
        assert_eq!(l.new_lineno, Some(i as u32 + 1));
    }
    let d = new_file_diff("end.txt", "one\ntwo\n");
    let joined: String = d.hunks[0].lines.iter().map(|l| l.content.as_str()).collect();
    assert_eq!(joined, "one\ntwo\n");
    assert_eq!(d.hunks[0].lines.len(), 2);
}

#[test]
fn test_resolve_diff() {
    let walked = new_binary_file_diff("walked.bin");
    let d = resolve_diff("walked.bin", Some(walked), WorkingFile::Text("ignored".to_string())).unwrap();
    assert!(d.is_binary);
    match resolve_diff("gone.txt", None, WorkingFile::Missing) {
        Err(e) => assert_eq!(e.message(), "No diff found for path: gone.txt"),
        Ok(_) => panic!("nothing to show"),
    }
    let d = resolve_diff("img.png", None, WorkingFile::Binary).unwrap();
    assert!(d.is_binary && d.is_new && d.hunks.is_empty());
    let d = resolve_diff("new.txt", None, WorkingFile::Text("x\r\ny".to_string())).unwrap();
    assert!(d.is_new && !d.is_binary);
    assert_eq!(d.hunks[0].lines.len(), 2);
    assert_eq!(d.hunks[0].lines[0].content, "x\r\n");
}
