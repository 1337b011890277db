use stashroom::history::{
    build_commit_summary, change_type, commit_file_diff, commit_line_type, file_name_of,
    head_refs, keeps_old_path, normalize_query, parent_to_compare, parse_commit_oid, record_search_hit, tag_label,
    with_hunks, CommitFacts, DeltaStatus, HistoryError, HunkCollector, LogPager, LogStep,
    RefsMap, SearchIndex, SEARCH_COMMIT_LIMIT,
};
use stashroom::types::{CommitAuthor, CommitFileChangeType, CommitFileMatch, CommitSummary};

fn summary(oid: &str) -> CommitSummary {
    CommitSummary {
        oid: oid.to_string(),
        short_oid: oid[..7].to_string(),
        author: CommitAuthor { name: "A".to_string(), email: "a@example.com".to_string() },
        time: 0,
        message: "m".to_string(),
        subject: "m".to_string(),
        refs: None,
    }
}

fn hit(oid: &str) -> CommitFileMatch {
    CommitFileMatch { commit: summary(oid), change: CommitFileChangeType::Modified }
}

#[test]
fn test_change_types() {
    assert_eq!(change_type(DeltaStatus::Added), CommitFileChangeType::Added);
    assert_eq!(change_type(DeltaStatus::Deleted), CommitFileChangeType::Deleted);
    assert_eq!(change_type(DeltaStatus::Modified), CommitFileChangeType::Modified);
    assert_eq!(change_type(DeltaStatus::Renamed), CommitFileChangeType::Renamed);
    assert_eq!(change_type(DeltaStatus::Copied), CommitFileChangeType::Copied);
    assert_eq!(change_type(DeltaStatus::Other), CommitFileChangeType::Modified);
    assert!(keeps_old_path(DeltaStatus::Renamed));
    assert!(keeps_old_path(DeltaStatus::Copied));
    assert!(!keeps_old_path(DeltaStatus::Modified));
}

#[test]
fn test_commit_line_types() {
    assert_eq!(commit_line_type('+'), "add");
    assert_eq!(commit_line_type('-'), "del");
    assert_eq!(commit_line_type(' '), "ctx");
    assert_eq!(commit_line_type('>'), "ctx");
}

#[test]
fn test_commit_file_diff_entries() {
    let f = commit_file_diff(
        Some("new/name.rs".to_string()),
        Some("old/name.rs".to_string()),
        DeltaStatus::Renamed,
        false,
        false,
    );
    assert_eq!(f.path, "new/name.rs");
    assert_eq!(f.old_path, Some("old/name.rs".to_string()));
    assert_eq!(f.change, CommitFileChangeType::Renamed);
    assert!(f.hunks.is_none());

    let g = commit_file_diff(None, Some("x".to_string()), DeltaStatus::Modified, false, true);
    assert_eq!(g.path, "");
    assert_eq!(g.old_path, None);
    assert!(g.is_binary);
    let g = with_hunks(g, vec![]);
    assert!(g.hunks.is_none());

    let f = with_hunks(f, vec![]);
    assert_eq!(f.hunks.map(|h| h.len()), Some(0));
}

#[test]
fn test_hunk_collector() {
    let mut c = HunkCollector::new("a.rs");
    c.on_line("a.rs", '+', b"before any hunk\n", None, Some(1));
    c.on_hunk("b.rs", b"@@ -1 +1 @@\n", 1, 1, 1, 1);
    c.on_hunk("a.rs", b"@@ -1,2 +1,3 @@\n", 1, 2, 1, 3);
    c.on_line("a.rs", ' ', b"keep\n", Some(1), Some(1));
    c.on_line("b.rs", '+', b"other file\n", None, Some(1));
    c.on_line("a.rs", '+', b"added\n", None, Some(2));
    c.on_hunk("a.rs", b"@@ -9 +10 @@\n", 9, 1, 10, 1);
    c.on_line("a.rs", '-', b"gone\n", Some(9), None);
    let hunks = c.finish();
    assert_eq!(hunks.len(), 2);
    assert_eq!(hunks[0].header, "@@ -1,2 +1,3 @@\n");
    assert_eq!(hunks[0].lines.len(), 2);
    assert_eq!(hunks[0].lines[0].line_type, "ctx");
    assert_eq!(hunks[0].lines[1].line_type, "add");
    assert_eq!(hunks[0].lines[1].text, "added\n");
    assert_eq!(hunks[1].old_start, 9);
    assert_eq!(hunks[1].lines[0].line_type, "del");
    assert_eq!(hunks[1].lines[0].ln_old, Some(9));
}

#[test]
fn test_parent_to_compare() {
    assert_eq!(parent_to_compare(None, 0), Ok(None));
    assert_eq!(parent_to_compare(Some(3), 0), Ok(None));
    assert_eq!(parent_to_compare(None, 2), Ok(Some(0)));
    assert_eq!(parent_to_compare(Some(1), 2), Ok(Some(1)));
    let e = parent_to_compare(Some(2), 2).unwrap_err();
    assert_eq!(e, HistoryError::ParentOutOfRange { index: 2, count: 2 });
    assert_eq!(e.message(), "Parent index 2 out of range (commit has 2 parents)");
}

#[test]
fn test_head_refs_and_tags() {
    assert_eq!(head_refs(true, Some("main")), vec!["HEAD -> main".to_string()]);
    assert!(head_refs(true, None).is_empty());
    assert_eq!(head_refs(false, Some("main")), vec!["HEAD".to_string()]);
    assert_eq!(tag_label("refs/tags/v1.0"), "tag: v1.0");
    assert_eq!(tag_label("v2"), "tag: v2");
    assert_eq!(tag_label("refs/tags/"), "tag: ");
    assert_eq!(tag_label("refs/tag"), "tag: refs/tag");
}

#[test]
fn test_refs_map() {
    let mut m = RefsMap::new();
    assert!(m.get("abc").is_none());
    m.insert("abc".to_string(), vec!["HEAD -> main".to_string()]);
    m.push_label("abc".to_string(), "main".to_string());
    m.push_label("def".to_string(), "tag: v1".to_string());
    assert_eq!(m.get("abc").unwrap(), vec!["HEAD -> main".to_string(), "main".to_string()]);
    assert_eq!(m.get("def").unwrap(), vec!["tag: v1".to_string()]);
    m.insert("abc".to_string(), vec![]);
    assert_eq!(m.get("abc").unwrap().len(), 0);
}

#[test]
fn test_build_commit_summary() {
    let mut refs = RefsMap::new();
    refs.insert("0123456789abcdef".to_string(), vec!["HEAD -> main".to_string()]);
    let facts = CommitFacts {
        oid: "0123456789abcdef".to_string(),
        author_name: None,
        author_email: None,
        time: 1_700_000_000,
        message: Some("Subject line\n\nBody text\n".to_string()),
    };
    let s = build_commit_summary(&facts, &refs);
    assert_eq!(s.oid, "0123456789abcdef");
    assert_eq!(s.short_oid, "0123456");
    assert_eq!(s.author.name, "Unknown");
    assert_eq!(s.author.email, "");
    assert_eq!(s.time, 1_700_000_000);
    assert_eq!(s.message, "Subject line\n\nBody text\n");
    assert_eq!(s.subject, "Subject line");
    assert_eq!(s.refs, Some(vec!["HEAD -> main".to_string()]));

    let facts = CommitFacts {
        oid: "fedcba9876543210".to_string(),
        author_name: Some("Ada".to_string()),
        author_email: Some("ada@example.com".to_string()),
        time: 5,
        message: None,
    };
    let s = build_commit_summary(&facts, &refs);
    assert_eq!(s.author.name, "Ada");
    assert_eq!(s.message, "");
    assert_eq!(s.subject, "");
    assert_eq!(s.refs, None);
}

#[test]
fn test_log_pager_window() {
    let mut p = LogPager::new(2, Some(1));
    assert_eq!(p.next_commit(), LogStep::Skip);
    assert_eq!(p.next_commit(), LogStep::Take);
    assert_eq!(p.next_commit(), LogStep::Take);
    assert!(!p.has_more());
    assert_eq!(p.next_commit(), LogStep::Stop);
    assert!(p.has_more());

    let mut p = LogPager::new(0, None);
    assert_eq!(p.next_commit(), LogStep::Stop);
    assert!(p.has_more());
}

#[test]
fn test_file_names_and_queries() {
    assert_eq!(file_name_of("src/components/App.tsx"), "App.tsx");
    assert_eq!(file_name_of("README.md"), "README.md");
    assert_eq!(file_name_of("dir/"), "");
    assert_eq!(normalize_query("  \t "), None);
    assert_eq!(normalize_query(""), None);
    assert_eq!(normalize_query(" App "), Some(" app ".to_string()));
    assert_eq!(SEARCH_COMMIT_LIMIT, 200);
}

#[test]
fn test_search_index_ranks_files() {
    let mut index = SearchIndex::new();
    index.record("a.rs".to_string(), hit("1111111aaaa"), 50);
    index.record("b.rs".to_string(), hit("2222222bbbb"), 80);
    index.record("a.rs".to_string(), hit("3333333cccc"), 90);
    index.record("c.rs".to_string(), hit("4444444dddd"), 90);
    index.record("d.rs".to_string(), hit("5555555eeee"), -5);
    let results = index.into_results(10);
    let paths: Vec<&str> = results.iter().map(|r| r.path.as_str()).collect();
    // a.rs and c.rs share the best score; a.rs has more commits.
    assert_eq!(paths, vec!["a.rs", "c.rs", "b.rs", "d.rs"]);
    assert_eq!(results[0].commits.len(), 2);
    assert_eq!(results[0].commits[1].commit.oid, "3333333cccc");
}

#[test]
fn test_search_index_limit() {
    let mut index = SearchIndex::new();
    index.record("a.rs".to_string(), hit("1111111aaaa"), 1);
    index.record("b.rs".to_string(), hit("2222222bbbb"), 2);
    index.record("c.rs".to_string(), hit("3333333cccc"), 3);
    let results = index.into_results(2);
    assert_eq!(results.len(), 2);
    assert_eq!(results[0].path, "c.rs");
    assert_eq!(results[1].path, "b.rs");
}

#[test]
fn test_record_search_hit() {
    let mut index = SearchIndex::new();
    record_search_hit(&mut index, "app", "src/App.tsx", hit("1111111aaaa"));
    record_search_hit(&mut index, "app", "src/app/main.rs", hit("2222222bbbb"));
    record_search_hit(&mut index, "app", "lib/application.ts", hit("3333333cccc"));
    let results = index.into_results(10);
    let mut paths: Vec<&str> = results.iter().map(|r| r.path.as_str()).collect();
    paths.sort();
    // Only file names are matched: "main.rs" does not match "app".
    assert_eq!(paths, vec!["lib/application.ts", "src/App.tsx"]);
}

#[test]
fn test_parse_commit_oid() {
    let full = "0123456789abcdef0123456789ABCDEF01234567";
    assert_eq!(parse_commit_oid(full).unwrap().to_string(), full.to_lowercase());
    assert_eq!(parse_commit_oid("abc").unwrap().to_string(), "abc0000000000000000000000000000000000000");
    assert_eq!(parse_commit_oid("").unwrap_err(), HistoryError::InvalidOid);
    assert!(parse_commit_oid("xyz").is_err());
    assert!(parse_commit_oid(&format!("{}0", full)).is_err());
    assert_eq!(HistoryError::InvalidOid.message(), "Invalid commit OID");
}
