use stashroom::paths::{has_component, path_parts, starts_with_dir, vec_eq};
use stashroom::text::{
    chars_of, first_line_of, is_blank_str, is_whitespace, lines, push_decimal, raw_lines_of,
    string_from_chars, trim_end_of,
};

#[test]
fn test_chars_round_trip() {
    let cs = chars_of("héllo");
    assert_eq!(cs, vec!['h', 'é', 'l', 'l', 'o']);
    assert_eq!(string_from_chars(&cs), "héllo");
}

#[test]
fn test_lines_like_std() {
    for s in ["", "a", "a\n", "a\nb", "a\r\nb\r\n", "\n\n", "x\r", "one\ntwo\r\nthree\r"] {
        let expected: Vec<String> = s.lines().map(|l| l.to_string()).collect();
        assert_eq!(lines(s), expected, "lines of {:?}", s);
    }
}

#[test]
fn test_first_line() {
    assert_eq!(first_line_of("Subject\n\nBody"), "Subject");
    assert_eq!(first_line_of(""), "");
    assert_eq!(first_line_of("only\r\n"), "only");
}

#[test]
fn test_push_decimal() {
    let mut s = "n=".to_string();
    push_decimal(&mut s, 0);
    assert_eq!(s, "n=0");
    let mut s = String::new();
    push_decimal(&mut s, 18446744073709551615);
    assert_eq!(s, "18446744073709551615");
}

#[test]
fn test_trim_end_and_blank() {
    assert_eq!(trim_end_of("@@ -1 +1 @@ fn x()\n"), "@@ -1 +1 @@ fn x()");
    assert_eq!(trim_end_of("  keep leading \t\r\n"), "  keep leading");
    assert_eq!(trim_end_of("   "), "");
    assert_eq!(trim_end_of("abc\u{3000}"), "abc");
    assert!(is_blank_str(""));
    assert!(is_blank_str(" \t\n\u{a0}"));
    assert!(!is_blank_str(" x "));
}

#[test]
fn test_path_components() {
    assert!(has_component("a/../b", ".."));
    assert!(!has_component("a/..b", ".."));
    assert!(has_component("..", ".."));
    let parts: Vec<String> = path_parts("/work//repo/src/").iter().map(|p| p.iter().collect()).collect();
    assert_eq!(parts, vec!["work".to_string(), "repo".to_string(), "src".to_string()]);
    assert!(vec_eq(&vec!['a', 'b'], &vec!['a', 'b']));
    assert!(!vec_eq(&vec!['a'], &vec!['a', 'b']));
}

#[test]
fn test_starts_with_dir_like_std() {
    let cases = [
        ("/work/repo/a.txt", "/work/repo"),
        ("/work/repository", "/work/repo"),
        ("/work/repo", "/work/repo/"),
        ("/work", "/work/repo"),
        ("relative/x", "relative"),
        ("relative/x", "/relative"),
        ("/x", "/"),
        ("", ""),
    ];
    for (p, d) in cases {
        assert_eq!(
            starts_with_dir(p, d),
            std::path::Path::new(p).starts_with(d),
            "{:?} within {:?}",
            p,
            d
        );
    }
}

#[test]
fn test_whitespace_like_std() {
    for u in 0..=0x10FFFFu32 {
        if let Some(c) = char::from_u32(u) {
            assert_eq!(is_whitespace(c), c.is_whitespace(), "U+{:04X}", u);
        }
    }
}

#[test]
fn test_raw_lines_keep_endings() {
    for s in ["", "a", "a\n", "a\r\nb", "\n\n", "x\r", "one\ntwo\r\nthree"] {
        let expected: Vec<String> = s.split_inclusive('\n').map(|l| l.to_string()).collect();
        assert_eq!(raw_lines_of(s), expected, "lines of {:?}", s);
    }
}
