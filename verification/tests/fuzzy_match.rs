use stashroom::fuzzy::{
    calculate_match_score, checked_match_score, fuzzy_match_checked, fuzzy_match_with_score,
    is_word_boundary,
};

#[test]
fn test_fuzzy_match_exact() {
    let (matches, score) = fuzzy_match_with_score("app", "app");
    assert!(matches);
    assert!(score > 100); // Should have high score for exact match
}

#[test]
fn test_fuzzy_match_case_insensitive() {
    let (matches, _) = fuzzy_match_with_score("app", "APP");
    assert!(matches);

    let (matches2, _) = fuzzy_match_with_score("APP", "app");
    assert!(matches2);
}

#[test]
fn test_fuzzy_match_substring() {
    let (matches, score) = fuzzy_match_with_score("app", "application.tsx");
    assert!(matches);
    assert!(score > 0);
}

#[test]
fn test_fuzzy_match_scattered() {
    let (matches, score) = fuzzy_match_with_score("apc", "application_config.rs");
    assert!(matches);
    assert!(score > 0);
}

#[test]
fn test_fuzzy_match_no_match() {
    let (matches, score) = fuzzy_match_with_score("xyz", "application.tsx");
    assert!(!matches);
    assert_eq!(score, 0);
}

#[test]
fn test_fuzzy_match_empty_pattern() {
    let (matches, score) = fuzzy_match_with_score("", "app.tsx");
    assert!(matches);
    assert_eq!(score, 0);
}

#[test]
fn test_fuzzy_match_empty_text() {
    let (matches, score) = fuzzy_match_with_score("app", "");
    assert!(!matches);
    assert_eq!(score, 0);
}

#[test]
fn test_fuzzy_match_both_empty() {
    let (matches, score) = fuzzy_match_with_score("", "");
    assert!(matches);
    assert_eq!(score, 0);
}

#[test]
fn test_consecutive_bonus() {
    let (matches1, score1) = fuzzy_match_with_score("abc", "abcdef.tsx");
    let (matches2, score2) = fuzzy_match_with_score("abc", "axbxcxdef.tsx");

    assert!(matches1 && matches2);
    // Consecutive characters should score higher than scattered (with 'x' gaps)
    assert!(score1 > score2, "Consecutive matches should score higher than scattered. score1={}, score2={}", score1, score2);
}

#[test]
fn test_start_of_string_bonus() {
    let (_, score_start) = fuzzy_match_with_score("app", "app.tsx");
    let (_, score_middle) = fuzzy_match_with_score("app", "myapp.tsx");

    // Same pattern, but starting at position 0 vs position 2
    assert!(score_start > score_middle, "Matches at start should score higher. score_start={}, score_middle={}", score_start, score_middle);
}

#[test]
fn test_word_boundary_bonus() {
    let (_, score_boundary) = fuzzy_match_with_score("bar", "FooBar.tsx");
    let (_, score_middle) = fuzzy_match_with_score("oba", "FooBar.tsx");

    assert!(score_boundary > score_middle, "Word boundary matches should score higher");
}

#[test]
fn test_gap_penalty() {
    let (_, score_small_gap) = fuzzy_match_with_score("abc", "abc.tsx");
    let (_, score_large_gap) = fuzzy_match_with_score("abc", "a___b___c.tsx");

    assert!(score_small_gap > score_large_gap, "Smaller gaps should score higher");
}

#[test]
fn test_camel_case_matching() {
    let (matches, score) = fuzzy_match_with_score("uc", "UserController.tsx");
    assert!(matches);
    assert!(score > 100, "CamelCase word boundaries should get bonus");
}

#[test]
fn test_position_based_scoring() {
    let (_, score_early) = fuzzy_match_with_score("a", "app.tsx");
    let (_, score_late) = fuzzy_match_with_score("x", "app.tsx");

    assert!(score_early > score_late, "Earlier positions should score higher");
}

#[test]
fn test_special_characters() {
    let (matches, _) = fuzzy_match_with_score("app", "app-config.tsx");
    assert!(matches);

    let (matches2, _) = fuzzy_match_with_score("app", "app_config.tsx");
    assert!(matches2);

    let (matches3, _) = fuzzy_match_with_score("app", "app.config.tsx");
    assert!(matches3);
}

#[test]
fn test_unicode_characters() {
    // Note: Unicode normalization makes "ë" different from "e", so this might not match
    // This test verifies the algorithm doesn't crash with unicode
    let (matches, _) = fuzzy_match_with_score("tst", "tëst.tsx");
    assert!(matches); // Should match 't', 's', 't' ignoring 'ë'

    let (matches2, _) = fuzzy_match_with_score("app", "应用程序app.tsx");
    assert!(matches2); // Should match "app" at the end
}

#[test]
fn test_very_long_strings() {
    let long_text = "a".repeat(1000) + "bc";
    let (matches, _) = fuzzy_match_with_score("abc", &long_text);
    assert!(matches);
}

#[test]
fn test_pattern_longer_than_text() {
    let (matches, score) = fuzzy_match_with_score("application", "app");
    assert!(!matches);
    assert_eq!(score, 0);
}

#[test]
fn test_repeated_characters() {
    let (matches, _) = fuzzy_match_with_score("aaa", "aaa.tsx");
    assert!(matches);

    let (matches2, _) = fuzzy_match_with_score("aa", "banana.tsx");
    assert!(matches2);
}

#[test]
fn test_numbers_in_filename() {
    let (matches, _) = fuzzy_match_with_score("v2", "appV2Controller.tsx");
    assert!(matches);

    let (matches2, _) = fuzzy_match_with_score("123", "test123.tsx");
    assert!(matches2);
}

#[test]
fn test_is_word_boundary_slash() {
    let chars: Vec<char> = "src/app".chars().collect();
    assert!(is_word_boundary(&chars, 4)); // 'a' after '/'
}

#[test]
fn test_is_word_boundary_backslash() {
    let chars: Vec<char> = "src\\app".chars().collect();
    assert!(is_word_boundary(&chars, 4)); // 'a' after '\\'
}

#[test]
fn test_is_word_boundary_dot() {
    let chars: Vec<char> = "app.tsx".chars().collect();
    assert!(is_word_boundary(&chars, 4)); // 't' after '.'
}

#[test]
fn test_is_word_boundary_camel_case() {
    let chars: Vec<char> = "appController".chars().collect();
    assert!(is_word_boundary(&chars, 3)); // 'C' after 'p'
}

#[test]
fn test_is_word_boundary_underscore() {
    let chars: Vec<char> = "app_config".chars().collect();
    assert!(is_word_boundary(&chars, 4)); // 'c' after '_'
}

#[test]
fn test_is_word_boundary_hyphen() {
    let chars: Vec<char> = "app-config".chars().collect();
    assert!(is_word_boundary(&chars, 4)); // 'c' after '-'
}

#[test]
fn test_is_word_boundary_digit_to_letter() {
    let chars: Vec<char> = "test123abc".chars().collect();
    assert!(is_word_boundary(&chars, 7)); // 'a' after '3'
}

#[test]
fn test_is_word_boundary_start() {
    let chars: Vec<char> = "app".chars().collect();
    assert!(is_word_boundary(&chars, 0)); // First character
}

#[test]
fn test_is_word_boundary_lowercase_to_lowercase() {
    let chars: Vec<char> = "application".chars().collect();
    assert!(!is_word_boundary(&chars, 3)); // 'l' after 'p'
}

#[test]
fn test_scoring_comparison_real_world() {
    // Test realistic scenarios
    let files = vec![
        "App.tsx",
        "AppBar.tsx",
        "application.ts",
        "NavigationApp.tsx",
        "helpers/app_utils.ts",
    ];

    let mut results: Vec<(&str, i32)> = files
        .iter()
        .map(|f| {
            let (matches, score) = fuzzy_match_with_score("app", &f.to_lowercase());
            (*f, if matches { score } else { 0 })
        })
        .collect();

    results.sort_by(|a, b| b.1.cmp(&a.1));

    // App.tsx should rank highest (exact match at start)
    assert_eq!(results[0].0, "App.tsx");

    // application.ts should rank high (consecutive at start)
    assert!(results.iter().position(|r| r.0 == "application.ts").unwrap() < 3);
}

#[test]
fn test_edge_case_single_character() {
    let (matches, _) = fuzzy_match_with_score("a", "a");
    assert!(matches);

    let (matches2, _) = fuzzy_match_with_score("a", "b");
    assert!(!matches2);
}

#[test]
fn test_edge_case_all_same_character() {
    let (matches, _) = fuzzy_match_with_score("aaa", "aaaaaaa");
    assert!(matches);
}

#[test]
fn test_edge_case_reverse_order() {
    let (matches, _) = fuzzy_match_with_score("cba", "abc");
    assert!(!matches); // Pattern chars must appear in order
}

#[test]
fn test_whitespace_handling() {
    let (matches, _) = fuzzy_match_with_score("a b", "a b.tsx");
    assert!(matches);

    let (matches2, _) = fuzzy_match_with_score("ab", "a b.tsx");
    assert!(matches2); // Can skip whitespace
}

#[test]
fn test_long_inputs_are_scored() {
    let long = "a".repeat(10_001);
    let (matches, score) = fuzzy_match_with_score(&long, &long);
    assert!(matches);
    assert!(score > 700_000_000);
    assert_eq!(fuzzy_match_checked(&long, &long), Some((true, score)));
    let chars: Vec<char> = long.chars().collect();
    assert_eq!(calculate_match_score(&chars, &chars), score);
}

#[test]
fn test_score_overflow_is_reported() {
    let huge = "a".repeat(20_000);
    assert_eq!(fuzzy_match_checked(&huge, &huge), None);
    let chars: Vec<char> = huge.chars().collect();
    assert_eq!(checked_match_score(&chars, &chars), None);
    // A pattern that does not match is never scored.
    assert_eq!(fuzzy_match_checked(&(huge.clone() + "b"), &huge), Some((false, 0)));
}
