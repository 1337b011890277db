use stashroom::types::{default_context_lines, default_search_limit, ApiResponse};

#[test]
fn test_api_response_success() {
    let r = ApiResponse::success(42u32);
    assert!(r.ok);
    assert_eq!(r.data, Some(42));
    assert_eq!(r.code, None);
    assert_eq!(r.message, None);
}

#[test]
fn test_api_response_error() {
    let r: ApiResponse<u32> = ApiResponse::error("REPO_NOT_FOUND".to_string(), "Repository not found: x".to_string());
    assert!(!r.ok);
    assert_eq!(r.data, None);
    assert_eq!(r.code.as_deref(), Some("REPO_NOT_FOUND"));
    assert_eq!(r.message.as_deref(), Some("Repository not found: x"));
}

#[test]
fn test_request_defaults() {
    assert_eq!(default_context_lines(), Some(3));
    assert_eq!(default_search_limit(), 100);
}
