use codevar_wsocket::xdp_app_info::AppInfo;
use codevar_wsocket::xdp_error::PortalError;
use codevar_wsocket::xdp_request::{
    OptionValue, REQUEST_BASE_PATH, RequestHandle, build_request_path, extract_handle_token, is_valid_token, sanitize_sender,
};
use codevar_wsocket::xdp_session::{SessionHandle, build_session_path, extract_session_token};

#[test]
fn sanitizes_sender_for_path() {
    assert_eq!(sanitize_sender(":1.42"), "_1_42");
    assert_eq!(sanitize_sender("org.example.App"), "org_example_App");
    assert_eq!(sanitize_sender("a:b.c:d"), "a_b_c_d");
}

#[test]
fn request_handle_creation() {
    let app_info = AppInfo::host(":1.42");
    let handle = RequestHandle::new(":1.42", "test_token".to_string(), app_info, 12345);
    assert_eq!(handle.path, "/org/freedesktop/portal/desktop/request/_1_42/test_token");
    assert_eq!(handle.token, "test_token");
    assert_eq!(handle.sender, ":1.42");
    assert_eq!(handle.created_ms, 12345);
    assert!(!handle.is_closed);
    assert!(handle.impl_request_path.is_none());
    assert_eq!(handle.sanitized_sender(), "_1_42");
    assert!(handle.path.starts_with(REQUEST_BASE_PATH));
}

#[test]
fn session_handle_creation() {
    let app_info = AppInfo::host(":1.42");
    let handle = SessionHandle::new(":1.42", "test_token".to_string(), app_info, 12345);
    assert_eq!(handle.path, "/org/freedesktop/portal/desktop/session/_1_42/test_token");
    assert_eq!(handle.token, "test_token");
    assert_eq!(handle.sender, ":1.42");
    assert_eq!(handle.created_ms, 12345);
    assert!(!handle.is_closed);
    assert!(handle.reason.is_none());
    assert_eq!(handle.sanitized_sender(), "_1_42");
}

#[test]
fn builds_request_path_with_token() {
    let claimed: Vec<String> = Vec::new();
    let path = build_request_path(":1.42", "abc123", &claimed).unwrap();
    assert_eq!(path, "/org/freedesktop/portal/desktop/request/_1_42/abc123");
}

#[test]
fn xdp_request_rejects_invalid_token() {
    let claimed: Vec<String> = Vec::new();
    let err = build_request_path(":1.42", "has-dash", &claimed).unwrap_err();
    assert!(matches!(err, PortalError::InvalidArgument(_)));
}

#[test]
fn xdp_request_rejects_duplicate_path() {
    let mut claimed: Vec<String> = Vec::new();
    let path = build_request_path(":1.42", "token1", &claimed).unwrap();
    let handle = RequestHandle::new(":1.42", "token1".to_string(), AppInfo::host(":1.42"), 0);
    assert_eq!(handle.path, path);
    claimed.push(path.clone());
    let err = build_request_path(":1.42", "token1", &claimed).unwrap_err();
    assert!(matches!(err, PortalError::Exists(_)));
}

#[test]
fn builds_session_path_with_token() {
    let claimed: Vec<String> = Vec::new();
    let path = build_session_path(":1.42", "abc123", &claimed).unwrap();
    assert_eq!(path, "/org/freedesktop/portal/desktop/session/_1_42/abc123");
}

#[test]
fn xdp_session_rejects_invalid_token() {
    let claimed: Vec<String> = Vec::new();
    let err = build_session_path(":1.42", "has-dash", &claimed).unwrap_err();
    assert!(matches!(err, PortalError::InvalidArgument(_)));
}

#[test]
fn xdp_session_rejects_duplicate_path() {
    let mut claimed: Vec<String> = Vec::new();
    let path = build_session_path(":1.42", "token1", &claimed).unwrap();
    let handle = SessionHandle::new(":1.42", "token1".to_string(), AppInfo::host(":1.42"), 0);
    assert_eq!(handle.path, path);
    claimed.push(path.clone());
    let err = build_session_path(":1.42", "token1", &claimed).unwrap_err();
    assert!(matches!(err, PortalError::Exists(_)));
}

#[test]
fn token_rules_and_messages() {
    assert!(is_valid_token("abc_DEF_123"));
    assert!(!is_valid_token(""));
    assert!(!is_valid_token("a.b"));
    assert!(!is_valid_token("a/b"));
    let claimed = vec!["/org/freedesktop/portal/desktop/request/_1_7/t".to_string()];
    assert_eq!(
        build_request_path(":1.7", "t", &claimed),
        Err(PortalError::Exists(
            "Request path already claimed: /org/freedesktop/portal/desktop/request/_1_7/t".to_string()
        ))
    );
    assert_eq!(
        build_session_path(":1.7", "bad token", &Vec::new()),
        Err(PortalError::InvalidArgument("Invalid token: bad token".to_string()))
    );
    assert_eq!(build_session_path(":1.7", "t", &claimed), Ok("/org/freedesktop/portal/desktop/session/_1_7/t".to_string()));
}

#[test]
fn extracts_handle_token_from_options() {
    let value = OptionValue::Str("my_token".to_string());
    let token = extract_handle_token(Some(&value)).unwrap().unwrap();
    assert_eq!(token, "my_token");
}

#[test]
fn rejects_non_string_handle_token() {
    let value = OptionValue::U32(42);
    let err = extract_handle_token(Some(&value)).unwrap_err();
    assert!(matches!(err, PortalError::InvalidArgument(_)));
}

#[test]
fn extracts_session_token_from_options() {
    let value = OptionValue::Str("my_session".to_string());
    let token = extract_session_token(Some(&value)).unwrap().unwrap();
    assert_eq!(token, "my_session");
}

#[test]
fn rejects_non_string_session_token() {
    let value = OptionValue::U32(42);
    let err = extract_session_token(Some(&value)).unwrap_err();
    assert!(matches!(err, PortalError::InvalidArgument(_)));
}

#[test]
fn token_extraction_messages_and_absent_options() {
    assert_eq!(extract_handle_token(None), Ok(None));
    assert_eq!(extract_session_token(None), Ok(None));
    let bad = OptionValue::Str("has-dash".to_string());
    assert_eq!(
        extract_handle_token(Some(&bad)),
        Err(PortalError::InvalidArgument("Invalid handle_token: has-dash".to_string()))
    );
    assert_eq!(
        extract_session_token(Some(&OptionValue::Bool(true))),
        Err(PortalError::InvalidArgument("session_handle_token must be a string".to_string()))
    );
}
