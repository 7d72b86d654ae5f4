use herald::client::{
    classify_request_error, classify_status, classify_status_error, normalize_base_url,
    response_parse_error, ApiError,
};

#[test]
fn status_errors_are_classified() {
    assert!(matches!(classify_status_error(401, Some("x".to_string())), ApiError::Unauthorized));
    match classify_status_error(404, Some("message 7 not found".to_string())) {
        ApiError::NotFound(m) => assert_eq!(m, "message 7 not found"),
        other => panic!("unexpected {other:?}"),
    }
    match classify_status_error(400, None) {
        ApiError::BadRequest(m) => assert_eq!(m, "400 Bad Request"),
        other => panic!("unexpected {other:?}"),
    }
    match classify_status_error(503, None) {
        ApiError::ServerError(m) => assert_eq!(m, "503 Service Unavailable"),
        other => panic!("unexpected {other:?}"),
    }
    match classify_status_error(429, Some("slow down".to_string())) {
        ApiError::Other(m) => assert_eq!(m, "429 Too Many Requests: slow down"),
        other => panic!("unexpected {other:?}"),
    }
}

#[test]
fn classify_with_given_status_text() {
    match classify_status(418, "418 I'm a teapot", None) {
        ApiError::Other(m) => assert_eq!(m, "418 I'm a teapot: 418 I'm a teapot"),
        other => panic!("unexpected {other:?}"),
    }
}

#[test]
fn error_messages() {
    assert_eq!(
        ApiError::ConnectionRefused("http://h:3000".to_string()).message(),
        "Connection refused — is the Herald server running at http://h:3000?"
    );
    assert_eq!(ApiError::Unauthorized.message(), "Authentication failed — check your --token value");
    assert_eq!(ApiError::NotFound("x".to_string()).message(), "Not found: x");
    assert_eq!(ApiError::BadRequest("y".to_string()).message(), "Bad request: y");
    assert_eq!(ApiError::ServerError("z".to_string()).message(), "Server error: z");
    assert_eq!(ApiError::Other("w".to_string()).message(), "w");
}

#[test]
fn transport_errors() {
    match classify_request_error(true, "refused".to_string(), "http://h") {
        ApiError::ConnectionRefused(u) => assert_eq!(u, "http://h"),
        other => panic!("unexpected {other:?}"),
    }
    match classify_request_error(false, "timeout".to_string(), "http://h") {
        ApiError::Other(m) => assert_eq!(m, "timeout"),
        other => panic!("unexpected {other:?}"),
    }
    match response_parse_error("eof") {
        ApiError::Other(m) => assert_eq!(m, "Failed to parse response: eof"),
        other => panic!("unexpected {other:?}"),
    }
}

#[test]
fn base_url_loses_trailing_slashes() {
    assert_eq!(normalize_base_url("http://h:3000//"), "http://h:3000");
    assert_eq!(normalize_base_url("http://h:3000"), "http://h:3000");
    assert_eq!(normalize_base_url("///"), "");
}
