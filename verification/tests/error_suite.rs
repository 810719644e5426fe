use clawproxy::error::{classify_transport_error, ProxyError};

#[test]
fn test_status_codes() {
    assert_eq!(ProxyError::UnknownService("p".to_string()).status_code(), 404);
    assert_eq!(ProxyError::BadRequest("d".to_string()).status_code(), 400);
    assert_eq!(ProxyError::UpstreamUnavailable("d".to_string()).status_code(), 502);
    assert_eq!(ProxyError::UpstreamTimeout("d".to_string()).status_code(), 504);
    assert_eq!(ProxyError::UpstreamRequest("d".to_string()).status_code(), 502);
    assert_eq!(ProxyError::InvalidToken("d".to_string()).status_code(), 500);
    assert_eq!(ProxyError::ServerStart("d".to_string()).status_code(), 500);
}

#[test]
fn test_client_messages_are_generic() {
    let e = ProxyError::UnknownService("/very/secret/path".to_string());
    assert_eq!(e.client_message(), "Unknown service");
    assert_eq!(e.client_body(), "{\"error\": \"Unknown service\"}");

    let e = ProxyError::InvalidToken("openai".to_string());
    assert_eq!(e.client_message(), "Configuration error");
    assert_eq!(e.client_body(), "{\"error\": \"Configuration error\"}");

    let e = ProxyError::UpstreamUnavailable("connect refused to api.example.com".to_string());
    assert_eq!(e.client_message(), "Upstream unavailable");

    let e = ProxyError::UpstreamTimeout("deadline exceeded".to_string());
    assert_eq!(e.client_message(), "Upstream timeout");

    let e = ProxyError::UpstreamRequest("h2 protocol error".to_string());
    assert_eq!(e.client_message(), "Upstream error");

    let e = ProxyError::BadRequest("bad".to_string());
    assert_eq!(e.client_message(), "Invalid request");
}

#[test]
fn test_client_body_never_echoes_detail() {
    let body = ProxyError::UnknownService("/attack?x=1".to_string()).client_body();
    assert!(!body.contains("/attack"));
}

#[test]
fn test_classify_transport_error() {
    assert!(matches!(
        classify_transport_error(true, false, "t".to_string()),
        ProxyError::UpstreamTimeout(_)
    ));
    assert!(matches!(
        classify_transport_error(true, true, "t".to_string()),
        ProxyError::UpstreamTimeout(_)
    ));
    assert!(matches!(
        classify_transport_error(false, true, "c".to_string()),
        ProxyError::UpstreamUnavailable(_)
    ));
    assert!(matches!(
        classify_transport_error(false, false, "o".to_string()),
        ProxyError::UpstreamRequest(_)
    ));
}
