use clawproxy::config::ServiceConfig;
use clawproxy::error::ProxyError;
use clawproxy::router::{build_upstream_url, match_service, rewrite_path};
use clawproxy::server::{build_upstream_parts, convert_response_parts, is_hop_by_hop};
use clawproxy::substitution::{contains_proxy_token, format_auth_header, substitute_tokens};

fn test_services() -> Vec<(String, ServiceConfig)> {
    vec![(
        "openai".to_string(),
        ServiceConfig {
            prefix: "/openai".to_string(),
            upstream: "https://api.openai.com".to_string(),
            secret: "openai".to_string(),
            auth_header: "Authorization".to_string(),
            auth_format: "Bearer {secret}".to_string(),
        },
    )]
}

fn test_secrets() -> Vec<(String, String)> {
    vec![
        ("openai".to_string(), "sk-12345".to_string()),
        ("anthropic".to_string(), "sk-ant-67890".to_string()),
    ]
}

#[test]
fn test_rewrite_path() {
    assert_eq!(rewrite_path("/openai/v1/chat", "/openai"), "/v1/chat");
    assert_eq!(rewrite_path("/anthropic/v1/messages", "/anthropic"), "/v1/messages");
}

#[test]
fn test_match_service() {
    let services = test_services();
    let result = match_service("/openai/v1/chat/completions", &services);
    assert!(result.is_some());
    let (name, _) = result.unwrap();
    assert_eq!(name.as_str(), "openai");
}

#[test]
fn test_match_service_no_match() {
    let services = test_services();
    let result = match_service("/unknown/path", &services);
    assert!(result.is_none());
}

#[test]
fn test_build_upstream_url() {
    let services = test_services();
    let service = &services[0].1;

    let url = build_upstream_url(service, "/openai/v1/chat", None);
    assert_eq!(url, "https://api.openai.com/v1/chat");

    let url = build_upstream_url(service, "/openai/v1/chat", Some("stream=true"));
    assert_eq!(url, "https://api.openai.com/v1/chat?stream=true");
}

#[test]
fn test_substitute_tokens() {
    let secrets = test_secrets();
    let result = substitute_tokens("Bearer PROXY:openai", &secrets).unwrap();
    assert_eq!(result, "Bearer sk-12345");
}

#[test]
fn test_substitute_multiple_tokens() {
    let secrets = test_secrets();
    let result = substitute_tokens("PROXY:openai and PROXY:anthropic", &secrets).unwrap();
    assert_eq!(result, "sk-12345 and sk-ant-67890");
}

#[test]
fn test_unknown_token_error() {
    let secrets = test_secrets();
    let result = substitute_tokens("Bearer PROXY:unknown", &secrets);
    assert!(result.is_err());
}

#[test]
fn test_no_tokens() {
    let secrets = test_secrets();
    let result = substitute_tokens("Bearer sk-real-key", &secrets).unwrap();
    assert_eq!(result, "Bearer sk-real-key");
}

#[test]
fn test_format_auth_header() {
    assert_eq!(format_auth_header("Bearer {secret}", "sk-12345"), "Bearer sk-12345");
    assert_eq!(format_auth_header("{secret}", "sk-ant-67890"), "sk-ant-67890");
}

#[test]
fn test_contains_proxy_token() {
    assert!(contains_proxy_token("Bearer PROXY:openai"));
    assert!(contains_proxy_token("PROXY:test"));
    assert!(!contains_proxy_token("Bearer sk-12345"));
    assert!(!contains_proxy_token("no token here"));
}

#[test]
fn test_substitute_same_token_twice() {
    let secrets = test_secrets();
    let result = substitute_tokens("PROXY:openai and PROXY:openai", &secrets).unwrap();
    assert_eq!(result, "sk-12345 and sk-12345");
}

#[test]
fn test_token_without_name_is_no_reference() {
    let secrets = test_secrets();
    assert!(!contains_proxy_token("PROXY: not a reference"));
    let result = substitute_tokens("PROXY: not a reference", &secrets).unwrap();
    assert_eq!(result, "PROXY: not a reference");
}

#[test]
fn test_forward_openai_end_to_end() {
    let services = test_services();
    let secrets = vec![("openai".to_string(), "sk-test".to_string())];
    let headers = vec![
        ("Host".to_string(), "localhost:8080".to_string()),
        ("Authorization".to_string(), "Bearer client-copy".to_string()),
        ("Accept".to_string(), "application/json".to_string()),
    ];
    let parts = build_upstream_parts("/openai/v1/models", None, &headers, &services, &secrets)
        .unwrap();
    assert_eq!(parts.url, "https://api.openai.com/v1/models");
    assert_eq!(
        parts.headers,
        vec![
            ("Accept".to_string(), "application/json".to_string()),
            ("Authorization".to_string(), "Bearer sk-test".to_string()),
        ]
    );
}

#[test]
fn test_forward_injects_auth_header_once() {
    let services = test_services();
    let secrets = vec![("openai".to_string(), "sk-test".to_string())];
    let headers = vec![
        ("authorization".to_string(), "Bearer stolen".to_string()),
        ("AUTHORIZATION".to_string(), "Bearer stolen-too".to_string()),
    ];
    let parts = build_upstream_parts("/openai/v1/models", None, &headers, &services, &secrets)
        .unwrap();
    let auth_count = parts
        .headers
        .iter()
        .filter(|h| h.0.eq_ignore_ascii_case("authorization"))
        .count();
    assert_eq!(auth_count, 1);
    assert_eq!(parts.headers, vec![("Authorization".to_string(), "Bearer sk-test".to_string())]);
}

#[test]
fn test_forward_unknown_service() {
    let services = test_services();
    let secrets = test_secrets();
    let headers = Vec::new();
    let result = build_upstream_parts("/unknown/path", None, &headers, &services, &secrets);
    match result {
        Err(ProxyError::UnknownService(_)) => {}
        _ => panic!("expected an unknown-service error"),
    }
}

#[test]
fn test_forward_missing_secret() {
    let services = test_services();
    let secrets: Vec<(String, String)> = Vec::new();
    let headers = Vec::new();
    let result = build_upstream_parts("/openai/v1/models", None, &headers, &services, &secrets);
    match result {
        Err(ProxyError::InvalidToken(name)) => assert_eq!(name, "openai"),
        _ => panic!("expected a missing-secret error"),
    }
}

#[test]
fn test_forward_keeps_query_string() {
    let services = test_services();
    let secrets = vec![("openai".to_string(), "sk-test".to_string())];
    let headers = Vec::new();
    let parts = build_upstream_parts(
        "/openai/v1/chat",
        Some("stream=true"),
        &headers,
        &services,
        &secrets,
    )
    .unwrap();
    assert_eq!(parts.url, "https://api.openai.com/v1/chat?stream=true");
}

#[test]
fn test_is_hop_by_hop() {
    assert!(is_hop_by_hop("connection"));
    assert!(is_hop_by_hop("Keep-Alive"));
    assert!(is_hop_by_hop("PROXY-AUTHENTICATE"));
    assert!(is_hop_by_hop("proxy-authorization"));
    assert!(is_hop_by_hop("TE"));
    assert!(is_hop_by_hop("Trailers"));
    assert!(is_hop_by_hop("Transfer-Encoding"));
    assert!(is_hop_by_hop("upgrade"));
    assert!(!is_hop_by_hop("content-type"));
    assert!(!is_hop_by_hop("authorization"));
}

#[test]
fn test_response_drops_hop_by_hop_headers() {
    let headers = vec![
        ("Connection".to_string(), "keep-alive".to_string()),
        ("Keep-Alive".to_string(), "timeout=5".to_string()),
        ("Content-Type".to_string(), "application/json".to_string()),
        ("Transfer-Encoding".to_string(), "chunked".to_string()),
        ("X-Request-Id".to_string(), "abc".to_string()),
    ];
    let plan = convert_response_parts(200, &headers);
    assert_eq!(plan.status, 200);
    assert_eq!(
        plan.headers,
        vec![
            ("Content-Type".to_string(), "application/json".to_string()),
            ("X-Request-Id".to_string(), "abc".to_string()),
        ]
    );
}

#[test]
fn test_response_streaming_detection() {
    let sse = vec![
        ("Content-Type".to_string(), "text/event-stream; charset=utf-8".to_string()),
    ];
    let plan = convert_response_parts(200, &sse);
    assert!(plan.streaming);

    let json = vec![("Content-Type".to_string(), "application/json".to_string())];
    let plan = convert_response_parts(200, &json);
    assert!(!plan.streaming);

    let none: Vec<(String, String)> = Vec::new();
    let plan = convert_response_parts(204, &none);
    assert!(!plan.streaming);
    assert_eq!(plan.status, 204);
}
