use clawproxy::config::{known_service_config, load_all_secrets, mask_secret, Config, ServiceConfig};
use clawproxy::error::ConfigError;

fn service(prefix: &str, upstream: &str, secret: &str, header: &str, format: &str) -> ServiceConfig {
    ServiceConfig {
        prefix: prefix.to_string(),
        upstream: upstream.to_string(),
        secret: secret.to_string(),
        auth_header: header.to_string(),
        auth_format: format.to_string(),
    }
}

#[test]
fn test_default_config() {
    let config = Config::default();
    assert_eq!(config.listen.host, "127.0.0.1");
    assert_eq!(config.listen.port, 8080);
    assert!(config.services.is_empty());
}

#[test]
fn test_secrets_dir_relative_path() {
    let config = Config::default();
    let secrets_dir = config.secrets_dir();
    assert!(secrets_dir.starts_with('/'));
}

#[test]
fn test_secrets_dir_absolute_path() {
    let mut config = Config::default();
    config.secrets_dir = "/absolute/path/secrets".to_string();
    let secrets_dir = config.secrets_dir();
    assert_eq!(secrets_dir, "/absolute/path/secrets".to_string());
}

#[test]
fn test_validate_accepts_good_config() {
    let mut config = Config::default();
    config.services.push((
        "test".to_string(),
        service("/test", "https://test.example.com", "test_key", "Authorization", "Bearer {secret}"),
    ));
    assert!(config.validate().is_ok());
}

#[test]
fn test_validate_rejects_bad_prefix() {
    let mut config = Config::default();
    config.services.push((
        "test".to_string(),
        service("test", "https://test.example.com", "k", "Authorization", "{secret}"),
    ));
    assert!(matches!(config.validate(), Err(ConfigError::Invalid(_))));
}

#[test]
fn test_validate_rejects_bad_upstream() {
    let mut config = Config::default();
    config.services.push((
        "test".to_string(),
        service("/test", "not a url", "k", "Authorization", "{secret}"),
    ));
    assert!(matches!(config.validate(), Err(ConfigError::Invalid(_))));
}

#[test]
fn test_validate_rejects_missing_placeholder() {
    let mut config = Config::default();
    config.services.push((
        "test".to_string(),
        service("/test", "https://test.example.com", "k", "Authorization", "Bearer token"),
    ));
    assert!(matches!(config.validate(), Err(ConfigError::Invalid(_))));
}

#[test]
fn test_validate_rejects_duplicate_prefix() {
    let mut config = Config::default();
    config.services.push((
        "one".to_string(),
        service("/same", "https://one.example.com", "k1", "Authorization", "{secret}"),
    ));
    config.services.push((
        "two".to_string(),
        service("/same", "https://two.example.com", "k2", "Authorization", "{secret}"),
    ));
    assert!(matches!(config.validate(), Err(ConfigError::Invalid(_))));
}

#[test]
fn test_validate_rejects_bad_host() {
    let mut config = Config::default();
    config.listen.host = "not a host".to_string();
    assert!(matches!(config.validate(), Err(ConfigError::Invalid(_))));
}

#[test]
fn test_known_service_config_openai() {
    let s = known_service_config("openai").unwrap();
    assert_eq!(s.prefix, "/openai");
    assert_eq!(s.upstream, "https://api.openai.com");
    assert_eq!(s.secret, "openai");
    assert_eq!(s.auth_header, "Authorization");
    assert_eq!(s.auth_format, "Bearer {secret}");
}

#[test]
fn test_known_service_config_anthropic() {
    let s = known_service_config("anthropic").unwrap();
    assert_eq!(s.prefix, "/anthropic");
    assert_eq!(s.upstream, "https://api.anthropic.com");
    assert_eq!(s.secret, "anthropic");
    assert_eq!(s.auth_header, "x-api-key");
    assert_eq!(s.auth_format, "{secret}");
}

#[test]
fn test_known_service_config_unknown() {
    assert!(known_service_config("somethingelse").is_none());
}

#[test]
fn test_load_all_secrets_trims_values() {
    let mut config = Config::default();
    config.services.push((
        "openai".to_string(),
        service("/openai", "https://api.openai.com", "openai", "Authorization", "Bearer {secret}"),
    ));
    let files = vec![("openai".to_string(), "  sk-test\n".to_string())];
    let secrets = load_all_secrets(&files, &config).unwrap();
    assert_eq!(secrets, vec![("openai".to_string(), "sk-test".to_string())]);
}

#[test]
fn test_load_all_secrets_missing_secret() {
    let mut config = Config::default();
    config.services.push((
        "openai".to_string(),
        service("/openai", "https://api.openai.com", "openai", "Authorization", "Bearer {secret}"),
    ));
    let files: Vec<(String, String)> = Vec::new();
    let result = load_all_secrets(&files, &config);
    assert!(matches!(result, Err(ConfigError::SecretNotFound(_))));
}

#[test]
fn test_mask_secret_short() {
    assert_eq!(mask_secret("short"), "****");
    assert_eq!(mask_secret("12345678"), "****");
}

#[test]
fn test_mask_secret_long() {
    assert_eq!(mask_secret("sk-1234567890"), "sk-1...7890");
}

#[test]
fn test_trim_removes_surrounding_whitespace() {
    assert_eq!(clawproxy::text::trim("  value \t\n"), "value");
    assert_eq!(clawproxy::text::trim("inner space kept"), "inner space kept");
    assert_eq!(clawproxy::text::trim(" \n\t "), "");
}
