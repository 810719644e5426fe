use clawproxy::error::SandboxError;
use clawproxy::sandbox::{create_sandbox, Platform, PlatformSandbox, SandboxConfig};
use clawproxy::sandbox_linux::{ancestor_chain, synthesize_allow_list, LinuxSandbox};
use clawproxy::sandbox_macos::MacOsSandbox;

#[test]
fn test_for_secrets_env_overlay() {
    let config = SandboxConfig::for_secrets(
        "/home/user/.clawproxy/secrets".to_string(),
        "http://127.0.0.1:8080",
    );
    assert_eq!(config.deny_read, vec!["/home/user/.clawproxy/secrets".to_string()]);
    assert_eq!(config.deny_write, vec!["/home/user/.clawproxy/secrets".to_string()]);
    assert_eq!(
        config.env,
        vec![
            ("HTTP_PROXY".to_string(), "http://127.0.0.1:8080".to_string()),
            ("HTTPS_PROXY".to_string(), "http://127.0.0.1:8080".to_string()),
            ("http_proxy".to_string(), "http://127.0.0.1:8080".to_string()),
            ("https_proxy".to_string(), "http://127.0.0.1:8080".to_string()),
        ]
    );
}

#[test]
fn test_create_sandbox_linux() {
    assert!(matches!(create_sandbox(Platform::Linux), Ok(PlatformSandbox::Linux(_))));
}

#[test]
fn test_create_sandbox_macos() {
    assert!(matches!(create_sandbox(Platform::MacOs), Ok(PlatformSandbox::MacOs(_))));
}

#[test]
fn test_create_sandbox_unsupported() {
    assert!(matches!(create_sandbox(Platform::Other), Err(SandboxError::NotAvailable)));
}

#[test]
fn test_ancestor_chain() {
    let chain = ancestor_chain("/a/b/secret");
    assert_eq!(
        chain,
        vec!["/".to_string(), "/a".to_string(), "/a/b".to_string(), "/a/b/secret".to_string()]
    );
}

#[test]
fn test_ancestor_chain_root_child() {
    assert_eq!(ancestor_chain("/etc"), vec!["/".to_string(), "/etc".to_string()]);
    assert_eq!(ancestor_chain("/"), vec!["/".to_string()]);
}

#[test]
fn test_allow_list_is_exactly_the_siblings() {
    let chain = ancestor_chain("/a/b/secret");
    let listings = vec![
        vec!["/a".to_string(), "/etc".to_string(), "/home".to_string()],
        vec!["/a/b".to_string(), "/a/x".to_string()],
        vec!["/a/b/secret".to_string(), "/a/b/sib1".to_string(), "/a/b/sib2".to_string()],
    ];
    let allowed = synthesize_allow_list(&chain, &listings);
    assert_eq!(
        allowed,
        vec![
            "/etc".to_string(),
            "/home".to_string(),
            "/a/x".to_string(),
            "/a/b/sib1".to_string(),
            "/a/b/sib2".to_string(),
        ]
    );
    assert!(!allowed.contains(&"/a".to_string()));
    assert!(!allowed.contains(&"/a/b".to_string()));
    assert!(!allowed.contains(&"/a/b/secret".to_string()));
}

#[test]
fn test_linux_exec_argv() {
    let sandbox = LinuxSandbox {};
    let args = vec!["--flag".to_string(), "value".to_string()];
    let argv = sandbox.exec_argv("agent", &args);
    assert_eq!(argv, vec!["agent".to_string(), "--flag".to_string(), "value".to_string()]);
}

#[test]
fn test_macos_exec_argv() {
    let sandbox = MacOsSandbox {};
    let args = vec!["run".to_string()];
    let argv = sandbox.exec_argv("(version 1)", "agent", &args);
    assert_eq!(
        argv,
        vec![
            "sandbox-exec".to_string(),
            "-p".to_string(),
            "(version 1)".to_string(),
            "agent".to_string(),
            "run".to_string(),
        ]
    );
}

#[test]
fn test_macos_render_profile() {
    let sandbox = MacOsSandbox {};
    let template = "(version 1)\n(deny file-read* (subpath \"{secrets_dir}\"))\n";
    let profile = sandbox.render_profile(template, "/home/user/.clawproxy/secrets");
    assert_eq!(
        profile,
        "(version 1)\n(deny file-read* (subpath \"/home/user/.clawproxy/secrets\"))\n"
    );
}
