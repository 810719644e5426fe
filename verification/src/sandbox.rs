//! The sandbox engine's policy model: what the launched process must
//! not reach, and the environment overlay that routes its HTTP egress
//! through the proxy.
//!
//! Applying the kernel restriction and replacing the process image are
//! process-level work done outside the library; the launcher derives
//! everything it applies from the values this module computes, and must
//! apply restrictions strictly before the exec (fail closed).

use vstd::prelude::*;

use crate::error::SandboxError;

verus! {

/// Configuration for one sandbox launch.
pub struct SandboxConfig {
    /// Paths the sandboxed process must not read.
    pub deny_read: Vec<String>,
    /// Paths the sandboxed process must not write.
    pub deny_write: Vec<String>,
    /// Environment variables set for the launched process.
    pub env: Vec<(String, String)>,
}

impl SandboxConfig {
    /// The policy that protects the secrets directory: deny it for
    /// reading and writing, and point every proxy environment variable
    /// at the credential-injecting proxy.
    pub fn for_secrets(secrets_dir: String, proxy_url: &str) -> (c: Self)
        ensures
            c.deny_read@.len() == 1 && c.deny_read@[0]@ == secrets_dir@,
            c.deny_write@.len() == 1 && c.deny_write@[0]@ == secrets_dir@,
            c.env@.len() == 4,
            c.env@[0].0@ == "HTTP_PROXY"@ && c.env@[0].1@ == proxy_url@,
            c.env@[1].0@ == "HTTPS_PROXY"@ && c.env@[1].1@ == proxy_url@,
            c.env@[2].0@ == "http_proxy"@ && c.env@[2].1@ == proxy_url@,
            c.env@[3].0@ == "https_proxy"@ && c.env@[3].1@ == proxy_url@,
    {
        let mut env: Vec<(String, String)> = Vec::new();
        env.push(("HTTP_PROXY".to_owned(), proxy_url.to_owned()));
        env.push(("HTTPS_PROXY".to_owned(), proxy_url.to_owned()));
        env.push(("http_proxy".to_owned(), proxy_url.to_owned()));
        env.push(("https_proxy".to_owned(), proxy_url.to_owned()));
        let mut deny_read: Vec<String> = Vec::new();
        deny_read.push(secrets_dir.clone());
        let mut deny_write: Vec<String> = Vec::new();
        deny_write.push(secrets_dir);
        SandboxConfig { deny_read, deny_write, env }
    }
}

/// The capability contract every platform launcher implements: apply
/// the restriction policy, set the environment overlay, and replace
/// the current process image with the target command.  On success the
/// call never returns, so its return value is always a failure; any
/// failure must abort before the exec (fail closed).
pub trait Sandbox {
    /// Applies `config` and replaces the process with `cmd` and
    /// `args`; returns only on failure.
    fn exec_sandboxed(&self, config: &SandboxConfig, cmd: &str, args: &[String]) -> SandboxError;
}

/// The platform the launcher runs on.
pub enum Platform {
    Linux,
    MacOs,
    Other,
}

/// The platform variant a sandbox launch uses.
pub enum PlatformSandbox {
    Linux(crate::sandbox_linux::LinuxSandbox),
    MacOs(crate::sandbox_macos::MacOsSandbox),
}

/// Selects the sandbox variant for the given platform; platforms with
/// no supported restriction mechanism refuse to launch.
pub fn create_sandbox(platform: Platform) -> (r: Result<PlatformSandbox, SandboxError>)
    ensures
        platform is Linux ==> (r matches Ok(s) && s is Linux),
        platform is MacOs ==> (r matches Ok(s) && s is MacOs),
        platform is Other ==> (r matches Err(e) && e is NotAvailable),
{
    match platform {
        Platform::Linux => Ok(PlatformSandbox::Linux(crate::sandbox_linux::LinuxSandbox {  })),
        Platform::MacOs => Ok(PlatformSandbox::MacOs(crate::sandbox_macos::MacOsSandbox {  })),
        Platform::Other => Err(SandboxError::NotAvailable),
    }
}

} // verus!
