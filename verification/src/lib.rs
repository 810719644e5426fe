//! Credential-isolation core for a secret-injecting forward proxy.
//!
//! The crate holds the verified logic of the system: prefix routing of
//! request paths to configured services, credential injection into
//! header templates, inline secret-reference substitution, sanitisation
//! of proxied headers, and synthesis of the allow-list that an
//! allow-list-only kernel sandbox needs in order to hide one directory.
//! Process plumbing (listening sockets, upstream dispatch, directory
//! walks, the final exec) lives outside and consumes plain values.

pub mod config;
pub mod error;
pub mod router;
pub mod sandbox;
pub mod sandbox_linux;
pub mod sandbox_macos;
pub mod secrets;
pub mod server;
pub mod substitution;
pub mod text;
