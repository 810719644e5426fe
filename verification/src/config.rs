//! Configuration data model: the listen address, the service registry
//! and the secret store contents, with the validation the proxy runs
//! before accepting traffic.
//!
//! Loading the configuration file and reading secret files is I/O and
//! happens outside; this module owns the schema rules: prefixes start
//! with `/` and are unique, upstreams parse as URLs, and every auth
//! format carries the `{secret}` placeholder.

use vstd::prelude::*;
use vstd::string::*;

use crate::error::ConfigError;
use crate::text::{contains_seq, contains_sub, str_eq, trim, trim_spec};

verus! {

/// Listen address configuration.
pub struct ListenConfig {
    pub host: String,
    pub port: u16,
}

/// Service configuration for upstream API routing.
pub struct ServiceConfig {
    pub prefix: String,
    pub upstream: String,
    pub secret: String,
    pub auth_header: String,
    pub auth_format: String,
}

/// Main configuration structure.  Services are an ordered list of
/// (name, rule) pairs; routing scans them in order.
pub struct Config {
    pub listen: ListenConfig,
    pub location: String,
    pub secrets_dir: String,
    pub services: Vec<(String, ServiceConfig)>,
}

/// Whether `url::Host` accepts `s` as a host name; a function of the
/// characters alone.
pub uninterp spec fn host_parses(s: Seq<char>) -> bool;

/// Whether `url::Url` accepts `s` as an absolute URL; a function of the
/// characters alone.
pub uninterp spec fn url_parses(s: Seq<char>) -> bool;

/// Relies on url::Host::parse: acceptance of a host string depends on
/// the characters alone.
#[verifier::external_body]
fn host_parse_ok(s: &str) -> (r: bool)
    ensures
        r == host_parses(s@),
{
    url::Host::parse(s).is_ok()
}

/// Relies on url::Url::parse: acceptance of an absolute-URL string
/// depends on the characters alone.
#[verifier::external_body]
fn url_parse_ok(s: &str) -> (r: bool)
    ensures
        r == url_parses(s@),
{
    url::Url::parse(s).is_ok()
}

/// Relies on dirs::home_dir: the platform's home directory for the
/// current user, if it knows one; nothing is assumed of the value.
#[verifier::external_body]
fn home_dir_string() -> (r: Option<String>) {
    dirs::home_dir().map(|p| p.to_string_lossy().into_owned())
}

/// A path that names a location from the filesystem root.
pub open spec fn is_absolute_path(p: Seq<char>) -> bool {
    p.len() > 0 && p[0] == '/'
}

/// A single service rule is acceptable: prefix rooted at `/`, upstream
/// a parseable URL, and the auth format holds the secret placeholder.
pub open spec fn service_ok(s: ServiceConfig) -> bool {
    is_absolute_path(s.prefix@) && url_parses(s.upstream@) && contains_seq(
        s.auth_format@,
        "{secret}"@,
    )
}

/// No two service rules share a prefix.
pub open spec fn prefixes_unique(services: Seq<(String, ServiceConfig)>) -> bool {
    forall|i: int, j: int|
        0 <= i < j < services.len() ==> (#[trigger] services[i]).1.prefix@ != (
        #[trigger] services[j]).1.prefix@
}

/// The whole configuration is acceptable.
pub open spec fn config_valid(c: Config) -> bool {
    host_parses(c.listen.host@) && (forall|i: int|
        0 <= i < c.services@.len() ==> service_ok((#[trigger] c.services@[i]).1))
        && prefixes_unique(c.services@)
}

impl Config {
    /// Checks the listen address and every service rule; `Ok` exactly
    /// when the whole configuration is acceptable.
    pub fn validate(&self) -> (r: Result<(), ConfigError>)
        ensures
            r is Ok <==> config_valid(*self),
            r matches Err(e) ==> e is Invalid,
    {
        match self.validate_listen() {
            Ok(()) => {},
            Err(e) => {
                return Err(e);
            },
        }
        self.validate_services()
    }

    /// Checks that the listen host parses as a host name.
    fn validate_listen(&self) -> (r: Result<(), ConfigError>)
        ensures
            r is Ok <==> host_parses(self.listen.host@),
            r matches Err(e) ==> e is Invalid,
    {
        if !host_parse_ok(self.listen.host.as_str()) {
            let mut msg = String::new();
            msg.append("Invalid host: ");
            msg.append(self.listen.host.as_str());
            return Err(ConfigError::Invalid(msg));
        }
        Ok(())
    }

    /// Checks every service rule and the uniqueness of prefixes.
    fn validate_services(&self) -> (r: Result<(), ConfigError>)
        ensures
            r is Ok <==> (forall|i: int|
                0 <= i < self.services@.len() ==> service_ok((#[trigger] self.services@[i]).1))
                && prefixes_unique(self.services@),
            r matches Err(e) ==> e is Invalid,
    {
        let n = self.services.len();
        let mut i: usize = 0;
        while i < n
            invariant
                n == self.services@.len(),
                0 <= i <= n,
                forall|k: int| 0 <= k < i ==> service_ok((#[trigger] self.services@[k]).1),
                forall|k: int, j: int|
                    0 <= k < j < i ==> (#[trigger] self.services@[k]).1.prefix@ != (
                    #[trigger] self.services@[j]).1.prefix@,
            decreases n - i,
        {
            let service = &self.services[i].1;
            let plen = service.prefix.as_str().unicode_len();
            if plen == 0 || service.prefix.as_str().get_char(0) != '/' {
                let mut msg = String::new();
                msg.append("Invalid service prefix. Must begin with /: ");
                msg.append(service.prefix.as_str());
                return Err(ConfigError::Invalid(msg));
            }
            if !url_parse_ok(service.upstream.as_str()) {
                let mut msg = String::new();
                msg.append("Invalid service upstream. Not a valid url: ");
                msg.append(service.upstream.as_str());
                return Err(ConfigError::Invalid(msg));
            }
            if !contains_sub(service.auth_format.as_str(), "{secret}") {
                let mut msg = String::new();
                msg.append("Invalid service auth_format. Must contain {secret}: ");
                msg.append(service.auth_format.as_str());
                return Err(ConfigError::Invalid(msg));
            }
            let mut j: usize = 0;
            while j < i
                invariant
                    n == self.services@.len(),
                    0 <= j <= i < n,
                    forall|k: int|
                        0 <= k < j ==> (#[trigger] self.services@[k]).1.prefix@
                            != self.services@[i as int].1.prefix@,
                decreases i - j,
            {
                if str_eq(self.services[j].1.prefix.as_str(), self.services[i].1.prefix.as_str()) {
                    let mut msg = String::new();
                    msg.append("Duplicate service prefix: ");
                    msg.append(service.prefix.as_str());
                    return Err(ConfigError::Invalid(msg));
                }
                j = j + 1;
            }
            i = i + 1;
        }
        Ok(())
    }

    /// The default configuration file path, inside the default
    /// configuration directory.
    pub fn default_config_path() -> (r: Result<String, ConfigError>)
        ensures
            r matches Ok(p) ==> exists|h: Seq<char>| p@ == h + "/.clawproxy/config.yaml"@,
            r is Ok,
    {
        let mut p = default_config_dir();
        proof {
            reveal_strlit("/.clawproxy");
            reveal_strlit("/config.yaml");
            reveal_strlit("/.clawproxy/config.yaml");
            let h = choose|h: Seq<char>| p@ == h + "/.clawproxy"@;
            assert((h + "/.clawproxy"@) + "/config.yaml"@ =~= h + "/.clawproxy/config.yaml"@);
        }
        p.append("/config.yaml");
        Ok(p)
    }

    /// The default configuration directory path.
    pub fn default_config_dir() -> (r: Result<String, ConfigError>)
        ensures
            r matches Ok(p) ==> exists|h: Seq<char>| p@ == h + "/.clawproxy"@,
            r is Ok,
    {
        Ok(default_config_dir())
    }

    /// The absolute path of the secrets directory: taken as given when
    /// absolute, resolved under the default configuration directory
    /// otherwise.
    pub fn secrets_dir(&self) -> (r: String)
        ensures
            is_absolute_path(self.secrets_dir@) ==> r@ == self.secrets_dir@,
            !is_absolute_path(self.secrets_dir@) ==> exists|h: Seq<char>|
                r@ == h + "/.clawproxy/"@ + self.secrets_dir@,
    {
        let slen = self.secrets_dir.as_str().unicode_len();
        if slen > 0 && self.secrets_dir.as_str().get_char(0) == '/' {
            self.secrets_dir.clone()
        } else {
            let mut p = default_config_dir();
            proof {
                reveal_strlit("/.clawproxy");
                reveal_strlit("/");
                reveal_strlit("/.clawproxy/");
                let h = choose|h: Seq<char>| p@ == h + "/.clawproxy"@;
                assert(((h + "/.clawproxy"@) + "/"@) + self.secrets_dir@ =~= (h + "/.clawproxy/"@)
                    + self.secrets_dir@);
            }
            p.append("/");
            p.append(self.secrets_dir.as_str());
            p
        }
    }
}

/// The default secrets directory, relative to the configuration
/// directory.
fn default_secrets_dir() -> (r: String)
    ensures
        r@ == "secrets"@,
{
    "secrets".to_owned()
}

/// The default configuration directory: `.clawproxy` under the home
/// directory, or under `.` where the platform knows no home.
fn default_config_dir() -> (r: String)
    ensures
        exists|h: Seq<char>| r@ == h + "/.clawproxy"@,
{
    let mut base = match home_dir_string() {
        Some(h) => h,
        None => ".".to_owned(),
    };
    base.append("/.clawproxy");
    base
}

/// The default listen host.
fn default_host() -> (r: String)
    ensures
        r@ == "127.0.0.1"@,
{
    "127.0.0.1".to_owned()
}

/// The default listen port.
fn default_port() -> (r: u16)
    ensures
        r == 8080,
{
    8080
}

impl Default for Config {
    /// The configuration used when no file exists: local listen
    /// address, default directories, and no services.
    fn default() -> (r: Self)
        ensures
            r.listen.host@ == "127.0.0.1"@,
            r.listen.port == 8080,
            r.secrets_dir@ == "secrets"@,
            r.services@.len() == 0,
            exists|h: Seq<char>| r.location@ == h + "/.clawproxy"@,
    {
        Config {
            listen: ListenConfig { host: default_host(), port: default_port() },
            location: default_config_dir(),
            secrets_dir: default_secrets_dir(),
            services: Vec::new(),
        }
    }
}

/// The built-in service rule for a well-known provider name, used to
/// auto-configure a service when its secret is first set.
pub fn known_service_config(name: &str) -> (r: Option<ServiceConfig>)
    ensures
        name@ == "anthropic"@ ==> (r matches Some(s) && s.prefix@ == "/anthropic"@ && s.upstream@
            == "https://api.anthropic.com"@ && s.secret@ == "anthropic"@ && s.auth_header@
            == "x-api-key"@ && s.auth_format@ == "{secret}"@),
        name@ == "openai"@ ==> (r matches Some(s) && s.prefix@ == "/openai"@ && s.upstream@
            == "https://api.openai.com"@ && s.secret@ == "openai"@ && s.auth_header@
            == "Authorization"@ && s.auth_format@ == "Bearer {secret}"@),
        name@ != "anthropic"@ && name@ != "openai"@ ==> r is None,
{
    proof {
        reveal_strlit("anthropic");
        reveal_strlit("openai");
        assert("anthropic"@.len() != "openai"@.len());
    }
    if str_eq(name, "anthropic") {
        Some(
            ServiceConfig {
                prefix: "/anthropic".to_owned(),
                upstream: "https://api.anthropic.com".to_owned(),
                secret: "anthropic".to_owned(),
                auth_header: "x-api-key".to_owned(),
                auth_format: "{secret}".to_owned(),
            },
        )
    } else if str_eq(name, "openai") {
        Some(
            ServiceConfig {
                prefix: "/openai".to_owned(),
                upstream: "https://api.openai.com".to_owned(),
                secret: "openai".to_owned(),
                auth_header: "Authorization".to_owned(),
                auth_format: "Bearer {secret}".to_owned(),
            },
        )
    } else {
        None
    }
}

/// Selects and trims the secrets the configured services need from the
/// secret files' raw contents, one (name, contents) pair per file.
/// Fails naming the first missing secret; succeeds exactly when every
/// referenced secret has a file.
pub fn load_all_secrets(files: &Vec<(String, String)>, config: &Config) -> (r: Result<
    Vec<(String, String)>,
    ConfigError,
>)
    ensures
        r is Ok <==> forall|i: int|
            0 <= i < config.services@.len() ==> crate::secrets::map_of_pairs(
                files@,
            ).contains_key((#[trigger] config.services@[i]).1.secret@),
        r matches Ok(out) ==> (forall|i: int|
            0 <= i < config.services@.len() ==> crate::secrets::map_of_pairs(out@).contains_key(
                (#[trigger] config.services@[i]).1.secret@,
            ) && crate::secrets::map_of_pairs(out@).index(config.services@[i].1.secret@)
                == trim_spec(
                crate::secrets::map_of_pairs(files@).index(config.services@[i].1.secret@),
            )) && (forall|k: Seq<char>|
            crate::secrets::map_of_pairs(out@).contains_key(k) ==> exists|i: int|
                0 <= i < config.services@.len() && (#[trigger] config.services@[i]).1.secret@
                    == k),
        r matches Err(e) ==> e is SecretNotFound,
{
    let n = config.services.len();
    let mut out: Vec<(String, String)> = Vec::new();
    let mut i: usize = 0;
    while i < n
        invariant
            n == config.services@.len(),
            0 <= i <= n,
            forall|k: int|
                0 <= k < i ==> crate::secrets::map_of_pairs(files@).contains_key(
                    (#[trigger] config.services@[k]).1.secret@,
                ),
            forall|k: int|
                0 <= k < i ==> crate::secrets::map_of_pairs(out@).contains_key(
                    (#[trigger] config.services@[k]).1.secret@,
                ) && crate::secrets::map_of_pairs(out@).index(config.services@[k].1.secret@)
                    == trim_spec(
                    crate::secrets::map_of_pairs(files@).index(config.services@[k].1.secret@),
                ),
            forall|k: Seq<char>|
                crate::secrets::map_of_pairs(out@).contains_key(k) ==> exists|j: int|
                    0 <= j < i && (#[trigger] config.services@[j]).1.secret@ == k,
        decreases n - i,
    {
        let secret_name = &config.services[i].1.secret;
        match crate::secrets::lookup_secret(&out, secret_name.as_str()) {
            Some(_) => {},
            None => {
                match crate::secrets::lookup_secret(files, secret_name.as_str()) {
                    Some(raw) => {
                        let trimmed = trim(raw.as_str()).to_owned();
                        let pair = (secret_name.clone(), trimmed);
                        let ghost p = pair;
                        let ghost out0 = out@;
                        out.push(pair);
                        proof {
                            crate::secrets::lemma_map_of_pairs_push(out0, p);
                        }
                    },
                    None => {
                        return Err(ConfigError::SecretNotFound(secret_name.clone()));
                    },
                }
            },
        }
        i = i + 1;
    }
    Ok(out)
}

/// A display form of a secret that shows at most its first and last
/// four characters.
pub fn mask_secret(secret: &str) -> (r: String)
    ensures
        secret@.len() <= 8 ==> r@ == "****"@,
        secret@.len() > 8 ==> r@ == secret@.subrange(0, 4) + "..."@ + secret@.subrange(
            secret@.len() - 4,
            secret@.len() as int,
        ),
{
    let slen = secret.unicode_len();
    if slen <= 8 {
        "****".to_owned()
    } else {
        let mut r = secret.substring_char(0, 4).to_owned();
        r.append("...");
        r.append(secret.substring_char(slen - 4, slen));
        r
    }
}

} // verus!
