//! Settings of the server, with their defaults.
use vstd::prelude::*;

use crate::expression::Profile;
use crate::server::{clamp_level, clamp_validation_level};

verus! {

/// Settings of the server.
#[derive(Debug, Clone)]
pub struct Config {
    /// Address to bind; loopback by default.
    pub host: String,
    /// Port of the MCP server.
    pub port: u16,
    /// Installation directory of the platform, with `shcntx_ru.hbk` in it or
    /// in its `bin`; no default, it has to be named.
    pub platform_path: Option<String>,
    /// Directory of the logs.
    pub log_dir: String,
    /// Log filter (`info`, `debug` or a full filter expression).
    pub log_level: String,
    /// Level of expression validation when a request names none, 1 or 2.
    pub default_validation_level: u8,
    /// Profile of expression validation when a request names none.
    pub default_profile: Profile,
    /// Accepted values of the `Host` header of incoming requests.
    pub allowed_hosts: Vec<String>,
}

impl Default for Config {
    fn default() -> (r: Self)
        ensures
            r.host@ == "127.0.0.1"@,
            r.port == 8007,
            r.platform_path is None,
            r.log_dir@ == "C:\\bsl-context-rs\\logs"@,
            r.log_level@ == "info"@,
            r.default_validation_level == 1,
            r.default_profile == Profile::Full,
            r.allowed_hosts@.len() == 3,
            r.allowed_hosts@[0]@ == "localhost"@,
            r.allowed_hosts@[1]@ == "127.0.0.1"@,
            r.allowed_hosts@[2]@ == "::1"@,
    {
        let mut hosts: Vec<String> = Vec::new();
        hosts.push(String::from_str("localhost"));
        hosts.push(String::from_str("127.0.0.1"));
        hosts.push(String::from_str("::1"));
        Config {
            host: String::from_str("127.0.0.1"),
            port: 8007,
            platform_path: None,
            log_dir: String::from_str("C:\\bsl-context-rs\\logs"),
            log_level: String::from_str("info"),
            default_validation_level: 1,
            default_profile: Profile::Full,
            allowed_hosts: hosts,
        }
    }
}

impl Config {
    /// Clamps the default validation level into 1..=2, so that a mistyped
    /// level in a settings file neither stops the server nor hides errors.
    pub fn clamp_validation_level(&mut self)
        ensures
            final(self).default_validation_level == clamp_level(old(self).default_validation_level as int),
            final(self).host == old(self).host,
            final(self).port == old(self).port,
            final(self).platform_path == old(self).platform_path,
            final(self).log_dir == old(self).log_dir,
            final(self).log_level == old(self).log_level,
            final(self).default_profile == old(self).default_profile,
            final(self).allowed_hosts == old(self).allowed_hosts,
    {
        self.default_validation_level = clamp_validation_level(self.default_validation_level);
    }
}

} // verus!
