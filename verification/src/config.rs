//! What a caller says of the peer to connect to.

use vstd::prelude::*;

verus! {

/// Where the peer is and how to reach it.
pub struct Config {
    pub host: String,
    pub port: u16,
    pub read_timeout: Option<core::time::Duration>,
    pub write_timeout: Option<core::time::Duration>,
    pub username: Option<String>,
    pub password: Option<String>,
    pub is_tls_enabled: bool,
    pub is_tls_insecure: bool,
    pub identity: Option<String>,
    pub identity_passwd: Option<String>,
}

impl Default for Config {
    fn default() -> (config: Config)
        ensures
            config.host@ == Seq::<char>::empty(),
            config.port == 0,
            config.read_timeout is None,
            config.write_timeout is None,
            config.username is None,
            config.password is None,
            !config.is_tls_enabled,
            !config.is_tls_insecure,
            config.identity is None,
            config.identity_passwd is None,
    {
        Config {
            host: String::new(),
            port: 0,
            read_timeout: None,
            write_timeout: None,
            username: None,
            password: None,
            is_tls_enabled: false,
            is_tls_insecure: false,
            identity: None,
            identity_passwd: None,
        }
    }
}

} // verus!
