//! Where the store is and how to talk to it.

use crate::decimal::{decimal_text, parse_number, parsed, push_decimal_text};
use crate::text::{copy_of, text_of};
use vstd::prelude::*;
use vstd::string::{StringExecFns, StringSliceAdditionalSpecFns};

verus! {

/// The settings of a connection to the store.
#[derive(Debug, PartialEq, Eq)]
pub struct Redis {
    /// The host where the store runs.
    pub host: String,
    /// The port the store listens on.
    pub port: u16,
    /// The password to present, if the store wants one.
    pub password: Option<String>,
    /// A prefix that sets this deployment's channels apart from others'.
    pub namespace: Option<String>,
    /// A user name. It is accepted and has no effect.
    pub user: Option<String>,
    /// A database to select. It is accepted and has no effect on a connection
    /// that only subscribes.
    pub db: Option<String>,
    /// How often the store is polled, in milliseconds.
    pub polling_interval_millis: u64,
}

/// The address `host:port`.
pub open spec fn address_of(host: Seq<char>, port: u16) -> Seq<char> {
    host + seq![':'] + decimal_text(port as nat)
}

impl Clone for Redis {
    fn clone(&self) -> (copy: Redis)
        ensures
            copy.host@ == self.host@,
            copy.port == self.port,
            text_of(copy.password) == text_of(self.password),
            text_of(copy.namespace) == text_of(self.namespace),
            text_of(copy.user) == text_of(self.user),
            text_of(copy.db) == text_of(self.db),
            copy.polling_interval_millis == self.polling_interval_millis,
    {
        Redis {
            host: self.host.clone(),
            port: self.port,
            password: copy_of(&self.password),
            namespace: copy_of(&self.namespace),
            user: copy_of(&self.user),
            db: copy_of(&self.db),
            polling_interval_millis: self.polling_interval_millis,
        }
    }
}

impl Default for Redis {
    /// The store on this machine, at its usual port, without password or
    /// namespace, polled every tenth of a second.
    fn default() -> (cfg: Redis)
        ensures
            cfg.host@ == "127.0.0.1"@,
            cfg.port == 6379,
            cfg.password is None,
            cfg.namespace is None,
            cfg.user is None,
            cfg.db is None,
            cfg.polling_interval_millis == 100,
    {
        Redis {
            host: "127.0.0.1".to_owned(),
            port: 6379,
            password: None,
            namespace: None,
            user: None,
            db: None,
            polling_interval_millis: 100,
        }
    }
}

impl Redis {
    /// The address to connect to, `host:port`.
    pub fn address(&self) -> (addr: String)
        ensures
            addr@ == address_of(self.host@, self.port),
    {
        let mut addr = self.host.clone();
        addr.append(":");
        proof {
            reveal_strlit(":");
            assert(":"@ =~= seq![':']);
        }
        push_decimal_text(&mut addr, self.port);
        assert(addr@ =~= address_of(self.host@, self.port));
        addr
    }

    /// Whether a setting is present that has no effect: a user name or a
    /// database. The caller may want to warn about it.
    pub fn has_ignored_settings(&self) -> (any: bool)
        ensures
            any == (self.user is Some || self.db is Some),
    {
        self.user.is_some() || self.db.is_some()
    }
}

/// Reads `text` as a port: a number between 0 and 65535.
pub fn parse_port(text: &str) -> (port: Option<u16>)
    ensures
        match port {
            Some(port) => parsed(text.spec_bytes(), 65535) == Some(port as nat),
            None => parsed(text.spec_bytes(), 65535) is None,
        },
{
    match parse_number(text, 65535) {
        Some(number) => Some(number as u16),
        None => None,
    }
}

/// Reads `text` as the time between two polls: a number of milliseconds.
pub fn parse_interval(text: &str) -> (millis: Option<u64>)
    ensures
        match millis {
            Some(millis) => parsed(text.spec_bytes(), u64::MAX as nat) == Some(millis as nat),
            None => parsed(text.spec_bytes(), u64::MAX as nat) is None,
        },
{
    parse_number(text, u64::MAX)
}

} // verus!
