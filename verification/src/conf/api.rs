//! Configuration of the service.

use crate::text::{owned, same};
use vstd::prelude::*;

verus! {

/// What the service is configured with.
#[derive(Debug, Default, Clone, PartialEq, Eq)]
pub struct Config {
    pub general: General,
    pub server: Server,
    pub scheduler: Scheduler,
}

/// Settings of the service as a whole.
#[derive(Debug, Default, Clone, PartialEq, Eq)]
pub struct General {
    /// Development mode: readable log lines, more of them, and a bundled
    /// certificate in place of a real one.
    pub dev_mode: bool,
    pub log_level: String,
    pub encryption_key: String,
}

/// Settings of the server.
#[derive(Debug, Default, Clone, PartialEq, Eq)]
pub struct Server {
    /// The address to listen on.
    pub url: String,
    /// Where the database file lives.
    pub storage_path: String,
    /// The certificate, in PEM; `localhost` stands for the bundled one.
    pub tls_cert: String,
    /// The key of the certificate, in PEM; `localhost` stands for the bundled one.
    pub tls_key: String,
}

/// Settings of the schedulers, one entry per container runtime.
#[derive(Debug, Default, Clone, PartialEq, Eq)]
pub struct Scheduler {
    pub docker: Option<Docker>,
}

/// Settings of the Docker scheduler.
#[derive(Debug, Default, Clone, Copy, PartialEq, Eq)]
pub struct Docker {
    /// Remove what stopped containers leave behind, again and again.
    pub prune: bool,
    /// The seconds between two such sweeps.
    pub prune_interval: u64,
}

/// The value of `tls_cert` and `tls_key` that stands for the bundled
/// certificate and key.
pub open spec fn bundled_marker() -> Seq<char> {
    "localhost"@
}

impl Config {
    /// Whether the bundled certificate is to be used: the service runs in
    /// development mode and both the certificate and the key are left as
    /// `localhost`.
    pub open spec fn wants_bundled_certs(&self) -> bool {
        &&& self.general.dev_mode
        &&& self.server.tls_cert@ == bundled_marker()
        &&& self.server.tls_key@ == bundled_marker()
    }

    /// Puts the bundled certificate `cert` and its key `key` in place where
    /// the configuration asks for them, and changes nothing otherwise.
    pub fn provision_dev_mode_certs(&mut self, cert: &str, key: &str)
        ensures
            final(self).general == old(self).general,
            final(self).scheduler == old(self).scheduler,
            final(self).server.url == old(self).server.url,
            final(self).server.storage_path == old(self).server.storage_path,
            if old(self).wants_bundled_certs() {
                &&& final(self).server.tls_cert@ == cert@
                &&& final(self).server.tls_key@ == key@
            } else {
                &&& final(self).server.tls_cert == old(self).server.tls_cert
                &&& final(self).server.tls_key == old(self).server.tls_key
            },
    {
        if !self.general.dev_mode || !same(self.server.tls_cert.as_str(), "localhost") || !same(
            self.server.tls_key.as_str(),
            "localhost",
        ) {
            return ;
        }
        self.server.tls_cert = owned(cert);
        self.server.tls_key = owned(key);
    }
}

} // verus!
