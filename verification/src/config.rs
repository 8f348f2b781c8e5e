//! The configuration that the cache is built from.

use crate::template::QueryTemplate;
use crate::template::TemplateView;
use crate::template::template_views;
use vstd::prelude::*;

verus! {

/// Mebibytes that the cache may hold where the configuration names no size.
pub const DEFAULT_MAX_SIZE_MIB: u64 = 100;

/// Bytes in one mebibyte.
pub const BYTES_PER_MIB: u64 = 1_048_576;

#[derive(Debug)]
pub struct Config {
    pub database: DatabaseConfig,
    pub queries: Vec<QueryTemplate>,
    pub cache: CacheConfig,
    pub server: ServerConfig,
}

#[derive(Debug)]
pub struct DatabaseConfig {
    pub url: String,
}

#[derive(Debug)]
pub struct CacheConfig {
    /// Seconds for which a result is kept where its template names no
    /// time-to-live of its own.
    pub global_ttl: u64,
    /// Size of the cache in mebibytes.
    pub max_size_mib: Option<u64>,
}

#[derive(Debug)]
pub struct ServerConfig {
    pub port: u16,
    pub https_port: Option<u16>,
    pub tls_cert_path: Option<String>,
    pub tls_key_path: Option<String>,
}

/// Where and with which files the HTTPS listener is started.
#[derive(Debug, PartialEq, Eq)]
pub struct HttpsEndpoint {
    pub port: u16,
    pub cert_path: String,
    pub key_path: String,
}

/// The byte budget for a configured size, as a mathematical integer.
pub open spec fn budget_of(max_size_mib: Option<u64>) -> int {
    match max_size_mib {
        Some(mib) => mib * BYTES_PER_MIB,
        None => DEFAULT_MAX_SIZE_MIB * BYTES_PER_MIB,
    }
}

/// The byte budget for a configured size, or the largest there is where
/// that is less.
pub open spec fn capacity_of(max_size_mib: Option<u64>) -> u64 {
    if budget_of(max_size_mib) <= u64::MAX {
        budget_of(max_size_mib) as u64
    } else {
        u64::MAX
    }
}

/// The largest time-to-live among `global_ttl` and the templates' own.
pub open spec fn ttl_ceiling_of(templates: Seq<TemplateView>, global_ttl: u64) -> u64
    decreases templates.len(),
{
    if templates.len() == 0 {
        global_ttl
    } else {
        let rest = ttl_ceiling_of(templates.drop_last(), global_ttl);
        match templates.last().ttl {
            Some(ttl) => if ttl > rest {
                ttl
            } else {
                rest
            },
            None => rest,
        }
    }
}

/// The ceiling is the cache-wide time-to-live or a template's own, and none
/// of them exceeds it.
pub proof fn lemma_ttl_ceiling_is_maximum(templates: Seq<TemplateView>, global_ttl: u64)
    ensures
        ttl_ceiling_of(templates, global_ttl) >= global_ttl,
        forall|i: int|
            0 <= i < templates.len() ==> match (#[trigger] templates[i]).ttl {
                Some(ttl) => ttl <= ttl_ceiling_of(templates, global_ttl),
                None => true,
            },
        ttl_ceiling_of(templates, global_ttl) == global_ttl || exists|i: int|
            0 <= i < templates.len() && (#[trigger] templates[i]).ttl == Some(
                ttl_ceiling_of(templates, global_ttl),
            ),
    decreases templates.len(),
{
    if templates.len() > 0 {
        let front = templates.drop_last();
        lemma_ttl_ceiling_is_maximum(front, global_ttl);
        let all = ttl_ceiling_of(templates, global_ttl);
        assert forall|i: int| 0 <= i < templates.len() implies match (#[trigger] templates[i]).ttl {
            Some(ttl) => ttl <= all,
            None => true,
        } by {
            if i < front.len() {
                assert(front[i] == templates[i]);
            }
        }
    }
}

impl CacheConfig {
    /// The number of payload bytes that the cache may hold: the configured
    /// size, or 100 MiB where none is configured; at most `u64::MAX`.
    pub fn capacity_bytes(&self) -> (bytes: u64)
        ensures
            bytes == capacity_of(self.max_size_mib),
    {
        let mib = match self.max_size_mib {
            Some(mib) => mib,
            None => DEFAULT_MAX_SIZE_MIB,
        };
        match mib.checked_mul(BYTES_PER_MIB) {
            Some(bytes) => bytes,
            None => u64::MAX,
        }
    }
}

impl Config {
    /// The longest time, in seconds, for which any entry of the cache can be
    /// servable: the largest time-to-live among the cache-wide one and the
    /// templates' own.
    pub fn ttl_ceiling(&self) -> (ceiling: u64)
        ensures
            ceiling == ttl_ceiling_of(template_views(self.queries@), self.cache.global_ttl),
    {
        let ghost all = template_views(self.queries@);
        let mut ceiling = self.cache.global_ttl;
        let mut i: usize = 0;
        while i < self.queries.len()
            invariant
                i <= self.queries.len(),
                all == template_views(self.queries@),
                ceiling == ttl_ceiling_of(all.take(i as int), self.cache.global_ttl),
            decreases self.queries.len() - i,
        {
            proof {
                assert(all.take(i + 1).drop_last() =~= all.take(i as int));
            }
            match self.queries[i].ttl {
                Some(ttl) => {
                    if ttl > ceiling {
                        ceiling = ttl;
                    }
                },
                None => {},
            }
            i += 1;
        }
        proof {
            assert(all.take(i as int) =~= all);
        }
        ceiling
    }
}

impl ServerConfig {
    /// Whether the HTTPS listener is started: a port, a certificate and a key
    /// are configured, and the port is not the HTTP port.
    pub open spec fn https_enabled(&self) -> bool {
        &&& self.https_port is Some
        &&& self.tls_cert_path is Some
        &&& self.tls_key_path is Some
        &&& self.https_port->0 != self.port
    }

    /// The HTTPS listener to start, if any.
    pub fn https_endpoint(&self) -> (endpoint: Option<HttpsEndpoint>)
        ensures
            endpoint is Some <==> self.https_enabled(),
            endpoint matches Some(e) ==> ({
                &&& e.port == self.https_port->0
                &&& e.cert_path@ == self.tls_cert_path->0@
                &&& e.key_path@ == self.tls_key_path->0@
            }),
    {
        match (self.https_port, &self.tls_cert_path, &self.tls_key_path) {
            (Some(port), Some(cert), Some(key)) => {
                if port != self.port {
                    Some(HttpsEndpoint { port, cert_path: cert.clone(), key_path: key.clone() })
                } else {
                    None
                }
            },
            _ => None,
        }
    }
}

} // verus!
