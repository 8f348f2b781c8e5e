use pledge::config::CacheConfig;
use pledge::config::Config;
use pledge::config::DatabaseConfig;
use pledge::config::HttpsEndpoint;
use pledge::config::ServerConfig;
use pledge::config::BYTES_PER_MIB;
use pledge::config::DEFAULT_MAX_SIZE_MIB;
use pledge::health::health_handler;
use pledge::health::HealthResponse;
use pledge::template::QueryTemplate;

fn server(port: u16, https_port: Option<u16>, cert: Option<&str>, key: Option<&str>) -> ServerConfig {
    ServerConfig {
        port,
        https_port,
        tls_cert_path: cert.map(|s| s.to_string()),
        tls_key_path: key.map(|s| s.to_string()),
    }
}

fn config(global_ttl: u64, ttls: &[Option<u64>]) -> Config {
    Config {
        database: DatabaseConfig { url: String::new() },
        queries: ttls
            .iter()
            .enumerate()
            .map(|(i, ttl)| QueryTemplate {
                name: format!("t{}", i),
                sql: format!("SELECT {}", i),
                ttl: *ttl,
            })
            .collect(),
        cache: CacheConfig { global_ttl, max_size_mib: None },
        server: server(80, None, None, None),
    }
}

#[test]
fn capacity_is_the_configured_size_in_bytes() {
    assert_eq!(BYTES_PER_MIB, 1024 * 1024);
    assert_eq!(DEFAULT_MAX_SIZE_MIB, 100);
    let sized = |mib| CacheConfig { global_ttl: 1, max_size_mib: mib }.capacity_bytes();
    assert_eq!(sized(Some(1)), 1_048_576);
    assert_eq!(sized(Some(0)), 0);
    assert_eq!(sized(Some(256)), 268_435_456);
    assert_eq!(sized(None), 104_857_600);
    assert_eq!(sized(Some(u64::MAX / BYTES_PER_MIB)), u64::MAX / BYTES_PER_MIB * BYTES_PER_MIB);
    assert_eq!(sized(Some(u64::MAX / BYTES_PER_MIB + 1)), u64::MAX);
    assert_eq!(sized(Some(u64::MAX)), u64::MAX);
}

#[test]
fn ttl_ceiling_is_the_largest_time_to_live() {
    assert_eq!(config(60, &[]).ttl_ceiling(), 60);
    assert_eq!(config(60, &[None, None]).ttl_ceiling(), 60);
    assert_eq!(config(60, &[Some(5), None, Some(59)]).ttl_ceiling(), 60);
    assert_eq!(config(60, &[Some(5), Some(600), Some(61)]).ttl_ceiling(), 600);
    assert_eq!(config(0, &[Some(0)]).ttl_ceiling(), 0);
    assert_eq!(config(0, &[None, Some(u64::MAX)]).ttl_ceiling(), u64::MAX);
}

#[test]
fn https_needs_port_certificate_and_key() {
    assert_eq!(
        server(8080, Some(8443), Some("cert.pem"), Some("key.pem")).https_endpoint(),
        Some(HttpsEndpoint {
            port: 8443,
            cert_path: "cert.pem".to_string(),
            key_path: "key.pem".to_string(),
        })
    );
    assert_eq!(server(8080, None, Some("cert.pem"), Some("key.pem")).https_endpoint(), None);
    assert_eq!(server(8080, Some(8443), None, Some("key.pem")).https_endpoint(), None);
    assert_eq!(server(8080, Some(8443), Some("cert.pem"), None).https_endpoint(), None);
    assert_eq!(server(8080, None, None, None).https_endpoint(), None);
}

#[test]
fn https_on_the_http_port_is_not_started() {
    assert_eq!(server(8080, Some(8080), Some("cert.pem"), Some("key.pem")).https_endpoint(), None);
}

#[test]
fn health_is_ok() {
    assert_eq!(health_handler(), HealthResponse { status: "OK".to_string() });
}
