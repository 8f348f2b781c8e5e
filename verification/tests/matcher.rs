use pledge::config::CacheConfig;
use pledge::config::Config;
use pledge::config::DatabaseConfig;
use pledge::config::ServerConfig;
use pledge::matcher::QueryMatcher;
use pledge::template::expiry_at;
use pledge::template::QueryTemplate;
use pledge::template::MILLIS_PER_SECOND;

fn template(name: &str, sql: &str, ttl: Option<u64>) -> QueryTemplate {
    QueryTemplate { name: name.to_string(), sql: sql.to_string(), ttl }
}

fn config(queries: Vec<QueryTemplate>) -> Config {
    Config {
        database: DatabaseConfig { url: "postgres://localhost/db".to_string() },
        queries,
        cache: CacheConfig { global_ttl: 60, max_size_mib: None },
        server: ServerConfig {
            port: 8080,
            https_port: None,
            tls_cert_path: None,
            tls_key_path: None,
        },
    }
}

#[test]
fn finds_a_template_by_its_exact_text() {
    let matcher = QueryMatcher::new(&config(vec![
        template("one", "SELECT 1", Some(5)),
        template("users", "SELECT * FROM users WHERE id = $1", None),
    ]));
    assert_eq!(matcher.find_template("SELECT 1"), Some(&template("one", "SELECT 1", Some(5))));
    assert_eq!(
        matcher.find_template("SELECT * FROM users WHERE id = $1"),
        Some(&template("users", "SELECT * FROM users WHERE id = $1", None))
    );
}

#[test]
fn text_that_differs_in_case_or_space_is_not_found() {
    let matcher = QueryMatcher::new(&config(vec![template("one", "SELECT 1", Some(5))]));
    for sql in ["select 1", "SELECT  1", " SELECT 1", "SELECT 1 ", "SELECT 1;", "", "SELECT 2"] {
        assert_eq!(matcher.find_template(sql), None);
    }
}

#[test]
fn empty_table_finds_nothing() {
    let matcher = QueryMatcher::new(&config(Vec::new()));
    assert_eq!(matcher.find_template("SELECT 1"), None);
    assert_eq!(matcher.find_template(""), None);
}

#[test]
fn later_template_with_the_same_text_stands() {
    let matcher = QueryMatcher::new(&config(vec![
        template("first", "SELECT 1", Some(5)),
        template("other", "SELECT 2", None),
        template("second", "SELECT 1", Some(9)),
    ]));
    assert_eq!(
        matcher.find_template("SELECT 1"),
        Some(&template("second", "SELECT 1", Some(9)))
    );
    assert_eq!(matcher.find_template("SELECT 2"), Some(&template("other", "SELECT 2", None)));
}

#[test]
fn table_does_not_follow_the_configuration_afterwards() {
    let mut source = config(vec![template("one", "SELECT 1", Some(5))]);
    let matcher = QueryMatcher::new(&source);
    source.queries.clear();
    source.queries.push(template("two", "SELECT 2", None));
    assert_eq!(matcher.find_template("SELECT 1"), Some(&template("one", "SELECT 1", Some(5))));
    assert_eq!(matcher.find_template("SELECT 2"), None);
}

#[test]
fn template_resolves_its_time_to_live() {
    assert_eq!(template("a", "q", Some(5)).resolve_ttl(60), 5);
    assert_eq!(template("a", "q", Some(0)).resolve_ttl(60), 0);
    assert_eq!(template("a", "q", None).resolve_ttl(60), 60);
    assert_eq!(template("a", "q", Some(600)).resolve_ttl(60), 600);
}

#[test]
fn template_clone_is_equal() {
    let first = template("a", "q", Some(5));
    assert_eq!(first.clone(), first);
}

#[test]
fn expiry_is_the_time_to_live_after_now() {
    assert_eq!(MILLIS_PER_SECOND, 1000);
    assert_eq!(expiry_at(0, 1), 1000);
    assert_eq!(expiry_at(1_000, 5), 6_000);
    assert_eq!(expiry_at(123, 0), 123);
    assert_eq!(expiry_at(u64::MAX - 1000, 1), u64::MAX);
    assert_eq!(expiry_at(u64::MAX - 999, 1), u64::MAX);
    assert_eq!(expiry_at(u64::MAX - 1001, 1), u64::MAX - 1);
    assert_eq!(expiry_at(0, u64::MAX), u64::MAX);
    assert_eq!(expiry_at(5, u64::MAX / 1000), u64::MAX / 1000 * 1000 + 5);
    assert_eq!(expiry_at(5, u64::MAX / 1000 + 1), u64::MAX);
}
