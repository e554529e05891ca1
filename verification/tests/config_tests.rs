use mike_dev_blog::config::{from_env_values, parse_u16, ConfigError};

fn s(v: &str) -> Option<String> {
    Some(v.to_string())
}

#[test]
fn missing_uri_is_the_first_error() {
    let r = from_env_values(None, None, None, None, None, None, None);
    assert_eq!(r, Err(ConfigError::MissingUri));
    assert_eq!(
        ConfigError::MissingUri.message(),
        "COSMOS_DB_URI environment variable not set"
    );
}

#[test]
fn missing_database_comes_second() {
    let r = from_env_values(s("uri"), None, s("key"), None, None, None, None);
    assert_eq!(r, Err(ConfigError::MissingDatabase));
}

#[test]
fn missing_key_comes_third() {
    let r = from_env_values(s("uri"), s("db"), None, None, None, None, None);
    assert_eq!(r, Err(ConfigError::MissingKey));
    assert_eq!(
        ConfigError::MissingKey.message(),
        "COSMOS_DB_KEY environment variable not set. This is required for development."
    );
}

#[test]
fn defaults_fill_the_optional_settings() {
    let c = from_env_values(s("uri"), s("db"), s("key"), None, None, None, None).unwrap();
    assert_eq!(c.cosmos.uri, "uri");
    assert_eq!(c.cosmos.database_name, "db");
    assert_eq!(c.cosmos.primary_key, "key");
    assert_eq!(c.server.host, "0.0.0.0");
    assert_eq!(c.server.port, 3000);
    assert_eq!(c.cosmos.containers.len(), 2);
    assert_eq!(c.cosmos.containers[0].key, "blogs");
    assert_eq!(c.cosmos.containers[0].config.name, "posts");
    assert_eq!(c.cosmos.containers[0].config.partition_key, "author");
    assert_eq!(c.cosmos.containers[0].config.throughput, Some(400));
    assert_eq!(c.cosmos.containers[1].key, "books");
    assert_eq!(c.cosmos.containers[1].config.name, "books");
    assert_eq!(c.cosmos.containers[1].config.partition_key, "category");
    assert_eq!(c.cosmos.containers[1].config.throughput, Some(400));
}

#[test]
fn explicit_settings_override_the_defaults() {
    let c = from_env_values(
        s("uri"),
        s("db"),
        s("key"),
        s("my-posts"),
        s("my-books"),
        s("127.0.0.1"),
        s("8080"),
    )
    .unwrap();
    assert_eq!(c.cosmos.containers[0].config.name, "my-posts");
    assert_eq!(c.cosmos.containers[1].config.name, "my-books");
    assert_eq!(c.server.host, "127.0.0.1");
    assert_eq!(c.server.port, 8080);
}

#[test]
fn unparseable_port_falls_back_to_3000() {
    let c = from_env_values(s("u"), s("d"), s("k"), None, None, None, s("nonsense")).unwrap();
    assert_eq!(c.server.port, 3000);
    let c = from_env_values(s("u"), s("d"), s("k"), None, None, None, s("99999")).unwrap();
    assert_eq!(c.server.port, 3000);
}

#[test]
fn parse_u16_accepts_what_std_accepts() {
    assert_eq!(parse_u16("0"), Some(0));
    assert_eq!(parse_u16("3000"), Some(3000));
    assert_eq!(parse_u16("65535"), Some(65535));
    assert_eq!(parse_u16("+123"), Some(123));
    assert_eq!(parse_u16("0003000"), Some(3000));
    assert_eq!(parse_u16("65536"), None);
    assert_eq!(parse_u16(""), None);
    assert_eq!(parse_u16("+"), None);
    assert_eq!(parse_u16("-1"), None);
    assert_eq!(parse_u16("12a"), None);
    assert_eq!(parse_u16(" 12"), None);
}

#[test]
fn container_lookup_finds_known_types_only() {
    let c = from_env_values(s("u"), s("d"), s("k"), None, None, None, None).unwrap();
    let blogs = c.get_container_config("blogs").unwrap();
    assert_eq!(blogs.name, "posts");
    let books = c.get_container_config("books").unwrap();
    assert_eq!(books.name, "books");
    assert!(c.get_container_config("users").is_none());
}
