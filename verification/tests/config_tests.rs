use shareables::config::{default_port, Config};

#[test]
fn default_port_is_3000() {
    assert_eq!(default_port(), 3000);
}

#[test]
fn a_missing_port_becomes_the_default() {
    let config = Config::new(
        "mysql://localhost/db".to_string(),
        "SECRET".to_string(),
        "verus".to_string(),
        60,
        None,
        None,
        None,
    );
    assert_eq!(config.port, 3000);
    assert_eq!(config.keyword, "verus");
    assert_eq!(config.interval_in_sec, 60);
    assert_eq!(config.database_url, "mysql://localhost/db");
    assert_eq!(config.twitter_api_bearer, "SECRET");
    assert_eq!(config.honeycomb_api_key, None);
    assert_eq!(config.honeycomb_dataset, None);
}

#[test]
fn a_configured_port_is_kept() {
    let config = Config::new(
        "mysql://localhost/db".to_string(),
        "SECRET".to_string(),
        "verus".to_string(),
        5,
        Some(8080),
        Some("key".to_string()),
        Some("dataset".to_string()),
    );
    assert_eq!(config.port, 8080);
    assert_eq!(config.honeycomb_api_key, Some("key".to_string()));
    assert_eq!(config.honeycomb_dataset, Some("dataset".to_string()));
    let copy = config.clone();
    assert_eq!(copy.port, 8080);
    assert_eq!(copy.keyword, "verus");
}
