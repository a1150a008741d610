use portfolio::config::Config;

#[test]
fn test_default_config() {
    let config = Config::default();
    assert_eq!(config.interval_seconds, 30);
    assert!(config.workers >= 1);
}
