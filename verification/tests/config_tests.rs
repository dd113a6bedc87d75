use flexi_logger_datadog::config::DataDogConfigBuilder;

#[test]
fn builder_defaults() {
    let builder = DataDogConfigBuilder::new(
        "host".to_string(),
        "test".to_string(),
        "dummy_key".to_string(),
    );
    let config = builder.build();
    assert_eq!(config.hostname, "host");
    assert_eq!(config.service, "test");
    assert_eq!(config.api_key, "dummy_key");
    assert_eq!(
        config.api_host,
        "https://http-intake.logs.datadoghq.com/api/v2/logs"
    );
    assert_eq!(config.source, "rust");
    assert!(config.tags.is_empty());
    assert_eq!(config.max_log_lines, 1000);
    assert_eq!(config.max_line_size, 1000000);
    assert_eq!(config.max_payload_size, 5000000);
    assert!(config.gzip);
}

#[test]
fn builder_overrides() {
    let mut builder = DataDogConfigBuilder::new(
        "host".to_string(),
        "test".to_string(),
        "dummy_key".to_string(),
    );
    builder
        .with_api_host(Some("http://localhost:8080".to_string()))
        .with_tags(vec![("test_key".to_string(), "test_value".to_string())])
        .with_source("ferris".to_string())
        .with_max_log_lines(Some(7))
        .with_max_line_size(Some(1024))
        .with_max_payload_size(Some(5000))
        .with_gzip(Some(false));
    let config = builder.build();
    assert_eq!(config.api_host, "http://localhost:8080");
    assert_eq!(
        config.tags,
        vec![("test_key".to_string(), "test_value".to_string())]
    );
    assert_eq!(config.source, "ferris");
    assert_eq!(config.max_log_lines, 7);
    assert_eq!(config.max_line_size, 1024);
    assert_eq!(config.max_payload_size, 5000);
    assert!(!config.gzip);
}

#[test]
fn builder_none_restores_defaults() {
    let mut builder = DataDogConfigBuilder::new(
        "host".to_string(),
        "test".to_string(),
        "dummy_key".to_string(),
    );
    builder.with_api_host(Some("http://localhost:8080".to_string()));
    builder.with_gzip(Some(false));
    builder.with_api_host(None);
    builder.with_gzip(None);
    let config = builder.build();
    assert_eq!(
        config.api_host,
        "https://http-intake.logs.datadoghq.com/api/v2/logs"
    );
    assert!(config.gzip);
}
