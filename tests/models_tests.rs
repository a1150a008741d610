use chrono::{DateTime, TimeZone, Utc};
use portfolio::models::{LogEntry, LogLevel, Metric, Trace};

fn pairs(items: &[(&str, &str)]) -> Vec<(String, String)> {
    items.iter().map(|(k, v)| (k.to_string(), v.to_string())).collect()
}

#[test]
fn test_log_level_ordering() {
    assert!(LogLevel::Error > LogLevel::Warning);
    assert!(LogLevel::Warning > LogLevel::Info);
    assert!(LogLevel::Info > LogLevel::Debug);
}

#[test]
fn test_log_level_from_str() {
    assert_eq!(LogLevel::from_str("DEBUG"), Some(LogLevel::Debug));
    assert_eq!(LogLevel::from_str("debug"), Some(LogLevel::Debug));
    assert_eq!(LogLevel::from_str("INFO"), Some(LogLevel::Info));
    assert_eq!(LogLevel::from_str("WARNING"), Some(LogLevel::Warning));
    assert_eq!(LogLevel::from_str("WARN"), Some(LogLevel::Warning));
    assert_eq!(LogLevel::from_str("ERROR"), Some(LogLevel::Error));
    assert_eq!(LogLevel::from_str("ERR"), Some(LogLevel::Error));
    assert_eq!(LogLevel::from_str("UNKNOWN"), None);
}

#[test]
fn test_log_level_display() {
    assert_eq!(LogLevel::Debug.as_str(), "DEBUG");
    assert_eq!(LogLevel::Info.as_str(), "INFO");
    assert_eq!(LogLevel::Warning.as_str(), "WARNING");
    assert_eq!(LogLevel::Error.as_str(), "ERROR");
}

#[test]
fn test_new_log_entry() {
    let log = LogEntry::new("Server started", LogLevel::Info, "app");

    assert_eq!(log.message, "Server started");
    assert_eq!(log.level, LogLevel::Info);
    assert_eq!(log.source, "app");
    assert!(log.metadata.is_empty());
}

#[test]
fn log_test_with_timestamp() {
    let timestamp = Utc.with_ymd_and_hms(2025, 3, 8, 12, 0, 0).unwrap().to_rfc3339();
    let log = LogEntry::with_timestamp("Database connection failed", LogLevel::Error, "db_connector", &timestamp);

    assert_eq!(log.message, "Database connection failed");
    assert_eq!(log.level, LogLevel::Error);
    assert_eq!(log.timestamp, timestamp);
}

#[test]
fn log_test_with_metadata() {
    let log = LogEntry::new("Request processed", LogLevel::Info, "api").with_metadata("duration_ms", "120");

    assert_eq!(log.get_metadata("duration_ms"), Some(&"120".to_string()));
    assert!(log.has_metadata("duration_ms"));
    assert!(!log.has_metadata("status"));
}

#[test]
fn log_test_with_metadata_map() {
    let metadata = pairs(&[("status", "200"), ("bytes_sent", "1024")]);

    let log = LogEntry::new("Response sent", LogLevel::Debug, "http_server").with_metadata_map(metadata);

    assert_eq!(log.get_metadata("status"), Some(&"200".to_string()));
    assert_eq!(log.get_metadata("bytes_sent"), Some(&"1024".to_string()));
    assert_eq!(log.metadata.len(), 2);
}

#[test]
fn test_is_level_at_least() {
    let debug_log = LogEntry::new("Debug message", LogLevel::Debug, "test");
    let info_log = LogEntry::new("Info message", LogLevel::Info, "test");
    let warning_log = LogEntry::new("Warning message", LogLevel::Warning, "test");
    let error_log = LogEntry::new("Error message", LogLevel::Error, "test");

    assert!(debug_log.is_level_at_least(LogLevel::Debug));
    assert!(!debug_log.is_level_at_least(LogLevel::Info));

    assert!(info_log.is_level_at_least(LogLevel::Debug));
    assert!(info_log.is_level_at_least(LogLevel::Info));
    assert!(!info_log.is_level_at_least(LogLevel::Warning));

    assert!(warning_log.is_level_at_least(LogLevel::Debug));
    assert!(warning_log.is_level_at_least(LogLevel::Info));
    assert!(warning_log.is_level_at_least(LogLevel::Warning));
    assert!(!warning_log.is_level_at_least(LogLevel::Error));

    assert!(error_log.is_level_at_least(LogLevel::Debug));
    assert!(error_log.is_level_at_least(LogLevel::Info));
    assert!(error_log.is_level_at_least(LogLevel::Warning));
    assert!(error_log.is_level_at_least(LogLevel::Error));
}

#[test]
fn test_new_metric() {
    let metric = Metric::new("cpu_usage", "85.5");
    assert_eq!(metric.name, "cpu_usage");
    assert_eq!(metric.value, "85.5");
    assert!(metric.labels.is_empty());
}

#[test]
fn metric_test_with_timestamp() {
    let timestamp = Utc.with_ymd_and_hms(2025, 3, 8, 12, 0, 0).unwrap().to_rfc3339();
    let metric = Metric::with_timestamp("memory_usage", "42.8", &timestamp);
    assert_eq!(metric.name, "memory_usage");
    assert_eq!(metric.value, "42.8");
    assert_eq!(metric.timestamp, timestamp);
}

#[test]
fn test_with_label() {
    let metric = Metric::new("disk_space", "75.2").with_label("unit", "percent");

    assert_eq!(metric.get_label("unit"), Some(&"percent".to_string()));
    assert_eq!(metric.labels.len(), 1);
}

#[test]
fn test_with_labels() {
    let labels = pairs(&[("region", "us-west-1"), ("instance", "i-1234abcd")]);

    let metric = Metric::new("latency", "123.4").with_labels(labels);

    assert_eq!(metric.get_label("region"), Some(&"us-west-1".to_string()));
    assert_eq!(metric.get_label("instance"), Some(&"i-1234abcd".to_string()));
    assert_eq!(metric.labels.len(), 2);
}

#[test]
fn test_has_label_value() {
    let metric = Metric::new("response_time", "230.5").with_label("status", "200").with_label("method", "GET");

    assert!(metric.has_label_value("status", "200"));
    assert!(metric.has_label_value("method", "GET"));
    assert!(!metric.has_label_value("status", "404"));
}

#[test]
fn test_new_trace() {
    let trace = Trace::new("request_handler", 150);

    assert_eq!(trace.name, "request_handler");
    assert_eq!(trace.duration_ms, 150);
    let start = DateTime::parse_from_rfc3339(&trace.start_time).unwrap();
    let end = DateTime::parse_from_rfc3339(&trace.end_time).unwrap();
    assert!((end - start).num_milliseconds() == 150);
    assert!(trace.is_root());
    assert!(trace.metadata.is_empty());
}

#[test]
fn test_with_parent() {
    let parent_id = uuid::Uuid::new_v4().to_string();
    let trace = Trace::new("child_operation", 50).with_parent(&parent_id);

    assert_eq!(trace.parent_id, Some(parent_id));
    assert!(!trace.is_root());
}

#[test]
fn trace_test_with_metadata() {
    let trace = Trace::new("api_call", 200).with_metadata("method", "GET");

    assert_eq!(trace.get_metadata("method"), Some(&"GET".to_string()));
    assert!(!trace.has_metadata("endpoint"));
    assert!(!trace.has_metadata("status"));
}

#[test]
fn trace_test_with_metadata_map() {
    let metadata = pairs(&[("status", "200"), ("bytes_sent", "1024")]);

    let trace = Trace::new("response", 75).with_metadata_map(metadata);

    assert_eq!(trace.get_metadata("status"), Some(&"200".to_string()));
    assert_eq!(trace.get_metadata("bytes_sent"), Some(&"1024".to_string()));
    assert_eq!(trace.metadata.len(), 2);
}

#[test]
fn test_format() {
    let timestamp = Utc.with_ymd_and_hms(2025, 3, 8, 12, 0, 0).unwrap().to_rfc3339();
    let log = LogEntry::with_timestamp("Processing request", LogLevel::Info, "request_handler", &timestamp);

    let formatted = log.format();
    assert!(formatted.contains("[2025-03-08 12:00:00"));
    assert!(formatted.contains("[INFO]"));
    assert!(formatted.contains("[request_handler]"));
    assert!(formatted.contains("Processing request"));
    assert_eq!(formatted, "[2025-03-08 12:00:00.000] [INFO] [request_handler]: Processing request");
}
