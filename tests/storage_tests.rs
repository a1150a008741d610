use chrono::{DateTime, Duration, Utc};
use portfolio::models::{LogEntry, LogLevel, Metric, Trace};
use portfolio::storage::{LogStorage, MetricStorage, TraceStorage};

fn instant(t: DateTime<Utc>) -> (i64, u32) {
    (t.timestamp(), t.timestamp_subsec_nanos())
}

#[test]
fn test_metric_storage_add_and_get() {
    let mut storage = MetricStorage::new();
    let metric = Metric::new("cpu_usage", "75.5").with_label("host", "server-1");

    assert!(storage.add(metric.clone()).is_ok());

    let all_metrics = storage.get_all().unwrap();
    assert_eq!(all_metrics.len(), 1);
    assert_eq!(all_metrics[0], metric);
}

#[test]
fn test_metric_storage_get_by_name() {
    let mut storage = MetricStorage::new();

    storage.add(Metric::new("cpu_usage", "75.5")).unwrap();
    storage.add(Metric::new("memory_usage", "42.8")).unwrap();
    storage.add(Metric::new("cpu_usage", "80.2")).unwrap();

    let cpu_metrics = storage.get_by_name("cpu_usage").unwrap();
    assert_eq!(cpu_metrics.len(), 2);
    assert!(cpu_metrics.iter().all(|m| m.name == "cpu_usage"));

    let memory_metrics = storage.get_by_name("memory_usage").unwrap();
    assert_eq!(memory_metrics.len(), 1);
    assert_eq!(memory_metrics[0].name, "memory_usage");
}

#[test]
fn test_metric_storage_get_by_label() {
    let mut storage = MetricStorage::new();

    storage.add(Metric::new("cpu_usage", "75.5").with_label("host", "server-1")).unwrap();
    storage.add(Metric::new("memory_usage", "42.8").with_label("host", "server-2")).unwrap();
    storage.add(Metric::new("cpu_usage", "80.2").with_label("host", "server-1")).unwrap();

    let server1_metrics = storage.get_by_label("host", "server-1").unwrap();
    assert_eq!(server1_metrics.len(), 2);
    assert!(server1_metrics.iter().all(|m| m.has_label_value("host", "server-1")));

    let server2_metrics = storage.get_by_label("host", "server-2").unwrap();
    assert_eq!(server2_metrics.len(), 1);
    assert!(server2_metrics[0].has_label_value("host", "server-2"));
}

#[test]
fn test_trace_storage_add_and_get() {
    let mut storage = TraceStorage::new();
    let trace = Trace::new("request_handler", 150);

    assert!(storage.add(trace.clone()).is_ok());

    let all_traces = storage.get_all().unwrap();
    assert_eq!(all_traces.len(), 1);
    assert_eq!(all_traces[0], trace);
}

#[test]
fn test_trace_storage_get_by_id() {
    let mut storage = TraceStorage::new();
    let trace = Trace::new("request_handler", 150);
    let span_id = trace.span_id.clone();

    storage.add(trace.clone()).unwrap();
    storage.add(Trace::new("db_query", 50)).unwrap();

    let found_trace = storage.get_by_id(&span_id).unwrap();
    assert!(found_trace.is_some());
    assert_eq!(found_trace.unwrap(), trace);

    let not_found = storage.get_by_id("nonexistent-id").unwrap();
    assert!(not_found.is_none());
}

#[test]
fn test_trace_storage_get_children() {
    let mut storage = TraceStorage::new();

    let parent = Trace::new("parent_op", 1000);
    let parent_id = parent.span_id.clone();

    let child1 = Trace::new("child1", 250).with_parent(&parent_id);
    let child2 = Trace::new("child2", 500).with_parent(&parent_id);
    let other = Trace::new("other_op", 750);

    storage.add(parent).unwrap();
    storage.add(child1.clone()).unwrap();
    storage.add(child2.clone()).unwrap();
    storage.add(other).unwrap();

    let children = storage.get_children(&parent_id).unwrap();
    assert_eq!(children.len(), 2);
    assert!(children.contains(&child1));
    assert!(children.contains(&child2));
}

#[test]
fn test_log_storage_add_and_get() {
    let mut storage = LogStorage::new();
    let log = LogEntry::new("Server started", LogLevel::Info, "app");

    assert!(storage.add(log.clone()).is_ok());

    let all_logs = storage.get_all().unwrap();
    assert_eq!(all_logs.len(), 1);
    assert_eq!(all_logs[0], log);
}

#[test]
fn test_log_storage_get_by_level() {
    let mut storage = LogStorage::new();

    storage.add(LogEntry::new("Debug message", LogLevel::Debug, "app")).unwrap();
    storage.add(LogEntry::new("Info message", LogLevel::Info, "app")).unwrap();
    storage.add(LogEntry::new("Warning message", LogLevel::Warning, "app")).unwrap();
    storage.add(LogEntry::new("Error message", LogLevel::Error, "app")).unwrap();

    let warning_and_above = storage.get_by_level(LogLevel::Warning).unwrap();
    assert_eq!(warning_and_above.len(), 2);
    assert!(warning_and_above.iter().all(|l| l.level >= LogLevel::Warning));

    let all_logs = storage.get_by_level(LogLevel::Debug).unwrap();
    assert_eq!(all_logs.len(), 4);
}

#[test]
fn test_log_storage_get_by_source() {
    let mut storage = LogStorage::new();

    storage.add(LogEntry::new("App started", LogLevel::Info, "app")).unwrap();
    storage.add(LogEntry::new("DB connected", LogLevel::Info, "database")).unwrap();
    storage.add(LogEntry::new("User logged in", LogLevel::Info, "auth")).unwrap();
    storage.add(LogEntry::new("Request received", LogLevel::Info, "app")).unwrap();

    let app_logs = storage.get_by_source("app").unwrap();
    assert_eq!(app_logs.len(), 2);
    assert!(app_logs.iter().all(|l| l.source == "app"));
}

#[test]
fn test_log_storage_get_by_message_contains() {
    let mut storage = LogStorage::new();

    storage.add(LogEntry::new("User login: successful", LogLevel::Info, "auth")).unwrap();
    storage.add(LogEntry::new("User logout: successful", LogLevel::Info, "auth")).unwrap();
    storage.add(LogEntry::new("User login: failed", LogLevel::Warning, "auth")).unwrap();

    let login_logs = storage.get_by_message_contains("login").unwrap();
    assert_eq!(login_logs.len(), 2);
    assert!(login_logs.iter().all(|l| l.message.contains("login")));
}

#[test]
fn test_storage_clear() {
    let mut metric_storage = MetricStorage::new();
    let mut trace_storage = TraceStorage::new();
    let mut log_storage = LogStorage::new();

    metric_storage.add(Metric::new("cpu", "75.0")).unwrap();
    trace_storage.add(Trace::new("request", 100)).unwrap();
    log_storage.add(LogEntry::new("Test", LogLevel::Info, "test")).unwrap();

    assert_eq!(metric_storage.count().unwrap(), 1);
    assert_eq!(trace_storage.count().unwrap(), 1);
    assert_eq!(log_storage.count().unwrap(), 1);

    metric_storage.clear().unwrap();
    trace_storage.clear().unwrap();
    log_storage.clear().unwrap();

    assert_eq!(metric_storage.count().unwrap(), 0);
    assert_eq!(trace_storage.count().unwrap(), 0);
    assert_eq!(log_storage.count().unwrap(), 0);
}

#[test]
fn test_storage_time_range() {
    let now = Utc::now();
    let one_hour_ago = now - Duration::hours(1);
    let two_hours_ago = now - Duration::hours(2);

    let mut metric_storage = MetricStorage::new();
    let mut trace_storage = TraceStorage::new();
    let mut log_storage = LogStorage::new();

    metric_storage.add(Metric::with_timestamp("recent", "100", &now.to_rfc3339())).unwrap();
    metric_storage.add(Metric::with_timestamp("old", "50", &two_hours_ago.to_rfc3339())).unwrap();

    trace_storage
        .add(Trace::with_times("recent", &(now - Duration::minutes(5)).to_rfc3339(), &now.to_rfc3339()))
        .unwrap();
    trace_storage
        .add(Trace::with_times(
            "old",
            &two_hours_ago.to_rfc3339(),
            &(two_hours_ago + Duration::minutes(5)).to_rfc3339(),
        ))
        .unwrap();

    log_storage.add(LogEntry::with_timestamp("Recent log", LogLevel::Info, "test", &now.to_rfc3339())).unwrap();
    log_storage
        .add(LogEntry::with_timestamp("Old log", LogLevel::Info, "test", &two_hours_ago.to_rfc3339()))
        .unwrap();

    let recent_metrics = metric_storage.get_by_time_range(instant(one_hour_ago), instant(now)).unwrap();
    assert_eq!(recent_metrics.len(), 1);
    assert_eq!(recent_metrics[0].name, "recent");

    let recent_traces = trace_storage.get_by_time_range(instant(one_hour_ago), instant(now)).unwrap();
    assert_eq!(recent_traces.len(), 1);
    assert_eq!(recent_traces[0].name, "recent");

    let recent_logs = log_storage.get_by_time_range(instant(one_hour_ago), instant(now)).unwrap();
    assert_eq!(recent_logs.len(), 1);
    assert_eq!(recent_logs[0].message, "Recent log");
}

#[test]
fn test_with_times() {
    let start = "2025-03-08T12:00:00+00:00";
    let end = "2025-03-08T12:00:01+00:00";

    let trace = Trace::with_times("db_query", start, end);

    assert_eq!(trace.name, "db_query");
    assert_eq!(trace.start_time, start);
    assert_eq!(trace.end_time, end);
    assert_eq!(trace.duration_ms, 1000);
}

#[test]
fn trace_duration_is_zero_when_end_precedes_start() {
    let trace = Trace::with_times("x", "2025-03-08T12:00:01Z", "2025-03-08T12:00:00Z");
    assert_eq!(trace.duration_ms, 0);
    let unreadable = Trace::with_times("x", "yesterday", "2025-03-08T12:00:00Z");
    assert_eq!(unreadable.duration_ms, 0);
}
