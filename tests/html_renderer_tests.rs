use portfolio::block::{Block, TemplateData, Trend};
use portfolio::html_renderer::HtmlRenderer;
use portfolio::models::{LogEntry, LogLevel, Metric, Trace};
use portfolio::renderer::{PageRenderer, Renderer, TreeRenderer};

fn contains(haystack: &str, needle: &str) -> bool {
    haystack.contains(needle)
}

fn pairs(items: &[(&str, &str)]) -> Vec<(String, String)> {
    items.iter().map(|(k, v)| (k.to_string(), v.to_string())).collect()
}

fn trend(text: &str) -> Trend {
    Trend { text: text.to_string() }
}

#[test]
fn html_renderer_test_render_heading() {
    let renderer = HtmlRenderer::new();
    let result = renderer.render_heading(1, "Test Heading").unwrap();

    assert!(contains(&result, "<h1"));
    assert!(contains(&result, "Test Heading"));
    assert!(contains(&result, "terminal-heading"));
}

#[test]
fn html_renderer_test_render_paragraph() {
    let renderer = HtmlRenderer::new();
    let result = renderer.render_paragraph("This is a test paragraph.").unwrap();

    assert!(contains(&result, "<p"));
    assert!(contains(&result, "This is a test paragraph."));
    assert!(contains(&result, "terminal-paragraph"));
}

#[test]
fn html_renderer_test_render_command_prompt() {
    let renderer = HtmlRenderer::new();
    let result = renderer.render_command_prompt("ls -la").unwrap();

    assert!(contains(&result, "terminal-command"));
    assert!(contains(&result, "ls -la"));
}

#[test]
fn html_renderer_test_render_output() {
    let renderer = HtmlRenderer::new();
    let blocks = vec![Block::Paragraph("Output content".to_string())];

    let result = renderer.render_output(&blocks).unwrap();

    assert!(contains(&result, "terminal-output"));
    assert!(contains(&result, "Output content"));
}

#[test]
fn html_renderer_test_render_frame() {
    let renderer = HtmlRenderer::new();

    let result_with_title = renderer.render_frame(Some("Frame Title"), "Frame content").unwrap();
    assert!(contains(&result_with_title, "terminal-frame"));
    assert!(contains(&result_with_title, "terminal-frame-title"));
    assert!(contains(&result_with_title, "Frame Title"));
    assert!(contains(&result_with_title, "Frame content"));

    let result_without_title = renderer.render_frame(None, "Frame content").unwrap();
    assert!(contains(&result_without_title, "terminal-frame"));
    assert!(!contains(&result_without_title, "terminal-frame-title"));
    assert!(contains(&result_without_title, "Frame content"));
}

#[test]
fn html_renderer_test_render_metric() {
    let renderer = HtmlRenderer::new();

    let result = renderer.render_metric("CPU Usage", "85.5", None, None).unwrap();
    assert!(contains(&result, "terminal-metric"));
    assert!(contains(&result, "CPU Usage"));
    assert!(contains(&result, "85.5"));

    let result_with_unit = renderer.render_metric("Memory", "4.2", Some("GB"), None).unwrap();
    assert!(contains(&result_with_unit, "Memory"));
    assert!(contains(&result_with_unit, "4.2 GB"));

    let up = trend("0.5");
    let result_positive = renderer.render_metric("Requests", "150", None, Some(&up)).unwrap();
    assert!(contains(&result_positive, "Requests"));
    assert!(contains(&result_positive, "terminal-trend-up"));

    let down = trend("-0.3");
    let result_negative = renderer.render_metric("Errors", "10", None, Some(&down)).unwrap();
    assert!(contains(&result_negative, "Errors"));
    assert!(contains(&result_negative, "terminal-trend-down"));
}

#[test]
fn html_renderer_test_render_log_entry() {
    let renderer = HtmlRenderer::new();

    let result = renderer.render_log_entry("Application started", "INFO", None, None).unwrap();

    assert!(contains(&result, "terminal-log"));
    assert!(contains(&result, "terminal-log-info"));
    assert!(contains(&result, "Application started"));

    let result_full = renderer
        .render_log_entry("Database error", "ERROR", Some("2025-03-15T12:34:56Z"), Some("db_module"))
        .unwrap();

    assert!(contains(&result_full, "terminal-log-error"));
    assert!(contains(&result_full, "Database error"));
    assert!(contains(&result_full, "2025-03-15T12:34:56Z"));
    assert!(contains(&result_full, "db_module"));
}

#[test]
fn html_renderer_test_render_table() {
    let renderer = HtmlRenderer::new();
    let headers = vec!["Name".to_string(), "Value".to_string(), "Status".to_string()];

    let rows = vec![
        vec!["Server 1".to_string(), "85.5%".to_string(), "OK".to_string()],
        vec!["Server 2".to_string(), "92.1%".to_string(), "Warning".to_string()],
    ];

    let result = renderer.render_table(&headers, &rows).unwrap();

    assert!(contains(&result, "terminal-table"));
    assert!(contains(&result, "<thead>"));
    assert!(contains(&result, "<tbody>"));
    assert!(contains(&result, "Name"));
    assert!(contains(&result, "Value"));
    assert!(contains(&result, "Status"));
    assert!(contains(&result, "Server 1"));
    assert!(contains(&result, "85.5%"));
    assert!(contains(&result, "OK"));
    assert!(contains(&result, "Server 2"));
    assert!(contains(&result, "92.1%"));
    assert!(contains(&result, "Warning"));
}

#[test]
fn html_renderer_test_render_trace() {
    let renderer = HtmlRenderer::new();
    let metadata = pairs(&[("endpoint", "/api/users"), ("method", "GET")]);

    let result = renderer
        .render_trace("Process Request", 120, "2025-03-15T12:34:56Z", "completed", &metadata)
        .unwrap();

    assert!(contains(&result, "terminal-trace"));
    assert!(contains(&result, "Process Request"));
    assert!(contains(&result, "120 ms"));
    assert!(contains(&result, "2025-03-15T12:34:56Z"));
    assert!(contains(&result, "completed"));
    assert!(contains(&result, "endpoint"));
    assert!(contains(&result, "/api/users"));
    assert!(contains(&result, "method"));
    assert!(contains(&result, "GET"));
}

#[test]
fn html_renderer_test_render_block() {
    let renderer = HtmlRenderer::new();

    let heading_block = Block::Heading { level: 1, text: "Test Heading".to_string() };

    let heading_result = renderer.render_block(&heading_block).unwrap();
    assert!(contains(&heading_result, "Test Heading"));
    assert!(contains(&heading_result, "<h1"));

    let container_block = Block::Container(vec![
        Block::Paragraph("First paragraph".to_string()),
        Block::Paragraph("Second paragraph".to_string()),
    ]);

    let container_result = renderer.render_block(&container_block).unwrap();
    assert!(contains(&container_result, "First paragraph"));
    assert!(contains(&container_result, "Second paragraph"));
}

#[test]
fn html_renderer_test_render_blocks() {
    let renderer = HtmlRenderer::new();
    let blocks = vec![
        Block::Heading { level: 1, text: "Dashboard".to_string() },
        Block::Paragraph("System Status".to_string()),
        Block::CommandPrompt("system info".to_string()),
    ];

    let result = renderer.render_blocks(&blocks).unwrap();

    assert!(contains(&result, "Dashboard"));
    assert!(contains(&result, "System Status"));
    assert!(contains(&result, "system info"));
}

#[test]
fn html_renderer_test_render_template() {
    let renderer = HtmlRenderer::new();

    let template_data = TemplateData {
        blocks: vec![
            Block::Heading { level: 1, text: "Dashboard".to_string() },
            Block::Paragraph("System Status".to_string()),
        ],
        template_name: "dashboard".to_string(),
    };

    let result = renderer.render_template(&template_data).unwrap();

    assert!(contains(&result, "<!DOCTYPE html>"));
    assert!(contains(&result, "terminal"));
    assert!(contains(&result, "Dashboard"));
    assert!(contains(&result, "System Status"));
}

#[test]
fn html_renderer_test_render_metrics() {
    let renderer = HtmlRenderer::new();
    let now = chrono::Utc::now().to_rfc3339();

    let metrics = vec![
        Metric {
            name: "CPU Usage".to_string(),
            value: "85.5".to_string(),
            timestamp: now.clone(),
            labels: pairs(&[("unit", "%")]),
        },
        Metric {
            name: "Memory Usage".to_string(),
            value: "1024".to_string(),
            timestamp: now,
            labels: pairs(&[("unit", "MB"), ("trend", "-0.5")]),
        },
    ];

    let result = renderer.render_metrics(&metrics).unwrap();

    assert!(contains(&result, "CPU Usage"));
    assert!(contains(&result, "85.5"));
    assert!(contains(&result, "%"));
    assert!(contains(&result, "Memory Usage"));
    assert!(contains(&result, "1024"));
    assert!(contains(&result, "MB"));
    assert!(contains(&result, "terminal-trend-down"));
}

#[test]
fn html_renderer_test_render_logs() {
    let renderer = HtmlRenderer::new();

    let logs = vec![
        LogEntry::new("Application started", LogLevel::Info, "app"),
        LogEntry::new("Database connected", LogLevel::Debug, "db"),
        LogEntry::new("Warning: High CPU usage", LogLevel::Warning, "monitor"),
    ];

    let result = renderer.render_logs(&logs).unwrap();

    assert!(contains(&result, "Application started"));
    assert!(contains(&result, "terminal-log-info"));
    assert!(contains(&result, "app"));

    assert!(contains(&result, "Database connected"));
    assert!(contains(&result, "terminal-log-debug"));
    assert!(contains(&result, "db"));

    assert!(contains(&result, "Warning: High CPU usage"));
    assert!(contains(&result, "terminal-log-warning"));
    assert!(contains(&result, "monitor"));
}

#[test]
fn html_renderer_test_render_traces() {
    let renderer = HtmlRenderer::new();

    let traces = vec![
        Trace::new("API Request", 120).with_metadata_map(pairs(&[("status", "completed")])),
        Trace::new("Database Query", 45).with_metadata_map(pairs(&[("status", "failed")])),
    ];

    let result = renderer.render_traces(&traces).unwrap();

    assert!(contains(&result, "Name"));
    assert!(contains(&result, "Duration"));
    assert!(contains(&result, "Started"));
    assert!(contains(&result, "Status"));

    assert!(contains(&result, "API Request"));
    assert!(contains(&result, "120 ms"));
    assert!(contains(&result, "completed"));

    assert!(contains(&result, "Database Query"));
    assert!(contains(&result, "45 ms"));
    assert!(contains(&result, "failed"));
}
