use portfolio::binder::{process_blocks, substitute_variables_in_content, TemplateContext};
use portfolio::block::Block;
use portfolio::engine::{render_template_with, Template, TemplateCache};
use portfolio::html_renderer::HtmlRenderer;
use portfolio::models::{LogEntry, LogLevel, Metric, Trace};
use portfolio::text_renderer::TextRenderer;

const DASHBOARD: &str = r#"@heading{1}{Dashboard Overview}

@paragraph{Welcome to the system dashboard. Current status as of [[current_time]].}

@command{system status}

@output{
  @metrics
}

@frame{Recent Logs}{
  @logs
}

@frame{System Performance}{
  @paragraph{System performance metrics show normal operation with slight increase in response time.}
  
  @traces
}
"#;

fn pairs(items: &[(&str, &str)]) -> Vec<(String, String)> {
    items.iter().map(|(k, v)| (k.to_string(), v.to_string())).collect()
}

fn create_test_context() -> TemplateContext {
    let now = chrono::Utc::now().to_rfc3339();

    let metrics = vec![
        Metric {
            name: "CPU Usage".to_string(),
            value: "78.5".to_string(),
            timestamp: now.clone(),
            labels: pairs(&[("unit", "%"), ("trend", "+2.3")]),
        },
        Metric {
            name: "Memory".to_string(),
            value: "4.2".to_string(),
            timestamp: now.clone(),
            labels: pairs(&[("unit", "GB"), ("trend", "-0.5")]),
        },
    ];

    let logs = vec![
        LogEntry::new("Server started", LogLevel::Info, "app"),
        LogEntry::new("Connection established", LogLevel::Debug, "network"),
        LogEntry::new("Warning: High CPU usage", LogLevel::Warning, "monitor"),
    ];

    let traces = vec![Trace::new("API Request", 157).with_metadata_map(pairs(&[("status", "completed")]))];

    TemplateContext::new()
        .with_variable("current_time", &now)
        .with_metrics(metrics)
        .with_logs(logs)
        .with_traces(traces)
}

fn dashboard() -> Template {
    Template::from_string("dashboard".to_string(), DASHBOARD.to_string()).unwrap()
}

#[test]
fn test_template_engine_rendering() {
    let template = dashboard();
    let context = create_test_context();

    let html_renderer = HtmlRenderer::new();
    let text_renderer = TextRenderer::new();

    let html_result = render_template_with(&template, &context, &html_renderer);
    assert!(html_result.is_ok());
    let html = html_result.unwrap();

    assert!(html.contains("<!DOCTYPE html>"));
    assert!(html.contains("Dashboard Overview"));
    assert!(html.contains("CPU Usage"));
    assert!(html.contains("Memory"));
    assert!(html.contains("Server started"));
    assert!(html.contains("API Request"));

    let text_result = render_template_with(&template, &context, &text_renderer);
    assert!(text_result.is_ok());
    let text = text_result.unwrap();

    assert!(text.contains("Dashboard Overview"));
    assert!(text.contains("=================="));
    assert!(text.contains("CPU Usage"));
    assert!(text.contains("Memory"));
    assert!(text.contains("Server started"));
    assert!(text.contains("API Request"));
}

fn find_special_blocks(blocks: &[Block], metrics: &mut bool, logs: &mut bool, traces: &mut bool) {
    for block in blocks {
        match block {
            Block::Metric { .. } => *metrics = true,
            Block::Table { .. } => *logs = true,
            Block::Trace { .. } => *traces = true,
            Block::Container(nested) | Block::Output(nested) => {
                find_special_blocks(nested, metrics, logs, traces);
            }
            Block::Frame { content, .. } => {
                find_special_blocks(content, metrics, logs, traces);
            }
            _ => {}
        }
    }
}

#[test]
fn test_special_directives_processing() {
    let template = dashboard();
    let context = create_test_context();

    let processed_blocks = process_blocks(&template.blocks, &context).unwrap();

    let mut found_metrics = false;
    let mut found_logs = false;
    let mut found_traces = false;

    find_special_blocks(&processed_blocks, &mut found_metrics, &mut found_logs, &mut found_traces);

    assert!(found_metrics, "No metric blocks found after processing");
    assert!(found_logs, "No log blocks found after processing");
    assert!(found_traces, "No trace blocks found after processing");
}

#[test]
fn test_template_cache() {
    let mut cache = TemplateCache::new();
    let template1 = dashboard();
    cache.insert("dashboard".to_string(), dashboard());

    let template2 = cache.get("dashboard").unwrap();
    assert_eq!(template1.name, template2.name);
    assert_eq!(template1.content, template2.content);

    // a changed source is not seen until the cache is cleared
    let modified = Template::from_string("dashboard".to_string(), "@heading{1}{Modified Template}".to_string()).unwrap();
    let template3 = cache.get("dashboard").unwrap();
    assert_eq!(template1.content, template3.content);

    cache.clear();
    assert!(cache.get("dashboard").is_none());
    cache.insert("dashboard".to_string(), modified);
    let template4 = cache.get("dashboard").unwrap();
    assert_ne!(template1.content, template4.content);
    assert!(template4.content.contains("Modified Template"));
}

#[test]
fn substitution_resolves_known_and_keeps_unknown_tokens() {
    let vars = pairs(&[("current_time", "2025-01-01T00:00:00Z")]);
    let out = substitute_variables_in_content("at [[current_time]] and [[missing]]", &vars);
    assert_eq!(out, "at 2025-01-01T00:00:00Z and [[missing]]");
}

#[test]
fn dashboard_context_counts_records() {
    let context = portfolio::binder::dashboard_context(
        vec![Metric::new("a", "1"), Metric::new("b", "2")],
        vec![],
        vec![LogEntry::new("x", LogLevel::Info, "s")],
        "2025-01-01T00:00:00Z",
    );
    assert_eq!(
        context.variables,
        pairs(&[
            ("current_time", "2025-01-01T00:00:00Z"),
            ("hostname", "maxteibel-server"),
            ("metric_count", "2"),
            ("trace_count", "0"),
            ("log_count", "1"),
        ])
    );
}
