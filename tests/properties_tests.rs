use portfolio::binder::{process_blocks, TemplateContext};
use portfolio::block::{Block, TemplateData, Trend};
use portfolio::error::{Error, ParseErrorKind};
use portfolio::html_renderer::HtmlRenderer;
use portfolio::markup::serialize;
use portfolio::models::Metric;
use portfolio::parser::parse;
use portfolio::renderer::{PageRenderer, Renderer, TreeRenderer};
use portfolio::text_renderer::TextRenderer;

fn pairs(items: &[(&str, &str)]) -> Vec<(String, String)> {
    items.iter().map(|(k, v)| (k.to_string(), v.to_string())).collect()
}

fn parse_error(text: &str) -> (ParseErrorKind, String, usize, usize) {
    match parse(text) {
        Err(Error::Parse(e)) => (e.kind, e.text, e.line, e.column),
        other => panic!("expected a parse error, got {:?}", other),
    }
}

fn sample_blocks() -> Vec<Block> {
    vec![
        Block::Heading { level: 2, text: "Status".to_string() },
        Block::Paragraph("All systems normal.".to_string()),
        Block::CommandPrompt("uptime".to_string()),
        Block::Raw("<hr>".to_string()),
    ]
}

#[test]
fn serialized_blocks_parse_back() {
    let blocks = sample_blocks();
    let text = serialize(&blocks).unwrap();
    assert_eq!(text, "@heading{2}{Status}@paragraph{All systems normal.}@command{uptime}@raw{<hr>}");
    let again = parse(&text).unwrap();
    assert_eq!(format!("{:?}", again), format!("{:?}", blocks));
}

#[test]
fn nested_bodies_serialize_and_parse_back() {
    let blocks = vec![
        Block::Frame { title: Some("Box".to_string()), content: sample_blocks() },
        Block::Output(vec![Block::Output(vec![Block::Paragraph("deep".to_string())])]),
    ];
    let text = serialize(&blocks).unwrap();
    assert_eq!(
        text,
        "@frame{Box}{@heading{2}{Status}@paragraph{All systems normal.}@command{uptime}@raw{<hr>}}@output{@output{@paragraph{deep}}}"
    );
    let again = parse(&text).unwrap();
    assert_eq!(format!("{:?}", again), format!("{:?}", blocks));
}

#[test]
fn metrics_and_logs_serialize_and_parse_back() {
    let blocks = vec![
        Block::Metric { name: "cpu".to_string(), value: "7".to_string(), unit: None, trend: None },
        Block::Metric {
            name: "mem".to_string(),
            value: "4.2".to_string(),
            unit: Some("GB".to_string()),
            trend: Some(Trend { text: "-0.5".to_string() }),
        },
        Block::LogEntry { message: "up".to_string(), level: "INFO".to_string(), timestamp: None, source: None },
        Block::LogEntry {
            message: "down".to_string(),
            level: "WARN".to_string(),
            timestamp: Some("t0".to_string()),
            source: Some("db".to_string()),
        },
    ];
    let text = serialize(&blocks).unwrap();
    assert_eq!(text, "@metric{cpu}{7}@metric{mem}{4.2}{GB}{-0.5}@log{up}{INFO}@log{down}{WARN}{t0}{db}");
    assert_eq!(format!("{:?}", parse(&text).unwrap()), format!("{:?}", blocks));
}

#[test]
fn serialize_refuses_blocks_it_cannot_write() {
    let untitled = vec![Block::Frame { title: None, content: vec![Block::CommandPrompt("ls".to_string())] }];
    let text = serialize(&untitled).unwrap();
    assert_eq!(text, "@frame{@command{ls}}");
    assert_eq!(format!("{:?}", parse(&text).unwrap()), format!("{:?}", untitled));
    let no_unit = vec![Block::Metric {
        name: "m".to_string(),
        value: "1".to_string(),
        unit: None,
        trend: Some(Trend { text: "+1".to_string() }),
    }];
    assert!(serialize(&no_unit).is_none());
    let table = vec![Block::Table { headers: vec!["a".to_string()], rows: vec![] }];
    assert!(serialize(&table).is_none());
    let open_brace = vec![Block::Output(vec![Block::Paragraph("a{b".to_string())])];
    assert!(serialize(&open_brace).is_none());
    let table = vec![Block::Table { headers: vec![], rows: vec![] }];
    assert!(serialize(&table).is_none());
    let brace = vec![Block::Paragraph("a}b".to_string())];
    assert!(serialize(&brace).is_none());
}

#[test]
fn render_blocks_joins_render_block_for_both_renderers() {
    let blocks = sample_blocks();
    let html = HtmlRenderer::new();
    let joined: String = blocks.iter().map(|b| html.render_block(b).unwrap()).collect();
    assert_eq!(html.render_blocks(&blocks).unwrap(), joined);

    let text = TextRenderer::new();
    let joined: String = blocks.iter().map(|b| text.render_block(b).unwrap()).collect();
    assert_eq!(text.render_blocks(&blocks).unwrap(), joined);
}

#[test]
fn binding_a_tree_without_markers_changes_nothing() {
    let blocks = vec![
        Block::Frame { title: Some("F".to_string()), content: sample_blocks() },
        Block::Output(vec![Block::Raw("@var{name}".to_string())]),
    ];
    let context = TemplateContext::new().with_metrics(vec![Metric::new("cpu", "1")]);
    let bound = process_blocks(&blocks, &context).unwrap();
    assert_eq!(format!("{:?}", bound), format!("{:?}", blocks));
    let rebound = process_blocks(&bound, &context).unwrap();
    assert_eq!(format!("{:?}", rebound), format!("{:?}", bound));
}

#[test]
fn binding_a_bound_tree_again_changes_nothing() {
    let blocks = parse("@metrics @frame{T}{@logs @traces}").unwrap();
    let context = TemplateContext::new()
        .with_metrics(vec![Metric::new("cpu", "1").with_label("trend", "+1")])
        .with_traces(vec![portfolio::models::Trace::new("t", 3)]);
    let bound = process_blocks(&blocks, &context).unwrap();
    let again = process_blocks(&bound, &context).unwrap();
    assert_eq!(format!("{:?}", again), format!("{:?}", bound));
    let other = TemplateContext::new();
    let again = process_blocks(&bound, &other).unwrap();
    assert_eq!(format!("{:?}", again), format!("{:?}", bound));
}

#[test]
fn table_with_ragged_rows_renders() {
    let renderer = TextRenderer::new().with_ascii_only(true);
    let headers = vec!["A".to_string(), "BB".to_string()];
    let rows = vec![vec!["x".to_string()], vec!["1".to_string(), "2".to_string(), "3".to_string()]];
    let out = renderer.render_table(&headers, &rows).unwrap();
    assert_eq!(
        out,
        "+---+----+---+\n| A | BB |\n+---+----+---+\n| x |\n+---+----+---+\n| 1 | 2  | 3 |\n+---+----+---+\n"
    );
    let html = HtmlRenderer::new().render_table(&headers, &rows).unwrap();
    assert!(html.contains("<tr><td>1</td><td>2</td><td>3</td></tr>"));
}

#[test]
fn empty_table_renders_nothing_as_text() {
    let out = TextRenderer::new().render_table(&[], &[]).unwrap();
    assert_eq!(out, "");
}

#[test]
fn heading_directive_parses_to_one_heading() {
    let blocks = parse("@heading{1}{Title}").unwrap();
    assert_eq!(blocks.len(), 1);
    match &blocks[0] {
        Block::Heading { level, text } => {
            assert_eq!(*level, 1);
            assert_eq!(text, "Title");
        }
        other => panic!("unexpected {:?}", other),
    }
}

#[test]
fn table_directive_parses_headers_and_rows() {
    let blocks = parse("@table{@headers{Name|Value}@row{A|1}@row{B|2}}").unwrap();
    assert_eq!(blocks.len(), 1);
    match &blocks[0] {
        Block::Table { headers, rows } => {
            assert_eq!(headers, &vec!["Name".to_string(), "Value".to_string()]);
            assert_eq!(rows, &vec![vec!["A".to_string(), "1".to_string()], vec!["B".to_string(), "2".to_string()]]);
        }
        other => panic!("unexpected {:?}", other),
    }
}

#[test]
fn metrics_marker_binds_to_comment_and_metrics_in_order() {
    let context = TemplateContext::new().with_metrics(vec![
        Metric::new("first", "1").with_labels(pairs(&[("unit", "ms"), ("trend", "-2")])),
        Metric::new("second", "2").with_label("trend", "not a number"),
    ]);
    let bound = process_blocks(&[Block::Raw("@metrics".to_string())], &context).unwrap();
    assert_eq!(bound.len(), 3);
    match &bound[0] {
        Block::Raw(t) => assert_eq!(t, "<!-- Metrics: 2 -->"),
        other => panic!("unexpected {:?}", other),
    }
    match &bound[1] {
        Block::Metric { name, value, unit, trend } => {
            assert_eq!(name, "first");
            assert_eq!(value, "1");
            assert_eq!(unit.as_deref(), Some("ms"));
            assert_eq!(trend.as_ref().unwrap().text, "-2");
        }
        other => panic!("unexpected {:?}", other),
    }
    match &bound[2] {
        Block::Metric { name, unit, trend, .. } => {
            assert_eq!(name, "second");
            assert!(unit.is_none());
            assert!(trend.is_none());
        }
        other => panic!("unexpected {:?}", other),
    }
}

#[test]
fn logs_marker_without_logs_says_so() {
    let bound = process_blocks(&[Block::Raw(" @logs ".to_string())], &TemplateContext::new()).unwrap();
    assert_eq!(bound.len(), 2);
    match &bound[1] {
        Block::Paragraph(t) => assert_eq!(t, "No logs available."),
        other => panic!("unexpected {:?}", other),
    }
}

#[test]
fn traces_marker_defaults_status_to_unknown() {
    let context = TemplateContext::new().with_traces(vec![portfolio::models::Trace::new("t", 5)]);
    let bound = process_blocks(&[Block::Raw("@traces".to_string())], &context).unwrap();
    match &bound[1] {
        Block::Trace { status, duration_ms, .. } => {
            assert_eq!(status, "unknown");
            assert_eq!(*duration_ms, 5);
        }
        other => panic!("unexpected {:?}", other),
    }
}

#[test]
fn wrapped_paragraph_lines_fit_the_width() {
    let renderer = TextRenderer::new().with_width(30);
    let text = "alpha beta gamma delta epsilon zeta eta theta iota kappa lambda mu nu xi omicron";
    let out = renderer.render_paragraph(text).unwrap();
    assert_eq!(out, "alpha beta gamma delta epsilon\nzeta eta theta iota kappa\nlambda mu nu xi omicron\n\n");
    for line in out.lines() {
        assert!(line.chars().count() <= 30);
    }
}

#[test]
fn narrow_widths_wrap_too() {
    let renderer = TextRenderer::new().with_width(10);
    assert_eq!(renderer.render_paragraph("a b c d e f g h i j k").unwrap(), "a b c d e\nf g h i j\nk\n\n");
    let renderer = TextRenderer::new().with_width(5);
    assert_eq!(renderer.render_paragraph("aaaa bbbb").unwrap(), "aaaa\nbbbb\n\n");
}

#[test]
fn log_continuation_lines_align_under_the_message() {
    let r = TextRenderer::new().with_width(30);
    assert_eq!(
        r.render_log_entry("alpha beta gamma delta epsilon", "info", None, None).unwrap(),
        "[INFO ] alpha beta gamma delta\n        epsilon\n"
    );
}

#[test]
fn frame_with_one_group_is_an_untitled_body() {
    let blocks = parse("@frame{Hello}").unwrap();
    match &blocks[0] {
        Block::Frame { title, content } => {
            assert!(title.is_none());
            assert_eq!(format!("{:?}", content), format!("{:?}", vec![Block::Paragraph("Hello".to_string())]));
        }
        other => panic!("unexpected {:?}", other),
    }
    let nested = parse("@frame{@heading{1}{x}}").unwrap();
    match &nested[0] {
        Block::Frame { title, content } => {
            assert!(title.is_none());
            assert_eq!(content.len(), 1);
        }
        other => panic!("unexpected {:?}", other),
    }
}

#[test]
fn keywords_match_whole_names_only() {
    assert_eq!(parse_error("@metricsfoo").0, ParseErrorKind::UnknownDirective);
    assert_eq!(parse_error("@metricsfoo").1, "metricsfoo");
    assert_eq!(parse_error("@variable{x}").1, "variable");
}

#[test]
fn page_title_is_escaped() {
    let data = TemplateData { blocks: vec![], template_name: "a<b>&c".to_string() };
    let page = HtmlRenderer::new().render_template(&data).unwrap();
    assert!(page.contains("<title>a&lt;b&gt;&amp;c</title>"));
}

#[test]
fn html_heading_is_exact_and_clamped() {
    let r = HtmlRenderer::new();
    assert_eq!(
        r.render_heading(1, "Title").unwrap(),
        "<h1 class=\"terminal-heading terminal-heading-1\">Title</h1>"
    );
    assert!(r.render_heading(9, "x").unwrap().starts_with("<h6 "));
    assert!(r.render_heading(0, "x").unwrap().starts_with("<h1 "));
}

#[test]
fn html_escapes_special_characters() {
    let r = HtmlRenderer::new();
    assert_eq!(
        r.render_paragraph("<a href='x'>&\"</a>").unwrap(),
        "<p class=\"terminal-paragraph\">&lt;a href=&#39;x&#39;&gt;&amp;&quot;&lt;/a&gt;</p>"
    );
}

#[test]
fn text_heading_and_metric_are_exact() {
    let r = TextRenderer::new().with_width(20);
    assert_eq!(r.render_heading(1, "Title").unwrap(), "Title\n=====\n\n");
    assert_eq!(r.render_heading(5, "Small").unwrap(), "Small\n\n");
    let up = Trend { text: "+1".to_string() };
    assert_eq!(r.render_metric("CPU", "5", Some("%"), Some(&up)).unwrap(), "CPU:          5 % ▲\n");
}

#[test]
fn trend_directions() {
    let r = HtmlRenderer::new();
    let class = |t: &str| {
        let trend = Trend { text: t.to_string() };
        r.render_metric("m", "1", None, Some(&trend)).unwrap()
    };
    assert!(class("1e-3").contains("terminal-trend-up"));
    assert!(class("inf").contains("terminal-trend-up"));
    assert!(class("-Infinity").contains("terminal-trend-down"));
    assert!(!class("-0.0").contains("terminal-trend"));
    assert!(!class("NaN").contains("terminal-trend"));
}

#[test]
fn text_frame_is_exact() {
    let r = TextRenderer::new().with_width(20).with_ascii_only(true);
    assert_eq!(r.render_frame(Some("T"), "ab").unwrap(), "+ T --+\n| ab   |\n+-----+\n");
}

#[test]
fn text_log_entry_is_exact() {
    let r = TextRenderer::new();
    assert_eq!(r.render_log_entry("Application started", "info", None, None).unwrap(), "[INFO ] Application started\n");
    assert_eq!(r.render_log_entry("x", "warn", Some("t"), Some("s")).unwrap(), "[t] [WARN ] [s] x\n");
}

#[test]
fn trace_text_is_exact() {
    let r = TextRenderer::new();
    let out = r.render_trace("op", 120, "t0", "ok", &pairs(&[("k", "v")])).unwrap();
    assert_eq!(out, "op (120 ms)\nStarted: t0, Status: ok\nMetadata:\n  k: v\n");
}

#[test]
fn parse_errors_name_kind_text_and_place() {
    assert_eq!(parse_error("\n\n@bogus{x}"), (ParseErrorKind::UnknownDirective, "bogus".to_string(), 3, 7));
    assert_eq!(
        parse_error("@heading{x}{T}"),
        (ParseErrorKind::InvalidHeadingLevel, "x".to_string(), 1, 12)
    );
    assert_eq!(parse_error("@metric{a}{1}{u}{up}").0, ParseErrorKind::InvalidTrend);
    assert_eq!(parse_error("@trace{n}{-1}{s}{ok}").0, ParseErrorKind::InvalidDuration);
    assert_eq!(parse_error("@trace{n}{18446744073709551616}{s}{ok}").0, ParseErrorKind::InvalidDuration);
    assert_eq!(parse_error("@paragraph{abc").0, ParseErrorKind::UnexpectedEnd { expected: '}' });
    assert_eq!(parse_error("@paragraph x").0, ParseErrorKind::Unexpected { expected: '{', found: ' ' });
    assert_eq!(parse_error("@output{ @paragraph{x}").0, ParseErrorKind::UnclosedOutput);
    assert_eq!(parse_error("@frame{t}{ {").0, ParseErrorKind::UnclosedFrame);
}

#[test]
fn nested_errors_count_from_their_body() {
    let (kind, text, line, column) = parse_error("\n\n@output{@nope{x}}");
    assert_eq!(kind, ParseErrorKind::UnknownDirective);
    assert_eq!(text, "nope");
    assert_eq!((line, column), (1, 6));
}

#[test]
fn escaped_brace_stays_in_the_text() {
    let blocks = parse("@paragraph{a\\}b}").unwrap();
    match &blocks[0] {
        Block::Paragraph(t) => assert_eq!(t, "a\\}b"),
        other => panic!("unexpected {:?}", other),
    }
}

#[test]
fn var_and_bare_markers_become_raw_blocks() {
    let blocks = parse("@var{name} @metrics @logs @traces").unwrap();
    let texts: Vec<String> = blocks
        .iter()
        .map(|b| match b {
            Block::Raw(t) => t.clone(),
            other => panic!("unexpected {:?}", other),
        })
        .collect();
    assert_eq!(texts, vec!["@var{name}", "@metrics", "@logs", "@traces"]);
}

#[test]
fn empty_and_blank_documents_have_no_blocks() {
    assert!(parse("").unwrap().is_empty());
    assert!(parse("  \n\t ").unwrap().is_empty());
}

#[test]
fn trace_metadata_keeps_each_key_once() {
    let blocks = parse("@trace{op}{7}{t0}{ok}{@meta{k}{1}@meta{k}{2}}").unwrap();
    match &blocks[0] {
        Block::Trace { metadata, duration_ms, .. } => {
            assert_eq!(*duration_ms, 7);
            assert_eq!(metadata, &vec![("k".to_string(), "2".to_string())]);
        }
        other => panic!("unexpected {:?}", other),
    }
}

#[test]
fn context_keeps_structured_data_in_order() {
    let context = TemplateContext::new()
        .with_data("enabled", serde_json::Value::Bool(true))
        .with_data("count", serde_json::Value::from(3));
    assert_eq!(context.data.len(), 2);
    assert_eq!(context.data[0].0, "enabled");
    assert_eq!(context.data[1].1, serde_json::Value::from(3));
    let context = context.with_variable("a", "1").with_variable("a", "2");
    assert_eq!(context.variables, pairs(&[("a", "2")]));
}
