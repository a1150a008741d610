//! The HTML renderer: every element in a named `terminal-*` class, all text escaped.
use vstd::prelude::*;
use crate::binder::{log_nodes, logs_to_blocks, metric_nodes, metrics_to_blocks, trace_headers, trace_rows, traces_to_rows};
use crate::block::{Node, TemplateData, Trend, blocks_view, strings_view, rows_view};
use crate::error::Error;
use crate::models::{LogEntry, Metric, Trace};
use crate::number::{check_trend, trend_sign};
use crate::renderer::{PageRenderer, Renderer, blocks_text, render_slice_with};
use crate::strings::{chars_of, decimal, decimal_string, push_char, push_str, to_uppercase, upper_of};

verus! {

/// The style sheet that an HTML page carries when inline CSS is on.
pub const TERMINAL_CSS: &'static str = ".terminal { background-color: #1e1e1e; color: #f0f0f0; font-family: 'Courier New', monospace; padding: 1rem; border-radius: 0.5rem; overflow: auto; line-height: 1.5; max-width: 100%; box-sizing: border-box; }
.terminal-command { color: #63c8ff; margin: 0.5rem 0; }
.terminal-command::before { content: '$ '; color: #63c8ff; }
.terminal-output { margin: 0.5rem 0 1.5rem 0; padding-left: 0.5rem; border-left: 2px solid #3a3a3a; }
.terminal-frame { border: 1px solid #3a3a3a; padding: 0.5rem; margin: 0.5rem 0; border-radius: 0.3rem; }
.terminal-frame-title { background-color: #3a3a3a; padding: 0.3rem 0.5rem; margin: -0.5rem -0.5rem 0.5rem -0.5rem; border-radius: 0.3rem 0.3rem 0 0; font-weight: bold; }
.terminal-metric { display: flex; justify-content: space-between; padding: 0.3rem 0; }
.terminal-metric-name { font-weight: bold; }
.terminal-metric-value { color: #63c8ff; }
.terminal-log { padding: 0.2rem 0; }
.terminal-log-debug { color: #9e9e9e; }
.terminal-log-info { color: #63c8ff; }
.terminal-log-warning { color: #ffac35; }
.terminal-log-error { color: #ff5b5b; }
.terminal-table { border-collapse: collapse; width: 100%; margin: 0.5rem 0; }
.terminal-table th { text-align: left; padding: 0.3rem; border-bottom: 1px solid #3a3a3a; color: #63c8ff; }
.terminal-table td { padding: 0.3rem; border-bottom: 1px solid #2a2a2a; }
.terminal-trace { padding: 0.3rem 0; }
.terminal-trace-name { font-weight: bold; }
.terminal-trace-duration { color: #63c8ff; }
.terminal-trend-up::after { content: ' \u{25b2}'; color: #4caf50; }
.terminal-trend-down::after { content: ' \u{25bc}'; color: #ff5b5b; }
@media (max-width: 768px) { .terminal { padding: 0.5rem; } .terminal-table { font-size: 0.9rem; } }
";

/// The HTML form of one character: `& < > " '` as entities, others as they are.
pub open spec fn escape_char(c: char) -> Seq<char> {
    if c == '&' {
        "&amp;"@
    } else if c == '<' {
        "&lt;"@
    } else if c == '>' {
        "&gt;"@
    } else if c == '"' {
        "&quot;"@
    } else if c == '\'' {
        "&#39;"@
    } else {
        seq![c]
    }
}

/// The HTML-escaped form of a text.
pub open spec fn escape(s: Seq<char>) -> Seq<char>
    decreases s.len(),
{
    if s.len() == 0 {
        Seq::empty()
    } else {
        escape(s.drop_last()) + escape_char(s.last())
    }
}

/// A heading level kept within 1 to 6.
pub open spec fn clamp_level(level: usize) -> usize {
    if level > 6 {
        6
    } else if level < 1 {
        1
    } else {
        level
    }
}

pub fn clamp_heading_level(level: usize) -> (r: usize)
    ensures
        r == clamp_level(level),
{
    if level > 6 {
        6
    } else if level < 1 {
        1
    } else {
        level
    }
}

/// The class that marks a metric's trend: up above zero, down below zero.
pub open spec fn trend_class(trend: Option<Seq<char>>) -> Seq<char> {
    match trend {
        Some(t) => if trend_sign(t) > 0 {
            "terminal-trend-up"@
        } else if trend_sign(t) < 0 {
            "terminal-trend-down"@
        } else {
            ""@
        },
        None => ""@,
    }
}

/// The class of a log line by its upper-cased level; unknown levels count as info.
pub open spec fn log_class(upper: Seq<char>) -> Seq<char> {
    if upper == seq!['D', 'E', 'B', 'U', 'G'] {
        "terminal-log-debug"@
    } else if upper == seq!['I', 'N', 'F', 'O'] {
        "terminal-log-info"@
    } else if upper == seq!['W', 'A', 'R', 'N', 'I', 'N', 'G'] || upper == seq!['W', 'A', 'R', 'N'] {
        "terminal-log-warning"@
    } else if upper == seq!['E', 'R', 'R', 'O', 'R'] {
        "terminal-log-error"@
    } else {
        "terminal-log-info"@
    }
}

/// The `[timestamp] [source] ` prefix of a log line, each part present only if given.
pub open spec fn log_prefix(timestamp: Option<Seq<char>>, source: Option<Seq<char>>) -> Seq<char> {
    bracketed(timestamp) + bracketed(source)
}

/// `[x] ` for a given `x`, nothing otherwise.
pub open spec fn bracketed(x: Option<Seq<char>>) -> Seq<char> {
    match x {
        Some(v) => "["@ + escape(v) + "] "@,
        None => Seq::empty(),
    }
}

/// Each text in a cell of the given tag, one after another.
pub open spec fn cells_html(cells: Seq<Seq<char>>, open: Seq<char>, close: Seq<char>) -> Seq<char>
    decreases cells.len(),
{
    if cells.len() == 0 {
        Seq::empty()
    } else {
        cells_html(cells.drop_last(), open, close) + open + escape(cells.last()) + close
    }
}

/// Each row as a table row of data cells, one after another.
pub open spec fn rows_html(rows: Seq<Seq<Seq<char>>>) -> Seq<char>
    decreases rows.len(),
{
    if rows.len() == 0 {
        Seq::empty()
    } else {
        rows_html(rows.drop_last()) + "<tr>"@ + cells_html(rows.last(), "<td>"@, "</td>"@) + "</tr>"@
    }
}

pub open spec fn meta_item_html(k: Seq<char>, v: Seq<char>) -> Seq<char> {
    "<span class=\"terminal-trace-metadata-item\"><span class=\"terminal-trace-metadata-key\">"@ + escape(k)
        + "</span>: <span class=\"terminal-trace-metadata-value\">"@ + escape(v) + "</span></span>"@
}

/// The metadata items of a trace, separated by commas.
pub open spec fn meta_items_html(m: Seq<(Seq<char>, Seq<char>)>) -> Seq<char>
    decreases m.len(),
{
    if m.len() == 0 {
        Seq::empty()
    } else if m.len() == 1 {
        meta_item_html(m[0].0, m[0].1)
    } else {
        meta_items_html(m.drop_last()) + ", "@ + meta_item_html(m.last().0, m.last().1)
    }
}

/// The words of `v` joined by single spaces.
pub open spec fn join_spaces(v: Seq<Seq<char>>) -> Seq<char>
    decreases v.len(),
{
    if v.len() == 0 {
        Seq::empty()
    } else if v.len() == 1 {
        v[0]
    } else {
        join_spaces(v.drop_last()) + " "@ + v.last()
    }
}

/// Renders documents as one self-contained HTML page.
pub struct HtmlRenderer {
    pub additional_classes: Vec<String>,
    pub include_inline_css: bool,
}

/// Escapes `& < > " '` in a text.
pub fn escape_html(text: &str) -> (r: String)
    ensures
        r@ == escape(text@),
{
    let chars = chars_of(text);
    let mut r = String::new();
    let mut i: usize = 0;
    while i < chars.len()
        invariant
            i <= chars@.len(),
            chars@ == text@,
            r@ == escape(chars@.subrange(0, i as int)),
        decreases chars.len() - i,
    {
        let c = chars[i];
        proof {
            let p = chars@.subrange(0, i + 1);
            assert(p.drop_last() =~= chars@.subrange(0, i as int));
            assert(p.last() == c);
        }
        if c == '&' {
            push_str(&mut r, "&amp;");
        } else if c == '<' {
            push_str(&mut r, "&lt;");
        } else if c == '>' {
            push_str(&mut r, "&gt;");
        } else if c == '"' {
            push_str(&mut r, "&quot;");
        } else if c == '\'' {
            push_str(&mut r, "&#39;");
        } else {
            push_char(&mut r, c);
            assert(r@ =~= escape(chars@.subrange(0, i as int)) + seq![c]);
        }
        i += 1;
    }
    assert(chars@.subrange(0, chars@.len() as int) =~= text@);
    r
}

fn trend_class_of(trend: Option<&Trend>) -> (r: &'static str)
    ensures
        r@ == trend_class(crate::renderer::opt_trend_view(trend)),
{
    match trend {
        Some(t) => {
            let (_valid, sign) = check_trend(chars_of(t.text.as_str()).as_slice());
            if sign > 0 {
                "terminal-trend-up"
            } else if sign < 0 {
                "terminal-trend-down"
            } else {
                ""
            }
        },
        None => "",
    }
}

fn log_class_of(level: &str) -> (r: &'static str)
    ensures
        r@ == log_class(upper_of(level@)),
{
    let u = to_uppercase(level);
    proof {
        assert(['D', 'E', 'B', 'U', 'G']@ =~= seq!['D', 'E', 'B', 'U', 'G']);
        assert(['I', 'N', 'F', 'O']@ =~= seq!['I', 'N', 'F', 'O']);
        assert(['W', 'A', 'R', 'N', 'I', 'N', 'G']@ =~= seq!['W', 'A', 'R', 'N', 'I', 'N', 'G']);
        assert(['W', 'A', 'R', 'N']@ =~= seq!['W', 'A', 'R', 'N']);
        assert(['E', 'R', 'R', 'O', 'R']@ =~= seq!['E', 'R', 'R', 'O', 'R']);
    }
    let s = u.as_str();
    if crate::models::same_text(s, &['D', 'E', 'B', 'U', 'G']) {
        "terminal-log-debug"
    } else if crate::models::same_text(s, &['I', 'N', 'F', 'O']) {
        "terminal-log-info"
    } else if crate::models::same_text(s, &['W', 'A', 'R', 'N', 'I', 'N', 'G']) || crate::models::same_text(
        s,
        &['W', 'A', 'R', 'N'],
    ) {
        "terminal-log-warning"
    } else if crate::models::same_text(s, &['E', 'R', 'R', 'O', 'R']) {
        "terminal-log-error"
    } else {
        "terminal-log-info"
    }
}

fn cells_to_html(cells: &[String], open: &str, close: &str) -> (r: String)
    ensures
        r@ == cells_html(strings_view(cells@), open@, close@),
{
    let mut r = String::new();
    let mut i: usize = 0;
    while i < cells.len()
        invariant
            i <= cells@.len(),
            r@ == cells_html(strings_view(cells@.subrange(0, i as int)), open@, close@),
        decreases cells.len() - i,
    {
        proof {
            let p = strings_view(cells@.subrange(0, i + 1));
            assert(p.drop_last() =~= strings_view(cells@.subrange(0, i as int)));
            assert(p.last() == cells@[i as int]@);
        }
        push_str(&mut r, open);
        push_str(&mut r, escape_html(cells[i].as_str()).as_str());
        push_str(&mut r, close);
        i += 1;
    }
    assert(cells@.subrange(0, cells@.len() as int) =~= cells@);
    r
}

fn metadata_to_html(m: &[(String, String)]) -> (r: String)
    ensures
        r@ == meta_items_html(crate::block::pairs_view(m@)),
{
    let mut r = String::new();
    let mut i: usize = 0;
    while i < m.len()
        invariant
            i <= m@.len(),
            r@ == meta_items_html(crate::block::pairs_view(m@.subrange(0, i as int))),
        decreases m.len() - i,
    {
        proof {
            let p = crate::block::pairs_view(m@.subrange(0, i + 1));
            assert(p.drop_last() =~= crate::block::pairs_view(m@.subrange(0, i as int)));
            assert(p.last() == (m@[i as int].0@, m@[i as int].1@));
            if i == 0 {
                assert(p[0] == (m@[0].0@, m@[0].1@));
            }
        }
        if i > 0 {
            push_str(&mut r, ", ");
        }
        push_str(&mut r, "<span class=\"terminal-trace-metadata-item\"><span class=\"terminal-trace-metadata-key\">");
        push_str(&mut r, escape_html(m[i].0.as_str()).as_str());
        push_str(&mut r, "</span>: <span class=\"terminal-trace-metadata-value\">");
        push_str(&mut r, escape_html(m[i].1.as_str()).as_str());
        push_str(&mut r, "</span></span>");
        i += 1;
    }
    assert(m@.subrange(0, m@.len() as int) =~= m@);
    r
}

/// The page around the rendered blocks of a document.
pub open spec fn page_html(name: Seq<char>, classes: Seq<Seq<char>>, inline_css: bool, content: Seq<char>) -> Seq<char> {
    let class_list = if classes.len() == 0 {
        "terminal"@
    } else {
        "terminal"@ + " "@ + join_spaces(classes)
    };
    let style = if inline_css {
        "<style>"@ + TERMINAL_CSS@ + "</style>"@
    } else {
        Seq::empty()
    };
    "<!DOCTYPE html>\n<html lang=\"en\">\n<head>\n<meta charset=\"UTF-8\">\n<meta name=\"viewport\" content=\"width=device-width, initial-scale=1.0\">\n<title>"@
        + escape(name) + "</title>\n"@ + style + "\n</head>\n<body>\n<div class=\""@ + class_list + "\">"@ + content
        + "</div>\n</body>\n</html>"@
}

impl HtmlRenderer {
    /// A renderer with no extra classes and the style sheet inline.
    pub fn new() -> (r: Self)
        ensures
            r.additional_classes@.len() == 0,
            r.include_inline_css,
    {
        HtmlRenderer { additional_classes: Vec::new(), include_inline_css: true }
    }

    /// The same renderer with these extra classes on the page's container.
    pub fn with_classes(self, classes: Vec<String>) -> (r: Self)
        ensures
            r.additional_classes == classes,
            r.include_inline_css == self.include_inline_css,
    {
        HtmlRenderer { additional_classes: classes, include_inline_css: self.include_inline_css }
    }

    /// The same renderer with the inline style sheet on or off.
    pub fn with_inline_css(self, inline: bool) -> (r: Self)
        ensures
            r.additional_classes == self.additional_classes,
            r.include_inline_css == inline,
    {
        HtmlRenderer { additional_classes: self.additional_classes, include_inline_css: inline }
    }

    /// The style sheet of a page.
    pub fn get_terminal_css(&self) -> (r: &'static str)
        ensures
            r@ == TERMINAL_CSS@,
    {
        TERMINAL_CSS
    }

    /// The page around already rendered content.
    pub fn wrap_page(&self, template_name: &str, content: &str) -> (r: String)
        ensures
            r@ == page_html(template_name@, strings_view(self.additional_classes@), self.include_inline_css, content@),
    {
        let mut class_list = String::new();
        push_str(&mut class_list, "terminal");
        if self.additional_classes.len() > 0 {
            push_str(&mut class_list, " ");
            let mut i: usize = 0;
            while i < self.additional_classes.len()
                invariant
                    i <= self.additional_classes@.len(),
                    self.additional_classes@.len() > 0,
                    i == 0 ==> class_list@ == "terminal"@ + " "@,
                    i > 0 ==> class_list@ == "terminal"@ + " "@ + join_spaces(strings_view(self.additional_classes@.subrange(0, i as int))),
                decreases self.additional_classes.len() - i,
            {
                proof {
                    let p = strings_view(self.additional_classes@.subrange(0, i + 1));
                    assert(p.drop_last() =~= strings_view(self.additional_classes@.subrange(0, i as int)));
                    assert(p.last() == self.additional_classes@[i as int]@);
                    if i == 0 {
                        assert(p[0] == self.additional_classes@[0]@);
                    }
                }
                if i > 0 {
                    push_str(&mut class_list, " ");
                }
                push_str(&mut class_list, self.additional_classes[i].as_str());
                i += 1;
            }
            assert(self.additional_classes@.subrange(0, self.additional_classes@.len() as int) =~= self.additional_classes@);
        }
        let mut r = String::new();
        push_str(&mut r, "<!DOCTYPE html>\n<html lang=\"en\">\n<head>\n<meta charset=\"UTF-8\">\n<meta name=\"viewport\" content=\"width=device-width, initial-scale=1.0\">\n<title>");
        push_str(&mut r, escape_html(template_name).as_str());
        push_str(&mut r, "</title>\n");
        if self.include_inline_css {
            push_str(&mut r, "<style>");
            push_str(&mut r, self.get_terminal_css());
            push_str(&mut r, "</style>");
        }
        push_str(&mut r, "\n</head>\n<body>\n<div class=\"");
        push_str(&mut r, class_list.as_str());
        push_str(&mut r, "\">");
        push_str(&mut r, content);
        push_str(&mut r, "</div>\n</body>\n</html>");
        r
    }
}

impl Default for HtmlRenderer {
    fn default() -> (r: Self)
        ensures
            r.additional_classes@.len() == 0,
            r.include_inline_css,
    {
        HtmlRenderer::new()
    }
}

impl Renderer for HtmlRenderer {
    open spec fn heading_text(&self, level: usize, text: Seq<char>) -> Seq<char> {
        let d = decimal(clamp_level(level) as nat);
        "<h"@ + d + " class=\"terminal-heading terminal-heading-"@ + d + "\">"@ + escape(text) + "</h"@ + d + ">"@
    }

    open spec fn paragraph_text(&self, text: Seq<char>) -> Seq<char> {
        "<p class=\"terminal-paragraph\">"@ + escape(text) + "</p>"@
    }

    open spec fn command_text(&self, command: Seq<char>) -> Seq<char> {
        "<div class=\"terminal-command\">"@ + escape(command) + "</div>"@
    }

    open spec fn output_text(&self, content: Seq<char>) -> Seq<char> {
        "<div class=\"terminal-output\">"@ + content + "</div>"@
    }

    open spec fn frame_text(&self, title: Option<Seq<char>>, content: Seq<char>) -> Seq<char> {
        let title_html = match title {
            Some(t) => "<div class=\"terminal-frame-title\">"@ + escape(t) + "</div>"@,
            None => Seq::empty(),
        };
        "<div class=\"terminal-frame\">"@ + title_html + content + "</div>"@
    }

    open spec fn metric_text(&self, name: Seq<char>, value: Seq<char>, unit: Option<Seq<char>>, trend: Option<Seq<char>>) -> Seq<char> {
        let value_with_unit = match unit {
            Some(u) => escape(value) + " "@ + escape(u),
            None => escape(value),
        };
        "<div class=\"terminal-metric\"><span class=\"terminal-metric-name\">"@ + escape(name)
            + "</span><span class=\"terminal-metric-value "@ + trend_class(trend) + "\">"@ + value_with_unit
            + "</span></div>"@
    }

    open spec fn log_text(&self, message: Seq<char>, level: Seq<char>, timestamp: Option<Seq<char>>, source: Option<Seq<char>>) -> Seq<char> {
        "<div class=\"terminal-log "@ + log_class(upper_of(level)) + "\"><span class=\"terminal-log-prefix\">"@
            + log_prefix(timestamp, source) + "</span><span class=\"terminal-log-message\">"@ + escape(message)
            + "</span></div>"@
    }

    open spec fn table_text(&self, headers: Seq<Seq<char>>, rows: Seq<Seq<Seq<char>>>) -> Seq<char> {
        let header_row = if headers.len() > 0 {
            "<tr>"@ + cells_html(headers, "<th>"@, "</th>"@) + "</tr>"@
        } else {
            Seq::empty()
        };
        "<table class=\"terminal-table\"><thead>"@ + header_row + "</thead><tbody>"@ + rows_html(rows)
            + "</tbody></table>"@
    }

    open spec fn trace_text(&self, name: Seq<char>, duration_ms: u64, start_time: Seq<char>, status: Seq<char>, metadata: Seq<(Seq<char>, Seq<char>)>) -> Seq<char> {
        let meta = if metadata.len() > 0 {
            "<div class=\"terminal-trace-metadata\">"@ + meta_items_html(metadata) + "</div>"@
        } else {
            Seq::empty()
        };
        "<div class=\"terminal-trace\"><div class=\"terminal-trace-header\"><span class=\"terminal-trace-name\">"@
            + escape(name) + "</span><span class=\"terminal-trace-duration\">"@ + decimal(duration_ms as nat)
            + " ms</span></div><div class=\"terminal-trace-details\">Started: "@ + escape(start_time)
            + ", Status: "@ + escape(status) + "</div>"@ + meta + "</div>"@
    }

    open spec fn raw_text(&self, content: Seq<char>) -> Seq<char> {
        content
    }

    fn render_heading(&self, level: usize, text: &str) -> (r: Result<String, Error>) {
        let l = clamp_heading_level(level);
        let d = decimal_string(l as u64);
        let mut r = String::new();
        push_str(&mut r, "<h");
        push_str(&mut r, d.as_str());
        push_str(&mut r, " class=\"terminal-heading terminal-heading-");
        push_str(&mut r, d.as_str());
        push_str(&mut r, "\">");
        push_str(&mut r, escape_html(text).as_str());
        push_str(&mut r, "</h");
        push_str(&mut r, d.as_str());
        push_str(&mut r, ">");
        Ok(r)
    }

    fn render_paragraph(&self, text: &str) -> (r: Result<String, Error>) {
        let mut r = String::new();
        push_str(&mut r, "<p class=\"terminal-paragraph\">");
        push_str(&mut r, escape_html(text).as_str());
        push_str(&mut r, "</p>");
        Ok(r)
    }

    fn render_command_prompt(&self, command: &str) -> (r: Result<String, Error>) {
        let mut r = String::new();
        push_str(&mut r, "<div class=\"terminal-command\">");
        push_str(&mut r, escape_html(command).as_str());
        push_str(&mut r, "</div>");
        Ok(r)
    }

    fn wrap_output(&self, content: &str) -> (r: String) {
        let mut r = String::new();
        push_str(&mut r, "<div class=\"terminal-output\">");
        push_str(&mut r, content);
        push_str(&mut r, "</div>");
        r
    }

    fn render_frame(&self, title: Option<&str>, content: &str) -> (r: Result<String, Error>) {
        let mut r = String::new();
        push_str(&mut r, "<div class=\"terminal-frame\">");
        match title {
            Some(t) => {
                push_str(&mut r, "<div class=\"terminal-frame-title\">");
                push_str(&mut r, escape_html(t).as_str());
                push_str(&mut r, "</div>");
            },
            None => {},
        }
        push_str(&mut r, content);
        push_str(&mut r, "</div>");
        Ok(r)
    }

    fn render_metric(&self, name: &str, value: &str, unit: Option<&str>, trend: Option<&Trend>) -> (r: Result<String, Error>) {
        let mut r = String::new();
        push_str(&mut r, "<div class=\"terminal-metric\"><span class=\"terminal-metric-name\">");
        push_str(&mut r, escape_html(name).as_str());
        push_str(&mut r, "</span><span class=\"terminal-metric-value ");
        push_str(&mut r, trend_class_of(trend));
        push_str(&mut r, "\">");
        push_str(&mut r, escape_html(value).as_str());
        match unit {
            Some(u) => {
                push_str(&mut r, " ");
                push_str(&mut r, escape_html(u).as_str());
            },
            None => {},
        }
        push_str(&mut r, "</span></div>");
        Ok(r)
    }

    fn render_log_entry(&self, message: &str, level: &str, timestamp: Option<&str>, source: Option<&str>) -> (r: Result<String, Error>) {
        let mut prefix = String::new();
        match timestamp {
            Some(ts) => {
                push_str(&mut prefix, "[");
                push_str(&mut prefix, escape_html(ts).as_str());
                push_str(&mut prefix, "] ");
            },
            None => {},
        }
        match source {
            Some(src) => {
                push_str(&mut prefix, "[");
                push_str(&mut prefix, escape_html(src).as_str());
                push_str(&mut prefix, "] ");
            },
            None => {},
        }
        let mut r = String::new();
        push_str(&mut r, "<div class=\"terminal-log ");
        push_str(&mut r, log_class_of(level));
        push_str(&mut r, "\"><span class=\"terminal-log-prefix\">");
        push_str(&mut r, prefix.as_str());
        push_str(&mut r, "</span><span class=\"terminal-log-message\">");
        push_str(&mut r, escape_html(message).as_str());
        push_str(&mut r, "</span></div>");
        Ok(r)
    }

    fn render_table(&self, headers: &[String], rows: &[Vec<String>]) -> (r: Result<String, Error>) {
        let mut r = String::new();
        push_str(&mut r, "<table class=\"terminal-table\"><thead>");
        if headers.len() > 0 {
            push_str(&mut r, "<tr>");
            push_str(&mut r, cells_to_html(headers, "<th>", "</th>").as_str());
            push_str(&mut r, "</tr>");
        }
        push_str(&mut r, "</thead><tbody>");
        let mut body = String::new();
        let mut i: usize = 0;
        while i < rows.len()
            invariant
                i <= rows@.len(),
                body@ == rows_html(rows_view(rows@.subrange(0, i as int))),
            decreases rows.len() - i,
        {
            proof {
                let p = rows_view(rows@.subrange(0, i + 1));
                assert(p.drop_last() =~= rows_view(rows@.subrange(0, i as int)));
                assert(p.last() == strings_view(rows@[i as int]@));
            }
            push_str(&mut body, "<tr>");
            push_str(&mut body, cells_to_html(rows[i].as_slice(), "<td>", "</td>").as_str());
            push_str(&mut body, "</tr>");
            i += 1;
        }
        assert(rows@.subrange(0, rows@.len() as int) =~= rows@);
        push_str(&mut r, body.as_str());
        push_str(&mut r, "</tbody></table>");
        Ok(r)
    }

    fn render_trace(&self, name: &str, duration_ms: u64, start_time: &str, status: &str, metadata: &[(String, String)]) -> (r: Result<String, Error>) {
        let mut r = String::new();
        push_str(&mut r, "<div class=\"terminal-trace\"><div class=\"terminal-trace-header\"><span class=\"terminal-trace-name\">");
        push_str(&mut r, escape_html(name).as_str());
        push_str(&mut r, "</span><span class=\"terminal-trace-duration\">");
        push_str(&mut r, decimal_string(duration_ms).as_str());
        push_str(&mut r, " ms</span></div><div class=\"terminal-trace-details\">Started: ");
        push_str(&mut r, escape_html(start_time).as_str());
        push_str(&mut r, ", Status: ");
        push_str(&mut r, escape_html(status).as_str());
        push_str(&mut r, "</div>");
        if metadata.len() > 0 {
            push_str(&mut r, "<div class=\"terminal-trace-metadata\">");
            push_str(&mut r, metadata_to_html(metadata).as_str());
            push_str(&mut r, "</div>");
        }
        push_str(&mut r, "</div>");
        Ok(r)
    }

    fn render_raw(&self, content: &str) -> (r: Result<String, Error>) {
        let mut r = String::new();
        push_str(&mut r, content);
        Ok(r)
    }
}

impl PageRenderer for HtmlRenderer {
    open spec fn page_ok(&self, name: Seq<char>, blocks: Seq<Node>, out: Seq<char>) -> bool {
        out == page_html(name, strings_view(self.additional_classes@), self.include_inline_css, blocks_text(self, blocks))
    }

    fn render_template(&self, template_data: &TemplateData) -> (r: Result<String, Error>)
        ensures
            r matches Ok(s) && s@ == page_html(
                template_data.template_name@,
                strings_view(self.additional_classes@),
                self.include_inline_css,
                blocks_text(self, blocks_view(template_data.blocks@)),
            ),
    {
        let content = match render_slice_with(self, template_data.blocks.as_slice()) {
            Ok(c) => c,
            Err(e) => return Err(e),
        };
        Ok(self.wrap_page(template_data.template_name.as_str(), content.as_str()))
    }

    fn render_metrics(&self, metrics: &[Metric]) -> (r: Result<String, Error>)
        ensures
            r matches Ok(s) && s@ == blocks_text(self, metric_nodes(metrics@)),
    {
        let blocks = metrics_to_blocks(metrics);
        render_slice_with(self, blocks.as_slice())
    }

    fn render_logs(&self, logs: &[LogEntry]) -> (r: Result<String, Error>)
        ensures
            r matches Ok(s) && s@ == blocks_text(self, log_nodes(logs@)),
    {
        let blocks = logs_to_blocks(logs);
        render_slice_with(self, blocks.as_slice())
    }

    fn render_traces(&self, traces: &[Trace]) -> (r: Result<String, Error>)
        ensures
            r is Ok,
            traces@.len() == 0 ==> r->Ok_0@ == "<div class=\"terminal-empty-message\">No traces available</div>"@,
            traces@.len() > 0 ==> r->Ok_0@ == self.table_text(trace_headers(), trace_rows(traces@)),
    {
        if traces.len() == 0 {
            let mut r = String::new();
            push_str(&mut r, "<div class=\"terminal-empty-message\">No traces available</div>");
            return Ok(r);
        }
        let (headers, rows) = traces_to_rows(traces);
        self.render_table(headers.as_slice(), rows.as_slice())
    }
}

} // verus!
