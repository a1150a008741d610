//! Properties that relate several functions of the library, proved over the
//! models that their contracts speak of.
use vstd::prelude::*;
use crate::binder::{
    TemplateContext, bind_node, bind_nodes, bind_nodes_upto, count_comment, log_section, metric_nodes, trace_nodes,
};
use crate::block::Node;
use crate::engine::{Template, cached, template_view};
use crate::renderer::{Renderer, block_text, blocks_text, blocks_text_upto};
use crate::strings::{decimal, trim_seq};
use crate::storage::contains_seq;
use crate::parser::starts_with;
use crate::html_renderer::{HtmlRenderer, cells_html, escape, rows_html};
use crate::text_renderer::{TextRenderer, cells_line, cells_part, pad, rows_block, table_lines, table_widths};

verus! {

proof fn lemma_blocks_text_prefix<R: Renderer>(r: &R, s: Seq<Node>, b: Node, n: int)
    requires
        0 <= n <= s.len(),
    ensures
        blocks_text_upto(r, s.push(b), n) == blocks_text_upto(r, s, n),
    decreases n,
{
    if n > 0 {
        lemma_blocks_text_prefix(r, s, b, n - 1);
        assert(s.push(b)[n - 1] == s[n - 1]);
    }
}

/// Rendering a sequence of blocks is rendering each block and joining the
/// results in order: nothing for no blocks, and one more block adds its own
/// text at the end. `render_blocks` and `render_block` state their results by
/// these functions, for every renderer.
pub proof fn law_render_blocks_concatenates<R: Renderer>(r: &R, s: Seq<Node>, b: Node)
    ensures
        blocks_text(r, Seq::empty()) == Seq::<char>::empty(),
        blocks_text(r, s.push(b)) == blocks_text(r, s) + block_text(r, b),
{
    lemma_blocks_text_prefix(r, s, b, s.len() as int);
    assert(s.push(b)[s.len() as int] == b);
}

/// Whether the text of a raw block is one of the data directives.
pub open spec fn is_marker(t: Seq<char>) -> bool {
    trim_seq(t) == "@metrics"@ || trim_seq(t) == "@logs"@ || trim_seq(t) == "@traces"@
}

/// No raw block anywhere in the tree is a data directive.
pub open spec fn no_markers(b: Node) -> bool
    decreases b,
{
    match b {
        Node::Raw(t) => !is_marker(t),
        Node::Container(c) => no_markers_upto(c, c.len() as int),
        Node::Frame { title, content } => no_markers_upto(content, content.len() as int),
        Node::Output(c) => no_markers_upto(c, c.len() as int),
        _ => true,
    }
}

pub open spec fn no_markers_upto(s: Seq<Node>, n: int) -> bool
    decreases s, n,
{
    if n <= 0 || n > s.len() {
        true
    } else {
        no_markers_upto(s, n - 1) && no_markers(s[n - 1])
    }
}

proof fn lemma_bind_identity_node(b: Node, ctx: TemplateContext)
    requires
        no_markers(b),
    ensures
        bind_node(b, ctx) == seq![b],
    decreases b,
{
    match b {
        Node::Container(c) => {
            lemma_bind_identity_upto(c, c.len() as int, ctx);
            assert(c.subrange(0, c.len() as int) =~= c);
        },
        Node::Frame { title, content } => {
            lemma_bind_identity_upto(content, content.len() as int, ctx);
            assert(content.subrange(0, content.len() as int) =~= content);
        },
        Node::Output(c) => {
            lemma_bind_identity_upto(c, c.len() as int, ctx);
            assert(c.subrange(0, c.len() as int) =~= c);
        },
        _ => {},
    }
}

proof fn lemma_bind_identity_upto(s: Seq<Node>, n: int, ctx: TemplateContext)
    requires
        0 <= n <= s.len(),
        no_markers_upto(s, n),
    ensures
        bind_nodes_upto(s, n, ctx) == s.subrange(0, n),
    decreases s, n,
{
    if n > 0 {
        lemma_bind_identity_upto(s, n - 1, ctx);
        assert(decreases_to!(s => s[n - 1]));
        lemma_bind_identity_node(s[n - 1], ctx);
        assert(s.subrange(0, n - 1) + seq![s[n - 1]] =~= s.subrange(0, n));
    } else {
        assert(s.subrange(0, 0) =~= Seq::<Node>::empty());
    }
}

/// Binding a tree in which no raw block is a data directive gives the same
/// tree back, whatever the context.
pub proof fn law_bind_without_markers_is_identity(s: Seq<Node>, ctx: TemplateContext)
    requires
        no_markers_upto(s, s.len() as int),
    ensures
        bind_nodes(s, ctx) == s,
{
    lemma_bind_identity_upto(s, s.len() as int, ctx);
    assert(s.subrange(0, s.len() as int) =~= s);
}

/// A template cached under a name is what a later lookup of that name gives,
/// so loading it again needs no new read; and after the cache is cleared no
/// name is found, so the next load reads the source again.
pub proof fn law_cache_hit_and_clear(entries: Seq<(String, Template)>, name: String, t: Template, other: Seq<char>)
    ensures
        cached(entries.push((name, t)), name@) == Some(template_view(t)),
        other != name@ ==> cached(entries.push((name, t)), other) == cached(entries, other),
        cached(Seq::<(String, Template)>::empty(), other) is None,
{
    assert(entries.push((name, t)).drop_last() =~= entries);
}


proof fn lemma_no_markers_all(s: Seq<Node>, n: int)
    requires
        0 <= n <= s.len(),
    ensures
        no_markers_upto(s, n) <==> forall|i: int| 0 <= i < n ==> no_markers(#[trigger] s[i]),
    decreases n,
{
    if n > 0 {
        lemma_no_markers_all(s, n - 1);
    }
}

pub open spec fn has_no_at(s: Seq<char>) -> bool {
    forall|k: int| 0 <= k < s.len() ==> #[trigger] s[k] != '@'
}

/// Text without `@` trims to no data directive, since each begins with `@`.
proof fn lemma_no_at_not_marker(s: Seq<char>)
    requires
        has_no_at(s),
    ensures
        !is_marker(s),
{
    reveal_strlit("@metrics");
    reveal_strlit("@logs");
    reveal_strlit("@traces");
    let tr = trim_seq(s);
    let a = crate::strings::skip_space(s, 0);
    let b = crate::strings::trim_back(s, s.len() as int);
    crate::strings::lemma_skip_space_range(s, 0);
    crate::strings::lemma_trim_back_range(s, s.len() as int);
    if a < b {
        assert(tr == s.subrange(a, b));
        assert(tr[0] == s[a]);
    } else {
        assert(tr.len() == 0);
    }
    assert("@metrics"@[0] == '@');
    assert("@logs"@[0] == '@');
    assert("@traces"@[0] == '@');
}

/// The comment that heads an expanded directive holds no `@`.
proof fn lemma_comment_no_at(label: Seq<char>, n: nat)
    requires
        label == "Metrics"@ || label == "Logs"@ || label == "Traces"@,
    ensures
        has_no_at(count_comment(label, n)),
{
    reveal_strlit("Metrics");
    reveal_strlit("Logs");
    reveal_strlit("Traces");
    reveal_strlit("<!-- ");
    reveal_strlit(": ");
    reveal_strlit(" -->");
    crate::markup::lemma_decimal_digits(n);
    let c = count_comment(label, n);
    let d = decimal(n);
    assert forall|k: int| 0 <= k < c.len() implies #[trigger] c[k] != '@' by {
        let p1 = "<!-- "@.len() as int;
        let p2 = p1 + label.len();
        let p3 = p2 + ": "@.len();
        let p4 = p3 + d.len();
        if k < p1 {
            assert(c[k] == "<!-- "@[k]);
        } else if k < p2 {
            assert(c[k] == label[k - p1]);
        } else if k < p3 {
            assert(c[k] == ": "@[k - p2]);
        } else if k < p4 {
            assert(c[k] == d[k - p3]);
            assert(crate::number::is_digit(d[k - p3]));
        } else {
            assert(c[k] == " -->"@[k - p4]);
        }
    }
}

/// Every block that binding gives holds no data directive anywhere.
proof fn lemma_bind_node_clean(b: Node, ctx: TemplateContext)
    ensures
        forall|i: int| 0 <= i < bind_node(b, ctx).len() ==> no_markers(#[trigger] bind_node(b, ctx)[i]),
    decreases b,
{
    match b {
        Node::Raw(t) => {
            if is_marker(t) {
                let label = if trim_seq(t) == "@metrics"@ {
                    "Metrics"@
                } else if trim_seq(t) == "@logs"@ {
                    "Logs"@
                } else {
                    "Traces"@
                };
                let n: nat = if trim_seq(t) == "@metrics"@ {
                    ctx.metrics@.len()
                } else if trim_seq(t) == "@logs"@ {
                    ctx.logs@.len()
                } else {
                    ctx.traces@.len()
                };
                lemma_comment_no_at(label, n);
                lemma_no_at_not_marker(count_comment(label, n));
                let data = if trim_seq(t) == "@metrics"@ {
                    metric_nodes(ctx.metrics@)
                } else if trim_seq(t) == "@logs"@ {
                    log_section(ctx.logs@)
                } else {
                    trace_nodes(ctx.traces@)
                };
                let out = bind_node(b, ctx);
                assert(out == seq![Node::Raw(count_comment(label, n))] + data);
                assert forall|i: int| 0 <= i < out.len() implies no_markers(#[trigger] out[i]) by {
                    if i > 0 {
                        assert(out[i] == data[i - 1]);
                    }
                }
            }
        },
        Node::Container(c) => {
            lemma_bind_upto_clean(c, c.len() as int, ctx);
            let bc = bind_nodes_upto(c, c.len() as int, ctx);
            lemma_no_markers_all(bc, bc.len() as int);
        },
        Node::Frame { title, content } => {
            lemma_bind_upto_clean(content, content.len() as int, ctx);
            let bc = bind_nodes_upto(content, content.len() as int, ctx);
            lemma_no_markers_all(bc, bc.len() as int);
        },
        Node::Output(c) => {
            lemma_bind_upto_clean(c, c.len() as int, ctx);
            let bc = bind_nodes_upto(c, c.len() as int, ctx);
            lemma_no_markers_all(bc, bc.len() as int);
        },
        _ => {},
    }
}

proof fn lemma_bind_upto_clean(s: Seq<Node>, n: int, ctx: TemplateContext)
    ensures
        forall|i: int| 0 <= i < bind_nodes_upto(s, n, ctx).len() ==> no_markers(#[trigger] bind_nodes_upto(s, n, ctx)[i]),
    decreases s, n,
{
    if n > 0 && n <= s.len() {
        lemma_bind_upto_clean(s, n - 1, ctx);
        assert(decreases_to!(s => s[n - 1]));
        lemma_bind_node_clean(s[n - 1], ctx);
        let a = bind_nodes_upto(s, n - 1, ctx);
        let b = bind_node(s[n - 1], ctx);
        assert forall|i: int| 0 <= i < (a + b).len() implies no_markers(#[trigger] (a + b)[i]) by {
            if i < a.len() {
                assert((a + b)[i] == a[i]);
            } else {
                assert((a + b)[i] == b[i - a.len()]);
            }
        }
    }
}

/// Binding is idempotent: a bound tree holds no data directive, so binding
/// it again, to any context, gives it back unchanged.
pub proof fn law_bind_is_idempotent(s: Seq<Node>, ctx: TemplateContext, ctx2: TemplateContext)
    ensures
        bind_nodes(bind_nodes(s, ctx), ctx2) == bind_nodes(s, ctx),
{
    let bs = bind_nodes(s, ctx);
    lemma_bind_upto_clean(s, s.len() as int, ctx);
    lemma_no_markers_all(bs, bs.len() as int);
    law_bind_without_markers_is_identity(bs, ctx2);
}


proof fn lemma_occurs_shift(a: Seq<char>, x: Seq<char>, b: Seq<char>, y: Seq<char>, i: int)
    requires
        starts_with(x, i, y),
    ensures
        starts_with(a + x + b, a.len() + i, y),
{
    let s = a + x + b;
    assert forall|k: int| 0 <= k < y.len() implies s.subrange(a.len() + i, a.len() + i + y.len())[k] == y[k] by {
        assert(s[a.len() + i + k] == x[i + k]);
        assert(x.subrange(i, i + y.len())[k] == x[i + k]);
    }
    assert(s.subrange(a.len() + i, a.len() + i + y.len()) =~= y);
}

/// What occurs in `x` occurs in `a + x + b`.
proof fn lemma_contains_mid(a: Seq<char>, x: Seq<char>, b: Seq<char>, y: Seq<char>)
    requires
        contains_seq(x, y),
    ensures
        contains_seq(a + x + b, y),
{
    let i = choose|i: int| starts_with(x, i, y);
    lemma_occurs_shift(a, x, b, y, i);
}

proof fn lemma_contains_self(y: Seq<char>)
    ensures
        contains_seq(y, y),
{
    assert(y.subrange(0, y.len() as int) =~= y);
    assert(starts_with(y, 0, y));
}

#[verifier::rlimit(80)]
proof fn lemma_cells_html_contains(cells: Seq<Seq<char>>, open: Seq<char>, close: Seq<char>, j: int)
    requires
        0 <= j < cells.len(),
    ensures
        contains_seq(cells_html(cells, open, close), open + escape(cells[j]) + close),
    decreases cells.len(),
{
    let item = open + escape(cells[j]) + close;
    let x = cells_html(cells.drop_last(), open, close);
    assert(cells_html(cells, open, close) == x + open + escape(cells.last()) + close);
    if j == cells.len() - 1 {
        lemma_contains_self(item);
        lemma_contains_mid(x, item, Seq::empty(), item);
        assert(x + item + Seq::<char>::empty() =~= cells_html(cells, open, close));
    } else {
        lemma_cells_html_contains(cells.drop_last(), open, close, j);
        assert(cells.drop_last()[j] == cells[j]);
        let last = open + escape(cells.last()) + close;
        lemma_contains_mid(Seq::empty(), x, last, item);
        assert(Seq::<char>::empty() + x + last =~= cells_html(cells, open, close));
    }
}

proof fn lemma_rows_html_contains(rows: Seq<Seq<Seq<char>>>, i: int, j: int)
    requires
        0 <= i < rows.len(),
        0 <= j < rows[i].len(),
    ensures
        contains_seq(rows_html(rows), "<td>"@ + escape(rows[i][j]) + "</td>"@),
    decreases rows.len(),
{
    let item = "<td>"@ + escape(rows[i][j]) + "</td>"@;
    let x = rows_html(rows.drop_last());
    let row = cells_html(rows.last(), "<td>"@, "</td>"@);
    if i == rows.len() - 1 {
        lemma_cells_html_contains(rows.last(), "<td>"@, "</td>"@, j);
        lemma_contains_mid(x + "<tr>"@, row, "</tr>"@, item);
    } else {
        lemma_rows_html_contains(rows.drop_last(), i, j);
        assert(rows.drop_last()[i] == rows[i]);
        lemma_contains_mid(Seq::empty(), x, "<tr>"@ + row + "</tr>"@, item);
        assert(Seq::<char>::empty() + x + ("<tr>"@ + row + "</tr>"@) =~= rows_html(rows));
    }
}

/// An HTML table shows every header and every cell, escaped in its own
/// cell, whatever the number of cells in each row.
pub proof fn law_html_table_shows_every_cell(r: &HtmlRenderer, headers: Seq<Seq<char>>, rows: Seq<Seq<Seq<char>>>)
    ensures
        forall|i: int| 0 <= i < headers.len() ==> contains_seq(r.table_text(headers, rows), "<th>"@ + escape(#[trigger] headers[i]) + "</th>"@),
        forall|i: int, j: int| 0 <= i < rows.len() && 0 <= j < rows[i].len() ==> contains_seq(
            r.table_text(headers, rows),
            "<td>"@ + escape(#[trigger] rows[i][j]) + "</td>"@,
        ),
{
    let before = "<table class=\"terminal-table\"><thead>"@;
    let hr = if headers.len() > 0 { "<tr>"@ + cells_html(headers, "<th>"@, "</th>"@) + "</tr>"@ } else { Seq::empty() };
    let mid = "</thead><tbody>"@;
    let body = rows_html(rows);
    let after = "</tbody></table>"@;
    assert(r.table_text(headers, rows) == before + hr + mid + body + after);
    assert forall|i: int| 0 <= i < headers.len() implies contains_seq(r.table_text(headers, rows), "<th>"@ + escape(#[trigger] headers[i]) + "</th>"@) by {
        let item = "<th>"@ + escape(headers[i]) + "</th>"@;
        lemma_cells_html_contains(headers, "<th>"@, "</th>"@, i);
        lemma_contains_mid("<tr>"@, cells_html(headers, "<th>"@, "</th>"@), "</tr>"@, item);
        lemma_contains_mid(before, hr, mid + body + after, item);
        assert(before + hr + (mid + body + after) =~= before + hr + mid + body + after);
    }
    assert forall|i: int, j: int| 0 <= i < rows.len() && 0 <= j < rows[i].len() implies contains_seq(
        r.table_text(headers, rows),
        "<td>"@ + escape(#[trigger] rows[i][j]) + "</td>"@,
    ) by {
        let item = "<td>"@ + escape(rows[i][j]) + "</td>"@;
        lemma_rows_html_contains(rows, i, j);
        lemma_contains_mid(before + hr + mid, body, after, item);
    }
}

proof fn lemma_pad_starts(c: Seq<char>, w: int)
    ensures
        contains_seq(pad(c, w), c),
{
    let p = pad(c, w);
    assert(p.subrange(0, c.len() as int) =~= c);
    assert(starts_with(p, 0, c));
}

proof fn lemma_cells_part_contains(cells: Seq<Seq<char>>, ws: Seq<usize>, v: Seq<char>, j: int)
    requires
        0 <= j < cells.len(),
    ensures
        contains_seq(cells_part(cells, ws, v), cells[j]),
    decreases cells.len(),
{
    let x = cells_part(cells.drop_last(), ws, v);
    let w = crate::text_renderer::width_at(ws, cells.len() - 1);
    let pl = pad(cells.last(), w);
    if j == cells.len() - 1 {
        lemma_pad_starts(cells.last(), w);
        lemma_contains_mid(x + " "@, pl, " "@ + v, cells[j]);
        assert(x + " "@ + pl + (" "@ + v) =~= cells_part(cells, ws, v));
    } else {
        lemma_cells_part_contains(cells.drop_last(), ws, v, j);
        assert(cells.drop_last()[j] == cells[j]);
        lemma_contains_mid(Seq::empty(), x, " "@ + pl + " "@ + v, cells[j]);
        assert(Seq::<char>::empty() + x + (" "@ + pl + " "@ + v) =~= cells_part(cells, ws, v));
    }
}

proof fn lemma_cells_line_contains(cells: Seq<Seq<char>>, ws: Seq<usize>, v: Seq<char>, j: int)
    requires
        0 <= j < cells.len(),
    ensures
        contains_seq(cells_line(cells, ws, v), cells[j]),
{
    lemma_cells_part_contains(cells, ws, v, j);
    lemma_contains_mid(v, cells_part(cells, ws, v), "\n"@, cells[j]);
}

proof fn lemma_rows_block_contains(rows: Seq<Seq<Seq<char>>>, ws: Seq<usize>, v: Seq<char>, sep: Seq<char>, i: int, j: int)
    requires
        0 <= i < rows.len(),
        0 <= j < rows[i].len(),
    ensures
        contains_seq(rows_block(rows, ws, v, sep), rows[i][j]),
    decreases rows.len(),
{
    if rows.len() == 1 {
        lemma_cells_line_contains(rows[0], ws, v, j);
    } else {
        let x = rows_block(rows.drop_last(), ws, v, sep);
        let line = cells_line(rows.last(), ws, v);
        if i == rows.len() - 1 {
            lemma_cells_line_contains(rows.last(), ws, v, j);
            lemma_contains_mid(x + sep, line, Seq::empty(), rows[i][j]);
            assert(x + sep + line + Seq::<char>::empty() =~= rows_block(rows, ws, v, sep));
        } else {
            lemma_rows_block_contains(rows.drop_last(), ws, v, sep, i, j);
            assert(rows.drop_last()[i] == rows[i]);
            lemma_contains_mid(Seq::empty(), x, sep + line, rows[i][j]);
            assert(Seq::<char>::empty() + x + (sep + line) =~= rows_block(rows, ws, v, sep));
        }
    }
}

/// A text table shows every header and every cell, whatever the number of
/// cells in each row.
pub proof fn law_text_table_shows_every_cell(r: &TextRenderer, headers: Seq<Seq<char>>, rows: Seq<Seq<Seq<char>>>)
    ensures
        forall|i: int| 0 <= i < headers.len() ==> contains_seq(r.table_text(headers, rows), #[trigger] headers[i]),
        forall|i: int, j: int| 0 <= i < rows.len() && 0 <= j < rows[i].len() ==> contains_seq(
            r.table_text(headers, rows),
            #[trigger] rows[i][j],
        ),
{
    let ws = table_widths(headers, rows);
    let ascii = r.ascii_only;
    let hz = crate::text_renderer::glyph_h(ascii);
    let v = crate::text_renderer::glyph_v(ascii);
    let sep = crate::text_renderer::border(
        crate::text_renderer::glyph_tee_right(ascii),
        ws,
        hz,
        crate::text_renderer::glyph_cross(ascii),
        crate::text_renderer::glyph_tee_left(ascii),
    );
    let top = crate::text_renderer::border(
        crate::text_renderer::glyph_tl(ascii),
        ws,
        hz,
        crate::text_renderer::glyph_tee_down(ascii),
        crate::text_renderer::glyph_tr(ascii),
    );
    let bottom = crate::text_renderer::border(
        crate::text_renderer::glyph_bl(ascii),
        ws,
        hz,
        crate::text_renderer::glyph_tee_up(ascii),
        crate::text_renderer::glyph_br(ascii),
    );
    let head = if headers.len() > 0 { cells_line(headers, ws, v) + sep } else { Seq::empty() };
    let body = rows_block(rows, ws, v, sep);
    assert forall|i: int| 0 <= i < headers.len() implies contains_seq(r.table_text(headers, rows), #[trigger] headers[i]) by {
        assert(r.table_text(headers, rows) == top + head + body + bottom);
        lemma_cells_line_contains(headers, ws, v, i);
        lemma_contains_mid(Seq::empty(), cells_line(headers, ws, v), sep, headers[i]);
        assert(Seq::<char>::empty() + cells_line(headers, ws, v) + sep =~= head);
        lemma_contains_mid(top, head, body + bottom, headers[i]);
        assert(top + head + (body + bottom) =~= top + head + body + bottom);
    }
    assert forall|i: int, j: int| 0 <= i < rows.len() && 0 <= j < rows[i].len() implies contains_seq(
        r.table_text(headers, rows),
        #[trigger] rows[i][j],
    ) by {
        assert(r.table_text(headers, rows) == top + head + body + bottom);
        lemma_rows_block_contains(rows, ws, v, sep, i, j);
        lemma_contains_mid(top + head, body, bottom, rows[i][j]);
    }
}

} // verus!
