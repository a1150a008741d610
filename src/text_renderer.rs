//! The plain-text renderer: underlined headings, wrapped paragraphs, and
//! frames and tables drawn with box characters (or ASCII).
use vstd::prelude::*;
use crate::binder::{log_nodes, logs_to_blocks, metric_nodes, metrics_to_blocks, trace_headers, trace_rows, traces_to_rows};
use crate::block::{Node, TemplateData, Trend, blocks_view, pairs_view, rows_view, strings_view};
use crate::error::Error;
use crate::models::{LogEntry, Metric, Trace, same_text};
use crate::number::{check_trend, trend_sign};
use crate::renderer::{PageRenderer, Renderer, blocks_text, render_slice_with};
use crate::strings::{
    chars_of, decimal, decimal_string, is_space, is_whitespace, lemma_skip_space_range, push_char, push_str,
    repeat, repeat_seq, skip_space, string_of, to_uppercase, upper_of,
};

verus! {

/// The column width used when none is given.
pub const DEFAULT_TERMINAL_WIDTH: usize = 80;

/// `a - b`, or zero when `b` is larger.
pub open spec fn sat_sub(a: int, b: int) -> int {
    if a > b { a - b } else { 0 }
}

/// The index of the first white space at or after `q`, or the length.
pub open spec fn word_end(s: Seq<char>, q: int) -> int
    decreases s.len() - q,
{
    if q < 0 || q >= s.len() {
        s.len() as int
    } else if is_space(s[q]) {
        q
    } else {
        word_end(s, q + 1)
    }
}

/// The words of `s` from `q` on: its maximal runs without white space (what
/// `str::split_whitespace` gives).
pub open spec fn words_from(s: Seq<char>, q: int) -> Seq<Seq<char>>
    decreases s.len() - q,
{
    let a = skip_space(s, q);
    if q < 0 || q > s.len() || a >= s.len() || a < q {
        Seq::empty()
    } else {
        let b = word_end(s, a);
        if b <= a || b > s.len() {
            Seq::empty()
        } else {
            seq![s.subrange(a, b)] + words_from(s, b)
        }
    }
}

pub open spec fn words(s: Seq<char>) -> Seq<Seq<char>> {
    words_from(s, 0)
}

proof fn lemma_word_end_range(s: Seq<char>, q: int)
    requires
        0 <= q <= s.len(),
    ensures
        q <= word_end(s, q) <= s.len(),
        forall|k: int| q <= k < word_end(s, q) ==> !is_space(#[trigger] s[k]),
    decreases s.len() - q,
{
    if q < s.len() && !is_space(s[q]) {
        lemma_word_end_range(s, q + 1);
    }
}

/// One step of the greedy wrap: the text so far, the open line, whether a
/// word has been placed, and the next word. The open line is closed when the
/// word would not fit on it; a new line starts with `indent` spaces.
pub open spec fn wrap_step(st: (Seq<char>, Seq<char>, bool), word: Seq<char>, avail: int, indent: nat) -> (Seq<char>, Seq<char>, bool) {
    let res = st.0;
    let line = st.1;
    if st.2 && line.len() + word.len() + 1 > avail {
        (res + line + seq!['\n'], repeat_seq(" "@, indent) + word, true)
    } else if st.2 {
        (res, line.push(' ') + word, true)
    } else {
        (res, line + word, true)
    }
}

pub open spec fn wrap_fold(ws: Seq<Seq<char>>, n: int, avail: int, indent: nat) -> (Seq<char>, Seq<char>, bool)
    decreases n,
{
    if n <= 0 || n > ws.len() {
        (Seq::empty(), Seq::empty(), false)
    } else {
        wrap_step(wrap_fold(ws, n - 1, avail, indent), ws[n - 1], avail, indent)
    }
}

/// The words of `text` wrapped greedily to `width` columns less `indent`,
/// continuation lines starting with `indent` spaces.
pub open spec fn wrap(text: Seq<char>, indent: nat, width: nat) -> Seq<char> {
    let avail = sat_sub(width as int, indent as int);
    let st = wrap_fold(words(text), words(text).len() as int, avail, indent);
    if st.2 {
        st.0 + st.1
    } else {
        st.0
    }
}

/// The index of the first line feed at or after `q`, or the length.
pub open spec fn line_end(s: Seq<char>, q: int) -> int
    decreases s.len() - q,
{
    if q < 0 || q >= s.len() {
        s.len() as int
    } else if s[q] == '\n' {
        q
    } else {
        line_end(s, q + 1)
    }
}

pub open spec fn strip_cr(p: Seq<char>) -> Seq<char> {
    if p.len() > 0 && p.last() == '\r' {
        p.drop_last()
    } else {
        p
    }
}

/// The lines of `s` from `q` on (what `str::lines` gives): split at each line
/// feed, a carriage return before it dropped, no empty line after a final one.
pub open spec fn lines_from(s: Seq<char>, q: int) -> Seq<Seq<char>>
    decreases s.len() - q,
{
    if q < 0 || q >= s.len() {
        Seq::empty()
    } else {
        let e = line_end(s, q);
        if e >= s.len() || e < q {
            seq![s.subrange(q, s.len() as int)]
        } else {
            seq![strip_cr(s.subrange(q, e))] + lines_from(s, e + 1)
        }
    }
}

pub open spec fn lines(s: Seq<char>) -> Seq<Seq<char>> {
    lines_from(s, 0)
}

proof fn lemma_line_end_range(s: Seq<char>, q: int)
    requires
        0 <= q <= s.len(),
    ensures
        q <= line_end(s, q) <= s.len(),
    decreases s.len() - q,
{
    if q < s.len() && s[q] != '\n' {
        lemma_line_end_range(s, q + 1);
    }
}

/// The words of a text, in order.
pub fn split_words(text: &str) -> (r: Vec<String>)
    ensures
        strings_view(r@) == words(text@),
{
    let s = chars_of(text);
    let n = s.len();
    let mut r: Vec<String> = Vec::new();
    let mut q: usize = 0;
    proof {
        assert(strings_view(r@) + words_from(s@, 0) =~= words_from(s@, 0));
    }
    while q < n
        invariant
            q <= n == s@.len(),
            s@ == text@,
            words(text@) == strings_view(r@) + words_from(s@, q as int),
        decreases n - q,
    {
        let mut a = q;
        while a < n && is_whitespace(s[a])
            invariant
                q <= a <= n == s@.len(),
                skip_space(s@, q as int) == skip_space(s@, a as int),
            decreases n - a,
        {
            a += 1;
        }
        if a >= n {
            assert(words_from(s@, q as int) =~= Seq::<Seq<char>>::empty());
            assert(skip_space(s@, n as int) == n);
            assert(words_from(s@, n as int) =~= Seq::<Seq<char>>::empty());
            q = n;
        } else {
            let mut b = a;
            while b < n && !is_whitespace(s[b])
                invariant
                    a <= b <= n == s@.len(),
                    word_end(s@, a as int) == word_end(s@, b as int),
                decreases n - b,
            {
                b += 1;
            }
            proof {
                assert(skip_space(s@, a as int) == a);
                assert(b > a);
            }
            let ghost old_r = r@;
            r.push(string_of(s.as_slice(), a, b));
            proof {
                assert(strings_view(r@) =~= strings_view(old_r).push(s@.subrange(a as int, b as int)));
                assert(strings_view(r@) + words_from(s@, b as int) =~= strings_view(old_r) + (seq![s@.subrange(a as int, b as int)] + words_from(s@, b as int)));
            }
            q = b;
        }
    }
    proof {
        assert(skip_space(s@, q as int) == q);
        assert(words_from(s@, q as int) =~= Seq::<Seq<char>>::empty());
        assert(strings_view(r@) + Seq::<Seq<char>>::empty() =~= strings_view(r@));
    }
    r
}

/// The lines of a text, in order (what `str::lines` gives).
pub fn split_lines(text: &str) -> (r: Vec<String>)
    ensures
        strings_view(r@) == lines(text@),
{
    let s = chars_of(text);
    let n = s.len();
    let mut r: Vec<String> = Vec::new();
    let mut q: usize = 0;
    proof {
        assert(strings_view(r@) + lines_from(s@, 0) =~= lines_from(s@, 0));
    }
    while q < n
        invariant
            q <= n == s@.len(),
            s@ == text@,
            lines(text@) == strings_view(r@) + lines_from(s@, q as int),
        decreases n - q,
    {
        let mut e = q;
        while e < n && s[e] != '\n'
            invariant
                q <= e <= n == s@.len(),
                line_end(s@, q as int) == line_end(s@, e as int),
            decreases n - e,
        {
            e += 1;
        }
        let ghost old_r = r@;
        if e >= n {
            r.push(string_of(s.as_slice(), q, n));
            proof {
                assert(strings_view(r@) =~= strings_view(old_r).push(s@.subrange(q as int, n as int)));
                assert(lines_from(s@, q as int) == seq![s@.subrange(q as int, n as int)]);
                assert(strings_view(r@) + Seq::<Seq<char>>::empty() =~= strings_view(old_r) + lines_from(s@, q as int));
                assert(lines_from(s@, n as int) =~= Seq::<Seq<char>>::empty());
            }
            q = n;
        } else {
            let end = if e > q && s[e - 1] == '\r' { e - 1 } else { e };
            r.push(string_of(s.as_slice(), q, end));
            proof {
                let piece = s@.subrange(q as int, e as int);
                if e > q && s@[e - 1] == '\r' {
                    assert(piece.last() == s@[e - 1]);
                    assert(piece.drop_last() =~= s@.subrange(q as int, end as int));
                } else {
                    assert(piece =~= s@.subrange(q as int, end as int));
                }
                assert(strings_view(r@) =~= strings_view(old_r).push(strip_cr(piece)));
                assert(strings_view(r@) + lines_from(s@, e + 1) =~= strings_view(old_r) + (seq![strip_cr(piece)] + lines_from(s@, e + 1)));
            }
            q = e + 1;
        }
    }
    proof {
        assert(lines_from(s@, q as int) =~= Seq::<Seq<char>>::empty());
        assert(strings_view(r@) + Seq::<Seq<char>>::empty() =~= strings_view(r@));
    }
    r
}

pub open spec fn glyph_h(ascii: bool) -> Seq<char> { if ascii { "-"@ } else { "─"@ } }
pub open spec fn glyph_v(ascii: bool) -> Seq<char> { if ascii { "|"@ } else { "│"@ } }
pub open spec fn glyph_tl(ascii: bool) -> Seq<char> { if ascii { "+"@ } else { "┌"@ } }
pub open spec fn glyph_tr(ascii: bool) -> Seq<char> { if ascii { "+"@ } else { "┐"@ } }
pub open spec fn glyph_bl(ascii: bool) -> Seq<char> { if ascii { "+"@ } else { "└"@ } }
pub open spec fn glyph_br(ascii: bool) -> Seq<char> { if ascii { "+"@ } else { "┘"@ } }
pub open spec fn glyph_cross(ascii: bool) -> Seq<char> { if ascii { "+"@ } else { "┼"@ } }
pub open spec fn glyph_tee_right(ascii: bool) -> Seq<char> { if ascii { "+"@ } else { "├"@ } }
pub open spec fn glyph_tee_left(ascii: bool) -> Seq<char> { if ascii { "+"@ } else { "┤"@ } }
pub open spec fn glyph_tee_down(ascii: bool) -> Seq<char> { if ascii { "+"@ } else { "┬"@ } }
pub open spec fn glyph_tee_up(ascii: bool) -> Seq<char> { if ascii { "+"@ } else { "┴"@ } }

/// The characters that frames and tables are drawn with.
pub struct BoxChars {
    pub horizontal: &'static str,
    pub vertical: &'static str,
    pub top_left: &'static str,
    pub top_right: &'static str,
    pub bottom_left: &'static str,
    pub bottom_right: &'static str,
    pub cross: &'static str,
    pub tee_right: &'static str,
    pub tee_left: &'static str,
    pub tee_down: &'static str,
    pub tee_up: &'static str,
}

/// `b` holds the glyphs of the Unicode (or, with `ascii`, the ASCII) style.
pub open spec fn style_of(b: BoxChars, ascii: bool) -> bool {
    &&& b.horizontal@ == glyph_h(ascii)
    &&& b.vertical@ == glyph_v(ascii)
    &&& b.top_left@ == glyph_tl(ascii)
    &&& b.top_right@ == glyph_tr(ascii)
    &&& b.bottom_left@ == glyph_bl(ascii)
    &&& b.bottom_right@ == glyph_br(ascii)
    &&& b.cross@ == glyph_cross(ascii)
    &&& b.tee_right@ == glyph_tee_right(ascii)
    &&& b.tee_left@ == glyph_tee_left(ascii)
    &&& b.tee_down@ == glyph_tee_down(ascii)
    &&& b.tee_up@ == glyph_tee_up(ascii)
}

impl BoxChars {
    /// Box-drawing characters.
    pub fn unicode() -> (r: BoxChars)
        ensures
            style_of(r, false),
    {
        BoxChars {
            horizontal: "─",
            vertical: "│",
            top_left: "┌",
            top_right: "┐",
            bottom_left: "└",
            bottom_right: "┘",
            cross: "┼",
            tee_right: "├",
            tee_left: "┤",
            tee_down: "┬",
            tee_up: "┴",
        }
    }

    /// `+ - |` in place of every line and corner.
    pub fn ascii() -> (r: BoxChars)
        ensures
            style_of(r, true),
    {
        BoxChars {
            horizontal: "-",
            vertical: "|",
            top_left: "+",
            top_right: "+",
            bottom_left: "+",
            bottom_right: "+",
            cross: "+",
            tee_right: "+",
            tee_left: "+",
            tee_down: "+",
            tee_up: "+",
        }
    }
}

/// Renders documents as plain text for a terminal of a given width.
pub struct TextRenderer {
    pub terminal_width: usize,
    pub ascii_only: bool,
}

/// The widest of some lines, in characters.
pub open spec fn max_len(ls: Seq<Seq<char>>) -> int
    decreases ls.len(),
{
    if ls.len() == 0 {
        0
    } else if max_len(ls.drop_last()) > ls.last().len() {
        max_len(ls.drop_last())
    } else {
        ls.last().len() as int
    }
}

/// The outer width of a frame around these lines and title.
pub open spec fn box_width(ls: Seq<Seq<char>>, title: Option<Seq<char>>, width: nat) -> int {
    let tw: int = match title {
        Some(t) => (t.len() + 2) as int,
        None => 0,
    };
    let m = if max_len(ls) > tw { max_len(ls) } else { tw };
    let cap = sat_sub(width as int, 4);
    (if m < cap { m } else { cap }) + 4
}

/// The body lines of a frame of outer width `bw`.
pub open spec fn box_body(ls: Seq<Seq<char>>, bw: int, ascii: bool) -> Seq<char>
    decreases ls.len(),
{
    if ls.len() == 0 {
        Seq::empty()
    } else {
        box_body(ls.drop_last(), bw, ascii) + glyph_v(ascii) + " "@ + ls.last() + " "@ + repeat_seq(
            " "@,
            sat_sub(sat_sub(bw, ls.last().len() as int), 4) as nat,
        ) + " "@ + glyph_v(ascii) + "\n"@
    }
}

/// A frame around `text`, with the title in its top edge.
pub open spec fn box_text(text: Seq<char>, title: Option<Seq<char>>, width: nat, ascii: bool) -> Seq<char> {
    let ls = lines(text);
    let bw = box_width(ls, title, width);
    let top = match title {
        Some(t) => glyph_tl(ascii) + " "@ + t + " "@ + repeat_seq(glyph_h(ascii), sat_sub(sat_sub(bw, (t.len() + 2) as int), 2) as nat)
            + glyph_tr(ascii),
        None => glyph_tl(ascii) + repeat_seq(glyph_h(ascii), (bw - 2) as nat) + glyph_tr(ascii),
    };
    top + "\n"@ + box_body(ls, bw, ascii) + glyph_bl(ascii) + repeat_seq(glyph_h(ascii), (bw - 2) as nat) + glyph_br(ascii)
}

impl TextRenderer {
    /// A renderer for 80 columns with box-drawing characters.
    pub fn new() -> (r: Self)
        ensures
            r.terminal_width == DEFAULT_TERMINAL_WIDTH,
            !r.ascii_only,
    {
        TextRenderer { terminal_width: DEFAULT_TERMINAL_WIDTH, ascii_only: false }
    }

    /// The same renderer for another width.
    pub fn with_width(self, width: usize) -> (r: Self)
        ensures
            r.terminal_width == width,
            r.ascii_only == self.ascii_only,
    {
        TextRenderer { terminal_width: width, ascii_only: self.ascii_only }
    }

    /// The same renderer with ASCII-only frames and tables on or off.
    pub fn with_ascii_only(self, ascii_only: bool) -> (r: Self)
        ensures
            r.terminal_width == self.terminal_width,
            r.ascii_only == ascii_only,
    {
        TextRenderer { terminal_width: self.terminal_width, ascii_only }
    }

    /// The glyphs of this renderer's style.
    pub fn box_chars(&self) -> (r: BoxChars)
        ensures
            style_of(r, self.ascii_only),
    {
        if self.ascii_only {
            BoxChars::ascii()
        } else {
            BoxChars::unicode()
        }
    }

    /// `text` wrapped to this renderer's width (see `wrap`).
    pub fn wrap_text(&self, text: &str, indent: usize) -> (r: String)
        ensures
            r@ == wrap(text@, indent as nat, self.terminal_width as nat),
    {
        let avail: usize = if self.terminal_width > indent { self.terminal_width - indent } else { 0 };
        let ws = split_words(text);
        let ghost wv = words(text@);
        let mut res = String::new();
        let mut line = String::new();
        let mut started = false;
        let mut cw: u128 = 0;
        let mut i: usize = 0;
        while i < ws.len()
            invariant
                i <= ws@.len(),
                strings_view(ws@) == wv,
                wv == words(text@),
                avail as int == sat_sub(self.terminal_width as int, indent as int),
                (res@, line@, started) == wrap_fold(wv, i as int, avail as int, indent as nat),
                cw as int == line@.len(),
                cw <= avail as u128 + indent as u128 + 1 + usize::MAX as u128,
            decreases ws.len() - i,
        {
            let word = chars_of(ws[i].as_str());
            let ww = word.len() as u128;
            proof {
                assert(wv[i as int] == ws@[i as int]@);
            }
            let ghost prev = (res@, line@, started);
            if started && cw + ww + 1 > avail as u128 {
                push_str(&mut res, line.as_str());
                push_char(&mut res, '\n');
                line = repeat(" ", indent);
                proof {
                    reveal_strlit(" ");
                    crate::strings::lemma_repeat_len(" "@, indent as nat);
                }
                push_str(&mut line, ws[i].as_str());
                cw = indent as u128 + ww;
            } else if started {
                push_char(&mut line, ' ');
                push_str(&mut line, ws[i].as_str());
                cw = cw + 1 + ww;
            } else {
                push_str(&mut line, ws[i].as_str());
                cw = cw + ww;
                started = true;
            }
            proof {
                assert(wrap_fold(wv, i + 1, avail as int, indent as nat) == wrap_step(prev, wv[i as int], avail as int, indent as nat));
            }
            i += 1;
        }
        if started {
            push_str(&mut res, line.as_str());
        }
        res
    }

    /// A frame around `text`, with the title in its top edge.
    pub fn create_box(&self, text: &str, title: Option<&str>) -> (r: String)
        ensures
            r@ == box_text(text@, crate::renderer::opt_str_view(title), self.terminal_width as nat, self.ascii_only),
    {
        let bc = self.box_chars();
        let ls = split_lines(text);
        let ghost lv = lines(text@);
        let mut max_w: usize = 0;
        let mut i: usize = 0;
        while i < ls.len()
            invariant
                i <= ls@.len(),
                strings_view(ls@) == lv,
                max_w as int == max_len(lv.subrange(0, i as int)),
            decreases ls.len() - i,
        {
            let w = chars_of(ls[i].as_str()).len();
            proof {
                let p = lv.subrange(0, i + 1);
                assert(p.drop_last() =~= lv.subrange(0, i as int));
                assert(p.last() == ls@[i as int]@);
            }
            if w > max_w {
                max_w = w;
            }
            i += 1;
        }
        assert(lv.subrange(0, lv.len() as int) =~= lv);
        let title_w: u128 = match title {
            Some(t) => chars_of(t).len() as u128 + 2,
            None => 0,
        };
        let m: u128 = if max_w as u128 > title_w { max_w as u128 } else { title_w };
        let cap: usize = if self.terminal_width > 4 { self.terminal_width - 4 } else { 0 };
        let inner: usize = if m < cap as u128 { m as usize } else { cap };
        let bw: usize = inner + 4;
        let mut r = String::new();
        push_str(&mut r, bc.top_left);
        match title {
            Some(t) => {
                push_str(&mut r, " ");
                push_str(&mut r, t);
                push_str(&mut r, " ");
                let tl = chars_of(t).len() as u128 + 2;
                let first: usize = if bw as u128 > tl { (bw as u128 - tl) as usize } else { 0 };
                let pad: usize = if first > 2 { first - 2 } else { 0 };
                push_str(&mut r, repeat(bc.horizontal, pad).as_str());
            },
            None => {
                push_str(&mut r, repeat(bc.horizontal, bw - 2).as_str());
            },
        }
        push_str(&mut r, bc.top_right);
        push_str(&mut r, "\n");
        let mut body = String::new();
        let mut j: usize = 0;
        while j < ls.len()
            invariant
                j <= ls@.len(),
                strings_view(ls@) == lv,
                style_of(bc, self.ascii_only),
                body@ == box_body(lv.subrange(0, j as int), bw as int, self.ascii_only),
            decreases ls.len() - j,
        {
            proof {
                let p = lv.subrange(0, j + 1);
                assert(p.drop_last() =~= lv.subrange(0, j as int));
                assert(p.last() == ls@[j as int]@);
            }
            let lw = chars_of(ls[j].as_str()).len();
            let first: usize = if bw > lw { bw - lw } else { 0 };
            let pad: usize = if first > 4 { first - 4 } else { 0 };
            push_str(&mut body, bc.vertical);
            push_str(&mut body, " ");
            push_str(&mut body, ls[j].as_str());
            push_str(&mut body, " ");
            push_str(&mut body, repeat(" ", pad).as_str());
            push_str(&mut body, " ");
            push_str(&mut body, bc.vertical);
            push_str(&mut body, "\n");
            j += 1;
        }
        push_str(&mut r, body.as_str());
        push_str(&mut r, bc.bottom_left);
        push_str(&mut r, repeat(bc.horizontal, bw - 2).as_str());
        push_str(&mut r, bc.bottom_right);
        r
    }
}

/// The length of the longest row.
pub open spec fn max_row_len(rows: Seq<Seq<Seq<char>>>) -> int
    decreases rows.len(),
{
    if rows.len() == 0 {
        0
    } else if max_row_len(rows.drop_last()) > rows.last().len() {
        max_row_len(rows.drop_last())
    } else {
        rows.last().len() as int
    }
}

/// The number of columns: that of the headers or of the longest row.
pub open spec fn column_count(headers: Seq<Seq<char>>, rows: Seq<Seq<Seq<char>>>) -> int {
    if headers.len() > max_row_len(rows) { headers.len() as int } else { max_row_len(rows) }
}

/// The width of cell `i` of a row, zero where the row has no such cell.
pub open spec fn cell_len_at(row: Seq<Seq<char>>, i: int) -> int {
    if 0 <= i < row.len() { row[i].len() as int } else { 0 }
}

pub open spec fn rows_col_max(rows: Seq<Seq<Seq<char>>>, i: int) -> int
    decreases rows.len(),
{
    if rows.len() == 0 {
        0
    } else if rows_col_max(rows.drop_last(), i) > cell_len_at(rows.last(), i) {
        rows_col_max(rows.drop_last(), i)
    } else {
        cell_len_at(rows.last(), i)
    }
}

/// The width of column `i`: its widest cell among the headers and all rows.
pub open spec fn col_width(headers: Seq<Seq<char>>, rows: Seq<Seq<Seq<char>>>, i: int) -> int {
    if cell_len_at(headers, i) > rows_col_max(rows, i) { cell_len_at(headers, i) } else { rows_col_max(rows, i) }
}

pub open spec fn width_at(ws: Seq<usize>, i: int) -> int {
    if 0 <= i < ws.len() { ws[i] as int } else { 0 }
}

/// A horizontal rule: each column's width plus two, joined by `mid`.
pub open spec fn rule(ws: Seq<usize>, hz: Seq<char>, mid: Seq<char>) -> Seq<char>
    decreases ws.len(),
{
    if ws.len() == 0 {
        Seq::empty()
    } else if ws.len() == 1 {
        repeat_seq(hz, (ws[0] + 2) as nat)
    } else {
        rule(ws.drop_last(), hz, mid) + mid + repeat_seq(hz, (ws.last() + 2) as nat)
    }
}

pub open spec fn border(left: Seq<char>, ws: Seq<usize>, hz: Seq<char>, mid: Seq<char>, right: Seq<char>) -> Seq<char> {
    left + rule(ws, hz, mid) + right + "\n"@
}

/// `c` padded with spaces to `w` characters.
pub open spec fn pad(c: Seq<char>, w: int) -> Seq<char> {
    if c.len() < w { c + repeat_seq(" "@, (w - c.len()) as nat) } else { c }
}

pub open spec fn cells_part(cells: Seq<Seq<char>>, ws: Seq<usize>, v: Seq<char>) -> Seq<char>
    decreases cells.len(),
{
    if cells.len() == 0 {
        Seq::empty()
    } else {
        cells_part(cells.drop_last(), ws, v) + " "@ + pad(cells.last(), width_at(ws, cells.len() - 1)) + " "@ + v
    }
}

/// One table line: each cell padded to its column, between vertical bars.
pub open spec fn cells_line(cells: Seq<Seq<char>>, ws: Seq<usize>, v: Seq<char>) -> Seq<char> {
    v + cells_part(cells, ws, v) + "\n"@
}

/// The lines of the rows, with a separator between each two.
pub open spec fn rows_block(rows: Seq<Seq<Seq<char>>>, ws: Seq<usize>, v: Seq<char>, sep: Seq<char>) -> Seq<char>
    decreases rows.len(),
{
    if rows.len() == 0 {
        Seq::empty()
    } else if rows.len() == 1 {
        cells_line(rows[0], ws, v)
    } else {
        rows_block(rows.drop_last(), ws, v, sep) + sep + cells_line(rows.last(), ws, v)
    }
}

/// `ws` holds the column widths of this table.
pub open spec fn widths_of(ws: Seq<usize>, headers: Seq<Seq<char>>, rows: Seq<Seq<Seq<char>>>) -> bool {
    &&& ws.len() == column_count(headers, rows)
    &&& forall|i: int| 0 <= i < ws.len() ==> #[trigger] ws[i] as int == col_width(headers, rows, i)
}

/// The column widths of a table.
pub open spec fn table_widths(headers: Seq<Seq<char>>, rows: Seq<Seq<Seq<char>>>) -> Seq<usize> {
    Seq::new(column_count(headers, rows) as nat, |i: int| col_width(headers, rows, i) as usize)
}

/// A table drawn with the glyphs of a style; empty when it has neither headers nor rows.
pub open spec fn table_lines(headers: Seq<Seq<char>>, rows: Seq<Seq<Seq<char>>>, ws: Seq<usize>, ascii: bool) -> Seq<char> {
    if headers.len() == 0 && rows.len() == 0 {
        Seq::empty()
    } else {
        let hz = glyph_h(ascii);
        let v = glyph_v(ascii);
        let sep = border(glyph_tee_right(ascii), ws, hz, glyph_cross(ascii), glyph_tee_left(ascii));
        let head = if headers.len() > 0 { cells_line(headers, ws, v) + sep } else { Seq::empty() };
        border(glyph_tl(ascii), ws, hz, glyph_tee_down(ascii), glyph_tr(ascii)) + head + rows_block(rows, ws, v, sep)
            + border(glyph_bl(ascii), ws, hz, glyph_tee_up(ascii), glyph_br(ascii))
    }
}

/// The character count of a string.
fn char_count(s: &str) -> (r: usize)
    ensures
        r as int == s@.len(),
        r <= isize::MAX,
{
    chars_of(s).len()
}

/// The width of every column of a table.
fn column_widths(headers: &[String], rows: &[Vec<String>]) -> (r: Vec<usize>)
    ensures
        widths_of(r@, strings_view(headers@), rows_view(rows@)),
        forall|i: int| 0 <= i < r@.len() ==> #[trigger] r@[i] <= isize::MAX,
{
    let ghost h = strings_view(headers@);
    let ghost rv = rows_view(rows@);
    let mut n = headers.len();
    let mut k: usize = 0;
    while k < rows.len()
        invariant
            k <= rows@.len(),
            rv == rows_view(rows@),
            n as int == (if h.len() > max_row_len(rv.subrange(0, k as int)) { h.len() as int } else { max_row_len(rv.subrange(0, k as int)) }),
        decreases rows.len() - k,
    {
        proof {
            let p = rv.subrange(0, k + 1);
            assert(p.drop_last() =~= rv.subrange(0, k as int));
            assert(p.last() == strings_view(rows@[k as int]@));
        }
        if rows[k].len() > n {
            n = rows[k].len();
        }
        k += 1;
    }
    assert(rv.subrange(0, rv.len() as int) =~= rv);
    let mut ws: Vec<usize> = Vec::new();
    let mut i: usize = 0;
    while i < n
        invariant
            i <= n,
            n as int == column_count(h, rv),
            h == strings_view(headers@),
            rv == rows_view(rows@),
            ws@.len() == i,
            forall|j: int| 0 <= j < i ==> #[trigger] ws@[j] as int == col_width(h, rv, j),
            forall|j: int| 0 <= j < i ==> #[trigger] ws@[j] <= isize::MAX,
        decreases n - i,
    {
        let mut w: usize = if i < headers.len() { char_count(headers[i].as_str()) } else { 0 };
        let mut k: usize = 0;
        while k < rows.len()
            invariant
                k <= rows@.len(),
                rv == rows_view(rows@),
                h == strings_view(headers@),
                w <= isize::MAX,
                w as int == (if cell_len_at(h, i as int) > rows_col_max(rv.subrange(0, k as int), i as int) {
                    cell_len_at(h, i as int)
                } else {
                    rows_col_max(rv.subrange(0, k as int), i as int)
                }),
            decreases rows.len() - k,
        {
            proof {
                let p = rv.subrange(0, k + 1);
                assert(p.drop_last() =~= rv.subrange(0, k as int));
                assert(p.last() == strings_view(rows@[k as int]@));
            }
            if i < rows[k].len() {
                let c = char_count(rows[k][i].as_str());
                if c > w {
                    w = c;
                }
            }
            k += 1;
        }
        assert(rv.subrange(0, rv.len() as int) =~= rv);
        ws.push(w);
        i += 1;
    }
    ws
}

/// A horizontal rule with the given end and joint glyphs.
fn border_line(ws: &Vec<usize>, left: &str, hz: &str, mid: &str, right: &str) -> (r: String)
    requires
        forall|i: int| 0 <= i < ws@.len() ==> #[trigger] ws@[i] <= isize::MAX,
    ensures
        r@ == border(left@, ws@, hz@, mid@, right@),
{
    let mut r = String::new();
    push_str(&mut r, left);
    let mut body = String::new();
    let mut i: usize = 0;
    while i < ws.len()
        invariant
            i <= ws@.len(),
            forall|j: int| 0 <= j < ws@.len() ==> #[trigger] ws@[j] <= isize::MAX,
            body@ == rule(ws@.subrange(0, i as int), hz@, mid@),
        decreases ws.len() - i,
    {
        proof {
            let p = ws@.subrange(0, i + 1);
            assert(p.drop_last() =~= ws@.subrange(0, i as int));
            assert(p.last() == ws@[i as int]);
            if i == 0 {
                assert(p[0] == ws@[0]);
            }
        }
        if i > 0 {
            push_str(&mut body, mid);
        }
        push_str(&mut body, repeat(hz, ws[i] + 2).as_str());
        i += 1;
    }
    assert(ws@.subrange(0, ws@.len() as int) =~= ws@);
    push_str(&mut r, body.as_str());
    push_str(&mut r, right);
    push_str(&mut r, "\n");
    r
}

/// `c` padded with spaces to `w` characters (what `{:<w$}` writes).
fn pad_cell(c: &str, w: usize) -> (r: String)
    ensures
        r@ == pad(c@, w as int),
{
    let n = char_count(c);
    let mut r = String::new();
    push_str(&mut r, c);
    if n < w {
        push_str(&mut r, repeat(" ", w - n).as_str());
    }
    r
}

/// One table line of these cells.
fn cells_line_string(cells: &[String], ws: &Vec<usize>, v: &str) -> (r: String)
    ensures
        r@ == cells_line(strings_view(cells@), ws@, v@),
{
    let mut part = String::new();
    let mut i: usize = 0;
    while i < cells.len()
        invariant
            i <= cells@.len(),
            part@ == cells_part(strings_view(cells@.subrange(0, i as int)), ws@, v@),
        decreases cells.len() - i,
    {
        proof {
            let p = strings_view(cells@.subrange(0, i + 1));
            assert(p.drop_last() =~= strings_view(cells@.subrange(0, i as int)));
            assert(p.last() == cells@[i as int]@);
        }
        let w: usize = if i < ws.len() { ws[i] } else { 0 };
        push_str(&mut part, " ");
        push_str(&mut part, pad_cell(cells[i].as_str(), w).as_str());
        push_str(&mut part, " ");
        push_str(&mut part, v);
        i += 1;
    }
    assert(cells@.subrange(0, cells@.len() as int) =~= cells@);
    let mut r = String::new();
    push_str(&mut r, v);
    push_str(&mut r, part.as_str());
    push_str(&mut r, "\n");
    r
}

impl TextRenderer {
    /// A table drawn in this renderer's style. Rows may have fewer or more
    /// cells than there are headers: each column is as wide as its widest cell.
    pub fn format_table(&self, headers: &[String], rows: &[Vec<String>]) -> (r: String)
        ensures
            r@ == table_lines(
                strings_view(headers@),
                rows_view(rows@),
                table_widths(strings_view(headers@), rows_view(rows@)),
                self.ascii_only,
            ),
    {
        let ws = column_widths(headers, rows);
        assert(ws@ =~= table_widths(strings_view(headers@), rows_view(rows@)));
        if headers.len() == 0 && rows.len() == 0 {
            return String::new();
        }
        let bc = self.box_chars();
        let sep = border_line(&ws, bc.tee_right, bc.horizontal, bc.cross, bc.tee_left);
        let mut r = border_line(&ws, bc.top_left, bc.horizontal, bc.tee_down, bc.top_right);
        if headers.len() > 0 {
            push_str(&mut r, cells_line_string(headers, &ws, bc.vertical).as_str());
            push_str(&mut r, sep.as_str());
        }
        let mut body = String::new();
        let mut k: usize = 0;
        while k < rows.len()
            invariant
                k <= rows@.len(),
                style_of(bc, self.ascii_only),
                body@ == rows_block(rows_view(rows@.subrange(0, k as int)), ws@, bc.vertical@, sep@),
            decreases rows.len() - k,
        {
            proof {
                let p = rows_view(rows@.subrange(0, k + 1));
                assert(p.drop_last() =~= rows_view(rows@.subrange(0, k as int)));
                assert(p.last() == strings_view(rows@[k as int]@));
                if k == 0 {
                    assert(p[0] == strings_view(rows@[0]@));
                }
            }
            if k > 0 {
                push_str(&mut body, sep.as_str());
            }
            push_str(&mut body, cells_line_string(rows[k].as_slice(), &ws, bc.vertical).as_str());
            k += 1;
        }
        assert(rows@.subrange(0, rows@.len() as int) =~= rows@);
        push_str(&mut r, body.as_str());
        push_str(&mut r, border_line(&ws, bc.bottom_left, bc.horizontal, bc.tee_up, bc.bottom_right).as_str());
        r
    }
}

pub open spec fn underline(level: usize) -> Seq<char> {
    if level == 1 { "="@ } else if level == 2 { "-"@ } else { "~"@ }
}

/// The five-character level label of a log line by its upper-cased level.
pub open spec fn level_label(upper: Seq<char>) -> Seq<char> {
    if upper == seq!['D', 'E', 'B', 'U', 'G'] {
        "DEBUG"@
    } else if upper == seq!['W', 'A', 'R', 'N', 'I', 'N', 'G'] || upper == seq!['W', 'A', 'R', 'N'] {
        "WARN "@
    } else if upper == seq!['E', 'R', 'R', 'O', 'R'] {
        "ERROR"@
    } else {
        "INFO "@
    }
}

/// `[x] `.
pub open spec fn br(x: Seq<char>) -> Seq<char> {
    "["@ + x + "] "@
}

pub open spec fn log_prefix(level: Seq<char>, timestamp: Option<Seq<char>>, source: Option<Seq<char>>) -> Seq<char> {
    let ts = match timestamp { Some(t) => br(t), None => Seq::empty() };
    let src = match source { Some(s) => br(s), None => Seq::empty() };
    ts + br(level_label(upper_of(level))) + src
}

/// Lines `1..n` of `ls`, each ended by a line feed; wrapping has already
/// indented them under the first line's text.
pub open spec fn later_lines(ls: Seq<Seq<char>>, n: int) -> Seq<char>
    decreases n,
{
    if n <= 1 || n > ls.len() {
        Seq::empty()
    } else {
        later_lines(ls, n - 1) + ls[n - 1] + "\n"@
    }
}

pub open spec fn trend_mark(trend: Option<Seq<char>>) -> Seq<char> {
    match trend {
        Some(t) => if trend_sign(t) > 0 { " ▲"@ } else if trend_sign(t) < 0 { " ▼"@ } else { ""@ },
        None => ""@,
    }
}

pub open spec fn meta_lines(m: Seq<(Seq<char>, Seq<char>)>) -> Seq<char>
    decreases m.len(),
{
    if m.len() == 0 {
        Seq::empty()
    } else {
        meta_lines(m.drop_last()) + "  "@ + m.last().0 + ": "@ + m.last().1 + "\n"@
    }
}

/// The page around rendered blocks: a title line, and a footer with the time.
pub open spec fn text_page(name: Seq<char>, content: Seq<char>, timestamp: Seq<char>) -> Seq<char> {
    "# "@ + name + "\n\n"@ + content + "\n--- Generated at "@ + timestamp + " ---\n"@
}

fn text(s: &str) -> (r: String)
    ensures
        r@ == s@,
{
    let mut r = String::new();
    push_str(&mut r, s);
    r
}

fn level_label_of(level: &str) -> (r: &'static str)
    ensures
        r@ == level_label(upper_of(level@)),
{
    let u = to_uppercase(level);
    proof {
        assert(['D', 'E', 'B', 'U', 'G']@ =~= seq!['D', 'E', 'B', 'U', 'G']);
        assert(['W', 'A', 'R', 'N', 'I', 'N', 'G']@ =~= seq!['W', 'A', 'R', 'N', 'I', 'N', 'G']);
        assert(['W', 'A', 'R', 'N']@ =~= seq!['W', 'A', 'R', 'N']);
        assert(['E', 'R', 'R', 'O', 'R']@ =~= seq!['E', 'R', 'R', 'O', 'R']);
    }
    let s = u.as_str();
    if same_text(s, &['D', 'E', 'B', 'U', 'G']) {
        "DEBUG"
    } else if same_text(s, &['W', 'A', 'R', 'N', 'I', 'N', 'G']) || same_text(s, &['W', 'A', 'R', 'N']) {
        "WARN "
    } else if same_text(s, &['E', 'R', 'R', 'O', 'R']) {
        "ERROR"
    } else {
        "INFO "
    }
}

fn push_bracketed(r: &mut String, x: &str)
    ensures
        final(r)@ == old(r)@ + br(x@),
{
    push_str(r, "[");
    push_str(r, x);
    push_str(r, "] ");
}

impl TextRenderer {
    /// A whole document as text, with `timestamp` in its footer.
    pub fn render_template_at(&self, template_data: &TemplateData, timestamp: &str) -> (r: Result<String, Error>)
        ensures
            r matches Ok(s) && s@ == text_page(
                template_data.template_name@,
                blocks_text(self, blocks_view(template_data.blocks@)),
                timestamp@,
            ),
    {
        let content = match render_slice_with(self, template_data.blocks.as_slice()) {
            Ok(c) => c,
            Err(e) => return Err(e),
        };
        let mut r = text("# ");
        push_str(&mut r, template_data.template_name.as_str());
        push_str(&mut r, "\n\n");
        push_str(&mut r, content.as_str());
        push_str(&mut r, "\n--- Generated at ");
        push_str(&mut r, timestamp);
        push_str(&mut r, " ---\n");
        Ok(r)
    }
}

impl Default for TextRenderer {
    fn default() -> (r: Self)
        ensures
            r.terminal_width == DEFAULT_TERMINAL_WIDTH,
            !r.ascii_only,
    {
        TextRenderer::new()
    }
}

impl Renderer for TextRenderer {
    open spec fn heading_text(&self, level: usize, text: Seq<char>) -> Seq<char> {
        let l = crate::html_renderer::clamp_level(level);
        text + "\n"@ + if l <= 3 { repeat_seq(underline(l), text.len()) + "\n\n"@ } else { "\n"@ }
    }

    open spec fn paragraph_text(&self, text: Seq<char>) -> Seq<char> {
        wrap(text, 0, self.terminal_width as nat) + "\n\n"@
    }

    open spec fn command_text(&self, command: Seq<char>) -> Seq<char> {
        "$ "@ + command + "\n"@
    }

    open spec fn output_text(&self, content: Seq<char>) -> Seq<char> {
        content + "\n"@
    }

    open spec fn frame_text(&self, title: Option<Seq<char>>, content: Seq<char>) -> Seq<char> {
        box_text(content, title, self.terminal_width as nat, self.ascii_only) + "\n"@
    }

    open spec fn metric_text(&self, name: Seq<char>, value: Seq<char>, unit: Option<Seq<char>>, trend: Option<Seq<char>>) -> Seq<char> {
        let with_unit = match unit {
            Some(u) => value + " "@ + u,
            None => value,
        };
        let formatted = with_unit + trend_mark(trend);
        let padding = sat_sub(sat_sub(sat_sub(self.terminal_width as int, name.len() as int), formatted.len() as int), 3);
        name + ": "@ + repeat_seq(" "@, padding as nat) + formatted + "\n"@
    }

    open spec fn log_text(&self, message: Seq<char>, level: Seq<char>, timestamp: Option<Seq<char>>, source: Option<Seq<char>>) -> Seq<char> {
        let prefix = log_prefix(level, timestamp, source);
        let ls = lines(wrap(message, prefix.len(), self.terminal_width as nat));
        if ls.len() == 0 {
            Seq::empty()
        } else {
            prefix + ls[0] + "\n"@ + later_lines(ls, ls.len() as int)
        }
    }

    open spec fn table_text(&self, headers: Seq<Seq<char>>, rows: Seq<Seq<Seq<char>>>) -> Seq<char> {
        table_lines(headers, rows, table_widths(headers, rows), self.ascii_only)
    }

    open spec fn trace_text(&self, name: Seq<char>, duration_ms: u64, start_time: Seq<char>, status: Seq<char>, metadata: Seq<(Seq<char>, Seq<char>)>) -> Seq<char> {
        let meta = if metadata.len() > 0 { "Metadata:\n"@ + meta_lines(metadata) } else { Seq::empty() };
        name + " ("@ + decimal(duration_ms as nat) + " ms)\n"@ + "Started: "@ + start_time + ", Status: "@ + status
            + "\n"@ + meta
    }

    open spec fn raw_text(&self, content: Seq<char>) -> Seq<char> {
        content
    }

    fn render_heading(&self, level: usize, text: &str) -> (r: Result<String, Error>) {
        let l = crate::html_renderer::clamp_heading_level(level);
        let mut r = String::new();
        push_str(&mut r, text);
        push_str(&mut r, "\n");
        if l <= 3 {
            let u = if l == 1 { "=" } else if l == 2 { "-" } else { "~" };
            push_str(&mut r, repeat(u, char_count(text)).as_str());
            push_str(&mut r, "\n\n");
        } else {
            push_str(&mut r, "\n");
        }
        Ok(r)
    }

    fn render_paragraph(&self, text: &str) -> (r: Result<String, Error>)
        ensures
            (forall|i: int| 0 <= i < words(text@).len() ==> (#[trigger] words(text@)[i]).len()
                <= self.terminal_width) ==> lines_fit(r->Ok_0@, self.terminal_width as int),
    {
        // the wrapper's contract tells the proof below that a line feed is white space
        let _ = is_whitespace('\n');
        proof {
            if (forall|i: int| 0 <= i < words(text@).len() ==> (#[trigger] words(text@)[i]).len()
                <= self.terminal_width) {
                lemma_paragraph_fits(text@, self.terminal_width as nat);
            }
        }
        let mut r = self.wrap_text(text, 0);
        push_str(&mut r, "\n\n");
        Ok(r)
    }

    fn render_command_prompt(&self, command: &str) -> (r: Result<String, Error>) {
        let mut r = String::new();
        push_str(&mut r, "$ ");
        push_str(&mut r, command);
        push_str(&mut r, "\n");
        Ok(r)
    }

    fn wrap_output(&self, content: &str) -> (r: String) {
        let mut r = String::new();
        push_str(&mut r, content);
        push_str(&mut r, "\n");
        r
    }

    fn render_frame(&self, title: Option<&str>, content: &str) -> (r: Result<String, Error>) {
        let mut r = self.create_box(content, title);
        push_str(&mut r, "\n");
        Ok(r)
    }

    fn render_metric(&self, name: &str, value: &str, unit: Option<&str>, trend: Option<&Trend>) -> (r: Result<String, Error>) {
        let mut formatted = String::new();
        push_str(&mut formatted, value);
        match unit {
            Some(u) => {
                push_str(&mut formatted, " ");
                push_str(&mut formatted, u);
            },
            None => {},
        }
        let mark: &str = match trend {
            Some(t) => {
                let (_valid, sign) = check_trend(chars_of(t.text.as_str()).as_slice());
                if sign > 0 { " ▲" } else if sign < 0 { " ▼" } else { "" }
            },
            None => "",
        };
        push_str(&mut formatted, mark);
        let nl = char_count(name);
        let fl = char_count(formatted.as_str());
        let a: usize = if self.terminal_width > nl { self.terminal_width - nl } else { 0 };
        let b: usize = if a > fl { a - fl } else { 0 };
        let padding: usize = if b > 3 { b - 3 } else { 0 };
        let mut r = String::new();
        push_str(&mut r, name);
        push_str(&mut r, ": ");
        push_str(&mut r, repeat(" ", padding).as_str());
        push_str(&mut r, formatted.as_str());
        push_str(&mut r, "\n");
        Ok(r)
    }

    fn render_log_entry(&self, message: &str, level: &str, timestamp: Option<&str>, source: Option<&str>) -> (r: Result<String, Error>) {
        let mut prefix = String::new();
        match timestamp {
            Some(ts) => push_bracketed(&mut prefix, ts),
            None => {},
        }
        push_bracketed(&mut prefix, level_label_of(level));
        match source {
            Some(src) => push_bracketed(&mut prefix, src),
            None => {},
        }
        let indent = char_count(prefix.as_str());
        let wrapped = self.wrap_text(message, indent);
        let ls = split_lines(wrapped.as_str());
        let ghost lv = strings_view(ls@);
        let mut r = String::new();
        if ls.len() == 0 {
            return Ok(r);
        }
        push_str(&mut r, prefix.as_str());
        push_str(&mut r, ls[0].as_str());
        push_str(&mut r, "\n");
        let mut rest = String::new();
        let mut i: usize = 1;
        while i < ls.len()
            invariant
                1 <= i <= ls@.len(),
                lv == strings_view(ls@),
                rest@ == later_lines(lv, i as int),
            decreases ls.len() - i,
        {
            push_str(&mut rest, ls[i].as_str());
            push_str(&mut rest, "\n");
            i += 1;
        }
        push_str(&mut r, rest.as_str());
        Ok(r)
    }

    fn render_table(&self, headers: &[String], rows: &[Vec<String>]) -> (r: Result<String, Error>) {
        Ok(self.format_table(headers, rows))
    }

    fn render_trace(&self, name: &str, duration_ms: u64, start_time: &str, status: &str, metadata: &[(String, String)]) -> (r: Result<String, Error>) {
        let mut r = String::new();
        push_str(&mut r, name);
        push_str(&mut r, " (");
        push_str(&mut r, decimal_string(duration_ms).as_str());
        push_str(&mut r, " ms)\n");
        push_str(&mut r, "Started: ");
        push_str(&mut r, start_time);
        push_str(&mut r, ", Status: ");
        push_str(&mut r, status);
        push_str(&mut r, "\n");
        if metadata.len() > 0 {
            push_str(&mut r, "Metadata:\n");
            let mut m = String::new();
            let mut i: usize = 0;
            while i < metadata.len()
                invariant
                    i <= metadata@.len(),
                    m@ == meta_lines(pairs_view(metadata@.subrange(0, i as int))),
                decreases metadata.len() - i,
            {
                proof {
                    let p = pairs_view(metadata@.subrange(0, i + 1));
                    assert(p.drop_last() =~= pairs_view(metadata@.subrange(0, i as int)));
                    assert(p.last() == (metadata@[i as int].0@, metadata@[i as int].1@));
                }
                push_str(&mut m, "  ");
                push_str(&mut m, metadata[i].0.as_str());
                push_str(&mut m, ": ");
                push_str(&mut m, metadata[i].1.as_str());
                push_str(&mut m, "\n");
                i += 1;
            }
            assert(metadata@.subrange(0, metadata@.len() as int) =~= metadata@);
            push_str(&mut r, m.as_str());
        }
        Ok(r)
    }

    fn render_raw(&self, content: &str) -> (r: Result<String, Error>) {
        Ok(text(content))
    }
}

impl PageRenderer for TextRenderer {
    open spec fn page_ok(&self, name: Seq<char>, blocks: Seq<Node>, out: Seq<char>) -> bool {
        exists|timestamp: Seq<char>| out == text_page(name, blocks_text(self, blocks), timestamp)
    }

    fn render_template(&self, template_data: &TemplateData) -> (r: Result<String, Error>) {
        let now = crate::clock::now_rfc3339();
        let r = self.render_template_at(template_data, now.as_str());
        assert(r matches Ok(s) && s@ == text_page(
            template_data.template_name@,
            blocks_text(self, blocks_view(template_data.blocks@)),
            now@,
        ));
        r
    }

    fn render_metrics(&self, metrics: &[Metric]) -> (r: Result<String, Error>)
        ensures
            r is Ok,
            metrics@.len() == 0 ==> r->Ok_0@ == "No metrics available\n"@,
            metrics@.len() > 0 ==> r->Ok_0@ == blocks_text(self, metric_nodes(metrics@)),
    {
        if metrics.len() == 0 {
            return Ok(text("No metrics available\n"));
        }
        let blocks = metrics_to_blocks(metrics);
        render_slice_with(self, blocks.as_slice())
    }

    fn render_logs(&self, logs: &[LogEntry]) -> (r: Result<String, Error>)
        ensures
            r is Ok,
            logs@.len() == 0 ==> r->Ok_0@ == "No logs available\n"@,
            logs@.len() > 0 ==> r->Ok_0@ == blocks_text(self, log_nodes(logs@)),
    {
        if logs.len() == 0 {
            return Ok(text("No logs available\n"));
        }
        let blocks = logs_to_blocks(logs);
        render_slice_with(self, blocks.as_slice())
    }

    fn render_traces(&self, traces: &[Trace]) -> (r: Result<String, Error>)
        ensures
            r is Ok,
            traces@.len() == 0 ==> r->Ok_0@ == "No traces available\n"@,
            traces@.len() > 0 ==> r->Ok_0@ == self.table_text(trace_headers(), trace_rows(traces@)),
    {
        if traces.len() == 0 {
            return Ok(text("No traces available\n"));
        }
        let (headers, rows) = traces_to_rows(traces);
        self.render_table(headers.as_slice(), rows.as_slice())
    }
}

/// Every line of `s` (the text from its start or after a line feed up to the
/// next line feed) has at most `w` characters.
pub open spec fn lines_fit(s: Seq<char>, w: int) -> bool {
    forall|i: int| 0 <= i <= s.len() && (i == 0 || s[i - 1] == '\n') ==> #[trigger] line_end(s, i) - i <= w
}

pub open spec fn no_line_feed(s: Seq<char>) -> bool {
    forall|k: int| 0 <= k < s.len() ==> #[trigger] s[k] != '\n'
}

proof fn lemma_line_end_no_feed(s: Seq<char>, q: int)
    requires
        0 <= q <= s.len(),
        no_line_feed(s),
    ensures
        line_end(s, q) == s.len(),
    decreases s.len() - q,
{
    if q < s.len() {
        lemma_line_end_no_feed(s, q + 1);
    }
}

proof fn lemma_line_end_shift(a: Seq<char>, b: Seq<char>, i: int)
    requires
        a.len() <= i <= a.len() + b.len(),
    ensures
        line_end(a + b, i) == a.len() + line_end(b, i - a.len()),
    decreases a.len() + b.len() - i,
{
    if i < a.len() + b.len() {
        assert((a + b)[i] == b[i - a.len()]);
        if b[i - a.len()] != '\n' {
            lemma_line_end_shift(a, b, i + 1);
        }
    }
}

proof fn lemma_line_end_prefix(a: Seq<char>, b: Seq<char>, i: int)
    requires
        0 <= i <= a.len(),
        line_end(a, i) < a.len(),
    ensures
        line_end(a + b, i) == line_end(a, i),
    decreases a.len() - i,
{
    assert((a + b)[i] == a[i]);
    if a[i] != '\n' {
        lemma_line_end_prefix(a, b, i + 1);
    }
}

proof fn lemma_line_end_bound(s: Seq<char>, i: int)
    requires
        0 <= i <= s.len(),
        s.len() > 0,
        s.last() == '\n',
        i < s.len(),
    ensures
        line_end(s, i) < s.len(),
    decreases s.len() - i,
{
    if s[i] != '\n' {
        lemma_line_end_bound(s, i + 1);
    }
}

/// Lines that fit, ended by a line feed, followed by more lines that fit.
proof fn lemma_lines_fit_concat(a: Seq<char>, b: Seq<char>, w: int)
    requires
        lines_fit(a, w),
        lines_fit(b, w),
        a.len() == 0 || a.last() == '\n',
        w >= 0,
    ensures
        lines_fit(a + b, w),
{
    let s = a + b;
    assert forall|i: int| 0 <= i <= s.len() && (i == 0 || s[i - 1] == '\n') implies #[trigger] line_end(s, i) - i <= w by {
        if i >= a.len() {
            lemma_line_end_shift(a, b, i);
            let j = i - a.len();
            if j > 0 {
                assert(s[i - 1] == b[j - 1]);
            } else if a.len() > 0 {
                assert(s[i - 1] == a.last());
            }
            assert(line_end(b, j) - j <= w);
        } else {
            lemma_line_end_bound(a, i);
            lemma_line_end_prefix(a, b, i);
            if i > 0 {
                assert(s[i - 1] == a[i - 1]);
            }
            assert(line_end(a, i) - i <= w);
        }
    }
}

proof fn lemma_one_line_fits(s: Seq<char>, w: int)
    requires
        no_line_feed(s),
        s.len() <= w,
    ensures
        lines_fit(s, w),
{
    assert forall|i: int| 0 <= i <= s.len() && (i == 0 || s[i - 1] == '\n') implies #[trigger] line_end(s, i) - i <= w by {
        lemma_line_end_no_feed(s, i);
    }
}

proof fn lemma_words_from_no_feed(s: Seq<char>, q: int)
    requires
        0 <= q <= s.len(),
        is_space('\n'),
    ensures
        forall|i: int| 0 <= i < words_from(s, q).len() ==> no_line_feed(#[trigger] words_from(s, q)[i]),
    decreases s.len() - q,
{
    let a = skip_space(s, q);
    lemma_skip_space_range(s, q);
    if a < s.len() {
        let b = word_end(s, a);
        lemma_word_end_range(s, a);
        if b > a && b <= s.len() {
            lemma_words_from_no_feed(s, b);
            let w = s.subrange(a, b);
            assert forall|k: int| 0 <= k < w.len() implies #[trigger] w[k] != '\n' by {
                assert(w[k] == s[a + k]);
                assert(!is_space(s[a + k]));
            }
            let ws = words_from(s, q);
            assert(ws == seq![w] + words_from(s, b));
            assert forall|i: int| 0 <= i < ws.len() implies no_line_feed(#[trigger] ws[i]) by {
                if i > 0 {
                    assert(ws[i] == words_from(s, b)[i - 1]);
                }
            }
        }
    }
}

/// The greedy wrap without indent keeps closed lines and the open line
/// within `avail`, when no word is wider.
proof fn lemma_wrap_fold_fits(ws: Seq<Seq<char>>, n: int, avail: int)
    requires
        0 <= n <= ws.len(),
        avail >= 0,
        forall|i: int| 0 <= i < ws.len() ==> (#[trigger] ws[i]).len() <= avail && no_line_feed(ws[i]),
    ensures
        lines_fit(wrap_fold(ws, n, avail, 0).0, avail),
        wrap_fold(ws, n, avail, 0).0.len() == 0 || wrap_fold(ws, n, avail, 0).0.last() == '\n',
        no_line_feed(wrap_fold(ws, n, avail, 0).1),
        wrap_fold(ws, n, avail, 0).1.len() <= avail,
        !wrap_fold(ws, n, avail, 0).2 ==> wrap_fold(ws, n, avail, 0).1.len() == 0,
    decreases n,
{
    if n == 0 {
        lemma_one_line_fits(Seq::empty(), avail);
    } else {
        lemma_wrap_fold_fits(ws, n - 1, avail);
        let st = wrap_fold(ws, n - 1, avail, 0);
        let word = ws[n - 1];
        let res = st.0;
        let line = st.1;
        let flush = st.2 && line.len() + word.len() + 1 > avail;
        crate::strings::lemma_repeat_len(" "@, 0);
        if flush {
            let closed = line + seq!['\n'];
            assert forall|i: int| 0 <= i <= closed.len() && (i == 0 || closed[i - 1] == '\n') implies #[trigger] line_end(closed, i) - i <= avail by {
                if i == 0 {
                    lemma_line_end_cut(line, seq!['\n'], 0);
                    lemma_line_end_no_feed(line, 0);
                } else {
                    assert(i == closed.len()) by {
                        if i < closed.len() {
                            assert(closed[i - 1] == line[i - 1]);
                        }
                    }
                }
            }
            lemma_lines_fit_concat(res, closed, avail);
            assert(res + line + seq!['\n'] =~= res + closed);
            assert(repeat_seq(" "@, 0) =~= Seq::<char>::empty());
            assert(no_line_feed(Seq::<char>::empty() + word)) by {
                assert(Seq::<char>::empty() + word =~= word);
            }
            assert(repeat_seq(" "@, 0) + word =~= word);
        } else if st.2 {
            let nl = line.push(' ') + word;
            assert forall|k: int| 0 <= k < nl.len() implies #[trigger] nl[k] != '\n' by {
                if k < line.len() {
                    assert(nl[k] == line[k]);
                } else if k > line.len() {
                    assert(nl[k] == word[k - line.len() - 1]);
                }
            }
        } else {
            assert(line + word =~= word);
        }
    }
}

proof fn lemma_line_end_upto(s: Seq<char>, q: int, e: int)
    requires
        0 <= q <= e < s.len(),
        s[e] == '\n',
    ensures
        line_end(s, q) <= e,
    decreases e - q,
{
    if s[q] != '\n' {
        lemma_line_end_upto(s, q + 1, e);
    }
}

/// A wrapped paragraph keeps every line within the width, when no word is
/// wider than it.
proof fn lemma_paragraph_fits(text: Seq<char>, width: nat)
    requires
        is_space('\n'),
        forall|i: int| 0 <= i < words(text).len() ==> (#[trigger] words(text)[i]).len() <= width,
    ensures
        lines_fit(wrap(text, 0, width) + "\n\n"@, width as int),
{
    let ws = words(text);
    lemma_words_from_no_feed(text, 0);
    lemma_wrap_fold_fits(ws, ws.len() as int, width as int);
    let st = wrap_fold(ws, ws.len() as int, width as int, 0);
    lemma_one_line_fits(st.1, width as int);
    lemma_lines_fit_concat(st.0, st.1, width as int);
    let body = wrap(text, 0, width);
    assert(lines_fit(body, width as int)) by {
        if !st.2 {
            assert(body == st.0);
        }
    }
    reveal_strlit("\n\n");
    let tail = seq!['\n', '\n'];
    assert("\n\n"@ =~= tail);
    // the final line of the body runs up to the first added line feed
    assert forall|i: int| 0 <= i <= (body + tail).len() && (i == 0 || (body + tail)[i - 1] == '\n') implies #[trigger] line_end(body + tail, i) - i <= width by {
        let s = body + tail;
        if i <= body.len() {
            if i < body.len() || body.len() == 0 {
                lemma_line_end_upto(s, i, body.len() as int);
                if i == 0 || s[i - 1] == '\n' {
                    if i > 0 && i <= body.len() {
                        assert(s[i - 1] == body[i - 1]);
                    }
                    assert(line_end(body, i) - i <= width);
                    lemma_line_end_cut(body, tail, i);
                }
            } else {
                assert(line_end(s, i) == i);
            }
        } else {
            assert(line_end(s, i) <= s.len());
            lemma_line_end_range(s, i);
        }
    }
}

/// Up to the end of `a`, a line of `a + b` where `b` starts with a line feed
/// ends where it ends in `a`.
proof fn lemma_line_end_cut(a: Seq<char>, b: Seq<char>, i: int)
    requires
        0 <= i <= a.len(),
        b.len() > 0,
        b[0] == '\n',
    ensures
        line_end(a + b, i) == line_end(a, i),
    decreases a.len() - i,
{
    if i < a.len() {
        assert((a + b)[i] == a[i]);
        if a[i] != '\n' {
            lemma_line_end_cut(a, b, i + 1);
        }
    } else {
        assert((a + b)[i] == b[0]);
    }
}

} // verus!
