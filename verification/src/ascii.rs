//! The conversion core shared by images, video frames and scripts: the
//! built-in palettes, choosing a palette, mapping a gray level to a palette
//! index, and writing the converted grid as plain text or as coloured HTML.

use vstd::prelude::*;
use crate::text::{blank, chars_of, hex2, is_blank, push_hex2};

verus! {

/// Number of built-in palettes.
pub const PALETTE_COUNT: usize = 6;

/// Width of one character cell in pixels, for rasterised output.
pub const CHAR_W: u32 = 6;
/// Height of one character cell in pixels, for rasterised output.
pub const CHAR_H: u32 = 11;

/// The characters of built-in palette `i`, darkest first (the last palette
/// for any index past the end).
pub open spec fn builtin_palette(i: int) -> Seq<char> {
    if i == 0 {
        " .:-=+*#%@"@
    } else if i == 1 {
        " `.-':_,^=;><+!rc*/z?sLTv)J7(|Fi{C}fI31tlu[neoZ5Yxjya]2ESwqkP6h9d4VpOGbUAKXHm8RD#$Bg0MNWQ%&@"@
    } else if i == 2 {
        " .'`^\",:;Il!i><~+_-?][}{1)(|\\/tfjrxnuvczxyujcqL0ozmwqpdbkhao*#MW&8%B@$"@
    } else if i == 3 {
        " ░▒▓█"@
    } else if i == 4 {
        " 01"@
    } else {
        " ⠁⠃⠇⠏⠟⠿⡿⣿"@
    }
}

/// The text of built-in palette `index` (the last one past the end).
pub fn builtin_palette_text(index: usize) -> (s: &'static str)
    ensures
        s@ == builtin_palette(index as int),
{
    if index == 0 {
        " .:-=+*#%@"
    } else if index == 1 {
        " `.-':_,^=;><+!rc*/z?sLTv)J7(|Fi{C}fI31tlu[neoZ5Yxjya]2ESwqkP6h9d4VpOGbUAKXHm8RD#$Bg0MNWQ%&@"
    } else if index == 2 {
        " .'`^\",:;Il!i><~+_-?][}{1)(|\\/tfjrxnuvczxyujcqL0ozmwqpdbkhao*#MW&8%B@$"
    } else if index == 3 {
        " ░▒▓█"
    } else if index == 4 {
        " 01"
    } else {
        " ⠁⠃⠇⠏⠟⠿⡿⣿"
    }
}

/// The palette a conversion uses: the custom palette when it holds
/// something besides whitespace, otherwise built-in palette
/// `palette_index` (clamped to the last one).
pub open spec fn chosen_palette(palette_index: int, custom: Option<Seq<char>>) -> Seq<char> {
    match custom {
        Some(c) if !is_blank(c) => c,
        _ => builtin_palette(if palette_index < 5 { palette_index } else { 5 }),
    }
}

/// The characters of the palette chosen by `palette_index` and
/// `custom_palette` (see `chosen_palette`).
pub fn get_palette(palette_index: usize, custom_palette: &Option<String>) -> (v: Vec<char>)
    ensures
        v@ == chosen_palette(palette_index as int, match custom_palette {
            Some(c) => Some(c@),
            None => None,
        }),
{
    match custom_palette {
        Some(c) => {
            let cs = chars_of(c.as_str());
            if !blank(&cs) {
                return cs;
            }
        },
        None => {},
    }
    let idx = if palette_index < PALETTE_COUNT - 1 { palette_index } else { PALETTE_COUNT - 1 };
    chars_of(builtin_palette_text(idx))
}

// ---------------------------------------------------------------------------
// Gray level to palette index
// ---------------------------------------------------------------------------

/// Integer division rounding toward zero, as Rust's `/` on signed integers.
pub open spec fn trunc_div(a: int, b: int) -> int {
    if a >= 0 {
        a / b
    } else {
        -((-a) / b)
    }
}

/// `v` clamped to `lo..=hi`.
pub open spec fn clamp(v: int, lo: int, hi: int) -> int {
    if v < lo {
        lo
    } else if v > hi {
        hi
    } else {
        v
    }
}

/// Palette index for gray level `gray` with `n` palette characters:
/// `gray * (n - 1) / 255` rounded toward zero, clamped to `0..n`.
pub open spec fn gray_index(gray: int, n: int) -> int {
    clamp(trunc_div(gray * (n - 1), 255), 0, n - 1)
}

/// Maps a gray level (0 black, 255 white) to an index into a palette of
/// `palette_len` characters, darkest first. Out-of-range gray levels are
/// clamped to the first or the last character.
pub fn gray_to_index(gray: i32, palette_len: i32) -> (idx: usize)
    requires
        palette_len >= 1,
        i32::MIN <= (gray as int) * ((palette_len - 1) as int) <= i32::MAX,
    ensures
        idx as int == gray_index(gray as int, palette_len as int),
        idx < palette_len,
{
    let m = palette_len - 1;
    let p = gray * m;
    if p <= 0 {
        proof {
            assert((-(p as int)) / 255 >= 0);
        }
        0
    } else {
        let q = p / 255;
        assert(q <= p);
        if q > m {
            m as usize
        } else {
            q as usize
        }
    }
}

/// Black maps to the first palette character and white to the last.
pub proof fn lemma_gray_index_extremes(n: int)
    requires
        n >= 1,
    ensures
        gray_index(0, n) == 0,
        gray_index(255, n) == n - 1,
{
    assert(255 * (n - 1) / 255 == n - 1) by (nonlinear_arith)
        requires
            n >= 1,
    ;
}

/// A brighter gray level never maps to a darker palette character.
pub proof fn lemma_gray_index_monotonic(g1: int, g2: int, n: int)
    requires
        n >= 1,
        g1 <= g2,
    ensures
        gray_index(g1, n) <= gray_index(g2, n),
{
    assert(g1 * (n - 1) <= g2 * (n - 1)) by (nonlinear_arith)
        requires
            g1 <= g2,
            n >= 1,
    ;
    let a = g1 * (n - 1);
    let b = g2 * (n - 1);
    if a >= 0 {
        vstd::arithmetic::div_mod::lemma_div_is_ordered(a, b, 255);
    } else if b >= 0 {
        assert((-a) / 255 >= 0) by (nonlinear_arith)
            requires
                -a > 0,
        ;
    } else {
        vstd::arithmetic::div_mod::lemma_div_is_ordered(-b, -a, 255);
    }
}

/// The gray level that palette index `idx` stands for in a palette of `n`
/// characters: `idx * 255 / (n - 1)`.
pub open spec fn index_level(idx: int, n: int) -> int {
    idx * 255 / (n - 1)
}

/// The gray level palette index `idx` stands for; the difference to the
/// gray level that was mapped is the quantization error that dithering
/// spreads to the neighbours.
pub fn index_to_level(idx: i32, palette_len: i32) -> (level: i32)
    requires
        palette_len >= 2,
        0 <= idx < palette_len,
        (palette_len as int) * 255 <= i32::MAX,
    ensures
        level as int == index_level(idx as int, palette_len as int),
        0 <= level <= 255,
{
    assert(idx * 255 <= (palette_len - 1) * 255) by (nonlinear_arith)
        requires
            idx <= palette_len - 1,
    ;
    let l = (idx * 255) / (palette_len - 1);
    assert(l <= 255) by (nonlinear_arith)
        requires
            l == (idx * 255) / (palette_len - 1),
            idx * 255 <= (palette_len - 1) * 255,
            palette_len - 1 >= 1,
            idx >= 0,
    ;
    l
}

/// Quantizing never brightens: the level of the index chosen for a gray
/// level in `0..=255` is at most that gray level.
pub proof fn lemma_index_level_below_gray(g: int, n: int)
    requires
        0 <= g <= 255,
        n >= 2,
    ensures
        index_level(gray_index(g, n), n) <= g,
{
    let q = g * (n - 1) / 255;
    assert(0 <= q <= n - 1) by (nonlinear_arith)
        requires
            q == g * (n - 1) / 255,
            0 <= g <= 255,
            n >= 2,
    {
        assert(g * (n - 1) <= 255 * (n - 1));
    }
    assert(q * 255 / (n - 1) <= g) by (nonlinear_arith)
        requires
            q == g * (n - 1) / 255,
            0 <= g,
            n >= 2,
    {
        assert(q * 255 <= g * (n - 1));
        assert((q * 255) / (n - 1) * (n - 1) <= q * 255);
    }
}

// ---------------------------------------------------------------------------
// Text and HTML output
// ---------------------------------------------------------------------------

/// One converted pixel: its processed colour and the palette character
/// chosen for it.
#[derive(Clone, Copy, PartialEq, Eq, Structural, Debug)]
pub struct AsciiCell {
    pub r: u8,
    pub g: u8,
    pub b: u8,
    pub ch: char,
}

/// Two cells have the same colour.
pub open spec fn same_color(a: AsciiCell, b: AsciiCell) -> bool {
    a.r == b.r && a.g == b.g && a.b == b.b
}

/// The CSS colour of a cell, `#RRGGBB` in upper-case hexadecimal.
pub open spec fn color_hex(c: AsciiCell) -> Seq<char> {
    seq!['#'] + hex2(c.r) + hex2(c.g) + hex2(c.b)
}

/// The tag that opens a run of characters of the colour of `c`.
pub open spec fn span_open(c: AsciiCell) -> Seq<char> {
    "<span style='color:"@ + color_hex(c) + "'>"@
}

/// The tag that closes a coloured run.
pub open spec fn span_close() -> Seq<char> {
    "</span>"@
}

/// The opening tag of coloured output.
pub open spec fn pre_open() -> Seq<char> {
    "<pre style='margin:0;padding:0;line-height:1.0;font-family:monospace;'>"@
}

/// A palette character as HTML: `<`, `>`, `&` and the space are escaped.
pub open spec fn html_char(c: char) -> Seq<char> {
    if c == '<' {
        "&lt;"@
    } else if c == '>' {
        "&gt;"@
    } else if c == '&' {
        "&amp;"@
    } else if c == ' ' {
        "&nbsp;"@
    } else {
        seq![c]
    }
}

/// HTML of the first `n` cells of a row: a coloured run opens at the first
/// cell and wherever the colour changes from the previous cell (closing
/// the run before it); neighbours of one colour share a run.
pub open spec fn color_cells(row: Seq<AsciiCell>, n: int) -> Seq<char>
    decreases n,
{
    if n <= 0 {
        Seq::empty()
    } else {
        let c = row[n - 1];
        let open = if n == 1 {
            span_open(c)
        } else if same_color(row[n - 2], c) {
            Seq::<char>::empty()
        } else {
            span_close() + span_open(c)
        };
        color_cells(row, n - 1) + open + html_char(c.ch)
    }
}

/// HTML of one row: its runs, the last one closed, then a line break.
pub open spec fn color_row(row: Seq<AsciiCell>) -> Seq<char> {
    color_cells(row, row.len() as int) + (if row.len() > 0 {
        span_close()
    } else {
        Seq::empty()
    }) + "<br>"@
}

/// Plain text of one row: its characters and a newline.
pub open spec fn mono_row(row: Seq<AsciiCell>) -> Seq<char> {
    row.map_values(|c: AsciiCell| c.ch).push('\n')
}

/// The output of the first `h` rows of a grid `w` cells wide.
pub open spec fn grid_rows(cells: Seq<AsciiCell>, w: int, h: int, color: bool) -> Seq<char>
    decreases h,
{
    if h <= 0 {
        Seq::empty()
    } else {
        let row = cells.subrange((h - 1) * w, h * w);
        grid_rows(cells, w, h - 1, color) + (if color {
            color_row(row)
        } else {
            mono_row(row)
        })
    }
}

/// The converted grid (`w` x `h` cells, row-major) as plain text, one line
/// per row, or, with `color`, as an HTML `pre` block of coloured runs.
pub open spec fn grid_markup(cells: Seq<AsciiCell>, w: int, h: int, color: bool) -> Seq<char> {
    if color {
        pre_open() + grid_rows(cells, w, h, true) + "</pre>"@
    } else {
        grid_rows(cells, w, h, false)
    }
}

fn push_html_char(out: &mut String, c: char)
    ensures
        final(out)@ == old(out)@ + html_char(c),
{
    if c == '<' {
        out.append("&lt;");
    } else if c == '>' {
        out.append("&gt;");
    } else if c == '&' {
        out.append("&amp;");
    } else if c == ' ' {
        out.append("&nbsp;");
    } else {
        out.push(c);
        proof {
            assert(old(out)@.push(c) =~= old(out)@ + seq![c]);
        }
    }
}

fn push_span_open(out: &mut String, c: AsciiCell)
    ensures
        final(out)@ == old(out)@ + span_open(c),
{
    out.append("<span style='color:");
    out.push('#');
    push_hex2(out, c.r);
    push_hex2(out, c.g);
    push_hex2(out, c.b);
    out.append("'>");
    proof {
        assert(out@ =~= old(out)@ + span_open(c));
    }
}

/// Writes the converted grid: `cells` holds `w` x `h` cells row by row.
/// Without `use_color` every row becomes its characters and a newline; with
/// it the grid becomes an HTML `pre` block in which each row is a series of
/// coloured runs followed by `<br>`, neighbours of one colour sharing a run
/// and `<`, `>`, `&` and the space escaped.
pub fn grid_to_ascii(cells: &Vec<AsciiCell>, w: usize, h: usize, use_color: bool) -> (out: String)
    requires
        cells@.len() == w * h,
    ensures
        out@ == grid_markup(cells@, w as int, h as int, use_color),
{
    let mut out = String::new();
    if use_color {
        out.append("<pre style='margin:0;padding:0;line-height:1.0;font-family:monospace;'>");
    }
    let ghost head = out@;
    let n = cells.len();
    for y in 0..h
        invariant
            n == cells@.len(),
            cells@.len() == w * h,
            out@ == head + grid_rows(cells@, w as int, y as int, use_color),
    {
        proof {
            assert((y as int) * (w as int) + (w as int) <= (w as int) * (h as int)) by (nonlinear_arith)
                requires
                    y < h,
            ;
            assert(0 <= (y as int) * (w as int)) by (nonlinear_arith);
        }
        let base = y * w;
        let ghost row = cells@.subrange(base as int, base + w);
        let ghost before = out@;
        let mut prev: Option<AsciiCell> = None;
        for x in 0..w
            invariant
                n == cells@.len(),
                cells@.len() == w * h,
                base + w <= cells@.len(),
                row == cells@.subrange(base as int, base + w),
                x == 0 ==> prev is None,
                x > 0 ==> prev == Some(row[x - 1]),
                use_color ==> out@ == before + color_cells(row, x as int),
                !use_color ==> out@ == before + row.take(x as int).map_values(|c: AsciiCell| c.ch),
        {
            let c = cells[base + x];
            assert(c == row[x as int]);
            if use_color {
                match prev {
                    None => {
                        push_span_open(&mut out, c);
                    },
                    Some(p) => {
                        if !(p.r == c.r && p.g == c.g && p.b == c.b) {
                            out.append("</span>");
                            push_span_open(&mut out, c);
                        }
                    },
                }
                push_html_char(&mut out, c.ch);
                proof {
                    assert(out@ =~= before + color_cells(row, x + 1));
                }
            } else {
                out.push(c.ch);
                proof {
                    assert(row.take(x + 1).map_values(|c: AsciiCell| c.ch)
                        =~= row.take(x as int).map_values(|c: AsciiCell| c.ch).push(c.ch));
                }
            }
            prev = Some(c);
        }
        if use_color {
            if w > 0 {
                out.append("</span>");
            }
            out.append("<br>");
            proof {
                assert(out@ =~= before + color_row(row));
            }
        } else {
            out.push('\n');
            proof {
                assert(row.take(w as int) =~= row);
                assert(out@ =~= before + mono_row(row));
            }
        }
        proof {
            assert((y + 1) * (w as int) == (y as int) * (w as int) + (w as int)) by (nonlinear_arith);
            assert(out@ =~= head + grid_rows(cells@, w as int, y + 1, use_color));
        }
    }
    if use_color {
        out.append("</pre>");
    }
    proof {
        assert(out@ =~= grid_markup(cells@, w as int, h as int, use_color));
    }
    out
}

/// The escaped characters of the first `n` cells of a row.
pub open spec fn html_text(row: Seq<AsciiCell>, n: int) -> Seq<char>
    decreases n,
{
    if n <= 0 {
        Seq::empty()
    } else {
        html_text(row, n - 1) + html_char(row[n - 1].ch)
    }
}

/// A row whose cells all have one colour is written as a single coloured
/// run: one opening tag, the escaped characters, one closing tag.
pub proof fn lemma_one_color_one_run(row: Seq<AsciiCell>)
    requires
        row.len() >= 1,
        forall|i: int| 0 <= i < row.len() ==> same_color(#[trigger] row[i], row[0]),
    ensures
        color_row(row) == span_open(row[0]) + html_text(row, row.len() as int) + span_close() + "<br>"@,
{
    lemma_one_color_cells(row, row.len() as int);
}

proof fn lemma_one_color_cells(row: Seq<AsciiCell>, n: int)
    requires
        1 <= n <= row.len(),
        forall|i: int| 0 <= i < row.len() ==> same_color(#[trigger] row[i], row[0]),
    ensures
        color_cells(row, n) == span_open(row[0]) + html_text(row, n),
    decreases n,
{
    if n == 1 {
        assert(html_text(row, 0) == Seq::<char>::empty());
        assert(color_cells(row, 0) == Seq::<char>::empty());
        assert(color_cells(row, 1) =~= span_open(row[0]) + html_text(row, 1));
    } else {
        lemma_one_color_cells(row, n - 1);
        assert(same_color(row[n - 2], row[0]));
        assert(same_color(row[n - 1], row[0]));
        assert(color_cells(row, n) =~= span_open(row[0]) + html_text(row, n));
    }
}

/// An escaped palette character never holds a raw `<` or `>`, so palette
/// characters cannot open or close tags in the HTML output.
pub proof fn lemma_html_char_no_angle(c: char)
    ensures
        !html_char(c).contains('<'),
        !html_char(c).contains('>'),
{
    reveal_strlit("&lt;");
    reveal_strlit("&gt;");
    reveal_strlit("&amp;");
    reveal_strlit("&nbsp;");
    if c == '<' || c == '>' || c == '&' || c == ' ' {
        assert(forall|i: int| 0 <= i < html_char(c).len() ==> html_char(c)[i] != '<' && html_char(c)[i] != '>');
    } else {
        assert(html_char(c) == seq![c]);
        assert(forall|i: int| 0 <= i < html_char(c).len() ==> html_char(c)[i] == c);
    }
}

/// How coloured output grows cell by cell: the first cell opens a run of
/// its own colour; each later cell opens a new run (closing the previous
/// one) exactly when its (r, g, b) differs in any channel from its left
/// neighbour's, and its escaped character follows. So every character
/// stands in a run whose colour is its own cell's.
pub proof fn lemma_color_cells_step(row: Seq<AsciiCell>, n: int)
    requires
        0 <= n < row.len(),
    ensures
        n == 0 ==> color_cells(row, 1) == span_open(row[0]) + html_char(row[0].ch),
        n >= 1 ==> color_cells(row, n + 1) == color_cells(row, n) + (if row[n - 1].r == row[n].r && row[n - 1].g == row[n].g
            && row[n - 1].b == row[n].b {
            Seq::<char>::empty()
        } else {
            span_close() + span_open(row[n])
        }) + html_char(row[n].ch),
{
    assert(color_cells(row, 0) == Seq::<char>::empty());
    if n == 0 {
        assert(color_cells(row, 1) =~= span_open(row[0]) + html_char(row[0].ch));
    }
}

} // verus!
