//! The webcam pipeline: per-setting lookup tables, converting a raw RGBA
//! frame to ASCII text, and rendering it as an RGB image of glyphs for the
//! virtual camera.

use vstd::prelude::*;
use crate::ascii::{builtin_palette, builtin_palette_text};
use crate::messages::palette_min_text;
use crate::text::{chars_of, parse_u32, parse_u32_chars};

verus! {

/// Width of one character cell in pixels.
pub const CHAR_W: u32 = 6;
/// Height of one character cell in pixels.
pub const CHAR_H: u32 = 11;

/// Character-table entry for gray level `i`: the palette index
/// `gray * (len - 1) / 255` (gray inverted when `invert`), kept to its low
/// eight bits as the table stores bytes.
pub open spec fn char_lut_entry(i: int, palette_len: int, invert: bool) -> u8 {
    let gray = if invert { 255 - i } else { i };
    ((gray * (palette_len - 1)) / 255) as u8
}

/// Perceived brightness of an RGB triple (ITU-R 601 weights, integer).
pub open spec fn luma(r: int, g: int, b: int) -> int {
    (r * 299 + g * 587 + b * 114) / 1000
}

/// Settings compiled into lookup tables; rebuilt only when a setting
/// changes, not per frame.
pub struct CompiledParams {
    palette_chars: Vec<char>,
    /// brightness, contrast and gamma folded into one table per channel
    channel_lut: Vec<u8>,
    /// gray level to palette index (with `invert` applied)
    char_lut: Vec<u8>,
    use_color: bool,
}

impl CompiledParams {
    /// The tables are consistent: at least two palette characters, tables of
    /// 256 entries, every character index inside the palette.
    pub closed spec fn wf(&self) -> bool {
        &&& self.palette_chars@.len() >= 2
        &&& self.channel_lut@.len() == 256
        &&& self.char_lut@.len() == 256
        &&& forall|i: int| 0 <= i < 256 ==> (#[trigger] self.char_lut@[i] as int) < self.palette_chars@.len()
    }

    /// The palette characters, darkest first.
    pub closed spec fn palette(&self) -> Seq<char> {
        self.palette_chars@
    }

    /// The per-channel table.
    pub closed spec fn channel_table(&self) -> Seq<u8> {
        self.channel_lut@
    }

    /// The gray-level-to-palette-index table.
    pub closed spec fn char_table(&self) -> Seq<u8> {
        self.char_lut@
    }

    /// Whether glyphs take the pixel's colour.
    pub closed spec fn colored(&self) -> bool {
        self.use_color
    }

    /// The compiled tables are consistent: at least two palette characters,
    /// tables of 256 entries, every character index inside the palette.
    pub proof fn lemma_tables(&self)
        requires
            self.wf(),
        ensures
            self.palette().len() >= 2,
            self.channel_table().len() == 256,
            self.char_table().len() == 256,
            forall|i: int| 0 <= i < 256 ==> (#[trigger] self.char_table()[i] as int) < self.palette().len(),
    {
    }

    /// The palette characters, darkest first.
    pub fn palette_chars(&self) -> (r: &Vec<char>)
        ensures
            r@ == self.palette(),
    {
        &self.palette_chars
    }

    /// Compiles the settings: `palette` (darkest first, at least two
    /// characters), the channel table already folded from brightness,
    /// contrast and gamma, `invert` and `use_color`. The character table maps
    /// gray level `i` to `char_lut_entry(i, len, invert)`.
    pub fn compile(palette: &str, channel_lut: Vec<u8>, invert: bool, use_color: bool) -> (r: Result<CompiledParams, String>)
        requires
            channel_lut@.len() == 256,
            palette@.len() <= u32::MAX,
        ensures
            r is Err <==> palette@.len() < 2,
            r matches Err(e) ==> e@ == palette_min_text(),
            r matches Ok(cp) ==> {
                &&& cp.wf()
                &&& cp.palette() == palette@
                &&& cp.channel_table() == channel_lut@
                &&& cp.colored() == use_color
                &&& forall|i: int| 0 <= i < 256 ==> #[trigger] cp.char_table()[i] == char_lut_entry(i, palette@.len() as int, invert)
            },
    {
        let palette_chars = chars_of(palette);
        if palette_chars.len() < 2 {
            return Err(String::from_str("{\"key\":\"errPaletteMin\",\"params\":[]}"));
        }
        let max_idx = (palette_chars.len() - 1) as u64;
        let mut char_lut: Vec<u8> = Vec::new();
        for i in 0..256u64
            invariant
                char_lut@.len() == i,
                max_idx == palette_chars@.len() - 1,
                palette_chars@.len() >= 2,
                palette_chars@.len() <= u32::MAX,
                forall|j: int| 0 <= j < i ==> #[trigger] char_lut@[j] == char_lut_entry(j, palette_chars@.len() as int, invert),
                forall|j: int| 0 <= j < i ==> (#[trigger] char_lut@[j] as int) < palette_chars@.len(),
        {
            let gray: u64 = if invert { 255 - i } else { i };
            assert(gray * max_idx <= 255 * 0xffff_ffff) by (nonlinear_arith)
                requires
                    gray <= 255,
                    max_idx <= 0xffff_ffff,
            ;
            let q = gray * max_idx / 255;
            assert(q <= max_idx) by (nonlinear_arith)
                requires
                    q == gray * max_idx / 255,
                    gray <= 255,
            {
                assert(gray * max_idx <= 255 * max_idx);
            }
            let e = q as u8;
            proof {
                if q > 255 {
                    assert(e < 256);
                    assert(palette_chars@.len() > 256);
                }
            }
            char_lut.push(e);
        }
        let cp = CompiledParams { palette_chars, channel_lut, char_lut, use_color };
        Ok(cp)
    }

    // -----------------------------------------------------------------------
    // RGBA frame to text
    // -----------------------------------------------------------------------

    fn cell_index(&self, rgba: &[u8], i: usize) -> (k: usize)
        requires
            self.wf(),
            i + 3 <= rgba@.len(),
        ensures
            k == self.char_table()[luma(
                self.channel_table()[rgba@[i as int] as int] as int,
                self.channel_table()[rgba@[i + 1] as int] as int,
                self.channel_table()[rgba@[i + 2] as int] as int,
            )],
            k < self.palette().len(),
    {
        let r = self.channel_lut[rgba[i] as usize] as u32;
        let g = self.channel_lut[rgba[i + 1] as usize] as u32;
        let b = self.channel_lut[rgba[i + 2] as usize] as u32;
        let gray = (r * 299 + g * 587 + b * 114) / 1000;
        self.char_lut[gray as usize] as usize
    }
}

/// Converts a raw RGBA frame (`w` x `h`, rows top to bottom) to plain
/// ASCII text: one palette character per pixel, each row ended by a
/// newline.
pub fn rgba_to_ascii_text(rgba: &[u8], w: u32, h: u32, cp: &CompiledParams) -> (out: String)
    requires
        cp.wf(),
        (w as int) * (h as int) * 4 <= rgba@.len(),
    ensures
        out@ == ascii_text(cp.palette(), cp.channel_table(), cp.char_table(), rgba@, w as int, h as int),
{
    let ghost pal = cp.palette();
    let ghost cl = cp.channel_table();
    let ghost tl = cp.char_table();
    let mut out = String::new();
    let wu = w as usize;
    let hu = h as usize;
    let rgba_len = rgba.len();
    proof {
        assert(wu * hu * 4 <= rgba_len);
    }
    for y in 0..hu
        invariant
            wu == w,
            hu == h,
            rgba_len == rgba@.len(),
            (w as int) * (h as int) * 4 <= rgba@.len(),
            cp.wf(),
            pal == cp.palette(),
            cl == cp.channel_table(),
            tl == cp.char_table(),
            out@ == ascii_text(pal, cl, tl, rgba@, w as int, y as int),
    {
        let ghost start = out@;
        for x in 0..wu
            invariant
                wu == w,
                hu == h,
                y < hu,
                cp.wf(),
                rgba_len == rgba@.len(),
                (w as int) * (h as int) * 4 <= rgba@.len(),
                pal == cp.palette(),
                cl == cp.channel_table(),
                tl == cp.char_table(),
                out@ == start + ascii_row(pal, cl, tl, rgba@, w as int, y as int).take(x as int),
        {
            proof {
                lemma_cell_bound(w as int, h as int, x as int, y as int, 4);
            }
            let i = (y * wu + x) * 4;
            let k = cp.cell_index(rgba, i);
            out.push(cp.palette_chars[k]);
            proof {
                let row = ascii_row(pal, cl, tl, rgba@, w as int, y as int);
                assert(row.take(x + 1) =~= row.take(x as int).push(row[x as int]));
            }
        }
        out.push('\n');
        proof {
            let row = ascii_row(pal, cl, tl, rgba@, w as int, y as int);
            assert(row.take(w as int) =~= row);
            assert(ascii_text(pal, cl, tl, rgba@, w as int, y + 1) == ascii_text(pal, cl, tl, rgba@, w as int, y as int) + row.push('\n'));
            assert(out@ =~= ascii_text(pal, cl, tl, rgba@, w as int, y + 1));
        }
    }
    out
}

// -----------------------------------------------------------------------
// RGBA frame to glyph image
// -----------------------------------------------------------------------

/// Renders a raw RGBA frame (`w` x `h`) as an RGB24 image of
/// `w * CHAR_W` x `h * CHAR_H` pixels, rows top to bottom: every cell
/// draws the glyph of its palette character, `masks[k]` being the
/// `CHAR_W` x `CHAR_H` alpha mask of palette character `k`. A glyph pixel
/// of alpha `a` gets `tone * a / 255` per channel, the tone being the
/// pixel's table colour in colour mode and white otherwise; the rest is
/// black.
pub fn rgba_to_ascii_image(rgba: &[u8], w: u32, h: u32, cp: &CompiledParams, masks: &Vec<Vec<u8>>) -> (canvas: Vec<u8>)
    requires
        cp.wf(),
        (w as int) * (h as int) * 4 <= rgba@.len(),
        masks@.len() == cp.palette().len(),
        forall|k: int| 0 <= k < masks@.len() ==> #[trigger] masks@[k]@.len() == CHAR_W * CHAR_H,
        (w as int) * 6 * ((h as int) * 11) * 3 <= isize::MAX,
    ensures
        canvas@ == glyph_canvas(cp.channel_table(), cp.char_table(), cp.colored(),
            masks@.map_values(|m: Vec<u8>| m@), rgba@, w as int, h as int),
{
    let ghost cl = cp.channel_table();
    let ghost tl = cp.char_table();
    let ghost mv = masks@.map_values(|m: Vec<u8>| m@);
    let wu = w as usize;
    let hu = h as usize;
    let rgba_len = rgba.len();
    if wu == 0 || hu == 0 {
        proof {
            assert((w as int) * 6 * ((h as int) * 11) * 3 == 0) by (nonlinear_arith)
                requires
                    w == 0 || h == 0,
            ;
            assert(glyph_canvas(cl, tl, cp.colored(), mv, rgba@, w as int, h as int) =~= Seq::<u8>::empty());
        }
        return Vec::new();
    }
    proof {
        assert((w as int) * (h as int) <= (w as int) * 6 * ((h as int) * 11) * 3) by (nonlinear_arith)
            requires
                w >= 0,
                h >= 0,
        ;
        assert((w as int) * 6 <= (w as int) * 6 * ((h as int) * 11) * 3) by (nonlinear_arith)
            requires
                w >= 0,
                h >= 1,
        ;
        assert((h as int) * 11 <= (w as int) * 6 * ((h as int) * 11) * 3) by (nonlinear_arith)
            requires
                w >= 1,
                h >= 0,
        ;
        assert(0 * (w as int) == 0);
    }
    // Glyph index and tone of every cell, row-major.
    let mut cells: Vec<(usize, u8, u8, u8)> = Vec::new();
    for y in 0..hu
        invariant
            wu == w,
            hu == h,
            cp.wf(),
            rgba_len == rgba@.len(),
            (w as int) * (h as int) * 4 <= rgba@.len(),
            cl == cp.channel_table(),
            tl == cp.char_table(),
            cells@.len() == y * w,
            forall|q: int| 0 <= q < cells@.len() ==> #[trigger] cell_ok(cells@[q], cl, tl, cp.colored(), rgba@, w as int, q, cp.palette().len() as int),
    {
        let ghost y0 = y;
        for x in 0..wu
            invariant
                wu == w,
                hu == h,
                y < hu,
                cp.wf(),
                rgba_len == rgba@.len(),
                (w as int) * (h as int) * 4 <= rgba@.len(),
                cl == cp.channel_table(),
                tl == cp.char_table(),
                cells@.len() == y * w + x,
                forall|q: int| 0 <= q < cells@.len() ==> #[trigger] cell_ok(cells@[q], cl, tl, cp.colored(), rgba@, w as int, q, cp.palette().len() as int),
        {
            proof {
                lemma_cell_bound(w as int, h as int, x as int, y as int, 4);
            }
            let i = (y * wu + x) * 4;
            let k = cp.cell_index(rgba, i);
            let (tr, tg, tb) = if cp.use_color {
                (cp.channel_lut[rgba[i] as usize], cp.channel_lut[rgba[i + 1] as usize], cp.channel_lut[rgba[i + 2] as usize])
            } else {
                (255u8, 255u8, 255u8)
            };
            proof {
                assert(cells@.len() == y * w + x);
            }
            cells.push((k, tr, tg, tb));
        }
        proof {
            assert((y as int) * (w as int) + (w as int) == ((y as int) + 1) * (w as int)) by (nonlinear_arith);
        }
    }
    proof {
        assert((h as int) * (w as int) == (w as int) * (h as int)) by (nonlinear_arith);
    }
    let ow = wu * 6;
    let oh = hu * 11;
    let mut canvas: Vec<u8> = Vec::new();
    proof {
        assert(0 * (ow as int) * 3 == 0);
    }
    for yy in 0..oh
        invariant
            wu == w,
            hu == h,
            ow == w * 6,
            oh == h * 11,
            (w as int) * 6 * ((h as int) * 11) * 3 <= isize::MAX,
            cells@.len() == w * h,
            cp.wf(),
            cl == cp.channel_table(),
            tl == cp.char_table(),
            mv == masks@.map_values(|m: Vec<u8>| m@),
            masks@.len() == cp.palette().len(),
            forall|k: int| 0 <= k < masks@.len() ==> #[trigger] masks@[k]@.len() == CHAR_W * CHAR_H,
            (w as int) * (h as int) * 4 <= rgba@.len(),
            forall|q: int| 0 <= q < cells@.len() ==> #[trigger] cell_ok(cells@[q], cl, tl, cp.colored(), rgba@, w as int, q, cp.palette().len() as int),
            canvas@.len() == yy * ow * 3,
            (w as int) * (h as int) <= isize::MAX,
            forall|j: int| 0 <= j < canvas@.len() ==> #[trigger] canvas@[j] == canvas_byte(cl, tl, cp.colored(), mv, rgba@, w as int, j),
    {
        proof {
            assert((yy as int) * (ow as int) * 3 == ((yy as int) * (ow as int) + 0) * 3);
        }
        let y = yy / 11;
        let gy = yy % 11;
        for xx in 0..ow
            invariant
                wu == w,
                hu == h,
                ow == w * 6,
                oh == h * 11,
                yy < oh,
                y == yy / 11,
                gy == yy % 11,
                (w as int) * 6 * ((h as int) * 11) * 3 <= isize::MAX,
                cells@.len() == w * h,
                cp.wf(),
                cl == cp.channel_table(),
                tl == cp.char_table(),
                mv == masks@.map_values(|m: Vec<u8>| m@),
                masks@.len() == cp.palette().len(),
                forall|k: int| 0 <= k < masks@.len() ==> #[trigger] masks@[k]@.len() == CHAR_W * CHAR_H,
                (w as int) * (h as int) * 4 <= rgba@.len(),
                forall|q: int| 0 <= q < cells@.len() ==> #[trigger] cell_ok(cells@[q], cl, tl, cp.colored(), rgba@, w as int, q, cp.palette().len() as int),
                canvas@.len() == (yy * ow + xx) * 3,
                (w as int) * (h as int) <= isize::MAX,
                forall|j: int| 0 <= j < canvas@.len() ==> #[trigger] canvas@[j] == canvas_byte(cl, tl, cp.colored(), mv, rgba@, w as int, j),
        {
            let x = xx / 6;
            let gx = xx % 6;
            proof {
                assert(y < h);
                assert(x < w);
                lemma_cell_bound(w as int, h as int, x as int, y as int, 1);
                lemma_px_bound3(ow as int, oh as int, xx as int, yy as int);
            }
            let q = y * wu + x;
            let (k, tr, tg, tb) = cells[q];
            proof {
                assert(cell_ok(cells@[q as int], cl, tl, cp.colored(), rgba@, w as int, q as int, cp.palette().len() as int));
                assert(q as int == y * w + x);
            }
            proof {
                assert(mv[k as int] == masks@[k as int]@);
                assert(gy * 6 + gx < 66);
            }
            let a = masks[k][gy * 6 + gx] as u32;
            let tones = [tr, tg, tb];
            for c in 0..3usize
                invariant
                    canvas@.len() == (yy * ow + xx) * 3 + c,
                    xx < ow,
                    yy < oh,
                    ow == w * 6,
                    (w as int) * 6 * ((h as int) * 11) * 3 <= isize::MAX,
                    (yy * ow + xx) * 3 + 3 <= (w as int) * 6 * ((h as int) * 11) * 3,
                    forall|j: int| 0 <= j < canvas@.len() ==> #[trigger] canvas@[j] == canvas_byte(cl, tl, cp.colored(), mv, rgba@, w as int, j),
                    (k as int) < mv.len(),
                    mv[k as int].len() == 66,
                    a <= 255,
                    a == mv[k as int][gy * 6 + gx],
                    x == xx / 6,
                    gx == xx % 6,
                    y == yy / 11,
                    gy == yy % 11,
                    cell_ok((k, tr, tg, tb), cl, tl, cp.colored(), rgba@, w as int, (y * w + x) as int, cp.palette().len() as int),
                    tones@ == seq![tr, tg, tb],
            {
                let t = tones[c] as u32;
                proof {
                    assert(t * a <= 255 * 255) by (nonlinear_arith)
                        requires
                            t <= 255,
                            a <= 255,
                    ;
                    assert(t * a / 255 <= 255) by (nonlinear_arith)
                        requires
                            t * a <= 255 * 255,
                            t * a >= 0,
                    ;
                }
                let v = if a > 0 { (t * a / 255) as u8 } else { 0u8 };
                proof {
                    let j = (yy * ow + xx) * 3 + c;
                    lemma_px_split3(ow as int, xx as int, yy as int, c as int);
                    assert(j == px3(ow as int, xx as int, yy as int, c as int));
                    let p = j / 3;
                    assert(p % (ow as int) == xx && p / (ow as int) == yy);
                    assert(j % 3 == c);
                    let i = ((yy / 11) * w + xx / 6) * 4;
                    assert(i == (y * w + x) * 4);
                    assert(t as int == tone(cl, rgba@, cp.colored(), i, c as int));
                    assert((t * a / 255) as u8 == ((tone(cl, rgba@, cp.colored(), i, c as int) * (a as int)) / 255) as u8);
                    if a == 0 {
                        let tv = tone(cl, rgba@, cp.colored(), i, c as int);
                        assert(tv * (a as int) == 0) by (nonlinear_arith)
                            requires
                                a == 0,
                        ;
                    }
                }
                canvas.push(v);
            }
        }
        proof {
            assert(((yy as int) * (ow as int) + (ow as int)) * 3 == ((yy as int) + 1) * (ow as int) * 3) by (nonlinear_arith);
        }
    }
    proof {
        assert((oh as int) * (ow as int) * 3 == (w as int) * 6 * ((h as int) * 11) * 3) by (nonlinear_arith)
            requires
                ow == w * 6,
                oh == h * 11,
        ;
        assert(canvas@ =~= glyph_canvas(cl, tl, cp.colored(), mv, rgba@, w as int, h as int));
    }
    canvas
}

/// A cell record `(k, r, g, b)`: `k` is the palette index of cell `q` of a
/// `w`-wide frame and `(r, g, b)` its tone.
pub open spec fn cell_ok(cell: (usize, u8, u8, u8), cl: Seq<u8>, tl: Seq<u8>, color: bool, rgba: Seq<u8>, w: int, q: int, pal_len: int) -> bool {
    let i = q * 4;
    &&& cell.0 == tl[luma(cl[rgba[i] as int] as int, cl[rgba[i + 1] as int] as int, cl[rgba[i + 2] as int] as int)]
    &&& (cell.0 as int) < pal_len
    &&& cell.1 as int == tone(cl, rgba, color, i, 0)
    &&& cell.2 as int == tone(cl, rgba, color, i, 1)
    &&& cell.3 as int == tone(cl, rgba, color, i, 2)
}

/// Byte index of channel `c` of pixel (`x`, `y`) in an RGB24 image `w`
/// pixels wide.
pub open spec fn px3(w: int, x: int, y: int, c: int) -> int {
    (y * w + x) * 3 + c
}

proof fn lemma_px_bound3(w: int, h: int, x: int, y: int)
    requires
        0 <= x < w,
        0 <= y < h,
    ensures
        (y * w + x) * 3 + 3 <= w * h * 3,
        0 <= y * w,
{
    lemma_cell_bound(w, h, x, y, 3);
}

proof fn lemma_px_split3(w: int, x: int, y: int, c: int)
    requires
        0 <= x < w,
        0 <= y,
        0 <= c < 3,
    ensures
        px3(w, x, y, c) / 3 == y * w + x,
        px3(w, x, y, c) % 3 == c,
        (y * w + x) % w == x,
        (y * w + x) / w == y,
{
    vstd::arithmetic::div_mod::lemma_fundamental_div_mod_converse(y * w + x, w, y, x);
}

/// Channel `c` of the tone of the cell whose RGBA pixel starts at `i`: its
/// table colour in colour mode, white otherwise.
pub open spec fn tone(cl: Seq<u8>, rgba: Seq<u8>, color: bool, i: int, c: int) -> int {
    if color {
        cl[rgba[i + c] as int] as int
    } else {
        255
    }
}

/// Byte `j` of the glyph image of a `w`-wide frame.
pub open spec fn canvas_byte(cl: Seq<u8>, tl: Seq<u8>, color: bool, masks: Seq<Seq<u8>>, rgba: Seq<u8>, w: int, j: int) -> u8 {
    let ow = w * 6;
    let p = j / 3;
    let c = j % 3;
    let xx = p % ow;
    let yy = p / ow;
    let i = ((yy / 11) * w + xx / 6) * 4;
    let k = tl[luma(cl[rgba[i] as int] as int, cl[rgba[i + 1] as int] as int, cl[rgba[i + 2] as int] as int)];
    let a = masks[k as int][(yy % 11) * 6 + xx % 6] as int;
    ((tone(cl, rgba, color, i, c) * a) / 255) as u8
}

/// The glyph image of a `w` x `h` frame: `w * 6` x `h * 11` RGB24 pixels.
pub open spec fn glyph_canvas(cl: Seq<u8>, tl: Seq<u8>, color: bool, masks: Seq<Seq<u8>>, rgba: Seq<u8>, w: int, h: int) -> Seq<u8> {
    Seq::new((w * 6 * (h * 11) * 3) as nat, |j: int| canvas_byte(cl, tl, color, masks, rgba, w, j))
}

proof fn lemma_cell_bound(w: int, h: int, x: int, y: int, n: int)
    requires
        0 <= x < w,
        0 <= y < h,
        n > 0,
    ensures
        0 <= y * w,
        (y * w + x) * n + n <= w * h * n,
{
    assert((y * w + x) * n + n <= w * h * n) by (nonlinear_arith)
        requires
            0 <= x < w,
            0 <= y < h,
            n > 0,
    {
        assert(y * w + x + 1 <= h * w);
        assert((y * w + x + 1) * n <= (h * w) * n);
    }
    assert(0 <= y * w) by (nonlinear_arith)
        requires
            0 <= y,
            0 <= w,
    ;
}

/// The palette character of pixel (`x`, `y`) of a `w`-wide RGBA frame.
pub open spec fn cell_char(pal: Seq<char>, cl: Seq<u8>, tl: Seq<u8>, rgba: Seq<u8>, w: int, x: int, y: int) -> char {
    let i = (y * w + x) * 4;
    pal[tl[luma(cl[rgba[i] as int] as int, cl[rgba[i + 1] as int] as int, cl[rgba[i + 2] as int] as int)] as int]
}

/// The characters of row `y`.
pub open spec fn ascii_row(pal: Seq<char>, cl: Seq<u8>, tl: Seq<u8>, rgba: Seq<u8>, w: int, y: int) -> Seq<char> {
    Seq::new(w as nat, |x: int| cell_char(pal, cl, tl, rgba, w, x, y))
}

/// The text of the first `h` rows, each followed by a newline.
pub open spec fn ascii_text(pal: Seq<char>, cl: Seq<u8>, tl: Seq<u8>, rgba: Seq<u8>, w: int, h: int) -> Seq<char>
    decreases h,
{
    if h <= 0 {
        Seq::empty()
    } else {
        ascii_text(pal, cl, tl, rgba, w, h - 1) + ascii_row(pal, cl, tl, rgba, w, h - 1).push('\n')
    }
}

// ---------------------------------------------------------------------------
// One webcam frame
// ---------------------------------------------------------------------------

/// The error for a frame-size header that is absent or not a decimal `u32`.
pub open spec fn header_error(name: Seq<char>) -> Seq<char> {
    "missing/invalid header "@ + name
}

/// The error for a frame body whose length is not `w * h * 4`.
pub open spec fn size_mismatch_error() -> Seq<char> {
    "frame size mismatch"@
}

/// Reads a frame dimension from the text of request header `name`
/// (`None` when the header is absent or not text).
pub fn header_u32(value: Option<String>, name: &str) -> (r: Result<u32, String>)
    ensures
        r is Ok <==> (value matches Some(s) && parse_u32(s@) is Some),
        r matches Ok(v) ==> (value matches Some(s) && parse_u32(s@) == Some(v)),
        r matches Err(e) ==> e@ == header_error(name@),
{
    if let Some(s) = value {
        let cs = chars_of(s.as_str());
        if let Some(v) = parse_u32_chars(&cs) {
            return Ok(v);
        }
    }
    let mut e = String::from_str("missing/invalid header ");
    e.append(name);
    Err(e)
}

/// Checks that a raw RGBA frame of `len` bytes has `w` x `h` pixels.
pub fn check_frame_size(w: u32, h: u32, len: usize) -> (r: Result<(), String>)
    ensures
        r is Ok <==> (w as int) * (h as int) * 4 == len,
        r matches Err(e) ==> e@ == size_mismatch_error(),
{
    let (wl, hl) = (w as u128, h as u128);
    assert(wl * hl * 4 <= 0xffff_ffff_ffff_ffff_ffff_ffff) by (nonlinear_arith)
        requires
            wl <= 0xffff_ffff,
            hl <= 0xffff_ffff,
    ;
    let need = wl * hl * 4;
    if need != len as u128 {
        return Err(String::from_str("frame size mismatch"));
    }
    Ok(())
}

/// The text the webcam preview shows for one frame: the width and height
/// are read from their headers (`x-frame-width`, `x-frame-height`, in that
/// order), the body must hold exactly `w * h` RGBA pixels, and the frame is
/// converted with `rgba_to_ascii_text`.
pub fn webcam_frame_text(rgba: &[u8], width_header: Option<String>, height_header: Option<String>, cp: &CompiledParams) -> (r: Result<String, String>)
    requires
        cp.wf(),
    ensures
        ({
            let wp = match width_header { Some(s) => parse_u32(s@), None => None };
            let hp = match height_header { Some(s) => parse_u32(s@), None => None };
            match (wp, hp) {
                (None, _) => r matches Err(e) && e@ == header_error("x-frame-width"@),
                (Some(_), None) => r matches Err(e) && e@ == header_error("x-frame-height"@),
                (Some(w), Some(h)) => if (w as int) * (h as int) * 4 == rgba@.len() {
                    r matches Ok(t) && t@ == ascii_text(cp.palette(), cp.channel_table(), cp.char_table(), rgba@, w as int, h as int)
                } else {
                    r matches Err(e) && e@ == size_mismatch_error()
                },
            }
        }),
{
    let w = match header_u32(width_header, "x-frame-width") {
        Ok(v) => v,
        Err(e) => return Err(e),
    };
    let h = match header_u32(height_header, "x-frame-height") {
        Ok(v) => v,
        Err(e) => return Err(e),
    };
    match check_frame_size(w, h, rgba.len()) {
        Ok(()) => {},
        Err(e) => return Err(e),
    }
    Ok(rgba_to_ascii_text(rgba, w, h, cp))
}

/// The bytes of the JPEG file that `image`'s baseline encoder writes for a
/// `w` x `h` RGB24 image at quality `quality`.
pub uninterp spec fn jpeg_bytes(rgb: Seq<u8>, w: u32, h: u32, quality: u8) -> Seq<u8>;

/// Encodes an RGB24 buffer with `image::codecs::jpeg::JpegEncoder`
/// (`new_with_quality`, then `encode` with `ExtendedColorType::Rgb8`) into
/// memory. The claim: the encoder refuses exactly the images with a side of
/// 0 or above 65535 (JPEG's limit) and, writing to memory, fails in no other
/// way; what it writes is a function of its arguments. The error's text is
/// the encoder's message and is not stated. `encode` panics unless the
/// buffer holds exactly `w * h * 3` bytes, hence the precondition.
#[verifier::external_body]
pub(crate) fn jpeg_encode(rgb: &[u8], w: u32, h: u32, quality: u8) -> (r: Result<Vec<u8>, String>)
    requires
        rgb@.len() == (w as int) * (h as int) * 3,
    ensures
        r is Ok <==> (1 <= w <= 65535 && 1 <= h <= 65535),
        r matches Ok(bytes) ==> bytes@ == jpeg_bytes(rgb@, w, h, quality),
{
    let mut out: Vec<u8> = Vec::new();
    let mut encoder = image::codecs::jpeg::JpegEncoder::new_with_quality(&mut out, quality);
    match encoder.encode(rgb, w, h, image::ExtendedColorType::Rgb8) {
        Ok(()) => Ok(out),
        Err(e) => Err(e.to_string()),
    }
}

/// JPEG quality of virtual-camera frames.
pub const JPEG_QUALITY: u8 = 85;

/// Encodes a rendered virtual-camera frame (`w` x `h` RGB24) as JPEG at
/// `JPEG_QUALITY`; an image the encoder refuses (a side of 0 or above 65535)
/// gives an error that starts with `JPEG encoding error: `.
pub fn encode_jpeg(rgb: &[u8], w: u32, h: u32) -> (r: Result<Vec<u8>, String>)
    requires
        rgb@.len() == (w as int) * (h as int) * 3,
    ensures
        r is Ok <==> (1 <= w <= 65535 && 1 <= h <= 65535),
        r matches Ok(bytes) ==> bytes@ == jpeg_bytes(rgb@, w, h, JPEG_QUALITY),
        r matches Err(e) ==> "JPEG encoding error: "@.is_prefix_of(e@),
{
    match jpeg_encode(rgb, w, h, JPEG_QUALITY) {
        Ok(bytes) => Ok(bytes),
        Err(e) => {
            let mut m = String::from_str("JPEG encoding error: ");
            m.append(e.as_str());
            proof {
                assert("JPEG encoding error: "@.is_prefix_of(m@)) by {
                    assert(m@.subrange(0, "JPEG encoding error: "@.len() as int) =~= "JPEG encoding error: "@);
                }
            }
            Err(m)
        },
    }
}

/// Where a rendered virtual-camera frame goes.
#[derive(Clone, Copy, PartialEq, Eq, Structural, Debug)]
pub enum VcamSink {
    /// A native backend (softcam or v4l2loopback) takes RGB directly.
    Backend,
    /// The MJPEG server takes the frame as JPEG.
    Mjpeg,
    /// No camera is running any more.
    Nowhere,
}

/// Whether a frame is rendered for the virtual camera: the camera state
/// could be read without waiting (`camera` is `Some((has_backend,
/// has_mjpeg))`), a camera is running, and no earlier frame is still being
/// rendered (`busy`); otherwise the frame is skipped.
pub fn should_render_vcam_frame(camera: Option<(bool, bool)>, busy: bool) -> (r: bool)
    ensures
        r == (camera matches Some((b, m)) && (b || m) && !busy),
{
    match camera {
        Some((has_backend, has_mjpeg)) => (has_backend || has_mjpeg) && !busy,
        None => false,
    }
}

/// The sink of a rendered frame: a native backend is preferred over the
/// MJPEG server.
pub fn vcam_sink(has_backend: bool, has_mjpeg: bool) -> (s: VcamSink)
    ensures
        s == (if has_backend {
            VcamSink::Backend
        } else if has_mjpeg {
            VcamSink::Mjpeg
        } else {
            VcamSink::Nowhere
        }),
{
    if has_backend {
        VcamSink::Backend
    } else if has_mjpeg {
        VcamSink::Mjpeg
    } else {
        VcamSink::Nowhere
    }
}

/// The state the webcam commands share: the compiled settings and whether
/// a virtual-camera frame is being rendered.
pub struct WebcamState {
    pub compiled: CompiledParams,
    pub vcam_busy: bool,
}

/// The channel table of the neutral settings (brightness 0, contrast 0,
/// gamma 1): every level maps to itself.
pub open spec fn identity_table() -> Seq<u8> {
    Seq::new(256, |i: int| i as u8)
}

fn identity_lut() -> (v: Vec<u8>)
    ensures
        v@ == identity_table(),
{
    let mut v: Vec<u8> = Vec::new();
    for i in 0..256u32
        invariant
            v@.len() == i,
            forall|j: int| 0 <= j < i ==> #[trigger] v@[j] == j as u8,
    {
        v.push(i as u8);
    }
    proof {
        assert(v@ =~= identity_table());
    }
    v
}

impl WebcamState {
    /// The settings are consistent.
    pub open spec fn wf(&self) -> bool {
        self.compiled.wf()
    }
}

impl Default for WebcamState {
    /// The first built-in palette with neutral settings, monochrome, not
    /// inverted, and no frame in flight.
    fn default() -> (st: Self)
        ensures
            st.wf(),
            st.compiled.palette() == builtin_palette(0),
            st.compiled.channel_table() == identity_table(),
            !st.compiled.colored(),
            forall|i: int| 0 <= i < 256 ==> #[trigger] st.compiled.char_table()[i] == char_lut_entry(i, 10, false),
            !st.vcam_busy,
    {
        proof {
            reveal_strlit(" .:-=+*#%@");
        }
        match CompiledParams::compile(builtin_palette_text(0), identity_lut(), false, false) {
            Ok(compiled) => WebcamState { compiled, vcam_busy: false },
            Err(_) => {
                proof {
                    assert(false);
                }
                WebcamState { compiled: CompiledParams { palette_chars: Vec::new(), channel_lut: Vec::new(), char_lut: Vec::new(), use_color: false }, vcam_busy: false }
            },
        }
    }
}

/// The text of a `w` x `h` frame has `h` lines of `w` characters, each
/// ended by a newline: `h * (w + 1)` characters in all, the newlines at
/// every `(w + 1)`-th position.
pub proof fn lemma_ascii_text_shape(pal: Seq<char>, cl: Seq<u8>, tl: Seq<u8>, rgba: Seq<u8>, w: int, h: int)
    requires
        w >= 0,
        h >= 0,
    ensures
        ascii_text(pal, cl, tl, rgba, w, h).len() == h * (w + 1),
        forall|y: int| 0 <= y < h ==> #[trigger] ascii_text(pal, cl, tl, rgba, w, h)[y * (w + 1) + w] == '\n',
    decreases h,
{
    if h > 0 {
        lemma_ascii_text_shape(pal, cl, tl, rgba, w, h - 1);
        let prev = ascii_text(pal, cl, tl, rgba, w, h - 1);
        let row = ascii_row(pal, cl, tl, rgba, w, h - 1).push('\n');
        assert(prev.len() == (h - 1) * (w + 1));
        assert((h - 1) * (w + 1) + (w + 1) == h * (w + 1)) by (nonlinear_arith);
        assert forall|y: int| 0 <= y < h implies #[trigger] ascii_text(pal, cl, tl, rgba, w, h)[y * (w + 1) + w] == '\n' by {
            if y < h - 1 {
                assert(y * (w + 1) + w < (h - 1) * (w + 1)) by (nonlinear_arith)
                    requires
                        y < h - 1,
                        w >= 0,
                ;
                assert(prev[y * (w + 1) + w] == '\n');
            } else {
                assert(y * (w + 1) + w == prev.len() + w) by (nonlinear_arith)
                    requires
                        y == h - 1,
                        prev.len() == (h - 1) * (w + 1),
                ;
                assert(row[w] == '\n');
            }
        }
    }
}

/// Each character of the text is chosen by its pixel's ITU-R 601 luma: for
/// pixel (`x`, `y`) with table colours (`r`, `g`, `b`) the character at
/// position `y * (w + 1) + x` is palette entry
/// `char_table[(299 * r + 587 * g + 114 * b) / 1000]`, so red weighs more
/// than blue and green most.
pub proof fn lemma_ascii_text_cell(pal: Seq<char>, cl: Seq<u8>, tl: Seq<u8>, rgba: Seq<u8>, w: int, h: int, x: int, y: int)
    requires
        0 <= x < w,
        0 <= y < h,
    ensures
        ({
            let i = (y * w + x) * 4;
            let r = cl[rgba[i] as int] as int;
            let g = cl[rgba[i + 1] as int] as int;
            let b = cl[rgba[i + 2] as int] as int;
            ascii_text(pal, cl, tl, rgba, w, h)[y * (w + 1) + x] == pal[tl[(299 * r + 587 * g + 114 * b) / 1000] as int]
        }),
    decreases h,
{
    lemma_ascii_text_shape(pal, cl, tl, rgba, w, h - 1);
    let prev = ascii_text(pal, cl, tl, rgba, w, h - 1);
    let row = ascii_row(pal, cl, tl, rgba, w, h - 1).push('\n');
    assert(ascii_text(pal, cl, tl, rgba, w, h) == prev + row);
    if y < h - 1 {
        lemma_ascii_text_cell(pal, cl, tl, rgba, w, h - 1, x, y);
        assert(y * (w + 1) + x < (h - 1) * (w + 1)) by (nonlinear_arith)
            requires
                y < h - 1,
                0 <= x < w,
        ;
    } else {
        assert(y * (w + 1) + x == prev.len() + x) by (nonlinear_arith)
            requires
                y == h - 1,
                prev.len() == (h - 1) * (w + 1),
        ;
        assert(row[x] == cell_char(pal, cl, tl, rgba, w, x, y));
    }
}

/// Pixel (`xx`, `yy`) of the glyph image lies in cell (`xx / 6`, `yy / 11`);
/// channel `c` of it is `tone * a / 255`, `a` being the alpha of the cell's
/// glyph at that spot and the glyph chosen by the cell's luma. The tone is
/// channel `c` of the cell's colour after the channel table in colour mode
/// (the same colour that chose the glyph), white otherwise.
pub proof fn lemma_glyph_canvas_pixel(cl: Seq<u8>, tl: Seq<u8>, color: bool, masks: Seq<Seq<u8>>, rgba: Seq<u8>, w: int, h: int, xx: int, yy: int, c: int)
    requires
        0 <= xx < w * 6,
        0 <= yy < h * 11,
        0 <= c < 3,
    ensures
        ({
            let i = ((yy / 11) * w + xx / 6) * 4;
            let r = cl[rgba[i] as int] as int;
            let g = cl[rgba[i + 1] as int] as int;
            let b = cl[rgba[i + 2] as int] as int;
            let k = tl[(299 * r + 587 * g + 114 * b) / 1000] as int;
            let a = masks[k][(yy % 11) * 6 + xx % 6] as int;
            let t = if color { cl[rgba[i + c] as int] as int } else { 255 };
            let j = (yy * (w * 6) + xx) * 3 + c;
            &&& j < glyph_canvas(cl, tl, color, masks, rgba, w, h).len()
            &&& glyph_canvas(cl, tl, color, masks, rgba, w, h)[j] == ((t * a) / 255) as u8
        }),
{
    lemma_px_split3(w * 6, xx, yy, c);
    lemma_px_bound3(w * 6, h * 11, xx, yy);
}

} // verus!
