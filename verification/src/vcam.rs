//! Virtual camera: backend kinds, the fixed frame format, and fitting an
//! RGB24 frame of any size into that format (aspect-fit, centred,
//! letterboxed with black, never cropped).

use vstd::prelude::*;

verus! {

/// Which virtual-camera backend is active.
#[derive(Clone, Copy, PartialEq, Eq, Structural, Debug)]
pub enum VcamBackendKind {
    /// A real DirectShow camera through softcam (Windows).
    Softcam,
    /// The MJPEG HTTP server fallback.
    MjpegServer,
    /// A v4l2loopback device (Linux).
    V4l2Loopback,
}

/// A virtual-camera backend that frames of ASCII art are sent to.
pub trait VcamBackend {
    fn kind(&self) -> VcamBackendKind;

    /// Sends a finished RGB24 frame of `w` x `h` pixels.
    fn send_rgb(&mut self, rgb: &[u8], w: u32, h: u32) -> Result<(), String>;

    /// Changes the target frame rate; backends that cannot, ignore it.
    fn set_fps(&mut self, _fps: u32) {
    }
}

/// A frame size rounded down to multiples of 4, as the camera consumers
/// (4:2:0 conversion) need.
pub open spec fn aligned4(v: u32) -> u32 {
    (v - v % 4) as u32
}

/// The fixed frame format of a virtual camera: both sides rounded down to
/// multiples of 4; a side that becomes 0 is refused.
pub fn vcam_frame_size(width: u32, height: u32) -> (r: Result<(u32, u32), String>)
    ensures
        r is Ok <==> aligned4(width) > 0 && aligned4(height) > 0,
        r matches Ok(p) ==> p.0 == aligned4(width) && p.1 == aligned4(height),
        r matches Err(e) ==> e@ == "Invalid vcam frame size"@,
{
    let w = width - width % 4;
    let h = height - height % 4;
    if w == 0 || h == 0 {
        return Err(String::from_str("Invalid vcam frame size"));
    }
    Ok((w, h))
}

// ---------------------------------------------------------------------------
// Pixel geometry
// ---------------------------------------------------------------------------

/// Byte index of channel `c` of pixel (`x`, `y`) in an RGB24 image `w`
/// pixels wide.
pub open spec fn px(w: int, x: int, y: int, c: int) -> int {
    (y * w + x) * 3 + c
}

proof fn lemma_px_bound(w: int, h: int, x: int, y: int, c: int)
    requires
        0 <= x < w,
        0 <= y < h,
        0 <= c < 3,
    ensures
        0 <= px(w, x, y, c) < w * h * 3,
        0 <= y * w <= y * w + x < h * w,
{
    assert(y * w + x < h * w) by (nonlinear_arith)
        requires
            0 <= x < w,
            0 <= y < h,
    ;
    assert(0 <= y * w) by (nonlinear_arith)
        requires
            0 <= w,
            0 <= y,
    ;
    assert(h * w * 3 == w * h * 3) by (nonlinear_arith);
}

proof fn lemma_px_split(w: int, x: int, y: int, c: int)
    requires
        0 <= x < w,
        0 <= y,
        0 <= c < 3,
    ensures
        px(w, x, y, c) / 3 == y * w + x,
        px(w, x, y, c) % 3 == c,
        (y * w + x) % w == x,
        (y * w + x) / w == y,
{
    vstd::arithmetic::div_mod::lemma_fundamental_div_mod_converse(y * w + x, w, y, x);
}

/// Whether byte `i` of a `w`-wide image lies in the rectangle of pixels
/// `x0 <= x < x0 + rw`, `y0 <= y < y0 + rh`.
pub open spec fn in_rect(i: int, w: int, x0: int, y0: int, rw: int, rh: int) -> bool {
    let p = i / 3;
    let x = p % w;
    let y = p / w;
    0 <= i && x0 <= x < x0 + rw && y0 <= y < y0 + rh
}

/// Colour channel read for output channel `c` (R and B exchanged when
/// `swap` is set).
pub open spec fn channel(c: int, swap: bool) -> int {
    if swap {
        2 - c
    } else {
        c
    }
}

// ---------------------------------------------------------------------------
// Fitted size
// ---------------------------------------------------------------------------

/// `p / q` rounded to the nearest integer, halves up.
pub open spec fn round_div(p: int, q: int) -> int {
    (2 * p + q) / (2 * q)
}

/// `v` clamped to `1..=hi`.
pub open spec fn clamp_dim(v: int, hi: int) -> int {
    if v < 1 {
        1
    } else if v > hi {
        hi
    } else {
        v
    }
}

/// The size of a `sw` x `sh` frame scaled by `min(dw / sw, dh / sh)` so that
/// it fits `dw` x `dh` with its proportions kept (each side rounded to the
/// nearest pixel and at least 1).
pub open spec fn fit_dims(sw: int, sh: int, dw: int, dh: int) -> (int, int) {
    if dw * sh <= dh * sw {
        (dw, clamp_dim(round_div(sh * dw, sw), dh))
    } else {
        (clamp_dim(round_div(sw * dh, sh), dw), dh)
    }
}

fn fit_dims_exec(sw: u32, sh: u32, dw: u32, dh: u32) -> (r: (u32, u32))
    requires
        sw > 0,
        sh > 0,
        dw > 0,
        dh > 0,
    ensures
        (r.0 as int, r.1 as int) == fit_dims(sw as int, sh as int, dw as int, dh as int),
        1 <= r.0 <= dw,
        1 <= r.1 <= dh,
{
    let (w, h, tw, th) = (sw as u128, sh as u128, dw as u128, dh as u128);
    assert(tw * h <= 0xffff_ffff_ffff_ffff) by (nonlinear_arith)
        requires
            tw <= 0xffff_ffff,
            h <= 0xffff_ffff,
    ;
    assert(th * w <= 0xffff_ffff_ffff_ffff) by (nonlinear_arith)
        requires
            th <= 0xffff_ffff,
            w <= 0xffff_ffff,
    ;
    if tw * h <= th * w {
        assert(h * tw <= 0xffff_ffff_ffff_ffff) by (nonlinear_arith)
            requires
                tw <= 0xffff_ffff,
                h <= 0xffff_ffff,
        ;
        let v = (2 * (h * tw) + w) / (2 * w);
        let fh = if v < 1 {
            1
        } else if v > th {
            th
        } else {
            v
        };
        (dw, fh as u32)
    } else {
        assert(w * th <= 0xffff_ffff_ffff_ffff) by (nonlinear_arith)
            requires
                th <= 0xffff_ffff,
                w <= 0xffff_ffff,
        ;
        let v = (2 * (w * th) + h) / (2 * h);
        let fw = if v < 1 {
            1
        } else if v > tw {
            tw
        } else {
            v
        };
        (fw as u32, dh)
    }
}

/// When the fitted frame is narrower than the source, it is also no taller
/// than the source.
proof fn lemma_fit_shrinks(sw: int, sh: int, dw: int, dh: int)
    requires
        sw > 0,
        sh > 0,
        dw > 0,
        dh > 0,
        fit_dims(sw, sh, dw, dh).0 < sw,
    ensures
        fit_dims(sw, sh, dw, dh).1 <= sh,
{
    if dw * sh <= dh * sw {
        let v = round_div(sh * dw, sw);
        assert(v <= sh) by (nonlinear_arith)
            requires
                v == (2 * (sh * dw) + sw) / (2 * sw),
                dw < sw,
                sw > 0,
                sh > 0,
        {
            assert(2 * (sh * dw) + sw < (2 * sw) * (sh + 1));
        }
    } else {
        if dh > sh {
            let v = round_div(sw * dh, sh);
            assert(v >= sw) by (nonlinear_arith)
                requires
                    v == (2 * (sw * dh) + sh) / (2 * sh),
                    dh >= sh + 1,
                    sw > 0,
                    sh > 0,
            {
                assert(2 * (sw * dh) + sh >= (2 * sh) * sw);
            }
            assert(dw > sw) by (nonlinear_arith)
                requires
                    dw * sh > dh * sw,
                    dh > sh,
                    sw > 0,
                    sh > 0,
            ;
        }
    }
}

/// Nearest-neighbour source coordinate for output coordinate `i` when `s`
/// source pixels are stretched over `f` output pixels.
pub open spec fn near(i: int, s: int, f: int) -> int {
    if i * s / f < s - 1 {
        i * s / f
    } else {
        s - 1
    }
}

// ---------------------------------------------------------------------------
// The outside resampler
// ---------------------------------------------------------------------------

/// The bytes of a `sw` x `sh` RGB24 image resampled to `w` x `h` with the
/// Triangle (bilinear) filter of `image::imageops::resize`.
pub uninterp spec fn triangle_resized(src: Seq<u8>, sw: u32, sh: u32, w: u32, h: u32) -> Seq<u8>;

/// Calls `image::imageops::resize` with `FilterType::Triangle` on the RGB24
/// buffer `src` of `sw` x `sh` pixels. The claim is that the result is the
/// raw buffer of a `w` x `h` RGB24 image (its length is `w * h * 3`) and
/// depends only on the arguments; what the filter computes is not stated.
/// The bounds keep the resampler's buffers (a `sw` x `h` RGBA `f32` image
/// and the `w` x `h` result) within what can be allocated.
#[verifier::external_body]
fn resize_triangle(src: &[u8], sw: u32, sh: u32, w: u32, h: u32) -> (out: Vec<u8>)
    requires
        src@.len() == sw * sh * 3,
        sw > 0,
        sh > 0,
        w > 0,
        h > 0,
        (sw as int) * (h as int) * 16 <= isize::MAX,
        (w as int) * (h as int) * 3 <= isize::MAX,
    ensures
        out@ == triangle_resized(src@, sw, sh, w, h),
        out@.len() == w * h * 3,
{
    match image::ImageBuffer::<image::Rgb<u8>, &[u8]>::from_raw(sw, sh, src) {
        Some(view) => image::imageops::resize(&view, w, h, image::imageops::FilterType::Triangle).into_raw(),
        None => Vec::new(),
    }
}

// ---------------------------------------------------------------------------
// Fitting a frame
// ---------------------------------------------------------------------------

/// The arguments describe a real source frame and a real target buffer.
pub open spec fn frame_args_valid(src_len: int, sw: int, sh: int, dst_len: int, dw: int, dh: int) -> bool {
    &&& sw > 0
    &&& sh > 0
    &&& dw > 0
    &&& dh > 0
    &&& sw * sh * 3 <= src_len
    &&& dw * dh * 3 <= dst_len
}

/// Channel `c` of pixel (`x`, `y`) of the fitted frame (`fw` x `fh`):
/// a verbatim copy when the size is unchanged, the nearest source pixel when
/// enlarging, and the Triangle-resampled image `scaled` when shrinking.
pub open spec fn fitted_byte(
    src: Seq<u8>,
    scaled: Seq<u8>,
    sw: int,
    sh: int,
    fw: int,
    fh: int,
    x: int,
    y: int,
    c: int,
    swap: bool,
) -> u8 {
    let ch = channel(c, swap);
    if fw == sw && fh == sh {
        src[px(sw, x, y, ch)]
    } else if fw >= sw {
        src[px(sw, near(x, sw, fw), near(y, sh, fh), ch)]
    } else {
        scaled[px(fw, x, y, ch)]
    }
}

/// The resampled source used when the fitted frame is narrower than the
/// source.
pub open spec fn scaled_source(src: Seq<u8>, sw: u32, sh: u32, dw: u32, dh: u32) -> Seq<u8> {
    let fd = fit_dims(sw as int, sh as int, dw as int, dh as int);
    triangle_resized(src.take(sw * sh * 3), sw, sh, fd.0 as u32, fd.1 as u32)
}

/// Whether fitting shrinks the frame (it becomes narrower than the
/// source); only then is the resampled image used.
pub open spec fn shrinks(sw: u32, sh: u32, dw: u32, dh: u32) -> bool {
    fit_dims(sw as int, sh as int, dw as int, dh as int).0 < sw
}

/// Byte `i` of the target after fitting, with `scaled` the resampled
/// source: inside the centred fitted rectangle the fitted frame, elsewhere
/// black when the fitted frame leaves a border (all of the buffer, also
/// past the `dw` x `dh` image), and the old byte otherwise.
pub open spec fn fit_byte(
    src: Seq<u8>,
    scaled: Seq<u8>,
    old: Seq<u8>,
    sw: u32,
    sh: u32,
    dw: u32,
    dh: u32,
    swap: bool,
    i: int,
) -> u8 {
    let fd = fit_dims(sw as int, sh as int, dw as int, dh as int);
    let fw = fd.0;
    let fh = fd.1;
    let x0 = (dw - fw) / 2;
    let y0 = (dh - fh) / 2;
    let letterbox = fw < dw || fh < dh;
    if i < dw * dh * 3 && in_rect(i, dw as int, x0, y0, fw, fh) {
        let p = i / 3;
        fitted_byte(src, scaled, sw as int, sh as int, fw, fh,
            p % (dw as int) - x0, p / (dw as int) - y0, i % 3, swap)
    } else if letterbox {
        0
    } else {
        old[i]
    }
}

/// The target buffer after fitting with the resampled source `scaled`:
/// unchanged for invalid arguments, otherwise `fit_byte` at every index.
pub open spec fn fit_output_with(src: Seq<u8>, scaled: Seq<u8>, sw: u32, sh: u32, old: Seq<u8>, dw: u32, dh: u32, swap: bool) -> Seq<u8> {
    if !frame_args_valid(src.len() as int, sw as int, sh as int, old.len() as int, dw as int, dh as int) {
        old
    } else {
        Seq::new(old.len(), |i: int| fit_byte(src, scaled, old, sw, sh, dw, dh, swap, i))
    }
}

/// The target buffer after `fit_rgb_frame`: fitting with the source
/// resampled by the Triangle filter.
pub open spec fn fit_output(src: Seq<u8>, sw: u32, sh: u32, old: Seq<u8>, dw: u32, dh: u32, swap: bool) -> Seq<u8> {
    fit_output_with(src, scaled_source(src, sw, sh, dw, dh), sw, sh, old, dw, dh, swap)
}

/// Copies one RGB24 row from `src` to `dst`. Without `swap_rb` the row is
/// copied as it is (the two must have the same length); with it, every
/// whole pixel both rows have is copied with R and B exchanged, and the
/// rest of `dst` is left as it was.
pub fn copy_row(src: &[u8], dst: &mut [u8], swap_rb: bool)
    requires
        !swap_rb ==> src@.len() == old(dst)@.len(),
    ensures
        final(dst)@.len() == old(dst)@.len(),
        !swap_rb ==> final(dst)@ == src@,
        swap_rb ==> forall|k: int| 0 <= k < old(dst)@.len() ==> #[trigger] final(dst)@[k] == (
            if k < (if src@.len() < old(dst)@.len() { src@.len() as int } else { old(dst)@.len() as int }) / 3 * 3 {
                src@[(k / 3) * 3 + 2 - k % 3]
            } else {
                old(dst)@[k]
            }),
{
    let n = if src.len() < dst.len() { src.len() } else { dst.len() };
    let ghost old_dst = dst@;
    if swap_rb {
        let pixels = n / 3;
        for p in 0..pixels
            invariant
                pixels == n / 3,
                n <= src@.len(),
                n <= old_dst.len(),
                n == (if src@.len() < old_dst.len() { src@.len() as int } else { old_dst.len() as int }),
                dst@.len() == old_dst.len(),
                forall|k: int| 0 <= k < dst@.len() ==> #[trigger] dst@[k] == (
                    if k < p * 3 { src@[(k / 3) * 3 + 2 - k % 3] } else { old_dst[k] }),
        {
            let b = p * 3;
            dst[b] = src[b + 2];
            dst[b + 1] = src[b + 1];
            dst[b + 2] = src[b];
            proof {
                assert forall|k: int| 0 <= k < dst@.len() implies #[trigger] dst@[k] == (
                    if k < (p + 1) * 3 { src@[(k / 3) * 3 + 2 - k % 3] } else { old_dst[k] }) by {
                    if b <= k < b + 3 {
                        assert(k / 3 == p as int);
                    }
                }
            }
        }
    } else {
        for i in 0..n
            invariant
                n == src@.len(),
                n == old_dst.len(),
                dst@.len() == old_dst.len(),
                forall|k: int| 0 <= k < i ==> dst@[k] == src@[k],
        {
            dst[i] = src[i];
        }
        proof {
            assert(dst@ =~= src@);
        }
    }
}

/// Writes one output row: for each `x < xmap.len()`, the three channels of
/// source pixel `xmap[x]` of the row starting at `srow` (R and B exchanged
/// when `swap_rb`) go to the pixel starting at `d + 3 * x`.
fn copy_mapped_row(dst: &mut [u8], d: usize, src: &[u8], srow: usize, xmap: &Vec<usize>, swap_rb: bool)
    requires
        d + xmap@.len() * 3 <= old(dst)@.len(),
        forall|x: int| 0 <= x < xmap@.len() ==> srow + #[trigger] xmap@[x] * 3 + 3 <= src@.len(),
    ensures
        final(dst)@.len() == old(dst)@.len(),
        forall|k: int| 0 <= k < xmap@.len() * 3 ==> #[trigger] final(dst)@[d + k]
            == src@[srow + xmap@[k / 3] * 3 + channel(k % 3, swap_rb)],
        forall|i: int| 0 <= i < old(dst)@.len() && !(d <= i < d + xmap@.len() * 3) ==> final(dst)@[i] == old(dst)@[i],
{
    let n = xmap.len();
    let src_len = src.len();
    let dst_len = dst.len();
    for x in 0..n
        invariant
            n == xmap@.len(),
            src_len == src@.len(),
            dst_len == dst@.len(),
            d + n * 3 <= dst@.len(),
            dst@.len() == old(dst)@.len(),
            forall|x: int| 0 <= x < n ==> srow + #[trigger] xmap@[x] * 3 + 3 <= src@.len(),
            forall|k: int| 0 <= k < x * 3 ==> #[trigger] dst@[d + k]
                == src@[srow + xmap@[k / 3] * 3 + channel(k % 3, swap_rb)],
            forall|i: int| 0 <= i < old(dst)@.len() && !(d <= i < d + x * 3) ==> dst@[i] == old(dst)@[i],
    {
        proof {
            assert(srow + xmap@[x as int] * 3 + 3 <= src@.len());
        }
        let s = srow + xmap[x] * 3;
        let o = d + x * 3;
        if swap_rb {
            dst[o] = src[s + 2];
            dst[o + 1] = src[s + 1];
            dst[o + 2] = src[s];
        } else {
            dst[o] = src[s];
            dst[o + 1] = src[s + 1];
            dst[o + 2] = src[s + 2];
        }
    }
}

/// Writes the `fw` x `fh` rectangle at (`x0`, `y0`) of the `dw`-wide target:
/// output pixel (`x`, `y`) takes source pixel (`xmap[x]`, `ymap[y]`) of the
/// `srcw`-wide `source`.
fn place_rows(
    dst: &mut [u8],
    dw: usize,
    dh: usize,
    x0: usize,
    y0: usize,
    source: &[u8],
    srcw: usize,
    srch: usize,
    xmap: &Vec<usize>,
    ymap: &Vec<usize>,
    swap_rb: bool,
)
    requires
        dw * dh * 3 <= old(dst)@.len(),
        xmap@.len() > 0,
        x0 + xmap@.len() <= dw,
        y0 + ymap@.len() <= dh,
        srcw * srch * 3 <= source@.len(),
        forall|x: int| 0 <= x < xmap@.len() ==> #[trigger] xmap@[x] < srcw,
        forall|y: int| 0 <= y < ymap@.len() ==> #[trigger] ymap@[y] < srch,
    ensures
        final(dst)@.len() == old(dst)@.len(),
        forall|x: int, y: int, c: int|
            0 <= x < xmap@.len() && 0 <= y < ymap@.len() && 0 <= c < 3
                ==> #[trigger] final(dst)@[px(dw as int, x0 + x, y0 + y, c)]
                == source@[px(srcw as int, xmap@[x] as int, ymap@[y] as int, channel(c, swap_rb))],
        forall|i: int|
            0 <= i < old(dst)@.len() && !(i < dw * dh * 3 && in_rect(i, dw as int, x0 as int, y0 as int, xmap@.len() as int, ymap@.len() as int))
                ==> final(dst)@[i] == old(dst)@[i],
{
    let fw = xmap.len();
    let fh = ymap.len();
    let dst_len = dst.len();
    let source_len = source.len();
    for row in 0..fh
        invariant
            dst_len == dst@.len(),
            source_len == source@.len(),
            fw == xmap@.len(),
            fh == ymap@.len(),
            fw > 0,
            dw * dh * 3 <= dst@.len(),
            dst@.len() == old(dst)@.len(),
            x0 + fw <= dw,
            y0 + fh <= dh,
            srcw * srch * 3 <= source@.len(),
            forall|x: int| 0 <= x < xmap@.len() ==> #[trigger] xmap@[x] < srcw,
            forall|y: int| 0 <= y < ymap@.len() ==> #[trigger] ymap@[y] < srch,
            forall|x: int, y: int, c: int|
                0 <= x < fw && 0 <= y < row && 0 <= c < 3
                    ==> #[trigger] dst@[px(dw as int, x0 + x, y0 + y, c)]
                    == source@[px(srcw as int, xmap@[x] as int, ymap@[y] as int, channel(c, swap_rb))],
            forall|i: int|
                0 <= i < old(dst)@.len() && !(i < dw * dh * 3 && in_rect(i, dw as int, x0 as int, y0 as int, fw as int, row as int))
                    ==> dst@[i] == old(dst)@[i],
    {
        let sy = ymap[row];
        proof {
            lemma_px_bound(dw as int, dh as int, x0 as int, y0 + row, 0);
            assert(xmap@[0] < srcw);
            lemma_px_bound(srcw as int, srch as int, 0, sy as int, 0);
        }
        let yy = y0 + row;
        let d = (yy * dw + x0) * 3;
        let srow = sy * srcw * 3;
        proof {
            assert(srow == px(srcw as int, 0, sy as int, 0));
            assert forall|x: int| 0 <= x < xmap@.len() implies srow + #[trigger] xmap@[x] * 3 + 3 <= source@.len() by {
                lemma_px_bound(srcw as int, srch as int, xmap@[x] as int, sy as int, 2);
                assert(srow + xmap@[x] * 3 + 3 == px(srcw as int, xmap@[x] as int, sy as int, 2) + 1);
            }
            lemma_px_bound(dw as int, dh as int, x0 + fw - 1, yy as int, 2);
            assert(d + fw * 3 == px(dw as int, x0 + fw - 1, yy as int, 2) + 1);
        }
        let ghost before = dst@;
        copy_mapped_row(dst, d, source, srow, xmap, swap_rb);
        proof {
            // The row just written.
            assert forall|x: int, c: int| 0 <= x < fw && 0 <= c < 3 implies #[trigger] dst@[px(dw as int, x0 + x, yy as int, c)]
                == source@[px(srcw as int, xmap@[x] as int, sy as int, channel(c, swap_rb))] by {
                let k = x * 3 + c;
                assert(px(dw as int, x0 + x, yy as int, c) == d + k);
                assert(k / 3 == x && k % 3 == c);
                assert(dst@[d + k] == source@[srow + xmap@[k / 3] * 3 + channel(k % 3, swap_rb)]);
            }
            // Earlier rows and untouched bytes.
            assert forall|x: int, y: int, c: int|
                0 <= x < fw && 0 <= y < row + 1 && 0 <= c < 3
                    implies #[trigger] dst@[px(dw as int, x0 + x, y0 + y, c)]
                    == source@[px(srcw as int, xmap@[x] as int, ymap@[y] as int, channel(c, swap_rb))] by {
                if y == row {
                    assert(dst@[px(dw as int, x0 + x, yy as int, c)]
                        == source@[px(srcw as int, xmap@[x] as int, sy as int, channel(c, swap_rb))]);
                } else {
                    let i = px(dw as int, x0 + x, y0 + y, c);
                    lemma_px_bound(dw as int, dh as int, x0 + x, y0 + y, c);
                    lemma_px_split(dw as int, x0 + x, y0 + y, c);
                    // This byte lies in an earlier row, before `d`.
                    assert((y0 + y) * dw + x0 + x < yy * dw + x0) by (nonlinear_arith)
                        requires
                            y0 + y < yy,
                            x < fw,
                            x0 + fw <= dw,
                            x0 >= 0,
                    ;
                    assert(i < d);
                    assert(dst@[i] == before[i]);
                }
            }
            assert forall|i: int|
                0 <= i < old(dst)@.len() && !(i < dw * dh * 3 && in_rect(i, dw as int, x0 as int, y0 as int, fw as int, row + 1))
                    implies dst@[i] == old(dst)@[i] by {
                if d <= i < d + fw * 3 {
                    let k = i - d;
                    let x = k / 3;
                    let c = k % 3;
                    assert(i == px(dw as int, x0 + x, yy as int, c));
                    lemma_px_bound(dw as int, dh as int, x0 + x, yy as int, c);
                    lemma_px_split(dw as int, x0 + x, yy as int, c);
                    assert(in_rect(i, dw as int, x0 as int, y0 as int, fw as int, row + 1));
                    assert(false);
                } else {
                    assert(!(i < dw * dh * 3 && in_rect(i, dw as int, x0 as int, y0 as int, fw as int, row as int)));
                }
            }
        }
    }
}

/// Nearest-neighbour coordinates: `f` output positions over `s` source
/// positions.
fn nearest_map(s: u32, f: u32) -> (m: Vec<usize>)
    requires
        s > 0,
        f > 0,
        s <= usize::MAX,
    ensures
        m@.len() == f,
        forall|i: int| 0 <= i < f ==> #[trigger] m@[i] == near(i, s as int, f as int),
        forall|i: int| 0 <= i < f ==> #[trigger] m@[i] < s,
{
    let mut m: Vec<usize> = Vec::new();
    for i in 0..f
        invariant
            m@.len() == i,
            s > 0,
            f > 0,
            s <= usize::MAX,
            forall|j: int| 0 <= j < i ==> #[trigger] m@[j] == near(j, s as int, f as int),
            forall|j: int| 0 <= j < i ==> #[trigger] m@[j] < s,
    {
        assert((i as int) * (s as int) <= 0xffff_ffff_ffff_ffff) by (nonlinear_arith)
            requires
                i < 0x1_0000_0000,
                s < 0x1_0000_0000,
        ;
        let q = (i as u64) * (s as u64) / (f as u64);
        let v = if q < (s as u64) - 1 {
            q
        } else {
            (s as u64) - 1
        };
        m.push(v as usize);
    }
    m
}

/// The identity map on `0..n`.
fn identity_map(n: u32) -> (m: Vec<usize>)
    requires
        n <= usize::MAX,
    ensures
        m@.len() == n,
        forall|i: int| 0 <= i < n ==> #[trigger] m@[i] == i,
{
    let mut m: Vec<usize> = Vec::new();
    for i in 0..n
        invariant
            m@.len() == i,
            n <= usize::MAX,
            forall|j: int| 0 <= j < i ==> #[trigger] m@[j] == j,
    {
        m.push(i as usize);
    }
    m
}

fn checked_frame_len(w: u32, h: u32) -> (r: Option<usize>)
    ensures
        r matches Some(n) ==> n == w * h * 3,
        r is None ==> w * h * 3 > usize::MAX,
{
    match (w as usize).checked_mul(h as usize) {
        Some(p) => match p.checked_mul(3) {
            Some(n) => Some(n),
            None => None,
        },
        None => {
            assert((w as int) * (h as int) * 3 >= (w as int) * (h as int)) by (nonlinear_arith)
                requires
                    w >= 0,
                    h >= 0,
            ;
            None
        },
    }
}

/// Fits the RGB24 frame `src` (`sw` x `sh`) into the target buffer `dst`
/// (`dw` x `dh`) as `fit_rgb_frame` does, with `scaled` as the source
/// already resampled to the fitted size; it is read only when the frame
/// shrinks (`shrinks`), and must then hold the fitted frame's
/// `fw * fh * 3` bytes.
pub fn fit_rgb_frame_scaled(src: &[u8], sw: u32, sh: u32, scaled: &[u8], dst: &mut [u8], dw: u32, dh: u32, swap_rb: bool)
    requires
        src@.len() * 6 <= isize::MAX,
        old(dst)@.len() <= isize::MAX,
        frame_args_valid(src@.len() as int, sw as int, sh as int, old(dst)@.len() as int, dw as int, dh as int)
            && shrinks(sw, sh, dw, dh) ==> scaled@.len() == fit_dims(sw as int, sh as int, dw as int, dh as int).0
                * fit_dims(sw as int, sh as int, dw as int, dh as int).1 * 3,
    ensures
        final(dst)@ == fit_output_with(src@, scaled@, sw, sh, old(dst)@, dw, dh, swap_rb),
{
    if sw == 0 || sh == 0 || dw == 0 || dh == 0 {
        return;
    }
    let src_need = match checked_frame_len(sw, sh) {
        Some(n) => n,
        None => return,
    };
    let dst_need = match checked_frame_len(dw, dh) {
        Some(n) => n,
        None => return,
    };
    if src.len() < src_need || dst.len() < dst_need {
        return;
    }
    proof {
        assert(frame_args_valid(src@.len() as int, sw as int, sh as int, old(dst)@.len() as int, dw as int, dh as int));
        assert((sw as int) <= (sw as int) * (sh as int) && (sh as int) <= (sw as int) * (sh as int)) by (nonlinear_arith)
            requires
                sw >= 1,
                sh >= 1,
        ;
        assert((dw as int) <= (dw as int) * (dh as int) && (dh as int) <= (dw as int) * (dh as int)) by (nonlinear_arith)
            requires
                dw >= 1,
                dh >= 1,
        ;
    }
    let (fw, fh) = fit_dims_exec(sw, sh, dw, dh);
    let letterbox = fw < dw || fh < dh;
    let ghost old_dst = dst@;
    let ghost base = if letterbox { Seq::new(old_dst.len(), |i: int| 0u8) } else { old_dst };
    if letterbox {
        let n = dst.len();
        for i in 0..n
            invariant
                n == dst@.len(),
                n == old_dst.len(),
                forall|j: int| 0 <= j < i ==> dst@[j] == 0,
        {
            dst[i] = 0;
        }
        proof {
            assert(dst@ =~= base);
        }
    }
    let x0 = (dw - fw) / 2;
    let y0 = (dh - fh) / 2;
    let ghost scaled_v = scaled@;
    let ghost fwi = fw as int;
    let ghost fhi = fh as int;
    let ghost before_rows = dst@;
    if fw == sw && fh == sh {
        let xmap = identity_map(fw);
        let ymap = identity_map(fh);
        place_rows(dst, dw as usize, dh as usize, x0 as usize, y0 as usize, src, sw as usize, sh as usize, &xmap, &ymap, swap_rb);
        proof {
            assert forall|x: int, y: int, c: int| 0 <= x < fwi && 0 <= y < fhi && 0 <= c < 3
                implies #[trigger] dst@[px(dw as int, x0 + x, y0 + y, c)]
                    == fitted_byte(src@, scaled_v, sw as int, sh as int, fwi, fhi, x, y, c, swap_rb) by {
                assert(xmap@[x] == x && ymap@[y] == y);
            }
        }
    } else if fw >= sw {
        let xmap = nearest_map(sw, fw);
        let ymap = nearest_map(sh, fh);
        place_rows(dst, dw as usize, dh as usize, x0 as usize, y0 as usize, src, sw as usize, sh as usize, &xmap, &ymap, swap_rb);
        proof {
            assert forall|x: int, y: int, c: int| 0 <= x < fwi && 0 <= y < fhi && 0 <= c < 3
                implies #[trigger] dst@[px(dw as int, x0 + x, y0 + y, c)]
                    == fitted_byte(src@, scaled_v, sw as int, sh as int, fwi, fhi, x, y, c, swap_rb) by {
                assert(xmap@[x] == near(x, sw as int, fwi) && ymap@[y] == near(y, sh as int, fhi));
            }
        }
    } else {
        let xmap = identity_map(fw);
        let ymap = identity_map(fh);
        place_rows(dst, dw as usize, dh as usize, x0 as usize, y0 as usize, scaled, fw as usize, fh as usize, &xmap, &ymap, swap_rb);
        proof {
            assert forall|x: int, y: int, c: int| 0 <= x < fwi && 0 <= y < fhi && 0 <= c < 3
                implies #[trigger] dst@[px(dw as int, x0 + x, y0 + y, c)]
                    == fitted_byte(src@, scaled_v, sw as int, sh as int, fwi, fhi, x, y, c, swap_rb) by {
                assert(xmap@[x] == x && ymap@[y] == y);
            }
        }
    }
    proof {
        let out = fit_output_with(src@, scaled_v, sw, sh, old_dst, dw, dh, swap_rb);
        assert forall|i: int| 0 <= i < dst@.len() implies dst@[i] == out[i] by {
            if i < dw * dh * 3 && in_rect(i, dw as int, x0 as int, y0 as int, fwi, fhi) {
                let p = i / 3;
                let x = p % (dw as int);
                let y = p / (dw as int);
                let c = i % 3;
                vstd::arithmetic::div_mod::lemma_fundamental_div_mod(p, dw as int);
                assert(p == (dw as int) * y + x);
                assert(i == px(dw as int, x, y, c)) by (nonlinear_arith)
                    requires
                        i == 3 * p + c,
                        p == (dw as int) * y + x,
                ;
                assert(i == px(dw as int, x0 + (x - x0), y0 + (y - y0), c));
                assert(dst@[px(dw as int, x0 + (x - x0), y0 + (y - y0), c)]
                    == fitted_byte(src@, scaled_v, sw as int, sh as int, fwi, fhi, x - x0, y - y0, c, swap_rb));
            } else {
                assert(dst@[i] == before_rows[i]);
            }
        }
        assert(dst@ =~= out);
    }
}


/// Fits the RGB24 frame `src` (`sw` x `sh`) into the target buffer `dst`
/// (`dw` x `dh`): the frame is scaled, keeping its proportions, to the
/// largest size that fits (`fit_dims`) and centred; black borders appear
/// only on the side where proportions differ, and nothing is cropped.
/// An unchanged size is copied verbatim, enlarging uses the nearest source
/// pixel, shrinking uses the Triangle filter. `swap_rb` exchanges R and B
/// (BGR for DirectShow). Zero sizes or buffers too short for their sizes
/// leave `dst` untouched.
pub fn fit_rgb_frame(src: &[u8], sw: u32, sh: u32, dst: &mut [u8], dw: u32, dh: u32, swap_rb: bool)
    requires
        src@.len() * 6 <= isize::MAX,
        old(dst)@.len() <= isize::MAX,
    ensures
        final(dst)@ == fit_output(src@, sw, sh, old(dst)@, dw, dh, swap_rb),
{
    if sw == 0 || sh == 0 || dw == 0 || dh == 0 {
        return;
    }
    let src_need = match checked_frame_len(sw, sh) {
        Some(n) => n,
        None => return,
    };
    let dst_need = match checked_frame_len(dw, dh) {
        Some(n) => n,
        None => return,
    };
    if src.len() < src_need || dst.len() < dst_need {
        return;
    }
    let (fw, fh) = fit_dims_exec(sw, sh, dw, dh);
    if fw < sw {
        proof {
            lemma_fit_shrinks(sw as int, sh as int, dw as int, dh as int);
            assert((sw as int) * (fh as int) * 16 <= (sw as int) * (sh as int) * 16) by (nonlinear_arith)
                requires
                    fh <= sh,
                    sw >= 0,
            ;
            assert((fw as int) * (fh as int) * 3 <= (dw as int) * (dh as int) * 3) by (nonlinear_arith)
                requires
                    fw <= dw,
                    fh <= dh,
                    fw >= 0,
                    fh >= 0,
            ;
        }
        let view = &src[0..src_need];
        proof {
            assert(view@ =~= src@.take(sw * sh * 3));
        }
        let scaled = resize_triangle(view, sw, sh, fw, fh);
        fit_rgb_frame_scaled(src, sw, sh, scaled.as_slice(), dst, dw, dh, swap_rb);
    } else {
        let ghost old_dst = dst@;
        let unused: Vec<u8> = Vec::new();
        fit_rgb_frame_scaled(src, sw, sh, unused.as_slice(), dst, dw, dh, swap_rb);
        proof {
            lemma_fit_ignores_scaled(src@, unused@, scaled_source(src@, sw, sh, dw, dh), sw, sh, old_dst, dw, dh, swap_rb);
        }
    }
}

/// When the frame does not shrink, the resampled image plays no part.
proof fn lemma_fit_ignores_scaled(src: Seq<u8>, s1: Seq<u8>, s2: Seq<u8>, sw: u32, sh: u32, old: Seq<u8>, dw: u32, dh: u32, swap: bool)
    requires
        !shrinks(sw, sh, dw, dh),
    ensures
        fit_output_with(src, s1, sw, sh, old, dw, dh, swap) == fit_output_with(src, s2, sw, sh, old, dw, dh, swap),
{
    assert(fit_output_with(src, s1, sw, sh, old, dw, dh, swap) =~= fit_output_with(src, s2, sw, sh, old, dw, dh, swap));
}

// ---------------------------------------------------------------------------
// Finding the backends
// ---------------------------------------------------------------------------

/// The device a v4l2loopback module provides: the first entry of
/// `/sys/devices/virtual/video4linux` (in the order listed) whose name
/// starts with `video`, as `/dev/<name>`. `names[i]` is entry `i`'s name,
/// `None` for one that is not valid UTF-8, which ends the search with no
/// device.
pub open spec fn loopback_device_of(names: Seq<Option<Seq<char>>>) -> Option<Seq<char>>
    decreases names.len(),
{
    if names.len() == 0 {
        None
    } else {
        match names[0] {
            None => None,
            Some(n) => if "video"@.is_prefix_of(n) {
                Some("/dev/"@ + n)
            } else {
                loopback_device_of(names.drop_first())
            },
        }
    }
}

fn starts_with_video(name: &str) -> (b: bool)
    ensures
        b == "video"@.is_prefix_of(name@),
{
    let cs = crate::text::chars_of(name);
    proof {
        reveal_strlit("video");
    }
    let b = cs.len() >= 5 && cs[0] == 'v' && cs[1] == 'i' && cs[2] == 'd' && cs[3] == 'e' && cs[4] == 'o';
    proof {
        if b {
            assert(name@.subrange(0, 5) =~= "video"@);
        } else if cs.len() >= 5 {
            assert(name@.subrange(0, 5) != "video"@) by {
                if name@.subrange(0, 5) == "video"@ {
                    assert(name@.subrange(0, 5)[0] == 'v');
                    assert(name@.subrange(0, 5)[1] == 'i');
                    assert(name@.subrange(0, 5)[2] == 'd');
                    assert(name@.subrange(0, 5)[3] == 'e');
                    assert(name@.subrange(0, 5)[4] == 'o');
                }
            }
        }
    }
    b
}

/// Picks the loopback device from the directory listing (see
/// `loopback_device_of`).
pub fn find_loopback_device(names: &Vec<Option<String>>) -> (r: Option<String>)
    ensures
        match r {
            Some(p) => loopback_device_of(names@.map_values(|o: Option<String>| match o { Some(s) => Some(s@), None => None })) == Some(p@),
            None => loopback_device_of(names@.map_values(|o: Option<String>| match o { Some(s) => Some(s@), None => None })) is None,
        },
{
    let ghost all = names@.map_values(|o: Option<String>| match o { Some(s) => Some(s@), None => None });
    let n = names.len();
    proof {
        assert(all.skip(0) =~= all);
    }
    for i in 0..n
        invariant
            n == names@.len(),
            all == names@.map_values(|o: Option<String>| match o { Some(s) => Some(s@), None => None }),
            loopback_device_of(all) == loopback_device_of(all.skip(i as int)),
    {
        let ghost rest = all.skip(i as int);
        proof {
            assert(rest[0] == all[i as int]);
            assert(rest.drop_first() =~= all.skip(i + 1));
        }
        match &names[i] {
            None => {
                return None;
            },
            Some(name) => {
                if starts_with_video(name.as_str()) {
                    let mut p = String::from_str("/dev/");
                    p.append(name.as_str());
                    return Some(p);
                }
            },
        }
    }
    proof {
        assert(all.skip(n as int).len() == 0);
    }
    None
}

/// The places softcam's DLL is looked for, most preferred first: beside
/// the executable, in its `vcam/` and `resources/vcam/`, then in the
/// bundle's `resources/vcam/` and `vcam/`.
pub open spec fn softcam_candidates(exe_dir: Option<Seq<char>>, resource_dir: Seq<char>) -> Seq<Seq<Seq<char>>> {
    let dll = "softcam64.dll"@;
    (match exe_dir {
        Some(d) => seq![seq![d, dll], seq![d, "vcam"@, dll], seq![d, "resources"@, "vcam"@, dll]],
        None => Seq::empty(),
    }) + seq![seq![resource_dir, "resources"@, "vcam"@, dll], seq![resource_dir, "vcam"@, dll]]
}

/// Lists the places softcam's DLL is looked for (see
/// `softcam_candidates`), each given by its components.
pub fn softcam_dll_candidates(exe_dir: Option<String>, resource_dir: &str) -> (v: Vec<Vec<String>>)
    ensures
        Seq::new(v@.len(), |j: int| crate::text::strings_view(v@[j]@))
            == softcam_candidates(crate::scripting::opt_view(exe_dir), resource_dir@),
{
    let mut v: Vec<Vec<String>> = Vec::new();
    let ghost ed = crate::scripting::opt_view(exe_dir);
    if let Some(d) = &exe_dir {
        let mut a: Vec<&str> = Vec::new();
        a.push(d.as_str());
        a.push("softcam64.dll");
        let qa = crate::text::strings_of(&a);
        assert(crate::text::strs_view(a@) =~= seq![d@, "softcam64.dll"@]);
        v.push(qa);
        let mut b: Vec<&str> = Vec::new();
        b.push(d.as_str());
        b.push("vcam");
        b.push("softcam64.dll");
        let qb = crate::text::strings_of(&b);
        assert(crate::text::strs_view(b@) =~= seq![d@, "vcam"@, "softcam64.dll"@]);
        v.push(qb);
        let mut c: Vec<&str> = Vec::new();
        c.push(d.as_str());
        c.push("resources");
        c.push("vcam");
        c.push("softcam64.dll");
        let qc = crate::text::strings_of(&c);
        assert(crate::text::strs_view(c@) =~= seq![d@, "resources"@, "vcam"@, "softcam64.dll"@]);
        v.push(qc);
    }
    let mut a: Vec<&str> = Vec::new();
    a.push(resource_dir);
    a.push("resources");
    a.push("vcam");
    a.push("softcam64.dll");
    let qa = crate::text::strings_of(&a);
    assert(crate::text::strs_view(a@) =~= seq![resource_dir@, "resources"@, "vcam"@, "softcam64.dll"@]);
    v.push(qa);
    let mut b: Vec<&str> = Vec::new();
    b.push(resource_dir);
    b.push("vcam");
    b.push("softcam64.dll");
    let qb = crate::text::strings_of(&b);
    assert(crate::text::strs_view(b@) =~= seq![resource_dir@, "vcam"@, "softcam64.dll"@]);
    v.push(qb);
    proof {
        let got = Seq::new(v@.len(), |j: int| crate::text::strings_view(v@[j]@));
        assert(got =~~= softcam_candidates(ed, resource_dir@));
    }
    v
}

/// Index of the first place that exists, or of the first place when none
/// does (its path then goes into the error message).
pub fn first_existing(exists: &Vec<bool>) -> (i: usize)
    ensures
        exists@.len() == 0 ==> i == 0,
        exists@.len() > 0 ==> i < exists@.len(),
        (exists|k: int| 0 <= k < exists@.len() && exists@[k]) ==> exists@[i as int] && forall|k: int| 0 <= k < i ==> !exists@[k],
        !(exists|k: int| 0 <= k < exists@.len() && exists@[k]) ==> i == 0,
{
    let n = exists.len();
    for i in 0..n
        invariant
            n == exists@.len(),
            forall|k: int| 0 <= k < i ==> !exists@[k],
    {
        if exists[i] {
            return i;
        }
    }
    0
}

/// The PowerShell command that registers the DLL at `dll` with
/// `regsvr32 /s`, asking for elevation.
pub fn regsvr32_command(dll: &str) -> (s: String)
    ensures
        s@ == "Start-Process regsvr32 -ArgumentList '/s','\""@ + dll@ + "\"' -Verb RunAs -Wait"@,
{
    let mut s = String::from_str("Start-Process regsvr32 -ArgumentList '/s','\"");
    s.append(dll);
    s.append("\"' -Verb RunAs -Wait");
    s
}

/// The outcome of registering softcam: refused when the elevated
/// registration did not succeed, failed when the filter is still not
/// registered afterwards.
pub fn register_outcome(succeeded: bool, registered: bool) -> (r: Result<(), String>)
    ensures
        succeeded && registered ==> r is Ok,
        !succeeded ==> (r matches Err(e) && e@ == "{\"key\":\"vcamRegisterDenied\",\"params\":[]}"@),
        succeeded && !registered ==> (r matches Err(e) && e@ == "{\"key\":\"vcamRegisterFailed\",\"params\":[]}"@),
{
    if !succeeded {
        return Err(String::from_str("{\"key\":\"vcamRegisterDenied\",\"params\":[]}"));
    }
    if !registered {
        return Err(String::from_str("{\"key\":\"vcamRegisterFailed\",\"params\":[]}"));
    }
    Ok(())
}

// ---------------------------------------------------------------------------
// Laws of fitting
// ---------------------------------------------------------------------------

/// The fitted frame always lies inside the target (nothing is cropped) and
/// fills it along at least one side, so borders appear on one axis only.
pub proof fn lemma_fit_fills_one_side(sw: int, sh: int, dw: int, dh: int)
    requires
        sw > 0,
        sh > 0,
        dw > 0,
        dh > 0,
    ensures
        1 <= fit_dims(sw, sh, dw, dh).0 <= dw,
        1 <= fit_dims(sw, sh, dw, dh).1 <= dh,
        fit_dims(sw, sh, dw, dh).0 == dw || fit_dims(sw, sh, dw, dh).1 == dh,
{
}

/// A frame with the target's proportions, smaller or larger, is scaled to
/// cover the whole target: no border at all.
pub proof fn lemma_fit_same_aspect_fills(sw: int, sh: int, dw: int, dh: int)
    requires
        sw > 0,
        sh > 0,
        dw > 0,
        dh > 0,
        dw * sh == dh * sw,
    ensures
        fit_dims(sw, sh, dw, dh) == (dw, dh),
{
    assert(sh * dw == dh * sw) by (nonlinear_arith)
        requires
            dw * sh == dh * sw,
    ;
    assert(2 * (sh * dw) + sw == (2 * sw) * dh + sw) by (nonlinear_arith)
        requires
            sh * dw == dh * sw,
    ;
    vstd::arithmetic::div_mod::lemma_fundamental_div_mod_converse(2 * (sh * dw) + sw, 2 * sw, dh, sw);
    assert(round_div(sh * dw, sw) == dh);
}

/// Exchanging R and B (`swap_rb`) only reverses the three bytes of each
/// pixel of the image: placement, scaling and borders are the same as
/// without it, whatever the target held before.
pub proof fn lemma_fit_swap_only_exchanges(src: Seq<u8>, old1: Seq<u8>, old2: Seq<u8>, sw: u32, sh: u32, dw: u32, dh: u32)
    requires
        frame_args_valid(src.len() as int, sw as int, sh as int, old1.len() as int, dw as int, dh as int),
        frame_args_valid(src.len() as int, sw as int, sh as int, old2.len() as int, dw as int, dh as int),
    ensures
        forall|i: int| 0 <= i < dw * dh * 3 ==> #[trigger] fit_output(src, sw, sh, old2, dw, dh, true)[i]
            == fit_output(src, sw, sh, old1, dw, dh, false)[(i / 3) * 3 + 2 - i % 3],
{
    lemma_fit_fills_one_side(sw as int, sh as int, dw as int, dh as int);
    let fd = fit_dims(sw as int, sh as int, dw as int, dh as int);
    let x0 = (dw - fd.0) / 2;
    let y0 = (dh - fd.1) / 2;
    let plain = fit_output(src, sw, sh, old1, dw, dh, false);
    let swapped = fit_output(src, sw, sh, old2, dw, dh, true);
    assert forall|i: int| 0 <= i < dw * dh * 3 implies #[trigger] swapped[i] == plain[(i / 3) * 3 + 2 - i % 3] by {
        let p = i / 3;
        let c = i % 3;
        let j = p * 3 + 2 - c;
        vstd::arithmetic::div_mod::lemma_fundamental_div_mod_converse(j, 3, p, 2 - c);
        assert(j < dw * dh * 3);
        assert(in_rect(j, dw as int, x0, y0, fd.0, fd.1) == in_rect(i, dw as int, x0, y0, fd.0, fd.1));
        if !(fd.0 < dw || fd.1 < dh) {
            vstd::arithmetic::div_mod::lemma_fundamental_div_mod(p, dw as int);
            assert(p < (dw as int) * (dh as int));
            assert(p / (dw as int) < dh) by (nonlinear_arith)
                requires
                    p == (dw as int) * (p / (dw as int)) + p % (dw as int),
                    0 <= p % (dw as int),
                    p < (dw as int) * (dh as int),
                    dw > 0,
            ;
            assert(0 <= p / (dw as int)) by (nonlinear_arith)
                requires
                    p >= 0,
                    dw > 0,
            ;
            assert(in_rect(i, dw as int, x0, y0, fd.0, fd.1));
        }
    }
}

/// A frame already of the target's size is copied into it byte for byte
/// (with R and B exchanged when `swap`), and the buffer past the image keeps
/// its old bytes.
pub proof fn lemma_fit_same_size_verbatim(src: Seq<u8>, old: Seq<u8>, w: u32, h: u32, swap: bool)
    requires
        frame_args_valid(src.len() as int, w as int, h as int, old.len() as int, w as int, h as int),
    ensures
        fit_output(src, w, h, old, w, h, swap).len() == old.len(),
        forall|i: int| 0 <= i < w * h * 3 ==> #[trigger] fit_output(src, w, h, old, w, h, swap)[i]
            == src[(i / 3) * 3 + channel(i % 3, swap)],
        forall|i: int| w * h * 3 <= i < old.len() ==> #[trigger] fit_output(src, w, h, old, w, h, swap)[i] == old[i],
{
    lemma_fit_same_aspect_fills(w as int, h as int, w as int, h as int);
    let out = fit_output(src, w, h, old, w, h, swap);
    assert forall|i: int| 0 <= i < w * h * 3 implies #[trigger] out[i] == src[(i / 3) * 3 + channel(i % 3, swap)] by {
        let p = i / 3;
        let x = p % (w as int);
        let y = p / (w as int);
        vstd::arithmetic::div_mod::lemma_fundamental_div_mod(p, w as int);
        assert(p < (w as int) * (h as int));
        assert(y < h) by (nonlinear_arith)
            requires
                p == (w as int) * y + x,
                0 <= x,
                p < (w as int) * (h as int),
                w > 0,
        ;
        assert(0 <= y) by (nonlinear_arith)
            requires
                p >= 0,
                w > 0,
                y == p / (w as int),
        ;
        assert(in_rect(i, w as int, 0, 0, w as int, h as int));
        assert(px(w as int, x, y, channel(i % 3, swap)) == (i / 3) * 3 + channel(i % 3, swap)) by (nonlinear_arith)
            requires
                p == (w as int) * y + x,
                p == i / 3,
        ;
    }
}

/// When the frame is enlarged, pixel (`x`, `y`) of the centred fitted
/// rectangle (`fw` x `fh`, at (`(dw - fw) / 2`, `(dh - fh) / 2`)) takes
/// the nearest source pixel (`min(x * sw / fw, sw - 1)`,
/// `min(y * sh / fh, sh - 1)`), R and B exchanged when `swap`. So the
/// orientation is kept: the first column and row read the source's first
/// ones, and the source position read never decreases as `x` or `y` grows.
pub proof fn lemma_fit_enlarge_nearest(src: Seq<u8>, old: Seq<u8>, sw: u32, sh: u32, dw: u32, dh: u32, swap: bool, x: int, y: int, c: int)
    requires
        frame_args_valid(src.len() as int, sw as int, sh as int, old.len() as int, dw as int, dh as int),
        fit_dims(sw as int, sh as int, dw as int, dh as int).0 >= sw,
        fit_dims(sw as int, sh as int, dw as int, dh as int) != (sw as int, sh as int),
        0 <= x < fit_dims(sw as int, sh as int, dw as int, dh as int).0,
        0 <= y < fit_dims(sw as int, sh as int, dw as int, dh as int).1,
        0 <= c < 3,
    ensures
        ({
            let fw = fit_dims(sw as int, sh as int, dw as int, dh as int).0;
            let fh = fit_dims(sw as int, sh as int, dw as int, dh as int).1;
            let x0 = (dw - fw) / 2;
            let y0 = (dh - fh) / 2;
            let sx = if x * sw / fw < sw - 1 { x * sw / fw } else { sw - 1 };
            let sy = if y * sh / fh < sh - 1 { y * sh / fh } else { sh - 1 };
            let sc = if swap { 2 - c } else { c };
            fit_output(src, sw, sh, old, dw, dh, swap)[((y0 + y) * dw + x0 + x) * 3 + c] == src[(sy * sw + sx) * 3 + sc]
        }),
{
    lemma_fit_fills_one_side(sw as int, sh as int, dw as int, dh as int);
    let fd = fit_dims(sw as int, sh as int, dw as int, dh as int);
    let x0 = (dw - fd.0) / 2;
    let y0 = (dh - fd.1) / 2;
    lemma_px_bound(dw as int, dh as int, x0 + x, y0 + y, c);
    lemma_px_split(dw as int, x0 + x, y0 + y, c);
    let i = px(dw as int, x0 + x, y0 + y, c);
    assert(in_rect(i, dw as int, x0, y0, fd.0, fd.1));
    assert(((y0 + y) * dw + x0 + x) * 3 + c == i);
}

} // verus!
