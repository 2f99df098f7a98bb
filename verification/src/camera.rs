//! Preview frames of the native camera: a captured RGBA frame larger than
//! the size the preview asks for is shrunk with the nearest-neighbour
//! filter, and the frame is sent to the user interface as base64 text.

use vstd::prelude::*;

verus! {

/// The character for a 6-bit value in the standard base64 alphabet.
pub open spec fn b64_char(v: int) -> char {
    if v < 26 {
        ('A' as int + v) as char
    } else if v < 52 {
        ('a' as int + (v - 26)) as char
    } else if v < 62 {
        ('0' as int + (v - 52)) as char
    } else if v == 62 {
        '+'
    } else {
        '/'
    }
}

/// Standard base64 (RFC 4648, alphabet `A-Z a-z 0-9 + /`, padded with
/// `=`) of `b`: every three bytes become four characters.
pub open spec fn base64_std(b: Seq<u8>) -> Seq<char>
    decreases b.len(),
{
    if b.len() == 0 {
        Seq::empty()
    } else {
        let b0 = b[0] as int;
        let b1 = if b.len() >= 2 { b[1] as int } else { 0 };
        let b2 = if b.len() >= 3 { b[2] as int } else { 0 };
        let c0 = b64_char(b0 / 4);
        let c1 = b64_char((b0 % 4) * 16 + b1 / 16);
        let c2 = b64_char((b1 % 16) * 4 + b2 / 64);
        let c3 = b64_char(b2 % 64);
        if b.len() == 1 {
            seq![c0, c1, '=', '=']
        } else if b.len() == 2 {
            seq![c0, c1, c2, '=']
        } else {
            seq![c0, c1, c2, c3] + base64_std(b.subrange(3, b.len() as int))
        }
    }
}

/// Encodes with `base64::engine::general_purpose::STANDARD`, the standard
/// alphabet with padding. The claim is that the result is `base64_std` of
/// the bytes, as RFC 4648 defines it. The bound keeps the encoded text
/// (a third longer than the bytes) within what can be allocated.
#[verifier::external_body]
fn base64_encode(bytes: &[u8]) -> (s: String)
    requires
        bytes@.len() <= isize::MAX / 2,
    ensures
        s@ == base64_std(bytes@),
{
    base64::Engine::encode(&base64::engine::general_purpose::STANDARD, bytes)
}

/// The bytes of a `w` x `h` RGBA image resampled to `tw` x `th` with the
/// Nearest filter of `image::imageops::resize`.
pub uninterp spec fn nearest_resized(src: Seq<u8>, w: u32, h: u32, tw: u32, th: u32) -> Seq<u8>;

/// Calls `image::imageops::resize` with `FilterType::Nearest` on the RGBA
/// buffer `src` of `w` x `h` pixels. The claim is that the result is the
/// raw buffer of a `tw` x `th` RGBA image (`tw * th * 4` bytes) and depends
/// only on the arguments; which source pixel each output pixel takes is not
/// stated. The bounds keep the resampler's buffers (a `w` x `th` RGBA `f32`
/// image and the result) within what can be allocated.
#[verifier::external_body]
fn resize_nearest_rgba(src: &[u8], w: u32, h: u32, tw: u32, th: u32) -> (out: Vec<u8>)
    requires
        src@.len() == (w as int) * (h as int) * 4,
        (w as int) * (th as int) * 16 <= isize::MAX,
        (tw as int) * (th as int) * 4 <= isize::MAX / 2,
    ensures
        out@ == nearest_resized(src@, w, h, tw, th),
        out@.len() == (tw as int) * (th as int) * 4,
{
    match image::ImageBuffer::<image::Rgba<u8>, &[u8]>::from_raw(w, h, src) {
        Some(view) => image::imageops::resize(&view, tw, th, image::imageops::FilterType::Nearest).into_raw(),
        None => Vec::new(),
    }
}

/// A preview frame for the user interface: RGBA bytes as base64, and the
/// frame's size.
pub struct PreviewFrame {
    pub data: String,
    pub width: u32,
    pub height: u32,
}

/// The preview of a captured `width` x `height` RGBA frame when the
/// preview asks for at most `tw` x `th`: a larger frame is shrunk to
/// exactly `tw` x `th` (nothing when the buffer holds fewer than
/// `width * height * 4` bytes); another is sent as it is.
pub fn camera_preview(frame: &[u8], width: u32, height: u32, tw: u32, th: u32) -> (r: Option<PreviewFrame>)
    requires
        frame@.len() <= isize::MAX / 2,
        (width > tw || height > th) ==> (width as int) * (th as int) * 16 <= isize::MAX,
        (width > tw || height > th) ==> (tw as int) * (th as int) * 4 <= isize::MAX / 2,
    ensures
        if width > tw || height > th {
            if frame@.len() < (width as int) * (height as int) * 4 {
                r is None
            } else {
                r matches Some(p) && p.width == tw && p.height == th && p.data@ == base64_std(
                    nearest_resized(frame@.take((width as int) * (height as int) * 4), width, height, tw, th))
            }
        } else {
            r matches Some(p) && p.width == width && p.height == height && p.data@ == base64_std(frame@)
        },
{
    if width > tw || height > th {
        let (wl, hl) = (width as u128, height as u128);
        assert(wl * hl * 4 <= 0xffff_ffff_ffff_ffff_ffff_ffff) by (nonlinear_arith)
            requires
                wl <= 0xffff_ffff,
                hl <= 0xffff_ffff,
        ;
        let need = wl * hl * 4;
        if (frame.len() as u128) < need {
            return None;
        }
        let n = need as usize;
        let view = &frame[0..n];
        proof {
            assert(view@ =~= frame@.take((width as int) * (height as int) * 4));
        }
        let resized = resize_nearest_rgba(view, width, height, tw, th);
        Some(PreviewFrame { data: base64_encode(resized.as_slice()), width: tw, height: th })
    } else {
        Some(PreviewFrame { data: base64_encode(frame), width, height })
    }
}

} // verus!
