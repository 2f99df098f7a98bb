//! The MJPEG stream the virtual camera falls back to: its frame rate, and
//! the multipart framing of each JPEG frame.

use vstd::prelude::*;
use crate::text::{decimal, push_decimal};
use crate::webcam::{jpeg_bytes, jpeg_encode};

verus! {

/// The multipart boundary between frames.
pub open spec fn boundary() -> Seq<char> {
    "ASCIIARTFRAME"@
}

/// A requested frame rate limited to `1..=120`.
pub open spec fn clamped_fps(fps: u32) -> u32 {
    if fps < 1 {
        1
    } else if fps > 120 {
        120
    } else {
        fps
    }
}

/// Limits a requested frame rate to `1..=120`.
pub fn clamp_fps(fps: u32) -> (r: u32)
    ensures
        r == clamped_fps(fps),
        1 <= r <= 120,
{
    if fps < 1 {
        1
    } else if fps > 120 {
        120
    } else {
        fps
    }
}

/// The value of the stream's `Content-Type` header.
pub fn stream_content_type() -> (s: &'static str)
    ensures
        s@ == "multipart/x-mixed-replace; boundary=ASCIIARTFRAME"@,
{
    "multipart/x-mixed-replace; boundary=ASCIIARTFRAME"
}

/// The part header written before a JPEG frame of `len` bytes.
pub open spec fn part_header(len: nat) -> Seq<char> {
    "--ASCIIARTFRAME\r\nContent-Type: image/jpeg\r\nContent-Length: "@ + decimal(len) + "\r\n\r\n"@
}

/// Writes the part header that precedes a JPEG frame of `len` bytes in
/// the stream; the frame follows it, then `\r\n`.
pub fn frame_part_header(len: usize) -> (s: String)
    ensures
        s@ == part_header(len as nat),
{
    let mut s = String::from_str("--ASCIIARTFRAME\r\nContent-Type: image/jpeg\r\nContent-Length: ");
    push_decimal(&mut s, len as u64);
    s.append("\r\n\r\n");
    s
}

/// JPEG quality of frames sent to the stream.
pub const STREAM_JPEG_QUALITY: u8 = 82;

/// Encodes a frame for the stream (`w` x `h` RGB24) as JPEG at
/// `STREAM_JPEG_QUALITY`; an image the encoder refuses (a side of 0 or above
/// 65535) gives an error that starts with `JPEG encoding error: `.
pub fn stream_frame_jpeg(rgb: &[u8], w: u32, h: u32) -> (r: Result<Vec<u8>, String>)
    requires
        rgb@.len() == (w as int) * (h as int) * 3,
    ensures
        r is Ok <==> (1 <= w <= 65535 && 1 <= h <= 65535),
        r matches Ok(bytes) ==> bytes@ == jpeg_bytes(rgb@, w, h, STREAM_JPEG_QUALITY),
        r matches Err(e) ==> "JPEG encoding error: "@.is_prefix_of(e@),
{
    match jpeg_encode(rgb, w, h, STREAM_JPEG_QUALITY) {
        Ok(bytes) => Ok(bytes),
        Err(e) => {
            let mut m = String::from_str("JPEG encoding error: ");
            m.append(e.as_str());
            proof {
                assert(m@.subrange(0, "JPEG encoding error: "@.len() as int) =~= "JPEG encoding error: "@);
            }
            Err(m)
        },
    }
}

} // verus!
