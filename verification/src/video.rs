//! Video conversion around ffmpeg: the arguments of each ffmpeg run, the
//! names of extracted and rendered frames, when progress is reported, and
//! the message of a finished render.

use vstd::prelude::*;
use crate::text::{decimal, decimal_chars, push_chars, push_decimal, strings_of, strings_view, strs_view};

verus! {

/// How many frames are taken from a video at most.
pub const MAX_FRAMES: u32 = 300;

/// `ds` padded on the left with zeros to at least `width` characters.
pub open spec fn zero_padded(ds: Seq<char>, width: nat) -> Seq<char> {
    if ds.len() >= width {
        ds
    } else {
        Seq::new((width - ds.len()) as nat, |i: int| '0') + ds
    }
}

/// The file name of rendered frame `i` (counted from 0): its number from 1,
/// zero-padded to six digits, then `.png` (`{:06}.png`).
pub open spec fn frame_name(i: nat) -> Seq<char> {
    zero_padded(decimal(i + 1), 6) + ".png"@
}

/// Names rendered frame `i` (see `frame_name`); ffmpeg then reads the
/// frames back through the pattern `%06d.png`.
pub fn frame_file_name(i: u32) -> (s: String)
    ensures
        s@ == frame_name(i as nat),
{
    let ds = decimal_chars(i as u64 + 1);
    let mut s = String::new();
    let mut k: usize = ds.len();
    while k < 6
        invariant
            ds.len() <= k <= 6 || (k == ds.len() && k >= 6),
            s@ == Seq::new((k - ds.len()) as nat, |j: int| '0'),
        decreases 6 - k,
    {
        s.push('0');
        proof {
            assert(s@ =~= Seq::new((k + 1 - ds.len()) as nat, |j: int| '0'));
        }
        k += 1;
    }
    push_chars(&mut s, &ds);
    s.append(".png");
    proof {
        if ds@.len() >= 6 {
            assert(s@ =~= frame_name(i as nat));
        } else {
            assert(s@ =~= frame_name(i as nat));
        }
    }
    s
}

/// Progress is reported after every fifth frame and after the last.
pub fn progress_due(done: usize, total: usize) -> (r: bool)
    ensures
        r == (done % 5 == 0 || done == total),
{
    done % 5 == 0 || done == total
}

/// The arguments of the ffmpeg run that extracts at most `max_frames`
/// frames of `input` to files named by `pattern`.
pub fn extract_args(input: &str, max_frames: u32, pattern: &str) -> (v: Vec<String>)
    ensures
        strings_view(v@) == seq!["-i"@, input@, "-vframes"@, decimal(max_frames as nat), pattern@],
{
    let mut v: Vec<String> = Vec::new();
    v.push(String::from_str("-i"));
    v.push(String::from_str(input));
    v.push(String::from_str("-vframes"));
    let mut n = String::new();
    push_decimal(&mut n, max_frames as u64);
    v.push(n);
    v.push(String::from_str(pattern));
    proof {
        assert(strings_view(v@) =~= seq!["-i"@, input@, "-vframes"@, decimal(max_frames as nat), pattern@]);
    }
    v
}

/// Whether a render is written as an animated GIF (any other format is
/// written as H.264 MP4).
pub fn is_gif(format: &str) -> (r: bool)
    ensures
        r == (format@ == "gif"@),
{
    let cs = crate::text::chars_of(format);
    proof {
        reveal_strlit("gif");
    }
    let r = cs.len() == 3 && cs[0] == 'g' && cs[1] == 'i' && cs[2] == 'f';
    proof {
        if r {
            assert(format@ =~= "gif"@);
        }
    }
    r
}

/// The arguments of the first GIF pass: build a palette from the frames.
pub fn gif_palette_args(fps: &str, frames: &str, palette: &str) -> (v: Vec<String>)
    ensures
        strings_view(v@) == seq!["-y"@, "-framerate"@, fps@, "-i"@, frames@, "-vf"@, "palettegen"@, palette@],
{
    let mut parts: Vec<&str> = Vec::new();
    parts.push("-y");
    parts.push("-framerate");
    parts.push(fps);
    parts.push("-i");
    parts.push(frames);
    parts.push("-vf");
    parts.push("palettegen");
    parts.push(palette);
    let v = strings_of(&parts);
    proof {
        assert(strs_view(parts@) =~= seq!["-y"@, "-framerate"@, fps@, "-i"@, frames@, "-vf"@, "palettegen"@, palette@]);
    }
    v
}

/// The arguments of the second GIF pass: encode the frames with the palette.
pub fn gif_encode_args(fps: &str, frames: &str, palette: &str, output: &str) -> (v: Vec<String>)
    ensures
        strings_view(v@) == seq!["-y"@, "-framerate"@, fps@, "-i"@, frames@, "-i"@, palette@,
            "-filter_complex"@, "paletteuse"@, output@],
{
    let mut parts: Vec<&str> = Vec::new();
    parts.push("-y");
    parts.push("-framerate");
    parts.push(fps);
    parts.push("-i");
    parts.push(frames);
    parts.push("-i");
    parts.push(palette);
    parts.push("-filter_complex");
    parts.push("paletteuse");
    parts.push(output);
    let v = strings_of(&parts);
    proof {
        assert(strs_view(parts@) =~= seq!["-y"@, "-framerate"@, fps@, "-i"@, frames@, "-i"@, palette@,
            "-filter_complex"@, "paletteuse"@, output@]);
    }
    v
}

/// The arguments of an MP4 encode: H.264, preset `fast`, CRF 18, yuv420p.
pub fn mp4_encode_args(fps: &str, frames: &str, output: &str) -> (v: Vec<String>)
    ensures
        strings_view(v@) == seq!["-y"@, "-framerate"@, fps@, "-i"@, frames@, "-c:v"@, "libx264"@,
            "-preset"@, "fast"@, "-crf"@, "18"@, "-pix_fmt"@, "yuv420p"@, output@],
{
    let mut parts: Vec<&str> = Vec::new();
    parts.push("-y");
    parts.push("-framerate");
    parts.push(fps);
    parts.push("-i");
    parts.push(frames);
    parts.push("-c:v");
    parts.push("libx264");
    parts.push("-preset");
    parts.push("fast");
    parts.push("-crf");
    parts.push("18");
    parts.push("-pix_fmt");
    parts.push("yuv420p");
    parts.push(output);
    let v = strings_of(&parts);
    proof {
        assert(strs_view(parts@) =~= seq!["-y"@, "-framerate"@, fps@, "-i"@, frames@, "-c:v"@, "libx264"@,
            "-preset"@, "fast"@, "-crf"@, "18"@, "-pix_fmt"@, "yuv420p"@, output@]);
    }
    v
}

/// The message of a finished render: a message key with the number of
/// frames, the frame rate (`fps_text`, already written with one decimal),
/// the size and the output path.
pub open spec fn complete_message(total: nat, fps_text: Seq<char>, w: nat, h: nat, path: Seq<char>) -> Seq<char> {
    "{\"key\":\"videoComplete\",\"params\":[\""@ + decimal(total) + "\",\""@ + fps_text + "\",\""@
        + decimal(w) + seq!['x'] + decimal(h) + "\",\""@ + path + "\"]}"@
}

/// Writes the message of a finished render (see `complete_message`).
pub fn video_complete_message(total: usize, fps_text: &str, w: u32, h: u32, path: &str) -> (s: String)
    ensures
        s@ == complete_message(total as nat, fps_text@, w as nat, h as nat, path@),
{
    let mut s = String::from_str("{\"key\":\"videoComplete\",\"params\":[\"");
    push_decimal(&mut s, total as u64);
    s.append("\",\"");
    s.append(fps_text);
    s.append("\",\"");
    push_decimal(&mut s, w as u64);
    s.push('x');
    push_decimal(&mut s, h as u64);
    s.append("\",\"");
    s.append(path);
    s.append("\"]}");
    proof {
        assert(s@ =~= complete_message(total as nat, fps_text@, w as nat, h as nat, path@));
    }
    s
}

} // verus!
