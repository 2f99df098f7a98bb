//! Messages for the user interface. Most are localisation requests: a JSON
//! object naming a message key and the texts to fill in, which the
//! front end turns into a message in the user's language.

use vstd::prelude::*;
use crate::text::{decimal, push_decimal, strings_view};

verus! {

/// `"p"`: a parameter in double quotes (not escaped).
pub open spec fn quoted(p: Seq<char>) -> Seq<char> {
    seq!['"'] + p + seq!['"']
}

/// The quoted parameters separated by commas.
pub open spec fn joined_params(ps: Seq<Seq<char>>) -> Seq<char>
    decreases ps.len(),
{
    if ps.len() == 0 {
        Seq::empty()
    } else if ps.len() == 1 {
        quoted(ps[0])
    } else {
        joined_params(ps.drop_last()) + seq![','] + quoted(ps.last())
    }
}

/// The localisation request for `key` with the parameters `params`:
/// `{"key":"<key>","params":["<p1>","<p2>",...]}`.
pub open spec fn i18n_text(key: Seq<char>, params: Seq<Seq<char>>) -> Seq<char> {
    "{\"key\":\""@ + key + "\",\"params\":["@ + joined_params(params) + "]}"@
}

/// Writes the localisation request for `key` with `params` (see
/// `i18n_text`). Parameters are inserted as they are.
pub fn i18n_message(key: &str, params: &Vec<String>) -> (s: String)
    ensures
        s@ == i18n_text(key@, strings_view(params@)),
{
    let mut s = String::from_str("{\"key\":\"");
    s.append(key);
    s.append("\",\"params\":[");
    let ghost head = s@;
    for i in 0..params.len()
        invariant
            s@ == head + joined_params(strings_view(params@).take(i as int)),
    {
        let ghost before = strings_view(params@).take(i as int);
        if i > 0 {
            s.push(',');
        }
        s.push('"');
        s.append(params[i].as_str());
        s.push('"');
        proof {
            let now = strings_view(params@).take(i + 1);
            assert(now.drop_last() =~= before);
            assert(now.last() == params@[i as int]@);
            if i == 0 {
                assert(before.len() == 0);
                assert(joined_params(before) =~= Seq::<char>::empty());
            }
            assert(s@ =~= head + joined_params(now));
        }
    }
    proof {
        assert(strings_view(params@).take(params@.len() as int) =~= strings_view(params@));
    }
    s.append("]}");
    s
}

/// The error for a palette of fewer than two characters.
pub open spec fn palette_min_text() -> Seq<char> {
    "{\"key\":\"errPaletteMin\",\"params\":[]}"@
}

/// Checks that a palette has at least the two characters a conversion
/// needs.
pub fn require_palette(chars: &Vec<char>) -> (r: Result<(), String>)
    ensures
        r is Ok <==> chars@.len() >= 2,
        r matches Err(e) ==> e@ == palette_min_text(),
{
    if chars.len() < 2 {
        return Err(String::from_str("{\"key\":\"errPaletteMin\",\"params\":[]}"));
    }
    Ok(())
}

/// What the user is told when the virtual camera falls back to the MJPEG
/// server for frames of `w` x `h` characters on `port`.
pub open spec fn mjpeg_started_text(w: nat, h: nat, port: nat) -> Seq<char> {
    "Virtual camera started "@ + decimal(w) + seq!['x'] + decimal(h)
        + "\n\nMJPEG Stream: http://localhost:"@ + decimal(port)
        + "/stream\n\nUse in OBS: Browser Source\nUse in VLC: Open Network Stream\nOr open URL in any browser"@
}

/// Writes the MJPEG fallback message (see `mjpeg_started_text`).
pub fn mjpeg_started_message(w: u32, h: u32, port: u16) -> (s: String)
    ensures
        s@ == mjpeg_started_text(w as nat, h as nat, port as nat),
{
    let mut s = String::from_str("Virtual camera started ");
    push_decimal(&mut s, w as u64);
    s.push('x');
    push_decimal(&mut s, h as u64);
    s.append("\n\nMJPEG Stream: http://localhost:");
    push_decimal(&mut s, port as u64);
    s.append("/stream\n\nUse in OBS: Browser Source\nUse in VLC: Open Network Stream\nOr open URL in any browser");
    proof {
        assert(s@ =~= mjpeg_started_text(w as nat, h as nat, port as nat));
    }
    s
}

/// The size in pixels of a virtual-camera frame of `w` x `h` characters.
pub fn vcam_pixel_size(w: u32, h: u32) -> (r: (u32, u32))
    requires
        (w as int) * 6 <= u32::MAX,
        (h as int) * 11 <= u32::MAX,
    ensures
        r.0 == w * 6,
        r.1 == h * 11,
{
    (w * 6, h * 11)
}

/// The size parameter of a backend's start message, `<w>x<h>`.
pub fn size_text(w: u32, h: u32) -> (s: String)
    ensures
        s@ == decimal(w as nat) + seq!['x'] + decimal(h as nat),
{
    let mut s = String::new();
    push_decimal(&mut s, w as u64);
    s.push('x');
    push_decimal(&mut s, h as u64);
    proof {
        assert(s@ =~= decimal(w as nat) + seq!['x'] + decimal(h as nat));
    }
    s
}

} // verus!
