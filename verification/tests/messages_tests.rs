use ascii_art_studio::installer::{after_entry, entry_action, EntryAction};
use ascii_art_studio::messages::{i18n_message, mjpeg_started_message, require_palette, size_text, vcam_pixel_size};
use ascii_art_studio::vcam::{
    find_loopback_device, first_existing, register_outcome, regsvr32_command, softcam_dll_candidates,
};

fn strs(v: &[&str]) -> Vec<String> {
    v.iter().map(|s| s.to_string()).collect()
}

#[test]
fn localisation_requests() {
    assert_eq!(i18n_message("errPaletteMin", &Vec::new()), "{\"key\":\"errPaletteMin\",\"params\":[]}");
    assert_eq!(
        i18n_message("errFrameN", &strs(&["3", "bad png"])),
        "{\"key\":\"errFrameN\",\"params\":[\"3\",\"bad png\"]}"
    );
    assert_eq!(i18n_message("imageSaved", &strs(&["/o.png"])), "{\"key\":\"imageSaved\",\"params\":[\"/o.png\"]}");
}

#[test]
fn palettes_need_two_characters() {
    assert!(require_palette(&vec![' ', '@']).is_ok());
    assert_eq!(require_palette(&vec!['@']), Err("{\"key\":\"errPaletteMin\",\"params\":[]}".to_string()));
    assert!(require_palette(&Vec::new()).is_err());
}

#[test]
fn virtual_camera_messages() {
    assert_eq!(
        mjpeg_started_message(80, 45, 8090),
        "Virtual camera started 80x45\n\nMJPEG Stream: http://localhost:8090/stream\n\nUse in OBS: Browser Source\nUse in VLC: Open Network Stream\nOr open URL in any browser"
    );
    assert_eq!(size_text(640, 480), "640x480");
    assert_eq!(vcam_pixel_size(80, 45), (480, 495));
}

#[test]
fn loopback_device_is_the_first_video_entry() {
    let names = vec![Some("v4l-subdev0".to_string()), Some("video2".to_string()), Some("video0".to_string())];
    assert_eq!(find_loopback_device(&names), Some("/dev/video2".to_string()));
    assert_eq!(find_loopback_device(&vec![Some("radio0".to_string())]), None);
    // A name that is not UTF-8 ends the search.
    assert_eq!(find_loopback_device(&vec![None, Some("video0".to_string())]), None);
    assert_eq!(find_loopback_device(&Vec::new()), None);
}

#[test]
fn softcam_dll_places() {
    let v = softcam_dll_candidates(Some("C:\\App".into()), "C:\\Res");
    assert_eq!(
        v,
        vec![
            strs(&["C:\\App", "softcam64.dll"]),
            strs(&["C:\\App", "vcam", "softcam64.dll"]),
            strs(&["C:\\App", "resources", "vcam", "softcam64.dll"]),
            strs(&["C:\\Res", "resources", "vcam", "softcam64.dll"]),
            strs(&["C:\\Res", "vcam", "softcam64.dll"]),
        ]
    );
    assert_eq!(softcam_dll_candidates(None, "R").len(), 2);
    assert_eq!(first_existing(&vec![false, false, true, true]), 2);
    assert_eq!(first_existing(&vec![false, false]), 0);
    assert_eq!(first_existing(&Vec::new()), 0);
}

#[test]
fn softcam_registration() {
    assert_eq!(
        regsvr32_command("C:\\App\\softcam64.dll"),
        "Start-Process regsvr32 -ArgumentList '/s','\"C:\\App\\softcam64.dll\"' -Verb RunAs -Wait"
    );
    assert_eq!(register_outcome(true, true), Ok(()));
    assert_eq!(register_outcome(false, true), Err("{\"key\":\"vcamRegisterDenied\",\"params\":[]}".to_string()));
    assert_eq!(register_outcome(true, false), Err("{\"key\":\"vcamRegisterFailed\",\"params\":[]}".to_string()));
}

#[test]
fn payload_entries() {
    assert_eq!(entry_action(false, false), EntryAction::Skip);
    assert_eq!(entry_action(false, true), EntryAction::Skip);
    assert_eq!(entry_action(true, true), EntryAction::MakeDir);
    assert_eq!(entry_action(true, false), EntryAction::WriteFile);
    assert_eq!(after_entry(3, EntryAction::WriteFile), (4, true));
    assert_eq!(after_entry(3, EntryAction::MakeDir), (3, true));
    assert_eq!(after_entry(3, EntryAction::Skip), (3, false));
}
