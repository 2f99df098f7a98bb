use ascii_art_studio::ffmpeg::{
    ffmpeg_install_next, ffmpeg_install_start, ffmpeg_manager, FfmpegAction, FfmpegEvent, TargetOs,
};
use ascii_art_studio::installer::{
    desktop_entry, double_backslashes, exit_wait_last, exit_wait_next, installed_dir,
    is_process_running, pgrep_found, tasklist_filter, uninstall_cmd, uninstall_registry_values,
    uninstall_sh, ExitWait,
};
use ascii_art_studio::mjpeg::{clamp_fps, frame_part_header, stream_content_type, stream_frame_jpeg};
use ascii_art_studio::version::{download_percent, is_newer, update_info, RemoteVersion};
use ascii_art_studio::video::{
    extract_args, frame_file_name, gif_encode_args, gif_palette_args, is_gif, mp4_encode_args,
    progress_due, video_complete_message,
};

fn strs(v: &[&str]) -> Vec<String> {
    v.iter().map(|s| s.to_string()).collect()
}

#[test]
fn newer_versions() {
    assert!(is_newer("0.2.0", "0.1.9"));
    assert!(is_newer("v1.10", "1.9.9"));
    assert!(!is_newer("1.0", "1.0.0"));
    assert!(!is_newer("0.1.0", "0.1.0"));
    assert!(!is_newer("0.1.0", "0.2.0"));
    assert!(is_newer("1.2.3-beta", "1.2.2"));
    assert!(!is_newer("x.y", "0.0"));
}

#[test]
fn update_offered_only_when_server_is_newer() {
    let r = RemoteVersion { version: "0.2.0".into(), notes: "n".into(), installer: "u".into() };
    let info = update_info("0.1.0".into(), Some(r));
    assert!(info.available);
    assert_eq!(info.latest, "0.2.0");
    assert_eq!(info.notes, "n");
    assert_eq!(info.installer_url, "u");
    let r = RemoteVersion { version: "0.1.0".into(), notes: String::new(), installer: "u".into() };
    assert!(!update_info("0.3.0".into(), Some(r)).available);
    let none = update_info("0.1.0".into(), None);
    assert!(!none.available);
    assert_eq!(none.latest, "0.1.0");
    assert_eq!(none.installer_url, "");
}

#[test]
fn download_progress() {
    assert_eq!(download_percent(50, 200), Some(25));
    assert_eq!(download_percent(5, 0), None);
    assert_eq!(download_percent(200, 200), Some(100));
}

#[test]
fn stream_fps_is_clamped() {
    assert_eq!(clamp_fps(0), 1);
    assert_eq!(clamp_fps(30), 30);
    assert_eq!(clamp_fps(500), 120);
}

#[test]
fn stream_framing() {
    assert_eq!(
        frame_part_header(1234),
        "--ASCIIARTFRAME\r\nContent-Type: image/jpeg\r\nContent-Length: 1234\r\n\r\n"
    );
    assert_eq!(stream_content_type(), "multipart/x-mixed-replace; boundary=ASCIIARTFRAME");
    let jpeg = stream_frame_jpeg(&vec![0u8; 16 * 16 * 3], 16, 16).unwrap();
    assert_eq!(&jpeg[0..2], &[0xFF, 0xD8]);
}

#[test]
fn frame_names_are_zero_padded() {
    assert_eq!(frame_file_name(0), "000001.png");
    assert_eq!(frame_file_name(41), "000042.png");
    assert_eq!(frame_file_name(999_999), "1000000.png");
}

#[test]
fn progress_every_fifth_and_last() {
    assert!(progress_due(5, 12));
    assert!(progress_due(12, 12));
    assert!(!progress_due(7, 12));
}

#[test]
fn ffmpeg_arguments() {
    assert_eq!(extract_args("in.mp4", 300, "/t/%06d.png"), strs(&["-i", "in.mp4", "-vframes", "300", "/t/%06d.png"]));
    assert!(is_gif("gif"));
    assert!(!is_gif("mp4"));
    assert!(!is_gif("GIF"));
    assert_eq!(
        gif_palette_args("25.000", "f/%06d.png", "p.png"),
        strs(&["-y", "-framerate", "25.000", "-i", "f/%06d.png", "-vf", "palettegen", "p.png"])
    );
    assert_eq!(
        gif_encode_args("25.000", "f/%06d.png", "p.png", "o.gif"),
        strs(&["-y", "-framerate", "25.000", "-i", "f/%06d.png", "-i", "p.png", "-filter_complex", "paletteuse", "o.gif"])
    );
    assert_eq!(
        mp4_encode_args("30.000", "f/%06d.png", "o.mp4"),
        strs(&["-y", "-framerate", "30.000", "-i", "f/%06d.png", "-c:v", "libx264", "-preset", "fast", "-crf", "18", "-pix_fmt", "yuv420p", "o.mp4"])
    );
}

#[test]
fn render_complete_message() {
    assert_eq!(
        video_complete_message(120, "29.9", 480, 264, "/tmp/o.mp4"),
        "{\"key\":\"videoComplete\",\"params\":[\"120\",\"29.9\",\"480x264\",\"/tmp/o.mp4\"]}"
    );
}

fn run_machine(os: TargetOs, mut answer: impl FnMut(&FfmpegAction) -> Option<FfmpegEvent>) -> (Vec<String>, Result<String, String>) {
    let mut log = Vec::new();
    let mut action = ffmpeg_install_start(os);
    loop {
        match &action {
            FfmpegAction::Finish(r) => return (log, r.clone()),
            FfmpegAction::Probe(i) => log.push(format!("probe {}", ffmpeg_manager(os, *i).tool)),
            FfmpegAction::Install(i) => {
                let m = ffmpeg_manager(os, *i);
                log.push(format!("{} {}", m.program, m.args.join(" ")));
            }
        }
        let ev = answer(&action).unwrap();
        action = ffmpeg_install_next(os, &action, ev);
    }
}

#[test]
fn ffmpeg_install_tries_managers_in_order() {
    // apt is missing, dnf is there and installs.
    let (log, r) = run_machine(TargetOs::Linux, |a| match a {
        FfmpegAction::Probe(0) => Some(FfmpegEvent::Probed(false)),
        FfmpegAction::Probe(_) => Some(FfmpegEvent::Probed(true)),
        FfmpegAction::Install(_) => Some(FfmpegEvent::Installed(Ok(true))),
        _ => None,
    });
    assert_eq!(log, vec!["probe apt", "probe dnf", "pkexec dnf install -y ffmpeg"]);
    assert_eq!(r, Ok("FFmpeg successfully installed via dnf.".to_string()));
}

#[test]
fn ffmpeg_install_gives_up_after_failures() {
    let (log, r) = run_machine(TargetOs::Windows, |a| match a {
        FfmpegAction::Probe(_) => Some(FfmpegEvent::Probed(true)),
        FfmpegAction::Install(_) => Some(FfmpegEvent::Installed(Ok(false))),
        _ => None,
    });
    assert_eq!(
        log,
        vec![
            "probe winget",
            "winget install -e --id Gyan.FFmpeg --silent",
            "probe choco",
            "choco install ffmpeg -y",
        ]
    );
    assert_eq!(
        r,
        Err("No package manager found. Please install FFmpeg manually from https://ffmpeg.org/download.html".to_string())
    );
}

#[test]
fn ffmpeg_install_stops_when_a_command_cannot_start() {
    let (_, r) = run_machine(TargetOs::Linux, |a| match a {
        FfmpegAction::Probe(_) => Some(FfmpegEvent::Probed(true)),
        FfmpegAction::Install(_) => Some(FfmpegEvent::Installed(Err("not found".to_string()))),
        _ => None,
    });
    assert_eq!(r, Err("Failed to execute apt: not found".to_string()));
    let (log, r) = run_machine(TargetOs::Other, |_| None);
    assert!(log.is_empty());
    assert_eq!(r, Err("Automatic FFmpeg installation not supported on this platform.".to_string()));
    let (_, r) = run_machine(TargetOs::Linux, |_| Some(FfmpegEvent::Probed(false)));
    assert_eq!(
        r,
        Err("No supported package manager found (apt/dnf/pacman). Please install FFmpeg manually.".to_string())
    );
}

#[test]
fn desktop_entry_and_uninstall_scripts() {
    assert_eq!(
        desktop_entry("/home/u/app/asciiartstudio", "/home/u/app/icon.png"),
        "[Desktop Entry]\nType=Application\nName=ASCII Art Studio\nComment=ASCII art from images, video and webcam\nExec=\"/home/u/app/asciiartstudio\"\nIcon=/home/u/app/icon.png\nTerminal=false\nCategories=Graphics;AudioVideo;\n"
    );
    assert_eq!(
        uninstall_sh("/home/u/.local/share/applications", "/home/u/app"),
        "#!/bin/sh\nrm -f \"/home/u/.local/share/applications/ascii-art-studio.desktop\"\nrm -f \"$HOME/Desktop/ascii-art-studio.desktop\" \"$(xdg-user-dir DESKTOP 2>/dev/null)/ascii-art-studio.desktop\" 2>/dev/null\nrm -rf \"/home/u/app\"\n"
    );
    assert_eq!(double_backslashes("a\\b\\\\c"), "a\\\\b\\\\\\\\c");
    let cmd = uninstall_cmd("C:\\Apps\\X");
    assert!(cmd.starts_with("@echo off\r\ntimeout /t 1 /nobreak >nul\r\n"));
    assert!(cmd.contains("reg delete \"HKCU\\Software\\\\Microsoft\\\\Windows\\\\CurrentVersion\\\\Uninstall\\\\ASCIIArtStudio\" /f >nul 2>&1\r\n"));
    assert!(cmd.ends_with("rmdir /s /q \"C:\\Apps\\X\" >nul 2>&1\r\n"));
}

#[test]
fn uninstall_entry_values() {
    let v = uninstall_registry_values("C:\\X\\a.exe", "C:\\X", "C:\\X\\uninstall.cmd");
    let names: Vec<&str> = v.iter().map(|(n, _)| n.as_str()).collect();
    assert_eq!(names, vec!["DisplayName", "DisplayVersion", "Publisher", "DisplayIcon", "InstallLocation", "UninstallString"]);
    assert_eq!(v[0].1, "ASCII Art Studio");
    assert_eq!(v[1].1, "0.1.0");
    assert_eq!(v[4].1, "C:\\X");
    assert_eq!(v[5].1, "cmd /c \"C:\\X\\uninstall.cmd\"");
}

#[test]
fn installed_dir_from_registry_value() {
    let text: Vec<u16> = "C:\\Apps\0".encode_utf16().collect();
    let size = (text.len() * 2) as u32;
    assert_eq!(installed_dir(true, &text, size), Some("C:\\Apps".to_string()));
    assert_eq!(installed_dir(false, &text, size), None);
    assert_eq!(installed_dir(true, &[0u16], 2), None);
    assert_eq!(installed_dir(true, &[], 0), None);
}

#[test]
fn running_process_detection() {
    assert!(is_process_running(Some("asciiartstudio.exe   1234 Console".into()), "asciiartstudio.exe"));
    assert!(!is_process_running(Some("INFO: No tasks are running".into()), "asciiartstudio.exe"));
    assert!(!is_process_running(None, "asciiartstudio.exe"));
    assert_eq!(tasklist_filter("a.exe"), "IMAGENAME eq a.exe");
    assert!(pgrep_found(b"1234\n"));
    assert!(!pgrep_found(b""));
}

#[test]
fn waiting_for_exit() {
    assert_eq!(exit_wait_next(1, true), ExitWait::Sleep);
    assert_eq!(exit_wait_next(3, false), ExitWait::LastCheck);
    assert_eq!(exit_wait_next(40, true), ExitWait::SleepThenLastCheck);
    assert_eq!(exit_wait_next(40, false), ExitWait::LastCheck);
    assert_eq!(exit_wait_last(true), ExitWait::Kill);
    assert_eq!(exit_wait_last(false), ExitWait::Proceed);
}

#[test]
fn installed_dir_decodes_utf16() {
    // "C:\😀" followed by a lone low surrogate and the terminating NUL.
    let units: Vec<u16> = vec![0x43, 0x3A, 0x5C, 0xD83D, 0xDE00, 0xDC00, 0];
    let size = (units.len() * 2) as u32;
    assert_eq!(installed_dir(true, &units, size), Some("C:\\😀\u{FFFD}".to_string()));
    // A lone high surrogate at the end.
    let units: Vec<u16> = vec![0x61, 0xD800, 0];
    assert_eq!(installed_dir(true, &units, 6), Some("a\u{FFFD}".to_string()));
}
