use ascii_art_studio::scripting::{
    candidate_paths, collect_diagnostics, collect_natives, compile_error_message,
    format_ax_value, lib_filename, run_outcome, saved_lib_path, script_custom_palette, script_dim,
    script_i32, script_index, stage_category, unpack_pixels, ConsoleOutput, RawDiagnostic,
    ResourceDir, ScriptDiagnostic, AX_BOOL, AX_FLOAT, AX_INT, AX_NULL, AX_REF,
};

#[test]
fn console_output_is_captured() {
    let mut c = ConsoleOutput::new();
    c.reset_output();
    c.print_str("ab");
    c.println_str("cd");
    assert_eq!(c.take_output(), "abcd\n");
    assert_eq!(c.take_output(), "");
}

#[test]
fn console_prints_numbers_and_booleans() {
    let mut c = ConsoleOutput::new();
    c.print_int(3);
    c.print_int(2);
    c.print_int(1);
    c.println_str("Go!");
    c.print_int(-42);
    c.print_int(i64::MIN);
    c.print_bool(true);
    c.print_bool(false);
    c.push("x");
    assert_eq!(c.take_output(), "321Go!\n-42-9223372036854775808truefalsex");
}

#[test]
fn console_reset_discards_earlier_output() {
    let mut c = ConsoleOutput::new();
    c.print_str("old");
    c.reset_output();
    c.print_str("new");
    assert_eq!(c.take_output(), "new");
}

#[test]
fn resource_dir_is_set_once() {
    let mut r = ResourceDir::new();
    assert_eq!(r.get(), None);
    r.set_resource_dir("/usr/lib/app".to_string());
    r.set_resource_dir("/other".to_string());
    assert_eq!(r.get(), Some("/usr/lib/app".to_string()));
}

#[test]
fn engine_file_names() {
    assert_eq!(lib_filename(true), "axium_vm.dll");
    assert_eq!(lib_filename(false), "libaxium_vm.so");
}

#[test]
fn saved_path_is_trimmed() {
    assert_eq!(saved_lib_path("  /opt/libaxium_vm.so \n"), Some("/opt/libaxium_vm.so".to_string()));
    assert_eq!(saved_lib_path(" \t\n"), None);
    assert_eq!(saved_lib_path(""), None);
    assert_eq!(saved_lib_path("C:\\a b\\x.dll"), Some("C:\\a b\\x.dll".to_string()));
}

fn strs(v: &[&str]) -> Vec<String> {
    v.iter().map(|s| s.to_string()).collect()
}

#[test]
fn candidates_in_priority_order() {
    let v = candidate_paths(
        Some("/saved/lib.so".into()),
        Some("/exe".into()),
        Some("/res".into()),
        Some("/cfg".into()),
        Some("/src".into()),
        false,
    );
    assert_eq!(
        v,
        vec![
            strs(&["/saved/lib.so"]),
            strs(&["/exe", "libaxium_vm.so"]),
            strs(&["/exe", "axium", "libaxium_vm.so"]),
            strs(&["/res", "axium", "libaxium_vm.so"]),
            strs(&["/res", "libaxium_vm.so"]),
            strs(&["/cfg", "ascii-art-studio", "libaxium_vm.so"]),
            strs(&["/src", "..", "assets", "Axium", "bin", "linux", "libaxium_vm.so"]),
        ]
    );
    let w = candidate_paths(None, None, None, None, Some("C:\\src".into()), true);
    assert_eq!(w, vec![strs(&["C:\\src", "..", "assets", "Axium", "bin", "win", "axium_vm.dll"])]);
    assert!(candidate_paths(None, None, None, None, None, true).is_empty());
}

#[test]
fn stage_categories() {
    assert_eq!(stage_category(0), "LexError");
    assert_eq!(stage_category(3), "TypeError");
    assert_eq!(stage_category(5), "RuntimeError");
    assert_eq!(stage_category(6), "Error");
    assert_eq!(stage_category(255), "Error");
}

fn raw(severity: u8, stage: u8, line: u32, message: Option<&str>, help: Option<&str>) -> RawDiagnostic {
    RawDiagnostic {
        severity,
        stage,
        line,
        col: 9,
        end_line: line,
        end_col: 20,
        message: message.map(|s| s.to_string()),
        help: help.map(|s| s.to_string()),
    }
}

#[test]
fn diagnostics_are_reported_in_order_skipping_unreadable() {
    let raws = vec![
        Some(raw(2, 3, 3, Some("type mismatch"), Some("use Integer"))),
        None,
        Some(raw(1, 1, 7, None, None)),
    ];
    let ds: Vec<ScriptDiagnostic> = collect_diagnostics(&raws);
    assert_eq!(ds.len(), 2);
    assert_eq!(ds[0].severity, "error");
    assert_eq!(ds[0].stage, "TypeError");
    assert_eq!(ds[0].line, 3);
    assert_eq!(ds[0].col, 9);
    assert_eq!(ds[0].end_col, 20);
    assert_eq!(ds[0].message, "type mismatch");
    assert_eq!(ds[0].help, Some("use Integer".to_string()));
    assert_eq!(ds[1].severity, "warning");
    assert_eq!(ds[1].stage, "ParseError");
    assert_eq!(ds[1].message, "");
    assert_eq!(ds[1].help, None);
}

#[test]
fn natives_skip_unreadable_entries() {
    let entries = vec![Some("Sys.println(String)Void".to_string()), None, Some("App.toast(String,String)Void".to_string())];
    assert_eq!(
        collect_natives(&entries),
        vec!["Sys.println(String)Void".to_string(), "App.toast(String,String)Void".to_string()]
    );
}

#[test]
fn values_are_written_by_tag() {
    assert_eq!(format_ax_value(AX_INT, -5, ""), "-5");
    assert_eq!(format_ax_value(AX_FLOAT, 0, "1.5"), "1.5");
    assert_eq!(format_ax_value(AX_BOOL, 2, ""), "true");
    assert_eq!(format_ax_value(AX_BOOL, 0, ""), "false");
    assert_eq!(format_ax_value(AX_NULL, 7, ""), "null");
    assert_eq!(format_ax_value(AX_REF, 7, ""), "null");
}

#[test]
fn run_outcome_prefers_error_then_output_then_value() {
    assert_eq!(run_outcome(Some("boom".into()), "out".into(), "1".into()), Err("boom".to_string()));
    assert_eq!(run_outcome(None, "out".into(), "1".into()), Ok("out".to_string()));
    assert_eq!(run_outcome(None, "".into(), "null".into()), Ok("null".to_string()));
    assert_eq!(compile_error_message(None), "ошибка компиляции");
    assert_eq!(compile_error_message(Some("bad".into())), "bad");
}

#[test]
fn script_arguments_are_clamped() {
    assert_eq!(script_dim(-3), 0);
    assert_eq!(script_dim(640), 640);
    assert_eq!(script_dim(0x1_0000_0005), 5);
    assert_eq!(script_index(-1), 0);
    assert_eq!(script_index(4), 4);
    assert_eq!(script_i32(-7), -7);
    assert_eq!(script_i32(0x1_0000_0001), 1);
    assert_eq!(script_custom_palette(Some("".into())), None);
    assert_eq!(script_custom_palette(Some(" .#".into())), Some(" .#".to_string()));
    assert_eq!(script_custom_palette(None), None);
}

#[test]
fn pixels_are_unpacked_from_rrggbb() {
    let raw = vec![0xFFFFFF, 0x000000, 0x102030, 0xFFFFFF, 99];
    let buf = unpack_pixels(&raw, 2, 2).unwrap();
    assert_eq!(buf, vec![255, 255, 255, 0, 0, 0, 0x10, 0x20, 0x30, 255, 255, 255]);
    assert_eq!(unpack_pixels(&raw, 3, 2), None);
    assert_eq!(unpack_pixels(&raw, 0, 2), None);
    assert_eq!(unpack_pixels(&vec![-1], 1, 1), Some(vec![255, 255, 255]));
}

#[test]
fn unpacking_inverts_packing() {
    for (r, g, b) in [(0u8, 0u8, 0u8), (255, 255, 255), (0x12, 0x34, 0x56), (200, 1, 99)] {
        let packed = (r as i64) * 65536 + (g as i64) * 256 + b as i64;
        assert_eq!(unpack_pixels(&vec![packed], 1, 1), Some(vec![r, g, b]));
    }
}
