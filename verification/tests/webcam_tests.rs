use ascii_art_studio::webcam::{
    check_frame_size, encode_jpeg, header_u32, rgba_to_ascii_image, rgba_to_ascii_text,
    should_render_vcam_frame, vcam_sink, webcam_frame_text, CompiledParams, VcamSink, WebcamState,
    CHAR_H, CHAR_W,
};

fn identity() -> Vec<u8> {
    (0..=255u8).collect()
}

#[test]
fn compile_refuses_short_palette() {
    let e = CompiledParams::compile("@", identity(), false, false).err().unwrap();
    assert_eq!(e, "{\"key\":\"errPaletteMin\",\"params\":[]}");
    assert!(CompiledParams::compile("", identity(), false, false).is_err());
    assert!(CompiledParams::compile(" @", identity(), false, false).is_ok());
}

#[test]
fn text_maps_black_and_white_to_palette_ends() {
    let cp = CompiledParams::compile(" .:-=+*#%@", identity(), false, false).unwrap();
    let rgba = [0u8, 0, 0, 255, 255, 255, 255, 255, 128, 128, 128, 255, 10, 10, 10, 255];
    assert_eq!(rgba_to_ascii_text(&rgba, 2, 2, &cp), " @\n= \n");
}

#[test]
fn text_inverted_swaps_ends() {
    let cp = CompiledParams::compile(" @", identity(), true, false).unwrap();
    let rgba = [0u8, 0, 0, 255, 255, 255, 255, 255];
    assert_eq!(rgba_to_ascii_text(&rgba, 2, 1, &cp), "@ \n");
}

#[test]
fn text_uses_the_channel_table() {
    // A table that maps every level to 255 makes every pixel white.
    let cp = CompiledParams::compile(" @", vec![255u8; 256], false, false).unwrap();
    let rgba = [0u8, 0, 0, 255];
    assert_eq!(rgba_to_ascii_text(&rgba, 1, 1, &cp), "@\n");
}

#[test]
fn header_values_are_parsed() {
    assert_eq!(header_u32(Some("640".to_string()), "x-frame-width"), Ok(640));
    assert_eq!(header_u32(Some("+7".to_string()), "x-frame-width"), Ok(7));
    assert_eq!(
        header_u32(None, "x-frame-width"),
        Err("missing/invalid header x-frame-width".to_string())
    );
    assert_eq!(
        header_u32(Some("-1".to_string()), "x-frame-height"),
        Err("missing/invalid header x-frame-height".to_string())
    );
    assert_eq!(
        header_u32(Some("4294967296".to_string()), "h"),
        Err("missing/invalid header h".to_string())
    );
    assert_eq!(header_u32(Some("4294967295".to_string()), "h"), Ok(4294967295));
}

#[test]
fn frame_size_must_match() {
    assert!(check_frame_size(2, 3, 24).is_ok());
    assert_eq!(check_frame_size(2, 3, 23), Err("frame size mismatch".to_string()));
    assert_eq!(check_frame_size(65536, 65536, 0), Err("frame size mismatch".to_string()));
}

#[test]
fn frame_text_checks_headers_then_size() {
    let cp = CompiledParams::compile(" @", identity(), false, false).unwrap();
    let rgba = [255u8, 255, 255, 255];
    assert_eq!(
        webcam_frame_text(&rgba, Some("1".into()), Some("1".into()), &cp),
        Ok("@\n".to_string())
    );
    assert_eq!(
        webcam_frame_text(&rgba, None, None, &cp),
        Err("missing/invalid header x-frame-width".to_string())
    );
    assert_eq!(
        webcam_frame_text(&rgba, Some("1".into()), Some("x".into()), &cp),
        Err("missing/invalid header x-frame-height".to_string())
    );
    assert_eq!(
        webcam_frame_text(&rgba, Some("2".into()), Some("1".into()), &cp),
        Err("frame size mismatch".to_string())
    );
}

#[test]
fn glyph_image_draws_masks_in_tone() {
    let cp = CompiledParams::compile(" @", identity(), false, false).unwrap();
    let cell = (CHAR_W * CHAR_H) as usize;
    let blank = vec![0u8; cell];
    let mut full = vec![0u8; cell];
    full[0] = 255;
    full[1] = 51;
    let masks = vec![blank, full];
    // One white pixel -> '@' drawn white.
    let img = rgba_to_ascii_image(&[255, 255, 255, 255], 1, 1, &cp, &masks);
    assert_eq!(img.len(), cell * 3);
    assert_eq!(&img[0..6], &[255, 255, 255, 51, 51, 51]);
    assert!(img[6..].iter().all(|&b| b == 0));
    // One black pixel -> ' ' with an empty mask.
    let img = rgba_to_ascii_image(&[0, 0, 0, 255], 1, 1, &cp, &masks);
    assert!(img.iter().all(|&b| b == 0));
}

#[test]
fn glyph_image_colour_mode_uses_pixel_colour() {
    let cp = CompiledParams::compile(" @", identity(), false, true).unwrap();
    let cell = (CHAR_W * CHAR_H) as usize;
    let mut full = vec![0u8; cell];
    full[0] = 255;
    let masks = vec![full.clone(), full];
    let img = rgba_to_ascii_image(&[200, 100, 50, 255], 1, 1, &cp, &masks);
    assert_eq!(&img[0..3], &[200, 100, 50]);
}

#[test]
fn glyph_image_layout_is_row_major_cells() {
    let cp = CompiledParams::compile(" @", identity(), false, false).unwrap();
    let cell = (CHAR_W * CHAR_H) as usize;
    let mut mask = vec![0u8; cell];
    mask[0] = 255;
    let masks = vec![vec![0u8; cell], mask];
    // 2x1 frame: black then white; the white cell starts at x = CHAR_W.
    let img = rgba_to_ascii_image(&[0, 0, 0, 255, 255, 255, 255, 255], 2, 1, &cp, &masks);
    let w = (2 * CHAR_W) as usize;
    assert_eq!(img.len(), w * CHAR_H as usize * 3);
    assert_eq!(img[CHAR_W as usize * 3], 255);
    assert_eq!(img.iter().filter(|&&b| b != 0).count(), 3);
}

#[test]
fn jpeg_is_encoded() {
    let rgb = vec![128u8; 8 * 8 * 3];
    let jpeg = encode_jpeg(&rgb, 8, 8).unwrap();
    assert_eq!(&jpeg[0..2], &[0xFF, 0xD8]);
    assert_eq!(&jpeg[jpeg.len() - 2..], &[0xFF, 0xD9]);
    let e = encode_jpeg(&[], 0, 0).unwrap_err();
    assert!(e.starts_with("JPEG encoding error: "), "{e}");
}

#[test]
fn vcam_frames_are_skipped_when_busy_or_stopped() {
    assert!(should_render_vcam_frame(Some((true, false)), false));
    assert!(should_render_vcam_frame(Some((false, true)), false));
    assert!(!should_render_vcam_frame(Some((false, false)), false));
    assert!(!should_render_vcam_frame(Some((true, true)), true));
    assert!(!should_render_vcam_frame(None, false));
    assert_eq!(vcam_sink(true, true), VcamSink::Backend);
    assert_eq!(vcam_sink(false, true), VcamSink::Mjpeg);
    assert_eq!(vcam_sink(false, false), VcamSink::Nowhere);
}

#[test]
fn default_state_uses_first_palette() {
    let st = WebcamState::default();
    assert!(!st.vcam_busy);
    let rgba = [0u8, 0, 0, 255, 255, 255, 255, 255];
    assert_eq!(rgba_to_ascii_text(&rgba, 2, 1, &st.compiled), " @\n");
}

#[test]
fn text_has_h_lines_of_w_chars() {
    let cp = CompiledParams::compile(" .:-=+*#%@", identity(), false, false).unwrap();
    let rgba: Vec<u8> = (0..3 * 5 * 4).map(|i| (i * 7 % 256) as u8).collect();
    let text = rgba_to_ascii_text(&rgba, 3, 5, &cp);
    assert_eq!(text.chars().count(), 5 * 4);
    for line in text.split_terminator('\n') {
        assert_eq!(line.chars().count(), 3);
    }
}
