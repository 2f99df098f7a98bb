use ascii_art_studio::vcam::{fit_rgb_frame, fit_rgb_frame_scaled, vcam_frame_size};

#[test]
fn fit_upscales_smaller_frame_to_full_target() {
    let src = [255u8, 0, 0];
    let mut dst = vec![7u8; 4 * 4 * 3];
    fit_rgb_frame(&src, 1, 1, &mut dst, 4, 4, false);
    for px in dst.chunks(3) {
        assert_eq!(px, &[255, 0, 0]);
    }
}

#[test]
fn fit_downscales_larger_frame_without_cropping() {
    let mut src = vec![0u8; 4 * 4 * 3];
    for y in 0..4usize {
        for x in 0..2usize {
            let i = (y * 4 + x) * 3;
            src[i] = 255;
            src[i + 1] = 255;
            src[i + 2] = 255;
        }
    }
    let mut dst = vec![0u8; 2 * 2 * 3];
    fit_rgb_frame(&src, 4, 4, &mut dst, 2, 2, false);
    assert!(dst[0] > 128, "левый-верх должен быть светлым: {}", dst[0]);
    assert!(dst[3] < 128, "правый-верх должен быть тёмным: {}", dst[3]);
    assert!(dst[6] > 128, "левый-низ должен быть светлым: {}", dst[6]);
    assert!(dst[9] < 128, "правый-низ должен быть тёмным: {}", dst[9]);
}

#[test]
fn fit_letterboxes_on_aspect_mismatch() {
    let src = vec![255u8; 4 * 2 * 3];
    let mut dst = vec![7u8; 4 * 4 * 3];
    fit_rgb_frame(&src, 4, 2, &mut dst, 4, 4, false);
    let row = |y: usize| dst[y * 4 * 3..(y + 1) * 4 * 3].to_vec();
    assert!(row(0).iter().all(|&b| b == 0), "верхняя полоса чёрная");
    assert!(row(1).iter().all(|&b| b == 255), "середина белая");
    assert!(row(2).iter().all(|&b| b == 255), "середина белая");
    assert!(row(3).iter().all(|&b| b == 0), "нижняя полоса чёрная");
}

#[test]
fn fit_swaps_red_and_blue() {
    let src = [10u8, 20, 30];
    let mut dst = vec![0u8; 3];
    fit_rgb_frame(&src, 1, 1, &mut dst, 1, 1, true);
    assert_eq!(dst, vec![30, 20, 10]);
}

#[test]
fn fit_copies_exact_match_verbatim() {
    let src: Vec<u8> = (0..2 * 2 * 3).map(|i| i as u8).collect();
    let mut dst = vec![0u8; 2 * 2 * 3];
    fit_rgb_frame(&src, 2, 2, &mut dst, 2, 2, false);
    assert_eq!(dst, src);
}

#[test]
fn fit_ignores_invalid_input() {
    let src = [0u8; 3];
    let mut dst = vec![9u8; 12];
    fit_rgb_frame(&src, 10, 10, &mut dst, 2, 2, false);
    assert!(dst.iter().all(|&b| b == 9), "буфер не должен трогаться");
}

#[test]
fn fit_pillarboxes_tall_frame() {
    // A 1x2 white frame in a 4x2 target: 1 column stretched to 1 (height
    // fills), centred at x = 1; the rest is black.
    let src = vec![255u8; 1 * 2 * 3];
    let mut dst = vec![7u8; 4 * 2 * 3];
    fit_rgb_frame(&src, 1, 2, &mut dst, 4, 2, false);
    for y in 0..2usize {
        for x in 0..4usize {
            let i = (y * 4 + x) * 3;
            let expect = if x == 1 { 255 } else { 0 };
            assert_eq!(&dst[i..i + 3], &[expect, expect, expect], "x={x} y={y}");
        }
    }
}

#[test]
fn fit_zero_sizes_leave_buffer() {
    let src = [1u8; 12];
    let mut dst = vec![5u8; 12];
    fit_rgb_frame(&src, 0, 2, &mut dst, 2, 2, false);
    assert!(dst.iter().all(|&b| b == 5));
    fit_rgb_frame(&src, 2, 2, &mut dst, 2, 0, false);
    assert!(dst.iter().all(|&b| b == 5));
}

#[test]
fn frame_size_rounds_down_to_four() {
    assert_eq!(vcam_frame_size(643, 481), Ok((640, 480)));
    assert_eq!(vcam_frame_size(3, 480), Err("Invalid vcam frame size".to_string()));
    assert_eq!(vcam_frame_size(8, 2), Err("Invalid vcam frame size".to_string()));
}

#[test]
fn fit_places_shrunk_frame_given_scaled() {
    // 4x2 into 2x2 shrinks to 2x1, placed on the top row (y0 = 0).
    let src = vec![9u8; 4 * 2 * 3];
    let scaled = [1u8, 2, 3, 4, 5, 6];
    let mut dst = vec![7u8; 2 * 2 * 3];
    fit_rgb_frame_scaled(&src, 4, 2, &scaled, &mut dst, 2, 2, false);
    assert_eq!(dst, vec![1, 2, 3, 4, 5, 6, 0, 0, 0, 0, 0, 0]);
    let mut dst = vec![7u8; 2 * 2 * 3];
    fit_rgb_frame_scaled(&src, 4, 2, &scaled, &mut dst, 2, 2, true);
    assert_eq!(dst, vec![3, 2, 1, 6, 5, 4, 0, 0, 0, 0, 0, 0]);
    // 4x4 into 2x3 shrinks to 2x2, placed on rows 0 and 1 (y0 = 0).
    let src = vec![9u8; 4 * 4 * 3];
    let scaled: Vec<u8> = (1..=12).collect();
    let mut dst = vec![7u8; 2 * 3 * 3];
    fit_rgb_frame_scaled(&src, 4, 4, &scaled, &mut dst, 2, 3, false);
    assert_eq!(&dst[0..12], &scaled[..]);
    assert!(dst[12..].iter().all(|&b| b == 0));
}

#[test]
fn fit_swap_only_exchanges_red_and_blue() {
    for &(sw, sh, dw, dh) in &[(1u32, 1u32, 4u32, 4u32), (4, 2, 4, 4), (3, 5, 6, 4), (8, 8, 3, 2), (5, 3, 5, 3)] {
        let src: Vec<u8> = (0..sw * sh * 3).map(|i| (i * 37 % 251) as u8).collect();
        let mut plain = vec![11u8; (dw * dh * 3) as usize];
        let mut swapped = vec![99u8; (dw * dh * 3) as usize];
        fit_rgb_frame(&src, sw, sh, &mut plain, dw, dh, false);
        fit_rgb_frame(&src, sw, sh, &mut swapped, dw, dh, true);
        for p in 0..(dw * dh) as usize {
            assert_eq!(
                &swapped[3 * p..3 * p + 3],
                &[plain[3 * p + 2], plain[3 * p + 1], plain[3 * p]],
                "{sw}x{sh} -> {dw}x{dh}, pixel {p}"
            );
        }
    }
}

#[test]
fn copy_row_copies_or_swaps() {
    let src = [1u8, 2, 3, 4, 5, 6, 7];
    let mut dst = [0u8; 7];
    ascii_art_studio::vcam::copy_row(&src, &mut dst, false);
    assert_eq!(dst, src);
    let mut dst = [9u8; 8];
    ascii_art_studio::vcam::copy_row(&src, &mut dst, true);
    assert_eq!(dst, [3, 2, 1, 6, 5, 4, 9, 9]);
    let mut dst = [9u8; 4];
    ascii_art_studio::vcam::copy_row(&src, &mut dst, true);
    assert_eq!(dst, [3, 2, 1, 9]);
}
