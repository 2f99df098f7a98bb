use ascii_art_studio::camera::camera_preview;

#[test]
fn small_frame_is_sent_as_it_is() {
    let p = camera_preview(&[1, 2, 3, 255], 1, 1, 640, 480).unwrap();
    assert_eq!(p.data, "AQID/w==");
    assert_eq!((p.width, p.height), (1, 1));
    let p = camera_preview(&[], 0, 0, 1, 1).unwrap();
    assert_eq!(p.data, "");
}

#[test]
fn large_frame_is_shrunk_to_target() {
    // 2x2 frame of one colour -> 1x1 of that colour.
    let frame = [10u8, 20, 30, 40].repeat(4);
    let p = camera_preview(&frame, 2, 2, 1, 1).unwrap();
    assert_eq!(p.data, "ChQeKA==");
    assert_eq!((p.width, p.height), (1, 1));
    // Taller than the target only: shrunk to exactly the target size.
    let frame = vec![7u8; 1 * 4 * 4];
    let p = camera_preview(&frame, 1, 4, 2, 2).unwrap();
    assert_eq!((p.width, p.height), (2, 2));
    assert_eq!(p.data, "BwcHBwcHBwcHBwcHBwcHBw==");
}

#[test]
fn short_large_frame_gives_nothing() {
    assert!(camera_preview(&[0u8; 8], 2, 2, 1, 1).is_none());
}
