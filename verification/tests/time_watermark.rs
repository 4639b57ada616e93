use win_recorder::watermark::{
    WatermarkRenderer, BASE_BG_HEIGHT, BASE_BG_PADDING, BASE_BG_WIDTH, BASE_FONT_HEIGHT,
    BASE_HEIGHT, BASE_WIDTH, MARGIN, MIN_HEIGHT, MIN_WIDTH,
};

fn renderer(bg_width: u32, bg_height: u32) -> WatermarkRenderer {
    let mut renderer = WatermarkRenderer::new();
    renderer.update_cache(bg_width, bg_height, 5, 1);
    renderer
}

#[test]
fn times_have_two_and_three_digits() {
    assert_eq!(WatermarkRenderer::get_time_string(9, 5, 3, 7), "09:05:03.007");
    assert_eq!(WatermarkRenderer::get_time_string(23, 59, 59, 999), "23:59:59.999");
    assert_eq!(WatermarkRenderer::get_time_string(0, 0, 0, 0), "00:00:00.000");
    assert_eq!(WatermarkRenderer::get_time_string(12, 34, 56, 78), "12:34:56.078");
}

#[test]
fn longer_numbers_are_not_cut() {
    assert_eq!(
        WatermarkRenderer::get_time_string(100, 65535, 1234, 10000),
        "100:65535:1234.10000"
    );
}

#[test]
fn different_times_look_different() {
    assert_ne!(
        WatermarkRenderer::get_time_string(1, 23, 4, 5),
        WatermarkRenderer::get_time_string(12, 3, 4, 5)
    );
}

#[test]
fn text_is_centred_or_starts_at_the_edge() {
    assert_eq!(WatermarkRenderer::text_offset(100, 40), 30);
    assert_eq!(WatermarkRenderer::text_offset(101, 40), 30);
    assert_eq!(WatermarkRenderer::text_offset(40, 40), 0);
    assert_eq!(WatermarkRenderer::text_offset(40, 41), 0);
    assert_eq!(WatermarkRenderer::text_offset(40, 100), 0);
}

#[test]
fn measures_are_at_least_one_pixel() {
    let mut renderer = renderer(360, 80);
    assert_eq!(renderer.cached_bg_width, 360);
    renderer.update_cache(0, 0, 0, 0);
    assert_eq!(renderer.cached_bg_width, 1);
    assert_eq!(renderer.cached_bg_height, 1);
    assert_eq!(renderer.cached_font_height, 0);
    assert_eq!(renderer.cached_bg_padding, 1);
}

#[test]
fn measures_for_the_base_resolution() {
    assert_eq!((BASE_WIDTH, BASE_HEIGHT), (2560, 1440));
    assert_eq!((BASE_BG_WIDTH, BASE_BG_HEIGHT), (360, 80));
    assert_eq!((BASE_FONT_HEIGHT, BASE_BG_PADDING), (52, 6));
    let place = renderer(BASE_BG_WIDTH, BASE_BG_HEIGHT)
        .placement(BASE_WIDTH, BASE_HEIGHT)
        .unwrap();
    assert_eq!((place.x, place.y, place.width, place.height), (20, 1340, 360, 80));
}

#[test]
fn small_frames_get_no_watermark() {
    assert_eq!((MIN_WIDTH, MIN_HEIGHT), (100, 30));
    let renderer = renderer(7, 2);
    assert!(renderer.placement(100, 30).is_some());
    assert!(renderer.placement(99, 30).is_none());
    assert!(renderer.placement(100, 29).is_none());
    for (width, height) in [(99u32, 29u32), (99, 1000), (1000, 29)] {
        let mut frame = vec![255u8; (4 * width * height) as usize];
        let pitch = 4 * width as usize;
        assert!(!renderer.render(&mut frame, pitch, width, height, &[255; 56], 7, 2));
        assert!(frame.iter().all(|byte| *byte == 255));
    }
}

#[test]
fn a_box_that_does_not_fit_is_not_drawn() {
    let renderer = renderer(90, 20);
    assert!(renderer.placement(110, 40).is_some());
    assert!(renderer.placement(109, 40).is_none());
    assert!(renderer.placement(110, 39).is_none());
    let mut frame = vec![10u8; 4 * 109 * 40];
    assert!(!renderer.render(&mut frame, 436, 109, 40, &[255; 7200], 90, 20));
    assert_eq!(frame, vec![10u8; 4 * 109 * 40]);
}

#[test]
fn the_box_stands_at_the_same_margin_in_every_frame() {
    assert_eq!(MARGIN, 20);
    for (width, height) in [(100, 30), (640, 480), (1920, 1088), (3840, 2160)] {
        let place = renderer(8, 4).placement(width, height).unwrap();
        assert_eq!((place.x, place.y + place.height + 20), (20, height));
    }
}

#[test]
fn the_box_is_darkened_and_the_text_white() {
    // A row pitch of four bytes more than a row, and a box of two by one pixels.
    let pitch = 404;
    let mut frame = vec![200u8; pitch * 30];
    let bitmap = [0, 0, 0, 255, 0, 1, 0, 0];
    assert!(renderer(2, 1).render(&mut frame, pitch, 100, 30, &bitmap, 2, 1));
    let mut expected = vec![200u8; pitch * 30];
    let at = 9 * pitch + 4 * 20;
    expected[at..at + 4].copy_from_slice(&[60, 60, 60, 200]);
    expected[at + 4..at + 8].copy_from_slice(&[255, 255, 255, 255]);
    assert_eq!(frame, expected);
}

#[test]
fn darkening_keeps_thirty_percent() {
    let mut frame = vec![0, 3, 4, 9, 100, 200, 255, 8];
    WatermarkRenderer::draw_background(&mut frame, 8, 0, 0, 2, 1, 2, 1);
    assert_eq!(frame, vec![0, 0, 1, 9, 30, 60, 77, 8]);
}

#[test]
fn the_background_is_cut_off_at_the_edges() {
    let mut frame = vec![255u8; 16];
    WatermarkRenderer::draw_background(&mut frame, 8, 1, 1, 5, 5, 2, 2);
    assert_eq!(
        frame,
        vec![255, 255, 255, 255, 255, 255, 255, 255, 255, 255, 255, 255, 77, 77, 77, 255]
    );
}

#[test]
fn text_is_cut_off_at_the_edges() {
    let mut frame = vec![1u8; 16];
    WatermarkRenderer::composite_text(&mut frame, 8, 1, 0, &[9; 24], 2, 3, 2, 2);
    assert_eq!(
        frame,
        vec![1, 1, 1, 1, 255, 255, 255, 255, 1, 1, 1, 1, 255, 255, 255, 255]
    );
}

#[test]
fn text_stands_in_the_middle_of_the_box() {
    let mut frame = vec![0u8; 4 * 100 * 30];
    assert!(renderer(3, 3).render(&mut frame, 400, 100, 30, &[9, 9, 9, 9], 1, 1));
    let lit: Vec<usize> = (0..3000).filter(|i| frame[4 * i] == 255).collect();
    assert_eq!(lit, vec![8 * 100 + 21]);
}
