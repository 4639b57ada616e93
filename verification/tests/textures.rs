use win_recorder::d3d11::{check_monitor, D3D11TextureManager, DesktopRect};
use win_recorder::error::RecorderError;
use win_recorder::recorder::WinRecorder;

fn output(left: i32, width: i32, height: i32) -> DesktopRect {
    DesktopRect { left, top: 10, right: left + width, bottom: 10 + height }
}

#[test]
fn upload_copies_rows_to_the_pitch() {
    let textures = D3D11TextureManager::new(2, 2);
    let frame: Vec<u8> = (1..=16).collect();
    let mut mapped = vec![99u8; 24];
    assert_eq!(textures.upload_bgra(&frame, &mut mapped, 12), Ok(()));
    assert_eq!(
        mapped,
        vec![1, 2, 3, 4, 5, 6, 7, 8, 99, 99, 99, 99, 9, 10, 11, 12, 13, 14, 15, 16, 99, 99, 99, 99]
    );
}

#[test]
fn upload_without_padding_is_a_copy() {
    let textures = D3D11TextureManager::new(3, 2);
    let frame: Vec<u8> = (0..24).collect();
    let mut mapped = vec![0u8; 24];
    assert_eq!(textures.upload_bgra(&frame, &mut mapped, 12), Ok(()));
    assert_eq!(mapped, frame);
}

#[test]
fn a_second_upload_replaces_the_first() {
    let textures = D3D11TextureManager::new(1, 2);
    let mut mapped = vec![50u8; 13];
    assert_eq!(textures.upload_bgra(&[1; 8], &mut mapped, 8), Ok(()));
    let mut fresh = vec![50u8; 13];
    assert_eq!(textures.upload_bgra(&[2; 8], &mut mapped, 8), Ok(()));
    assert_eq!(textures.upload_bgra(&[2; 8], &mut fresh, 8), Ok(()));
    assert_eq!(mapped, fresh);
}

#[test]
fn frames_of_another_size_are_refused() {
    let textures = D3D11TextureManager::new(2, 2);
    let mut mapped = vec![7u8; 24];
    assert_eq!(
        textures.upload_bgra(&[0; 15], &mut mapped, 12),
        Err(RecorderError::FrameSizeMismatch { expected: 16, actual: 15 })
    );
    assert_eq!(mapped, vec![7u8; 24]);
    assert_eq!(
        textures.check_frame(&[0; 17]),
        Err(RecorderError::FrameSizeMismatch { expected: 16, actual: 17 })
    );
    assert_eq!(textures.check_frame(&[0; 16]), Ok(()));
}

#[test]
fn textures_know_their_size() {
    let textures = D3D11TextureManager::new(640, 480);
    assert_eq!((textures.width(), textures.height()), (640, 480));
}

#[test]
fn the_primary_monitor_starts_at_the_left_edge() {
    let outputs = vec![output(1920, 1280, 1024), output(0, 1920, 1080)];
    assert_eq!(D3D11TextureManager::detect_monitor(1, &outputs), Ok((1920, 1080)));
    assert_eq!(D3D11TextureManager::detect_monitor(2, &outputs), Ok((1280, 1024)));
    assert_eq!(WinRecorder::get_monitor_size(2, &outputs), Ok((1280, 1024)));
}

#[test]
fn the_leftmost_output_counts() {
    let outputs = vec![output(0, 10, 11), output(500, 20, 21), output(-300, 30, 31), output(0, 40, 41)];
    assert_eq!(D3D11TextureManager::detect_monitor(1, &outputs), Ok((10, 11)));
    assert_eq!(D3D11TextureManager::detect_monitor(2, &outputs), Ok((30, 31)));
}

#[test]
fn of_equal_left_edges_the_first_counts() {
    let outputs = vec![output(-5, 1, 2), output(-5, 3, 4)];
    assert_eq!(D3D11TextureManager::detect_monitor(2, &outputs), Ok((1, 2)));
}

#[test]
fn missing_monitors_are_reported() {
    assert_eq!(
        D3D11TextureManager::detect_monitor(1, &vec![output(5, 1, 1)]),
        Err(RecorderError::MonitorNotFound { monitor: 1 })
    );
    assert_eq!(
        D3D11TextureManager::detect_monitor(2, &vec![output(0, 1, 1)]),
        Err(RecorderError::MonitorNotFound { monitor: 2 })
    );
}

#[test]
fn other_monitor_numbers_are_refused() {
    let refused = RecorderError::InvalidParam("monitor must be 1 or 2".to_string());
    assert_eq!(check_monitor(0), Err(refused.clone()));
    assert_eq!(check_monitor(3), Err(refused.clone()));
    assert_eq!(check_monitor(1), Ok(()));
    assert_eq!(check_monitor(2), Ok(()));
    assert_eq!(D3D11TextureManager::detect_monitor(3, &vec![output(0, 1, 1)]), Err(refused));
}

#[test]
fn a_reversed_output_has_the_bits_of_its_negative_extent() {
    let outputs = vec![DesktopRect { left: 0, top: 0, right: -1, bottom: -2 }];
    assert_eq!(D3D11TextureManager::detect_monitor(1, &outputs), Ok((0xFFFF_FFFF, 0xFFFF_FFFE)));
}
