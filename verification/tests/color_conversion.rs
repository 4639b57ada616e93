use win_recorder::bgra_to_nv12::{bgra_to_iyuv, bgra_to_nv12, chroma_u, chroma_v, luma};

const PIXELS: [[u8; 4]; 4] = [[1, 2, 3, 9], [50, 60, 70, 8], [200, 100, 0, 7], [255, 254, 253, 6]];

fn frame(pixels: &[[u8; 4]]) -> Vec<u8> {
    let mut data = Vec::new();
    for pixel in pixels {
        data.extend_from_slice(pixel);
    }
    data
}

#[test]
fn test_bgra_to_nv12_size() {
    let bgra = vec![0u8; 1920 * 1080 * 4];
    let nv12 = bgra_to_nv12(&bgra, 1920, 1080);
    let expected_size = 1920 * 1080 + 1920 * 1080 / 2;
    assert_eq!(nv12.len(), expected_size);
}

#[test]
fn test_bgra_to_nv12_small() {
    let bgra = vec![0u8; 16 * 16 * 4];
    let nv12 = bgra_to_nv12(&bgra, 16, 16);
    let expected_size = 16 * 16 + 16 * 16 / 2;
    assert_eq!(nv12.len(), expected_size);
}

#[test]
fn iyuv_has_the_size_of_nv12() {
    let bgra = vec![0u8; 16 * 16 * 4];
    assert_eq!(bgra_to_iyuv(&bgra, 16, 16).len(), 16 * 16 + 16 * 16 / 2);
}

#[test]
fn luma_of_plain_colours() {
    assert_eq!(luma(0, 0, 0), 16);
    assert_eq!(luma(255, 255, 255), 234);
    assert_eq!(luma(0, 0, 255), 81);
    assert_eq!(luma(0, 255, 0), 143);
    assert_eq!(luma(255, 0, 0), 40);
    assert_eq!(luma(10, 20, 30), 33);
}

#[test]
fn chroma_of_plain_colours() {
    assert_eq!((chroma_u(0, 0, 255), chroma_v(0, 0, 255)), (91, 281));
    assert_eq!((chroma_u(0, 255, 0), chroma_v(0, 255, 0)), (56, -1));
    assert_eq!((chroma_u(255, 0, 0), chroma_v(255, 0, 0)), (236, 103));
    assert_eq!((chroma_u(10, 20, 30), chroma_v(10, 20, 30)), (122, 134));
    assert_eq!((chroma_u(255, 255, 0), chroma_v(255, 255, 0)), (164, -26));
}

#[test]
fn luma_grows_with_every_channel() {
    for value in 0..255u8 {
        assert!(luma(value, 40, 90) <= luma(value + 1, 40, 90));
        assert!(luma(40, value, 90) <= luma(40, value + 1, 90));
        assert!(luma(90, 40, value) <= luma(90, 40, value + 1));
        assert!((16..=235).contains(&luma(value, value, value)));
    }
}

#[test]
fn one_block_in_nv12() {
    assert_eq!(bgra_to_nv12(&frame(&PIXELS), 2, 2), vec![17, 68, 85, 232, 140, 112]);
}

#[test]
fn one_block_in_iyuv() {
    assert_eq!(bgra_to_iyuv(&frame(&PIXELS), 2, 2), vec![17, 68, 85, 232, 140, 112]);
}

#[test]
fn nv12_interleaves_and_iyuv_separates() {
    let red = [0u8, 0, 200, 255];
    let blue = [200u8, 0, 0, 255];
    let data = frame(&[red, red, blue, blue, red, red, blue, blue]);
    let nv12 = bgra_to_nv12(&data, 4, 2);
    let iyuv = bgra_to_iyuv(&data, 4, 2);
    let (u_red, v_red) = (chroma_u(0, 0, 200) as u8, chroma_v(0, 0, 200) as u8);
    let (u_blue, v_blue) = (chroma_u(200, 0, 0) as u8, chroma_v(200, 0, 0) as u8);
    assert_eq!(&nv12[..8], &iyuv[..8]);
    assert_eq!(&nv12[8..], &[u_red, v_red, u_blue, v_blue]);
    assert_eq!(&iyuv[8..], &[u_red, u_blue, v_red, v_blue]);
}

#[test]
fn red_and_green_leave_the_byte_range() {
    let red = frame(&[[0, 0, 255, 0]; 4]);
    assert_eq!(&bgra_to_nv12(&red, 2, 2)[4..], &[91, 255]);
    assert_eq!(&bgra_to_iyuv(&red, 2, 2)[4..], &[91, 25]);
    let green = frame(&[[0, 255, 0, 0]; 4]);
    assert_eq!(&bgra_to_nv12(&green, 2, 2)[4..], &[56, 0]);
    assert_eq!(&bgra_to_iyuv(&green, 2, 2)[4..], &[56, 255]);
}

#[test]
fn gray_frames_have_neutral_chroma() {
    let data = frame(&[[100, 100, 100, 3]; 16]);
    let nv12 = bgra_to_nv12(&data, 4, 4);
    assert!(nv12[..16].iter().all(|y| *y == 101));
    assert!(nv12[16..].iter().all(|c| *c == 128));
    assert!(bgra_to_iyuv(&data, 4, 4)[16..].iter().all(|c| *c == 128));
}

#[test]
fn alpha_is_ignored() {
    let mut other = frame(&PIXELS);
    for pixel in 0..4 {
        other[4 * pixel + 3] = 200;
    }
    assert_eq!(bgra_to_nv12(&frame(&PIXELS), 2, 2), bgra_to_nv12(&other, 2, 2));
    assert_eq!(bgra_to_iyuv(&frame(&PIXELS), 2, 2), bgra_to_iyuv(&other, 2, 2));
}

#[test]
fn odd_sizes_leave_bytes_at_zero() {
    let data = frame(&[[255, 255, 255, 0]; 9]);
    assert_eq!(
        bgra_to_nv12(&data, 3, 3),
        vec![234, 234, 234, 234, 234, 234, 234, 234, 234, 128, 128, 0, 0]
    );
    assert_eq!(
        bgra_to_iyuv(&data, 3, 3),
        vec![234, 234, 234, 234, 234, 234, 234, 234, 234, 128, 0, 128, 0]
    );
}

#[test]
fn empty_frames_are_empty() {
    assert!(bgra_to_nv12(&[], 0, 7).is_empty());
    assert!(bgra_to_iyuv(&[], 7, 0).is_empty());
}
