use toybox::framebuffer::{framebuffer_from_pixels, FrameError};

#[test]
fn pixels_land_in_row_major_order() {
    let pixels = vec![[1, 2, 3], [4, 5, 6], [7, 8, 9], [10, 11, 12], [13, 14, 15], [16, 17, 18]];
    let img = framebuffer_from_pixels(3, 2, &pixels).unwrap();
    assert_eq!(img.width(), 3);
    assert_eq!(img.height(), 2);
    let rgb = img.as_rgb8().unwrap();
    assert_eq!(rgb.get_pixel(2, 0).0, [7, 8, 9]);
    assert_eq!(rgb.get_pixel(0, 1).0, [10, 11, 12]);
    assert_eq!(img.as_bytes().len(), 18);
    assert_eq!(img.as_bytes()[15..18], [16, 17, 18]);
}

#[test]
fn background_frame() {
    let pixels = vec![[51, 178, 204]; 4 * 3];
    let img = framebuffer_from_pixels(4, 3, &pixels).unwrap();
    let rgb = img.as_rgb8().unwrap();
    for p in rgb.pixels() {
        assert_eq!(p.0, [51, 178, 204]);
    }
}

#[test]
fn frame_errors() {
    assert_eq!(framebuffer_from_pixels(0, 2, &vec![]).err(), Some(FrameError::EmptyImage));
    assert_eq!(framebuffer_from_pixels(2, 0, &vec![]).err(), Some(FrameError::EmptyImage));
    assert_eq!(
        framebuffer_from_pixels(2, 2, &vec![[0, 0, 0]; 3]).err(),
        Some(FrameError::PixelCountMismatch)
    );
}
