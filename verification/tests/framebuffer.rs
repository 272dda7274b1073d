use softraster::Framebuffer;

#[test]
fn test_dimensions() {
    let fb = Framebuffer::new(800, 600).unwrap();
    assert_eq!(fb.width, 800);
    assert_eq!(fb.height, 600);
    assert_eq!(fb.data().len(), 800 * 600 * 3);
}

#[test]
fn test_set_and_get_pixel() {
    let mut fb = Framebuffer::new(10, 10).unwrap();
    fb.set_pixel(3, 7, 255, 128, 0);
    assert_eq!(fb.get_pixel(3, 7), (255, 128, 0));
}

#[test]
fn test_out_of_bounds_does_not_panic() {
    let mut fb = Framebuffer::new(10, 10).unwrap();
    fb.set_pixel(10, 10, 255, 0, 0); // exactly at boundary — should be ignored
    fb.set_pixel(100, 100, 255, 0, 0); // way out — should be ignored
}

#[test]
fn test_clear() {
    let mut fb = Framebuffer::new(4, 4).unwrap();
    fb.clear(100, 150, 200);
    for y in 0..4 {
        for x in 0..4 {
            assert_eq!(fb.get_pixel(x, y), (100, 150, 200));
        }
    }
}

#[test]
fn new_framebuffer_is_black() {
    let fb = Framebuffer::new(3, 2).unwrap();
    assert!(fb.data().iter().all(|&b| b == 0));
    assert_eq!(fb.get_pixel(2, 1), (0, 0, 0));
}

#[test]
fn new_refuses_overflowing_dimensions() {
    let err = Framebuffer::new(usize::MAX, 2).err().unwrap();
    assert_eq!(
        err,
        format!("Framebuffer dimensions {}x2 overflow usize", usize::MAX)
    );
    assert_eq!(
        Framebuffer::new(usize::MAX / 3 + 1, 1).err().unwrap(),
        format!("Framebuffer dimensions {}x1 overflow usize", usize::MAX / 3 + 1)
    );
}

#[test]
fn overflow_message_spells_out_the_dimensions() {
    let err = Framebuffer::new(18446744073709551615, 7).err().unwrap();
    assert_eq!(err, "Framebuffer dimensions 18446744073709551615x7 overflow usize");
}

#[test]
fn get_pixel_out_of_bounds_is_black() {
    let mut fb = Framebuffer::new(2, 2).unwrap();
    fb.clear(9, 9, 9);
    assert_eq!(fb.get_pixel(2, 0), (0, 0, 0));
    assert_eq!(fb.get_pixel(0, 2), (0, 0, 0));
}

#[test]
fn set_pixel_leaves_neighbours() {
    let mut fb = Framebuffer::new(3, 3).unwrap();
    fb.set_pixel(1, 1, 1, 2, 3);
    assert_eq!(fb.get_pixel(1, 1), (1, 2, 3));
    assert_eq!(fb.get_pixel(0, 1), (0, 0, 0));
    assert_eq!(fb.get_pixel(2, 1), (0, 0, 0));
    assert_eq!(fb.get_pixel(1, 0), (0, 0, 0));
    assert_eq!(fb.get_pixel(1, 2), (0, 0, 0));
    // the packed layout: row 1, column 1 starts at byte (1 * 3 + 1) * 3
    assert_eq!(&fb.data()[12..15], &[1, 2, 3]);
}

#[test]
fn second_write_wins() {
    let mut fb = Framebuffer::new(2, 2).unwrap();
    fb.set_pixel(0, 1, 10, 20, 30);
    fb.set_pixel(0, 1, 40, 50, 60);
    assert_eq!(fb.get_pixel(0, 1), (40, 50, 60));
}

#[test]
fn out_of_bounds_write_changes_nothing() {
    let mut fb = Framebuffer::new(2, 2).unwrap();
    fb.clear(5, 6, 7);
    let before = fb.data().to_vec();
    fb.set_pixel(2, 0, 1, 1, 1);
    fb.set_pixel(0, 2, 1, 1, 1);
    assert_eq!(fb.data(), &before[..]);
}

#[test]
fn zero_sized_framebuffer() {
    let mut fb = Framebuffer::new(0, 5).unwrap();
    assert_eq!(fb.data().len(), 0);
    fb.clear(1, 2, 3);
    fb.set_pixel(0, 0, 1, 2, 3);
    assert_eq!(fb.get_pixel(0, 0), (0, 0, 0));
}

#[test]
fn ppm_encoding() {
    let mut fb = Framebuffer::new(2, 1).unwrap();
    fb.set_pixel(0, 0, 1, 2, 3);
    fb.set_pixel(1, 0, 4, 5, 6);
    let mut expected = b"P6\n2 1\n255\n".to_vec();
    expected.extend_from_slice(&[1, 2, 3, 4, 5, 6]);
    assert_eq!(fb.ppm_bytes(), expected);
}

#[test]
fn ppm_header_of_larger_image() {
    let fb = Framebuffer::new(640, 10).unwrap();
    let bytes = fb.ppm_bytes();
    assert!(bytes.starts_with(b"P6\n640 10\n255\n"));
    assert_eq!(bytes.len(), "P6\n640 10\n255\n".len() + 640 * 10 * 3);
}

#[test]
fn rgba_adds_opaque_alpha() {
    let mut fb = Framebuffer::new(2, 1).unwrap();
    fb.set_pixel(0, 0, 1, 2, 3);
    fb.set_pixel(1, 0, 4, 5, 6);
    assert_eq!(fb.as_rgba(), vec![1, 2, 3, 255, 4, 5, 6, 255]);
}
