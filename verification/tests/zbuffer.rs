use softraster::ZBuffer;

#[test]
fn new_zbuffer_is_far_everywhere() {
    let zb = ZBuffer::new(3, 2, f32::INFINITY);
    for y in 0..2 {
        for x in 0..3 {
            assert_eq!(zb.get_depth(x, y), f32::INFINITY);
        }
    }
}

#[test]
fn depth_read_after_write() {
    let mut zb = ZBuffer::new(4, 4, f32::INFINITY);
    zb.set_depth(2, 3, 0.25);
    assert_eq!(zb.get_depth(2, 3), 0.25);
    assert_eq!(zb.get_depth(3, 2), f32::INFINITY);
}

#[test]
fn test_and_set_keeps_the_closest() {
    let mut zb = ZBuffer::new(2, 2, f32::INFINITY);
    assert!(zb.test_and_set(1, 1, 0.5));
    assert_eq!(zb.get_depth(1, 1), 0.5);
    assert!(!zb.test_and_set(1, 1, 0.75));
    assert_eq!(zb.get_depth(1, 1), 0.5);
    assert!(!zb.test_and_set(1, 1, 0.5));
    assert!(zb.test_and_set(1, 1, 0.0));
    assert_eq!(zb.get_depth(1, 1), 0.0);
}

#[test]
fn integer_depths() {
    let mut zb = ZBuffer::new(3, 1, u16::MAX);
    assert!(zb.test_and_set(0, 0, 7));
    assert!(!zb.test_and_set(0, 0, 9));
    assert_eq!(zb.get_depth(0, 0), 7);
    zb.clear(u16::MAX);
    assert_eq!(zb.get_depth(0, 0), u16::MAX);
}

#[test]
fn only_pixels_of_the_image_are_addressed() {
    let zb = ZBuffer::new(10, 10, 0i32);
    assert!(zb.contains(9, 9));
    assert!(!zb.contains(10, 0));
    assert!(!zb.contains(0, 10));
    assert_eq!((zb.width(), zb.height()), (10, 10));
}
